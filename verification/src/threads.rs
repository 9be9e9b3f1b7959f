//! Starting threads: the decisions of a new thread created from a draft,
//! implementing a proposed plan in a new thread, and the set of requests
//! in flight that keeps a button from firing twice.

use vstd::prelude::*;

use crate::interaction;
use crate::plan;
use crate::providers::ModelSelection;
use crate::shell::{self, ProjectShell};
use crate::text;

verus! {

/// Keys of requests in flight; no key listed twice.
pub struct InFlight {
    pub keys: Vec<String>,
}

impl InFlight {
    pub open spec fn wf(&self) -> bool {
        text::distinct(self.keys@)
    }

    pub open spec fn holds(&self, key: Seq<char>) -> bool {
        text::is_member(self.keys@, key)
    }

    /// Claim `key`: refused (false) while a request with that key is in
    /// flight.
    pub fn insert(&mut self, key: &str) -> (fresh: bool)
        requires
            old(self).wf(),
        ensures
            final(self).wf(),
            fresh == !old(self).holds(key@),
            final(self).holds(key@),
            forall|k: Seq<char>| k != key@ ==> final(self).holds(k) == old(self).holds(k),
    {
        match text::position_of(&self.keys, key) {
            Some(_) => false,
            None => {
                text::toggle_member(&mut self.keys, key);
                true
            },
        }
    }

    /// Release `key`.
    pub fn remove(&mut self, key: &str)
        requires
            old(self).wf(),
        ensures
            final(self).wf(),
            !final(self).holds(key@),
            forall|k: Seq<char>| k != key@ ==> final(self).holds(k) == old(self).holds(k),
    {
        if let Some(_) = text::position_of(&self.keys, key) {
            text::toggle_member(&mut self.keys, key);
        }
    }
}

/// The in-flight key of implementing plan `plan` of thread `thread`.
pub open spec fn implement_plan_key(thread: Seq<char>, plan: Seq<char>) -> Seq<char> {
    "implement-plan:"@ + thread + ":"@ + plan
}

pub fn implement_plan_operation(thread_id: &str, plan_id: &str) -> (r: String)
    ensures
        r@ == implement_plan_key(thread_id@, plan_id@),
{
    let mut s = String::from_str("implement-plan:");
    text::push_str(&mut s, thread_id);
    text::push_str(&mut s, ":");
    text::push_str(&mut s, plan_id);
    s
}

/// The title of the thread that implements a plan.
pub open spec fn implement_title_spec(md: Seq<char>) -> Seq<char> {
    match plan::plan_title(md) {
        Some(t) => "Implement: "@ + t,
        None => "Implement plan"@,
    }
}

pub fn implement_plan_title(markdown: &str) -> (r: String)
    ensures
        r@ == implement_title_spec(markdown@),
{
    match plan::proposed_plan_title(markdown) {
        Some(t) => {
            let mut s = String::from_str("Implement: ");
            text::push_str(&mut s, t.as_str());
            s
        },
        None => String::from_str("Implement plan"),
    }
}

/// The first message of the thread that implements a plan.
pub fn implement_plan_prompt(markdown: &str) -> (r: String)
    ensures
        r@ == interaction::implement_plan_header() + text::trim(markdown@),
{
    let mut s = String::from_str("PLEASE IMPLEMENT THIS PLAN:\n");
    let v = text::chars_of(markdown);
    let (a, b) = text::trim_range(&v, 0, v.len());
    assert(v@.subrange(0, v@.len() as int) =~= v@);
    let t = text::string_of(&v, a, b);
    text::push_str(&mut s, t.as_str());
    s
}

/// The error notice when implementing a plan failed: whether the new
/// thread was created decides the advice.
pub open spec fn implement_failure_spec(created: bool, error: Seq<char>) -> Seq<char> {
    (if created {
        "The new thread was created, but starting the plan was not confirmed. Click to inspect it before retrying"@
    } else {
        "Could not create a thread for this plan"@
    }) + ": "@ + error
}

pub fn implement_plan_failure(created: bool, error: &str) -> (r: String)
    ensures
        r@ == implement_failure_spec(created, error@),
{
    let mut s = if created {
        String::from_str(
            "The new thread was created, but starting the plan was not confirmed. Click to inspect it before retrying",
        )
    } else {
        String::from_str("Could not create a thread for this plan")
    };
    text::push_str(&mut s, ": ");
    text::push_str(&mut s, error);
    s
}

/// What creating a thread from the draft does.
pub enum DraftCreate {
    /// Tell the user why not.
    Fail(String),
    /// Nothing to do now (offline, or a creation already runs).
    Skip,
    /// Create the thread in `project_id` with `model`.
    Create { project_id: String, model: ModelSelection },
}

/// The project a new thread goes to: the explicit one, else the open
/// thread's, else (with neither) the first project.
pub open spec fn creation_project(
    explicit: Option<Seq<char>>,
    open_project: Option<Seq<char>>,
    ps: Seq<ProjectShell>,
) -> Option<Seq<char>> {
    let id = if explicit is Some {
        explicit
    } else {
        open_project
    };
    match id {
        Some(i) => Some(i),
        None => if ps.len() > 0 {
            Some(ps[0].id@)
        } else {
            None
        },
    }
}

/// The project whose defaults apply: the one with the chosen id, or the
/// first when no id was chosen.
pub open spec fn creation_project_entry(
    explicit: Option<Seq<char>>,
    open_project: Option<Seq<char>>,
    ps: Seq<ProjectShell>,
) -> Option<int> {
    let id = if explicit is Some {
        explicit
    } else {
        open_project
    };
    match id {
        Some(i) => shell::project_index_from(ps, i, 0),
        None => if ps.len() > 0 {
            Some(0)
        } else {
            None
        },
    }
}

/// Decide a draft's thread creation. `fallback` is the default model for
/// the configured providers.
pub fn plan_draft_thread(
    explicit: Option<&str>,
    open_project: Option<&str>,
    projects: &[ProjectShell],
    draft_model: Option<&ModelSelection>,
    fallback: Option<ModelSelection>,
    connected: bool,
    creating: bool,
) -> (r: DraftCreate)
    ensures
        match r {
            DraftCreate::Fail(m) => (creation_project(
                shell::opt_str(explicit),
                shell::opt_str(open_project),
                projects@,
            ) is None && m@ == "No project yet — open a folder."@) || (creation_project(
                shell::opt_str(explicit),
                shell::opt_str(open_project),
                projects@,
            ) is Some && connected && draft_model is None && fallback is None && !(
            creation_project_entry(shell::opt_str(explicit), shell::opt_str(open_project), projects@)
                matches Some(k) && projects@[k].default_model_selection is Some)
                && m@ == "No provider configured."@),
            DraftCreate::Skip => creation_project(
                shell::opt_str(explicit),
                shell::opt_str(open_project),
                projects@,
            ) is Some && (!connected || creating),
            DraftCreate::Create { project_id, model } => {
                &&& connected && !creating
                &&& creation_project(
                    shell::opt_str(explicit),
                    shell::opt_str(open_project),
                    projects@,
                ) == Some(project_id@)
                &&& model == match draft_model {
                    Some(m) => *m,
                    None => match creation_project_entry(
                        shell::opt_str(explicit),
                        shell::opt_str(open_project),
                        projects@,
                    ) {
                        Some(k) => match projects@[k].default_model_selection {
                            Some(d) => d,
                            None => fallback->0,
                        },
                        None => fallback->0,
                    },
                }
            },
        },
{
    let chosen: Option<&str> = match explicit {
        Some(e) => Some(e),
        None => open_project,
    };
    let entry: Option<usize> = match chosen {
        Some(id) => find_project(projects, id),
        None => if projects.len() > 0 {
            Some(0)
        } else {
            None
        },
    };
    let project_id = match chosen {
        Some(id) => text::string_from(&text::chars_of(id)),
        None => match entry {
            Some(k) => text::string_from(&text::chars_of(projects[k].id.as_str())),
            None => return DraftCreate::Fail(String::from_str("No project yet — open a folder.")),
        },
    };
    if !connected {
        return DraftCreate::Skip;
    }
    let model = match draft_model {
        Some(m) => copy_selection(m),
        None => {
            let from_project = match entry {
                Some(k) => match &projects[k].default_model_selection {
                    Some(d) => Some(copy_selection(d)),
                    None => None,
                },
                None => None,
            };
            match from_project {
                Some(d) => d,
                None => match fallback {
                    Some(f) => f,
                    None => return DraftCreate::Fail(String::from_str("No provider configured.")),
                },
            }
        },
    };
    if creating {
        return DraftCreate::Skip;
    }
    DraftCreate::Create { project_id, model }
}

fn find_project(projects: &[ProjectShell], id: &str) -> (r: Option<usize>)
    ensures
        match r {
            Some(k) => shell::project_index_from(projects@, id@, 0) == Some(k as int) && k
                < projects@.len(),
            None => shell::project_index_from(projects@, id@, 0) is None,
        },
{
    let mut i: usize = 0;
    while i < projects.len()
        invariant
            i <= projects@.len(),
            shell::project_index_from(projects@, id@, 0) == shell::project_index_from(
                projects@,
                id@,
                i as int,
            ),
        decreases projects@.len() - i,
    {
        if text::str_eq(projects[i].id.as_str(), id) {
            return Some(i);
        }
        i += 1;
    }
    None
}

fn copy_opt(s: &Option<String>) -> (r: Option<String>)
    ensures
        r == *s,
{
    match s {
        Some(x) => Some(x.clone()),
        None => None,
    }
}

fn copy_selection(m: &ModelSelection) -> (r: ModelSelection)
    ensures
        r == *m,
{
    ModelSelection { instance_id: copy_opt(&m.instance_id), model: copy_opt(&m.model) }
}

/// A created thread is opened only when the user still waits on that
/// draft: no thread was opened meanwhile and the draft still targets the
/// same project.
pub fn adopt_created_thread(thread_open: bool, draft_project: Option<&str>, created_project: &str) -> (b:
    bool)
    ensures
        b == (!thread_open && (draft_project matches Some(d) && d@ == created_project@)),
{
    !thread_open && match draft_project {
        Some(d) => text::str_eq(d, created_project),
        None => false,
    }
}

} // verus!
