//! The shell snapshot as the chat view reads it: the sidebar's thread
//! order, looking threads and projects up, the workspace root that file
//! search and the files panel use, and the project a new draft opens on.

use vstd::prelude::*;

use crate::order;
use crate::text;

verus! {

/// A thread of the shell snapshot.
pub struct ThreadShell {
    pub id: String,
    pub project_id: String,
    pub title: String,
    pub created_at: String,
    pub updated_at: String,
    pub archived: bool,
    pub worktree_path: Option<String>,
}

/// A project of the shell snapshot.
pub struct ProjectShell {
    pub id: String,
    pub title: String,
    pub workspace_root: String,
    pub default_model_selection: Option<crate::providers::ModelSelection>,
}

fn copy_string(s: &String) -> (r: String)
    ensures
        r@ == s@,
{
    text::string_from(&text::chars_of(s.as_str()))
}

pub open spec fn created_keys(ts: Seq<ThreadShell>) -> Seq<Seq<char>> {
    ts.map_values(|t: ThreadShell| t.created_at@)
}

/// `r` lists the unarchived threads once each, newest first, ties in list
/// order.
pub open spec fn shell_order(ts: Seq<ThreadShell>, r: Seq<usize>) -> bool {
    &&& forall|q: int| 0 <= q < r.len() ==> r[q] < ts.len() && !ts[r[q] as int].archived
    &&& forall|a: int, b: int|
        0 <= a < b < r.len() ==> #[trigger] order::desc_before(
            created_keys(ts),
            r[a] as int,
            r[b] as int,
        )
    &&& forall|v: int| 0 <= v < ts.len() && !ts[v].archived ==> #[trigger] order::lists(r, v)
}

/// The sidebar's threads: archived ones left out, newest first.
pub fn shell_threads(threads: &[ThreadShell]) -> (r: Vec<usize>)
    ensures
        shell_order(threads@, r@),
{
    let ghost ts = threads@;
    let mut idx: Vec<usize> = Vec::new();
    let mut keys: Vec<Vec<char>> = Vec::new();
    let mut i: usize = 0;
    while i < threads.len()
        invariant
            ts == threads@,
            i <= ts.len(),
            idx@.len() == keys@.len(),
            forall|q: int| 0 <= q < idx@.len() ==> idx@[q] < i && !ts[idx@[q] as int].archived,
            forall|a: int, b: int| 0 <= a < b < idx@.len() ==> idx@[a] < idx@[b],
            forall|q: int| 0 <= q < idx@.len() ==> keys@[q]@ == ts[idx@[q] as int].created_at@,
            forall|v: int| 0 <= v < i && !ts[v].archived ==> #[trigger] order::lists(idx@, v),
        decreases ts.len() - i,
    {
        if !threads[i].archived {
            let ghost before = idx@;
            idx.push(i);
            keys.push(text::chars_of(threads[i].created_at.as_str()));
            proof {
                assert forall|v: int| 0 <= v < i + 1 && !ts[v].archived implies #[trigger] order::lists(
                    idx@,
                    v,
                ) by {
                    if v == i {
                        assert(idx@[before.len() as int] == v);
                    } else {
                        assert(order::lists(before, v));
                        let q = choose|q: int| 0 <= q < before.len() && before[q] == v;
                        assert(idx@[q] == v);
                    }
                }
            }
        }
        i += 1;
    }
    let positions = order::stable_order_desc(&keys);
    let ghost ks = order::keys_view(keys@);
    assert forall|q: int| 0 <= q < ks.len() implies ks[q] == created_keys(ts)[idx@[q] as int] by {
        assert(ks[q] == keys@[q]@);
    }
    let mut r: Vec<usize> = Vec::new();
    let mut p: usize = 0;
    while p < positions.len()
        invariant
            ts == threads@,
            order::ordered_desc(ks, positions@),
            ks.len() == idx@.len(),
            forall|q: int| 0 <= q < ks.len() ==> ks[q] == created_keys(ts)[idx@[q] as int],
            forall|q: int| 0 <= q < idx@.len() ==> idx@[q] < ts.len() && !ts[idx@[q] as int].archived,
            forall|a: int, b: int| 0 <= a < b < idx@.len() ==> idx@[a] < idx@[b],
            p <= positions@.len(),
            r@.len() == p,
            forall|q: int| 0 <= q < p ==> r@[q] == idx@[positions@[q] as int],
        decreases positions@.len() - p,
    {
        r.push(idx[positions[p]]);
        p += 1;
    }
    proof {
        assert forall|a: int, b: int| 0 <= a < b < r@.len() implies #[trigger] order::desc_before(
            created_keys(ts),
            r@[a] as int,
            r@[b] as int,
        ) by {
            let pa = positions@[a] as int;
            let pb = positions@[b] as int;
            assert(order::desc_before(ks, pa, pb));
            if ks[pa] == ks[pb] {
                text::lemma_seq_lt_irreflexive(ks[pa]);
                assert(pa < pb);
                assert(idx@[pa] < idx@[pb]);
            }
        }
        assert forall|v: int| 0 <= v < ts.len() && !ts[v].archived implies #[trigger] order::lists(
            r@,
            v,
        ) by {
            assert(order::lists(idx@, v));
            let q = choose|q: int| 0 <= q < idx@.len() && idx@[q] == v;
            assert(order::lists(positions@, q));
            let t = choose|t: int| 0 <= t < positions@.len() && positions@[t] == q;
            assert(r@[t] == v);
        }
    }
    r
}

/// Index of the first thread with id `id`, from `i` on.
pub open spec fn thread_index_from(ts: Seq<ThreadShell>, id: Seq<char>, i: int) -> Option<int>
    decreases ts.len() - i,
{
    if i < 0 || i >= ts.len() {
        None
    } else if ts[i].id@ == id {
        Some(i)
    } else {
        thread_index_from(ts, id, i + 1)
    }
}

/// The shell's copy of thread `id`.
pub fn shell_thread(threads: &[ThreadShell], id: &str) -> (r: Option<usize>)
    ensures
        match r {
            Some(i) => thread_index_from(threads@, id@, 0) == Some(i as int) && i < threads@.len(),
            None => thread_index_from(threads@, id@, 0) is None,
        },
{
    let mut i: usize = 0;
    while i < threads.len()
        invariant
            i <= threads@.len(),
            thread_index_from(threads@, id@, 0) == thread_index_from(threads@, id@, i as int),
        decreases threads@.len() - i,
    {
        if text::str_eq(threads[i].id.as_str(), id) {
            return Some(i);
        }
        i += 1;
    }
    None
}

/// The thread's title, or `(untitled)` when the shell does not know it.
pub fn thread_title(threads: &[ThreadShell], id: &str) -> (r: String)
    ensures
        r@ == match thread_index_from(threads@, id@, 0) {
            Some(i) => threads@[i].title@,
            None => "(untitled)"@,
        },
{
    match shell_thread(threads, id) {
        Some(i) => copy_string(&threads[i].title),
        None => String::from_str("(untitled)"),
    }
}

/// Index of the first project with id `id`, from `i` on.
pub open spec fn project_index_from(ps: Seq<ProjectShell>, id: Seq<char>, i: int) -> Option<int>
    decreases ps.len() - i,
{
    if i < 0 || i >= ps.len() {
        None
    } else if ps[i].id@ == id {
        Some(i)
    } else {
        project_index_from(ps, id, i + 1)
    }
}

/// The workspace root of project `id`.
pub open spec fn project_root_spec(ps: Seq<ProjectShell>, id: Seq<char>) -> Option<Seq<char>> {
    match project_index_from(ps, id, 0) {
        Some(i) => Some(ps[i].workspace_root@),
        None => None,
    }
}

pub fn project_root(projects: &[ProjectShell], id: &str) -> (r: Option<String>)
    ensures
        match r {
            Some(s) => project_root_spec(projects@, id@) == Some(s@),
            None => project_root_spec(projects@, id@) is None,
        },
{
    let mut i: usize = 0;
    while i < projects.len()
        invariant
            i <= projects@.len(),
            project_index_from(projects@, id@, 0) == project_index_from(projects@, id@, i as int),
        decreases projects@.len() - i,
    {
        if text::str_eq(projects[i].id.as_str(), id) {
            return Some(copy_string(&projects[i].workspace_root));
        }
        i += 1;
    }
    None
}

/// Where the open thread works: its worktree, else its project's root.
pub open spec fn open_root_spec(
    ts: Seq<ThreadShell>,
    ps: Seq<ProjectShell>,
    open: Option<Seq<char>>,
) -> Option<Seq<char>> {
    match open {
        None => None,
        Some(id) => match thread_index_from(ts, id, 0) {
            None => None,
            Some(i) => match ts[i].worktree_path {
                Some(w) => Some(w@),
                None => project_root_spec(ps, ts[i].project_id@),
            },
        },
    }
}

pub open spec fn opt_str(o: Option<&str>) -> Option<Seq<char>> {
    match o {
        Some(s) => Some(s@),
        None => None,
    }
}

pub open spec fn opt_string(o: Option<String>) -> Option<Seq<char>> {
    match o {
        Some(s) => Some(s@),
        None => None,
    }
}

/// The open thread's working root.
pub fn open_project_root(threads: &[ThreadShell], projects: &[ProjectShell], open: Option<&str>) -> (r:
    Option<String>)
    ensures
        opt_string(r) == open_root_spec(threads@, projects@, opt_str(open)),
{
    let id = open?;
    let i = shell_thread(threads, id)?;
    match &threads[i].worktree_path {
        Some(w) => Some(copy_string(w)),
        None => project_root(projects, threads[i].project_id.as_str()),
    }
}

/// The root file search looks at: the explicitly selected workspace, the
/// open thread's root, the draft's project root, else the first project's.
pub open spec fn search_root_spec(
    selected: Option<Seq<char>>,
    ts: Seq<ThreadShell>,
    ps: Seq<ProjectShell>,
    open: Option<Seq<char>>,
    draft_project: Option<Seq<char>>,
) -> Option<Seq<char>> {
    if selected is Some {
        selected
    } else if open_root_spec(ts, ps, open) is Some {
        open_root_spec(ts, ps, open)
    } else if (draft_project matches Some(d) && project_root_spec(ps, d) is Some) {
        project_root_spec(ps, draft_project->0)
    } else if ps.len() > 0 {
        Some(ps[0].workspace_root@)
    } else {
        None
    }
}

pub fn search_root(
    selected: Option<&str>,
    threads: &[ThreadShell],
    projects: &[ProjectShell],
    open: Option<&str>,
    draft_project: Option<&str>,
) -> (r: Option<String>)
    ensures
        opt_string(r) == search_root_spec(
            opt_str(selected),
            threads@,
            projects@,
            opt_str(open),
            opt_str(draft_project),
        ),
{
    if let Some(s) = selected {
        return Some(text::string_from(&text::chars_of(s)));
    }
    if let Some(r) = open_project_root(threads, projects, open) {
        return Some(r);
    }
    if let Some(d) = draft_project {
        if let Some(r) = project_root(projects, d) {
            return Some(r);
        }
    }
    if projects.len() > 0 {
        Some(copy_string(&projects[0].workspace_root))
    } else {
        None
    }
}

/// Among the sidebar positions `order[..n]`, the last one with the greatest
/// last-visited time (`visited`, by thread index).
pub open spec fn latest_visited(order: Seq<usize>, visited: Seq<Option<i64>>, n: int) -> Option<usize>
    decreases n,
{
    if n <= 0 {
        None
    } else {
        let best = latest_visited(order, visited, n - 1);
        let t = order[n - 1];
        match visited[t as int] {
            None => best,
            Some(v) => match best {
                Some(b) => if visited[b as int] matches Some(bv) && v < bv {
                    best
                } else {
                    Some(t)
                },
                None => Some(t),
            },
        }
    }
}

/// The project a new draft opens on: the project of the most recently
/// visited sidebar thread (the later one on a tie), else the first
/// project.
pub open spec fn draft_project_spec(
    ts: Seq<ThreadShell>,
    order: Seq<usize>,
    visited: Seq<Option<i64>>,
    ps: Seq<ProjectShell>,
) -> Option<Seq<char>> {
    match latest_visited(order, visited, order.len() as int) {
        Some(t) => Some(ts[t as int].project_id@),
        None => if ps.len() > 0 {
            Some(ps[0].id@)
        } else {
            None
        },
    }
}

/// `visited` gives each thread's last-visited time, by thread index.
pub fn draft_project_choice(
    threads: &[ThreadShell],
    visited: &[Option<i64>],
    projects: &[ProjectShell],
) -> (r: Option<String>)
    requires
        visited@.len() == threads@.len(),
    ensures
        exists|order: Seq<usize>|
            shell_order(threads@, order) && opt_string(r) == draft_project_spec(
                threads@,
                order,
                visited@,
                projects@,
            ),
{
    let order = shell_threads(threads);
    let mut best: Option<usize> = None;
    let mut k: usize = 0;
    while k < order.len()
        invariant
            shell_order(threads@, order@),
            visited@.len() == threads@.len(),
            k <= order@.len(),
            best == latest_visited(order@, visited@, k as int),
            best matches Some(b) ==> b < threads@.len() && visited@[b as int] is Some,
        decreases order@.len() - k,
    {
        let t = order[k];
        if let Some(v) = visited[t] {
            let replace = match best {
                Some(b) => match visited[b] {
                    Some(bv) => !(v < bv),
                    None => true,
                },
                None => true,
            };
            if replace {
                best = Some(t);
            }
        }
        k += 1;
    }
    match best {
        Some(t) => Some(copy_string(&threads[t].project_id)),
        None => if projects.len() > 0 {
            Some(copy_string(&projects[0].id))
        } else {
            None
        },
    }
}

/// Thread `i` is the project's newest thread: unarchived, in the project,
/// and ahead of every other such thread in the sidebar's order.
pub open spec fn newest_in_project(ts: Seq<ThreadShell>, project: Seq<char>, i: int) -> bool {
    &&& 0 <= i < ts.len()
    &&& !ts[i].archived
    &&& ts[i].project_id@ == project
    &&& forall|v: int|
        0 <= v < ts.len() && v != i && !ts[v].archived && ts[v].project_id@ == project
            ==> order::desc_before(created_keys(ts), i, v)
}

/// The thread that opening a project from search lands on: the project's
/// newest thread; `None` when it has none, and a new draft opens instead.
pub fn project_latest_thread(threads: &[ThreadShell], project_id: &str) -> (r: Option<usize>)
    ensures
        match r {
            Some(i) => newest_in_project(threads@, project_id@, i as int),
            None => forall|v: int|
                0 <= v < threads@.len() ==> threads@[v].archived || threads@[v].project_id@
                    != project_id@,
        },
{
    let ghost ts = threads@;
    let order = shell_threads(threads);
    let mut q: usize = 0;
    while q < order.len()
        invariant
            ts == threads@,
            shell_order(ts, order@),
            q <= order@.len(),
            forall|p: int| 0 <= p < q ==> ts[order@[p] as int].project_id@ != project_id@,
        decreases order@.len() - q,
    {
        let i = order[q];
        if text::str_eq(threads[i].project_id.as_str(), project_id) {
            proof {
                assert forall|v: int|
                    0 <= v < ts.len() && v != i && !ts[v].archived && ts[v].project_id@
                        == project_id@ implies order::desc_before(created_keys(ts), i as int, v) by {
                    assert(order::lists(order@, v));
                    let p = choose|p: int| 0 <= p < order@.len() && order@[p] == v;
                    assert(p != q as int);
                    if p < q {
                        assert(ts[order@[p] as int].project_id@ != project_id@);
                    } else {
                        assert(order::desc_before(created_keys(ts), order@[q as int] as int, order@[p] as int));
                    }
                }
            }
            return Some(i);
        }
        q += 1;
    }
    proof {
        assert forall|v: int| 0 <= v < ts.len() implies ts[v].archived || ts[v].project_id@
            != project_id@ by {
            if !ts[v].archived {
                assert(order::lists(order@, v));
            }
        }
    }
    None
}


/// What `std::path::Path::strip_prefix` leaves of `path` below `root`, as
/// text; `None` when `path` is not below `root`.
pub uninterp spec fn stripped_path(path: Seq<char>, root: Seq<char>) -> Option<Seq<char>>;

/// `std::path::Path::strip_prefix`, the rest as text (`to_string_lossy`).
/// Claimed: the result depends on the two paths alone (component-wise, by
/// the build target's path rules).
#[verifier::external_body]
fn strip_root(path: &str, root: &str) -> (r: Option<String>)
    ensures
        text::opt_seq(r) == stripped_path(path@, root@),
{
    std::path::Path::new(path).strip_prefix(root).ok().map(|p| p.to_string_lossy().into_owned())
}

/// Where a clicked terminal file link goes.
pub enum TerminalFileTarget {
    /// Open this workspace-relative path in the dock.
    Open(String),
    /// Inside the workspace, but no thread dock to open it in: nothing.
    NoDock,
    /// Outside the current workspace: warn.
    Outside,
}

/// A clicked terminal file link: opened relative to the search root when
/// it lies below it, else reported as outside the workspace.
pub fn terminal_file_target(search_root: Option<&str>, path: &str, has_dock_key: bool) -> (r:
    TerminalFileTarget)
    ensures
        match (match search_root {
            Some(root) => stripped_path(path@, root@),
            None => None,
        }) {
            Some(rel) => if has_dock_key {
                r matches TerminalFileTarget::Open(p) && p@ == rel
            } else {
                r is NoDock
            },
            None => r is Outside,
        },
{
    let rel = match search_root {
        Some(root) => strip_root(path, root),
        None => None,
    };
    match rel {
        Some(p) => if has_dock_key {
            TerminalFileTarget::Open(p)
        } else {
            TerminalFileTarget::NoDock
        },
        None => TerminalFileTarget::Outside,
    }
}

} // verus!
