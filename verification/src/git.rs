//! The chat header's git controls: the busy/ownership lifecycle of a
//! running action, the progress-event stream of a stacked action (which
//! events belong to it, how each one rewrites the progress toast), the
//! default-branch prompt, the commit dialog's file selection, and the pull
//! result copy.

use vstd::prelude::*;

use crate::text;

verus! {

/// Whether a git action runs, and which run owns the toast slot.
pub struct GitActivity {
    pub busy: bool,
    pub action_seq: u64,
}

/// The activity after a start request: refused while busy.
pub open spec fn after_begin(a: GitActivity) -> GitActivity {
    if a.busy {
        a
    } else {
        GitActivity { busy: true, action_seq: (a.action_seq + 1) as u64 }
    }
}

/// The activity after run `seq` settles: released only by the run that
/// owns the slot.
pub open spec fn after_finish(a: GitActivity, seq: u64) -> GitActivity {
    if a.action_seq == seq {
        GitActivity { busy: false, action_seq: a.action_seq }
    } else {
        a
    }
}

impl GitActivity {
    /// Start an action: refused while one runs; otherwise the controls go
    /// busy and the new run's sequence number is returned.
    pub fn begin(&mut self) -> (r: Option<u64>)
        requires
            old(self).action_seq < u64::MAX,
        ensures
            *final(self) == after_begin(*old(self)),
            match r {
                Some(seq) => !old(self).busy && seq == final(self).action_seq,
                None => old(self).busy,
            },
    {
        if self.busy {
            return None;
        }
        self.busy = true;
        self.action_seq = self.action_seq + 1;
        Some(self.action_seq)
    }

    /// A run settled: the controls are released only if that run still
    /// owns the slot. Returns whether it did.
    pub fn finish(&mut self, seq: u64) -> (owned: bool)
        ensures
            owned == (old(self).action_seq == seq),
            *final(self) == after_finish(*old(self), seq),
    {
        if self.action_seq == seq {
            self.busy = false;
            true
        } else {
            false
        }
    }
}

/// A run that started before another one can no longer release the
/// controls: once a newer run has begun, finishing any older run leaves
/// the controls busy, and finishing the newer one releases them.
pub proof fn law_stale_finish_keeps_newer_run(a: GitActivity, older: u64)
    requires
        !a.busy,
        a.action_seq < u64::MAX,
        older <= a.action_seq,
    ensures
        after_finish(after_begin(a), older).busy,
        !after_finish(after_begin(a), after_begin(a).action_seq).busy,
{
}

/// One event of a stacked action's progress stream. `R` is the action's
/// result payload.
pub enum ProgressEvent<R> {
    ActionStarted { action_id: String, cwd: String },
    PhaseStarted { action_id: String, cwd: String, label: String },
    HookStarted { action_id: String, cwd: String, hook_name: String },
    HookOutput { action_id: String, cwd: String, text: String },
    HookFinished { action_id: String, cwd: String },
    ActionFinished { action_id: String, cwd: String, result: R },
    ActionFailed { action_id: String, cwd: String, message: String },
    Unknown,
}

/// Transport id and cwd of an event (every known kind carries both).
pub open spec fn event_ids<R>(e: ProgressEvent<R>) -> Option<(Seq<char>, Seq<char>)> {
    match e {
        ProgressEvent::ActionStarted { action_id, cwd } => Some((action_id@, cwd@)),
        ProgressEvent::PhaseStarted { action_id, cwd, .. } => Some((action_id@, cwd@)),
        ProgressEvent::HookStarted { action_id, cwd, .. } => Some((action_id@, cwd@)),
        ProgressEvent::HookOutput { action_id, cwd, .. } => Some((action_id@, cwd@)),
        ProgressEvent::HookFinished { action_id, cwd } => Some((action_id@, cwd@)),
        ProgressEvent::ActionFinished { action_id, cwd, .. } => Some((action_id@, cwd@)),
        ProgressEvent::ActionFailed { action_id, cwd, .. } => Some((action_id@, cwd@)),
        ProgressEvent::Unknown => None,
    }
}

/// Transport id and cwd of a progress event.
pub fn progress_event_ids<R>(event: &ProgressEvent<R>) -> (r: Option<(&String, &String)>)
    ensures
        match r {
            Some((a, c)) => event_ids(*event) == Some((a@, c@)),
            None => event_ids(*event) is None,
        },
{
    match event {
        ProgressEvent::ActionStarted { action_id, cwd } => Some((action_id, cwd)),
        ProgressEvent::PhaseStarted { action_id, cwd, .. } => Some((action_id, cwd)),
        ProgressEvent::HookStarted { action_id, cwd, .. } => Some((action_id, cwd)),
        ProgressEvent::HookOutput { action_id, cwd, .. } => Some((action_id, cwd)),
        ProgressEvent::HookFinished { action_id, cwd } => Some((action_id, cwd)),
        ProgressEvent::ActionFinished { action_id, cwd, .. } => Some((action_id, cwd)),
        ProgressEvent::ActionFailed { action_id, cwd, .. } => Some((action_id, cwd)),
        ProgressEvent::Unknown => None,
    }
}

/// The event belongs to the run with transport id `id` in `cwd`.
pub open spec fn belongs<R>(e: ProgressEvent<R>, id: Seq<char>, cwd: Seq<char>) -> bool {
    event_ids(e) == Some((id, cwd))
}

/// The event settles the run.
pub open spec fn is_terminal<R>(e: ProgressEvent<R>) -> bool {
    e is ActionFinished || e is ActionFailed
}

/// The events of `es` that update the progress toast: this run's
/// non-terminal events, in order.
pub open spec fn toast_events<R>(es: Seq<ProgressEvent<R>>, id: Seq<char>, cwd: Seq<char>) -> Seq<
    ProgressEvent<R>,
>
    decreases es.len(),
{
    if es.len() == 0 {
        seq![]
    } else {
        let e = es.last();
        toast_events(es.drop_last(), id, cwd) + if belongs(e, id, cwd) && !is_terminal(e) {
            seq![e]
        } else {
            seq![]
        }
    }
}

/// The run's outcome after `es`, starting from `outcome`: the last terminal
/// event of this run decides.
pub open spec fn outcome_after<R>(
    es: Seq<ProgressEvent<R>>,
    id: Seq<char>,
    cwd: Seq<char>,
    outcome: Option<Result<R, Seq<char>>>,
) -> Option<Result<R, Seq<char>>>
    decreases es.len(),
{
    if es.len() == 0 {
        outcome
    } else {
        let before = outcome_after(es.drop_last(), id, cwd, outcome);
        let e = es.last();
        if belongs(e, id, cwd) {
            match e {
                ProgressEvent::ActionFinished { result, .. } => Some(Ok(result)),
                ProgressEvent::ActionFailed { message, .. } => Some(Err(message@)),
                _ => before,
            }
        } else {
            before
        }
    }
}

pub open spec fn outcome_view<R>(o: Option<Result<R, String>>) -> Option<Result<R, Seq<char>>> {
    match o {
        Some(Ok(r)) => Some(Ok(r)),
        Some(Err(m)) => Some(Err(m@)),
        None => None,
    }
}

/// Sort one batch of stream events for the run with transport id `id` in
/// `cwd`: its non-terminal events are returned for the toast, and a
/// terminal event records the outcome.
pub fn split_progress_events<R>(
    events: Vec<ProgressEvent<R>>,
    id: &str,
    cwd: &str,
    outcome: &mut Option<Result<R, String>>,
) -> (relevant: Vec<ProgressEvent<R>>)
    ensures
        relevant@ == toast_events(events@, id@, cwd@),
        outcome_view(*final(outcome)) == outcome_after(events@, id@, cwd@, outcome_view(*old(outcome))),
{
    let total = events.len();
    let ghost all = events@;
    let ghost start = outcome_view(*outcome);
    let mut rest = events;
    let mut relevant: Vec<ProgressEvent<R>> = Vec::new();
    let mut taken: usize = 0;
    while rest.len() > 0
        invariant
            taken <= all.len(),
            all.len() == total,
            rest@ == all.skip(taken as int),
            relevant@ == toast_events(all.take(taken as int), id@, cwd@),
            outcome_view(*outcome) == outcome_after(all.take(taken as int), id@, cwd@, start),
        decreases rest@.len(),
    {
        let event = rest.remove(0);
        proof {
            assert(all.take(taken + 1).drop_last() =~= all.take(taken as int));
            assert(all.take(taken + 1).last() == event);
        }
        let keep = match progress_event_ids(&event) {
            Some((event_id, event_cwd)) => text::str_eq(event_id.as_str(), id) && text::str_eq(
                event_cwd.as_str(),
                cwd,
            ),
            None => false,
        };
        if keep {
            match event {
                ProgressEvent::ActionFinished { result, .. } => {
                    *outcome = Some(Ok(result));
                },
                ProgressEvent::ActionFailed { message, .. } => {
                    *outcome = Some(Err(message));
                },
                other => {
                    relevant.push(other);
                },
            }
        }
        taken += 1;
        assert(rest@ =~= all.skip(taken as int));
    }
    assert(all.take(all.len() as int) =~= all);
    relevant
}

/// The message for a run whose stream ended: its recorded outcome, else
/// the stream's error, else a missing result.
pub fn settle_outcome<R>(outcome: Option<Result<R, String>>, stream_error: Option<String>) -> (r:
    Result<R, String>)
    ensures
        match outcome {
            Some(o) => r == o,
            None => match stream_error {
                Some(e) => r == Err::<R, String>(e),
                None => r matches Err(m) && m@ == "Git action did not report a result."@,
            },
        },
{
    match outcome {
        Some(o) => o,
        None => match stream_error {
            Some(e) => Err(e),
            None => Err(String::from_str("Git action did not report a result.")),
        },
    }
}

/// The progress toast of the running action. Times are monotonic
/// milliseconds.
pub struct GitProgress {
    pub seq: u64,
    pub title: String,
    pub current_phase_label: Option<String>,
    pub last_output_line: Option<String>,
    pub phase_started_at: Option<u64>,
    pub hook_started_at: Option<u64>,
}

pub open spec fn opt_view(o: Option<String>) -> Option<Seq<char>> {
    match o {
        Some(s) => Some(s@),
        None => None,
    }
}

/// The toast state after event `e` at time `now`.
pub open spec fn progress_after<R>(p: GitProgress, e: ProgressEvent<R>, now: u64) -> (
    Seq<char>,
    Option<Seq<char>>,
    Option<Seq<char>>,
    Option<u64>,
    Option<u64>,
) {
    let cur = (
        p.title@,
        opt_view(p.current_phase_label),
        opt_view(p.last_output_line),
        p.phase_started_at,
        p.hook_started_at,
    );
    match e {
        ProgressEvent::ActionStarted { .. } => (cur.0, cur.1, None, Some(now), None),
        ProgressEvent::PhaseStarted { label, .. } => (label@, Some(label@), None, Some(now), None),
        ProgressEvent::HookStarted { hook_name, .. } => (
            "Running "@ + hook_name@ + "..."@,
            cur.1,
            cur.2,
            cur.3,
            Some(now),
        ),
        ProgressEvent::HookOutput { text, .. } => (cur.0, cur.1, Some(text@), cur.3, cur.4),
        ProgressEvent::HookFinished { .. } => (
            match cur.1 {
                Some(l) => l,
                None => "Committing..."@,
            },
            cur.1,
            cur.2,
            cur.3,
            None,
        ),
        _ => cur,
    }
}

pub open spec fn progress_view(p: GitProgress) -> (
    Seq<char>,
    Option<Seq<char>>,
    Option<Seq<char>>,
    Option<u64>,
    Option<u64>,
) {
    (
        p.title@,
        opt_view(p.current_phase_label),
        opt_view(p.last_output_line),
        p.phase_started_at,
        p.hook_started_at,
    )
}

fn copy_string(s: &String) -> (r: String)
    ensures
        r@ == s@,
{
    text::string_from(&text::chars_of(s.as_str()))
}

/// Apply one of run `seq`'s events to the progress toast; a toast owned by
/// another run, or none, is left alone.
pub fn apply_progress_event<R>(progress: &mut Option<GitProgress>, seq: u64, event: &ProgressEvent<R>, now: u64)
    ensures
        match *old(progress) {
            Some(p) => if p.seq == seq {
                *final(progress) matches Some(q) && q.seq == seq && progress_view(q)
                    == progress_after(p, *event, now)
            } else {
                *final(progress) == *old(progress)
            },
            None => *final(progress) is None,
        },
{
    let Some(p) = progress.as_mut() else {
        return;
    };
    if p.seq != seq {
        return;
    }
    match event {
        ProgressEvent::ActionStarted { .. } => {
            p.phase_started_at = Some(now);
            p.hook_started_at = None;
            p.last_output_line = None;
        },
        ProgressEvent::PhaseStarted { label, .. } => {
            p.title = copy_string(label);
            p.current_phase_label = Some(copy_string(label));
            p.phase_started_at = Some(now);
            p.hook_started_at = None;
            p.last_output_line = None;
        },
        ProgressEvent::HookStarted { hook_name, .. } => {
            let mut t = String::from_str("Running ");
            text::push_str(&mut t, hook_name.as_str());
            text::push_str(&mut t, "...");
            proof {
                reveal_strlit("Running ");
                reveal_strlit("...");
            }
            p.title = t;
            p.hook_started_at = Some(now);
        },
        ProgressEvent::HookOutput { text, .. } => {
            p.last_output_line = Some(copy_string(text));
        },
        ProgressEvent::HookFinished { .. } => {
            p.title = match &p.current_phase_label {
                Some(l) => copy_string(l),
                None => String::from_str("Committing..."),
            };
            p.hook_started_at = None;
        },
        _ => {},
    }
}

/// Whole seconds the current hook (else phase) has been running at `now`;
/// a clock reading before the start counts as zero.
pub fn progress_elapsed_secs(progress: &GitProgress, now: u64) -> (r: Option<u64>)
    ensures
        match (if progress.hook_started_at is Some {
            progress.hook_started_at
        } else {
            progress.phase_started_at
        }) {
            Some(start) => r == Some(
                (if now >= start {
                    ((now - start) / 1000) as u64
                } else {
                    0u64
                }),
            ),
            None => r is None,
        },
{
    let start = match progress.hook_started_at {
        Some(h) => Some(h),
        None => progress.phase_started_at,
    };
    match start {
        Some(s) => Some(
            if now >= s {
                (now - s) / 1000
            } else {
                0
            },
        ),
        None => None,
    }
}

/// The toast title when a run starts: its first stage, or a generic one.
pub fn progress_title(stages: &[String]) -> (r: String)
    ensures
        if stages@.len() > 0 {
            r@ == stages@[0]@
        } else {
            r@ == "Running git action..."@
        },
{
    if stages.len() > 0 {
        copy_string(&stages[0])
    } else {
        String::from_str("Running git action...")
    }
}

/// What the header's status stream reports, as far as the controls read it.
pub struct GitStatusFacts {
    pub is_repo: bool,
    pub has_working_tree_changes: bool,
    pub is_default_ref: bool,
    pub ref_name: Option<String>,
    pub has_upstream: bool,
    pub ahead_count: i64,
}

/// The options of one run.
pub struct GitRunOptions {
    pub commit_message: Option<String>,
    pub skip_default_branch_prompt: bool,
    pub feature_branch: bool,
    pub file_paths: Option<Vec<String>>,
    pub from_commit_dialog: bool,
}

/// The run counts as on the default ref: a feature-branch run never does.
pub fn run_on_default_ref(feature_branch: bool, status: Option<&GitStatusFacts>) -> (b: bool)
    ensures
        b == (!feature_branch && match status {
            Some(s) => s.is_default_ref,
            None => false,
        }),
{
    !feature_branch && match status {
        Some(s) => s.is_default_ref,
        None => false,
    }
}

/// A pull request needs a push first: no status yet, no upstream, or local
/// commits ahead.
pub fn should_push_before_pr(status: Option<&GitStatusFacts>) -> (b: bool)
    ensures
        b == match status {
            Some(s) => !s.has_upstream || s.ahead_count > 0,
            None => true,
        },
{
    match status {
        Some(s) => !s.has_upstream || s.ahead_count > 0,
        None => true,
    }
}

/// The next step of a run request.
pub enum GitRunStep {
    /// Stash the action and ask before touching the default branch.
    ConfirmDefaultBranch { branch: String },
    /// Run now; the commit dialog closes if it started the run.
    Start { close_commit_dialog: bool },
}

/// The branch the default-branch prompt asks about, when it asks.
pub open spec fn prompt_branch(skip: bool, required: bool, status: Option<&GitStatusFacts>) -> Option<
    Seq<char>,
> {
    if !skip && required {
        match status {
            Some(s) => opt_view(s.ref_name),
            None => None,
        }
    } else {
        None
    }
}

/// The default-branch prompt: ask when the prompt is not skipped, the action
/// needs confirmation on this ref, and the branch is known.
pub fn git_run_step(opts: &GitRunOptions, confirmation_required: bool, status: Option<&GitStatusFacts>) -> (r:
    GitRunStep)
    ensures
        match r {
            GitRunStep::ConfirmDefaultBranch { branch } => prompt_branch(
                opts.skip_default_branch_prompt,
                confirmation_required,
                status,
            ) == Some(branch@),
            GitRunStep::Start { close_commit_dialog } => close_commit_dialog
                == opts.from_commit_dialog && prompt_branch(
                opts.skip_default_branch_prompt,
                confirmation_required,
                status,
            ) is None,
        },
{
    if !opts.skip_default_branch_prompt && confirmation_required {
        if let Some(s) = status {
            if let Some(b) = &s.ref_name {
                return GitRunStep::ConfirmDefaultBranch { branch: copy_string(b) };
            }
        }
    }
    GitRunStep::Start { close_commit_dialog: opts.from_commit_dialog }
}

/// The options a confirmed default-branch action resumes with: the prompt
/// is skipped and `feature_branch` is the user's answer.
pub fn resumed_options(
    commit_message: Option<String>,
    file_paths: Option<Vec<String>>,
    from_commit_dialog: bool,
    feature_branch: bool,
) -> (r: GitRunOptions)
    ensures
        r.skip_default_branch_prompt,
        r.feature_branch == feature_branch,
        r.commit_message == commit_message,
        r.file_paths == file_paths,
        r.from_commit_dialog == from_commit_dialog,
{
    GitRunOptions {
        commit_message,
        skip_default_branch_prompt: true,
        feature_branch,
        file_paths,
        from_commit_dialog,
    }
}

/// One working-tree file in the commit dialog.
pub struct CommitFile {
    pub path: String,
    pub insertions: i64,
    pub deletions: i64,
}

/// The files still selected (not excluded), in order.
pub open spec fn selected_files(files: Seq<CommitFile>, excluded: Seq<String>) -> Seq<CommitFile>
    decreases files.len(),
{
    if files.len() == 0 {
        seq![]
    } else {
        selected_files(files.drop_last(), excluded) + if text::is_member(excluded, files.last().path@) {
            seq![]
        } else {
            seq![files.last()]
        }
    }
}

pub open spec fn insertions_sum(fs: Seq<CommitFile>) -> int
    decreases fs.len(),
{
    if fs.len() == 0 {
        0
    } else {
        insertions_sum(fs.drop_last()) + fs.last().insertions
    }
}

pub open spec fn deletions_sum(fs: Seq<CommitFile>) -> int
    decreases fs.len(),
{
    if fs.len() == 0 {
        0
    } else {
        deletions_sum(fs.drop_last()) + fs.last().deletions
    }
}

/// Every partial sum of the file counts fits in an `i64`.
pub open spec fn sums_fit(fs: Seq<CommitFile>) -> bool {
    forall|k: int|
        0 <= k <= fs.len() ==> i64::MIN <= #[trigger] insertions_sum(fs.take(k)) <= i64::MAX
            && i64::MIN <= deletions_sum(fs.take(k)) <= i64::MAX
}

proof fn lemma_selected_step(files: Seq<CommitFile>, excluded: Seq<String>, i: int)
    requires
        0 <= i < files.len(),
    ensures
        selected_files(files.take(i + 1), excluded) == selected_files(files.take(i), excluded)
            + if text::is_member(excluded, files[i].path@) {
            seq![]
        } else {
            seq![files[i]]
        },
{
    assert(files.take(i + 1).drop_last() =~= files.take(i));
}

/// The commit dialog's summary: selected count, total, and the selected
/// files' insertions and deletions.
pub fn commit_summary(files: &[CommitFile], excluded: &Vec<String>) -> (r: (usize, usize, i64, i64))
    requires
        sums_fit(selected_files(files@, excluded@)),
    ensures
        r.0 == selected_files(files@, excluded@).len(),
        r.1 == files@.len(),
        r.2 == insertions_sum(selected_files(files@, excluded@)),
        r.3 == deletions_sum(selected_files(files@, excluded@)),
{
    let ghost all = selected_files(files@, excluded@);
    proof {
        lemma_selected_len(files@, excluded@);
    }
    let mut count: usize = 0;
    let mut ins: i64 = 0;
    let mut del: i64 = 0;
    let mut i: usize = 0;
    while i < files.len()
        invariant
            i <= files@.len(),
            all == selected_files(files@, excluded@),
            sums_fit(all),
            selected_files(files@.take(i as int), excluded@).len() == count,
            selected_files(files@.take(i as int), excluded@) == all.take(count as int),
            count <= all.len(),
            all.len() <= files@.len(),
            ins == insertions_sum(all.take(count as int)),
            del == deletions_sum(all.take(count as int)),
        decreases files@.len() - i,
    {
        proof {
            lemma_selected_step(files@, excluded@, i as int);
            lemma_selected_prefix(files@, excluded@, i + 1);
        }
        let listed = match text::position_of(excluded, files[i].path.as_str()) {
            Some(_) => true,
            None => false,
        };
        if !listed {
            proof {
                assert(all.take(count + 1).drop_last() =~= all.take(count as int));
                assert(all.take(count + 1).last() == files@[i as int]);
                assert(insertions_sum(all.take(count + 1)) == ins + files@[i as int].insertions);
                assert(deletions_sum(all.take(count + 1)) == del + files@[i as int].deletions);
            }
            ins = ins + files[i].insertions;
            del = del + files[i].deletions;
            count += 1;
        }
        i += 1;
    }
    assert(files@.take(files@.len() as int) =~= files@);
    assert(all.take(count as int) =~= all);
    (count, files.len(), ins, del)
}

proof fn lemma_selected_prefix(files: Seq<CommitFile>, excluded: Seq<String>, k: int)
    requires
        0 <= k <= files.len(),
    ensures
        selected_files(files.take(k), excluded).len() <= selected_files(files, excluded).len(),
        selected_files(files.take(k), excluded) == selected_files(files, excluded).take(
            selected_files(files.take(k), excluded).len() as int,
        ),
    decreases files.len() - k,
{
    if k < files.len() {
        lemma_selected_prefix(files, excluded, k + 1);
        lemma_selected_step(files, excluded, k);
        let a = selected_files(files.take(k), excluded);
        let b = selected_files(files.take(k + 1), excluded);
        let all = selected_files(files, excluded);
        assert(a =~= all.take(a.len() as int)) by {
            assert(b.take(a.len() as int) =~= a);
        }
    } else {
        assert(files.take(k) =~= files);
        assert(selected_files(files, excluded).take(
            selected_files(files, excluded).len() as int,
        ) =~= selected_files(files, excluded));
    }
}

pub open spec fn paths_of(fs: Seq<CommitFile>) -> Seq<Seq<char>> {
    fs.map_values(|f: CommitFile| f.path@)
}

/// What the commit dialog submits: `None` when every file is excluded;
/// otherwise the file list only when a strict subset is selected, and the
/// trimmed message only when it is not blank.
pub fn commit_submission(files: &[CommitFile], excluded: &Vec<String>, message: &str) -> (r: Option<
    (Option<Vec<String>>, Option<String>),
>)
    ensures
        match r {
            None => selected_files(files@, excluded@).len() == 0,
            Some((paths, msg)) => {
                &&& selected_files(files@, excluded@).len() > 0
                &&& match paths {
                    Some(ps) => selected_files(files@, excluded@).len() < files@.len()
                        && ps@.map_values(|s: String| s@) == paths_of(
                        selected_files(files@, excluded@),
                    ),
                    None => selected_files(files@, excluded@).len() == files@.len(),
                }
                &&& match msg {
                    Some(m) => m@ == text::trim(message@) && m@.len() > 0,
                    None => text::trim(message@).len() == 0,
                }
            },
        },
{
    let mut selected: Vec<String> = Vec::new();
    let mut i: usize = 0;
    while i < files.len()
        invariant
            i <= files@.len(),
            selected@.map_values(|s: String| s@) == paths_of(
                selected_files(files@.take(i as int), excluded@),
            ),
        decreases files@.len() - i,
    {
        proof {
            lemma_selected_step(files@, excluded@, i as int);
        }
        let ghost before = selected@.map_values(|s: String| s@);
        let listed = match text::position_of(excluded, files[i].path.as_str()) {
            Some(_) => true,
            None => false,
        };
        if !listed {
            selected.push(copy_string(&files[i].path));
            assert(selected@.map_values(|s: String| s@) =~= before.push(files@[i as int].path@));
        }
        assert(selected@.map_values(|s: String| s@) =~= paths_of(
            selected_files(files@.take(i + 1), excluded@),
        ));
        i += 1;
    }
    assert(files@.take(files@.len() as int) =~= files@);
    proof {
        lemma_selected_len(files@, excluded@);
    }
    if selected.len() == 0 {
        return None;
    }
    let total = files.len();
    let count = selected.len();
    let paths = if count < total {
        Some(selected)
    } else {
        None
    };
    let v = text::chars_of(message);
    let (a, b) = text::trim_range(&v, 0, v.len());
    assert(v@.subrange(0, v@.len() as int) =~= v@);
    let msg = if a < b {
        Some(text::string_of(&v, a, b))
    } else {
        None
    };
    Some((paths, msg))
}

proof fn lemma_selected_len(files: Seq<CommitFile>, excluded: Seq<String>)
    ensures
        selected_files(files, excluded).len() <= files.len(),
    decreases files.len(),
{
    if files.len() > 0 {
        lemma_selected_len(files.drop_last(), excluded);
    }
}

/// The pull result toast: `(title, body)`.
pub fn pull_note(ref_name: &str, pulled: bool, upstream: Option<&str>) -> (r: (String, String))
    ensures
        pulled ==> r.0@ == "Pulled"@ && r.1@ == "Updated "@ + ref_name@ + " from "@ + match upstream {
            Some(u) => u@,
            None => "upstream"@,
        },
        !pulled ==> r.0@ == "Already up to date"@ && r.1@ == ref_name@ + " is already synchronized."@,
{
    if pulled {
        let mut body = String::from_str("Updated ");
        text::push_str(&mut body, ref_name);
        text::push_str(&mut body, " from ");
        match upstream {
            Some(u) => text::push_str(&mut body, u),
            None => text::push_str(&mut body, "upstream"),
        }
        proof {
            reveal_strlit("Updated ");
        }
        (String::from_str("Pulled"), body)
    } else {
        let mut body = String::new();
        text::push_str(&mut body, ref_name);
        text::push_str(&mut body, " is already synchronized.");
        (String::from_str("Already up to date"), body)
    }
}

/// A created feature branch is written to the thread only when it differs
/// from the thread's branch.
pub fn branch_update_needed(previous: Option<&str>, branch: &str) -> (b: bool)
    ensures
        b == !(previous matches Some(p) && p@ == branch@),
{
    match previous {
        Some(p) => !text::str_eq(p, branch),
        None => true,
    }
}

} // verus!
