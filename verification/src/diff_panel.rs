//! Diff panel selection logic: healing a vanished turn selection, the scope
//! labels and section ids, the turn-diff request range, the per-scope file
//! collapse state and the deep-link reveal target.

use vstd::prelude::*;

use crate::diff::{DiffRow, PatchFile};
use crate::text;

verus! {

/// A completed turn's checkpoint, as the panel lists them (latest first).
pub struct TurnDiffSummary {
    pub turn_id: String,
    pub turn_count: i64,
}

/// What the panel shows: the working tree, a branch range, or one turn.
pub enum DiffPanelSelection {
    Unstaged,
    Branch { base_ref: Option<String> },
    Turn { turn_id: String, file_path: Option<String>, reveal_request_id: u64 },
}

pub open spec fn turn_known(checkpoints: Seq<TurnDiffSummary>, id: Seq<char>) -> bool {
    exists|i: int| 0 <= i < checkpoints.len() && checkpoints[i].turn_id@ == id
}

/// Index of the first checkpoint of turn `id`, from `i` on.
pub open spec fn find_turn_from(checkpoints: Seq<TurnDiffSummary>, id: Seq<char>, i: int) -> Option<
    int,
>
    decreases checkpoints.len() - i,
{
    if i < 0 || i >= checkpoints.len() {
        None
    } else if checkpoints[i].turn_id@ == id {
        Some(i)
    } else {
        find_turn_from(checkpoints, id, i + 1)
    }
}

fn find_turn(checkpoints: &[TurnDiffSummary], id: &String) -> (r: Option<usize>)
    ensures
        match r {
            Some(i) => find_turn_from(checkpoints@, id@, 0) == Some(i as int) && i
                < checkpoints@.len(),
            None => find_turn_from(checkpoints@, id@, 0) is None,
        },
{
    let mut i: usize = 0;
    while i < checkpoints.len()
        invariant
            i <= checkpoints@.len(),
            find_turn_from(checkpoints@, id@, 0) == find_turn_from(checkpoints@, id@, i as int),
        decreases checkpoints@.len() - i,
    {
        if text::str_eq(checkpoints[i].turn_id.as_str(), id.as_str()) {
            return Some(i);
        }
        i += 1;
    }
    None
}

proof fn lemma_find_turn_known(checkpoints: Seq<TurnDiffSummary>, id: Seq<char>, i: int)
    requires
        0 <= i,
    ensures
        find_turn_from(checkpoints, id, i) is None ==> forall|j: int|
            i <= j < checkpoints.len() ==> checkpoints[j].turn_id@ != id,
        find_turn_from(checkpoints, id, i) matches Some(k) ==> i <= k < checkpoints.len()
            && checkpoints[k].turn_id@ == id,
    decreases checkpoints.len() - i,
{
    if i < checkpoints.len() && checkpoints[i].turn_id@ != id {
        lemma_find_turn_known(checkpoints, id, i + 1);
    }
}

fn copy_string(s: &String) -> (r: String)
    ensures
        r@ == s@,
{
    text::string_from(&text::chars_of(s.as_str()))
}

/// The stored selection as the panel renders it: a turn that no longer has
/// a checkpoint shows as the latest turn (keeping its file and reveal
/// request); everything else is unchanged.
pub fn resolved_selection(
    stored: DiffPanelSelection,
    checkpoints: &[TurnDiffSummary],
) -> (r: DiffPanelSelection)
    ensures
        match stored {
            DiffPanelSelection::Turn { turn_id, file_path, reveal_request_id } => if !turn_known(
                checkpoints@,
                turn_id@,
            ) && checkpoints@.len() > 0 {
                r matches DiffPanelSelection::Turn { turn_id: t, file_path: p, reveal_request_id: q }
                    && t@ == checkpoints@[0].turn_id@ && p == file_path && q == reveal_request_id
            } else {
                r == stored
            },
            _ => r == stored,
        },
{
    match stored {
        DiffPanelSelection::Turn { turn_id, file_path, reveal_request_id } => {
            let found = find_turn(checkpoints, &turn_id);
            proof {
                lemma_find_turn_known(checkpoints@, turn_id@, 0);
            }
            if found.is_none() && checkpoints.len() > 0 {
                DiffPanelSelection::Turn {
                    turn_id: copy_string(&checkpoints[0].turn_id),
                    file_path,
                    reveal_request_id,
                }
            } else {
                DiffPanelSelection::Turn { turn_id, file_path, reveal_request_id }
            }
        },
        other => other,
    }
}

pub open spec fn turn_title(checkpoints: Seq<TurnDiffSummary>, id: Seq<char>) -> Seq<char> {
    match find_turn_from(checkpoints, id, 0) {
        Some(i) => "Turn "@ + text::signed_decimal(checkpoints[i].turn_count as int),
        None => "Turn ?"@,
    }
}

/// The scope dropdown's label.
pub open spec fn scope_label_spec(sel: DiffPanelSelection, checkpoints: Seq<TurnDiffSummary>) -> Seq<
    char,
> {
    match sel {
        DiffPanelSelection::Unstaged => "Working tree"@,
        DiffPanelSelection::Branch { .. } => "Branch changes"@,
        DiffPanelSelection::Turn { turn_id, .. } => if checkpoints.len() > 0
            && checkpoints[0].turn_id@ == turn_id@ {
            "Latest turn"@
        } else {
            turn_title(checkpoints, turn_id@)
        },
    }
}

/// A review section's title: like the scope label, but the latest turn is
/// still titled by its number.
pub open spec fn section_title_spec(sel: DiffPanelSelection, checkpoints: Seq<TurnDiffSummary>) -> Seq<
    char,
> {
    match sel {
        DiffPanelSelection::Unstaged => "Working tree"@,
        DiffPanelSelection::Branch { .. } => "Branch changes"@,
        DiffPanelSelection::Turn { turn_id, .. } => turn_title(checkpoints, turn_id@),
    }
}

/// A review section's id, which also keys the collapse scope.
pub open spec fn section_id_spec(sel: DiffPanelSelection) -> Seq<char> {
    match sel {
        DiffPanelSelection::Unstaged => "unstaged"@,
        DiffPanelSelection::Branch { .. } => "branch"@,
        DiffPanelSelection::Turn { turn_id, .. } => "turn:"@ + turn_id@,
    }
}

fn turn_title_exec(checkpoints: &[TurnDiffSummary], id: &String) -> (r: String)
    ensures
        r@ == turn_title(checkpoints@, id@),
{
    match find_turn(checkpoints, id) {
        Some(i) => {
            let mut v: Vec<char> = Vec::new();
            text::push_literal(&mut v, "Turn ");
            text::push_signed_decimal(&mut v, checkpoints[i].turn_count);
            text::string_from(&v)
        },
        None => text::string_from(&text::chars_of("Turn ?")),
    }
}

/// The scope dropdown's label: `Working tree`, `Branch changes`,
/// `Latest turn`, `Turn <n>`, or `Turn ?` for a turn without checkpoint.
pub fn scope_label(sel: &DiffPanelSelection, checkpoints: &[TurnDiffSummary]) -> (r: String)
    ensures
        r@ == scope_label_spec(*sel, checkpoints@),
{
    match sel {
        DiffPanelSelection::Unstaged => text::string_from(&text::chars_of("Working tree")),
        DiffPanelSelection::Branch { .. } => text::string_from(&text::chars_of("Branch changes")),
        DiffPanelSelection::Turn { turn_id, .. } => {
            if checkpoints.len() > 0 && text::str_eq(
                checkpoints[0].turn_id.as_str(),
                turn_id.as_str(),
            ) {
                text::string_from(&text::chars_of("Latest turn"))
            } else {
                turn_title_exec(checkpoints, turn_id)
            }
        },
    }
}

/// A review section's title.
pub fn review_section_title(sel: &DiffPanelSelection, checkpoints: &[TurnDiffSummary]) -> (r:
    String)
    ensures
        r@ == section_title_spec(*sel, checkpoints@),
{
    match sel {
        DiffPanelSelection::Unstaged => text::string_from(&text::chars_of("Working tree")),
        DiffPanelSelection::Branch { .. } => text::string_from(&text::chars_of("Branch changes")),
        DiffPanelSelection::Turn { turn_id, .. } => turn_title_exec(checkpoints, turn_id),
    }
}

/// A review section's id: `unstaged`, `branch` or `turn:<id>`.
pub fn section_id(sel: &DiffPanelSelection) -> (r: String)
    ensures
        r@ == section_id_spec(*sel),
{
    match sel {
        DiffPanelSelection::Unstaged => text::string_from(&text::chars_of("unstaged")),
        DiffPanelSelection::Branch { .. } => text::string_from(&text::chars_of("branch")),
        DiffPanelSelection::Turn { turn_id, .. } => {
            let mut v: Vec<char> = Vec::new();
            text::push_literal(&mut v, "turn:");
            text::push_literal(&mut v, turn_id.as_str());
            text::string_from(&v)
        },
    }
}

/// The checkpoint range a turn's diff is fetched for: `to` is the turn's
/// count (at least 0), `from` one less (at least 0); the first turn has no
/// earlier checkpoint and uses the full-thread diff instead.
pub fn turn_diff_range(turn_count: i64) -> (r: (i64, i64, bool))
    ensures
        r.1 == if turn_count > 0 {
            turn_count
        } else {
            0
        },
        r.0 == if r.1 - 1 > 0 {
            r.1 - 1
        } else {
            0
        },
        r.2 == (r.0 == 0),
{
    let to = if turn_count > 0 {
        turn_count
    } else {
        0
    };
    let from = if to - 1 > 0 {
        to - 1
    } else {
        0
    };
    (from, to, from == 0)
}

pub open spec fn is_collapsed(collapsed: Seq<String>, p: Seq<char>) -> bool {
    text::is_member(collapsed, p)
}

/// Collapse an expanded file, expand a collapsed one.
pub fn toggle_collapsed(collapsed: &mut Vec<String>, path: &str)
    requires
        text::distinct(old(collapsed)@),
    ensures
        text::distinct(final(collapsed)@),
        is_collapsed(final(collapsed)@, path@) == !is_collapsed(old(collapsed)@, path@),
        forall|q: Seq<char>|
            q != path@ ==> is_collapsed(final(collapsed)@, q) == is_collapsed(old(collapsed)@, q),
{
    text::toggle_member(collapsed, path);
}

/// Every file of the patch is collapsed (and there is at least one).
pub open spec fn all_collapsed_spec(files: Seq<PatchFile>, collapsed: Seq<String>) -> bool {
    files.len() > 0 && forall|i: int|
        0 <= i < files.len() ==> is_collapsed(collapsed, #[trigger] files[i].display_path@)
}

fn is_collapsed_exec(collapsed: &Vec<String>, p: &str) -> (b: bool)
    ensures
        b == is_collapsed(collapsed@, p@),
{
    match text::position_of(collapsed, p) {
        Some(_) => true,
        None => false,
    }
}

pub fn all_collapsed(files: &[PatchFile], collapsed: &Vec<String>) -> (b: bool)
    ensures
        b == all_collapsed_spec(files@, collapsed@),
{
    if files.len() == 0 {
        return false;
    }
    let mut i: usize = 0;
    while i < files.len()
        invariant
            i <= files@.len(),
            forall|j: int| 0 <= j < i ==> is_collapsed(collapsed@, #[trigger] files@[j].display_path@),
        decreases files@.len() - i,
    {
        if !is_collapsed_exec(collapsed, files[i].display_path.as_str()) {
            return false;
        }
        i += 1;
    }
    true
}

/// The header's collapse-all toggle: everything collapsed expands all,
/// otherwise every file collapses. Without files nothing changes.
pub fn toggle_all_collapsed(files: &[PatchFile], collapsed: &mut Vec<String>)
    ensures
        files@.len() == 0 ==> final(collapsed)@ == old(collapsed)@,
        files@.len() > 0 && all_collapsed_spec(files@, old(collapsed)@) ==> final(collapsed)@.len() == 0,
        files@.len() > 0 && !all_collapsed_spec(files@, old(collapsed)@) ==> final(collapsed)@.len() == files@.len() && forall|i: int|
            0 <= i < files@.len() ==> #[trigger] final(collapsed)@[i]@ == files@[i].display_path@,
{
    if files.len() == 0 {
        return;
    }
    if all_collapsed(files, collapsed) {
        collapsed.clear();
        return;
    }
    let mut next: Vec<String> = Vec::new();
    let mut i: usize = 0;
    while i < files.len()
        invariant
            i <= files@.len(),
            next@.len() == i,
            forall|j: int| 0 <= j < i ==> #[trigger] next@[j]@ == files@[j].display_path@,
        decreases files@.len() - i,
    {
        next.push(copy_string(&files[i].display_path));
        i += 1;
    }
    *collapsed = next;
}

/// `row` is the header row of a file shown as `path`.
pub open spec fn is_header_of(row: DiffRow, files: Seq<PatchFile>, path: Seq<char>) -> bool {
    row matches DiffRow::File { file } && file < files.len() && files[file as int].display_path@
        == path
}

/// The first file-header row showing `path`, where a deep link scrolls to.
pub fn reveal_target(rows: &Vec<DiffRow>, files: &[PatchFile], path: &str) -> (r: Option<usize>)
    ensures
        match r {
            Some(i) => i < rows@.len() && is_header_of(rows@[i as int], files@, path@) && forall|
                j: int,
            |
                0 <= j < i ==> !is_header_of(#[trigger] rows@[j], files@, path@),
            None => forall|j: int|
                0 <= j < rows@.len() ==> !is_header_of(#[trigger] rows@[j], files@, path@),
        },
{
    let mut i: usize = 0;
    while i < rows.len()
        invariant
            i <= rows@.len(),
            forall|j: int| 0 <= j < i ==> !is_header_of(#[trigger] rows@[j], files@, path@),
        decreases rows@.len() - i,
    {
        if let DiffRow::File { file } = rows[i] {
            if file < files.len() && text::str_eq(files[file].display_path.as_str(), path) {
                return Some(i);
            }
        }
        i += 1;
    }
    None
}

pub open spec fn summary_view(s: Seq<TurnDiffSummary>) -> Seq<(Seq<char>, i64)> {
    s.map_values(|t: TurnDiffSummary| (t.turn_id@, t.turn_count))
}

/// Whether a pushed checkpoint list differs from the one the panel holds;
/// only then does the panel reconcile its selection and refetch.
pub fn checkpoints_changed(held: &[TurnDiffSummary], pushed: &[TurnDiffSummary]) -> (b: bool)
    ensures
        b == (summary_view(held@) != summary_view(pushed@)),
{
    if held.len() != pushed.len() {
        proof {
            assert(summary_view(held@).len() != summary_view(pushed@).len());
        }
        return true;
    }
    let mut i: usize = 0;
    while i < held.len()
        invariant
            held@.len() == pushed@.len(),
            i <= held@.len(),
            forall|j: int| 0 <= j < i ==> summary_view(held@)[j] == summary_view(pushed@)[j],
        decreases held@.len() - i,
    {
        if !text::str_eq(held[i].turn_id.as_str(), pushed[i].turn_id.as_str())
            || held[i].turn_count != pushed[i].turn_count {
            proof {
                assert(summary_view(held@)[i as int] != summary_view(pushed@)[i as int]);
            }
            return true;
        }
        i += 1;
    }
    proof {
        assert(summary_view(held@) =~= summary_view(pushed@));
    }
    false
}

/// The checkpoint list the panel holds, as the chat pushes it in.
pub struct CheckpointList {
    pub checkpoints: Vec<TurnDiffSummary>,
}

impl CheckpointList {
    /// Take a pushed list. An equal push changes nothing (no field, no
    /// store write, no query); a different one replaces the list, and the
    /// panel then reconciles its selection and refetches. Returns whether
    /// the list changed.
    pub fn push(&mut self, pushed: Vec<TurnDiffSummary>) -> (changed: bool)
        ensures
            changed == (summary_view(old(self).checkpoints@) != summary_view(pushed@)),
            !changed ==> *final(self) == *old(self),
            changed ==> final(self).checkpoints@ == pushed@,
            summary_view(final(self).checkpoints@) == summary_view(pushed@),
    {
        if checkpoints_changed(self.checkpoints.as_slice(), pushed.as_slice()) {
            self.checkpoints = pushed;
            true
        } else {
            false
        }
    }
}

/// Pushes converge: whatever the panel held, pushing the same list a
/// second time changes nothing.
pub proof fn law_repeat_push_converges(held: Seq<TurnDiffSummary>, pushed: Seq<TurnDiffSummary>)
    ensures
        ({
            let after = if summary_view(held) != summary_view(pushed) {
                pushed
            } else {
                held
            };
            summary_view(after) == summary_view(pushed) && !(summary_view(after) != summary_view(
                pushed,
            ))
        }),
{
}

} // verus!
