//! The chat timeline: turning derived rows into list rows, placing the
//! proposed-plan rows, the auto-fold lifecycle of the latest turn, and how
//! a rebuilt row list is spliced into the virtual list (shared prefix and
//! the rows to remeasure).

use vstd::prelude::*;

use crate::text;

verus! {

/// One row of the virtual timeline list.
#[derive(Debug, Clone, Copy, PartialEq, Eq, Structural)]
pub enum TimelineRow {
    /// Index into the displayed messages.
    Message(usize),
    /// Index into the thread's proposed plans.
    ProposedPlan(usize),
    /// Index into the work-log entries.
    Work(usize),
    /// Index into the work-group toggles.
    WorkToggle(usize),
    /// Index into the turn folds.
    TurnFold(usize),
    Running,
}

/// A row as the timeline derivation produces it.
pub enum DerivedTimelineRow {
    Message { message_index: usize },
    Work { entry_index: usize },
    WorkToggle { group_id: String, hidden_count: usize, expanded: bool, only_tool_entries: bool },
    TurnFold { turn_id: String, label: String, expanded: bool },
    Working,
}

/// The "+N previous tool calls" row of one consecutive-work group.
pub struct WorkToggleData {
    pub group_id: String,
    pub hidden_count: usize,
    pub expanded: bool,
    pub only_tool_entries: bool,
}

/// The "Worked for …" row folding one settled turn.
pub struct TurnFoldData {
    pub turn_id: String,
    pub label: String,
    pub expanded: bool,
}

/// Number of work-group toggles among `d`.
pub open spec fn toggles_in(d: Seq<DerivedTimelineRow>) -> nat
    decreases d.len(),
{
    if d.len() == 0 {
        0
    } else {
        toggles_in(d.drop_last()) + if d.last() is WorkToggle {
            1nat
        } else {
            0nat
        }
    }
}

/// Number of turn folds among `d`.
pub open spec fn folds_in(d: Seq<DerivedTimelineRow>) -> nat
    decreases d.len(),
{
    if d.len() == 0 {
        0
    } else {
        folds_in(d.drop_last()) + if d.last() is TurnFold {
            1nat
        } else {
            0nat
        }
    }
}

/// The list row for derived row `i`: toggles and folds are numbered in
/// order of appearance.
pub open spec fn row_for(d: Seq<DerivedTimelineRow>, i: int) -> TimelineRow {
    match d[i] {
        DerivedTimelineRow::Message { message_index } => TimelineRow::Message(message_index),
        DerivedTimelineRow::Work { entry_index } => TimelineRow::Work(entry_index),
        DerivedTimelineRow::WorkToggle { .. } => TimelineRow::WorkToggle(
            toggles_in(d.take(i)) as usize,
        ),
        DerivedTimelineRow::TurnFold { .. } => TimelineRow::TurnFold(folds_in(d.take(i)) as usize),
        DerivedTimelineRow::Working => TimelineRow::Running,
    }
}

/// Toggle `t` carries the data of derived row `d`.
pub open spec fn toggle_matches(t: WorkToggleData, d: DerivedTimelineRow) -> bool {
    match d {
        DerivedTimelineRow::WorkToggle { group_id, hidden_count, expanded, only_tool_entries } => {
            &&& t.group_id@ == group_id@
            &&& t.hidden_count == hidden_count
            &&& t.expanded == expanded
            &&& t.only_tool_entries == only_tool_entries
        },
        _ => false,
    }
}

/// Fold `f` carries the data of derived row `d`.
pub open spec fn fold_matches(f: TurnFoldData, d: DerivedTimelineRow) -> bool {
    match d {
        DerivedTimelineRow::TurnFold { turn_id, label, expanded } => {
            &&& f.turn_id@ == turn_id@
            &&& f.label@ == label@
            &&& f.expanded == expanded
        },
        _ => false,
    }
}

fn copy_string(s: &String) -> (r: String)
    ensures
        r@ == s@,
{
    text::string_from(&text::chars_of(s.as_str()))
}

proof fn lemma_counts_step(d: Seq<DerivedTimelineRow>, i: int)
    requires
        0 <= i < d.len(),
    ensures
        toggles_in(d.take(i + 1)) == toggles_in(d.take(i)) + if d[i] is WorkToggle {
            1nat
        } else {
            0nat
        },
        folds_in(d.take(i + 1)) == folds_in(d.take(i)) + if d[i] is TurnFold {
            1nat
        } else {
            0nat
        },
{
    assert(d.take(i + 1).drop_last() =~= d.take(i));
}

/// The timeline rows for the derived rows, with the toggle and fold data
/// they index, in order.
pub fn timeline_rows(derived: &[DerivedTimelineRow]) -> (r: (
    Vec<TimelineRow>,
    Vec<WorkToggleData>,
    Vec<TurnFoldData>,
))
    ensures
        r.0@.len() == derived@.len(),
        forall|i: int| 0 <= i < derived@.len() ==> r.0@[i] == row_for(derived@, i),
        r.1@.len() == toggles_in(derived@),
        r.2@.len() == folds_in(derived@),
        forall|i: int|
            0 <= i < derived@.len() && derived@[i] is WorkToggle ==> toggle_matches(
                r.1@[toggles_in(derived@.take(i)) as int],
                derived@[i],
            ),
        forall|i: int|
            0 <= i < derived@.len() && derived@[i] is TurnFold ==> fold_matches(
                r.2@[folds_in(derived@.take(i)) as int],
                derived@[i],
            ),
{
    let mut rows: Vec<TimelineRow> = Vec::new();
    let mut toggles: Vec<WorkToggleData> = Vec::new();
    let mut folds: Vec<TurnFoldData> = Vec::new();
    let mut i: usize = 0;
    while i < derived.len()
        invariant
            i <= derived@.len(),
            rows@.len() == i,
            toggles@.len() == toggles_in(derived@.take(i as int)),
            folds@.len() == folds_in(derived@.take(i as int)),
            forall|k: int| 0 <= k < i ==> rows@[k] == row_for(derived@, k),
            forall|k: int|
                0 <= k < i && derived@[k] is WorkToggle ==> toggles_in(derived@.take(k))
                    < toggles@.len() && toggle_matches(
                    toggles@[toggles_in(derived@.take(k)) as int],
                    derived@[k],
                ),
            forall|k: int|
                0 <= k < i && derived@[k] is TurnFold ==> folds_in(derived@.take(k))
                    < folds@.len() && fold_matches(
                    folds@[folds_in(derived@.take(k)) as int],
                    derived@[k],
                ),
        decreases derived@.len() - i,
    {
        proof {
            lemma_counts_step(derived@, i as int);
        }
        match &derived[i] {
            DerivedTimelineRow::Message { message_index } => {
                rows.push(TimelineRow::Message(*message_index));
            },
            DerivedTimelineRow::Work { entry_index } => {
                rows.push(TimelineRow::Work(*entry_index));
            },
            DerivedTimelineRow::WorkToggle { group_id, hidden_count, expanded, only_tool_entries } => {
                rows.push(TimelineRow::WorkToggle(toggles.len()));
                toggles.push(
                    WorkToggleData {
                        group_id: copy_string(group_id),
                        hidden_count: *hidden_count,
                        expanded: *expanded,
                        only_tool_entries: *only_tool_entries,
                    },
                );
            },
            DerivedTimelineRow::TurnFold { turn_id, label, expanded } => {
                rows.push(TimelineRow::TurnFold(folds.len()));
                folds.push(
                    TurnFoldData {
                        turn_id: copy_string(turn_id),
                        label: copy_string(label),
                        expanded: *expanded,
                    },
                );
            },
            DerivedTimelineRow::Working => {
                rows.push(TimelineRow::Running);
            },
        }
        i += 1;
    }
    assert(derived@.take(derived@.len() as int) =~= derived@);
    (rows, toggles, folds)
}

/// Index of the first `Running` row from `i` on, or the length.
pub open spec fn first_running_from(rows: Seq<TimelineRow>, i: int) -> int
    decreases rows.len() - i,
{
    if i < 0 || i >= rows.len() {
        rows.len() as int
    } else if rows[i] is Running {
        i
    } else {
        first_running_from(rows, i + 1)
    }
}

/// The rows with `count` proposed-plan rows placed just before the running
/// row, or at the end.
pub open spec fn with_plan_rows(rows: Seq<TimelineRow>, count: nat) -> Seq<TimelineRow> {
    let at = first_running_from(rows, 0);
    rows.take(at) + Seq::new(count, |k: int| TimelineRow::ProposedPlan(k as usize)) + rows.skip(at)
}

proof fn lemma_first_running_bounds(rows: Seq<TimelineRow>, i: int)
    requires
        0 <= i <= rows.len(),
    ensures
        i <= first_running_from(rows, i) <= rows.len(),
    decreases rows.len() - i,
{
    if i < rows.len() && !(rows[i] is Running) {
        lemma_first_running_bounds(rows, i + 1);
    }
}

/// Place `plan_count` proposed-plan rows before the running row.
pub fn insert_plan_rows(rows: &Vec<TimelineRow>, plan_count: usize) -> (r: Vec<TimelineRow>)
    ensures
        r@ == with_plan_rows(rows@, plan_count as nat),
{
    let mut at: usize = 0;
    while at < rows.len() && !matches!(rows[at], TimelineRow::Running)
        invariant
            at <= rows@.len(),
            first_running_from(rows@, 0) == first_running_from(rows@, at as int),
        decreases rows@.len() - at,
    {
        at += 1;
    }
    proof {
        lemma_first_running_bounds(rows@, 0);
    }
    assert(first_running_from(rows@, 0) == at);
    let mut out: Vec<TimelineRow> = Vec::new();
    let mut i: usize = 0;
    while i < at
        invariant
            at <= rows@.len(),
            i <= at,
            out@ =~= rows@.take(i as int),
        decreases at - i,
    {
        out.push(rows[i]);
        i += 1;
    }
    let mut k: usize = 0;
    while k < plan_count
        invariant
            at <= rows@.len(),
            k <= plan_count,
            out@ =~= rows@.take(at as int) + Seq::new(
                k as nat,
                |j: int| TimelineRow::ProposedPlan(j as usize),
            ),
        decreases plan_count - k,
    {
        out.push(TimelineRow::ProposedPlan(k));
        k += 1;
    }
    let mut j: usize = at;
    while j < rows.len()
        invariant
            at <= j <= rows@.len(),
            out@ =~= rows@.take(at as int) + Seq::new(
                plan_count as nat,
                |q: int| TimelineRow::ProposedPlan(q as usize),
            ) + rows@.subrange(at as int, j as int),
        decreases rows@.len() - j,
    {
        out.push(rows[j]);
        j += 1;
    }
    assert(rows@.subrange(at as int, rows@.len() as int) =~= rows@.skip(at as int));
    out
}

/// The phase of the latest turn, as far as folding cares.
#[derive(Debug, Clone, Copy, PartialEq, Eq, Structural)]
pub enum TurnPhase {
    Running,
    Interrupted,
    Settled,
}

/// The latest turn of the open thread.
pub struct LatestTurn {
    pub turn_id: String,
    pub phase: TurnPhase,
}

/// What the fold lifecycle does when `latest` arrives after `prev`: a new
/// latest turn folds the previous one (`Some((prev_id, false))`); an
/// interrupt of the running turn leaves it expanded (`Some((id, true))`).
pub open spec fn fold_change(prev: Option<(Seq<char>, TurnPhase)>, latest: (Seq<char>, TurnPhase)) -> Option<
    (Seq<char>, bool),
> {
    match prev {
        Some((prev_id, prev_phase)) => if prev_id != latest.0 {
            Some((prev_id, false))
        } else if prev_phase == TurnPhase::Running && latest.1 == TurnPhase::Interrupted {
            Some((latest.0, true))
        } else {
            None
        },
        None => None,
    }
}

pub open spec fn turn_view(t: Option<LatestTurn>) -> Option<(Seq<char>, TurnPhase)> {
    match t {
        Some(t) => Some((t.turn_id@, t.phase)),
        None => None,
    }
}

/// Record the latest turn: fold or unfold per [`fold_change`] and remember
/// it for the next update. `expanded` holds the expanded turn ids.
pub fn fold_latest_turn(
    expanded: &mut Vec<String>,
    prev: &mut Option<LatestTurn>,
    latest: Option<&LatestTurn>,
)
    requires
        text::distinct(old(expanded)@),
    ensures
        text::distinct(final(expanded)@),
        match latest {
            None => final(expanded)@ == old(expanded)@ && turn_view(*final(prev)) == turn_view(
                *old(prev),
            ),
            Some(l) => {
                &&& turn_view(*final(prev)) == Some((l.turn_id@, l.phase))
                &&& match fold_change(turn_view(*old(prev)), (l.turn_id@, l.phase)) {
                    Some((id, now)) => {
                        &&& text::is_member(final(expanded)@, id) == now
                        &&& forall|q: Seq<char>|
                            q != id ==> text::is_member(final(expanded)@, q) == text::is_member(
                                old(expanded)@,
                                q,
                            )
                    },
                    None => final(expanded)@ == old(expanded)@,
                }
            },
        },
{
    let Some(l) = latest else {
        return;
    };
    let mut change: Option<(String, bool)> = None;
    if let Some(p) = &*prev {
        if !text::str_eq(p.turn_id.as_str(), l.turn_id.as_str()) {
            change = Some((copy_string(&p.turn_id), false));
        } else if p.phase == TurnPhase::Running && l.phase == TurnPhase::Interrupted {
            change = Some((copy_string(&l.turn_id), true));
        }
    }
    assert(match change {
        Some((id, now)) => fold_change(turn_view(*old(prev)), (l.turn_id@, l.phase)) == Some(
            (id@, now),
        ),
        None => fold_change(turn_view(*old(prev)), (l.turn_id@, l.phase)) is None,
    });
    if let Some((id, now)) = change {
        let present = match text::position_of(expanded, id.as_str()) {
            Some(_) => true,
            None => false,
        };
        if present != now {
            text::toggle_member(expanded, id.as_str());
        }
    }
    *prev = Some(LatestTurn { turn_id: copy_string(&l.turn_id), phase: l.phase });
}

/// Length of the common prefix of two row lists.
pub fn shared_prefix(previous: &[TimelineRow], next: &[TimelineRow]) -> (n: usize)
    ensures
        n <= previous@.len(),
        n <= next@.len(),
        forall|i: int| 0 <= i < n ==> previous@[i] == next@[i],
        n < previous@.len() && n < next@.len() ==> previous@[n as int] != next@[n as int],
{
    let mut n: usize = 0;
    while n < previous.len() && n < next.len() && previous[n] == next[n]
        invariant
            n <= previous@.len(),
            n <= next@.len(),
            forall|i: int| 0 <= i < n ==> previous@[i] == next@[i],
        decreases previous@.len() - n,
    {
        n += 1;
    }
    n
}

/// The list splice after a rebuild: replace `shared..previous_len` with
/// `next_len - shared` new rows, unless nothing changed in length or order.
pub fn timeline_splice(previous_len: usize, next_len: usize, shared: usize) -> (r: Option<
    (usize, usize, usize),
>)
    requires
        shared <= previous_len,
        shared <= next_len,
    ensures
        r == if shared != previous_len || shared != next_len {
            Some((shared, previous_len, (next_len - shared) as usize))
        } else {
            None
        },
{
    if shared != previous_len || shared != next_len {
        Some((shared, previous_len, next_len - shared))
    } else {
        None
    }
}

/// Row `i` survived the splice with a different fingerprint.
pub open spec fn moved(previous: Seq<u64>, next: Seq<u64>, i: int) -> bool {
    previous[i] != next[i]
}

/// The runs of rows to remeasure below `shared`: maximal ranges of
/// consecutive rows whose fingerprint changed, in order.
pub open spec fn runs_exact(
    runs: Seq<(usize, usize)>,
    previous: Seq<u64>,
    next: Seq<u64>,
    shared: int,
) -> bool {
    &&& forall|k: int|
        #![trigger runs[k]]
        0 <= k < runs.len() ==> {
            &&& runs[k].0 < runs[k].1 <= shared
            &&& runs[k].0 == 0 || !moved(previous, next, runs[k].0 - 1)
            &&& runs[k].1 == shared || !moved(previous, next, runs[k].1 as int)
        }
    &&& forall|k: int| 0 <= k < runs.len() - 1 ==> #[trigger] runs[k].1 < runs[k + 1].0
    &&& forall|i: int|
        0 <= i < shared ==> (moved(previous, next, i) <==> exists|k: int|
            0 <= k < runs.len() && runs[k].0 <= i < #[trigger] runs[k].1)
}

/// The row ranges to remeasure after a splice that kept `shared` rows.
pub fn remeasure_runs(previous: &[u64], next: &[u64], shared: usize) -> (runs: Vec<(usize, usize)>)
    requires
        shared <= previous@.len(),
        shared <= next@.len(),
    ensures
        runs_exact(runs@, previous@, next@, shared as int),
{
    let mut runs: Vec<(usize, usize)> = Vec::new();
    let mut index: usize = 0;
    while index < shared
        invariant
            index <= shared <= previous@.len(),
            shared <= next@.len(),
            forall|k: int|
                #![trigger runs@[k]]
                0 <= k < runs@.len() ==> {
                    &&& runs@[k].0 < runs@[k].1 <= index
                    &&& runs@[k].0 == 0 || !moved(previous@, next@, runs@[k].0 - 1)
                    &&& runs@[k].1 == shared || !moved(previous@, next@, runs@[k].1 as int)
                },
            forall|k: int| 0 <= k < runs@.len() - 1 ==> #[trigger] runs@[k].1 < runs@[k + 1].0,
            runs@.len() > 0 ==> runs@.last().1 < index || index == shared || !moved(
                previous@,
                next@,
                index as int,
            ),
            runs@.len() > 0 ==> runs@.last().1 <= index,
            forall|i: int|
                0 <= i < index ==> (moved(previous@, next@, i) <==> exists|k: int|
                    0 <= k < runs@.len() && runs@[k].0 <= i < #[trigger] runs@[k].1),
        decreases shared - index,
    {
        if previous[index] == next[index] {
            index += 1;
            proof {
                let i = index - 1;
                if exists|k: int| 0 <= k < runs@.len() && runs@[k].0 <= i < #[trigger] runs@[k].1 {
                    let k = choose|k: int|
                        0 <= k < runs@.len() && runs@[k].0 <= i < #[trigger] runs@[k].1;
                    assert(runs@[k].1 <= i);
                }
            }
            continue;
        }
        let start = index;
        assert(start == 0 || !moved(previous@, next@, start - 1)) by {
            if start > 0 && moved(previous@, next@, start - 1) {
                let i = start - 1;
                assert(exists|k: int|
                    0 <= k < runs@.len() && runs@[k].0 <= i < #[trigger] runs@[k].1);
                let k = choose|k: int|
                    0 <= k < runs@.len() && runs@[k].0 <= i < #[trigger] runs@[k].1;
                if k < runs@.len() - 1 {
                    assert(runs@[k].1 < runs@[k + 1].0);
                    assert(runs@[k + 1].1 <= runs@.last().1);
                }
            }
        }
        while index < shared && previous[index] != next[index]
            invariant
                start < index || start == index,
                start <= index <= shared,
                shared <= previous@.len(),
                shared <= next@.len(),
                forall|i: int| start <= i < index ==> moved(previous@, next@, i),
            decreases shared - index,
        {
            index += 1;
        }
        let ghost before = runs@;
        runs.push((start, index));
        proof {
            assert forall|i: int|
                0 <= i < index implies (moved(previous@, next@, i) <==> exists|k: int|
                0 <= k < runs@.len() && runs@[k].0 <= i < #[trigger] runs@[k].1) by {
                if i < start {
                    if moved(previous@, next@, i) {
                        assert(exists|k: int|
                            0 <= k < before.len() && before[k].0 <= i < #[trigger] before[k].1);
                    }
                    if exists|k: int|
                        0 <= k < before.len() && before[k].0 <= i < #[trigger] before[k].1 {
                        let k = choose|k: int|
                            0 <= k < before.len() && before[k].0 <= i < #[trigger] before[k].1;
                        assert(runs@[k] == before[k]);
                    }
                    if exists|k: int| 0 <= k < runs@.len() && runs@[k].0 <= i < #[trigger] runs@[k].1 {
                        let k = choose|k: int|
                            0 <= k < runs@.len() && runs@[k].0 <= i < #[trigger] runs@[k].1;
                        if k < before.len() {
                            assert(before[k] == runs@[k]);
                        }
                    }
                } else {
                    let k = before.len() as int;
                    assert(runs@[k].0 <= i < runs@[k].1);
                }
            }
        }
    }
    runs
}

/// The row holding message `anchor` (by id), where the list scrolls after
/// a send.
pub open spec fn anchor_row_from(
    rows: Seq<TimelineRow>,
    ids: Seq<String>,
    anchor: Seq<char>,
    i: int,
) -> Option<int>
    decreases rows.len() - i,
{
    if i < 0 || i >= rows.len() {
        None
    } else if rows[i] matches TimelineRow::Message(k) && k < ids.len() && ids[k as int]@
        == anchor {
        Some(i)
    } else {
        anchor_row_from(rows, ids, anchor, i + 1)
    }
}

/// Where to scroll for the pending anchor message; `message_ids` are the
/// ids of the displayed messages.
pub fn anchor_row(rows: &[TimelineRow], message_ids: &[String], anchor: &str) -> (r: Option<usize>)
    ensures
        match r {
            Some(i) => anchor_row_from(rows@, message_ids@, anchor@, 0) == Some(i as int),
            None => anchor_row_from(rows@, message_ids@, anchor@, 0) is None,
        },
{
    let mut i: usize = 0;
    while i < rows.len()
        invariant
            i <= rows@.len(),
            anchor_row_from(rows@, message_ids@, anchor@, 0) == anchor_row_from(
                rows@,
                message_ids@,
                anchor@,
                i as int,
            ),
        decreases rows@.len() - i,
    {
        if let TimelineRow::Message(k) = rows[i] {
            if k < message_ids.len() && text::str_eq(message_ids[k].as_str(), anchor) {
                return Some(i);
            }
        }
        i += 1;
    }
    None
}


/// Proposed-plan rows go, in order, just before the running row, or last
/// when no turn runs; every other row keeps its order around them.
pub proof fn law_plan_rows_before_running(rows: Seq<TimelineRow>, count: nat)
    ensures
        ({
            let at = first_running_from(rows, 0);
            let w = with_plan_rows(rows, count);
            &&& 0 <= at <= rows.len()
            &&& forall|i: int| 0 <= i < at ==> !(#[trigger] rows[i] is Running)
            &&& w.len() == rows.len() + count
            &&& forall|i: int| 0 <= i < at ==> #[trigger] w[i] == rows[i]
            &&& forall|k: int| 0 <= k < count ==> #[trigger] w[at + k] == TimelineRow::ProposedPlan(
                k as usize,
            )
            &&& forall|i: int| at <= i < rows.len() ==> #[trigger] w[i + count] == rows[i]
            &&& at < rows.len() ==> w[at + count] is Running
        }),
{
    lemma_first_running_bounds(rows, 0);
    lemma_first_running_prefix(rows, 0);
    let at = first_running_from(rows, 0);
    if at < rows.len() {
        lemma_first_running_hit(rows, 0);
    }
}

proof fn lemma_first_running_prefix(rows: Seq<TimelineRow>, i: int)
    requires
        0 <= i <= rows.len(),
    ensures
        forall|j: int| i <= j < first_running_from(rows, i) ==> !(#[trigger] rows[j] is Running),
    decreases rows.len() - i,
{
    if i < rows.len() && !(rows[i] is Running) {
        lemma_first_running_prefix(rows, i + 1);
    }
}

proof fn lemma_first_running_hit(rows: Seq<TimelineRow>, i: int)
    requires
        0 <= i <= rows.len(),
        first_running_from(rows, i) < rows.len(),
    ensures
        rows[first_running_from(rows, i)] is Running,
    decreases rows.len() - i,
{
    if i < rows.len() && !(rows[i] is Running) {
        lemma_first_running_hit(rows, i + 1);
    }
}

} // verus!
