//! A timeline rebuild as a whole: the list rows from the derived rows with
//! the proposed-plan rows placed, the work-group toggles and turn folds,
//! each message's revert target, and one fingerprint per row.

use vstd::prelude::*;

use crate::fingerprint::{self, RowContent};
use crate::revert::{self, CheckpointRef, TimelineMessage};
use crate::timeline::{self, DerivedTimelineRow, TimelineRow, TurnFoldData, WorkToggleData};

verus! {

/// The timeline of the open thread.
pub struct RebuiltTimeline {
    pub rows: Vec<TimelineRow>,
    pub toggles: Vec<WorkToggleData>,
    pub folds: Vec<TurnFoldData>,
    /// Each message's revert target, by message index.
    pub revert_counts: Vec<Option<i64>>,
    /// Each row's fingerprint, by row index.
    pub hashes: Vec<u64>,
}

/// The list rows of the derived rows, before the plan rows are placed.
pub open spec fn derived_rows(d: Seq<DerivedTimelineRow>) -> Seq<TimelineRow> {
    Seq::new(d.len(), |i: int| timeline::row_for(d, i))
}

/// The layout of a rebuild: rows, toggles, folds and revert targets.
pub open spec fn layout_ok(
    r: RebuiltTimeline,
    d: Seq<DerivedTimelineRow>,
    plan_count: nat,
    ms: Seq<TimelineMessage>,
    cps: Seq<CheckpointRef>,
) -> bool {
    &&& r.rows@ == timeline::with_plan_rows(derived_rows(d), plan_count)
    &&& r.toggles@.len() == timeline::toggles_in(d)
    &&& r.folds@.len() == timeline::folds_in(d)
    &&& forall|i: int|
        0 <= i < d.len() && d[i] is WorkToggle ==> timeline::toggle_matches(
            r.toggles@[timeline::toggles_in(d.take(i)) as int],
            d[i],
        )
    &&& forall|i: int|
        0 <= i < d.len() && d[i] is TurnFold ==> timeline::fold_matches(
            r.folds@[timeline::folds_in(d.take(i)) as int],
            d[i],
        )
    &&& r.revert_counts@.len() == ms.len()
    &&& forall|u: int|
        0 <= u < ms.len() ==> revert::revert_count_is(ms, cps, u, #[trigger] r.revert_counts@[u])
    &&& forall|u: int|
        0 <= u < ms.len() ==> (#[trigger] r.revert_counts@[u] matches Some(c) ==> c >= 0)
}

/// The fingerprints line up with the rows: row `i`'s fingerprint is that
/// of `contents[i]`, the content row `i` shows.
pub open spec fn hashes_ok(r: RebuiltTimeline, contents: Seq<RowContent>) -> bool {
    &&& contents.len() == r.rows@.len()
    &&& r.hashes@.len() == r.rows@.len()
    &&& forall|i: int|
        0 <= i < r.rows@.len() ==> r.hashes@[i] == fingerprint::fingerprint(#[trigger] contents[i])
}

impl RebuiltTimeline {
    /// No thread is open: every list is empty.
    pub fn empty() -> (r: Self)
        ensures
            r.rows@.len() == 0,
            r.toggles@.len() == 0,
            r.folds@.len() == 0,
            r.revert_counts@.len() == 0,
            r.hashes@.len() == 0,
    {
        RebuiltTimeline {
            rows: Vec::new(),
            toggles: Vec::new(),
            folds: Vec::new(),
            revert_counts: Vec::new(),
            hashes: Vec::new(),
        }
    }

    /// Lay the timeline out: list rows with `plan_count` proposed-plan rows
    /// just before the running row, toggles, folds and revert targets. The
    /// fingerprints follow once the rows' contents are known.
    pub fn layout(
        derived: &[DerivedTimelineRow],
        plan_count: usize,
        messages: &[TimelineMessage],
        checkpoints: &[CheckpointRef],
    ) -> (r: Self)
        requires
            revert::counts_in_range(checkpoints@),
        ensures
            layout_ok(r, derived@, plan_count as nat, messages@, checkpoints@),
            r.hashes@.len() == 0,
    {
        let (rows, toggles, folds) = timeline::timeline_rows(derived);
        assert(rows@ =~= derived_rows(derived@));
        let placed = timeline::insert_plan_rows(&rows, plan_count);
        let counts = revert::revert_turn_counts(messages, checkpoints);
        proof {
            assert forall|u: int| 0 <= u < messages@.len() implies (#[trigger] counts@[u] matches Some(
                c,
            ) ==> c >= 0) by {
                if let Some(c) = counts@[u] {
                    revert::law_revert_targets_nonnegative(messages@, checkpoints@, u, c);
                }
            }
        }
        RebuiltTimeline { rows: placed, toggles, folds, revert_counts: counts, hashes: Vec::new() }
    }

    /// Fingerprint every row from the content it shows.
    pub fn set_hashes(&mut self, contents: &Vec<RowContent>)
        requires
            contents@.len() == old(self).rows@.len(),
        ensures
            hashes_ok(*final(self), contents@),
            final(self).rows == old(self).rows,
            final(self).toggles == old(self).toggles,
            final(self).folds == old(self).folds,
            final(self).revert_counts == old(self).revert_counts,
    {
        self.hashes = fingerprint::row_fingerprints(contents);
    }
}

/// A rebuilt timeline as a whole: fingerprints line up with the rows, the
/// proposed-plan rows sit in order just before the running row (or last),
/// every other row keeps its order, and no revert target is negative.
pub proof fn law_rebuilt_timeline(
    r: RebuiltTimeline,
    d: Seq<DerivedTimelineRow>,
    plan_count: nat,
    ms: Seq<TimelineMessage>,
    cps: Seq<CheckpointRef>,
    contents: Seq<RowContent>,
)
    requires
        layout_ok(r, d, plan_count, ms, cps),
        hashes_ok(r, contents),
    ensures
        r.hashes@.len() == r.rows@.len(),
        forall|i: int|
            0 <= i < r.rows@.len() ==> r.hashes@[i] == fingerprint::fingerprint(#[trigger] contents[i]),
        ({
            let base = derived_rows(d);
            let at = timeline::first_running_from(base, 0);
            &&& r.rows@.len() == d.len() + plan_count
            &&& forall|k: int| 0 <= k < plan_count ==> #[trigger] r.rows@[at + k]
                == TimelineRow::ProposedPlan(k as usize)
            &&& forall|i: int| 0 <= i < at ==> #[trigger] r.rows@[i] == base[i]
            &&& forall|i: int| at <= i < base.len() ==> #[trigger] r.rows@[i + plan_count] == base[i]
            &&& at < base.len() ==> r.rows@[at + plan_count] is Running
            &&& at == base.len() ==> r.rows@.len() == at + plan_count
        }),
        forall|u: int|
            0 <= u < ms.len() ==> (#[trigger] r.revert_counts@[u] matches Some(c) ==> c >= 0),
{
    timeline::law_plan_rows_before_running(derived_rows(d), plan_count);
}

} // verus!
