//! Revert targets of user messages: a user message reverts the thread to
//! the checkpoint just before the next assistant turn's checkpoint.
//! Messages are taken in chronological order (creation time, then list
//! order); the first message after a user message that is a user message
//! or an assistant message with a checkpoint decides.

use vstd::prelude::*;

use crate::text;

verus! {

/// A displayed message, as far as revert targets go.
pub struct TimelineMessage {
    pub id: String,
    pub is_user: bool,
    /// ISO-8601 creation time; compared as text.
    pub created_at: String,
}

/// A checkpoint: the assistant message that closed its turn, and the turn
/// count it restores.
pub struct CheckpointRef {
    pub assistant_message_id: Option<String>,
    pub turn_count: i64,
}

/// Message `a` comes before message `b`: earlier creation time, or the same
/// time and earlier in the list.
pub open spec fn before(ms: Seq<TimelineMessage>, a: int, b: int) -> bool {
    text::seq_lt(ms[a].created_at@, ms[b].created_at@) || (ms[a].created_at@ == ms[b].created_at@
        && a < b)
}

/// The turn count of the last checkpoint closed by message `id`.
pub open spec fn assistant_count(cps: Seq<CheckpointRef>, id: Seq<char>) -> Option<i64>
    decreases cps.len(),
{
    if cps.len() == 0 {
        None
    } else if cps.last().assistant_message_id matches Some(a) && a@ == id {
        Some(cps.last().turn_count)
    } else {
        assistant_count(cps.drop_last(), id)
    }
}

/// Message `v` ends the search after a user message.
pub open spec fn stops(ms: Seq<TimelineMessage>, cps: Seq<CheckpointRef>, v: int) -> bool {
    ms[v].is_user || assistant_count(cps, ms[v].id@) is Some
}

/// `v` is the first message after `u` that ends the search.
pub open spec fn first_stop(ms: Seq<TimelineMessage>, cps: Seq<CheckpointRef>, u: int, v: int) -> bool {
    &&& 0 <= v < ms.len()
    &&& before(ms, u, v)
    &&& stops(ms, cps, v)
    &&& forall|w: int| 0 <= w < ms.len() && before(ms, u, w) && #[trigger] before(ms, w, v) ==> !stops(ms, cps, w)
}

/// The turn count one below `c`, floored at zero.
pub open spec fn reverted(c: i64) -> i64 {
    if c - 1 < 0 {
        0
    } else {
        (c - 1) as i64
    }
}

/// Message `id` closes a checkpoint whose reverted count is `c`.
pub open spec fn reverts_to(cps: Seq<CheckpointRef>, id: Seq<char>, c: i64) -> bool {
    match assistant_count(cps, id) {
        Some(t) => c == reverted(t),
        None => false,
    }
}

/// The revert target of message `u`: for a user message whose first stop
/// is an assistant message with a checkpoint, one below that checkpoint's
/// turn count.
pub open spec fn revert_count_is(
    ms: Seq<TimelineMessage>,
    cps: Seq<CheckpointRef>,
    u: int,
    r: Option<i64>,
) -> bool {
    match r {
        Some(c) => ms[u].is_user && exists|v: int|
            #![trigger first_stop(ms, cps, u, v)]
            first_stop(ms, cps, u, v) && !ms[v].is_user && reverts_to(cps, ms[v].id@, c),
        None => !ms[u].is_user || forall|v: int|
            #![trigger first_stop(ms, cps, u, v)]
            first_stop(ms, cps, u, v) ==> ms[v].is_user,
    }
}

proof fn lemma_before_strict(ms: Seq<TimelineMessage>, a: int, b: int, c: int)
    ensures
        !before(ms, a, a),
        before(ms, a, b) ==> !before(ms, b, a),
        before(ms, a, b) && before(ms, b, c) ==> before(ms, a, c),
        a != b ==> before(ms, a, b) || before(ms, b, a),
{
    text::lemma_seq_lt_irreflexive(ms[a].created_at@);
    if text::seq_lt(ms[a].created_at@, ms[b].created_at@) && text::seq_lt(
        ms[b].created_at@,
        ms[a].created_at@,
    ) {
        text::lemma_seq_lt_transitive(ms[a].created_at@, ms[b].created_at@, ms[a].created_at@);
    }
    if before(ms, a, b) && before(ms, b, c) {
        if text::seq_lt(ms[a].created_at@, ms[b].created_at@) && text::seq_lt(
            ms[b].created_at@,
            ms[c].created_at@,
        ) {
            text::lemma_seq_lt_transitive(
                ms[a].created_at@,
                ms[b].created_at@,
                ms[c].created_at@,
            );
        }
    }
    if ms[a].created_at@ != ms[b].created_at@ {
        text::lemma_seq_lt_total(ms[a].created_at@, ms[b].created_at@);
    }
}

/// `order` lists every message once, in chronological order.
pub open spec fn chronological(ms: Seq<TimelineMessage>, order: Seq<usize>) -> bool {
    &&& order.len() == ms.len()
    &&& forall|q: int| 0 <= q < order.len() ==> order[q] < ms.len()
    &&& forall|a: int, b: int|
        0 <= a < b < order.len() ==> #[trigger] before(ms, order[a] as int, order[b] as int)
    &&& forall|v: int| 0 <= v < ms.len() ==> #[trigger] lists(order, v)
}

/// Index `v` occurs in `order`.
pub open spec fn lists(order: Seq<usize>, v: int) -> bool {
    exists|q: int| 0 <= q < order.len() && order[q] == v
}

/// The messages' indices in chronological order (a stable sort by
/// creation time).
pub fn chronological_order(messages: &[TimelineMessage]) -> (order: Vec<usize>)
    ensures
        chronological(messages@, order@),
{
    let ghost ms = messages@;
    let mut order: Vec<usize> = Vec::new();
    let mut j: usize = 0;
    while j < messages.len()
        invariant
            ms == messages@,
            j <= ms.len(),
            order@.len() == j,
            forall|q: int| 0 <= q < order@.len() ==> order@[q] < j,
            forall|a: int, b: int|
                0 <= a < b < order@.len() ==> #[trigger] before(
                    ms,
                    order@[a] as int,
                    order@[b] as int,
                ),
            forall|v: int| 0 <= v < j ==> #[trigger] lists(order@, v),
        decreases ms.len() - j,
    {
        let mut p: usize = order.len();
        while p > 0 && text::str_less(
            messages[j].created_at.as_str(),
            messages[order[p - 1]].created_at.as_str(),
        )
            invariant
                ms == messages@,
                j < ms.len(),
                p <= order@.len(),
                order@.len() == j,
                forall|q: int| 0 <= q < order@.len() ==> order@[q] < j,
                forall|q: int| p <= q < order@.len() ==> before(ms, j as int, order@[q] as int),
            decreases p,
        {
            p -= 1;
        }
        proof {
            if p > 0 {
                let w = order@[p - 1] as int;
                assert(!text::seq_lt(ms[j as int].created_at@, ms[w].created_at@));
                lemma_before_strict(ms, w, j as int, 0);
                assert(before(ms, w, j as int));
            }
        }
        let ghost old_order = order@;
        order.insert(p, j);
        proof {
            assert forall|a: int, b: int|
                0 <= a < b < order@.len() implies #[trigger] before(
                ms,
                order@[a] as int,
                order@[b] as int,
            ) by {
                if b < p {
                    assert(order@[a] == old_order[a] && order@[b] == old_order[b]);
                } else if b == p {
                    let w = old_order[p - 1] as int;
                    if a < p - 1 {
                        assert(before(ms, old_order[a] as int, w));
                        lemma_before_strict(ms, old_order[a] as int, w, j as int);
                    }
                } else if a < p {
                    assert(order@[b] == old_order[b - 1]);
                    if a == p - 1 {
                    } else {
                        assert(before(ms, old_order[a] as int, old_order[b - 1] as int));
                    }
                } else if a == p {
                    assert(order@[b] == old_order[b - 1]);
                } else {
                    assert(order@[a] == old_order[a - 1] && order@[b] == old_order[b - 1]);
                }
            }
            assert forall|v: int| 0 <= v < j + 1 implies #[trigger] lists(order@, v) by {
                if v == j {
                    assert(order@[p as int] == v);
                } else {
                    assert(lists(old_order, v));
                    let q = choose|q: int| 0 <= q < old_order.len() && old_order[q] == v;
                    if q < p {
                        assert(order@[q] == v);
                    } else {
                        assert(order@[q + 1] == v);
                    }
                }
            }
        }
        j += 1;
    }
    order
}

/// The checkpoint count closed by message `id`, if any.
fn checkpoint_count(checkpoints: &[CheckpointRef], id: &str) -> (r: Option<i64>)
    ensures
        r == assistant_count(checkpoints@, id@),
{
    let mut i: usize = checkpoints.len();
    proof {
        lemma_take_all(checkpoints@);
    }
    while i > 0
        invariant
            i <= checkpoints@.len(),
            assistant_count(checkpoints@, id@) == assistant_count(
                checkpoints@.take(i as int),
                id@,
            ),
        decreases i,
    {
        let ghost pre = checkpoints@.take(i as int);
        assert(pre.last() == checkpoints@[i - 1]);
        assert(pre.drop_last() =~= checkpoints@.take(i - 1));
        if let Some(a) = &checkpoints[i - 1].assistant_message_id {
            if text::str_eq(a.as_str(), id) {
                return Some(checkpoints[i - 1].turn_count);
            }
        }
        i -= 1;
    }
    assert(checkpoints@.take(0) =~= Seq::<CheckpointRef>::empty());
    None
}

proof fn lemma_take_all(cps: Seq<CheckpointRef>)
    ensures
        cps.take(cps.len() as int) =~= cps,
{
}

/// Every checkpoint's turn count is above `i64::MIN`.
pub open spec fn counts_in_range(cps: Seq<CheckpointRef>) -> bool {
    forall|i: int| 0 <= i < cps.len() ==> cps[i].turn_count > i64::MIN
}

proof fn lemma_assistant_count_in(cps: Seq<CheckpointRef>, id: Seq<char>)
    requires
        counts_in_range(cps),
    ensures
        assistant_count(cps, id) matches Some(c) ==> c > i64::MIN,
    decreases cps.len(),
{
    if cps.len() > 0 {
        lemma_assistant_count_in(cps.drop_last(), id);
    }
}

/// The revert target of each message, by message index (`None` for
/// messages that are not user messages or have no target).
pub fn revert_turn_counts(messages: &[TimelineMessage], checkpoints: &[CheckpointRef]) -> (r: Vec<
    Option<i64>,
>)
    requires
        counts_in_range(checkpoints@),
    ensures
        r@.len() == messages@.len(),
        forall|u: int| 0 <= u < messages@.len() ==> revert_count_is(messages@, checkpoints@, u, #[trigger] r@[u]),
{
    let ghost ms = messages@;
    let ghost cps = checkpoints@;
    let order = chronological_order(messages);
    let mut counts: Vec<Option<i64>> = Vec::new();
    let mut k: usize = 0;
    while k < messages.len()
        invariant
            ms == messages@,
            k <= ms.len(),
            counts@.len() == k,
            forall|u: int| 0 <= u < k ==> counts@[u] is None,
        decreases ms.len() - k,
    {
        counts.push(None);
        k += 1;
    }
    let mut p: usize = 0;
    while p < order.len()
        invariant
            ms == messages@,
            cps == checkpoints@,
            counts_in_range(cps),
            chronological(ms, order@),
            p <= order@.len(),
            counts@.len() == ms.len(),
            forall|a: int| 0 <= a < p ==> revert_count_is(ms, cps, order@[a] as int, #[trigger] counts@[order@[a] as int]),
            forall|a: int| p <= a < order@.len() ==> #[trigger] counts@[order@[a] as int] is None,
        decreases order@.len() - p,
    {
        let u = order[p];
        let mut found: Option<i64> = None;
        if messages[u].is_user {
            let mut q: usize = p + 1;
            let mut done = false;
            while q < order.len() && !done
                invariant
                    ms == messages@,
                    cps == checkpoints@,
                    counts_in_range(cps),
                    chronological(ms, order@),
                    p < q <= order@.len(),
                    u == order@[p as int],
                    ms[u as int].is_user,
                    !done ==> found is None,
                    done ==> p + 1 < q,
                    !done ==> forall|t: int| p < t < q ==> !stops(ms, cps, order@[t] as int),
                    done ==> {
                        let v = order@[q - 1] as int;
                        &&& stops(ms, cps, v)
                        &&& forall|t: int| p < t < q - 1 ==> !stops(ms, cps, order@[t] as int)
                        &&& match found {
                            Some(c) => !ms[v].is_user && reverts_to(cps, ms[v].id@, c),
                            None => ms[v].is_user,
                        }
                    },
                decreases order@.len() - q,
            {
                let v = order[q];
                if messages[v].is_user {
                    done = true;
                } else {
                    match checkpoint_count(checkpoints, messages[v].id.as_str()) {
                        Some(c) => {
                            proof {
                                lemma_assistant_count_in(cps, ms[v as int].id@);
                            }
                            let less = c - 1;
                            found = Some(if less < 0 { 0 } else { less });
                            done = true;
                        },
                        None => {},
                    }
                }
                q += 1;
            }
            proof {
                let uu = u as int;
                assert forall|w: int|
                    0 <= w < ms.len() && before(ms, uu, w) implies exists|t: int|
                    p < t < order@.len() && order@[t] == w by {
                    assert(lists(order@, w));
                    let t = choose|t: int| 0 <= t < order@.len() && order@[t] == w;
                    if t <= p {
                        if t == p {
                            lemma_before_strict(ms, uu, uu, 0);
                        } else {
                            assert(before(ms, order@[t] as int, order@[p as int] as int));
                            lemma_before_strict(ms, w, uu, 0);
                        }
                    }
                }
                if done {
                    let v = order@[q - 1] as int;
                    assert(before(ms, order@[p as int] as int, order@[q - 1] as int));
                    assert forall|w: int|
                        0 <= w < ms.len() && before(ms, uu, w) && #[trigger] before(
                            ms,
                            w,
                            v,
                        ) implies !stops(ms, cps, w) by {
                        let t = choose|t: int| p < t < order@.len() && order@[t] == w;
                        if t >= q - 1 {
                            if t == q - 1 {
                                lemma_before_strict(ms, v, v, 0);
                            } else {
                                assert(before(ms, order@[q - 1] as int, order@[t] as int));
                                lemma_before_strict(ms, w, v, 0);
                            }
                        }
                    }
                    assert(first_stop(ms, cps, uu, v));
                    assert forall|v2: int| #[trigger] first_stop(ms, cps, uu, v2) implies v2 == v by {
                        if v2 != v {
                            lemma_before_strict(ms, v2, v, 0);
                        }
                    }
                } else {
                    assert forall|v2: int| #[trigger] first_stop(ms, cps, uu, v2) implies false by {
                        let t = choose|t: int| p < t < order@.len() && order@[t] == v2;
                    }
                }
            }
        } else {
        }
        assert(counts@[u as int] is None);
        counts.set(u, found);
        proof {
            assert forall|a: int| 0 <= a < p + 1 implies revert_count_is(ms, cps, order@[a] as int, #[trigger] counts@[order@[a] as int]) by {
                if a < p {
                    if order@[a] == order@[p as int] {
                        lemma_before_strict(ms, order@[a] as int, order@[a] as int, 0);
                    }
                }
            }
            assert forall|a: int| p + 1 <= a < order@.len() implies #[trigger] counts@[order@[a] as int] is None by {
                if order@[a] == order@[p as int] {
                    lemma_before_strict(ms, order@[a] as int, order@[a] as int, 0);
                }
            }
        }
        p += 1;
    }
    proof {
        assert forall|u: int| 0 <= u < ms.len() implies revert_count_is(ms, cps, u, #[trigger] counts@[u]) by {
            assert(lists(order@, u));
            let a = choose|q: int| 0 <= q < order@.len() && order@[q] == u;
            assert(revert_count_is(ms, cps, order@[a] as int, counts@[order@[a] as int]));
        }
    }
    counts
}

/// A revert never goes below the first turn: every revert target is at
/// least zero.
pub proof fn law_revert_targets_nonnegative(
    ms: Seq<TimelineMessage>,
    cps: Seq<CheckpointRef>,
    u: int,
    c: i64,
)
    requires
        revert_count_is(ms, cps, u, Some(c)),
    ensures
        c >= 0,
{
    let v = choose|v: int| first_stop(ms, cps, u, v) && !ms[v].is_user && reverts_to(cps, ms[v].id@, c);
}

} // verus!
