//! Stable ordering of list rows by a text key, newest (greatest) first:
//! the sidebar's thread order and the ranking of thread suggestions.

use vstd::prelude::*;

use crate::text;

verus! {

/// Row `a` comes before row `b`: a greater key, or the same key and an
/// earlier position.
pub open spec fn desc_before(keys: Seq<Seq<char>>, a: int, b: int) -> bool {
    text::seq_lt(keys[b], keys[a]) || (keys[a] == keys[b] && a < b)
}

/// Index `v` occurs in `order`.
pub open spec fn lists(order: Seq<usize>, v: int) -> bool {
    exists|q: int| 0 <= q < order.len() && order[q] == v
}

/// `order` lists every row once, greatest key first, ties in list order.
pub open spec fn ordered_desc(keys: Seq<Seq<char>>, order: Seq<usize>) -> bool {
    &&& order.len() == keys.len()
    &&& forall|q: int| 0 <= q < order.len() ==> order[q] < keys.len()
    &&& forall|a: int, b: int|
        0 <= a < b < order.len() ==> #[trigger] desc_before(keys, order[a] as int, order[b] as int)
    &&& forall|v: int| 0 <= v < keys.len() ==> #[trigger] lists(order, v)
}

pub proof fn lemma_desc_before_strict(keys: Seq<Seq<char>>, a: int, b: int, c: int)
    ensures
        !desc_before(keys, a, a),
        desc_before(keys, a, b) ==> !desc_before(keys, b, a),
        desc_before(keys, a, b) && desc_before(keys, b, c) ==> desc_before(keys, a, c),
        a != b ==> desc_before(keys, a, b) || desc_before(keys, b, a),
{
    text::lemma_seq_lt_irreflexive(keys[a]);
    if text::seq_lt(keys[b], keys[a]) && text::seq_lt(keys[a], keys[b]) {
        text::lemma_seq_lt_transitive(keys[a], keys[b], keys[a]);
    }
    if desc_before(keys, a, b) && desc_before(keys, b, c) {
        if text::seq_lt(keys[b], keys[a]) && text::seq_lt(keys[c], keys[b]) {
            text::lemma_seq_lt_transitive(keys[c], keys[b], keys[a]);
        }
    }
    if keys[a] != keys[b] {
        text::lemma_seq_lt_total(keys[a], keys[b]);
    }
}

pub open spec fn keys_view(keys: Seq<Vec<char>>) -> Seq<Seq<char>> {
    keys.map_values(|k: Vec<char>| k@)
}

/// The rows' positions, greatest key first; equal keys keep their order
/// (a stable sort).
pub fn stable_order_desc(keys: &Vec<Vec<char>>) -> (order: Vec<usize>)
    ensures
        ordered_desc(keys_view(keys@), order@),
{
    let ghost ks = keys_view(keys@);
    let mut order: Vec<usize> = Vec::new();
    let mut j: usize = 0;
    while j < keys.len()
        invariant
            ks == keys_view(keys@),
            ks.len() == keys@.len(),
            j <= ks.len(),
            order@.len() == j,
            forall|q: int| 0 <= q < order@.len() ==> order@[q] < j,
            forall|a: int, b: int|
                0 <= a < b < order@.len() ==> #[trigger] desc_before(
                    ks,
                    order@[a] as int,
                    order@[b] as int,
                ),
            forall|v: int| 0 <= v < j ==> #[trigger] lists(order@, v),
        decreases ks.len() - j,
    {
        let mut p: usize = order.len();
        while p > 0 && less_than(&keys[order[p - 1]], &keys[j])
            invariant
                ks == keys_view(keys@),
                ks.len() == keys@.len(),
                j < ks.len(),
                p <= order@.len(),
                order@.len() == j,
                forall|q: int| 0 <= q < order@.len() ==> order@[q] < j,
                forall|q: int| p <= q < order@.len() ==> desc_before(ks, j as int, order@[q] as int),
            decreases p,
        {
            proof {
                let w = order@[p - 1] as int;
                assert(ks[w] == keys@[w]@);
                assert(ks[j as int] == keys@[j as int]@);
            }
            p -= 1;
        }
        proof {
            if p > 0 {
                let w = order@[p - 1] as int;
                assert(ks[w] == keys@[w]@);
                assert(ks[j as int] == keys@[j as int]@);
                assert(!text::seq_lt(ks[w], ks[j as int]));
                lemma_desc_before_strict(ks, w, j as int, 0);
                assert(desc_before(ks, w, j as int));
            }
        }
        let ghost old_order = order@;
        order.insert(p, j);
        proof {
            assert forall|a: int, b: int|
                0 <= a < b < order@.len() implies #[trigger] desc_before(
                ks,
                order@[a] as int,
                order@[b] as int,
            ) by {
                if b < p {
                    assert(order@[a] == old_order[a] && order@[b] == old_order[b]);
                } else if b == p {
                    let w = old_order[p - 1] as int;
                    if a < p - 1 {
                        assert(desc_before(ks, old_order[a] as int, w));
                        lemma_desc_before_strict(ks, old_order[a] as int, w, j as int);
                    }
                } else if a < p {
                    assert(order@[b] == old_order[b - 1]);
                    if a < p - 1 {
                        assert(desc_before(ks, old_order[a] as int, old_order[b - 1] as int));
                    }
                } else if a == p {
                    assert(order@[b] == old_order[b - 1]);
                } else {
                    assert(order@[a] == old_order[a - 1] && order@[b] == old_order[b - 1]);
                }
            }
            assert forall|v: int| 0 <= v < j + 1 implies #[trigger] lists(order@, v) by {
                if v == j {
                    assert(order@[p as int] == v);
                } else {
                    assert(lists(old_order, v));
                    let q = choose|q: int| 0 <= q < old_order.len() && old_order[q] == v;
                    if q < p {
                        assert(order@[q] == v);
                    } else {
                        assert(order@[q + 1] == v);
                    }
                }
            }
        }
        j += 1;
    }
    order
}

/// Row `a` comes before row `b` in ascending order: a smaller key, or the
/// same key and an earlier position.
pub open spec fn asc_before(keys: Seq<Seq<char>>, a: int, b: int) -> bool {
    text::seq_lt(keys[a], keys[b]) || (keys[a] == keys[b] && a < b)
}

/// `order` lists every row once, smallest key first, ties in list order.
pub open spec fn ordered_asc(keys: Seq<Seq<char>>, order: Seq<usize>) -> bool {
    &&& order.len() == keys.len()
    &&& forall|q: int| 0 <= q < order.len() ==> order[q] < keys.len()
    &&& forall|a: int, b: int|
        0 <= a < b < order.len() ==> #[trigger] asc_before(keys, order[a] as int, order[b] as int)
    &&& forall|v: int| 0 <= v < keys.len() ==> #[trigger] lists(order, v)
}

pub proof fn lemma_asc_before_strict(keys: Seq<Seq<char>>, a: int, b: int, c: int)
    ensures
        !asc_before(keys, a, a),
        asc_before(keys, a, b) ==> !asc_before(keys, b, a),
        asc_before(keys, a, b) && asc_before(keys, b, c) ==> asc_before(keys, a, c),
        a != b ==> asc_before(keys, a, b) || asc_before(keys, b, a),
{
    text::lemma_seq_lt_irreflexive(keys[a]);
    if text::seq_lt(keys[b], keys[a]) && text::seq_lt(keys[a], keys[b]) {
        text::lemma_seq_lt_transitive(keys[a], keys[b], keys[a]);
    }
    if asc_before(keys, a, b) && asc_before(keys, b, c) {
        if text::seq_lt(keys[a], keys[b]) && text::seq_lt(keys[b], keys[c]) {
            text::lemma_seq_lt_transitive(keys[a], keys[b], keys[c]);
        }
    }
    if keys[a] != keys[b] {
        text::lemma_seq_lt_total(keys[a], keys[b]);
    }
}

/// The rows' positions, smallest key first; equal keys keep their order
/// (a stable sort).
pub fn stable_order_asc(keys: &Vec<Vec<char>>) -> (order: Vec<usize>)
    ensures
        ordered_asc(keys_view(keys@), order@),
{
    let ghost ks = keys_view(keys@);
    let mut order: Vec<usize> = Vec::new();
    let mut j: usize = 0;
    while j < keys.len()
        invariant
            ks == keys_view(keys@),
            ks.len() == keys@.len(),
            j <= ks.len(),
            order@.len() == j,
            forall|q: int| 0 <= q < order@.len() ==> order@[q] < j,
            forall|a: int, b: int|
                0 <= a < b < order@.len() ==> #[trigger] asc_before(
                    ks,
                    order@[a] as int,
                    order@[b] as int,
                ),
            forall|v: int| 0 <= v < j ==> #[trigger] lists(order@, v),
        decreases ks.len() - j,
    {
        let mut p: usize = order.len();
        while p > 0 && less_than(&keys[j], &keys[order[p - 1]])
            invariant
                ks == keys_view(keys@),
                ks.len() == keys@.len(),
                j < ks.len(),
                p <= order@.len(),
                order@.len() == j,
                forall|q: int| 0 <= q < order@.len() ==> order@[q] < j,
                forall|q: int| p <= q < order@.len() ==> asc_before(ks, j as int, order@[q] as int),
            decreases p,
        {
            proof {
                let w = order@[p - 1] as int;
                assert(ks[w] == keys@[w]@);
                assert(ks[j as int] == keys@[j as int]@);
            }
            p -= 1;
        }
        proof {
            if p > 0 {
                let w = order@[p - 1] as int;
                assert(ks[w] == keys@[w]@);
                assert(ks[j as int] == keys@[j as int]@);
                assert(!text::seq_lt(ks[j as int], ks[w]));
                lemma_asc_before_strict(ks, w, j as int, 0);
                assert(asc_before(ks, w, j as int));
            }
        }
        let ghost old_order = order@;
        order.insert(p, j);
        proof {
            assert forall|a: int, b: int|
                0 <= a < b < order@.len() implies #[trigger] asc_before(
                ks,
                order@[a] as int,
                order@[b] as int,
            ) by {
                if b < p {
                    assert(order@[a] == old_order[a] && order@[b] == old_order[b]);
                } else if b == p {
                    let w = old_order[p - 1] as int;
                    if a < p - 1 {
                        assert(asc_before(ks, old_order[a] as int, w));
                        lemma_asc_before_strict(ks, old_order[a] as int, w, j as int);
                    }
                } else if a < p {
                    assert(order@[b] == old_order[b - 1]);
                    if a < p - 1 {
                        assert(asc_before(ks, old_order[a] as int, old_order[b - 1] as int));
                    }
                } else if a == p {
                    assert(order@[b] == old_order[b - 1]);
                } else {
                    assert(order@[a] == old_order[a - 1] && order@[b] == old_order[b - 1]);
                }
            }
            assert forall|v: int| 0 <= v < j + 1 implies #[trigger] lists(order@, v) by {
                if v == j {
                    assert(order@[p as int] == v);
                } else {
                    assert(lists(old_order, v));
                    let q = choose|q: int| 0 <= q < old_order.len() && old_order[q] == v;
                    if q < p {
                        assert(order@[q] == v);
                    } else {
                        assert(order@[q + 1] == v);
                    }
                }
            }
        }
        j += 1;
    }
    order
}

fn less_than(a: &Vec<char>, b: &Vec<char>) -> (r: bool)
    ensures
        r == text::seq_lt(a@, b@),
{
    let x = text::string_from(a);
    let y = text::string_from(b);
    text::str_less(x.as_str(), y.as_str())
}


/// Row `a` comes before row `b`: an earlier group, or the same group and a
/// higher rank, or the same group and rank and an earlier position.
pub open spec fn rank_before(keys: Seq<(usize, u64)>, a: int, b: int) -> bool {
    keys[a].0 < keys[b].0 || (keys[a].0 == keys[b].0 && (keys[a].1 > keys[b].1 || (keys[a].1
        == keys[b].1 && a < b)))
}

/// `order` lists every row once, groups in order, each group by rank,
/// highest first, ties in list order.
pub open spec fn ordered_by_rank(keys: Seq<(usize, u64)>, order: Seq<usize>) -> bool {
    &&& order.len() == keys.len()
    &&& forall|q: int| 0 <= q < order.len() ==> order[q] < keys.len()
    &&& forall|a: int, b: int|
        0 <= a < b < order.len() ==> #[trigger] rank_before(keys, order[a] as int, order[b] as int)
    &&& forall|v: int| 0 <= v < keys.len() ==> #[trigger] lists(order, v)
}

/// The rows' positions with each group (kept in group order) sorted by
/// rank, highest first; equal ranks keep their order (a stable sort).
pub fn stable_order_by_rank(keys: &Vec<(usize, u64)>) -> (order: Vec<usize>)
    ensures
        ordered_by_rank(keys@, order@),
{
    let ghost ks = keys@;
    let mut order: Vec<usize> = Vec::new();
    let mut j: usize = 0;
    while j < keys.len()
        invariant
            ks == keys@,
            j <= ks.len(),
            order@.len() == j,
            forall|q: int| 0 <= q < order@.len() ==> order@[q] < j,
            forall|a: int, b: int|
                0 <= a < b < order@.len() ==> #[trigger] rank_before(
                    ks,
                    order@[a] as int,
                    order@[b] as int,
                ),
            forall|v: int| 0 <= v < j ==> #[trigger] lists(order@, v),
        decreases ks.len() - j,
    {
        let mut p: usize = order.len();
        while p > 0 && (keys[order[p - 1]].0 > keys[j].0 || (keys[order[p - 1]].0 == keys[j].0
            && keys[order[p - 1]].1 < keys[j].1))
            invariant
                ks == keys@,
                j < ks.len(),
                p <= order@.len(),
                order@.len() == j,
                forall|q: int| 0 <= q < order@.len() ==> order@[q] < j,
                forall|q: int| p <= q < order@.len() ==> rank_before(ks, j as int, order@[q] as int),
            decreases p,
        {
            p -= 1;
        }
        let ghost old_order = order@;
        proof {
            if p > 0 {
                assert(rank_before(ks, old_order[p - 1] as int, j as int));
            }
        }
        order.insert(p, j);
        proof {
            assert forall|a: int, b: int|
                0 <= a < b < order@.len() implies #[trigger] rank_before(
                ks,
                order@[a] as int,
                order@[b] as int,
            ) by {
                if b < p {
                    assert(order@[a] == old_order[a] && order@[b] == old_order[b]);
                } else if b == p {
                    if a < p - 1 {
                        assert(rank_before(ks, old_order[a] as int, old_order[p - 1] as int));
                    }
                } else if a < p {
                    assert(order@[b] == old_order[b - 1]);
                    if a < p - 1 {
                        assert(rank_before(ks, old_order[a] as int, old_order[b - 1] as int));
                    }
                } else if a == p {
                    assert(order@[b] == old_order[b - 1]);
                } else {
                    assert(order@[a] == old_order[a - 1] && order@[b] == old_order[b - 1]);
                }
            }
            assert forall|v: int| 0 <= v < j + 1 implies #[trigger] lists(order@, v) by {
                if v == j {
                    assert(order@[p as int] == v);
                } else {
                    assert(lists(old_order, v));
                    let q = choose|q: int| 0 <= q < old_order.len() && old_order[q] == v;
                    if q < p {
                        assert(order@[q] == v);
                    } else {
                        assert(order@[q + 1] == v);
                    }
                }
            }
        }
        j += 1;
    }
    order
}

} // verus!
