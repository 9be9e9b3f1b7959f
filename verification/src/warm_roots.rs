//! The files panels kept warm for recently visited workspace roots. When
//! the chat moves to another root, the current panel is parked under its
//! root (replacing an older entry for that root); past the limit the
//! oldest panel without unsaved changes is dropped; a panel parked for the
//! new root is revived instead of building a fresh one.

use vstd::prelude::*;

use crate::text;

verus! {

/// How many parked roots are kept (each holds a watch loop).
pub const FILES_CACHE_ROOTS: usize = 4;

/// `es` without the entries of root `key`, in order.
pub open spec fn without_root<P>(es: Seq<(String, P)>, key: Seq<char>) -> Seq<(String, P)>
    decreases es.len(),
{
    if es.len() == 0 {
        seq![]
    } else {
        (if es[0].0@ != key {
            seq![es[0]]
        } else {
            seq![]
        }) + without_root(es.drop_first(), key)
    }
}

/// No root is parked twice.
pub open spec fn distinct_roots<P>(es: Seq<(String, P)>) -> bool {
    forall|i: int, j: int| 0 <= i < j < es.len() ==> es[i].0@ != es[j].0@
}

/// The first position at or after `i` whose panel has no unsaved changes.
pub open spec fn first_clean(clean: Seq<bool>, i: int) -> Option<int>
    decreases clean.len() - i,
{
    if i < 0 || i >= clean.len() {
        None
    } else if clean[i] {
        Some(i)
    } else {
        first_clean(clean, i + 1)
    }
}

/// The first position of root `key` at or after `i`.
pub open spec fn root_position<P>(es: Seq<(String, P)>, key: Seq<char>, i: int) -> Option<int>
    decreases es.len() - i,
{
    if i < 0 || i >= es.len() {
        None
    } else if es[i].0@ == key {
        Some(i)
    } else {
        root_position(es, key, i + 1)
    }
}

proof fn lemma_without_root_absent<P>(es: Seq<(String, P)>, key: Seq<char>)
    ensures
        forall|i: int| 0 <= i < without_root(es, key).len() ==> without_root(es, key)[i].0@ != key,
        without_root(es, key).len() <= es.len(),
    decreases es.len(),
{
    if es.len() > 0 {
        lemma_without_root_absent(es.drop_first(), key);
    }
}

proof fn lemma_without_root_distinct<P>(es: Seq<(String, P)>, key: Seq<char>)
    requires
        distinct_roots(es),
    ensures
        distinct_roots(without_root(es, key)),
        forall|i: int|
            0 <= i < without_root(es, key).len() ==> exists|j: int|
                0 <= j < es.len() && es[j] == #[trigger] without_root(es, key)[i],
    decreases es.len(),
{
    if es.len() > 0 {
        let rest = es.drop_first();
        assert(distinct_roots(rest)) by {
            assert forall|i: int, j: int| 0 <= i < j < rest.len() implies rest[i].0@ != rest[j].0@ by {
                assert(rest[i] == es[i + 1] && rest[j] == es[j + 1]);
            }
        }
        lemma_without_root_distinct(rest, key);
        let w = without_root(es, key);
        let wr = without_root(rest, key);
        assert forall|i: int| 0 <= i < w.len() implies exists|j: int|
            0 <= j < es.len() && es[j] == #[trigger] w[i] by {
            if es[0].0@ != key {
                if i == 0 {
                    assert(es[0] == w[0]);
                } else {
                    assert(w[i] == wr[i - 1]);
                    let j = choose|j: int| 0 <= j < rest.len() && rest[j] == wr[i - 1];
                    assert(es[j + 1] == w[i]);
                }
            } else {
                assert(w[i] == wr[i]);
                let j = choose|j: int| 0 <= j < rest.len() && rest[j] == wr[i];
                assert(es[j + 1] == w[i]);
            }
        }
        assert forall|a: int, b: int| 0 <= a < b < w.len() implies w[a].0@ != w[b].0@ by {
            if es[0].0@ != key {
                if a == 0 {
                    assert(w[b] == wr[b - 1]);
                    let j = choose|j: int| 0 <= j < rest.len() && rest[j] == wr[b - 1];
                    assert(es[j + 1] == w[b]);
                    assert(es[0] == w[0]);
                } else {
                    assert(w[a] == wr[a - 1] && w[b] == wr[b - 1]);
                }
            } else {
                assert(w[a] == wr[a] && w[b] == wr[b]);
            }
        }
    }
}

/// Park `panel` under root `key`: an older entry for the root is dropped
/// and the panel goes last, as the most recently used.
pub fn park<P>(cache: &mut Vec<(String, P)>, key: String, panel: P)
    requires
        distinct_roots(old(cache)@),
    ensures
        final(cache)@ == without_root(old(cache)@, key@).push((key, panel)),
        distinct_roots(final(cache)@),
{
    let ghost orig = cache@;
    let ghost k = key@;
    let mut kept: Vec<(String, P)> = Vec::new();
    while cache.len() > 0
        invariant
            kept@ + without_root(cache@, k) == without_root(orig, k),
            k == key@,
        decreases cache@.len(),
    {
        let ghost before = cache@;
        let e = cache.remove(0);
        proof {
            assert(before.drop_first() =~= cache@);
            assert(before[0] == e);
        }
        if !text::str_eq(e.0.as_str(), key.as_str()) {
            let ghost k0 = kept@;
            kept.push(e);
            proof {
                assert(kept@ + without_root(cache@, k) =~= k0 + (seq![e] + without_root(cache@, k)));
            }
        } else {
            proof {
                assert(seq![] + without_root(cache@, k) =~= without_root(cache@, k));
            }
        }
    }
    proof {
        assert(kept@ =~= without_root(orig, k));
        lemma_without_root_absent(orig, k);
        lemma_without_root_distinct(orig, k);
    }
    kept.push((key, panel));
    *cache = kept;
}

/// Past the limit, drop the oldest parked panel without unsaved changes
/// (`clean`, by position); panels with unsaved changes are never dropped.
pub fn evict_one<P>(cache: &mut Vec<(String, P)>, clean: &[bool])
    requires
        clean@.len() == old(cache)@.len(),
    ensures
        if old(cache)@.len() > FILES_CACHE_ROOTS && first_clean(clean@, 0) is Some {
            final(cache)@ == old(cache)@.remove(first_clean(clean@, 0)->0)
        } else {
            final(cache)@ == old(cache)@
        },
{
    if cache.len() <= FILES_CACHE_ROOTS {
        return;
    }
    let mut i: usize = 0;
    while i < clean.len()
        invariant
            i <= clean@.len(),
            clean@.len() == cache@.len(),
            cache@ == old(cache)@,
            old(cache)@.len() > FILES_CACHE_ROOTS,
            first_clean(clean@, 0) == first_clean(clean@, i as int),
        decreases clean@.len() - i,
    {
        if clean[i] {
            cache.remove(i);
            return;
        }
        i += 1;
    }
}

/// Take the panel parked for root `key`, if any, out of the cache.
pub fn revive<P>(cache: &mut Vec<(String, P)>, key: &str) -> (r: Option<P>)
    ensures
        match root_position(old(cache)@, key@, 0) {
            Some(j) => r == Some(old(cache)@[j].1) && final(cache)@ == old(cache)@.remove(j),
            None => r is None && final(cache)@ == old(cache)@,
        },
{
    let mut i: usize = 0;
    while i < cache.len()
        invariant
            i <= cache@.len(),
            cache@ == old(cache)@,
            root_position(cache@, key@, 0) == root_position(cache@, key@, i as int),
        decreases cache@.len() - i,
    {
        if text::str_eq(cache[i].0.as_str(), key) {
            let (_, panel) = cache.remove(i);
            return Some(panel);
        }
        i += 1;
    }
    None
}

proof fn lemma_position_last<P>(es: Seq<(String, P)>, key: Seq<char>, i: int)
    requires
        0 <= i < es.len(),
        es.last().0@ == key,
        forall|j: int| 0 <= j < es.len() - 1 ==> es[j].0@ != key,
    ensures
        root_position(es, key, i) == Some(es.len() - 1),
    decreases es.len() - i,
{
    if i < es.len() - 1 {
        lemma_position_last(es, key, i + 1);
    }
}

/// Parking a panel and then coming back to its root revives that very
/// panel, and leaves the other parked roots as they were.
pub proof fn law_park_then_revive<P>(cache: Seq<(String, P)>, key: String, panel: P)
    requires
        distinct_roots(cache),
    ensures
        ({
            let parked = without_root(cache, key@).push((key, panel));
            &&& root_position(parked, key@, 0) == Some(parked.len() - 1)
            &&& parked[parked.len() - 1].1 == panel
            &&& parked.remove(parked.len() - 1) == without_root(cache, key@)
        }),
{
    let w = without_root(cache, key@);
    let parked = w.push((key, panel));
    lemma_without_root_absent(cache, key@);
    assert forall|j: int| 0 <= j < parked.len() - 1 implies parked[j].0@ != key@ by {
        assert(parked[j] == w[j]);
    }
    lemma_position_last(parked, key@, 0);
    assert(parked.remove(parked.len() - 1) =~= w);
}

} // verus!
