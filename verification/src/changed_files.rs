//! The changed-files card under assistant messages: whether it is
//! expanded, which folders of its tree are open (a toggle-all switch plus
//! per-folder overrides that a changed tree discards), its labels, and
//! which checkpoint a message's card shows.

use vstd::prelude::*;

use crate::text;

verus! {

/// Per-card local state.
pub struct CardLocal {
    /// The once-only auto-expand decision, made when the card first shows.
    pub auto_expanded: bool,
    /// The header's expand/collapse-all-folders toggle.
    pub all_dirs_expanded: bool,
    /// The tree state the overrides were made in.
    pub overrides_key: String,
    /// Per-folder overrides, ordered by folder path (each path once).
    pub dir_overrides: Vec<(String, bool)>,
}

/// The overrides are in increasing path order.
pub open spec fn sorted_paths(ovs: Seq<(String, bool)>) -> bool {
    forall|i: int, j: int| 0 <= i < j < ovs.len() ==> text::seq_lt(ovs[i].0@, ovs[j].0@)
}

proof fn lemma_sorted_distinct(ovs: Seq<(String, bool)>)
    requires
        sorted_paths(ovs),
    ensures
        forall|i: int, j: int| 0 <= i < j < ovs.len() ==> ovs[i].0@ != ovs[j].0@,
{
    assert forall|i: int, j: int| 0 <= i < j < ovs.len() implies ovs[i].0@ != ovs[j].0@ by {
        text::lemma_seq_lt_irreflexive(ovs[i].0@);
    }
}

/// The override of `dir`, if any.
pub open spec fn override_of(ovs: Seq<(String, bool)>, dir: Seq<char>) -> Option<bool>
    decreases ovs.len(),
{
    if ovs.len() == 0 {
        None
    } else if ovs.last().0@ == dir {
        Some(ovs.last().1)
    } else {
        override_of(ovs.drop_last(), dir)
    }
}

impl CardLocal {
    pub open spec fn wf(&self) -> bool {
        sorted_paths(self.dir_overrides@)
    }

    /// Whether folder `dir` is open in tree state `state_key`: its override
    /// when the overrides belong to that state, else the toggle-all switch.
    pub open spec fn dir_open(&self, state_key: Seq<char>, dir: Seq<char>) -> bool {
        if self.overrides_key@ == state_key {
            match override_of(self.dir_overrides@, dir) {
                Some(b) => b,
                None => self.all_dirs_expanded,
            }
        } else {
            self.all_dirs_expanded
        }
    }

    /// The card as it first shows: folders open exactly when the card
    /// opened itself.
    pub fn new(auto_expanded: bool) -> (r: Self)
        ensures
            r.wf(),
            r.auto_expanded == auto_expanded,
            r.all_dirs_expanded == auto_expanded,
            r.dir_overrides@.len() == 0,
    {
        CardLocal {
            auto_expanded,
            all_dirs_expanded: auto_expanded,
            overrides_key: String::new(),
            dir_overrides: Vec::new(),
        }
    }

    /// Flip the toggle-all switch.
    pub fn toggle_all_dirs(&mut self)
        ensures
            final(self).all_dirs_expanded == !old(self).all_dirs_expanded,
            final(self).auto_expanded == old(self).auto_expanded,
            final(self).overrides_key == old(self).overrides_key,
            final(self).dir_overrides == old(self).dir_overrides,
    {
        self.all_dirs_expanded = !self.all_dirs_expanded;
    }

    /// The override of `dir`, if any.
    pub fn get_override(&self, dir: &str) -> (r: Option<bool>)
        ensures
            r == override_of(self.dir_overrides@, dir@),
    {
        let mut i: usize = self.dir_overrides.len();
        assert(self.dir_overrides@.take(i as int) =~= self.dir_overrides@);
        while i > 0
            invariant
                i <= self.dir_overrides@.len(),
                override_of(self.dir_overrides@, dir@) == override_of(
                    self.dir_overrides@.take(i as int),
                    dir@,
                ),
            decreases i,
        {
            let ghost pre = self.dir_overrides@.take(i as int);
            assert(pre.drop_last() =~= self.dir_overrides@.take(i - 1));
            if text::str_eq(self.dir_overrides[i - 1].0.as_str(), dir) {
                return Some(self.dir_overrides[i - 1].1);
            }
            i -= 1;
        }
        assert(self.dir_overrides@.take(0) =~= Seq::<(String, bool)>::empty());
        None
    }

    /// Open or close folder `dir` in tree state `state_key`; overrides of
    /// another tree state are discarded first.
    pub fn toggle_dir(&mut self, dir: String, state_key: &str)
        requires
            old(self).wf(),
        ensures
            final(self).wf(),
            final(self).overrides_key@ == state_key@,
            final(self).all_dirs_expanded == old(self).all_dirs_expanded,
            final(self).auto_expanded == old(self).auto_expanded,
            final(self).dir_open(state_key@, dir@) == !old(self).dir_open(state_key@, dir@),
            forall|d: Seq<char>|
                d != dir@ ==> final(self).dir_open(state_key@, d) == old(self).dir_open(
                    state_key@,
                    d,
                ),
    {
        let ghost before = *self;
        if !text::str_eq(self.overrides_key.as_str(), state_key) {
            self.dir_overrides = Vec::new();
            self.overrides_key = text::string_from(&text::chars_of(state_key));
            proof {
                assert forall|d: Seq<char>| override_of(self.dir_overrides@, d) is None by {}
            }
        }
        let effective = match self.get_override(dir.as_str()) {
            Some(b) => b,
            None => self.all_dirs_expanded,
        };
        assert(effective == before.dir_open(state_key@, dir@));
        let ghost mid = self.dir_overrides@;
        set_override(&mut self.dir_overrides, dir, !effective);
        proof {
            assert forall|d: Seq<char>| d != dir@ implies self.dir_open(state_key@, d) == before.dir_open(
                state_key@,
                d,
            ) by {
                assert(override_of(self.dir_overrides@, d) == override_of(mid, d));
            }
        }
    }
}

proof fn lemma_override_absent(ovs: Seq<(String, bool)>, dir: Seq<char>)
    requires
        forall|i: int| 0 <= i < ovs.len() ==> ovs[i].0@ != dir,
    ensures
        override_of(ovs, dir) is None,
    decreases ovs.len(),
{
    if ovs.len() > 0 {
        lemma_override_absent(ovs.drop_last(), dir);
    }
}

proof fn lemma_override_at(ovs: Seq<(String, bool)>, k: int)
    requires
        0 <= k < ovs.len(),
        forall|i: int, j: int| 0 <= i < j < ovs.len() ==> ovs[i].0@ != ovs[j].0@,
    ensures
        override_of(ovs, ovs[k].0@) == Some(ovs[k].1),
    decreases ovs.len(),
{
    if k < ovs.len() - 1 {
        lemma_override_at(ovs.drop_last(), k);
    }
}

proof fn lemma_override_update(ovs: Seq<(String, bool)>, k: int, v: (String, bool), d: Seq<char>)
    requires
        0 <= k < ovs.len(),
        ovs[k].0@ == v.0@,
        d != v.0@,
    ensures
        override_of(ovs.update(k, v), d) == override_of(ovs, d),
    decreases ovs.len(),
{
    if k < ovs.len() - 1 {
        assert(ovs.update(k, v).drop_last() =~= ovs.drop_last().update(k, v));
        lemma_override_update(ovs.drop_last(), k, v, d);
    } else {
        assert(ovs.update(k, v).drop_last() =~= ovs.drop_last());
    }
}

/// Set `dir`'s override to `value`, replacing an existing one; a new
/// folder goes to its place in path order.
#[verifier::loop_isolation(false)]
fn set_override(ovs: &mut Vec<(String, bool)>, dir: String, value: bool)
    requires
        sorted_paths(old(ovs)@),
    ensures
        sorted_paths(final(ovs)@),
        override_of(final(ovs)@, dir@) == Some(value),
        forall|d: Seq<char>| d != dir@ ==> override_of(final(ovs)@, d) == override_of(old(ovs)@, d),
{
    proof {
        lemma_sorted_distinct(ovs@);
    }
    let mut i: usize = 0;
    while i < ovs.len() && text::str_less(ovs[i].0.as_str(), dir.as_str())
        invariant
            i <= ovs@.len(),
            ovs@ == old(ovs)@,
            forall|j: int| 0 <= j < i ==> text::seq_lt(#[trigger] ovs@[j].0@, dir@),
        decreases ovs@.len() - i,
    {
        i += 1;
    }
    let ghost before = ovs@;
    let ghost dv = dir@;
    proof {
        assert forall|j: int| 0 <= j < i implies #[trigger] before[j].0@ != dv by {
            text::lemma_seq_lt_irreflexive(dv);
        }
    }
    if i < ovs.len() && text::str_eq(ovs[i].0.as_str(), dir.as_str()) {
        ovs.set(i, (dir, value));
        proof {
            assert(ovs@ == before.update(i as int, ovs@[i as int]));
            assert forall|k: int| 0 <= k < ovs@.len() implies ovs@[k].0@ == before[k].0@ by {}
            lemma_override_at(ovs@, i as int);
            assert forall|d: Seq<char>| d != dv implies override_of(ovs@, d) == override_of(
                before,
                d,
            ) by {
                lemma_override_update(before, i as int, ovs@[i as int], d);
            }
        }
        return;
    }
    proof {
        // every later path is greater than `dir`
        assert forall|j: int| i <= j < before.len() implies text::seq_lt(dv, #[trigger] before[j].0@) by {
            text::lemma_seq_lt_total(dv, before[i as int].0@);
            if j > i {
                text::lemma_seq_lt_transitive(dv, before[i as int].0@, before[j].0@);
            }
        }
        assert forall|j: int| 0 <= j < before.len() implies #[trigger] before[j].0@ != dv by {
            if j >= i {
                text::lemma_seq_lt_irreflexive(dv);
            }
        }
        lemma_override_absent(before, dv);
    }
    ovs.insert(i, (dir, value));
    proof {
        let e = ovs@[i as int];
        assert(ovs@ == before.insert(i as int, e));
        assert forall|a: int, b: int| 0 <= a < b < ovs@.len() implies text::seq_lt(
            ovs@[a].0@,
            ovs@[b].0@,
        ) by {
            if b < i {
                assert(ovs@[a] == before[a] && ovs@[b] == before[b]);
            } else if b == i {
                assert(ovs@[a] == before[a]);
            } else if a < i {
                assert(ovs@[a] == before[a] && ovs@[b] == before[b - 1]);
                text::lemma_seq_lt_transitive(before[a].0@, dv, before[b - 1].0@);
            } else if a == i {
                assert(ovs@[b] == before[b - 1]);
            } else {
                assert(ovs@[a] == before[a - 1] && ovs@[b] == before[b - 1]);
            }
        }
        lemma_sorted_distinct(ovs@);
        lemma_override_at(ovs@, i as int);
        assert forall|d: Seq<char>| d != dv implies override_of(ovs@, d) == override_of(before, d) by {
            lemma_override_insert(before, i as int, e, d);
        }
    }
}

proof fn lemma_override_insert(ovs: Seq<(String, bool)>, k: int, v: (String, bool), d: Seq<char>)
    requires
        0 <= k <= ovs.len(),
        d != v.0@,
    ensures
        override_of(ovs.insert(k, v), d) == override_of(ovs, d),
    decreases ovs.len(),
{
    if k < ovs.len() {
        assert(ovs.insert(k, v).drop_last() =~= ovs.drop_last().insert(k, v));
        assert(ovs.insert(k, v).last() == ovs.last());
        lemma_override_insert(ovs.drop_last(), k, v, d);
    } else {
        assert(ovs.insert(k, v).drop_last() =~= ovs);
    }
}

/// Whether the card is expanded: the persisted choice, else open on the
/// latest turn when the card opened itself.
pub fn effective_expanded(persisted: Option<bool>, is_latest_turn: bool, local: Option<&CardLocal>) -> (b:
    bool)
    ensures
        b == match persisted {
            Some(p) => p,
            None => is_latest_turn && match local {
                Some(l) => l.auto_expanded,
                None => false,
            },
        },
{
    match persisted {
        Some(p) => p,
        None => is_latest_turn && match local {
            Some(l) => l.auto_expanded,
            None => false,
        },
    }
}

/// `n` with a singular or plural noun: `"1 <one>"`, `"<n> <many>"`.
pub open spec fn counted(n: nat, one: Seq<char>, many: Seq<char>) -> Seq<char> {
    if n == 1 {
        "1 "@ + one
    } else {
        text::decimal(n) + " "@ + many
    }
}

/// The card header's label.
pub fn changed_files_label(count: usize) -> (r: String)
    ensures
        r@ == counted(count as nat, "changed file"@, "changed files"@),
{
    counted_label(count, "changed file", "changed files")
}

/// A scope's file count in the collapsed preview.
pub fn scope_files_label(count: usize) -> (r: String)
    ensures
        r@ == counted(count as nat, "file"@, "files"@),
{
    counted_label(count, "file", "files")
}

fn counted_label(count: usize, one: &str, many: &str) -> (r: String)
    ensures
        r@ == counted(count as nat, one@, many@),
{
    if count == 1 {
        let mut s = String::from_str("1 ");
        text::push_str(&mut s, one);
        proof {
            reveal_strlit("1 ");
        }
        s
    } else {
        let mut out: Vec<char> = Vec::new();
        text::push_decimal(&mut out, count as u64);
        let mut s = text::string_from(&out);
        text::push_str(&mut s, " ");
        text::push_str(&mut s, many);
        assert(out@ =~= text::decimal(count as nat));
        s
    }
}

/// A checkpoint as the card reads it.
pub struct CheckpointCard {
    pub turn_id: String,
    pub assistant_message_id: Option<String>,
}

/// The last checkpoint bound to message `id` among `cps[..n]`.
pub open spec fn card_for_message(cps: Seq<CheckpointCard>, id: Seq<char>, n: int) -> Option<int>
    decreases n,
{
    if n <= 0 || n > cps.len() {
        None
    } else if cps[n - 1].assistant_message_id matches Some(a) && a@ == id {
        Some(n - 1)
    } else {
        card_for_message(cps, id, n - 1)
    }
}

/// The checkpoint whose card an assistant message shows (later bindings
/// win).
pub fn summary_for_message(checkpoints: &[CheckpointCard], message_id: &str) -> (r: Option<usize>)
    ensures
        match r {
            Some(i) => card_for_message(checkpoints@, message_id@, checkpoints@.len() as int) == Some(
                i as int,
            ),
            None => card_for_message(checkpoints@, message_id@, checkpoints@.len() as int) is None,
        },
{
    let mut i: usize = checkpoints.len();
    while i > 0
        invariant
            i <= checkpoints@.len(),
            card_for_message(checkpoints@, message_id@, checkpoints@.len() as int)
                == card_for_message(checkpoints@, message_id@, i as int),
        decreases i,
    {
        if let Some(a) = &checkpoints[i - 1].assistant_message_id {
            if text::str_eq(a.as_str(), message_id) {
                return Some(i - 1);
            }
        }
        i -= 1;
    }
    None
}

} // verus!
