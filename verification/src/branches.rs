//! The branch toolbar above the composer: the paged ref list of the
//! branch picker (which cursors are requested, which answers still
//! count), picking a row, and the optimistic trigger label of a checkout.

use vstd::prelude::*;

use crate::text;

verus! {

/// The picker's paged ref list for one working directory. `P` is one page
/// of refs as the server returns it.
pub struct BranchPages<P> {
    /// Requested page cursors, in order (`None` is the first page).
    pub cursors: Vec<Option<i64>>,
    /// The answers, parallel to `cursors`.
    pub pages: Vec<Option<P>>,
    pub has_loaded: bool,
    pub initial_pending: bool,
    pub fetching_next: bool,
    /// Bumped whenever earlier requests stop counting.
    pub fetch_seq: u64,
    pub query: String,
}

impl<P> BranchPages<P> {
    /// Cursors and pages stay parallel.
    pub open spec fn wf(&self) -> bool {
        self.cursors@.len() == self.pages@.len()
    }

    /// The empty list of a fresh working directory.
    pub fn new() -> (r: Self)
        ensures
            r.wf(),
            r.cursors@.len() == 0,
            !r.has_loaded && !r.initial_pending && !r.fetching_next,
            r.fetch_seq == 0,
            r.query@.len() == 0,
    {
        BranchPages {
            cursors: Vec::new(),
            pages: Vec::new(),
            has_loaded: false,
            initial_pending: false,
            fetching_next: false,
            fetch_seq: 0,
            query: String::new(),
        }
    }

    /// Forget everything (the working directory changed); requests in
    /// flight stop counting.
    pub fn reset(&mut self)
        requires
            old(self).fetch_seq < u64::MAX,
        ensures
            final(self).wf(),
            final(self).fetch_seq == old(self).fetch_seq + 1,
            final(self).cursors@.len() == 0,
            final(self).query@.len() == 0,
            !final(self).has_loaded && !final(self).initial_pending && !final(self).fetching_next,
    {
        self.fetch_seq = self.fetch_seq + 1;
        self.query = String::new();
        self.cursors = Vec::new();
        self.pages = Vec::new();
        self.has_loaded = false;
        self.initial_pending = false;
        self.fetching_next = false;
    }

    /// Start over from the first page: the one request to issue is page 0
    /// with no cursor. The first load shows as pending until it lands.
    pub fn refresh(&mut self) -> (r: u64)
        requires
            old(self).fetch_seq < u64::MAX,
        ensures
            final(self).wf(),
            r == final(self).fetch_seq,
            final(self).fetch_seq == old(self).fetch_seq + 1,
            final(self).cursors@ == seq![None::<i64>],
            final(self).pages@.len() == 1 && final(self).pages@[0] is None,
            !final(self).fetching_next,
            final(self).initial_pending == !old(self).has_loaded,
            final(self).has_loaded == old(self).has_loaded,
            final(self).query == old(self).query,
    {
        self.fetch_seq = self.fetch_seq + 1;
        let mut cursors = Vec::new();
        cursors.push(None);
        let mut pages = Vec::new();
        pages.push(None);
        self.cursors = cursors;
        self.pages = pages;
        self.fetching_next = false;
        self.initial_pending = !self.has_loaded;
        self.fetch_seq
    }

    /// Ask for the next page at `next_cursor` (the merged list's cursor):
    /// not while a next page or a branch action is pending, not without a
    /// cursor, and never twice for one cursor. Returns the new page's
    /// index.
    #[verifier::loop_isolation(false)]
    pub fn load_next(&mut self, next_cursor: Option<i64>, action_pending: bool) -> (r: Option<usize>)
        requires
            old(self).wf(),
        ensures
            final(self).wf(),
            final(self).fetch_seq == old(self).fetch_seq,
            final(self).query == old(self).query,
            match r {
                Some(i) => {
                    &&& !old(self).fetching_next && !action_pending
                    &&& next_cursor is Some
                    &&& !old(self).cursors@.contains(next_cursor)
                    &&& final(self).cursors@ == old(self).cursors@.push(next_cursor)
                    &&& final(self).pages@.len() == old(self).pages@.len() + 1
                    &&& final(self).pages@.last() is None
                    &&& final(self).pages@.take(old(self).pages@.len() as int) == old(self).pages@
                    &&& final(self).fetching_next
                    &&& i == old(self).cursors@.len()
                },
                None => {
                    &&& (old(self).fetching_next || action_pending || next_cursor is None
                        || old(self).cursors@.contains(next_cursor))
                    &&& final(self).cursors@ == old(self).cursors@
                    &&& final(self).pages@ == old(self).pages@
                    &&& final(self).fetching_next == old(self).fetching_next
                },
            },
    {
        if self.fetching_next || action_pending {
            return None;
        }
        if next_cursor.is_none() {
            return None;
        }
        let mut i: usize = 0;
        while i < self.cursors.len()
            invariant
                i <= self.cursors@.len(),
                forall|j: int| 0 <= j < i ==> self.cursors@[j] != next_cursor,
            decreases self.cursors@.len() - i,
        {
            if self.cursors[i] == next_cursor {
                assert(self.cursors@.contains(next_cursor)) by {
                    assert(self.cursors@[i as int] == next_cursor);
                }
                return None;
            }
            i += 1;
        }
        self.fetching_next = true;
        self.cursors.push(next_cursor);
        let ghost before = self.pages@;
        self.pages.push(None);
        assert(self.pages@.take(before.len() as int) =~= before);
        Some(self.cursors.len() - 1)
    }

    /// A page request answered. Answers of an earlier generation are
    /// dropped; otherwise the request's pending flag clears and a page that
    /// arrived is stored. Returns whether the answer counted.
    pub fn apply_page(&mut self, seq: u64, index: usize, page: Option<P>) -> (counted: bool)
        requires
            old(self).wf(),
        ensures
            final(self).wf(),
            counted == (seq == old(self).fetch_seq),
            final(self).fetch_seq == old(self).fetch_seq,
            final(self).cursors@ == old(self).cursors@,
            final(self).query == old(self).query,
            !counted ==> *final(self) == *old(self),
            counted ==> {
                &&& final(self).initial_pending == (old(self).initial_pending && index != 0)
                &&& final(self).fetching_next == (old(self).fetching_next && index == 0)
                &&& final(self).has_loaded == (old(self).has_loaded || page is Some)
                &&& final(self).pages@ == if (page is Some && index < old(self).pages@.len()) {
                    old(self).pages@.update(index as int, page)
                } else {
                    old(self).pages@
                }
            },
    {
        if seq != self.fetch_seq {
            return false;
        }
        if index == 0 {
            self.initial_pending = false;
        } else {
            self.fetching_next = false;
        }
        if page.is_some() {
            self.has_loaded = true;
            if index < self.pages.len() {
                self.pages.set(index, page);
            }
        }
        true
    }

    /// The search text changed; returns whether it really did (and the
    /// pages must be fetched again while the picker is open).
    pub fn set_query(&mut self, query: String) -> (changed: bool)
        ensures
            changed == (query@ != old(self).query@),
            final(self).query@ == query@,
            final(self).cursors == old(self).cursors,
            final(self).pages == old(self).pages,
            final(self).fetch_seq == old(self).fetch_seq,
    {
        if text::str_eq(query.as_str(), self.query.as_str()) {
            return false;
        }
        self.query = query;
        true
    }

    /// The picker's trigger is disabled while a branch action or the first
    /// load is pending.
    pub fn trigger_disabled(&self, action_pending: bool) -> (b: bool)
        ensures
            b == (action_pending || self.initial_pending),
    {
        action_pending || self.initial_pending
    }
}

/// The value of the picker's "create" row for ref `name`.
pub open spec fn create_value(name: Seq<char>) -> Seq<char> {
    "__create_new_branch__:"@ + name
}

pub fn create_row_value(name: &str) -> (r: String)
    ensures
        r@ == create_value(name@),
{
    let mut s = String::from_str("__create_new_branch__:");
    text::push_str(&mut s, name);
    s
}

/// A picked row: create a ref, or switch to an existing one.
pub enum BranchPick {
    Create(String),
    Existing(String),
}

/// Read a picked row's value.
pub fn decode_pick(value: &str) -> (r: BranchPick)
    ensures
        match r {
            BranchPick::Create(name) => value@ == create_value(name@),
            BranchPick::Existing(name) => name@ == value@ && !exists|n: Seq<char>|
                value@ == create_value(n),
        },
{
    let v = text::chars_of(value);
    let prefix = text::chars_of("__create_new_branch__:");
    proof {
        reveal_strlit("__create_new_branch__:");
    }
    let n = prefix.len();
    if v.len() >= n {
        let head = text::string_of(&v, 0, n);
        if text::str_eq(head.as_str(), "__create_new_branch__:") {
            let name = text::string_of(&v, n, v.len());
            assert(v@ =~= v@.subrange(0, n as int) + v@.subrange(n as int, v@.len() as int));
            return BranchPick::Create(name);
        }
        proof {
            assert forall|nm: Seq<char>| value@ != create_value(nm) by {
                if value@ == create_value(nm) {
                    assert(v@.subrange(0, n as int) =~= prefix@);
                }
            }
        }
    } else {
        proof {
            assert forall|nm: Seq<char>| value@ != create_value(nm) by {
                if value@ == create_value(nm) {
                    assert(value@.len() >= prefix@.len());
                }
            }
        }
    }
    BranchPick::Existing(text::string_from(&v))
}

/// The checkout overlay on the trigger label.
pub struct BranchAction {
    pub optimistic: Option<String>,
    pub pending: bool,
}

impl BranchAction {
    /// Begin a switch or create of `name`: refused while one is pending;
    /// otherwise the label shows `name` at once. Returns the overlay to
    /// restore on failure.
    pub fn begin(&mut self, name: String) -> (r: Option<Option<String>>)
        ensures
            match r {
                Some(previous) => !old(self).pending && final(self).pending && previous
                    == old(self).optimistic && final(self).optimistic == Some(name),
                None => old(self).pending && *final(self) == *old(self),
            },
    {
        if self.pending {
            return None;
        }
        let previous = self.optimistic.take();
        self.optimistic = Some(name);
        self.pending = true;
        Some(previous)
    }

    /// The action settled: on success the label shows the ref git reports;
    /// on failure the earlier overlay comes back.
    pub fn finish(&mut self, outcome: Result<String, ()>, previous: Option<String>)
        ensures
            !final(self).pending,
            match outcome {
                Ok(name) => final(self).optimistic == Some(name),
                Err(_) => final(self).optimistic == previous,
            },
    {
        self.pending = false;
        self.optimistic = match outcome {
            Ok(name) => Some(name),
            Err(_) => previous,
        };
    }

    /// Git now reports `current`: an overlay equal to it has served its
    /// purpose and is dropped.
    pub fn observe_current(&mut self, current: Option<&str>)
        ensures
            final(self).pending == old(self).pending,
            final(self).optimistic == if (old(self).optimistic matches Some(o) && current matches Some(c)
                && o@ == c@) {
                None
            } else {
                old(self).optimistic
            },
    {
        let same = match (&self.optimistic, current) {
            (Some(o), Some(c)) => text::str_eq(o.as_str(), c),
            _ => false,
        };
        if same {
            self.optimistic = None;
        }
    }
}

/// Moving a thread to another worktree stops its running session first.
pub fn stop_session_first(has_session: bool, next_worktree: Option<&str>, current_worktree: Option<&str>) -> (b:
    bool)
    ensures
        b == (has_session && !(match (next_worktree, current_worktree) {
            (Some(a), Some(c)) => a@ == c@,
            (None, None) => true,
            _ => false,
        })),
{
    let same = match (next_worktree, current_worktree) {
        (Some(a), Some(c)) => text::str_eq(a, c),
        (None, None) => true,
        _ => false,
    };
    has_session && !same
}

} // verus!
