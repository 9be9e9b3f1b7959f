//! Around a send: the optimistic user rows the server has acknowledged,
//! the attachment URLs still to fetch, the skills that become inline
//! chips, and the text of an exported plan.

use vstd::prelude::*;

use crate::interaction;
use crate::providers::ServerProvider;
use crate::text;

verus! {

/// The optimistic rows of `opt[..n]` the server has not echoed yet (by
/// message id), in order.
pub open spec fn unacknowledged<M>(opt: Seq<(String, M)>, server: Seq<String>, n: int) -> Seq<
    (String, M),
>
    decreases n,
{
    if n <= 0 || n > opt.len() {
        seq![]
    } else {
        unacknowledged(opt, server, n - 1) + if text::is_member(server, opt[n - 1].0@) {
            seq![]
        } else {
            seq![opt[n - 1]]
        }
    }
}

/// Drop the optimistic rows (id, row) whose message the server now lists.
pub fn drop_acknowledged<M>(optimistic: Vec<(String, M)>, server_ids: &Vec<String>) -> (r: Vec<
    (String, M),
>)
    ensures
        r@ == unacknowledged(optimistic@, server_ids@, optimistic@.len() as int),
{
    let ghost all = optimistic@;
    let total = optimistic.len();
    let mut rest = optimistic;
    let mut out: Vec<(String, M)> = Vec::new();
    let mut taken: usize = 0;
    while rest.len() > 0
        invariant
            all.len() == total,
            taken <= total,
            rest@ == all.skip(taken as int),
            out@ == unacknowledged(all, server_ids@, taken as int),
        decreases rest@.len(),
    {
        let entry = rest.remove(0);
        proof {
            assert(all[taken as int] == entry);
        }
        let listed = match text::position_of(server_ids, entry.0.as_str()) {
            Some(_) => true,
            None => false,
        };
        if !listed {
            out.push(entry);
        }
        taken += 1;
        assert(rest@ =~= all.skip(taken as int));
    }
    out
}

/// The attachment ids among `ids[..n]` (`None` for an unknown attachment
/// kind) that have no URL and no fetch under way, in order.
pub open spec fn ids_to_fetch(ids: Seq<Option<String>>, known: Seq<String>, loading: Seq<String>, n: int) -> Seq<
    Seq<char>,
>
    decreases n,
{
    if n <= 0 || n > ids.len() {
        seq![]
    } else {
        ids_to_fetch(ids, known, loading, n - 1) + match ids[n - 1] {
            Some(id) => if !text::is_member(known, id@) && !text::is_member(loading, id@) {
                seq![id@]
            } else {
                seq![]
            },
            None => seq![],
        }
    }
}

/// The attachment URLs to request for the shown messages.
pub fn attachment_ids_to_fetch(ids: &[Option<String>], known: &Vec<String>, loading: &Vec<String>) -> (r:
    Vec<String>)
    ensures
        r@.map_values(|s: String| s@) == ids_to_fetch(ids@, known@, loading@, ids@.len() as int),
{
    let mut out: Vec<String> = Vec::new();
    let mut i: usize = 0;
    while i < ids.len()
        invariant
            i <= ids@.len(),
            out@.map_values(|s: String| s@) == ids_to_fetch(ids@, known@, loading@, i as int),
        decreases ids@.len() - i,
    {
        let ghost before = out@.map_values(|s: String| s@);
        if let Some(id) = &ids[i] {
            let fresh = match text::position_of(known, id.as_str()) {
                Some(_) => false,
                None => match text::position_of(loading, id.as_str()) {
                    Some(_) => false,
                    None => true,
                },
            };
            if fresh {
                out.push(text::string_from(&text::chars_of(id.as_str())));
                assert(out@.map_values(|s: String| s@) =~= before.push(id@));
            }
        }
        assert(out@.map_values(|s: String| s@) =~= ids_to_fetch(ids@, known@, loading@, i + 1));
        i += 1;
    }
    out
}

/// The names of a provider's enabled skills, in order.
pub open spec fn enabled_skills(p: ServerProvider, n: int) -> Seq<Seq<char>>
    decreases n,
{
    if n <= 0 || n > p.skills@.len() {
        seq![]
    } else {
        enabled_skills(p, n - 1) + if p.skills@[n - 1].enabled {
            seq![p.skills@[n - 1].name@]
        } else {
            seq![]
        }
    }
}

/// The skill names that render as chips in user messages.
pub fn enabled_skill_names(provider: Option<&ServerProvider>) -> (r: Vec<String>)
    ensures
        r@.map_values(|s: String| s@) == match provider {
            Some(p) => enabled_skills(*p, p.skills@.len() as int),
            None => seq![],
        },
{
    let mut out: Vec<String> = Vec::new();
    assert(out@.map_values(|s: String| s@) =~= Seq::<Seq<char>>::empty());
    if let Some(p) = provider {
        let mut i: usize = 0;
        while i < p.skills.len()
            invariant
                i <= p.skills@.len(),
                out@.map_values(|s: String| s@) == enabled_skills(*p, i as int),
            decreases p.skills@.len() - i,
        {
            let ghost before = out@.map_values(|s: String| s@);
            if p.skills[i].enabled {
                out.push(text::string_from(&text::chars_of(p.skills[i].name.as_str())));
                assert(out@.map_values(|s: String| s@) =~= before.push(p.skills@[i as int].name@));
            }
            assert(out@.map_values(|s: String| s@) =~= enabled_skills(*p, i + 1));
            i += 1;
        }
    }
    out
}

/// An exported plan: its markdown without trailing whitespace, ending in
/// one line break.
pub fn exported_plan_text(markdown: &str) -> (r: String)
    ensures
        r@ == text::trim_end(markdown@) + "\n"@,
{
    let v = text::chars_of(markdown);
    let end = text::skip_ws_backward(&v, 0, v.len());
    proof {
        assert(v@.subrange(0, v@.len() as int) =~= v@);
    }
    let mut s = text::string_of(&v, 0, end);
    assert(v@.subrange(0, end as int) =~= text::trim_end(v@));
    text::push_str(&mut s, "\n");
    s
}


/// The rows of `opt[..n]` other than message `id`'s, in order.
pub open spec fn rows_without<M>(opt: Seq<(String, M)>, id: Seq<char>, n: int) -> Seq<(String, M)>
    decreases n,
{
    if n <= 0 || n > opt.len() {
        seq![]
    } else {
        rows_without(opt, id, n - 1) + if opt[n - 1].0@ == id {
            seq![]
        } else {
            seq![opt[n - 1]]
        }
    }
}

fn drop_row<M>(optimistic: Vec<(String, M)>, id: &str) -> (r: Vec<(String, M)>)
    ensures
        r@ == rows_without(optimistic@, id@, optimistic@.len() as int),
{
    let ghost all = optimistic@;
    let total = optimistic.len();
    let mut rest = optimistic;
    let mut out: Vec<(String, M)> = Vec::new();
    let mut taken: usize = 0;
    while rest.len() > 0
        invariant
            all.len() == total,
            taken <= total,
            rest@ == all.skip(taken as int),
            out@ == rows_without(all, id@, taken as int),
        decreases rest@.len(),
    {
        let entry = rest.remove(0);
        proof {
            assert(all[taken as int] == entry);
        }
        if !text::str_eq(entry.0.as_str(), id) {
            out.push(entry);
        }
        taken += 1;
        assert(rest@ =~= all.skip(taken as int));
    }
    out
}

/// What a send keeps until the server answers: the typed text and the
/// staged context (`staged`: attachments, review comments, terminal
/// contexts), to put back in the composer if the send fails.
pub struct PendingSend<P> {
    pub message_id: String,
    pub raw_text: String,
    pub staged: P,
}

/// The bookkeeping around sends: the optimistic user rows (by message id),
/// the send that may still be rolled back, and whether a dispatch awaits
/// the server's acknowledgement.
pub struct SendBook<M, P> {
    pub optimistic: Vec<(String, M)>,
    pub pending: Option<PendingSend<P>>,
    pub dispatching: bool,
}

impl<M, P> SendBook<M, P> {
    pub fn new() -> (r: Self)
        ensures
            r.optimistic@.len() == 0,
            r.pending is None,
            !r.dispatching,
    {
        SendBook { optimistic: Vec::new(), pending: None, dispatching: false }
    }

    /// A send starts: its optimistic row is shown, what it carries is kept
    /// for a rollback, and the dispatch awaits acknowledgement. A send while
    /// another awaits acknowledgement does nothing.
    pub fn start(&mut self, message_id: String, row: M, raw_text: String, staged: P) -> (started:
        bool)
        ensures
            started == !old(self).dispatching,
            !started ==> *final(self) == *old(self),
            started ==> {
                &&& final(self).optimistic@.len() == old(self).optimistic@.len() + 1
                &&& final(self).optimistic@.drop_last() == old(self).optimistic@
                &&& final(self).optimistic@.last().0@ == message_id@
                &&& final(self).optimistic@.last().1 == row
                &&& final(self).pending == Some(PendingSend { message_id, raw_text, staged })
                &&& final(self).dispatching
            },
    {
        if self.dispatching {
            return false;
        }
        let id_row = text::string_from(&text::chars_of(message_id.as_str()));
        let ghost before = self.optimistic@;
        self.optimistic.push((id_row, row));
        assert(self.optimistic@.drop_last() =~= before);
        self.pending = Some(PendingSend { message_id, raw_text, staged });
        self.dispatching = true;
        true
    }

    /// The server's projection lists messages `server_ids`: their optimistic
    /// rows go. When it also acknowledged the dispatch (`acknowledged`), the
    /// composer is free again and the send can no longer be rolled back.
    pub fn reconcile(&mut self, server_ids: &Vec<String>, acknowledged: bool)
        ensures
            final(self).optimistic@ == unacknowledged(
                old(self).optimistic@,
                server_ids@,
                old(self).optimistic@.len() as int,
            ),
            final(self).dispatching == (old(self).dispatching && !acknowledged),
            final(self).pending == if old(self).dispatching && acknowledged {
                None
            } else {
                old(self).pending
            },
    {
        let mut rows: Vec<(String, M)> = Vec::new();
        std::mem::swap(&mut rows, &mut self.optimistic);
        self.optimistic = drop_acknowledged(rows, server_ids);
        if self.dispatching && acknowledged {
            self.dispatching = false;
            self.pending = None;
        }
    }

    /// The send of `message_id` failed: its optimistic row goes and the
    /// composer is free. What it carried comes back (text, then staged
    /// context) only when it is this send's and the composer is still
    /// empty with nothing staged: input typed meanwhile is never
    /// overwritten.
    pub fn rollback(
        &mut self,
        message_id: &str,
        composer_empty: bool,
        has_attachments: bool,
        has_review_comments: bool,
        has_terminal_contexts: bool,
    ) -> (restore: Option<(String, P)>)
        ensures
            !final(self).dispatching,
            final(self).pending is None,
            final(self).optimistic@ == rows_without(
                old(self).optimistic@,
                message_id@,
                old(self).optimistic@.len() as int,
            ),
            restore is Some <==> (old(self).pending matches Some(ps) && ps.message_id@ == message_id@
                && composer_empty && !has_attachments && !has_review_comments
                && !has_terminal_contexts),
            restore matches Some((t, p)) ==> (old(self).pending matches Some(ps) && t == ps.raw_text
                && p == ps.staged),
    {
        self.dispatching = false;
        let mut rows: Vec<(String, M)> = Vec::new();
        std::mem::swap(&mut rows, &mut self.optimistic);
        self.optimistic = drop_row(rows, message_id);
        let pending = self.pending.take();
        match pending {
            Some(ps) => {
                if text::str_eq(ps.message_id.as_str(), message_id)
                    && interaction::rollback_restores_composer(
                    composer_empty,
                    has_attachments,
                    has_review_comments,
                    has_terminal_contexts,
                ) {
                    Some((ps.raw_text, ps.staged))
                } else {
                    None
                }
            },
            None => None,
        }
    }
}

} // verus!
