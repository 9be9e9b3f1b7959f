//! Smoothing of streamed assistant text: the displayed text trails the
//! streamed text and catches up a few characters per tick; when the
//! stream rewrites what was shown, the display jumps to it.

use vstd::prelude::*;

use crate::text;

verus! {

/// Characters revealed per smoothing tick.
pub const SMOOTHING_STEP: usize = 18;

pub open spec fn is_prefix(a: Seq<char>, b: Seq<char>) -> bool {
    a.len() <= b.len() && b.take(a.len() as int) == a
}

fn starts_with(target: &Vec<char>, shown: &Vec<char>) -> (b: bool)
    ensures
        b == is_prefix(shown@, target@),
{
    if shown.len() > target.len() {
        return false;
    }
    let mut i: usize = 0;
    while i < shown.len()
        invariant
            shown@.len() <= target@.len(),
            i <= shown@.len(),
            forall|j: int| 0 <= j < i ==> target@[j] == shown@[j],
        decreases shown@.len() - i,
    {
        if target[i] != shown[i] {
            assert(target@.take(shown@.len() as int)[i as int] != shown@[i as int]);
            return false;
        }
        i += 1;
    }
    assert(target@.take(shown@.len() as int) =~= shown@);
    true
}

/// The displayed text of a message when the projection changes: a
/// settled message shows its text; a streaming one keeps what was shown
/// (or starts from the full text) unless the stream no longer extends it.
pub open spec fn settled_text(shown: Option<Seq<char>>, target: Seq<char>, streaming: bool) -> Seq<
    char,
> {
    if !streaming {
        target
    } else {
        match shown {
            Some(s) => if is_prefix(s, target) {
                s
            } else {
                target
            },
            None => target,
        }
    }
}

/// The displayed text after a projection update, and whether it still
/// lags the stream.
pub fn settle_displayed(shown: Option<&str>, target: &str, streaming: bool) -> (r: (String, bool))
    ensures
        r.0@ == settled_text(
            match shown {
                Some(s) => Some(s@),
                None => None,
            },
            target@,
            streaming,
        ),
        r.1 == (r.0@.len() < target@.len()),
        is_prefix(r.0@, target@),
{
    let t = text::chars_of(target);
    if !streaming {
        assert(t@.take(t@.len() as int) =~= t@);
        return (text::string_from(&t), false);
    }
    match shown {
        Some(s) => {
            let v = text::chars_of(s);
            if starts_with(&t, &v) {
                let lag = v.len() < t.len();
                (text::string_from(&v), lag)
            } else {
                assert(t@.take(t@.len() as int) =~= t@);
                (text::string_from(&t), false)
            }
        },
        None => {
            assert(t@.take(t@.len() as int) =~= t@);
            (text::string_from(&t), false)
        },
    }
}

/// One smoothing tick for a streaming message: reveal up to
/// [`SMOOTHING_STEP`] more characters, or jump to the stream when it no
/// longer extends what is shown.
pub open spec fn tick_text(shown: Seq<char>, target: Seq<char>) -> Seq<char> {
    if !is_prefix(shown, target) {
        target
    } else if shown.len() + SMOOTHING_STEP <= target.len() {
        target.take(shown.len() + SMOOTHING_STEP)
    } else {
        target
    }
}

/// One tick: the new displayed text, whether it changed, and whether it
/// still lags.
pub fn smoothing_tick(shown: &str, target: &str) -> (r: (String, bool, bool))
    ensures
        r.0@ == tick_text(shown@, target@),
        r.1 == (r.0@ != shown@),
        r.2 == (r.0@.len() < target@.len()),
{
    let t = text::chars_of(target);
    let v = text::chars_of(shown);
    if !starts_with(&t, &v) {
        assert(t@.take(t@.len() as int) =~= t@);
        return (text::string_from(&t), true, false);
    }
    if v.len() == t.len() {
        assert(v@ =~= t@);
        return (text::string_from(&v), false, false);
    }
    let end = if t.len() - v.len() >= SMOOTHING_STEP {
        v.len() + SMOOTHING_STEP
    } else {
        t.len()
    };
    let s = text::string_of(&t, 0, end);
    assert(t@.subrange(0, end as int) =~= t@.take(end as int));
    assert(t@.take(t@.len() as int) =~= t@);
    (s, true, end < t.len())
}

/// The shown text always trails the stream, and every tick that still
/// lags reveals exactly [`SMOOTHING_STEP`] characters; a tick that does
/// not reveal that many catches up completely.
pub proof fn law_smoothing_trails_and_catches_up(shown: Seq<char>, target: Seq<char>)
    ensures
        is_prefix(tick_text(shown, target), target),
        is_prefix(shown, target) && tick_text(shown, target).len() < target.len()
            ==> tick_text(shown, target).len() == shown.len() + SMOOTHING_STEP,
        is_prefix(shown, target) && shown.len() < target.len() ==> tick_text(shown, target).len()
            > shown.len(),
{
    assert(target.take(target.len() as int) =~= target);
}

} // verus!
