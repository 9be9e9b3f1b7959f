//! The composer's inline triggers: `@path`, `/command`, `#thread` and
//! `$skill` tokens ending at the cursor, and the text the composer inserts
//! when a suggestion is applied.

use vstd::prelude::*;

use crate::text;

verus! {

/// Which popover an inline token opens.
#[derive(Clone, Copy, PartialEq, Eq, Debug, Structural)]
pub enum ComposerTriggerKind {
    Path,
    Slash,
    Thread,
    Skill,
}

/// `k` characters of `text` occupy exactly `cursor` bytes.
pub open spec fn is_char_prefix(text: Seq<char>, cursor: int, k: int) -> bool {
    0 <= k <= text.len() && text::byte_len(text.take(k)) == cursor
}

/// Number of leading characters up to and including the last whitespace.
pub open spec fn token_start(head: Seq<char>) -> nat
    decreases head.len(),
{
    if head.len() == 0 {
        0
    } else if text::is_ws(head.last()) {
        head.len()
    } else {
        token_start(head.drop_last())
    }
}

/// Number of leading characters up to and including the last line break.
pub open spec fn line_start(head: Seq<char>) -> nat
    decreases head.len(),
{
    if head.len() == 0 {
        0
    } else if head.last() == '\n' {
        head.len()
    } else {
        line_start(head.drop_last())
    }
}

pub open spec fn all_hashes(s: Seq<char>) -> bool {
    forall|i: int| 0 <= i < s.len() ==> s[i] == '#'
}

pub open spec fn is_forbidden_query_char(c: char) -> bool {
    c == '"' || c == '@' || c == '/' || c == '$' || c == '#'
}

pub open spec fn has_forbidden_query_char(q: Seq<char>) -> bool {
    exists|i: int| 0 <= i < q.len() && is_forbidden_query_char(q[i])
}

/// The token ending `head` (everything after the last whitespace).
pub open spec fn token_at(head: Seq<char>) -> Option<(ComposerTriggerKind, int, Seq<char>)> {
    let s = token_start(head) as int;
    let token = head.skip(s);
    if token.len() == 0 {
        None
    } else {
        let first = token[0];
        let query = token.skip(1);
        let kind = if first == '@' {
            Some(ComposerTriggerKind::Path)
        } else if first == '/' {
            Some(ComposerTriggerKind::Slash)
        } else if first == '$' {
            Some(ComposerTriggerKind::Skill)
        } else if first == '#' {
            if s == line_start(head.take(s)) && all_hashes(token) {
                None
            } else {
                Some(ComposerTriggerKind::Thread)
            }
        } else {
            None
        };
        match kind {
            None => None,
            Some(kind) => if has_forbidden_query_char(query) {
                None
            } else {
                Some((kind, text::byte_len(head.take(s)) as int, query))
            },
        }
    }
}

/// The inline token the cursor (a byte offset) sits at the end of; `None`
/// when the cursor is not on a character boundary of `text`.
pub open spec fn composer_token(text: Seq<char>, cursor: int) -> Option<
    (ComposerTriggerKind, int, Seq<char>),
> {
    if exists|k: int| is_char_prefix(text, cursor, k) {
        let k = choose|k: int| is_char_prefix(text, cursor, k);
        token_at(text.take(k))
    } else {
        None
    }
}

pub open spec fn mention_token(text: Seq<char>, cursor: int) -> Option<(int, Seq<char>)> {
    match composer_token(text, cursor) {
        Some((ComposerTriggerKind::Path, start, query)) => Some((start, query)),
        _ => None,
    }
}

pub proof fn lemma_char_prefix_unique(text: Seq<char>, cursor: int, k: int, j: int)
    requires
        is_char_prefix(text, cursor, k),
        is_char_prefix(text, cursor, j),
    ensures
        k == j,
{
    if k < j {
        text::lemma_byte_len_take_mono(text, k, j);
    } else if j < k {
        text::lemma_byte_len_take_mono(text, j, k);
    }
}

/// Character count of the prefix ending at byte `cursor`, if it is a boundary.
pub fn prefix_char_count(v: &[char], cursor: usize) -> (r: Option<usize>)
    ensures
        match r {
            Some(k) => is_char_prefix(v@, cursor as int, k as int),
            None => !exists|k: int| is_char_prefix(v@, cursor as int, k),
        },
{
    let mut pos: usize = 0;
    let mut i: usize = 0;
    while i < v.len() && pos < cursor
        invariant
            i <= v@.len(),
            pos <= cursor,
            pos == text::byte_len(v@.take(i as int)),
            forall|j: int| 0 <= j < i ==> text::byte_len(#[trigger] v@.take(j)) < cursor,
        decreases v@.len() - i,
    {
        let w = text::char_len_utf8(v[i]);
        proof {
            text::lemma_byte_len_take_step(v@, i as int);
        }
        if w > cursor - pos {
            proof {
                assert forall|k: int| !is_char_prefix(v@, cursor as int, k) by {
                    if 0 <= k <= v@.len() && k > i {
                        text::lemma_byte_len_take_mono(v@, i + 1, k);
                    }
                }
            }
            return None;
        }
        proof {
            text::lemma_byte_len_take_mono(v@, 0, i as int);
        }
        pos = pos + w;
        i += 1;
    }
    if pos == cursor {
        Some(i)
    } else {
        proof {
            assert forall|k: int| !is_char_prefix(v@, cursor as int, k) by {
                if 0 <= k <= v@.len() && k > i {
                    text::lemma_byte_len_take_mono(v@, i as int, k);
                }
            }
        }
        None
    }
}

/// Characters up to and including the last whitespace among `v[..k]`.
fn find_token_start(v: &[char], k: usize) -> (s: usize)
    requires
        k <= v@.len(),
    ensures
        s == token_start(v@.take(k as int)),
        s <= k,
{
    let mut j = k;
    while j > 0 && !text::char_is_whitespace(v[j - 1])
        invariant
            j <= k <= v@.len(),
            token_start(v@.take(k as int)) == token_start(v@.take(j as int)),
        decreases j,
    {
        assert(v@.take(j as int).drop_last() =~= v@.take(j - 1));
        j -= 1;
    }
    if j > 0 {
        assert(v@.take(j as int).last() == v@[j - 1]);
    }
    j
}

/// Characters up to and including the last line break among `v[..k]`.
fn find_line_start(v: &[char], k: usize) -> (s: usize)
    requires
        k <= v@.len(),
    ensures
        s == line_start(v@.take(k as int)),
{
    let mut j = k;
    while j > 0 && v[j - 1] != '\n'
        invariant
            j <= k <= v@.len(),
            line_start(v@.take(k as int)) == line_start(v@.take(j as int)),
        decreases j,
    {
        assert(v@.take(j as int).drop_last() =~= v@.take(j - 1));
        j -= 1;
    }
    if j > 0 {
        assert(v@.take(j as int).last() == v@[j - 1]);
    }
    j
}

/// The inline token the cursor sits at the end of: its kind, the byte
/// offset where it starts (at the trigger character) and the text typed
/// after the trigger.
#[verifier::loop_isolation(false)]
pub fn active_composer_token(text: &str, cursor: usize) -> (r: Option<
    (ComposerTriggerKind, usize, String),
>)
    ensures
        match r {
            Some((kind, start, query)) => composer_token(text@, cursor as int) == Some(
                (kind, start as int, query@),
            ),
            None => composer_token(text@, cursor as int) is None,
        },
{
    let v = text::chars_of(text);
    let k = match prefix_char_count(&v, cursor) {
        Some(k) => k,
        None => return None,
    };
    proof {
        let kk = choose|kk: int| is_char_prefix(v@, cursor as int, kk);
        lemma_char_prefix_unique(v@, cursor as int, k as int, kk);
    }
    let ghost head = v@.take(k as int);
    let s = find_token_start(&v, k);
    assert(head.skip(s as int) =~= v@.subrange(s as int, k as int));
    if s == k {
        return None;
    }
    let first = v[s];
    let kind = if first == '@' {
        ComposerTriggerKind::Path
    } else if first == '/' {
        ComposerTriggerKind::Slash
    } else if first == '$' {
        ComposerTriggerKind::Skill
    } else if first == '#' {
        let ls = find_line_start(&v, s);
        assert(head.take(s as int) =~= v@.take(s as int));
        if s == ls {
            let mut all = true;
            let mut i = s;
            while i < k
                invariant
                    s <= i <= k <= v@.len(),
                    all == (forall|j: int| s <= j < i ==> v@[j] == '#'),
                decreases k - i,
            {
                if v[i] != '#' {
                    all = false;
                }
                i += 1;
            }
            assert(all == all_hashes(v@.subrange(s as int, k as int))) by {
                if all {
                    assert forall|j: int| 0 <= j < k - s implies v@.subrange(
                        s as int,
                        k as int,
                    )[j] == '#' by {
                        assert(v@[s + j] == '#');
                    }
                } else {
                    let j = choose|j: int| s <= j < k && v@[j] != '#';
                    assert(v@.subrange(s as int, k as int)[j - s] != '#');
                }
            }
            if all {
                return None;
            }
        }
        ComposerTriggerKind::Thread
    } else {
        return None;
    };
    let ghost query_chars = v@.subrange(s + 1, k as int);
    assert(head.skip(s as int).skip(1) =~= query_chars);
    let mut i = s + 1;
    while i < k
        invariant
            s < i <= k <= v@.len(),
            forall|j: int| s < j < i ==> !is_forbidden_query_char(v@[j]),
            query_chars == v@.subrange(s + 1, k as int),
        decreases k - i,
    {
        let c = v[i];
        if c == '"' || c == '@' || c == '/' || c == '$' || c == '#' {
            assert(query_chars[i - s - 1] == c);
            assert(is_forbidden_query_char(query_chars[i - s - 1]));
            assert(has_forbidden_query_char(query_chars));
            assert(head.skip(s as int).skip(1) == query_chars);
            return None;
        }
        i += 1;
    }
    assert(!has_forbidden_query_char(query_chars)) by {
        assert forall|j: int| 0 <= j < query_chars.len() implies !is_forbidden_query_char(
            query_chars[j],
        ) by {
            assert(query_chars[j] == v@[s + 1 + j]);
        }
    }
    assert(head.take(s as int) =~= v@.take(s as int));
    proof {
        text::lemma_byte_len_take_mono(v@, s as int, k as int);
    }
    let start = text::byte_len_prefix(&v, s);
    let query = text::string_of(&v, s + 1, k);
    Some((kind, start, query))
}

/// The `@path` token at the cursor: its byte start and the typed query.
pub fn active_mention_token(text: &str, cursor: usize) -> (r: Option<(usize, String)>)
    ensures
        match r {
            Some((start, query)) => mention_token(text@, cursor as int) == Some(
                (start as int, query@),
            ),
            None => mention_token(text@, cursor as int) is None,
        },
{
    match active_composer_token(text, cursor) {
        Some((kind, start, query)) => {
            if kind == ComposerTriggerKind::Path {
                Some((start, query))
            } else {
                None
            }
        },
        None => None,
    }
}

/// The popover that a trigger character opens.
pub open spec fn kind_of_trigger(t: char) -> ComposerTriggerKind {
    if t == '@' {
        ComposerTriggerKind::Path
    } else if t == '/' {
        ComposerTriggerKind::Slash
    } else {
        ComposerTriggerKind::Skill
    }
}

proof fn lemma_token_start_after(p: Seq<char>, x: Seq<char>)
    requires
        p.len() > 0 ==> text::is_ws(p.last()),
        forall|i: int| 0 <= i < x.len() ==> !text::is_ws(#[trigger] x[i]),
    ensures
        token_start(p + x) == p.len(),
    decreases x.len(),
{
    if x.len() == 0 {
        assert(p + x =~= p);
    } else {
        assert((p + x).last() == x.last());
        assert((p + x).drop_last() =~= p + x.drop_last());
        lemma_token_start_after(p, x.drop_last());
    }
}

/// A token typed right after any whitespace (a space, a line break or a
/// tab) or at the very start of the text is the active token when the
/// cursor is at the end: with the text before it `p`, the trigger `t` (one
/// of `@`, `/`, `$`) and a query `q` that holds no whitespace and none of
/// `"`, `@`, `/`, `$`, `#`, the token starts at byte `len(p)` and its query
/// is `q`.
pub proof fn law_token_after_whitespace(p: Seq<char>, t: char, q: Seq<char>)
    requires
        p.len() > 0 ==> (p.last() == ' ' || p.last() == '\n' || p.last() == '\t'),
        t == '@' || t == '/' || t == '$',
        forall|i: int|
            0 <= i < q.len() ==> !text::is_ws(#[trigger] q[i]) && q[i] != '"' && q[i] != '@'
                && q[i] != '/' && q[i] != '$' && q[i] != '#',
    ensures
        composer_token(p + seq![t] + q, text::byte_len(p + seq![t] + q) as int) == Some(
            (kind_of_trigger(t), text::byte_len(p) as int, q),
        ),
        t == '@' ==> mention_token(p + seq![t] + q, text::byte_len(p + seq![t] + q) as int)
            == Some((text::byte_len(p) as int, q)),
{
    let x = seq![t] + q;
    let w = p + x;
    assert(p + seq![t] + q =~= w);
    let cursor = text::byte_len(w) as int;
    assert(w.take(w.len() as int) =~= w);
    assert(is_char_prefix(w, cursor, w.len() as int));
    let kk = choose|kk: int| is_char_prefix(w, cursor, kk);
    lemma_char_prefix_unique(w, cursor, w.len() as int, kk);
    assert forall|i: int| 0 <= i < x.len() implies !text::is_ws(#[trigger] x[i]) by {
        if i > 0 {
            assert(x[i] == q[i - 1]);
        }
    }
    lemma_token_start_after(p, x);
    assert(w.skip(p.len() as int) =~= x);
    assert(x.skip(1) =~= q);
    assert(w.take(p.len() as int) =~= p);
    assert(!has_forbidden_query_char(q));
    assert(token_at(w) == Some((kind_of_trigger(t), text::byte_len(p) as int, q)));
}

} // verus!
