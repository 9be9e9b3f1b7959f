//! Inline chips in a sent user message: `[#label](t3code://thread/<id>)`
//! thread links and `$skill` mentions of known skills, with the plain text
//! around them kept verbatim.

use vstd::prelude::*;

use crate::text;

verus! {

/// A thread's identifier.
#[derive(Clone, Debug, PartialEq, Eq, Hash)]
pub struct ThreadId(pub String);

/// One run of a rendered user message.
#[derive(Clone, Debug, PartialEq, Eq)]
pub enum UserInlineSegment {
    Text(String),
    Thread { label: String, id: ThreadId },
    Skill(String),
}

/// A segment as character sequences.
pub enum SegmentView {
    Text(Seq<char>),
    Thread { label: Seq<char>, id: Seq<char> },
    Skill(Seq<char>),
}

impl View for UserInlineSegment {
    type V = SegmentView;

    open spec fn view(&self) -> SegmentView {
        match self {
            UserInlineSegment::Text(t) => SegmentView::Text(t@),
            UserInlineSegment::Thread { label, id } => SegmentView::Thread {
                label: label@,
                id: id.0@,
            },
            UserInlineSegment::Skill(name) => SegmentView::Skill(name@),
        }
    }
}

pub open spec fn thread_link_scheme() -> Seq<char> {
    "t3code://thread/"@
}

/// First index `i >= from` with `s[i] == a && s[i + 1] == b`.
pub open spec fn first_pair_from(s: Seq<char>, a: char, b: char, from: int) -> Option<int>
    decreases s.len() - from,
{
    if from < 0 || from + 1 >= s.len() {
        None
    } else if s[from] == a && s[from + 1] == b {
        Some(from)
    } else {
        first_pair_from(s, a, b, from + 1)
    }
}

/// First index `i >= from` with `s[i] == c`.
pub open spec fn first_char_from(s: Seq<char>, c: char, from: int) -> Option<int>
    decreases s.len() - from,
{
    if from < 0 || from >= s.len() {
        None
    } else if s[from] == c {
        Some(from)
    } else {
        first_char_from(s, c, from + 1)
    }
}

/// A thread link starting at `p`: the index just past it, its label and id.
pub open spec fn thread_link_at(t: Seq<char>, p: int) -> Option<(int, Seq<char>, Seq<char>)> {
    if 0 <= p && p + 1 < t.len() && t[p] == '[' && t[p + 1] == '#' {
        match first_pair_from(t, ']', '(', p + 2) {
            None => None,
            Some(le) => match first_char_from(t, ')', le + 2) {
                None => None,
                Some(he) => {
                    let target = t.subrange(le + 2, he);
                    let scheme = thread_link_scheme();
                    if target.len() > scheme.len() && target.take(scheme.len() as int) == scheme {
                        Some((he + 1, t.subrange(p + 2, le), target.skip(scheme.len() as int)))
                    } else {
                        None
                    }
                },
            },
        }
    } else {
        None
    }
}

pub open spec fn is_skill_char(c: char) -> bool {
    text::is_ascii_alnum(c) || c == ':' || c == '_' || c == '-'
}

/// Index just past the run of skill-name characters starting at `from`.
pub open spec fn skill_run_end(t: Seq<char>, from: int) -> int
    decreases t.len() - from,
{
    if from < 0 || from >= t.len() || !is_skill_char(t[from]) {
        from
    } else {
        skill_run_end(t, from + 1)
    }
}

pub open spec fn contains_name(skills: Seq<String>, name: Seq<char>) -> bool {
    exists|i: int| 0 <= i < skills.len() && skills[i]@ == name
}

/// A known `$skill` starting at `p`: the index just past it and its name.
pub open spec fn skill_at(t: Seq<char>, p: int, skills: Seq<String>) -> Option<(int, Seq<char>)> {
    if 0 <= p < t.len() && t[p] == '$' && (p == 0 || text::is_ws(t[p - 1])) {
        let e = skill_run_end(t, p + 1);
        let name = t.subrange(p + 1, e);
        if name.len() > 0 && (e == t.len() || text::is_ws(t[e])) && contains_name(skills, name) {
            Some((e, name))
        } else {
            None
        }
    } else {
        None
    }
}

pub open spec fn flush(t: Seq<char>, from: int, to: int) -> Seq<SegmentView> {
    if from < to {
        seq![SegmentView::Text(t.subrange(from, to))]
    } else {
        seq![]
    }
}

/// Segments of `t` from scan position `p`, with plain text pending since
/// `plain`.
pub open spec fn segments_from(t: Seq<char>, skills: Seq<String>, plain: int, p: int) -> Seq<
    SegmentView,
>
    decreases t.len() - p,
{
    if p < 0 || p >= t.len() {
        flush(t, plain, t.len() as int)
    } else {
        match thread_link_at(t, p) {
            Some((e, label, id)) => if p < e <= t.len() {
                flush(t, plain, p) + seq![SegmentView::Thread { label, id }] + segments_from(
                    t,
                    skills,
                    e,
                    e,
                )
            } else {
                seq![]
            },
            None => match skill_at(t, p, skills) {
                Some((e, name)) => if p < e <= t.len() {
                    flush(t, plain, p) + seq![SegmentView::Skill(name)] + segments_from(
                        t,
                        skills,
                        e,
                        e,
                    )
                } else {
                    seq![]
                },
                None => segments_from(t, skills, plain, p + 1),
            },
        }
    }
}

/// The rendered runs of a user message.
pub open spec fn inline_segments(t: Seq<char>, skills: Seq<String>) -> Seq<SegmentView> {
    let s = segments_from(t, skills, 0, 0);
    if s.len() == 0 {
        seq![SegmentView::Text(t)]
    } else {
        s
    }
}

proof fn lemma_first_pair_bound(s: Seq<char>, a: char, b: char, from: int)
    ensures
        first_pair_from(s, a, b, from) matches Some(i) ==> from <= i && i + 1 < s.len() && s[i]
            == a && s[i + 1] == b,
    decreases s.len() - from,
{
    if !(from < 0 || from + 1 >= s.len()) && !(s[from] == a && s[from + 1] == b) {
        lemma_first_pair_bound(s, a, b, from + 1);
    }
}

proof fn lemma_first_char_bound(s: Seq<char>, c: char, from: int)
    ensures
        first_char_from(s, c, from) matches Some(i) ==> from <= i < s.len() && s[i] == c,
    decreases s.len() - from,
{
    if !(from < 0 || from >= s.len()) && s[from] != c {
        lemma_first_char_bound(s, c, from + 1);
    }
}

proof fn lemma_skill_run_bound(t: Seq<char>, from: int)
    requires
        0 <= from <= t.len(),
    ensures
        from <= skill_run_end(t, from) <= t.len(),
    decreases t.len() - from,
{
    if !(from < 0 || from >= t.len() || !is_skill_char(t[from])) {
        lemma_skill_run_bound(t, from + 1);
    }
}

fn find_pair(v: &Vec<char>, a: char, b: char, from: usize) -> (r: Option<usize>)
    ensures
        match r {
            Some(i) => first_pair_from(v@, a, b, from as int) == Some(i as int),
            None => first_pair_from(v@, a, b, from as int) is None,
        },
{
    let mut i = from;
    while i < v.len() && i + 1 < v.len()
        invariant
            from <= i,
            first_pair_from(v@, a, b, from as int) == first_pair_from(v@, a, b, i as int),
        decreases v@.len() - i,
    {
        if v[i] == a && v[i + 1] == b {
            return Some(i);
        }
        i += 1;
    }
    None
}

fn find_char(v: &Vec<char>, c: char, from: usize) -> (r: Option<usize>)
    ensures
        match r {
            Some(i) => first_char_from(v@, c, from as int) == Some(i as int),
            None => first_char_from(v@, c, from as int) is None,
        },
{
    let mut i = from;
    while i < v.len()
        invariant
            from <= i,
            first_char_from(v@, c, from as int) == first_char_from(v@, c, i as int),
        decreases v@.len() - i,
    {
        if v[i] == c {
            return Some(i);
        }
        i += 1;
    }
    None
}

/// Whether `v[lo..hi]` spells `lit`.
fn matches_at(v: &Vec<char>, lo: usize, lit: &Vec<char>) -> (b: bool)
    requires
        lo + lit@.len() <= v@.len(),
    ensures
        b == (v@.subrange(lo as int, lo + lit@.len()) == lit@),
{
    let n = v.len();
    let mut i: usize = 0;
    while i < lit.len()
        invariant
            n == v@.len(),
            lo + lit@.len() <= v@.len(),
            i <= lit@.len(),
            forall|j: int| 0 <= j < i ==> v@[lo + j] == lit@[j],
        decreases lit@.len() - i,
    {
        if v[lo + i] != lit[i] {
            assert(v@.subrange(lo as int, lo + lit@.len())[i as int] != lit@[i as int]);
            return false;
        }
        i += 1;
    }
    assert(v@.subrange(lo as int, lo + lit@.len()) =~= lit@);
    true
}

fn thread_link(v: &Vec<char>, scheme: &Vec<char>, p: usize) -> (r: Option<(usize, usize, usize, usize)>)
    requires
        scheme@ == thread_link_scheme(),
        p < v@.len(),
    ensures
        match r {
            Some((e, le, id_start, id_end)) => thread_link_at(v@, p as int) == Some(
                (
                    e as int,
                    v@.subrange(p + 2, le as int),
                    v@.subrange(id_start as int, id_end as int),
                ),
            ) && p + 2 <= le <= v@.len() && id_start <= id_end <= v@.len() && p < e <= v@.len(),
            None => thread_link_at(v@, p as int) is None,
        },
{
    if !(v.len() - p > 1 && v[p] == '[' && v[p + 1] == '#') {
        return None;
    }
    let le = match find_pair(v, ']', '(', p + 2) {
        Some(le) => le,
        None => return None,
    };
    proof {
        lemma_first_pair_bound(v@, ']', '(', p + 2);
    }
    let he = match find_char(v, ')', le + 2) {
        Some(he) => he,
        None => return None,
    };
    proof {
        lemma_first_char_bound(v@, ')', le + 2);
    }
    let ghost target = v@.subrange(le + 2, he as int);
    let n = scheme.len();
    if he - (le + 2) <= n {
        return None;
    }
    if !matches_at(v, le + 2, scheme) {
        assert(target.take(n as int) =~= v@.subrange(le + 2, le + 2 + n));
        return None;
    }
    assert(target.take(n as int) =~= v@.subrange(le + 2, le + 2 + n));
    assert(target.skip(n as int) =~= v@.subrange(le + 2 + n, he as int));
    Some((he + 1, le, le + 2 + n, he))
}

fn skill_run(v: &Vec<char>, from: usize) -> (e: usize)
    requires
        from <= v@.len(),
    ensures
        e == skill_run_end(v@, from as int),
        from <= e <= v@.len(),
{
    let mut i = from;
    while i < v.len() && (text::char_is_ascii_alnum(v[i]) || v[i] == ':' || v[i] == '_' || v[i]
        == '-')
        invariant
            from <= i <= v@.len(),
            skill_run_end(v@, from as int) == skill_run_end(v@, i as int),
        decreases v@.len() - i,
    {
        i += 1;
    }
    i
}

fn contains_skill(skills: &[String], name: &String) -> (b: bool)
    ensures
        b == contains_name(skills@, name@),
{
    let mut i: usize = 0;
    while i < skills.len()
        invariant
            i <= skills@.len(),
            forall|j: int| 0 <= j < i ==> skills@[j]@ != name@,
        decreases skills@.len() - i,
    {
        if skills[i] == *name {
            return true;
        }
        i += 1;
    }
    false
}

fn push_flush(out: &mut Vec<UserInlineSegment>, v: &Vec<char>, from: usize, to: usize)
    requires
        from <= v@.len(),
        to <= v@.len(),
    ensures
        final(out)@.map_values(|s: UserInlineSegment| s@) == old(out)@.map_values(
            |s: UserInlineSegment| s@,
        ) + flush(v@, from as int, to as int),
{
    if from < to {
        let t = text::string_of(v, from, to);
        out.push(UserInlineSegment::Text(t));
    }
    assert(final(out)@.map_values(|s: UserInlineSegment| s@) =~= old(out)@.map_values(
        |s: UserInlineSegment| s@,
    ) + flush(v@, from as int, to as int));
}

/// Split a user message into plain text, thread-link chips and chips for
/// `$skill` mentions whose name is in `skills`.
#[verifier::loop_isolation(false)]
pub fn parse_user_inline_segments(text: &str, skills: &[String]) -> (r: Vec<UserInlineSegment>)
    ensures
        r@.map_values(|s: UserInlineSegment| s@) == inline_segments(text@, skills@),
{
    let v = text::chars_of(text);
    let scheme = text::chars_of("t3code://thread/");
    let mut out: Vec<UserInlineSegment> = Vec::new();
    let mut plain: usize = 0;
    let mut p: usize = 0;
    while p < v.len()
        invariant
            plain <= p <= v@.len(),
            v@ == text@,
            scheme@ == thread_link_scheme(),
            out@.map_values(|s: UserInlineSegment| s@) + segments_from(
                v@,
                skills@,
                plain as int,
                p as int,
            ) == segments_from(v@, skills@, 0, 0),
        decreases v@.len() - p,
    {
        let ghost before = out@.map_values(|s: UserInlineSegment| s@);
        match thread_link(&v, &scheme, p) {
            Some((e, le, id_start, id_end)) => {
                push_flush(&mut out, &v, plain, p);
                let label = text::string_of(&v, p + 2, le);
                let id = text::string_of(&v, id_start, id_end);
                out.push(UserInlineSegment::Thread { label, id: ThreadId(id) });
                assert(out@.map_values(|s: UserInlineSegment| s@) =~= before + flush(
                    v@,
                    plain as int,
                    p as int,
                ) + seq![
                    SegmentView::Thread {
                        label: v@.subrange(p + 2, le as int),
                        id: v@.subrange(id_start as int, id_end as int),
                    },
                ]);
                assert(segments_from(v@, skills@, plain as int, p as int) == flush(
                    v@,
                    plain as int,
                    p as int,
                ) + seq![
                    SegmentView::Thread {
                        label: v@.subrange(p + 2, le as int),
                        id: v@.subrange(id_start as int, id_end as int),
                    },
                ] + segments_from(v@, skills@, e as int, e as int));
                plain = e;
                p = e;
                continue;
            },
            None => {},
        }
        let c = v[p];
        if c == '$' && (p == 0 || text::char_is_whitespace(v[p - 1])) {
            let e = skill_run(&v, p + 1);
            if e > p + 1 && (e == v.len() || text::char_is_whitespace(v[e])) {
                let name = text::string_of(&v, p + 1, e);
                if contains_skill(skills, &name) {
                    push_flush(&mut out, &v, plain, p);
                    out.push(UserInlineSegment::Skill(name));
                    assert(out@.map_values(|s: UserInlineSegment| s@) =~= before + flush(
                        v@,
                        plain as int,
                        p as int,
                    ) + seq![SegmentView::Skill(v@.subrange(p + 1, e as int))]);
                    plain = e;
                    p = e;
                    continue;
                }
            }
        }
        p += 1;
    }
    push_flush(&mut out, &v, plain, v.len());
    if out.len() == 0 {
        let whole = text::string_of(&v, 0, v.len());
        assert(v@.subrange(0, v@.len() as int) =~= v@);
        out.push(UserInlineSegment::Text(whole));
        assert(out@.map_values(|s: UserInlineSegment| s@) =~= seq![SegmentView::Text(v@)]);
    }
    out
}

/// The message text a segment was parsed from.
pub open spec fn segment_source(s: SegmentView) -> Seq<char> {
    match s {
        SegmentView::Text(t) => t,
        SegmentView::Thread { label, id } => seq!['[', '#'] + label + seq![']', '(']
            + thread_link_scheme() + id + seq![')'],
        SegmentView::Skill(name) => seq!['$'] + name,
    }
}

/// The text a run of segments was parsed from.
pub open spec fn sources(segs: Seq<SegmentView>) -> Seq<char>
    decreases segs.len(),
{
    if segs.len() == 0 {
        seq![]
    } else {
        segment_source(segs[0]) + sources(segs.drop_first())
    }
}

proof fn lemma_sources_concat(a: Seq<SegmentView>, b: Seq<SegmentView>)
    ensures
        sources(a + b) == sources(a) + sources(b),
    decreases a.len(),
{
    if a.len() == 0 {
        assert(a + b =~= b);
    } else {
        assert((a + b).drop_first() =~= a.drop_first() + b);
        lemma_sources_concat(a.drop_first(), b);
    }
}

proof fn lemma_sources_one(x: SegmentView)
    ensures
        sources(seq![x]) == segment_source(x),
{
    assert(seq![x].drop_first() =~= Seq::<SegmentView>::empty());
    assert(sources(Seq::<SegmentView>::empty()) == Seq::<char>::empty());
    assert(segment_source(x) + Seq::<char>::empty() =~= segment_source(x));
}

proof fn lemma_flush_sources(t: Seq<char>, from: int, to: int)
    requires
        0 <= from <= to <= t.len(),
    ensures
        sources(flush(t, from, to)) == t.subrange(from, to),
{
    if from < to {
        lemma_sources_one(SegmentView::Text(t.subrange(from, to)));
    } else {
        assert(t.subrange(from, to) =~= Seq::<char>::empty());
    }
}

proof fn lemma_segments_sources(t: Seq<char>, skills: Seq<String>, plain: int, p: int)
    requires
        0 <= plain <= p <= t.len(),
    ensures
        sources(segments_from(t, skills, plain, p)) == t.subrange(plain, t.len() as int),
    decreases t.len() - p,
{
    if p >= t.len() {
        lemma_flush_sources(t, plain, t.len() as int);
    } else {
        match thread_link_at(t, p) {
            Some((e, label, id)) => {
                let le = first_pair_from(t, ']', '(', p + 2)->0;
                let he = first_char_from(t, ')', le + 2)->0;
                lemma_first_pair_bound(t, ']', '(', p + 2);
                lemma_first_char_bound(t, ')', le + 2);
                assert(p < e <= t.len());
                if p < e <= t.len() {
                    let th = SegmentView::Thread { label, id };
                    lemma_segments_sources(t, skills, e, e);
                    lemma_flush_sources(t, plain, p);
                    lemma_sources_concat(flush(t, plain, p), seq![th]);
                    lemma_sources_concat(
                        flush(t, plain, p) + seq![th],
                        segments_from(t, skills, e, e),
                    );
                    lemma_sources_one(th);
                    let scheme = thread_link_scheme();
                    let target = t.subrange(le + 2, he);
                    assert(target =~= scheme + id);
                    assert(segment_source(th) =~= t.subrange(p, e));
                    assert(t.subrange(plain, p) + t.subrange(p, e) + t.subrange(
                        e,
                        t.len() as int,
                    ) =~= t.subrange(plain, t.len() as int));
                }
            },
            None => match skill_at(t, p, skills) {
                Some((e, name)) => {
                    lemma_skill_run_bound(t, p + 1);
                    assert(p < e <= t.len());
                    if p < e <= t.len() {
                        let sk = SegmentView::Skill(name);
                        lemma_segments_sources(t, skills, e, e);
                        lemma_flush_sources(t, plain, p);
                        lemma_sources_concat(flush(t, plain, p), seq![sk]);
                        lemma_sources_concat(
                            flush(t, plain, p) + seq![sk],
                            segments_from(t, skills, e, e),
                        );
                        lemma_sources_one(sk);
                        assert(segment_source(sk) =~= t.subrange(p, e));
                        assert(t.subrange(plain, p) + t.subrange(p, e) + t.subrange(
                            e,
                            t.len() as int,
                        ) =~= t.subrange(plain, t.len() as int));
                    }
                },
                None => {
                    lemma_segments_sources(t, skills, plain, p + 1);
                },
            },
        }
    }
}

/// Parsing never loses or invents text: the segments, written back as the
/// text each was parsed from (a thread chip as its markdown link, a skill
/// chip as `$name`), give the message exactly.
pub proof fn law_inline_segments_keep_text(t: Seq<char>, skills: Seq<String>)
    ensures
        sources(inline_segments(t, skills)) == t,
{
    lemma_segments_sources(t, skills, 0, 0);
    assert(t.subrange(0, t.len() as int) =~= t);
    if segments_from(t, skills, 0, 0).len() == 0 {
        lemma_sources_one(SegmentView::Text(t));
    }
}

/// A character allowed in a skill name: an ASCII letter or digit, `:`,
/// `_` or `-`.
pub open spec fn allowed_in_skill_name(c: char) -> bool {
    ('a' <= c && c <= 'z') || ('A' <= c && c <= 'Z') || ('0' <= c && c <= '9') || c == ':' || c
        == '_' || c == '-'
}

proof fn lemma_skill_run_to(t: Seq<char>, from: int, end: int)
    requires
        0 <= from <= end <= t.len(),
        forall|j: int| from <= j < end ==> allowed_in_skill_name(#[trigger] t[j]),
        end == t.len() || t[end] == ' ',
    ensures
        skill_run_end(t, from) == end,
    decreases end - from,
{
    if from < end {
        lemma_skill_run_to(t, from + 1, end);
    }
}

/// A known skill whose name is made of the allowed characters is a chip,
/// whether it is the whole message or stands between words: `$name` gives
/// the skill chip alone, and `a $name b` gives `a `, the chip and ` b`.
pub proof fn law_known_skill_is_chip(name: Seq<char>, skills: Seq<String>)
    requires
        name.len() > 0,
        forall|i: int| 0 <= i < name.len() ==> allowed_in_skill_name(#[trigger] name[i]),
        exists|k: int| 0 <= k < skills.len() && skills[k]@ == name,
    ensures
        inline_segments(seq!['$'] + name, skills) == seq![SegmentView::Skill(name)],
        inline_segments(seq!['a', ' ', '$'] + name + seq![' ', 'b'], skills) == seq![
            SegmentView::Text(seq!['a', ' ']),
            SegmentView::Skill(name),
            SegmentView::Text(seq![' ', 'b']),
        ],
{
    let n = name.len() as int;
    let t = seq!['$'] + name;
    assert(t[0] == '$');
    assert(thread_link_at(t, 0) is None);
    assert forall|j: int| 1 <= j < t.len() implies allowed_in_skill_name(#[trigger] t[j]) by {
        assert(t[j] == name[j - 1]);
    }
    lemma_skill_run_to(t, 1, t.len() as int);
    assert(t.subrange(1, t.len() as int) =~= name);
    assert(contains_name(skills, name));
    assert(skill_at(t, 0, skills) == Some((t.len() as int, name)));
    assert(segments_from(t, skills, t.len() as int, t.len() as int) =~= seq![]);
    assert(segments_from(t, skills, 0, 0) =~= seq![SegmentView::Skill(name)]);

    let u = seq!['a', ' ', '$'] + name + seq![' ', 'b'];
    let e = n + 3;
    assert(u.len() == n + 5);
    assert(u[0] == 'a' && u[1] == ' ' && u[2] == '$' && u[e] == ' ' && u[e + 1] == 'b');
    assert forall|j: int| 3 <= j < e implies allowed_in_skill_name(#[trigger] u[j]) by {
        assert(u[j] == name[j - 3]);
    }
    lemma_skill_run_to(u, 3, e);
    assert(u.subrange(3, e) =~= name);
    assert(text::is_ws(u[1]) && text::is_ws(u[e]));
    assert(!is_skill_char(u[e]));
    assert(skill_at(u, 2, skills) == Some((e, name)));
    assert(thread_link_at(u, 0) is None && skill_at(u, 0, skills) is None);
    assert(thread_link_at(u, 1) is None && skill_at(u, 1, skills) is None);
    assert(thread_link_at(u, 2) is None);
    assert(thread_link_at(u, e) is None && skill_at(u, e, skills) is None);
    assert(thread_link_at(u, e + 1) is None && skill_at(u, e + 1, skills) is None);
    assert(u.subrange(e, n + 5) =~= seq![' ', 'b']);
    assert(u.subrange(0, 2) =~= seq!['a', ' ']);
    assert(segments_from(u, skills, e, e + 2) == seq![SegmentView::Text(seq![' ', 'b'])]);
    assert(segments_from(u, skills, e, e + 1) == seq![SegmentView::Text(seq![' ', 'b'])]);
    assert(segments_from(u, skills, e, e) == seq![SegmentView::Text(seq![' ', 'b'])]);
    assert(segments_from(u, skills, 0, 2) =~= seq![
        SegmentView::Text(seq!['a', ' ']),
        SegmentView::Skill(name),
        SegmentView::Text(seq![' ', 'b']),
    ]);
    assert(segments_from(u, skills, 0, 1) == segments_from(u, skills, 0, 2));
    assert(segments_from(u, skills, 0, 0) == segments_from(u, skills, 0, 1));
}

} // verus!
