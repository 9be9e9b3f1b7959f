//! Proposed-plan helpers: the title shown on the plan card and used as the
//! export file name, the collapsed preview, and the long-message fold rule.

use vstd::prelude::*;

use crate::text;

verus! {

/// Number of leading `c` characters of `s`.
pub open spec fn prefix_count(s: Seq<char>, c: char) -> nat
    decreases s.len(),
{
    if s.len() > 0 && s[0] == c {
        1 + prefix_count(s.drop_first(), c)
    } else {
        0
    }
}

/// Number of trailing `c` characters of `s`.
pub open spec fn suffix_count(s: Seq<char>, c: char) -> nat
    decreases s.len(),
{
    if s.len() > 0 && s.last() == c {
        1 + suffix_count(s.drop_last(), c)
    } else {
        0
    }
}

/// The heading text of a `#`-prefixed line, if it has any.
pub open spec fn line_title(l: Seq<char>) -> Option<Seq<char>> {
    let t = text::trim_start(l);
    let h = prefix_count(t, '#');
    let title = text::trim(t.skip(h as int));
    if h > 0 && title.len() > 0 {
        Some(title)
    } else {
        None
    }
}

pub open spec fn first_title_from(ls: Seq<Seq<char>>, i: int) -> Option<Seq<char>>
    decreases ls.len() - i,
{
    if i < 0 || i >= ls.len() {
        None
    } else {
        match line_title(ls[i]) {
            Some(t) => Some(t),
            None => first_title_from(ls, i + 1),
        }
    }
}

/// The first markdown heading of a plan.
pub open spec fn plan_title(md: Seq<char>) -> Option<Seq<char>> {
    first_title_from(text::lines(md), 0)
}

pub open spec fn max_visible_plan_lines() -> nat {
    8
}

/// Lines kept by the collapsed preview, from line `i` on with `visible`
/// non-blank lines already kept.
pub open spec fn collapse_lines(ls: Seq<Seq<char>>, i: int, visible: nat) -> Seq<Seq<char>>
    decreases ls.len() - i,
{
    if i < 0 || i >= ls.len() {
        seq![]
    } else if !text::is_blank(ls[i]) {
        if visible >= max_visible_plan_lines() {
            seq![seq!['\u{2026}']]
        } else {
            seq![ls[i]] + collapse_lines(ls, i + 1, visible + 1)
        }
    } else {
        seq![ls[i]] + collapse_lines(ls, i + 1, visible)
    }
}

/// A plan with at most eight non-blank lines, then `…`.
pub open spec fn collapsed_plan(md: Seq<char>) -> Seq<char> {
    text::join(collapse_lines(text::lines(md), 0, 0), seq!['\n'])
}

pub open spec fn slug_char(c: char) -> char {
    if text::is_ascii_alnum(c) {
        text::lower_char(c)
    } else {
        '-'
    }
}

/// `s` with every `--` (scanned left to right) replaced by `-`.
pub open spec fn collapse_double_dash(s: Seq<char>) -> Seq<char>
    decreases s.len(),
{
    if s.len() >= 2 && s[0] == '-' && s[1] == '-' {
        seq!['-'] + collapse_double_dash(s.skip(2))
    } else if s.len() == 0 {
        seq![]
    } else {
        seq![s[0]] + collapse_double_dash(s.skip(1))
    }
}

pub open spec fn trim_dashes(s: Seq<char>) -> Seq<char> {
    let t = s.skip(prefix_count(s, '-') as int);
    t.take(t.len() - suffix_count(t, '-'))
}

/// The export file name: the title slugged, or `plan`, plus `.md`.
pub open spec fn plan_file_name(md: Seq<char>) -> Seq<char> {
    let title = match plan_title(md) {
        Some(t) => t,
        None => "plan"@,
    };
    let stem = collapse_double_dash(trim_dashes(title.map_values(|c: char| slug_char(c))));
    (if stem.len() == 0 {
        "plan"@
    } else {
        stem
    }) + ".md"@
}

pub open spec fn long_message_bytes() -> nat {
    600
}

/// Non-blank and more than 600 bytes or more than eight lines.
pub open spec fn collapses_user_message(t: Seq<char>) -> bool {
    !text::is_blank(t) && (text::byte_len(t) > long_message_bytes() || text::lines(t).len()
        > max_visible_plan_lines())
}

/// Leading `c` characters of `v[lo..hi]`.
fn count_prefix(v: &Vec<char>, lo: usize, hi: usize, c: char) -> (k: usize)
    requires
        lo <= hi <= v@.len(),
    ensures
        lo <= k <= hi,
        k - lo == prefix_count(v@.subrange(lo as int, hi as int), c),
{
    let mut k = lo;
    while k < hi && v[k] == c
        invariant
            lo <= k <= hi <= v@.len(),
            prefix_count(v@.subrange(lo as int, hi as int), c) == (k - lo) + prefix_count(
                v@.subrange(k as int, hi as int),
                c,
            ),
        decreases hi - k,
    {
        assert(v@.subrange(k as int, hi as int).drop_first() =~= v@.subrange(k + 1, hi as int));
        k += 1;
    }
    k
}

/// Trailing `c` characters of `v[lo..hi]`.
fn count_suffix(v: &Vec<char>, lo: usize, hi: usize, c: char) -> (k: usize)
    requires
        lo <= hi <= v@.len(),
    ensures
        lo <= k <= hi,
        hi - k == suffix_count(v@.subrange(lo as int, hi as int), c),
{
    let mut k = hi;
    while k > lo && v[k - 1] == c
        invariant
            lo <= k <= hi <= v@.len(),
            suffix_count(v@.subrange(lo as int, hi as int), c) == (hi - k) + suffix_count(
                v@.subrange(lo as int, k as int),
                c,
            ),
        decreases k,
    {
        assert(v@.subrange(lo as int, k as int).drop_last() =~= v@.subrange(lo as int, k - 1));
        k -= 1;
    }
    k
}

/// The title of the line `v[lo..hi]`, as a range.
fn title_of_line(v: &Vec<char>, lo: usize, hi: usize) -> (r: Option<(usize, usize)>)
    requires
        lo <= hi <= v@.len(),
    ensures
        match r {
            Some((a, b)) => a <= b <= v@.len() && line_title(v@.subrange(lo as int, hi as int))
                == Some(v@.subrange(a as int, b as int)),
            None => line_title(v@.subrange(lo as int, hi as int)) is None,
        },
{
    let ghost l = v@.subrange(lo as int, hi as int);
    let a = text::skip_ws_forward(v, lo, hi);
    assert(text::trim_start(l) =~= v@.subrange(a as int, hi as int));
    let h = count_prefix(v, a, hi, '#');
    assert(v@.subrange(a as int, hi as int).skip(h - a) =~= v@.subrange(h as int, hi as int));
    let (x, y) = text::trim_range(v, h, hi);
    if h > a && y > x {
        Some((x, y))
    } else {
        None
    }
}

fn plan_title_range(v: &Vec<char>) -> (r: Option<(usize, usize)>)
    ensures
        match r {
            Some((a, b)) => a <= b <= v@.len() && plan_title(v@) == Some(
                v@.subrange(a as int, b as int),
            ),
            None => plan_title(v@) is None,
        },
{
    let ranges = text::line_ranges(v);
    let mut i: usize = 0;
    while i < ranges.len()
        invariant
            ranges@.len() == text::lines(v@).len(),
            forall|j: int|
                #![trigger text::lines(v@)[j]]
                #![trigger ranges@[j]]
                0 <= j < ranges@.len() ==> (ranges@[j].0 <= ranges@[j].1 && ranges@[j].1
                    <= v@.len() && text::lines(v@)[j] == v@.subrange(
                    ranges@[j].0 as int,
                    ranges@[j].1 as int,
                )),
            i <= ranges@.len(),
            first_title_from(text::lines(v@), 0) == first_title_from(text::lines(v@), i as int),
        decreases ranges@.len() - i,
    {
        let (lo, hi) = ranges[i];
        assert(text::lines(v@)[i as int] == v@.subrange(lo as int, hi as int));
        match title_of_line(v, lo, hi) {
            Some(r) => {
                return Some(r);
            },
            None => {},
        }
        i += 1;
    }
    None
}

/// The first markdown heading of a plan, trimmed.
pub fn proposed_plan_title(markdown: &str) -> (r: Option<String>)
    ensures
        match r {
            Some(t) => plan_title(markdown@) == Some(t@),
            None => plan_title(markdown@) is None,
        },
{
    let v = text::chars_of(markdown);
    match plan_title_range(&v) {
        Some((a, b)) => Some(text::string_of(&v, a, b)),
        None => None,
    }
}

fn is_blank_range(v: &Vec<char>, lo: usize, hi: usize) -> (b: bool)
    requires
        lo <= hi <= v@.len(),
    ensures
        b == text::is_blank(v@.subrange(lo as int, hi as int)),
{
    let mut i = lo;
    while i < hi
        invariant
            lo <= i <= hi <= v@.len(),
            forall|j: int| lo <= j < i ==> text::is_ws(v@[j]),
        decreases hi - i,
    {
        if !text::char_is_whitespace(v[i]) {
            assert(!text::is_ws(v@.subrange(lo as int, hi as int)[i - lo]));
            return false;
        }
        i += 1;
    }
    assert forall|j: int| 0 <= j < hi - lo implies text::is_ws(
        v@.subrange(lo as int, hi as int)[j],
    ) by {
        assert(v@.subrange(lo as int, hi as int)[j] == v@[lo + j]);
    }
    true
}

/// The plan cut after its eighth non-blank line, with `…` marking the cut.
#[verifier::loop_isolation(false)]
pub fn collapsed_plan_markdown(markdown: &str) -> (r: String)
    ensures
        r@ == collapsed_plan(markdown@),
{
    let v = text::chars_of(markdown);
    let ranges = text::line_ranges(&v);
    let ghost ls = text::lines(v@);
    let ghost sep = seq!['\n'];
    let mut out: Vec<char> = Vec::new();
    let ghost mut parts: Seq<Seq<char>> = seq![];
    let mut visible: usize = 0;
    let mut i: usize = 0;
    while i < ranges.len()
        invariant
            i <= ranges@.len(),
            visible <= i,
            out@ == text::join(parts, sep),
            parts.len() == i,
            parts + collapse_lines(ls, i as int, visible as nat) == collapse_lines(ls, 0, 0),
        decreases ranges@.len() - i,
    {
        let (lo, hi) = ranges[i];
        assert(ls[i as int] == v@.subrange(lo as int, hi as int));
        let blank = is_blank_range(&v, lo, hi);
        if !blank && visible >= 8 {
            proof {
                text::lemma_join_push(parts, seq!['\u{2026}'], sep);
            }
            if i > 0 {
                out.push('\n');
            }
            out.push('\u{2026}');
            proof {
                assert(collapse_lines(ls, i as int, visible as nat) == seq![seq!['\u{2026}']]);
                assert(parts + seq![seq!['\u{2026}']] =~= parts.push(seq!['\u{2026}']));
                assert(out@ =~= text::join(parts.push(seq!['\u{2026}']), sep));
                parts = parts.push(seq!['\u{2026}']);
            }
            let s = text::string_of(&out, 0, out.len());
            assert(out@.subrange(0, out@.len() as int) =~= out@);
            return s;
        }
        if !blank {
            visible += 1;
        }
        proof {
            text::lemma_join_push(parts, ls[i as int], sep);
        }
        if i > 0 {
            out.push('\n');
        }
        text::push_range(&mut out, &v, lo, hi);
        proof {
            assert(parts + collapse_lines(ls, i as int, old_visible(visible, blank)) =~= parts.push(
                ls[i as int],
            ) + collapse_lines(ls, i + 1, visible as nat));
            assert(out@ =~= text::join(parts.push(ls[i as int]), sep));
            parts = parts.push(ls[i as int]);
        }
        i += 1;
    }
    assert(collapse_lines(ls, i as int, visible as nat) =~= Seq::<Seq<char>>::empty());
    assert(parts =~= collapse_lines(ls, 0, 0));
    let s = text::string_of(&out, 0, out.len());
    assert(out@.subrange(0, out@.len() as int) =~= out@);
    s
}

fn slug_char_exec(c: char) -> (r: char)
    ensures
        r == slug_char(c),
{
    if text::char_is_ascii_alnum(c) {
        if 'A' <= c && c <= 'Z' {
            (((c as u32) + 32) as u8) as char
        } else {
            c
        }
    } else {
        '-'
    }
}

fn collapse_double_dash_exec(s: &Vec<char>) -> (r: Vec<char>)
    ensures
        r@ == collapse_double_dash(s@),
{
    let mut out: Vec<char> = Vec::new();
    let mut i: usize = 0;
    assert(s@.skip(0) =~= s@);
    assert(out@ + collapse_double_dash(s@) =~= collapse_double_dash(s@));
    while i < s.len()
        invariant
            i <= s@.len(),
            out@ + collapse_double_dash(s@.skip(i as int)) == collapse_double_dash(s@),
        decreases s@.len() - i,
    {
        let ghost rest = s@.skip(i as int);
        if s.len() - i >= 2 && s[i] == '-' && s[i + 1] == '-' {
            out.push('-');
            assert(rest.skip(2) =~= s@.skip(i + 2));
            assert(out@ + collapse_double_dash(s@.skip(i + 2)) =~= collapse_double_dash(s@));
            i += 2;
        } else {
            out.push(s[i]);
            assert(rest.skip(1) =~= s@.skip(i + 1));
            assert(out@ + collapse_double_dash(s@.skip(i + 1)) =~= collapse_double_dash(s@));
            i += 1;
        }
    }
    assert(s@.skip(i as int) =~= Seq::<char>::empty());
    assert(out@ + Seq::<char>::empty() =~= out@);
    out
}

/// The export file name for a plan: its title lower-cased with every other
/// character than ASCII letters and digits turned into `-`, outer dashes
/// dropped and `--` runs halved; `plan` when nothing is left; then `.md`.
pub fn plan_filename(markdown: &str) -> (r: String)
    ensures
        r@ == plan_file_name(markdown@),
{
    let title: Vec<char> = match proposed_plan_title(markdown) {
        Some(t) => text::chars_of(t.as_str()),
        None => text::chars_of("plan"),
    };
    let mut slug: Vec<char> = Vec::new();
    let mut i: usize = 0;
    while i < title.len()
        invariant
            i <= title@.len(),
            slug@ == title@.take(i as int).map_values(|c: char| slug_char(c)),
        decreases title@.len() - i,
    {
        slug.push(slug_char_exec(title[i]));
        assert(title@.take(i + 1).map_values(|c: char| slug_char(c)) =~= title@.take(
            i as int,
        ).map_values(|c: char| slug_char(c)).push(slug_char(title@[i as int])));
        i += 1;
    }
    assert(title@.take(title@.len() as int) =~= title@);
    let a = count_prefix(&slug, 0, slug.len(), '-');
    let b = count_suffix(&slug, a, slug.len(), '-');
    assert(slug@.subrange(0, slug@.len() as int) =~= slug@);
    let ghost t = slug@.skip(a as int);
    assert(t =~= slug@.subrange(a as int, slug@.len() as int));
    let mut trimmed: Vec<char> = Vec::new();
    text::push_range(&mut trimmed, &slug, a, b);
    assert(trimmed@ =~= trim_dashes(slug@));
    let stem = collapse_double_dash_exec(&trimmed);
    let mut out: Vec<char> = Vec::new();
    if stem.len() == 0 {
        text::push_literal(&mut out, "plan");
    } else {
        text::push_range(&mut out, &stem, 0, stem.len());
        assert(stem@.subrange(0, stem@.len() as int) =~= stem@);
    }
    text::push_literal(&mut out, ".md");
    let r = text::string_of(&out, 0, out.len());
    assert(out@.subrange(0, out@.len() as int) =~= out@);
    r
}

/// Whether a user message is long enough to render folded: non-blank and
/// over 600 bytes or over eight lines.
pub fn should_collapse_user_message(text: &str) -> (b: bool)
    ensures
        b == collapses_user_message(text@),
{
    let v = text::chars_of(text);
    if is_blank_range(&v, 0, v.len()) {
        assert(v@.subrange(0, v@.len() as int) =~= v@);
        return false;
    }
    assert(v@.subrange(0, v@.len() as int) =~= v@);
    let mut bytes: usize = 0;
    let mut i: usize = 0;
    while i < v.len() && bytes <= 600
        invariant
            i <= v@.len(),
            bytes == text::byte_len(v@.take(i as int)),
            bytes <= 604,
        decreases v@.len() - i,
    {
        proof {
            text::lemma_byte_len_take_step(v@, i as int);
        }
        bytes = bytes + text::char_len_utf8(v[i]);
        i += 1;
    }
    proof {
        text::lemma_byte_len_take_mono(v@, i as int, v@.len() as int);
        assert(v@.take(v@.len() as int) =~= v@);
    }
    if bytes > 600 {
        return true;
    }
    let ranges = text::line_ranges(&v);
    ranges.len() > 8
}

spec fn old_visible(visible: usize, blank: bool) -> nat {
    if blank {
        visible as nat
    } else {
        (visible - 1) as nat
    }
}

/// `s` holds no `-` directly followed by another `-`.
pub open spec fn no_double_dash(s: Seq<char>) -> bool {
    forall|i: int| 0 <= i && i + 1 < s.len() ==> !(#[trigger] s[i] == '-' && s[i + 1] == '-')
}

/// `s` holds no run of three `-`.
pub open spec fn no_triple_dash(s: Seq<char>) -> bool {
    forall|i: int|
        0 <= i && i + 2 < s.len() ==> !(#[trigger] s[i] == '-' && s[i + 1] == '-' && s[i + 2]
            == '-')
}

/// `t` holds no three characters in a row that are not ASCII letters or
/// digits.
pub open spec fn no_three_separators(t: Seq<char>) -> bool {
    forall|i: int|
        0 <= i && i + 2 < t.len() ==> (text::is_ascii_alnum(#[trigger] t[i])
            || text::is_ascii_alnum(t[i + 1]) || text::is_ascii_alnum(t[i + 2]))
}

proof fn lemma_collapse_no_double(s: Seq<char>)
    requires
        no_triple_dash(s),
    ensures
        collapse_double_dash(s).len() > 0 ==> s.len() > 0 && collapse_double_dash(s)[0] == s[0],
        no_double_dash(collapse_double_dash(s)),
    decreases s.len(),
{
    if s.len() >= 2 && s[0] == '-' && s[1] == '-' {
        let rest = s.skip(2);
        assert forall|i: int| 0 <= i && i + 2 < rest.len() implies !(#[trigger] rest[i] == '-'
            && rest[i + 1] == '-' && rest[i + 2] == '-') by {
            assert(rest[i] == s[i + 2] && rest[i + 1] == s[i + 3] && rest[i + 2] == s[i + 4]);
            assert(!(s[i + 2] == '-' && s[i + 3] == '-' && s[i + 4] == '-'));
        }
        lemma_collapse_no_double(rest);
        let c = collapse_double_dash(rest);
        let r = seq!['-'] + c;
        if c.len() > 0 {
            assert(s[2] != '-');
        }
        assert forall|i: int| 0 <= i && i + 1 < r.len() implies !(#[trigger] r[i] == '-' && r[i
            + 1] == '-') by {
            if i > 0 {
                assert(r[i] == c[i - 1] && r[i + 1] == c[i]);
                assert(!(c[i - 1] == '-' && c[i] == '-'));
            } else {
                assert(r[1] == c[0]);
            }
        }
    } else if s.len() > 0 {
        let rest = s.skip(1);
        assert forall|i: int| 0 <= i && i + 2 < rest.len() implies !(#[trigger] rest[i] == '-'
            && rest[i + 1] == '-' && rest[i + 2] == '-') by {
            assert(rest[i] == s[i + 1] && rest[i + 1] == s[i + 2] && rest[i + 2] == s[i + 3]);
            assert(!(s[i + 1] == '-' && s[i + 2] == '-' && s[i + 3] == '-'));
        }
        lemma_collapse_no_double(rest);
        let c = collapse_double_dash(rest);
        let r = seq![s[0]] + c;
        assert forall|i: int| 0 <= i && i + 1 < r.len() implies !(#[trigger] r[i] == '-' && r[i
            + 1] == '-') by {
            if i > 0 {
                assert(r[i] == c[i - 1] && r[i + 1] == c[i]);
                assert(!(c[i - 1] == '-' && c[i] == '-'));
            } else {
                assert(r[1] == c[0] && c[0] == s[1]);
            }
        }
    }
}

/// The export file name never holds `--` when the title has no three
/// characters in a row other than ASCII letters and digits: a title whose
/// words are parted by one mark and one space, such as `Fix: the bug`, has
/// its words joined by single dashes. The name always ends in `.md`.
pub proof fn law_plan_file_name_single_dashes(md: Seq<char>)
    requires
        plan_title(md) matches Some(t) ==> no_three_separators(t),
    ensures
        no_double_dash(plan_file_name(md)),
        plan_file_name(md).len() >= 3,
        plan_file_name(md).skip(plan_file_name(md).len() - 3) == ".md"@,
{
    reveal_strlit("plan");
    reveal_strlit(".md");
    let title = match plan_title(md) {
        Some(t) => t,
        None => "plan"@,
    };
    assert(no_three_separators(title)) by {
        if plan_title(md) is None {
            assert forall|i: int| 0 <= i && i + 2 < title.len() implies (text::is_ascii_alnum(
                #[trigger] title[i],
            ) || text::is_ascii_alnum(title[i + 1]) || text::is_ascii_alnum(title[i + 2])) by {
                assert(text::is_ascii_alnum(title[i]));
            }
        }
    }
    let slug = title.map_values(|c: char| slug_char(c));
    assert forall|i: int| 0 <= i < slug.len() implies (#[trigger] slug[i] == '-') == !text::is_ascii_alnum(
        title[i],
    ) by {
        let c = title[i];
        if text::is_ascii_alnum(c) {
            assert(text::lower_char(c) != '-');
        }
    }
    let a = prefix_count(slug, '-') as int;
    let tt = slug.skip(a);
    let b = suffix_count(tt, '-') as int;
    let trimmed = trim_dashes(slug);
    lemma_prefix_count_le(slug, '-');
    lemma_suffix_count_le(tt, '-');
    assert(trimmed == tt.take(tt.len() - b));
    assert forall|i: int| 0 <= i && i + 2 < trimmed.len() implies !(#[trigger] trimmed[i]
        == '-' && trimmed[i + 1] == '-' && trimmed[i + 2] == '-') by {
        assert(trimmed[i] == slug[a + i] && trimmed[i + 1] == slug[a + i + 1] && trimmed[i + 2]
            == slug[a + i + 2]);
    }
    lemma_collapse_no_double(trimmed);
    let stem = collapse_double_dash(trimmed);
    let head = if stem.len() == 0 {
        "plan"@
    } else {
        stem
    };
    let r = head + ".md"@;
    assert(r == plan_file_name(md));
    assert(no_double_dash(head));
    assert forall|i: int| 0 <= i && i + 1 < r.len() implies !(#[trigger] r[i] == '-' && r[i
        + 1] == '-') by {
        if i + 1 < head.len() {
            assert(r[i] == head[i] && r[i + 1] == head[i + 1]);
        } else {
            assert(r[i + 1] == ".md"@[i + 1 - head.len()]);
        }
    }
    assert(r.skip(r.len() - 3) =~= ".md"@);
}

proof fn lemma_prefix_count_le(s: Seq<char>, c: char)
    ensures
        prefix_count(s, c) <= s.len(),
        forall|i: int| 0 <= i < prefix_count(s, c) ==> s[i] == c,
    decreases s.len(),
{
    if s.len() > 0 && s[0] == c {
        lemma_prefix_count_le(s.drop_first(), c);
        assert forall|i: int| 0 <= i < prefix_count(s, c) implies s[i] == c by {
            if i > 0 {
                assert(s[i] == s.drop_first()[i - 1]);
            }
        }
    }
}

proof fn lemma_suffix_count_le(s: Seq<char>, c: char)
    ensures
        suffix_count(s, c) <= s.len(),
    decreases s.len(),
{
    if s.len() > 0 && s.last() == c {
        lemma_suffix_count_le(s.drop_last(), c);
    }
}

/// Number of lines among `ls` that hold something other than whitespace.
pub open spec fn count_nonblank(ls: Seq<Seq<char>>) -> nat
    decreases ls.len(),
{
    if ls.len() == 0 {
        0
    } else {
        (if text::is_blank(ls[0]) {
            0nat
        } else {
            1nat
        }) + count_nonblank(ls.drop_first())
    }
}

proof fn lemma_count_nonblank_front(ls: Seq<Seq<char>>, i: int, j: int)
    requires
        0 <= i < j <= ls.len(),
    ensures
        count_nonblank(ls.subrange(i, j)) == (if text::is_blank(ls[i]) {
            0nat
        } else {
            1nat
        }) + count_nonblank(ls.subrange(i + 1, j)),
{
    assert(ls.subrange(i, j).drop_first() =~= ls.subrange(i + 1, j));
}

proof fn lemma_collapse_lines_shape(ls: Seq<Seq<char>>, i: int, visible: nat)
    requires
        0 <= i <= ls.len(),
        visible <= 8,
    ensures
        visible + count_nonblank(ls.subrange(i, ls.len() as int)) <= 8 ==> collapse_lines(
            ls,
            i,
            visible,
        ) == ls.subrange(i, ls.len() as int),
        visible + count_nonblank(ls.subrange(i, ls.len() as int)) > 8 ==> exists|j: int|
            i <= j < ls.len() && !text::is_blank(ls[j]) && visible + count_nonblank(
                #[trigger] ls.subrange(i, j),
            ) == 8 && collapse_lines(ls, i, visible) == ls.subrange(i, j).push(seq!['\u{2026}']),
    decreases ls.len() - i,
{
    let n = ls.len() as int;
    if i == n {
        assert(ls.subrange(i, n) =~= Seq::<Seq<char>>::empty());
    } else {
        lemma_count_nonblank_front(ls, i, n);
        assert(ls.subrange(i, i) =~= Seq::<Seq<char>>::empty());
        let blank = text::is_blank(ls[i]);
        if !blank && visible >= 8 {
            assert(collapse_lines(ls, i, visible) =~= ls.subrange(i, i).push(seq!['\u{2026}']));
        } else {
            let v2: nat = if blank {
                visible
            } else {
                visible + 1
            };
            lemma_collapse_lines_shape(ls, i + 1, v2);
            assert(collapse_lines(ls, i, visible) == seq![ls[i]] + collapse_lines(ls, i + 1, v2));
            if visible + count_nonblank(ls.subrange(i, n)) <= 8 {
                assert(seq![ls[i]] + ls.subrange(i + 1, n) =~= ls.subrange(i, n));
            } else {
                let j = choose|j: int|
                    i + 1 <= j < ls.len() && !text::is_blank(ls[j]) && v2 + count_nonblank(
                        #[trigger] ls.subrange(i + 1, j),
                    ) == 8 && collapse_lines(ls, i + 1, v2) == ls.subrange(i + 1, j).push(
                        seq!['\u{2026}'],
                    );
                lemma_count_nonblank_front(ls, i, j);
                assert(seq![ls[i]] + ls.subrange(i + 1, j).push(seq!['\u{2026}'])
                    =~= ls.subrange(i, j).push(seq!['\u{2026}']));
            }
        }
    }
}

proof fn lemma_join_front(a: Seq<char>, rest: Seq<Seq<char>>, sep: Seq<char>)
    requires
        rest.len() > 0,
    ensures
        text::join(seq![a] + rest, sep) == a + sep + text::join(rest, sep),
    decreases rest.len(),
{
    let all = seq![a] + rest;
    assert(all.drop_last() =~= seq![a] + rest.drop_last());
    assert(all.last() == rest.last());
    if rest.len() == 1 {
        assert(rest.drop_last() =~= Seq::<Seq<char>>::empty());
        assert(seq![a] + rest.drop_last() =~= seq![a]);
        assert(text::join(seq![a], sep) == a);
        assert(text::join(rest, sep) == rest[0]);
    } else {
        lemma_join_front(a, rest.drop_last(), sep);
        assert(a + sep + text::join(rest.drop_last(), sep) + sep + rest.last() =~= a + sep + (
        text::join(rest.drop_last(), sep) + sep + rest.last()));
    }
}

proof fn lemma_lines_rejoin(s: Seq<char>, from: int)
    requires
        0 <= from < s.len(),
        forall|i: int| 0 <= i < s.len() ==> s[i] != '\r',
        s.last() != '\n',
    ensures
        text::join(text::lines_from(s, from), seq!['\n']) == s.subrange(from, s.len() as int),
    decreases s.len() - from,
{
    text::lemma_next_newline_bound(s, from);
    match text::next_newline(s, from) {
        None => {},
        Some(nl) => {
            let l = s.subrange(from, nl);
            if l.len() > 0 {
                assert(l.last() == s[nl - 1]);
            }
            assert(text::strip_cr(l) == l);
            lemma_lines_rejoin(s, nl + 1);
            let rest = text::lines_from(s, nl + 1);
            if rest.len() == 0 {
                assert(text::join(rest, seq!['\n']) =~= Seq::<char>::empty());
                assert(s.subrange(nl + 1, s.len() as int).len() > 0);
            }
            lemma_join_front(l, rest, seq!['\n']);
            assert(l + seq!['\n'] + s.subrange(nl + 1, s.len() as int) =~= s.subrange(
                from,
                s.len() as int,
            ));
        },
    }
}

/// The collapsed preview keeps a plan with at most eight non-blank lines
/// whole, however many blank lines it holds: its lines joined by `\n`,
/// which is the plan itself when it has no `\r` and does not end in a line
/// break. A longer plan is cut just before its ninth non-blank line: the
/// lines before the cut, holding exactly eight non-blank lines, then `…`.
pub proof fn law_collapsed_plan_counts_nonblank_lines(md: Seq<char>)
    ensures
        count_nonblank(text::lines(md)) <= 8 ==> collapsed_plan(md) == text::join(
            text::lines(md),
            seq!['\n'],
        ),
        count_nonblank(text::lines(md)) <= 8 && (forall|i: int|
            0 <= i < md.len() ==> md[i] != '\r') && (md.len() == 0 || md.last() != '\n')
            ==> collapsed_plan(md) == md,
        count_nonblank(text::lines(md)) > 8 ==> exists|j: int|
            0 <= j < text::lines(md).len() && !text::is_blank(text::lines(md)[j])
                && count_nonblank(#[trigger] text::lines(md).take(j)) == 8 && collapsed_plan(md)
                == text::join(text::lines(md).take(j).push(seq!['\u{2026}']), seq!['\n']),
{
    let ls = text::lines(md);
    assert(ls.subrange(0, ls.len() as int) =~= ls);
    lemma_collapse_lines_shape(ls, 0, 0);
    if count_nonblank(ls) <= 8 {
        if (forall|i: int| 0 <= i < md.len() ==> md[i] != '\r') && (md.len() == 0 || md.last()
            != '\n') {
            if md.len() > 0 {
                lemma_lines_rejoin(md, 0);
                assert(md.subrange(0, md.len() as int) =~= md);
            } else {
                assert(ls =~= Seq::<Seq<char>>::empty());
            }
        }
    } else {
        let j = choose|j: int|
            0 <= j < ls.len() && !text::is_blank(ls[j]) && count_nonblank(
                #[trigger] ls.subrange(0, j),
            ) == 8 && collapse_lines(ls, 0, 0) == ls.subrange(0, j).push(seq!['\u{2026}']);
        assert(ls.subrange(0, j) =~= ls.take(j));
    }
}

} // verus!
