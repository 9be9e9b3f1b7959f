//! Character-level helpers shared by the parsers: UTF-8 widths, the Unicode
//! whitespace class, and conversions between `&str`/`String` and `Vec<char>`.

use vstd::prelude::*;

verus! {

/// Number of bytes `c` takes in UTF-8.
pub open spec fn utf8_width(c: char) -> nat {
    let v = c as u32;
    if v < 0x80 {
        1
    } else if v < 0x800 {
        2
    } else if v < 0x10000 {
        3
    } else {
        4
    }
}

/// Number of bytes `s` takes in UTF-8.
pub open spec fn byte_len(s: Seq<char>) -> nat
    decreases s.len(),
{
    if s.len() == 0 {
        0
    } else {
        byte_len(s.drop_last()) + utf8_width(s.last())
    }
}

/// Unicode `White_Space`, the class `char::is_whitespace` tests.
pub open spec fn is_ws(c: char) -> bool {
    let v = c as u32;
    (0x09 <= v && v <= 0x0d) || v == 0x20 || v == 0x85 || v == 0xa0 || v == 0x1680 || (0x2000
        <= v && v <= 0x200a) || v == 0x2028 || v == 0x2029 || v == 0x202f || v == 0x205f || v
        == 0x3000
}

pub open spec fn is_ascii_alnum(c: char) -> bool {
    ('0' <= c && c <= '9') || ('a' <= c && c <= 'z') || ('A' <= c && c <= 'Z')
}

pub open spec fn lower_char(c: char) -> char {
    if 'A' <= c && c <= 'Z' {
        (((c as u32) + 32) as u8) as char
    } else {
        c
    }
}

pub open spec fn lower(s: Seq<char>) -> Seq<char> {
    s.map_values(|c: char| lower_char(c))
}

pub proof fn lemma_byte_len_take_step(s: Seq<char>, k: int)
    requires
        0 <= k < s.len(),
    ensures
        byte_len(s.take(k + 1)) == byte_len(s.take(k)) + utf8_width(s[k]),
{
    assert(s.take(k + 1).drop_last() =~= s.take(k));
}

pub proof fn lemma_byte_len_concat(a: Seq<char>, b: Seq<char>)
    ensures
        byte_len(a + b) == byte_len(a) + byte_len(b),
    decreases b.len(),
{
    if b.len() == 0 {
        assert(a + b =~= a);
    } else {
        assert((a + b).drop_last() =~= a + b.drop_last());
        lemma_byte_len_concat(a, b.drop_last());
    }
}

/// Taking more characters never shortens the encoding.
pub proof fn lemma_byte_len_take_mono(s: Seq<char>, i: int, j: int)
    requires
        0 <= i <= j <= s.len(),
    ensures
        byte_len(s.take(i)) <= byte_len(s.take(j)),
        i < j ==> byte_len(s.take(i)) < byte_len(s.take(j)),
    decreases j - i,
{
    if i < j {
        lemma_byte_len_take_step(s, j - 1);
        lemma_byte_len_take_mono(s, i, j - 1);
    }
}

/// The UTF-8 encoding vstd gives a string has exactly `byte_len` bytes.
pub proof fn lemma_encode_len(s: Seq<char>)
    ensures
        vstd::utf8::encode_utf8(s).len() == byte_len(s),
    decreases s.len(),
{
    if s.len() > 0 {
        let c = s[0];
        assert(vstd::utf8::is_scalar(c as u32)) by {
            vstd::utf8::char_is_scalar(c);
        }
        lemma_encode_len(s.drop_first());
        lemma_byte_len_concat(seq![c], s.drop_first());
        assert(seq![c] + s.drop_first() =~= s);
        assert(seq![c].drop_last() =~= Seq::<char>::empty());
        assert(seq![c].last() == c);
        assert(byte_len(Seq::<char>::empty()) == 0);
        assert(byte_len(seq![c]) == utf8_width(c));
        assert(vstd::utf8::encode_scalar(c as u32).len() == utf8_width(c));
        assert(vstd::utf8::encode_utf8(s) == vstd::utf8::encode_scalar(s[0] as u32)
            + vstd::utf8::encode_utf8(s.drop_first()));
    }
}

/// Number of leading whitespace characters of `s`.
pub open spec fn ws_prefix_len(s: Seq<char>) -> nat
    decreases s.len(),
{
    if s.len() > 0 && is_ws(s[0]) {
        1 + ws_prefix_len(s.drop_first())
    } else {
        0
    }
}

/// Number of trailing whitespace characters of `s`.
pub open spec fn ws_suffix_len(s: Seq<char>) -> nat
    decreases s.len(),
{
    if s.len() > 0 && is_ws(s.last()) {
        1 + ws_suffix_len(s.drop_last())
    } else {
        0
    }
}

/// `str::trim_start`.
pub open spec fn trim_start(s: Seq<char>) -> Seq<char> {
    s.skip(ws_prefix_len(s) as int)
}

/// `str::trim_end`.
pub open spec fn trim_end(s: Seq<char>) -> Seq<char> {
    s.take(s.len() - ws_suffix_len(s))
}

/// `str::trim`.
pub open spec fn trim(s: Seq<char>) -> Seq<char> {
    trim_end(trim_start(s))
}

/// Whether `s` is empty or only whitespace.
pub open spec fn is_blank(s: Seq<char>) -> bool {
    forall|i: int| 0 <= i < s.len() ==> is_ws(s[i])
}

/// `parts` joined with `sep` between consecutive parts.
pub open spec fn join(parts: Seq<Seq<char>>, sep: Seq<char>) -> Seq<char>
    decreases parts.len(),
{
    if parts.len() == 0 {
        seq![]
    } else if parts.len() == 1 {
        parts[0]
    } else {
        join(parts.drop_last(), sep) + sep + parts.last()
    }
}

/// One line as `str::lines` yields it: a `\r` before the line break is
/// dropped with it.
pub open spec fn strip_cr(l: Seq<char>) -> Seq<char> {
    if l.len() > 0 && l.last() == '\r' {
        l.drop_last()
    } else {
        l
    }
}

/// Index of the first `\n` at or after `from`.
pub open spec fn next_newline(s: Seq<char>, from: int) -> Option<int>
    decreases s.len() - from,
{
    if from < 0 || from >= s.len() {
        None
    } else if s[from] == '\n' {
        Some(from)
    } else {
        next_newline(s, from + 1)
    }
}

/// The lines of `s` from index `from` on, as `str::lines` splits them.
pub open spec fn lines_from(s: Seq<char>, from: int) -> Seq<Seq<char>>
    decreases s.len() - from,
{
    if from < 0 || from >= s.len() {
        seq![]
    } else {
        match next_newline(s, from) {
            None => seq![s.subrange(from, s.len() as int)],
            Some(nl) => if from <= nl < s.len() {
                seq![strip_cr(s.subrange(from, nl))] + lines_from(s, nl + 1)
            } else {
                seq![]
            },
        }
    }
}

/// `str::lines`.
pub open spec fn lines(s: Seq<char>) -> Seq<Seq<char>> {
    lines_from(s, 0)
}

pub proof fn lemma_next_newline_bound(s: Seq<char>, from: int)
    ensures
        next_newline(s, from) matches Some(i) ==> from <= i < s.len() && s[i] == '\n',
        next_newline(s, from) is None ==> forall|j: int|
            0 <= from <= j < s.len() ==> s[j] != '\n',
    decreases s.len() - from,
{
    if !(from < 0 || from >= s.len()) && s[from] != '\n' {
        lemma_next_newline_bound(s, from + 1);
    }
}

/// Start and end (exclusive) of each line of `v`, line breaks and the `\r`
/// before them excluded.
pub fn line_ranges(v: &Vec<char>) -> (r: Vec<(usize, usize)>)
    ensures
        r@.len() == lines(v@).len(),
        forall|i: int|
            #![trigger lines(v@)[i]]
            #![trigger r@[i]]
            0 <= i < r@.len() ==> (r@[i].0 <= r@[i].1 && r@[i].1 <= v@.len() && lines(v@)[i]
                == v@.subrange(r@[i].0 as int, r@[i].1 as int)),
{
    let mut r: Vec<(usize, usize)> = Vec::new();
    let mut start: usize = 0;
    let mut i: usize = 0;
    while i < v.len()
        invariant
            start <= i <= v@.len(),
            forall|j: int| start <= j < i ==> v@[j] != '\n',
            r@.len() + lines_from(v@, start as int).len() == lines(v@).len(),
            forall|j: int|
                #![trigger lines(v@)[j]]
                #![trigger r@[j]]
                0 <= j < r@.len() ==> (r@[j].0 <= r@[j].1 && r@[j].1 <= v@.len() && lines(v@)[j]
                    == v@.subrange(r@[j].0 as int, r@[j].1 as int)),
            forall|j: int|
                0 <= j < lines_from(v@, start as int).len() ==> #[trigger] lines(v@)[r@.len()
                    + j] == lines_from(v@, start as int)[j],
        decreases v@.len() - i,
    {
        if v[i] == '\n' {
            proof {
                lemma_next_newline_bound(v@, start as int);
                assert(next_newline(v@, start as int) == Some(i as int)) by {
                    lemma_next_newline_first(v@, start as int, i as int);
                }
            }
            let end = if i > start && v[i - 1] == '\r' {
                i - 1
            } else {
                i
            };
            assert(strip_cr(v@.subrange(start as int, i as int)) =~= v@.subrange(
                start as int,
                end as int,
            ));
            let ghost rest = lines_from(v@, start as int);
            assert(rest == seq![strip_cr(v@.subrange(start as int, i as int))] + lines_from(
                v@,
                i + 1,
            ));
            let ghost old_len: int = r@.len() as int;
            let ghost old_r = r@;
            assert(lines(v@)[old_len + 0] == rest[0]);
            r.push((start, end));
            assert(r@[old_len as int] == (start, end));
            assert forall|j: int| 0 <= j < lines_from(v@, i + 1).len() implies #[trigger] lines(
                v@,
            )[r@.len() + j] == lines_from(v@, i + 1)[j] by {
                assert(lines(v@)[old_len + (j + 1)] == rest[j + 1]);
                assert(old_len + (j + 1) == r@.len() + j);
            }
            assert forall|j: int| 0 <= j < r@.len() implies (r@[j].0 <= r@[j].1 && r@[j].1 <= v@.len()
                && #[trigger] lines(v@)[j] == v@.subrange(r@[j].0 as int, r@[j].1 as int)) by {
                if j == old_len {
                    assert(r@[j] == (start, end));
                    assert(r@[j].0 <= r@[j].1);
                    assert(r@[j].1 <= v@.len());
                    assert(lines(v@)[j] == rest[0]);
                    assert(rest[0] == strip_cr(v@.subrange(start as int, i as int)));
                    assert(lines(v@)[j] == v@.subrange(r@[j].0 as int, r@[j].1 as int));
                } else {
                    assert(r@[j] == old_r[j]);
                    assert(0 <= j < old_r.len());
                    assert(lines(v@)[j] == v@.subrange(old_r[j].0 as int, old_r[j].1 as int));
                }
            }
            start = i + 1;
        }
        i += 1;
    }
    if start < v.len() {
        proof {
            lemma_next_newline_bound(v@, start as int);
        }
        let ghost rest = lines_from(v@, start as int);
        assert(rest == seq![v@.subrange(start as int, v@.len() as int)]);
        let ghost old_len: int = r@.len() as int;
        let ghost old_r = r@;
        assert(lines(v@)[old_len + 0] == rest[0]);
        r.push((start, v.len()));
        assert forall|j: int| 0 <= j < r@.len() implies (r@[j].0 <= r@[j].1 && r@[j].1 <= v@.len()
            && #[trigger] lines(v@)[j] == v@.subrange(r@[j].0 as int, r@[j].1 as int)) by {
            if j == old_len {
                assert(r@[j] == (start, v@.len() as usize));
            } else {
                assert(r@[j] == old_r[j]);
                assert(0 <= j < old_r.len());
                assert(lines(v@)[j] == v@.subrange(old_r[j].0 as int, old_r[j].1 as int));
            }
        }
    } else {
        assert(lines_from(v@, start as int).len() == 0);
    }
    r
}

proof fn lemma_next_newline_first(s: Seq<char>, from: int, i: int)
    requires
        0 <= from <= i < s.len(),
        s[i] == '\n',
        forall|j: int| from <= j < i ==> s[j] != '\n',
    ensures
        next_newline(s, from) == Some(i),
    decreases i - from,
{
    if from < i {
        lemma_next_newline_first(s, from + 1, i);
    }
}

/// Start of `v[lo..hi]` after leading whitespace.
pub fn skip_ws_forward(v: &Vec<char>, lo: usize, hi: usize) -> (k: usize)
    requires
        lo <= hi <= v@.len(),
    ensures
        lo <= k <= hi,
        k - lo == ws_prefix_len(v@.subrange(lo as int, hi as int)),
{
    let mut k = lo;
    while k < hi && char_is_whitespace(v[k])
        invariant
            lo <= k <= hi <= v@.len(),
            ws_prefix_len(v@.subrange(lo as int, hi as int)) == (k - lo) + ws_prefix_len(
                v@.subrange(k as int, hi as int),
            ),
        decreases hi - k,
    {
        assert(v@.subrange(k as int, hi as int).drop_first() =~= v@.subrange(k + 1, hi as int));
        k += 1;
    }
    k
}

/// End of `v[lo..hi]` before trailing whitespace.
pub fn skip_ws_backward(v: &Vec<char>, lo: usize, hi: usize) -> (k: usize)
    requires
        lo <= hi <= v@.len(),
    ensures
        lo <= k <= hi,
        hi - k == ws_suffix_len(v@.subrange(lo as int, hi as int)),
{
    let mut k = hi;
    while k > lo && char_is_whitespace(v[k - 1])
        invariant
            lo <= k <= hi <= v@.len(),
            ws_suffix_len(v@.subrange(lo as int, hi as int)) == (hi - k) + ws_suffix_len(
                v@.subrange(lo as int, k as int),
            ),
        decreases k,
    {
        assert(v@.subrange(lo as int, k as int).drop_last() =~= v@.subrange(lo as int, k - 1));
        k -= 1;
    }
    k
}

/// `v[lo..hi]` trimmed, as a range.
pub fn trim_range(v: &Vec<char>, lo: usize, hi: usize) -> (r: (usize, usize))
    requires
        lo <= hi <= v@.len(),
    ensures
        lo <= r.0 <= r.1 <= hi,
        v@.subrange(r.0 as int, r.1 as int) == trim(v@.subrange(lo as int, hi as int)),
{
    let a = skip_ws_forward(v, lo, hi);
    let b = skip_ws_backward(v, a, hi);
    let ghost s = v@.subrange(lo as int, hi as int);
    assert(trim_start(s) =~= v@.subrange(a as int, hi as int));
    assert(v@.subrange(a as int, b as int) =~= trim_end(v@.subrange(a as int, hi as int)));
    (a, b)
}

pub proof fn lemma_join_push(parts: Seq<Seq<char>>, x: Seq<char>, sep: Seq<char>)
    ensures
        join(parts.push(x), sep) == if parts.len() == 0 {
            x
        } else {
            join(parts, sep) + sep + x
        },
{
    assert(parts.push(x).drop_last() =~= parts);
    if parts.len() == 0 {
        assert(parts.push(x) =~= seq![x]);
    }
}

pub fn push_range(out: &mut Vec<char>, v: &Vec<char>, lo: usize, hi: usize)
    requires
        lo <= hi <= v@.len(),
    ensures
        final(out)@ == old(out)@ + v@.subrange(lo as int, hi as int),
{
    let mut i = lo;
    while i < hi
        invariant
            lo <= i <= hi <= v@.len(),
            out@ == old(out)@ + v@.subrange(lo as int, i as int),
        decreases hi - i,
    {
        out.push(v[i]);
        assert(v@.subrange(lo as int, i + 1) =~= v@.subrange(lo as int, i as int).push(
            v@[i as int],
        ));
        i += 1;
    }
}

pub fn push_literal(out: &mut Vec<char>, lit: &str)
    ensures
        final(out)@ == old(out)@ + lit@,
{
    let l = chars_of(lit);
    push_range(out, &l, 0, l.len());
    assert(l@.subrange(0, l@.len() as int) =~= l@);
}

/// A `String` holding exactly the characters of `v`.
pub fn string_from(v: &Vec<char>) -> (s: String)
    ensures
        s@ == v@,
{
    let s = string_of(v, 0, v.len());
    assert(v@.subrange(0, v@.len() as int) =~= v@);
    s
}

pub fn lower_char_exec(c: char) -> (r: char)
    ensures
        r == lower_char(c),
{
    if 'A' <= c && c <= 'Z' {
        (((c as u32) + 32) as u8) as char
    } else {
        c
    }
}

/// Whether two strings hold the same characters.
pub fn str_eq(a: &str, b: &str) -> (r: bool)
    ensures
        r == (a@ == b@),
{
    let x = chars_of(a);
    let y = chars_of(b);
    if x.len() != y.len() {
        return false;
    }
    let mut i: usize = 0;
    while i < x.len()
        invariant
            x@ == a@,
            y@ == b@,
            x@.len() == y@.len(),
            i <= x@.len(),
            forall|j: int| 0 <= j < i ==> x@[j] == y@[j],
        decreases x@.len() - i,
    {
        if x[i] != y[i] {
            assert(x@[i as int] != y@[i as int]);
            return false;
        }
        i += 1;
    }
    assert(x@ =~= y@);
    true
}

pub open spec fn digit_char(d: nat) -> char {
    if d == 0 {
        '0'
    } else if d == 1 {
        '1'
    } else if d == 2 {
        '2'
    } else if d == 3 {
        '3'
    } else if d == 4 {
        '4'
    } else if d == 5 {
        '5'
    } else if d == 6 {
        '6'
    } else if d == 7 {
        '7'
    } else if d == 8 {
        '8'
    } else {
        '9'
    }
}

/// The decimal digits of `n`.
pub open spec fn decimal(n: nat) -> Seq<char>
    decreases n,
{
    if n < 10 {
        seq![digit_char(n)]
    } else {
        decimal(n / 10) + seq![digit_char(n % 10)]
    }
}

/// A signed integer in decimal, with `-` for negatives.
pub open spec fn signed_decimal(n: int) -> Seq<char> {
    if n < 0 {
        seq!['-'] + decimal((-n) as nat)
    } else {
        decimal(n as nat)
    }
}

fn digit_exec(d: u64) -> (c: char)
    requires
        d < 10,
    ensures
        c == digit_char(d as nat),
{
    if d == 0 {
        '0'
    } else if d == 1 {
        '1'
    } else if d == 2 {
        '2'
    } else if d == 3 {
        '3'
    } else if d == 4 {
        '4'
    } else if d == 5 {
        '5'
    } else if d == 6 {
        '6'
    } else if d == 7 {
        '7'
    } else if d == 8 {
        '8'
    } else {
        '9'
    }
}

/// Append the decimal digits of `n`.
pub fn push_decimal(out: &mut Vec<char>, n: u64)
    ensures
        final(out)@ == old(out)@ + decimal(n as nat),
    decreases n,
{
    if n < 10 {
        out.push(digit_exec(n));
    } else {
        push_decimal(out, n / 10);
        out.push(digit_exec(n % 10));
        assert(final(out)@ =~= old(out)@ + decimal(n as nat));
    }
}

/// Append `n` in decimal, with `-` for negatives.
pub fn push_signed_decimal(out: &mut Vec<char>, n: i64)
    ensures
        final(out)@ == old(out)@ + signed_decimal(n as int),
{
    if n < 0 {
        out.push('-');
        let m: u64 = if n == i64::MIN {
            9223372036854775808u64
        } else {
            (-n) as u64
        };
        push_decimal(out, m);
        assert(final(out)@ =~= old(out)@ + signed_decimal(n as int));
    } else {
        push_decimal(out, n as u64);
    }
}

/// `n` in decimal.
pub fn decimal_string(n: u64) -> (s: String)
    ensures
        s@ == decimal(n as nat),
{
    let mut v: Vec<char> = Vec::new();
    push_decimal(&mut v, n);
    assert(v@ =~= decimal(n as nat));
    string_from(&v)
}

/// Index of `p` in `paths`, if present.
pub fn position_of(paths: &Vec<String>, p: &str) -> (r: Option<usize>)
    ensures
        match r {
            Some(i) => i < paths@.len() && paths@[i as int]@ == p@,
            None => forall|i: int| 0 <= i < paths@.len() ==> paths@[i]@ != p@,
        },
{
    let mut i: usize = 0;
    while i < paths.len()
        invariant
            i <= paths@.len(),
            forall|j: int| 0 <= j < i ==> paths@[j]@ != p@,
        decreases paths@.len() - i,
    {
        if str_eq(paths[i].as_str(), p) {
            return Some(i);
        }
        i += 1;
    }
    None
}

/// `p` is one of the strings of `list`.
pub open spec fn is_member(list: Seq<String>, p: Seq<char>) -> bool {
    exists|i: int| 0 <= i < list.len() && list[i]@ == p
}

/// No string is listed twice.
pub open spec fn distinct(list: Seq<String>) -> bool {
    forall|i: int, j: int|
        0 <= i < list.len() && 0 <= j < list.len() && i != j ==> list[i]@ != list[j]@
}

/// Remove `path` if listed, else add it.
pub fn toggle_member(list: &mut Vec<String>, path: &str)
    requires
        distinct(old(list)@),
    ensures
        distinct(final(list)@),
        is_member(final(list)@, path@) == !is_member(old(list)@, path@),
        forall|q: Seq<char>|
            q != path@ ==> is_member(final(list)@, q) == is_member(
                old(list)@,
                q,
            ),
{
    match position_of(list, path) {
        Some(i) => {
            let ghost before = list@;
            list.remove(i);
            assert forall|q: Seq<char>| #[trigger]
                is_member(list@, q) == (is_member(before, q) && q != path@) by {
                if is_member(list@, q) {
                    let k = choose|k: int| 0 <= k < list@.len() && list@[k]@ == q;
                    if k < i {
                        assert(before[k]@ == q);
                    } else {
                        assert(before[k + 1]@ == q);
                    }
                }
                if is_member(before, q) && q != path@ {
                    let k = choose|k: int| 0 <= k < before.len() && before[k]@ == q;
                    if k < i {
                        assert(list@[k]@ == q);
                    } else {
                        assert(k != i);
                        assert(list@[k - 1]@ == q);
                    }
                }
            }
            assert(!is_member(list@, path@));
        },
        None => {
            let ghost before = list@;
            list.push(string_from(&chars_of(path)));
            assert(list@[before.len() as int]@ == path@);
            assert forall|q: Seq<char>| #[trigger]
                is_member(list@, q) == (is_member(before, q) || q == path@) by {
                if is_member(before, q) {
                    let k = choose|k: int| 0 <= k < before.len() && before[k]@ == q;
                    assert(list@[k]@ == q);
                }
                if is_member(list@, q) {
                    let k = choose|k: int| 0 <= k < list@.len() && list@[k]@ == q;
                    if k < before.len() {
                        assert(before[k]@ == q);
                    }
                }
            }
        },
    }
}

/// Lexicographic order of character sequences (the order `str::cmp` gives
/// valid UTF-8 text).
pub open spec fn seq_lt(a: Seq<char>, b: Seq<char>) -> bool
    decreases a.len(),
{
    if a.len() == 0 {
        b.len() > 0
    } else if b.len() == 0 {
        false
    } else if a[0] != b[0] {
        (a[0] as int) < (b[0] as int)
    } else {
        seq_lt(a.drop_first(), b.drop_first())
    }
}

pub proof fn lemma_seq_lt_irreflexive(a: Seq<char>)
    ensures
        !seq_lt(a, a),
    decreases a.len(),
{
    if a.len() > 0 {
        lemma_seq_lt_irreflexive(a.drop_first());
    }
}

pub proof fn lemma_seq_lt_transitive(a: Seq<char>, b: Seq<char>, c: Seq<char>)
    requires
        seq_lt(a, b),
        seq_lt(b, c),
    ensures
        seq_lt(a, c),
    decreases a.len(),
{
    if a.len() > 0 && b.len() > 0 && c.len() > 0 && a[0] == b[0] && b[0] == c[0] {
        lemma_seq_lt_transitive(a.drop_first(), b.drop_first(), c.drop_first());
    }
}

pub proof fn lemma_seq_lt_total(a: Seq<char>, b: Seq<char>)
    requires
        a != b,
    ensures
        seq_lt(a, b) || seq_lt(b, a),
    decreases a.len(),
{
    if a.len() == 0 {
        assert(b.len() > 0) by {
            if b.len() == 0 {
                assert(a =~= b);
            }
        }
    } else if b.len() > 0 && a[0] == b[0] {
        if a.drop_first() == b.drop_first() {
            assert(a =~= seq![a[0]] + a.drop_first());
            assert(b =~= seq![b[0]] + b.drop_first());
        }
        lemma_seq_lt_total(a.drop_first(), b.drop_first());
    } else if b.len() > 0 {
        assert((a[0] as int) != (b[0] as int));
    }
}

proof fn lemma_seq_lt_skip(a: Seq<char>, b: Seq<char>, i: int)
    requires
        0 <= i <= a.len(),
        i <= b.len(),
        a.take(i) =~= b.take(i),
    ensures
        seq_lt(a, b) == seq_lt(a.skip(i), b.skip(i)),
    decreases i,
{
    if i > 0 {
        assert(a[0] == a.take(i)[0]);
        assert(b[0] == b.take(i)[0]);
        assert(a.drop_first().take(i - 1) =~= b.drop_first().take(i - 1)) by {
            assert forall|k: int| 0 <= k < i - 1 implies a.drop_first()[k] == b.drop_first()[k] by {
                assert(a.take(i)[k + 1] == b.take(i)[k + 1]);
            }
        }
        lemma_seq_lt_skip(a.drop_first(), b.drop_first(), i - 1);
        assert(a.drop_first().skip(i - 1) =~= a.skip(i));
        assert(b.drop_first().skip(i - 1) =~= b.skip(i));
    } else {
        assert(a.skip(0) =~= a);
        assert(b.skip(0) =~= b);
    }
}

/// `a < b` for strings.
pub fn str_less(a: &str, b: &str) -> (r: bool)
    ensures
        r == seq_lt(a@, b@),
{
    let x = chars_of(a);
    let y = chars_of(b);
    let mut i: usize = 0;
    while i < x.len() && i < y.len() && x[i] == y[i]
        invariant
            i <= x@.len(),
            i <= y@.len(),
            x@ == a@,
            y@ == b@,
            x@.take(i as int) =~= y@.take(i as int),
        decreases x@.len() - i,
    {
        assert(x@.take(i + 1) =~= x@.take(i as int).push(x@[i as int]));
        assert(y@.take(i + 1) =~= y@.take(i as int).push(y@[i as int]));
        i += 1;
    }
    proof {
        lemma_seq_lt_skip(x@, y@, i as int);
    }
    if i == x.len() {
        i < y.len()
    } else if i == y.len() {
        false
    } else {
        assert(x@.skip(i as int)[0] == x@[i as int]);
        assert(y@.skip(i as int)[0] == y@[i as int]);
        x[i] < y[i]
    }
}

/// The string holds no characters.
pub fn str_is_empty(s: &str) -> (b: bool)
    ensures
        b == (s@.len() == 0),
{
    chars_of(s).len() == 0
}

/// `char::len_utf8`.
pub fn char_len_utf8(c: char) -> (n: usize)
    ensures
        n == utf8_width(c),
{
    let v = c as u32;
    if v < 0x80 {
        1
    } else if v < 0x800 {
        2
    } else if v < 0x10000 {
        3
    } else {
        4
    }
}

/// `char::is_whitespace`.
pub fn char_is_whitespace(c: char) -> (b: bool)
    ensures
        b == is_ws(c),
{
    let v = c as u32;
    (0x09 <= v && v <= 0x0d) || v == 0x20 || v == 0x85 || v == 0xa0 || v == 0x1680 || (0x2000
        <= v && v <= 0x200a) || v == 0x2028 || v == 0x2029 || v == 0x202f || v == 0x205f || v
        == 0x3000
}

pub fn char_is_ascii_alnum(c: char) -> (b: bool)
    ensures
        b == is_ascii_alnum(c),
{
    ('0' <= c && c <= '9') || ('a' <= c && c <= 'z') || ('A' <= c && c <= 'Z')
}

/// The characters of `s`, in order.
pub fn chars_of(s: &str) -> (v: Vec<char>)
    ensures
        v@ == s@,
{
    let mut v: Vec<char> = Vec::new();
    for c in it: s.chars()
        invariant
            v@ == it.seq().take(it.index() as int),
            it.seq() == s@,
    {
        v.push(c);
    }
    v
}

/// `String::push`: append one character.
#[verifier::external_body]
fn string_push(s: &mut String, c: char)
    ensures
        final(s)@ == old(s)@.push(c),
{
    s.push(c);
}

/// A `String` holding `v[lo..hi]`.
pub fn string_of(v: &[char], lo: usize, hi: usize) -> (s: String)
    requires
        lo <= hi <= v@.len(),
    ensures
        s@ == v@.subrange(lo as int, hi as int),
{
    let mut s = String::new();
    let mut i = lo;
    while i < hi
        invariant
            lo <= i <= hi <= v@.len(),
            s@ == v@.subrange(lo as int, i as int),
        decreases hi - i,
    {
        string_push(&mut s, v[i]);
        assert(v@.subrange(lo as int, i + 1) =~= v@.subrange(lo as int, i as int).push(v@[i as int]));
        i += 1;
    }
    s
}

/// Append the characters of `t` to `s`.
pub fn push_str(s: &mut String, t: &str)
    ensures
        final(s)@ == old(s)@ + t@,
{
    let ghost start = s@;
    for c in it: t.chars()
        invariant
            s@ == start + it.seq().take(it.index() as int),
            it.seq() == t@,
    {
        string_push(s, c);
    }
    assert(t@.take(t@.len() as int) =~= t@);
}

/// Byte length of `v[..k]`, computed.
pub fn byte_len_prefix(v: &[char], k: usize) -> (n: usize)
    requires
        k <= v@.len(),
        byte_len(v@.take(k as int)) <= usize::MAX,
    ensures
        n == byte_len(v@.take(k as int)),
{
    let mut n: usize = 0;
    let mut i: usize = 0;
    while i < k
        invariant
            i <= k <= v@.len(),
            byte_len(v@.take(k as int)) <= usize::MAX,
            n == byte_len(v@.take(i as int)),
        decreases k - i,
    {
        proof {
            lemma_byte_len_take_step(v@, i as int);
            lemma_byte_len_take_mono(v@, i + 1, k as int);
        }
        n = n + char_len_utf8(v[i]);
        i += 1;
    }
    n
}

/// An optional string as an optional character sequence.
pub open spec fn opt_seq(s: Option<String>) -> Option<Seq<char>> {
    match s {
        Some(x) => Some(x@),
        None => None,
    }
}

} // verus!
