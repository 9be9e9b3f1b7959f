//! Diff panel layout: the virtualized rows a parsed patch renders as, the
//! side-by-side pairing of a hunk's lines, header count labels, and the
//! gutter-selection coordinates of review comments.

use vstd::prelude::*;

use crate::text;

verus! {

#[derive(Clone, Copy, PartialEq, Eq, Debug, Structural)]
pub enum PatchLineKind {
    Context,
    Add,
    Del,
}

/// One line of a hunk with its old/new line numbers.
#[derive(Clone, Debug, PartialEq, Eq)]
pub struct PatchLine {
    pub kind: PatchLineKind,
    pub content: String,
    pub old_line: Option<u32>,
    pub new_line: Option<u32>,
}

pub struct PatchHunk {
    pub lines: Vec<PatchLine>,
}

/// A parsed file of a patch.
pub struct PatchFile {
    /// The path the panel shows and keys collapse state by.
    pub display_path: String,
    pub binary: bool,
    pub hunks: Vec<PatchHunk>,
}

/// One virtualized row of the diff body. Indices point into the files, a
/// file's hunks and lines, or the raw-patch lines.
#[derive(Debug, Clone, Copy, PartialEq, Eq, Structural)]
pub enum DiffRow {
    File { file: usize },
    Binary { file: usize },
    Separator { gap: u32 },
    Line { file: usize, hunk: usize, line: usize },
    SplitLine { file: usize, hunk: usize, left: Option<usize>, right: Option<usize> },
    RawLine { line: usize },
    /// Review-comment annotations anchored under the row carrying this
    /// side-qualified line number.
    Annotation { file: usize, deletions: bool, line: u32 },
}

pub open spec fn kinds_of(lines: Seq<PatchLine>) -> Seq<PatchLineKind> {
    lines.map_values(|l: PatchLine| l.kind)
}

/// End of the run of `k` lines starting at `i`.
pub open spec fn run_end(kinds: Seq<PatchLineKind>, k: PatchLineKind, i: int) -> int
    decreases kinds.len() - i,
{
    if 0 <= i < kinds.len() && kinds[i] == k {
        run_end(kinds, k, i + 1)
    } else {
        i
    }
}

pub open spec fn max(a: int, b: int) -> int {
    if a >= b {
        a
    } else {
        b
    }
}

/// The split rows pairing deletions `ds..de` with additions `as_..ae` by
/// position.
pub open spec fn zip_rows(file: usize, hunk: usize, ds: int, de: int, as_: int, ae: int) -> Seq<
    DiffRow,
> {
    Seq::new(
        max(de - ds, ae - as_) as nat,
        |k: int|
            DiffRow::SplitLine {
                file,
                hunk,
                left: if k < de - ds {
                    Some((ds + k) as usize)
                } else {
                    None
                },
                right: if k < ae - as_ {
                    Some((as_ + k) as usize)
                } else {
                    None
                },
            },
    )
}

/// Split rows for the lines from `i` on: context lines mirror themselves;
/// each change segment zips its deletions against its additions.
pub open spec fn split_rows_from(
    file: usize,
    hunk: usize,
    kinds: Seq<PatchLineKind>,
    i: int,
) -> Seq<DiffRow>
    decreases kinds.len() - i,
{
    if i < 0 || i >= kinds.len() {
        seq![]
    } else if kinds[i] == PatchLineKind::Context {
        seq![DiffRow::SplitLine { file, hunk, left: Some(i as usize), right: Some(i as usize) }]
            + split_rows_from(file, hunk, kinds, i + 1)
    } else {
        let d = run_end(kinds, PatchLineKind::Del, i);
        let a = run_end(kinds, PatchLineKind::Add, d);
        if i < a <= kinds.len() {
            zip_rows(file, hunk, i, d, d, a) + split_rows_from(file, hunk, kinds, a)
        } else {
            seq![]
        }
    }
}

proof fn lemma_run_end_bound(kinds: Seq<PatchLineKind>, k: PatchLineKind, i: int)
    requires
        0 <= i <= kinds.len(),
    ensures
        i <= run_end(kinds, k, i) <= kinds.len(),
        forall|j: int| i <= j < run_end(kinds, k, i) ==> kinds[j] == k,
        run_end(kinds, k, i) < kinds.len() ==> kinds[run_end(kinds, k, i)] != k,
    decreases kinds.len() - i,
{
    if i < kinds.len() && kinds[i] == k {
        lemma_run_end_bound(kinds, k, i + 1);
    }
}

/// Pair a hunk's deletion/addition runs side by side: context rows mirror
/// themselves, each change segment zips its deletions against its
/// additions by position.
pub fn split_hunk_rows(file: usize, hunk: usize, lines: &[PatchLine]) -> (rows: Vec<DiffRow>)
    ensures
        rows@ == split_rows_from(file, hunk, kinds_of(lines@), 0),
{
    let ghost kinds = kinds_of(lines@);
    let mut rows: Vec<DiffRow> = Vec::new();
    let mut index: usize = 0;
    while index < lines.len()
        invariant
            index <= lines@.len(),
            kinds == kinds_of(lines@),
            rows@ + split_rows_from(file, hunk, kinds, index as int) == split_rows_from(
                file,
                hunk,
                kinds,
                0,
            ),
        decreases lines@.len() - index,
    {
        let ghost before = rows@;
        if lines[index].kind == PatchLineKind::Context {
            rows.push(
                DiffRow::SplitLine { file, hunk, left: Some(index), right: Some(index) },
            );
            assert(rows@ + split_rows_from(file, hunk, kinds, index + 1) =~= before
                + split_rows_from(file, hunk, kinds, index as int));
            index += 1;
            continue;
        }
        let start = index;
        while index < lines.len() && lines[index].kind == PatchLineKind::Del
            invariant
                start <= index <= lines@.len(),
                kinds == kinds_of(lines@),
                run_end(kinds, PatchLineKind::Del, start as int) == run_end(
                    kinds,
                    PatchLineKind::Del,
                    index as int,
                ),
            decreases lines@.len() - index,
        {
            index += 1;
        }
        let d = index;
        while index < lines.len() && lines[index].kind == PatchLineKind::Add
            invariant
                d <= index <= lines@.len(),
                kinds == kinds_of(lines@),
                run_end(kinds, PatchLineKind::Add, d as int) == run_end(
                    kinds,
                    PatchLineKind::Add,
                    index as int,
                ),
            decreases lines@.len() - index,
        {
            index += 1;
        }
        let a = index;
        proof {
            lemma_run_end_bound(kinds, PatchLineKind::Del, start as int);
            lemma_run_end_bound(kinds, PatchLineKind::Add, d as int);
        }
        assert(start < a);
        let n = if d - start >= a - d {
            d - start
        } else {
            a - d
        };
        let mut pair: usize = 0;
        while pair < n
            invariant
                pair <= n,
                n == max(d - start, a - d),
                start <= d <= a <= lines@.len(),
                rows@ == before + zip_rows(file, hunk, start as int, d as int, d as int, a as int).take(
                    pair as int,
                ),
            decreases n - pair,
        {
            let left = if pair < d - start {
                Some(start + pair)
            } else {
                None
            };
            let right = if pair < a - d {
                Some(d + pair)
            } else {
                None
            };
            rows.push(DiffRow::SplitLine { file, hunk, left, right });
            assert(zip_rows(file, hunk, start as int, d as int, d as int, a as int).take(pair + 1)
                =~= zip_rows(file, hunk, start as int, d as int, d as int, a as int).take(
                pair as int,
            ).push(DiffRow::SplitLine { file, hunk, left, right }));
            pair += 1;
        }
        assert(zip_rows(file, hunk, start as int, d as int, d as int, a as int).take(n as int)
            =~= zip_rows(file, hunk, start as int, d as int, d as int, a as int));
        assert(rows@ + split_rows_from(file, hunk, kinds, a as int) =~= before + split_rows_from(
            file,
            hunk,
            kinds,
            start as int,
        ));
    }
    assert(rows@ + Seq::<DiffRow>::empty() =~= rows@);
    rows
}

/// The line indices shown in the left (deletions/context) column, in order.
pub open spec fn left_column(rows: Seq<DiffRow>) -> Seq<int>
    decreases rows.len(),
{
    if rows.len() == 0 {
        seq![]
    } else {
        (match rows[0] {
            DiffRow::SplitLine { left: Some(l), .. } => seq![l as int],
            _ => seq![],
        }) + left_column(rows.drop_first())
    }
}

/// The line indices shown in the right (additions/context) column, in order.
pub open spec fn right_column(rows: Seq<DiffRow>) -> Seq<int>
    decreases rows.len(),
{
    if rows.len() == 0 {
        seq![]
    } else {
        (match rows[0] {
            DiffRow::SplitLine { right: Some(r), .. } => seq![r as int],
            _ => seq![],
        }) + right_column(rows.drop_first())
    }
}

/// Indices `i..end` of lines that are not of kind `k`, in order.
pub open spec fn indices_except(kinds: Seq<PatchLineKind>, k: PatchLineKind, i: int, end: int) -> Seq<
    int,
>
    decreases end - i,
{
    if i >= end {
        seq![]
    } else {
        (if kinds[i] != k {
            seq![i]
        } else {
            seq![]
        }) + indices_except(kinds, k, i + 1, end)
    }
}

proof fn lemma_columns_concat(a: Seq<DiffRow>, b: Seq<DiffRow>)
    ensures
        left_column(a + b) == left_column(a) + left_column(b),
        right_column(a + b) == right_column(a) + right_column(b),
    decreases a.len(),
{
    if a.len() == 0 {
        assert(a + b =~= b);
    } else {
        assert((a + b).drop_first() =~= a.drop_first() + b);
        lemma_columns_concat(a.drop_first(), b);
        assert(left_column(a + b) =~= left_column(a) + left_column(b));
        assert(right_column(a + b) =~= right_column(a) + right_column(b));
    }
}

proof fn lemma_indices_concat(kinds: Seq<PatchLineKind>, k: PatchLineKind, i: int, m: int, end: int)
    requires
        i <= m <= end,
    ensures
        indices_except(kinds, k, i, end) == indices_except(kinds, k, i, m) + indices_except(
            kinds,
            k,
            m,
            end,
        ),
    decreases m - i,
{
    if i < m {
        lemma_indices_concat(kinds, k, i + 1, m, end);
        assert(indices_except(kinds, k, i, end) =~= indices_except(kinds, k, i, m)
            + indices_except(kinds, k, m, end));
    } else {
        assert(indices_except(kinds, k, i, m) =~= Seq::<int>::empty());
        assert(indices_except(kinds, k, i, end) =~= Seq::<int>::empty() + indices_except(
            kinds,
            k,
            m,
            end,
        ));
    }
}

/// Every index in `i..end` has kind `k`: none is listed.
proof fn lemma_indices_all_k(kinds: Seq<PatchLineKind>, k: PatchLineKind, i: int, end: int)
    requires
        forall|j: int| i <= j < end ==> kinds[j] == k,
    ensures
        indices_except(kinds, k, i, end) == Seq::<int>::empty(),
    decreases end - i,
{
    if i < end {
        lemma_indices_all_k(kinds, k, i + 1, end);
        assert(indices_except(kinds, k, i, end) =~= Seq::<int>::empty());
    }
}

/// No index in `i..end` has kind `k`: all are listed.
proof fn lemma_indices_none_k(kinds: Seq<PatchLineKind>, k: PatchLineKind, i: int, end: int)
    requires
        i <= end,
        forall|j: int| i <= j < end ==> kinds[j] != k,
    ensures
        indices_except(kinds, k, i, end) == Seq::new((end - i) as nat, |j: int| i + j),
    decreases end - i,
{
    if i < end {
        lemma_indices_none_k(kinds, k, i + 1, end);
        assert(indices_except(kinds, k, i, end) =~= Seq::new((end - i) as nat, |j: int| i + j));
    } else {
        assert(indices_except(kinds, k, i, end) =~= Seq::new((end - i) as nat, |j: int| i + j));
    }
}

proof fn lemma_column_single(row: DiffRow)
    ensures
        left_column(seq![row]) == (match row {
            DiffRow::SplitLine { left: Some(l), .. } => seq![l as int],
            _ => seq![],
        }),
        right_column(seq![row]) == (match row {
            DiffRow::SplitLine { right: Some(r), .. } => seq![r as int],
            _ => seq![],
        }),
{
    assert(seq![row].drop_first() =~= Seq::<DiffRow>::empty());
    assert(left_column(Seq::<DiffRow>::empty()) == Seq::<int>::empty());
    assert(right_column(Seq::<DiffRow>::empty()) == Seq::<int>::empty());
    assert(seq![row][0] == row);
    assert(left_column(seq![row]) =~= (match row {
        DiffRow::SplitLine { left: Some(l), .. } => seq![l as int],
        _ => seq![],
    }));
    assert(right_column(seq![row]) =~= (match row {
        DiffRow::SplitLine { right: Some(r), .. } => seq![r as int],
        _ => seq![],
    }));
}

proof fn lemma_zip_columns(file: usize, hunk: usize, ds: int, de: int, as_: int, ae: int, n: nat)
    requires
        0 <= ds <= de,
        0 <= as_ <= ae,
        de <= usize::MAX,
        ae <= usize::MAX,
        n <= max(de - ds, ae - as_),
    ensures
        left_column(zip_rows(file, hunk, ds, de, as_, ae).take(n as int)) == Seq::new(
            if n < de - ds {
                n
            } else {
                (de - ds) as nat
            },
            |j: int| ds + j,
        ),
        right_column(zip_rows(file, hunk, ds, de, as_, ae).take(n as int)) == Seq::new(
            if n < ae - as_ {
                n
            } else {
                (ae - as_) as nat
            },
            |j: int| as_ + j,
        ),
    decreases n,
{
    let z = zip_rows(file, hunk, ds, de, as_, ae);
    if n > 0 {
        lemma_zip_columns(file, hunk, ds, de, as_, ae, (n - 1) as nat);
        assert(z.take(n as int) =~= z.take(n - 1) + seq![z[n - 1]]);
        lemma_columns_concat(z.take(n - 1), seq![z[n - 1]]);
        lemma_column_single(z[n - 1]);
        if n - 1 < de - ds {
            assert(((ds + n - 1) as usize) as int == ds + n - 1);
        }
        if n - 1 < ae - as_ {
            assert(((as_ + n - 1) as usize) as int == as_ + n - 1);
        }
        assert(left_column(z.take(n as int)) =~= Seq::new(
            if n < de - ds {
                n
            } else {
                (de - ds) as nat
            },
            |j: int| ds + j,
        ));
        assert(right_column(z.take(n as int)) =~= Seq::new(
            if n < ae - as_ {
                n
            } else {
                (ae - as_) as nat
            },
            |j: int| as_ + j,
        ));
    } else {
        assert(z.take(0) =~= Seq::<DiffRow>::empty());
        assert(left_column(z.take(0)) =~= Seq::new(0, |j: int| ds + j));
        assert(right_column(z.take(0)) =~= Seq::new(0, |j: int| as_ + j));
    }
}

proof fn lemma_split_columns(file: usize, hunk: usize, kinds: Seq<PatchLineKind>, i: int)
    requires
        0 <= i <= kinds.len(),
        kinds.len() <= usize::MAX,
    ensures
        left_column(split_rows_from(file, hunk, kinds, i)) == indices_except(
            kinds,
            PatchLineKind::Add,
            i,
            kinds.len() as int,
        ),
        right_column(split_rows_from(file, hunk, kinds, i)) == indices_except(
            kinds,
            PatchLineKind::Del,
            i,
            kinds.len() as int,
        ),
    decreases kinds.len() - i,
{
    let len = kinds.len() as int;
    if i >= len {
        assert(split_rows_from(file, hunk, kinds, i) =~= Seq::<DiffRow>::empty());
    } else if kinds[i] == PatchLineKind::Context {
        let row = DiffRow::SplitLine {
            file,
            hunk,
            left: Some(i as usize),
            right: Some(i as usize),
        };
        lemma_split_columns(file, hunk, kinds, i + 1);
        lemma_columns_concat(seq![row], split_rows_from(file, hunk, kinds, i + 1));
        lemma_column_single(row);
        assert((i as usize) as int == i);
    } else {
        let d = run_end(kinds, PatchLineKind::Del, i);
        let a = run_end(kinds, PatchLineKind::Add, d);
        lemma_run_end_bound(kinds, PatchLineKind::Del, i);
        lemma_run_end_bound(kinds, PatchLineKind::Add, d);
        let z = zip_rows(file, hunk, i, d, d, a);
        lemma_split_columns(file, hunk, kinds, a);
        lemma_columns_concat(z, split_rows_from(file, hunk, kinds, a));
        lemma_zip_columns(file, hunk, i, d, d, a, max(d - i, a - d) as nat);
        assert(z.take(max(d - i, a - d)) =~= z);
        // left column: deletions i..d, then nothing from the additions d..a
        lemma_indices_concat(kinds, PatchLineKind::Add, i, d, len);
        lemma_indices_concat(kinds, PatchLineKind::Add, d, a, len);
        lemma_indices_none_k(kinds, PatchLineKind::Add, i, d);
        lemma_indices_all_k(kinds, PatchLineKind::Add, d, a);
        // right column: nothing from the deletions, then additions d..a
        lemma_indices_concat(kinds, PatchLineKind::Del, i, d, len);
        lemma_indices_concat(kinds, PatchLineKind::Del, d, a, len);
        lemma_indices_all_k(kinds, PatchLineKind::Del, i, d);
        lemma_indices_none_k(kinds, PatchLineKind::Del, d, a);
        assert(left_column(z) =~= Seq::new((d - i) as nat, |j: int| i + j));
        assert(right_column(z) =~= Seq::new((a - d) as nat, |j: int| d + j));
        assert(left_column(split_rows_from(file, hunk, kinds, i)) =~= indices_except(
            kinds,
            PatchLineKind::Add,
            i,
            len,
        ));
        assert(right_column(split_rows_from(file, hunk, kinds, i)) =~= indices_except(
            kinds,
            PatchLineKind::Del,
            i,
            len,
        ));
    }
}

/// The split layout shows every line once, in order: the left column lists
/// exactly the lines that are not additions, the right column exactly the
/// lines that are not deletions.
pub proof fn law_split_rows_cover_each_side(file: usize, hunk: usize, lines: Seq<PatchLine>)
    requires
        lines.len() <= usize::MAX,
    ensures
        left_column(split_rows_from(file, hunk, kinds_of(lines), 0)) == indices_except(
            kinds_of(lines),
            PatchLineKind::Add,
            0,
            lines.len() as int,
        ),
        right_column(split_rows_from(file, hunk, kinds_of(lines), 0)) == indices_except(
            kinds_of(lines),
            PatchLineKind::Del,
            0,
            lines.len() as int,
        ),
{
    lemma_split_columns(file, hunk, kinds_of(lines), 0);
}

/// The header count labels: `-D` shows when `D > 0 || A == 0`, `+A` when
/// `A > 0 || D == 0`; a pure addition shows only `+A`, a pure deletion only
/// `-D`, and a file without changes shows both zeros.
pub fn count_labels(additions: usize, deletions: usize) -> (r: (Option<String>, Option<String>))
    ensures
        match r.0 {
            Some(l) => (deletions > 0 || additions == 0) && l@ == seq!['-'] + text::decimal(
                deletions as nat,
            ),
            None => !(deletions > 0 || additions == 0),
        },
        match r.1 {
            Some(l) => (additions > 0 || deletions == 0) && l@ == seq!['+'] + text::decimal(
                additions as nat,
            ),
            None => !(additions > 0 || deletions == 0),
        },
{
    let del = if deletions > 0 || additions == 0 {
        let mut v: Vec<char> = Vec::new();
        v.push('-');
        text::push_decimal(&mut v, deletions as u64);
        Some(text::string_from(&v))
    } else {
        None
    };
    let add = if additions > 0 || deletions == 0 {
        let mut v: Vec<char> = Vec::new();
        v.push('+');
        text::push_decimal(&mut v, additions as u64);
        Some(text::string_from(&v))
    } else {
        None
    };
    (del, add)
}

/// Total lines of the first `n` hunks.
pub open spec fn lines_before(hunks: Seq<PatchHunk>, n: int) -> int
    decreases n,
{
    if n <= 0 || hunks.len() == 0 {
        0
    } else if n > hunks.len() {
        lines_before(hunks, hunks.len() as int)
    } else {
        lines_before(hunks, n - 1) + hunks[n - 1].lines@.len()
    }
}

/// Flattened review row index of line `line_ix` of hunk `hunk_ix`.
pub open spec fn flat_index(file: PatchFile, hunk_ix: int, line_ix: int) -> int {
    lines_before(file.hunks@, hunk_ix) + line_ix
}

/// The flattened review-row index of a hunk line: the lines of all earlier
/// hunks, plus the line's index in its hunk.
pub fn flat_row_index(file: &PatchFile, hunk_ix: usize, line_ix: usize) -> (r: usize)
    requires
        flat_index(*file, hunk_ix as int, line_ix as int) <= usize::MAX,
    ensures
        r == flat_index(*file, hunk_ix as int, line_ix as int),
{
    let n = if hunk_ix < file.hunks.len() {
        hunk_ix
    } else {
        file.hunks.len()
    };
    proof {
        lemma_lines_before_mono(file.hunks@, n as int);
        if hunk_ix > file.hunks.len() {
            assert(lines_before(file.hunks@, hunk_ix as int) == lines_before(
                file.hunks@,
                file.hunks@.len() as int,
            ));
        }
    }
    let mut total: usize = 0;
    let mut h: usize = 0;
    while h < n
        invariant
            h <= n <= file.hunks@.len(),
            total == lines_before(file.hunks@, h as int),
            lines_before(file.hunks@, n as int) + line_ix <= usize::MAX,
            forall|a: int, b: int|
                0 <= a <= b <= n ==> lines_before(file.hunks@, a) <= lines_before(
                    file.hunks@,
                    b,
                ),
        decreases n - h,
    {
        assert(lines_before(file.hunks@, h + 1) == total + file.hunks@[h as int].lines@.len());
        total = total + file.hunks[h].lines.len();
        h += 1;
    }
    total + line_ix
}

proof fn lemma_lines_before_mono(hunks: Seq<PatchHunk>, n: int)
    requires
        0 <= n <= hunks.len(),
    ensures
        forall|a: int, b: int|
            0 <= a <= b <= n ==> lines_before(hunks, a) <= lines_before(hunks, b),
    decreases n,
{
    if n > 0 {
        lemma_lines_before_mono(hunks, n - 1);
        assert forall|a: int, b: int| 0 <= a <= b <= n implies lines_before(hunks, a)
            <= lines_before(hunks, b) by {
            if b == n && a < n {
                assert(lines_before(hunks, n) == lines_before(hunks, n - 1)
                    + hunks[n - 1].lines@.len());
            }
        }
    }
}

pub open spec fn has_anchor(anchors: Seq<(usize, bool, u32)>, a: (usize, bool, u32)) -> bool {
    exists|i: int| 0 <= i < anchors.len() && anchors[i] == a
}

/// Annotation rows anchored under `line`: a deletion's old number on the
/// deletions side, any line's new number on the additions side.
pub open spec fn line_annotations(
    anchors: Seq<(usize, bool, u32)>,
    file: usize,
    line: PatchLine,
) -> Seq<DiffRow> {
    (match line.old_line {
        Some(o) => if line.kind == PatchLineKind::Del && has_anchor(anchors, (file, true, o)) {
            seq![DiffRow::Annotation { file, deletions: true, line: o }]
        } else {
            seq![]
        },
        None => seq![],
    }) + (match line.new_line {
        Some(n) => if has_anchor(anchors, (file, false, n)) {
            seq![DiffRow::Annotation { file, deletions: false, line: n }]
        } else {
            seq![]
        },
        None => seq![],
    })
}

fn contains_anchor(anchors: &[(usize, bool, u32)], a: (usize, bool, u32)) -> (b: bool)
    ensures
        b == has_anchor(anchors@, a),
{
    let mut i: usize = 0;
    while i < anchors.len()
        invariant
            i <= anchors@.len(),
            forall|j: int| 0 <= j < i ==> anchors@[j] != a,
        decreases anchors@.len() - i,
    {
        let x = anchors[i];
        if x.0 == a.0 && x.1 == a.1 && x.2 == a.2 {
            return true;
        }
        i += 1;
    }
    false
}

/// Push the annotation rows anchored under `line`.
pub fn push_line_annotations(
    rows: &mut Vec<DiffRow>,
    anchors: &[(usize, bool, u32)],
    file: usize,
    line: &PatchLine,
)
    ensures
        final(rows)@ == old(rows)@ + line_annotations(anchors@, file, *line),
{
    let ghost start = rows@;
    if line.kind == PatchLineKind::Del {
        if let Some(old) = line.old_line {
            if contains_anchor(anchors, (file, true, old)) {
                rows.push(DiffRow::Annotation { file, deletions: true, line: old });
            }
        }
    }
    let ghost mid = rows@;
    if let Some(new) = line.new_line {
        if contains_anchor(anchors, (file, false, new)) {
            rows.push(DiffRow::Annotation { file, deletions: false, line: new });
        }
    }
    assert(rows@ =~= start + line_annotations(anchors@, file, *line));
}

/// An in-flight gutter drag over one file: anchor and head are flattened
/// review-row indices.
#[derive(Clone, Copy, Debug)]
pub struct GutterDrag {
    pub file: usize,
    pub anchor: usize,
    pub head: usize,
}

/// Whether the active drag covers the row of line `line_ix` of hunk
/// `hunk_ix` in file `file_ix`.
pub fn row_in_drag_selection(
    drag: Option<GutterDrag>,
    files: &[PatchFile],
    file_ix: usize,
    hunk_ix: usize,
    line_ix: usize,
) -> (b: bool)
    requires
        file_ix < files@.len() ==> flat_index(files@[file_ix as int], hunk_ix as int, line_ix as int)
            <= usize::MAX,
    ensures
        b == match drag {
            Some(d) => d.file == file_ix && file_ix < files@.len() && {
                let flat = flat_index(files@[file_ix as int], hunk_ix as int, line_ix as int);
                (if d.anchor <= d.head {
                    d.anchor
                } else {
                    d.head
                }) <= flat <= (if d.anchor <= d.head {
                    d.head
                } else {
                    d.anchor
                })
            },
            None => false,
        },
{
    match drag {
        Some(d) => {
            if d.file != file_ix || file_ix >= files.len() {
                return false;
            }
            let flat = flat_row_index(&files[file_ix], hunk_ix, line_ix);
            let lo = if d.anchor <= d.head {
                d.anchor
            } else {
                d.head
            };
            let hi = if d.anchor <= d.head {
                d.head
            } else {
                d.anchor
            };
            lo <= flat && flat <= hi
        },
        None => false,
    }
}

pub open spec fn contains_path(paths: Seq<String>, p: Seq<char>) -> bool {
    exists|i: int| 0 <= i < paths.len() && paths[i]@ == p
}

/// Unified rows of the first `n` lines of a hunk, each followed by its
/// annotations.
pub open spec fn unified_rows_upto(
    f: usize,
    h: usize,
    lines: Seq<PatchLine>,
    anchors: Seq<(usize, bool, u32)>,
    n: int,
) -> Seq<DiffRow>
    decreases n,
{
    if n <= 0 {
        seq![]
    } else {
        unified_rows_upto(f, h, lines, anchors, n - 1) + seq![
            DiffRow::Line { file: f, hunk: h, line: (n - 1) as usize },
        ] + line_annotations(anchors, f, lines[n - 1])
    }
}

/// Annotations under a split row: the left line's, then the right line's
/// when it is another line.
pub open spec fn split_row_annotations(
    anchors: Seq<(usize, bool, u32)>,
    f: usize,
    lines: Seq<PatchLine>,
    row: DiffRow,
) -> Seq<DiffRow> {
    match row {
        DiffRow::SplitLine { left, right, .. } => (match left {
            Some(l) => if l < lines.len() {
                line_annotations(anchors, f, lines[l as int])
            } else {
                seq![]
            },
            None => seq![],
        }) + (match right {
            Some(r) => if right != left && r < lines.len() {
                line_annotations(anchors, f, lines[r as int])
            } else {
                seq![]
            },
            None => seq![],
        }),
        _ => seq![],
    }
}

pub open spec fn split_rows_upto(
    f: usize,
    lines: Seq<PatchLine>,
    anchors: Seq<(usize, bool, u32)>,
    srows: Seq<DiffRow>,
    n: int,
) -> Seq<DiffRow>
    decreases n,
{
    if n <= 0 || n > srows.len() {
        seq![]
    } else {
        split_rows_upto(f, lines, anchors, srows, n - 1) + seq![srows[n - 1]]
            + split_row_annotations(anchors, f, lines, srows[n - 1])
    }
}

pub open spec fn hunk_body(
    f: usize,
    h: usize,
    lines: Seq<PatchLine>,
    anchors: Seq<(usize, bool, u32)>,
    split: bool,
) -> Seq<DiffRow> {
    if split {
        let srows = split_rows_from(f, h, kinds_of(lines), 0);
        split_rows_upto(f, lines, anchors, srows, srows.len() as int)
    } else {
        unified_rows_upto(f, h, lines, anchors, lines.len() as int)
    }
}

/// Rows of the first `n` hunks of file `f`, each after a separator when
/// unchanged lines are hidden before it.
pub open spec fn hunks_upto(
    f: usize,
    hunks: Seq<PatchHunk>,
    gaps: Seq<u32>,
    anchors: Seq<(usize, bool, u32)>,
    split: bool,
    n: int,
) -> Seq<DiffRow>
    decreases n,
{
    if n <= 0 || n > hunks.len() {
        seq![]
    } else {
        hunks_upto(f, hunks, gaps, anchors, split, n - 1) + (if gaps[n - 1] > 0 {
            seq![DiffRow::Separator { gap: gaps[n - 1] }]
        } else {
            seq![]
        }) + hunk_body(f, (n - 1) as usize, hunks[n - 1].lines@, anchors, split)
    }
}

/// A file's header row, then (unless collapsed) its binary note or hunks.
pub open spec fn file_rows(
    f: usize,
    file: PatchFile,
    gaps: Seq<u32>,
    collapsed: Seq<String>,
    anchors: Seq<(usize, bool, u32)>,
    split: bool,
) -> Seq<DiffRow> {
    seq![DiffRow::File { file: f }] + if contains_path(collapsed, file.display_path@) {
        seq![]
    } else if file.binary {
        seq![DiffRow::Binary { file: f }]
    } else {
        hunks_upto(f, file.hunks@, gaps, anchors, split, file.hunks@.len() as int)
    }
}

pub open spec fn files_upto(
    files: Seq<PatchFile>,
    gaps: Seq<Vec<u32>>,
    collapsed: Seq<String>,
    anchors: Seq<(usize, bool, u32)>,
    split: bool,
    n: int,
) -> Seq<DiffRow>
    decreases n,
{
    if n <= 0 || n > files.len() {
        seq![]
    } else {
        files_upto(files, gaps, collapsed, anchors, split, n - 1) + file_rows(
            (n - 1) as usize,
            files[n - 1],
            gaps[n - 1]@,
            collapsed,
            anchors,
            split,
        )
    }
}

/// The rows of the diff body: every raw line when the patch could not be
/// parsed, else each file's rows in order.
pub open spec fn diff_rows(
    raw_lines: Option<usize>,
    files: Seq<PatchFile>,
    gaps: Seq<Vec<u32>>,
    collapsed: Seq<String>,
    anchors: Seq<(usize, bool, u32)>,
    split: bool,
) -> Seq<DiffRow> {
    match raw_lines {
        Some(n) => Seq::new(n as nat, |l: int| DiffRow::RawLine { line: l as usize }),
        None => files_upto(files, gaps, collapsed, anchors, split, files.len() as int),
    }
}

fn contains_path_exec(paths: &[String], p: &String) -> (b: bool)
    ensures
        b == contains_path(paths@, p@),
{
    let mut i: usize = 0;
    while i < paths.len()
        invariant
            i <= paths@.len(),
            forall|j: int| 0 <= j < i ==> paths@[j]@ != p@,
        decreases paths@.len() - i,
    {
        if text::str_eq(paths[i].as_str(), p.as_str()) {
            return true;
        }
        i += 1;
    }
    false
}

fn push_hunk_body(
    rows: &mut Vec<DiffRow>,
    f: usize,
    h: usize,
    lines: &Vec<PatchLine>,
    anchors: &[(usize, bool, u32)],
    split: bool,
)
    ensures
        final(rows)@ == old(rows)@ + hunk_body(f, h, lines@, anchors@, split),
{
    let ghost start = rows@;
    if split {
        let srows = split_hunk_rows(f, h, lines.as_slice());
        let mut k: usize = 0;
        while k < srows.len()
            invariant
                k <= srows@.len(),
                srows@ == split_rows_from(f, h, kinds_of(lines@), 0),
                rows@ == start + split_rows_upto(f, lines@, anchors@, srows@, k as int),
            decreases srows@.len() - k,
        {
            let row = srows[k];
            rows.push(row);
            let ghost mid = rows@;
            if let DiffRow::SplitLine { left, right, .. } = row {
                if let Some(l) = left {
                    if l < lines.len() {
                        push_line_annotations(rows, anchors, f, &lines[l]);
                    }
                }
                let ghost mid2 = rows@;
                if let Some(r) = right {
                    let same = match left {
                        Some(l) => l == r,
                        None => false,
                    };
                    if !same && r < lines.len() {
                        push_line_annotations(rows, anchors, f, &lines[r]);
                    }
                }
            }
            assert(rows@ =~= start + split_rows_upto(f, lines@, anchors@, srows@, k + 1));
            k += 1;
        }
    } else {
        let mut l: usize = 0;
        while l < lines.len()
            invariant
                l <= lines@.len(),
                rows@ == start + unified_rows_upto(f, h, lines@, anchors@, l as int),
            decreases lines@.len() - l,
        {
            rows.push(DiffRow::Line { file: f, hunk: h, line: l });
            push_line_annotations(rows, anchors, f, &lines[l]);
            assert(rows@ =~= start + unified_rows_upto(f, h, lines@, anchors@, l + 1));
            l += 1;
        }
    }
}

/// The rows of the diff body, built the way the panel lays them out: raw
/// lines for an unparseable patch; otherwise per file a header row, then,
/// unless the file is collapsed, a binary note or its hunks (a separator
/// before a hunk with hidden unchanged lines, unified or split line rows,
/// and review-comment annotations under their anchor lines).
/// `gaps[f][h]` is the number of unchanged lines hidden before hunk `h`.
pub fn build_diff_rows(
    raw_lines: Option<usize>,
    files: &[PatchFile],
    gaps: &[Vec<u32>],
    collapsed: &[String],
    anchors: &[(usize, bool, u32)],
    split: bool,
) -> (rows: Vec<DiffRow>)
    requires
        gaps@.len() == files@.len(),
        forall|f: int| 0 <= f < files@.len() ==> #[trigger] gaps@[f]@.len() == files@[f].hunks@.len(),
    ensures
        rows@ == diff_rows(raw_lines, files@, gaps@, collapsed@, anchors@, split),
{
    let mut rows: Vec<DiffRow> = Vec::new();
    match raw_lines {
        Some(n) => {
            let mut l: usize = 0;
            while l < n
                invariant
                    l <= n,
                    rows@ == Seq::new(l as nat, |j: int| DiffRow::RawLine { line: j as usize }),
                decreases n - l,
            {
                rows.push(DiffRow::RawLine { line: l });
                assert(rows@ =~= Seq::new((l + 1) as nat, |j: int| DiffRow::RawLine { line: j as usize }));
                l += 1;
            }
            return rows;
        },
        None => {},
    }
    let mut f: usize = 0;
    while f < files.len()
        invariant
            f <= files@.len(),
            gaps@.len() == files@.len(),
            forall|g: int| 0 <= g < files@.len() ==> #[trigger] gaps@[g]@.len() == files@[g].hunks@.len(),
            rows@ == files_upto(files@, gaps@, collapsed@, anchors@, split, f as int),
        decreases files@.len() - f,
    {
        let ghost before = rows@;
        let file = &files[f];
        rows.push(DiffRow::File { file: f });
        if contains_path_exec(collapsed, &file.display_path) {
        } else if file.binary {
            rows.push(DiffRow::Binary { file: f });
        } else {
            let ghost head = rows@;
            let file_gaps = &gaps[f];
            assert(file_gaps@.len() == file.hunks@.len());
            let mut h: usize = 0;
            while h < file.hunks.len()
                invariant
                    h <= file.hunks@.len(),
                    file_gaps@.len() == file.hunks@.len(),
                    rows@ == head + hunks_upto(f, file.hunks@, file_gaps@, anchors@, split, h as int),
                decreases file.hunks@.len() - h,
            {
                let gap = file_gaps[h];
                if gap > 0 {
                    rows.push(DiffRow::Separator { gap });
                }
                push_hunk_body(&mut rows, f, h, &file.hunks[h].lines, anchors, split);
                assert(rows@ =~= head + hunks_upto(f, file.hunks@, file_gaps@, anchors@, split, h + 1));
                h += 1;
            }
        }
        assert(rows@ =~= before + file_rows(f, *file, gaps@[f as int]@, collapsed@, anchors@, split));
        f += 1;
    }
    rows
}

} // verus!
