//! Markdown tables copied as CSV (RFC 4180 quoting of the cells that need
//! it).

use vstd::prelude::*;

use crate::text;

verus! {

/// The header row and body rows of a rendered markdown table.
pub struct TableData {
    pub headers: Vec<String>,
    pub rows: Vec<Vec<String>>,
}

pub open spec fn needs_quotes(c: char) -> bool {
    c == ',' || c == '"' || c == '\n' || c == '\r'
}

/// `s` with every `"` doubled.
pub open spec fn double_quotes(s: Seq<char>) -> Seq<char>
    decreases s.len(),
{
    if s.len() == 0 {
        seq![]
    } else {
        double_quotes(s.drop_last()) + if s.last() == '"' {
            seq!['"', '"']
        } else {
            seq![s.last()]
        }
    }
}

/// One CSV cell: quoted, with inner quotes doubled, when it holds a comma,
/// a quote or a line break.
pub open spec fn csv_cell(s: Seq<char>) -> Seq<char> {
    if exists|i: int| 0 <= i < s.len() && needs_quotes(s[i]) {
        seq!['"'] + double_quotes(s) + seq!['"']
    } else {
        s
    }
}

pub open spec fn csv_row(cells: Seq<String>) -> Seq<char> {
    text::join(cells.map_values(|c: String| csv_cell(c@)), seq![','])
}

/// Header row then body rows, one CSV record per line.
pub open spec fn csv_table(headers: Seq<String>, rows: Seq<Vec<String>>) -> Seq<char> {
    text::join(
        seq![csv_row(headers)] + rows.map_values(|r: Vec<String>| csv_row(r@)),
        seq!['\n'],
    )
}

/// The state of an RFC 4180 reader: the finished records, the current
/// record's finished fields, the current field, and where the reader is
/// (0 outside quotes, 1 inside quotes, 2 just after a quote inside quotes).
pub type CsvState = (Seq<Seq<Seq<char>>>, Seq<Seq<char>>, Seq<char>, int);

/// Read one character: records end at an unquoted line break, fields at an
/// unquoted comma; a field that starts with `"` is quoted, and `""` inside
/// quotes reads as `"`.
pub open spec fn csv_step(st: CsvState, ch: char) -> CsvState {
    let (r, f, c, m) = st;
    if m == 1 {
        if ch == '"' {
            (r, f, c, 2)
        } else {
            (r, f, c.push(ch), 1)
        }
    } else if m == 2 && ch == '"' {
        (r, f, c.push('"'), 1)
    } else if ch == ',' {
        (r, f.push(c), seq![], 0)
    } else if ch == '\n' {
        (r.push(f.push(c)), seq![], seq![], 0)
    } else if m == 0 && ch == '"' && c.len() == 0 {
        (r, f, c, 1)
    } else {
        (r, f, c.push(ch), 0)
    }
}

pub open spec fn csv_fold(st: CsvState, s: Seq<char>) -> CsvState
    decreases s.len(),
{
    if s.len() == 0 {
        st
    } else {
        csv_step(csv_fold(st, s.drop_last()), s.last())
    }
}

/// CSV text read as RFC 4180 records of fields.
pub open spec fn parse_csv(s: Seq<char>) -> Seq<Seq<Seq<char>>> {
    let e = csv_fold((seq![], seq![], seq![], 0), s);
    e.0.push(e.1.push(e.2))
}

pub open spec fn cells_view(cells: Seq<String>) -> Seq<Seq<char>> {
    cells.map_values(|c: String| c@)
}

pub open spec fn records_view(rs: Seq<Seq<String>>) -> Seq<Seq<Seq<char>>> {
    rs.map_values(|cs: Seq<String>| cells_view(cs))
}

proof fn lemma_fold_concat(st: CsvState, a: Seq<char>, b: Seq<char>)
    ensures
        csv_fold(st, a + b) == csv_fold(csv_fold(st, a), b),
    decreases b.len(),
{
    if b.len() == 0 {
        assert(a + b =~= a);
    } else {
        assert((a + b).drop_last() =~= a + b.drop_last());
        assert((a + b).last() == b.last());
        lemma_fold_concat(st, a, b.drop_last());
    }
}

proof fn lemma_fold_one(st: CsvState, ch: char)
    ensures
        csv_fold(st, seq![ch]) == csv_step(st, ch),
{
    assert(seq![ch].drop_last() =~= Seq::<char>::empty());
    assert(csv_fold(st, Seq::<char>::empty()) == st);
}

proof fn lemma_plain_cell(r: Seq<Seq<Seq<char>>>, f: Seq<Seq<char>>, x: Seq<char>, c: Seq<char>)
    requires
        forall|i: int| 0 <= i < c.len() ==> !needs_quotes(#[trigger] c[i]),
    ensures
        csv_fold((r, f, x, 0), c) == (r, f, x + c, 0int),
    decreases c.len(),
{
    if c.len() == 0 {
        assert(x + c =~= x);
    } else {
        lemma_plain_cell(r, f, x, c.drop_last());
        assert(!needs_quotes(c[c.len() - 1]));
        assert((x + c.drop_last()).push(c.last()) =~= x + c);
    }
}

proof fn lemma_quoted_body(r: Seq<Seq<Seq<char>>>, f: Seq<Seq<char>>, x: Seq<char>, c: Seq<char>)
    ensures
        csv_fold((r, f, x, 1), double_quotes(c)) == (r, f, x + c, 1int),
    decreases c.len(),
{
    if c.len() == 0 {
        assert(x + c =~= x);
    } else {
        let d = c.drop_last();
        lemma_quoted_body(r, f, x, d);
        let tail = if c.last() == '"' {
            seq!['"', '"']
        } else {
            seq![c.last()]
        };
        lemma_fold_concat((r, f, x, 1), double_quotes(d), tail);
        assert((x + d).push(c.last()) =~= x + c);
        if c.last() == '"' {
            assert(tail =~= seq!['"'] + seq!['"']);
            lemma_fold_concat((r, f, x + d, 1), seq!['"'], seq!['"']);
            lemma_fold_one((r, f, x + d, 1), '"');
            lemma_fold_one((r, f, x + d, 2), '"');
        } else {
            lemma_fold_one((r, f, x + d, 1), c.last());
        }
    }
}

proof fn lemma_cell(r: Seq<Seq<Seq<char>>>, f: Seq<Seq<char>>, c: Seq<char>)
    ensures
        csv_fold((r, f, seq![], 0), csv_cell(c)).0 == r,
        csv_fold((r, f, seq![], 0), csv_cell(c)).1 == f,
        csv_fold((r, f, seq![], 0), csv_cell(c)).2 == c,
        csv_fold((r, f, seq![], 0), csv_cell(c)).3 == 0 || csv_fold((r, f, seq![], 0), csv_cell(
            c,
        )).3 == 2,
{
    if exists|i: int| 0 <= i < c.len() && needs_quotes(c[i]) {
        let open = seq!['"'];
        lemma_fold_concat((r, f, seq![], 0), open + double_quotes(c), seq!['"']);
        lemma_fold_concat((r, f, seq![], 0), open, double_quotes(c));
        lemma_fold_one((r, f, seq![], 0), '"');
        assert(csv_fold((r, f, seq![], 0), open) == (r, f, Seq::<char>::empty(), 1int));
        lemma_quoted_body(r, f, seq![], c);
        assert(Seq::<char>::empty() + c =~= c);
        lemma_fold_one((r, f, c, 1), '"');
    } else {
        lemma_plain_cell(r, f, seq![], c);
        assert(Seq::<char>::empty() + c =~= c);
    }
}

pub open spec fn row_text(cells: Seq<String>) -> Seq<char> {
    text::join(cells.map_values(|c: String| csv_cell(c@)), seq![','])
}

proof fn lemma_row(r: Seq<Seq<Seq<char>>>, f: Seq<Seq<char>>, cells: Seq<String>)
    requires
        cells.len() > 0,
    ensures
        csv_fold((r, f, seq![], 0), row_text(cells)).0 == r,
        csv_fold((r, f, seq![], 0), row_text(cells)).1 == f + cells_view(cells.drop_last()),
        csv_fold((r, f, seq![], 0), row_text(cells)).2 == cells.last()@,
        csv_fold((r, f, seq![], 0), row_text(cells)).3 == 0 || csv_fold(
            (r, f, seq![], 0),
            row_text(cells),
        ).3 == 2,
    decreases cells.len(),
{
    let parts = cells.map_values(|c: String| csv_cell(c@));
    if cells.len() == 1 {
        assert(row_text(cells) == parts[0]);
        lemma_cell(r, f, cells[0]@);
        assert(cells_view(cells.drop_last()) =~= Seq::<Seq<char>>::empty());
        assert(f + Seq::<Seq<char>>::empty() =~= f);
    } else {
        let d = cells.drop_last();
        assert(parts.drop_last() =~= d.map_values(|c: String| csv_cell(c@)));
        assert(row_text(cells) == row_text(d) + seq![','] + csv_cell(cells.last()@));
        lemma_row(r, f, d);
        let mid = csv_fold((r, f, seq![], 0), row_text(d));
        lemma_fold_concat((r, f, seq![], 0), row_text(d) + seq![','], csv_cell(cells.last()@));
        lemma_fold_concat((r, f, seq![], 0), row_text(d), seq![',']);
        lemma_fold_one(mid, ',');
        let after = csv_fold(mid, seq![',']);
        assert(after == (r, (f + cells_view(d.drop_last())).push(d.last()@), Seq::<char>::empty(), 0int));
        assert((f + cells_view(d.drop_last())).push(d.last()@) =~= f + cells_view(d));
        lemma_cell(r, f + cells_view(d), cells.last()@);
    }
}

pub open spec fn records_text(all: Seq<Seq<String>>) -> Seq<char> {
    text::join(all.map_values(|cs: Seq<String>| row_text(cs)), seq!['\n'])
}

proof fn lemma_records(all: Seq<Seq<String>>)
    requires
        all.len() > 0,
        forall|i: int| 0 <= i < all.len() ==> (#[trigger] all[i]).len() > 0,
    ensures
        csv_fold((seq![], seq![], seq![], 0), records_text(all)).0 == records_view(all.drop_last()),
        csv_fold((seq![], seq![], seq![], 0), records_text(all)).1 == cells_view(
            all.last().drop_last(),
        ),
        csv_fold((seq![], seq![], seq![], 0), records_text(all)).2 == all.last().last()@,
        csv_fold((seq![], seq![], seq![], 0), records_text(all)).3 == 0 || csv_fold(
            (seq![], seq![], seq![], 0),
            records_text(all),
        ).3 == 2,
    decreases all.len(),
{
    let init: CsvState = (seq![], seq![], seq![], 0);
    let parts = all.map_values(|cs: Seq<String>| row_text(cs));
    if all.len() == 1 {
        assert(records_text(all) == parts[0]);
        lemma_row(seq![], seq![], all[0]);
        assert(records_view(all.drop_last()) =~= Seq::<Seq<Seq<char>>>::empty());
        assert(Seq::<Seq<char>>::empty() + cells_view(all[0].drop_last()) =~= cells_view(
            all[0].drop_last(),
        ));
    } else {
        let d = all.drop_last();
        assert(parts.drop_last() =~= d.map_values(|cs: Seq<String>| row_text(cs)));
        assert(records_text(all) == records_text(d) + seq!['\n'] + row_text(all.last()));
        assert forall|i: int| 0 <= i < d.len() implies (#[trigger] d[i]).len() > 0 by {
            assert(d[i] == all[i]);
        }
        lemma_records(d);
        let mid = csv_fold(init, records_text(d));
        lemma_fold_concat(init, records_text(d) + seq!['\n'], row_text(all.last()));
        lemma_fold_concat(init, records_text(d), seq!['\n']);
        lemma_fold_one(mid, '\n');
        let after = csv_fold(mid, seq!['\n']);
        assert(cells_view(d.last().drop_last()).push(d.last().last()@) =~= cells_view(d.last())) by {
            assert(d.last().drop_last().push(d.last().last()) =~= d.last());
        }
        assert(records_view(d.drop_last()).push(cells_view(d.last())) =~= records_view(d));
        assert(after == (records_view(d), Seq::<Seq<char>>::empty(), Seq::<char>::empty(), 0int));
        assert(all.last().len() > 0);
        lemma_row(records_view(d), seq![], all.last());
        assert(Seq::<Seq<char>>::empty() + cells_view(all.last().drop_last()) =~= cells_view(
            all.last().drop_last(),
        ));
    }
}

/// Reading the CSV text back as RFC 4180 gives the table: the header row,
/// then each body row, cell for cell (every row having at least one cell).
pub proof fn law_csv_reads_back(headers: Seq<String>, rows: Seq<Vec<String>>)
    requires
        headers.len() > 0,
        forall|i: int| 0 <= i < rows.len() ==> (#[trigger] rows[i])@.len() > 0,
    ensures
        parse_csv(csv_table(headers, rows)) == seq![cells_view(headers)] + rows.map_values(
            |r: Vec<String>| cells_view(r@),
        ),
{
    let all = seq![headers] + rows.map_values(|r: Vec<String>| r@);
    assert(seq![csv_row(headers)] + rows.map_values(|r: Vec<String>| csv_row(r@)) =~= all.map_values(
        |cs: Seq<String>| row_text(cs),
    ));
    assert(csv_table(headers, rows) == records_text(all));
    assert forall|i: int| 0 <= i < all.len() implies (#[trigger] all[i]).len() > 0 by {
        if i > 0 {
            assert(all[i] == rows[i - 1]@);
        }
    }
    lemma_records(all);
    let last = all.last();
    assert(cells_view(last.drop_last()).push(last.last()@) =~= cells_view(last)) by {
        assert(last.drop_last().push(last.last()) =~= last);
    }
    assert(records_view(all.drop_last()).push(cells_view(last)) =~= records_view(all));
    assert(records_view(all) =~= seq![cells_view(headers)] + rows.map_values(
        |r: Vec<String>| cells_view(r@),
    ));
}

fn csv_cell_exec(out: &mut Vec<char>, value: &String)
    ensures
        final(out)@ == old(out)@ + csv_cell(value@),
{
    let v = text::chars_of(value.as_str());
    let mut quote = false;
    let mut i: usize = 0;
    while i < v.len()
        invariant
            i <= v@.len(),
            quote == (exists|j: int| 0 <= j < i && needs_quotes(v@[j])),
        decreases v@.len() - i,
    {
        let c = v[i];
        if c == ',' || c == '"' || c == '\n' || c == '\r' {
            quote = true;
        }
        i += 1;
    }
    if !quote {
        text::push_range(out, &v, 0, v.len());
        assert(v@.subrange(0, v@.len() as int) =~= v@);
        return;
    }
    let ghost start = out@;
    out.push('"');
    let mut i: usize = 0;
    while i < v.len()
        invariant
            i <= v@.len(),
            out@ == start + seq!['"'] + double_quotes(v@.take(i as int)),
        decreases v@.len() - i,
    {
        assert(v@.take(i + 1).drop_last() =~= v@.take(i as int));
        if v[i] == '"' {
            out.push('"');
            out.push('"');
        } else {
            out.push(v[i]);
        }
        assert(out@ =~= start + seq!['"'] + double_quotes(v@.take(i + 1)));
        i += 1;
    }
    assert(v@.take(v@.len() as int) =~= v@);
    out.push('"');
    assert(out@ =~= start + csv_cell(value@));
}

fn csv_row_exec(out: &mut Vec<char>, cells: &Vec<String>)
    ensures
        final(out)@ == old(out)@ + csv_row(cells@),
{
    let ghost start = out@;
    let ghost parts = cells@.map_values(|c: String| csv_cell(c@));
    let mut i: usize = 0;
    while i < cells.len()
        invariant
            i <= cells@.len(),
            parts == cells@.map_values(|c: String| csv_cell(c@)),
            out@ == start + text::join(parts.take(i as int), seq![',']),
        decreases cells@.len() - i,
    {
        proof {
            text::lemma_join_push(parts.take(i as int), parts[i as int], seq![',']);
            assert(parts.take(i + 1) =~= parts.take(i as int).push(parts[i as int]));
        }
        if i > 0 {
            out.push(',');
        }
        csv_cell_exec(out, &cells[i]);
        assert(out@ =~= start + text::join(parts.take(i + 1), seq![',']));
        i += 1;
    }
    assert(parts.take(cells@.len() as int) =~= parts);
}

/// The table as CSV text: the header row, then each body row, joined by
/// line breaks; cells joined by commas.
pub fn table_to_csv(table: &TableData) -> (r: String)
    ensures
        r@ == csv_table(table.headers@, table.rows@),
{
    let ghost parts = seq![csv_row(table.headers@)] + table.rows@.map_values(
        |r: Vec<String>| csv_row(r@),
    );
    let mut out: Vec<char> = Vec::new();
    csv_row_exec(&mut out, &table.headers);
    assert(parts.take(1) =~= seq![csv_row(table.headers@)]);
    assert(out@ =~= text::join(parts.take(1), seq!['\n']));
    let mut i: usize = 0;
    while i < table.rows.len()
        invariant
            i <= table.rows@.len(),
            parts.len() == table.rows@.len() + 1,
            parts == seq![csv_row(table.headers@)] + table.rows@.map_values(
                |r: Vec<String>| csv_row(r@),
            ),
            out@ == text::join(parts.take(i + 1), seq!['\n']),
        decreases table.rows@.len() - i,
    {
        proof {
            text::lemma_join_push(parts.take(i + 1), parts[i + 1], seq!['\n']);
            assert(parts.take(i + 2) =~= parts.take(i + 1).push(parts[i + 1]));
            assert(parts[i + 1] == csv_row(table.rows@[i as int]@));
        }
        out.push('\n');
        csv_row_exec(&mut out, &table.rows[i]);
        i += 1;
    }
    assert(parts.take(table.rows@.len() as int + 1) =~= parts);
    text::string_from(&out)
}

} // verus!
