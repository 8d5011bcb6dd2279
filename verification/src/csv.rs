//! The CSV cells of exported playlists: quoting a cell and splitting a line
//! back into its cells.
use vstd::prelude::*;
use crate::text::{chars_of, push_char, string_from_chars};

verus! {

/// Whether a cell must be quoted: it holds a comma, a quote or a line break.
pub open spec fn needs_quotes(s: Seq<char>) -> bool {
    s.contains(',') || s.contains('"') || s.contains('\n') || s.contains('\r')
}

/// `s` with each quote doubled.
pub open spec fn escape_quotes(s: Seq<char>) -> Seq<char>
    decreases s.len(),
{
    if s.len() == 0 {
        Seq::empty()
    } else if s[0] == '"' {
        seq!['"', '"'] + escape_quotes(s.drop_first())
    } else {
        seq![s[0]] + escape_quotes(s.drop_first())
    }
}

/// A cell as written: as it is, or in quotes with its quotes doubled.
pub open spec fn spec_csv_cell(s: Seq<char>) -> Seq<char> {
    if needs_quotes(s) {
        seq!['"'] + escape_quotes(s) + seq!['"']
    } else {
        s
    }
}

/// Quotes a cell for CSV when it needs it.
pub fn csv_cell(value: &str) -> (r: String)
    ensures
        r@ == spec_csv_cell(value@),
{
    let chars = chars_of(value);
    let mut needs = false;
    let mut i: usize = 0;
    while i < chars.len()
        invariant
            i <= chars.len(),
            chars@ == value@,
            needs <==> exists|j: int| 0 <= j < i && (chars@[j] == ',' || chars@[j] == '"' || chars@[j] == '\n' || chars@[j] == '\r'),
        decreases chars.len() - i,
    {
        let c = chars[i];
        if c == ',' || c == '"' || c == '\n' || c == '\r' {
            needs = true;
        }
        i = i + 1;
    }
    proof {
        if needs {
            let j = choose|j: int| 0 <= j < chars.len() && (chars@[j] == ',' || chars@[j] == '"' || chars@[j] == '\n' || chars@[j] == '\r');
            assert(value@[j] == chars@[j]);
        }
        if needs_quotes(value@) {
            if value@.contains(',') {
                let j = choose|j: int| 0 <= j < value@.len() && value@[j] == ',';
                assert(chars@[j] == ',');
            } else if value@.contains('"') {
                let j = choose|j: int| 0 <= j < value@.len() && value@[j] == '"';
                assert(chars@[j] == '"');
            } else if value@.contains('\n') {
                let j = choose|j: int| 0 <= j < value@.len() && value@[j] == '\n';
                assert(chars@[j] == '\n');
            } else {
                let j = choose|j: int| 0 <= j < value@.len() && value@[j] == '\r';
                assert(chars@[j] == '\r');
            }
        }
    }
    if !needs {
        return value.to_string();
    }
    let mut out = String::new();
    push_char(&mut out, '"');
    let mut k: usize = 0;
    while k < chars.len()
        invariant
            k <= chars.len(),
            chars@ == value@,
            out@ == seq!['"'] + escape_quotes(value@.take(k as int)),
        decreases chars.len() - k,
    {
        proof { lemma_escape_push(value@.take(k as int), value@[k as int]); }
        assert(value@.take(k + 1) =~= value@.take(k as int).push(value@[k as int]));
        if chars[k] == '"' {
            push_char(&mut out, '"');
            push_char(&mut out, '"');
        } else {
            push_char(&mut out, chars[k]);
        }
        assert(out@ =~= seq!['"'] + escape_quotes(value@.take(k + 1)));
        k = k + 1;
    }
    push_char(&mut out, '"');
    assert(value@.take(chars.len() as int) =~= value@);
    out
}

proof fn lemma_escape_push(s: Seq<char>, c: char)
    ensures
        escape_quotes(s.push(c)) == escape_quotes(s) + (if c == '"' { seq!['"', '"'] } else { seq![c] }),
    decreases s.len(),
{
    if s.len() == 0 {
        assert(s.push(c).drop_first() =~= Seq::<char>::empty());
        assert(escape_quotes(Seq::<char>::empty()) =~= Seq::<char>::empty());
    } else {
        assert(s.push(c).drop_first() =~= s.drop_first().push(c));
        lemma_escape_push(s.drop_first(), c);
    }
}

/// What `parse_csv_line` does from some point: `quoted` says whether it is
/// inside quotes, `cell` is the cell read so far and `cells` the cells
/// before it. A doubled quote inside quotes is one quote, any other quote
/// opens or closes the quotes, and a comma outside quotes ends a cell.
pub open spec fn csv_scan(s: Seq<char>, quoted: bool, cell: Seq<char>, cells: Seq<Seq<char>>) -> Seq<Seq<char>>
    decreases s.len(),
{
    if s.len() == 0 {
        cells.push(cell)
    } else if s[0] == '"' && quoted && s.len() > 1 && s[1] == '"' {
        csv_scan(s.skip(2), quoted, cell.push('"'), cells)
    } else if s[0] == '"' {
        csv_scan(s.drop_first(), !quoted, cell, cells)
    } else if s[0] == ',' && !quoted {
        csv_scan(s.drop_first(), quoted, Seq::empty(), cells.push(cell))
    } else {
        csv_scan(s.drop_first(), quoted, cell.push(s[0]), cells)
    }
}

/// The cells of a CSV line.
pub open spec fn spec_parse_csv_line(line: Seq<char>) -> Seq<Seq<char>> {
    csv_scan(line, false, Seq::empty(), Seq::empty())
}

/// Splits a CSV line into its cells.
pub fn parse_csv_line(line: &str) -> (r: Vec<String>)
    ensures
        crate::text::views(r@) == spec_parse_csv_line(line@),
{
    let chars = chars_of(line);
    let mut cells: Vec<String> = Vec::new();
    let mut cell = String::new();
    let mut quoted = false;
    let mut i: usize = 0;
    assert(chars@.skip(0) =~= chars@);
    assert(crate::text::views(cells@) =~= Seq::<Seq<char>>::empty());
    while i < chars.len()
        invariant
            i <= chars.len(),
            chars@ == line@,
            csv_scan(chars@.skip(i as int), quoted, cell@, crate::text::views(cells@)) == spec_parse_csv_line(line@),
        decreases chars.len() - i,
    {
        let ch = chars[i];
        let ghost rest = chars@.skip(i as int);
        assert(rest[0] == ch);
        if ch == '"' && quoted && i + 1 < chars.len() && chars[i + 1] == '"' {
            assert(rest[1] == chars@[i + 1]);
            assert(rest.skip(2) =~= chars@.skip(i + 2));
            push_char(&mut cell, '"');
            i = i + 2;
        } else if ch == '"' {
            assert(rest.drop_first() =~= chars@.skip(i + 1));
            quoted = !quoted;
            i = i + 1;
        } else if ch == ',' && !quoted {
            assert(rest.drop_first() =~= chars@.skip(i + 1));
            let done = cell;
            let ghost before = cells@;
            cells.push(done);
            assert(crate::text::views(cells@) =~= crate::text::views(before).push(done@));
            cell = String::new();
            i = i + 1;
        } else {
            assert(rest.drop_first() =~= chars@.skip(i + 1));
            push_char(&mut cell, ch);
            i = i + 1;
        }
    }
    assert(chars@.skip(i as int) =~= Seq::<char>::empty());
    let ghost before = cells@;
    cells.push(cell);
    assert(crate::text::views(cells@) =~= crate::text::views(before).push(cell@));
    cells
}

/// A row of cells joined by commas, each quoted when it needs it.
pub open spec fn csv_row(cells: Seq<Seq<char>>) -> Seq<char>
    decreases cells.len(),
{
    if cells.len() <= 1 {
        if cells.len() == 1 { spec_csv_cell(cells[0]) } else { Seq::empty() }
    } else {
        spec_csv_cell(cells[0]) + seq![','] + csv_row(cells.drop_first())
    }
}

proof fn lemma_scan_plain(c: Seq<char>, rest: Seq<char>, cell: Seq<char>, cells: Seq<Seq<char>>)
    requires
        !c.contains(','),
        !c.contains('"'),
    ensures
        csv_scan(c + rest, false, cell, cells) == csv_scan(rest, false, cell + c, cells),
    decreases c.len(),
{
    if c.len() == 0 {
        assert(c + rest =~= rest);
        assert(cell + c =~= cell);
    } else {
        assert((c + rest)[0] == c[0]);
        assert(c[0] != ',' && c[0] != '"') by {
            assert(c.contains(c[0]));
        }
        assert((c + rest).drop_first() =~= c.drop_first() + rest);
        assert(!c.drop_first().contains(',')) by {
            if c.drop_first().contains(',') {
                let j = choose|j: int| 0 <= j < c.drop_first().len() && c.drop_first()[j] == ',';
                assert(c[j + 1] == ',');
            }
        }
        assert(!c.drop_first().contains('"')) by {
            if c.drop_first().contains('"') {
                let j = choose|j: int| 0 <= j < c.drop_first().len() && c.drop_first()[j] == '"';
                assert(c[j + 1] == '"');
            }
        }
        lemma_scan_plain(c.drop_first(), rest, cell.push(c[0]), cells);
        assert(cell.push(c[0]) + c.drop_first() =~= cell + c);
    }
}

proof fn lemma_scan_quoted(c: Seq<char>, rest: Seq<char>, cell: Seq<char>, cells: Seq<Seq<char>>)
    requires
        rest.len() == 0 || rest[0] != '"',
    ensures
        csv_scan(escape_quotes(c) + seq!['"'] + rest, true, cell, cells) == csv_scan(rest, false, cell + c, cells),
    decreases c.len(),
{
    let s = escape_quotes(c) + seq!['"'] + rest;
    if c.len() == 0 {
        assert(escape_quotes(c) =~= Seq::<char>::empty());
        assert(s[0] == '"');
        assert(s.drop_first() =~= rest);
        assert(cell + c =~= cell);
    } else if c[0] == '"' {
        let tail = escape_quotes(c.drop_first()) + seq!['"'] + rest;
        assert(s =~= seq!['"', '"'] + tail);
        assert(s.skip(2) =~= tail);
        lemma_scan_quoted(c.drop_first(), rest, cell.push('"'), cells);
        assert(cell.push('"') + c.drop_first() =~= cell + c);
    } else {
        let tail = escape_quotes(c.drop_first()) + seq!['"'] + rest;
        assert(s =~= seq![c[0]] + tail);
        assert(s.drop_first() =~= tail);
        lemma_scan_quoted(c.drop_first(), rest, cell.push(c[0]), cells);
        assert(cell.push(c[0]) + c.drop_first() =~= cell + c);
    }
}

proof fn lemma_scan_cell(c: Seq<char>, rest: Seq<char>, cells: Seq<Seq<char>>)
    requires
        rest.len() == 0 || rest[0] == ',',
    ensures
        csv_scan(spec_csv_cell(c) + rest, false, Seq::empty(), cells) == csv_scan(rest, false, c, cells),
{
    if needs_quotes(c) {
        let s = spec_csv_cell(c) + rest;
        assert(s =~= seq!['"'] + (escape_quotes(c) + seq!['"'] + rest));
        assert(s.drop_first() =~= escape_quotes(c) + seq!['"'] + rest);
        lemma_scan_quoted(c, rest, Seq::empty(), cells);
        assert(Seq::<char>::empty() + c =~= c);
    } else {
        lemma_scan_plain(c, rest, Seq::empty(), cells);
        assert(Seq::<char>::empty() + c =~= c);
    }
}

proof fn lemma_scan_row(cells: Seq<Seq<char>>, before: Seq<Seq<char>>)
    requires
        cells.len() >= 1,
    ensures
        csv_scan(csv_row(cells), false, Seq::empty(), before) == before + cells,
    decreases cells.len(),
{
    if cells.len() == 1 {
        lemma_scan_cell(cells[0], Seq::empty(), before);
        assert(spec_csv_cell(cells[0]) + Seq::<char>::empty() =~= spec_csv_cell(cells[0]));
        assert(before.push(cells[0]) =~= before + cells);
    } else {
        let rest = seq![','] + csv_row(cells.drop_first());
        assert(csv_row(cells) =~= spec_csv_cell(cells[0]) + rest);
        lemma_scan_cell(cells[0], rest, before);
        assert(rest.drop_first() =~= csv_row(cells.drop_first()));
        lemma_scan_row(cells.drop_first(), before.push(cells[0]));
        assert(before.push(cells[0]) + cells.drop_first() =~= before + cells);
    }
}

/// Splitting a row written with `csv_cell` and commas gives its cells back.
pub proof fn law_csv_roundtrip(cells: Seq<Seq<char>>)
    requires
        cells.len() >= 1,
    ensures
        spec_parse_csv_line(csv_row(cells)) == cells,
{
    lemma_scan_row(cells, Seq::empty());
    assert(Seq::<Seq<char>>::empty() + cells =~= cells);
}

}
