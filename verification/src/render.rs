//! Tabular rendering: a fixed-width label column and fixed-width value
//! columns, right-aligned, with over-long labels and headers clipped, and a
//! separator rule around the header and at the end.
use vstd::prelude::*;

use crate::extract::{headers_view, rows_view, ExtractedTable, TableRow};
use crate::format::spec_format_cell;

verus! {

/// The width of each value column.
pub const COL_WIDTH: usize = 14;

/// The width of the label column.
pub const HEADER_WIDTH: usize = 40;

/// Tables beyond this many value columns are not rendered (a machine limit
/// on the separator rule's length).
pub const MAX_RENDER_COLUMNS: usize = 100000;

pub open spec fn spaces(n: int) -> Seq<char> {
    Seq::new(
        if n >= 0 {
            n as nat
        } else {
            0
        },
        |i: int| ' ',
    )
}

/// Right-aligns into a field of width `w` (wider strings stay whole).
pub open spec fn pad_left(s: Seq<char>, w: int) -> Seq<char> {
    if s.len() >= w {
        s
    } else {
        spaces(w - s.len()) + s
    }
}

/// Clips to width `w`, marking the cut with two dots.
pub open spec fn clip(s: Seq<char>, w: int) -> Seq<char> {
    if s.len() > w {
        s.take(w - 2) + seq!['.', '.']
    } else {
        s
    }
}

pub open spec fn dash_line(n: int) -> Seq<char> {
    Seq::new(
        if n >= 0 {
            n as nat
        } else {
            0
        },
        |i: int| '-',
    )
}

/// One header cell: clipped, padded, separated.
pub open spec fn head_cell_seg(h: Seq<char>) -> Seq<char> {
    seq![' '] + pad_left(clip(h, COL_WIDTH as int), COL_WIDTH as int) + seq![' ', '|']
}

pub open spec fn header_tail(hs: Seq<Seq<char>>) -> Seq<char>
    decreases hs.len(),
{
    if hs.len() == 0 {
        Seq::empty()
    } else {
        head_cell_seg(hs.first()) + header_tail(hs.drop_first())
    }
}

/// One value cell: formatted, padded, separated.
pub open spec fn cell_seg(c: Seq<char>) -> Seq<char> {
    seq![' '] + pad_left(spec_format_cell(c), COL_WIDTH as int) + seq![' ', '|']
}

pub open spec fn cells_tail(cs: Seq<Seq<char>>) -> Seq<char>
    decreases cs.len(),
{
    if cs.len() == 0 {
        Seq::empty()
    } else {
        cell_seg(cs.first()) + cells_tail(cs.drop_first())
    }
}

/// The header row: the first header fills the label column (or `Period`
/// when there is none), the rest are value columns.
pub open spec fn spec_header_line(hs: Seq<Seq<char>>) -> Seq<char> {
    if hs.len() == 0 {
        pad_left("Period"@, HEADER_WIDTH as int) + seq![' ', '|']
    } else {
        pad_left(hs.first(), HEADER_WIDTH as int) + seq![' ', '|'] + header_tail(hs.drop_first())
    }
}

/// One data row: the clipped label, then every cell through the cell
/// formatter.
pub open spec fn spec_row_line(label: Seq<char>, cells: Seq<Seq<char>>) -> Seq<char> {
    pad_left(clip(label, HEADER_WIDTH as int), HEADER_WIDTH as int) + seq![' ', '|'] + cells_tail(
        cells,
    )
}

pub open spec fn row_lines(rows: Seq<(Seq<char>, Seq<Seq<char>>)>) -> Seq<Seq<char>>
    decreases rows.len(),
{
    if rows.len() == 0 {
        Seq::empty()
    } else {
        seq![spec_row_line(rows.first().0, rows.first().1)] + row_lines(rows.drop_first())
    }
}

/// The rendered table, line by line: a blank line, the title, a rule, the
/// header row, a rule, the rows, a rule, a blank line. Nothing is rendered
/// for an empty table.
pub open spec fn spec_render_table(
    title: Seq<char>,
    hs: Seq<Seq<char>>,
    rows: Seq<(Seq<char>, Seq<Seq<char>>)>,
) -> Seq<Seq<char>> {
    if hs.len() == 0 || rows.len() == 0 || hs.len() > MAX_RENDER_COLUMNS {
        Seq::empty()
    } else {
        let sep = dash_line(HEADER_WIDTH + 1 + hs.len() * (COL_WIDTH + 1));
        seq![Seq::<char>::empty(), title, sep, spec_header_line(hs), sep] + row_lines(rows)
            + seq![sep, Seq::<char>::empty()]
    }
}

/// Right-aligns a string into a field of width `w`.
fn pad_left_str(s: &str, w: usize) -> (r: String)
    ensures
        r@ == pad_left(s@, w as int),
{
    let len = s.unicode_len();
    if len >= w {
        s.to_owned()
    } else {
        let mut p = String::new();
        let mut k: usize = 0;
        while k < w - len
            invariant
                k <= w - len,
                len == s@.len(),
                p@ =~= spaces(k as int),
            decreases w - len - k,
        {
            crate::text::string_push(&mut p, ' ');
            proof {
                assert(p@ =~= spaces(k + 1));
            }
            k = k + 1;
        }
        p.append(s);
        p
    }
}

/// Clips a string to width `w`, marking the cut with two dots.
fn clip_str(s: &str, w: usize) -> (r: String)
    requires
        w >= 2,
    ensures
        r@ == clip(s@, w as int),
{
    let chars = crate::text::str_to_chars(s);
    if chars.len() > w {
        let head = crate::scan::subvec(&chars, 0, w - 2);
        let mut r = crate::text::chars_to_string(&head);
        r.append("..");
        proof {
            reveal_strlit("..");
            assert("..".view() =~= seq!['.', '.']);
        }
        r
    } else {
        s.to_owned()
    }
}

/// A rule of `n` dashes.
fn dashes(n: usize) -> (r: String)
    ensures
        r@ == dash_line(n as int),
{
    let mut p = String::new();
    let mut k: usize = 0;
    while k < n
        invariant
            k <= n,
            p@ =~= dash_line(k as int),
        decreases n - k,
    {
        crate::text::string_push(&mut p, '-');
        proof {
            assert(p@ =~= dash_line(k + 1));
        }
        k = k + 1;
    }
    p
}

/// Renders the table as its printable lines.
#[verifier::loop_isolation(false)]
pub fn render_table(title: &str, headers: &Vec<String>, rows: &Vec<TableRow>) -> (r: Vec<String>)
    ensures
        r@.map_values(|s: String| s@) == spec_render_table(
            title@,
            headers_view(headers@),
            rows_view(rows@),
        ),
{
    let ghost hs = headers_view(headers@);
    let ghost rws = rows_view(rows@);
    let mut lines: Vec<String> = Vec::new();
    if headers.len() == 0 || rows.len() == 0 || headers.len() > MAX_RENDER_COLUMNS {
        proof {
            assert(lines@.map_values(|s: String| s@) =~= spec_render_table(title@, hs, rws));
        }
        return lines;
    }
    proof {
        reveal_strlit(" |");
        reveal_strlit(" ");
        reveal_strlit("");
        assert(" |".view() =~= seq![' ', '|']);
        assert(" ".view() =~= seq![' ']);
        assert("".view() =~= Seq::<char>::empty());
    }
    let sep = dashes(HEADER_WIDTH + 1 + headers.len() * (COL_WIDTH + 1));
    // the header row
    let mut hl = pad_left_str(headers[0].as_str(), HEADER_WIDTH);
    hl.append(" |");
    let hn = headers.len();
    let mut i: usize = 1;
    proof {
        assert(hs.first() == headers@[0]@);
        assert(hs.drop_first().skip(i - 1) =~= hs.drop_first());
    }
    while i < hn
        invariant
            1 <= i <= hn,
            spec_header_line(hs) == hl@ + header_tail(hs.drop_first().skip(i - 1)),
        decreases hn - i,
    {
        let ghost tail = hs.drop_first().skip(i - 1);
        proof {
            assert(tail.first() == hs.drop_first()[i - 1]);
            assert(hs.drop_first()[i - 1] == headers@[i as int]@);
            assert(tail.drop_first() =~= hs.drop_first().skip(i as int));
        }
        hl.append(" ");
        let cell = clip_str(headers[i].as_str(), COL_WIDTH);
        let padded = pad_left_str(cell.as_str(), COL_WIDTH);
        hl.append(padded.as_str());
        hl.append(" |");
        i = i + 1;
    }
    proof {
        assert(hs.drop_first().skip(hn - 1) =~= Seq::<Seq<char>>::empty());
        assert(hl@ == spec_header_line(hs));
    }
    lines.push(String::new());
    lines.push(title.to_owned());
    lines.push(sep.clone());
    lines.push(hl);
    lines.push(sep.clone());
    let ghost head_model = seq![
        Seq::<char>::empty(),
        title@,
        dash_line(HEADER_WIDTH + 1 + hs.len() * (COL_WIDTH + 1)),
        spec_header_line(hs),
        dash_line(HEADER_WIDTH + 1 + hs.len() * (COL_WIDTH + 1)),
    ];
    proof {
        assert(lines@.map_values(|s: String| s@) =~= head_model);
        assert(rws.skip(0) =~= rws);
    }
    let rn = rows.len();
    let mut j: usize = 0;
    while j < rn
        invariant
            j <= rn == rows@.len(),
            rws == rows_view(rows@),
            rws.len() == rn,
            lines@.map_values(|s: String| s@) + row_lines(rws.skip(j as int)) =~= head_model
                + row_lines(rws),
        decreases rn - j,
    {
        let ghost tail = rws.skip(j as int);
        proof {
            assert(tail.first() == rws[j as int]);
            assert(tail.drop_first() =~= rws.skip(j + 1));
            assert(rws[j as int] == (rows@[j as int].label@, rows@[j as int].cells@.map_values(
                |s: String| s@,
            )));
        }
        let row = &rows[j];
        let clipped = clip_str(row.label.as_str(), HEADER_WIDTH);
        let mut rl = pad_left_str(clipped.as_str(), HEADER_WIDTH);
        rl.append(" |");
        let cn = row.cells.len();
        let ghost cs = rows@[j as int].cells@.map_values(|s: String| s@);
        let mut k: usize = 0;
        proof {
            assert(cs.skip(0) =~= cs);
        }
        while k < cn
            invariant
                k <= cn == rows@[j as int].cells@.len(),
                j < rn == rows@.len(),
                cs == rows@[j as int].cells@.map_values(|s: String| s@),
                spec_row_line(rws[j as int].0, rws[j as int].1) == rl@ + cells_tail(
                    cs.skip(k as int),
                ),
            decreases cn - k,
        {
            let ghost ctail = cs.skip(k as int);
            proof {
                assert(ctail.first() == cs[k as int]);
                assert(cs[k as int] == rows@[j as int].cells@[k as int]@);
                assert(ctail.drop_first() =~= cs.skip(k + 1));
            }
            rl.append(" ");
            let cell = crate::format::format_cell(row.cells[k].as_str());
            let padded = pad_left_str(cell.as_str(), COL_WIDTH);
            rl.append(padded.as_str());
            rl.append(" |");
            k = k + 1;
        }
        proof {
            assert(cs.skip(cn as int) =~= Seq::<Seq<char>>::empty());
            assert(rl@ == spec_row_line(rws[j as int].0, rws[j as int].1));
        }
        let ghost pre = lines@.map_values(|s: String| s@);
        lines.push(rl);
        proof {
            assert(lines@.map_values(|s: String| s@) =~= pre + seq![
                spec_row_line(rws[j as int].0, rws[j as int].1),
            ]);
            assert(lines@.map_values(|s: String| s@) + row_lines(rws.skip(j + 1)) =~= head_model
                + row_lines(rws));
        }
        j = j + 1;
    }
    let ghost pre = lines@.map_values(|s: String| s@);
    proof {
        assert(rws.skip(rn as int) =~= Seq::<(Seq<char>, Seq<Seq<char>>)>::empty());
        assert(pre =~= head_model + row_lines(rws));
    }
    lines.push(sep);
    lines.push(String::new());
    proof {
        assert(lines@.map_values(|s: String| s@) =~= pre + seq![
            dash_line(HEADER_WIDTH + 1 + hs.len() * (COL_WIDTH + 1)),
            Seq::<char>::empty(),
        ]);
        assert(lines@.map_values(|s: String| s@) =~= spec_render_table(title@, hs, rws));
    }
    lines
}

/// Every table row renders to one line.
pub proof fn lemma_row_lines_len(rows: Seq<(Seq<char>, Seq<Seq<char>>)>)
    ensures
        row_lines(rows).len() == rows.len(),
    decreases rows.len(),
{
    if rows.len() > 0 {
        lemma_row_lines_len(rows.drop_first());
    }
}

/// Renders a scraped financials table under a title; the caller has already
/// dropped the leading header cell.
pub fn render_extracted_table(title: &str, table: &ExtractedTable) -> (r: Vec<String>)
    ensures
        r@.map_values(|s: String| s@) == spec_render_table(
            title@,
            headers_view(table.headers@),
            rows_view(table.rows@),
        ),
{
    render_table(title, &table.headers, &table.rows)
}

} // verus!
