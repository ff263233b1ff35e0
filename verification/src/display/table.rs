//! Texts in columns, inside a frame of lines.

use vstd::prelude::*;

use crate::text;
use crate::text::{chars_of, pad_right, push_padded, push_repeated, repeated, views};

verus! {

/// The larger of two numbers.
pub open spec fn larger(a: int, b: int) -> int {
    if a > b {
        a
    } else {
        b
    }
}

/// The width of the widest text in column `k`, or `least` where none is wider.
pub open spec fn column_width(rows: Seq<Seq<Seq<char>>>, k: int, least: int) -> int
    decreases rows.len(),
{
    if rows.len() == 0 {
        least
    } else {
        let before = column_width(rows.drop_last(), k, least);
        if k < rows.last().len() {
            larger(before, rows.last()[k].len() as int)
        } else {
            before
        }
    }
}

/// The widths of the columns, each as wide as its header and its texts.
pub open spec fn column_widths(headers: Seq<Seq<char>>, rows: Seq<Seq<Seq<char>>>) -> Seq<int> {
    Seq::new(headers.len(), |k: int| column_width(rows, k, headers[k].len() as int))
}

/// The horizontal lines of a border over the first `n` columns, with `middle`
/// between them.
pub open spec fn bars(middle: char, widths: Seq<int>, n: int) -> Seq<char>
    decreases n,
{
    if n <= 0 {
        Seq::empty()
    } else if n == 1 {
        repeated('─', widths[0] + 2)
    } else {
        bars(middle, widths, n - 1).push(middle) + repeated('─', widths[n - 1] + 2)
    }
}

/// A horizontal border.
pub open spec fn border(left: char, middle: char, right: char, widths: Seq<int>) -> Seq<char> {
    (seq![left] + bars(middle, widths, widths.len() as int)).push(right).push('\n')
}

/// The first `n` texts of a row, each in its column.
pub open spec fn framed(cells: Seq<Seq<char>>, widths: Seq<int>, n: int) -> Seq<char>
    decreases n,
{
    if n <= 0 {
        Seq::empty()
    } else {
        framed(cells, widths, n - 1) + " "@ + pad_right(cells[n - 1], widths[n - 1]) + " │"@
    }
}

/// A row; texts without a column are left out.
pub open spec fn row_line(cells: Seq<Seq<char>>, widths: Seq<int>) -> Seq<char> {
    let n = if cells.len() < widths.len() {
        cells.len() as int
    } else {
        widths.len() as int
    };
    ("│"@ + framed(cells, widths, n)).push('\n')
}

/// The rows, one after the other.
pub open spec fn row_lines(rows: Seq<Seq<Seq<char>>>, widths: Seq<int>) -> Seq<char>
    decreases rows.len(),
{
    if rows.len() == 0 {
        Seq::empty()
    } else {
        row_lines(rows.drop_last(), widths) + row_line(rows.last(), widths)
    }
}

/// The rows under their headers, in a frame.
pub open spec fn table(headers: Seq<Seq<char>>, rows: Seq<Seq<Seq<char>>>) -> Seq<char> {
    let w = column_widths(headers, rows);
    border('┌', '┬', '┐', w) + row_line(headers, w) + border('├', '┼', '┤', w) + row_lines(
        rows,
        w,
    ) + border('└', '┴', '┘', w)
}

/// The texts of all rows.
pub open spec fn row_views(rows: Seq<Vec<String>>) -> Seq<Seq<Seq<char>>> {
    rows.map_values(|r: Vec<String>| views(r@))
}

spec fn ints(w: Seq<usize>) -> Seq<int> {
    w.map_values(|x: usize| x as int)
}

fn width_of(rows: &Vec<Vec<String>>, k: usize, least: usize) -> (r: usize)
    ensures
        r == column_width(row_views(rows@), k as int, least as int),
{
    let ghost all = row_views(rows@);
    let mut widest: usize = least;
    let mut i: usize = 0;
    assert(all.take(0) =~= Seq::<Seq<Seq<char>>>::empty());
    while i < rows.len()
        invariant
            i <= rows@.len(),
            all == row_views(rows@),
            widest == column_width(all.take(i as int), k as int, least as int),
        decreases rows@.len() - i,
    {
        let ghost next = all.take(i as int + 1);
        proof {
            assert(next.drop_last() =~= all.take(i as int));
            assert(next.last() == views(rows@[i as int]@));
        }
        if k < rows[i].len() {
            let n: usize = chars_of(rows[i][k].as_str()).len();
            if n > widest {
                widest = n;
            }
        }
        i += 1;
    }
    assert(all.take(i as int) =~= all);
    widest
}

fn push_border(out: &mut String, left: char, middle: char, right: char, widths: &Vec<usize>)
    ensures
        final(out)@ == old(out)@ + border(left, middle, right, ints(widths@)),
{
    let ghost before = out@;
    let ghost w = ints(widths@);
    out.push(left);
    let ghost start = out@;
    let mut i: usize = 0;
    assert(start =~= start + bars(middle, w, 0));
    while i < widths.len()
        invariant
            i <= widths@.len(),
            w == ints(widths@),
            out@ == start + bars(middle, w, i as int),
        decreases widths@.len() - i,
    {
        if i > 0 {
            out.push(middle);
        }
        push_repeated(out, '─', widths[i]);
        out.push('─');
        out.push('─');
        proof {
            assert(w[i as int] == widths@[i as int]);
            assert(repeated('─', w[i as int]).push('─').push('─') =~= repeated(
                '─',
                w[i as int] + 2,
            ));
            assert(out@ =~= start + bars(middle, w, i as int + 1));
        }
        i += 1;
    }
    out.push(right);
    out.push('\n');
    assert(out@ =~= before + border(left, middle, right, w));
}

fn push_row(out: &mut String, cells: &Vec<String>, widths: &Vec<usize>)
    ensures
        final(out)@ == old(out)@ + row_line(views(cells@), ints(widths@)),
{
    let ghost before = out@;
    let ghost w = ints(widths@);
    let ghost c = views(cells@);
    out.push_str("│");
    let ghost start = out@;
    let mut i: usize = 0;
    assert(start =~= start + framed(c, w, 0));
    while i < cells.len() && i < widths.len()
        invariant
            i <= cells@.len(),
            i <= widths@.len(),
            w == ints(widths@),
            c == views(cells@),
            out@ == start + framed(c, w, i as int),
        decreases widths@.len() - i,
    {
        out.push_str(" ");
        push_padded(out, cells[i].as_str(), widths[i]);
        out.push_str(" │");
        proof {
            assert(c[i as int] == cells@[i as int]@);
            assert(w[i as int] == widths@[i as int]);
            assert(out@ =~= start + framed(c, w, i as int + 1));
        }
        i += 1;
    }
    out.push('\n');
    assert(out@ =~= before + row_line(c, w));
}

/// Lays out the rows under their headers, in a frame.
pub fn table_text(headers: &Vec<String>, rows: &Vec<Vec<String>>) -> (r: String)
    ensures
        r@ == table(views(headers@), row_views(rows@)),
{
    let ghost h = views(headers@);
    let ghost all = row_views(rows@);
    let ghost want = column_widths(h, all);
    let mut widths: Vec<usize> = Vec::new();
    let mut i: usize = 0;
    while i < headers.len()
        invariant
            i <= headers@.len(),
            h == views(headers@),
            all == row_views(rows@),
            want == column_widths(h, all),
            widths@.len() == i,
            forall|k: int| 0 <= k < i ==> (#[trigger] widths@[k]) as int == want[k],
        decreases headers@.len() - i,
    {
        let least: usize = chars_of(headers[i].as_str()).len();
        assert(h[i as int] == headers@[i as int]@);
        widths.push(width_of(rows, i, least));
        i += 1;
    }
    assert(ints(widths@) =~= want);
    let mut out = String::new();
    assert(out@ =~= Seq::<char>::empty());
    push_border(&mut out, '┌', '┬', '┐', &widths);
    push_row(&mut out, headers, &widths);
    push_border(&mut out, '├', '┼', '┤', &widths);
    let ghost start = out@;
    let mut j: usize = 0;
    proof {
        assert(all.take(0) =~= Seq::<Seq<Seq<char>>>::empty());
        assert(start =~= start + row_lines(all.take(0), want));
    }
    while j < rows.len()
        invariant
            j <= rows@.len(),
            all == row_views(rows@),
            want == ints(widths@),
            out@ == start + row_lines(all.take(j as int), want),
        decreases rows@.len() - j,
    {
        push_row(&mut out, &rows[j], &widths);
        proof {
            let next = all.take(j as int + 1);
            assert(next.drop_last() =~= all.take(j as int));
            assert(next.last() == views(rows@[j as int]@));
            assert(out@ =~= start + row_lines(next, want));
        }
        j += 1;
    }
    assert(all.take(j as int) =~= all);
    push_border(&mut out, '└', '┴', '┘', &widths);
    assert(out@ =~= table(h, all));
    out
}

} // verus!
