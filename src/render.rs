use vstd::prelude::*;
use crate::grid::{Grid, GridView};
use crate::text::decimal;

verus! {

/// A cell's display text: its decimal text, zero-padded to at least two characters.
pub open spec fn padded(v: int) -> Seq<char> {
    if 0 <= v < 10 {
        seq!['0'] + decimal(v)
    } else {
        decimal(v)
    }
}

/// The display texts of the first `n` cells of `row`, separated by single spaces.
pub open spec fn shown_row(g: GridView, row: int, n: int) -> Seq<char>
    decreases n,
{
    if n <= 0 {
        seq![]
    } else if n == 1 {
        padded(g.at(row, 0))
    } else {
        shown_row(g, row, n - 1) + seq![' '] + padded(g.at(row, n - 1))
    }
}

/// The first `m` rows of `g`, each shown in full, joined by newlines.
pub open spec fn shown_rows(g: GridView, m: int) -> Seq<char>
    decreases m,
{
    if m <= 0 {
        seq![]
    } else if m == 1 {
        shown_row(g, 0, g.width as int)
    } else {
        shown_rows(g, m - 1) + seq!['\n'] + shown_row(g, m - 1, g.width as int)
    }
}

/// Relies on `format!("{:02}", v)`: the decimal text of `v` with a leading `0`
/// added when it is shorter than two characters.
#[verifier::external_body]
fn padded_cell(v: i32) -> (r: Vec<char>)
    ensures
        r@ == padded(v as int),
{
    format!("{:02}", v).chars().collect()
}

/// Relies on `String`'s `FromIterator<char>`: the string of those characters.
#[verifier::external_body]
fn string_of(cs: &Vec<char>) -> (r: String)
    ensures
        r@ == cs@,
{
    cs.iter().collect()
}

fn push_all(out: &mut Vec<char>, s: &Vec<char>)
    ensures
        final(out)@ == old(out)@ + s@,
{
    let mut i: usize = 0;
    while i < s.len()
        invariant
            0 <= i <= s@.len(),
            out@ == old(out)@ + s@.take(i as int),
        decreases s@.len() - i,
    {
        out.push(s[i]);
        i = i + 1;
        assert(s@.take(i as int) =~= s@.take(i - 1).push(s@[i - 1]));
    }
    assert(s@.take(s@.len() as int) =~= s@);
}

/// The grid as text: one line per row, each cell zero-padded to two characters,
/// cells separated by single spaces.
pub fn pretty_string(matrix: &Grid) -> (r: String)
    ensures
        r@ == shown_rows(matrix@, matrix@.height as int),
{
    let h: usize = matrix.height();
    let w: usize = matrix.width();
    let mut out: Vec<char> = Vec::new();
    let mut row: usize = 0;
    while row < h
        invariant
            h == matrix@.height,
            w == matrix@.width,
            0 <= row <= h,
            out@ == shown_rows(matrix@, row as int),
        decreases h - row,
    {
        if row > 0 {
            out.push('\n');
        }
        let ghost before = out@;
        let mut col: usize = 0;
        while col < w
            invariant
                h == matrix@.height,
                w == matrix@.width,
                0 <= row < h,
                0 <= col <= w,
                out@ == before + shown_row(matrix@, row as int, col as int),
            decreases w - col,
        {
            if col > 0 {
                out.push(' ');
            }
            let cell = padded_cell(matrix.get(row, col));
            push_all(&mut out, &cell);
            col = col + 1;
        }
        row = row + 1;
    }
    string_of(&out)
}

} // verus!
