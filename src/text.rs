use vstd::prelude::*;
use crate::grid::{GridView, lemma_index_in_bounds};
use crate::parser::{
    is_space, words, line_count, is_digit, digits_value, magnitude_digits, literal_value,
    is_int_literal, parse_succeeds, parsed_as,
};

verus! {

/// The decimal digit character for `d < 10`.
pub open spec fn digit_char(d: nat) -> char {
    seq!['0', '1', '2', '3', '4', '5', '6', '7', '8', '9'][d as int]
}

/// The decimal digits of `n`, most significant first, without leading zeros.
pub open spec fn digits_of(n: nat) -> Seq<char>
    decreases n,
{
    if n < 10 {
        seq![digit_char(n)]
    } else {
        digits_of(n / 10).push(digit_char(n % 10))
    }
}

/// The decimal text of `v`: its digits, after a `-` when it is negative.
pub open spec fn decimal(v: int) -> Seq<char> {
    if v < 0 {
        seq!['-'] + digits_of((-v) as nat)
    } else {
        digits_of(v as nat)
    }
}

/// A row written as the decimal texts of its cells separated by single spaces.
pub open spec fn row_text(row: Seq<i32>) -> Seq<char>
    decreases row.len(),
{
    if row.len() == 0 {
        seq![]
    } else if row.len() == 1 {
        decimal(row[0] as int)
    } else {
        row_text(row.drop_last()) + seq![' '] + decimal(row.last() as int)
    }
}

/// A grid written as its rows' texts joined by newlines.
pub open spec fn grid_text(rows: Seq<Seq<i32>>) -> Seq<char>
    decreases rows.len(),
{
    if rows.len() == 0 {
        seq![]
    } else if rows.len() == 1 {
        row_text(rows[0])
    } else {
        grid_text(rows.drop_last()) + seq!['\n'] + row_text(rows.last())
    }
}

proof fn lemma_digit_char(d: nat)
    requires
        d < 10,
    ensures
        is_digit(digit_char(d)),
        digit_char(d) as u32 - '0' as u32 == d,
{
    if d == 0 {
    } else if d == 1 {
    } else if d == 2 {
    } else if d == 3 {
    } else if d == 4 {
    } else if d == 5 {
    } else if d == 6 {
    } else if d == 7 {
    } else if d == 8 {
    } else {
    }
}

proof fn lemma_digits_of(n: nat)
    ensures
        digits_of(n).len() > 0,
        forall|i: int| 0 <= i < digits_of(n).len() ==> is_digit(#[trigger] digits_of(n)[i]),
        digits_value(digits_of(n)) == n,
    decreases n,
{
    if n < 10 {
        lemma_digit_char(n);
        assert(digits_of(n).drop_last() =~= Seq::<char>::empty());
        assert(digits_value(digits_of(n).drop_last()) == 0);
    } else {
        lemma_digits_of(n / 10);
        lemma_digit_char(n % 10);
        assert(digits_of(n).drop_last() =~= digits_of(n / 10));
        assert(digits_of(n).last() == digit_char(n % 10));
        assert(digits_value(digits_of(n)) == n / 10 * 10 + n % 10);
    }
}

proof fn lemma_decimal(v: i32)
    ensures
        decimal(v as int).len() > 0,
        forall|i: int| 0 <= i < decimal(v as int).len() ==> {
            let c = #[trigger] decimal(v as int)[i];
            is_digit(c) || c == '-'
        },
        is_int_literal(decimal(v as int)),
        literal_value(decimal(v as int)) == v,
{
    let t = decimal(v as int);
    if v < 0 {
        lemma_digits_of((-v) as nat);
        assert(magnitude_digits(t) =~= digits_of((-v) as nat));
    } else {
        lemma_digits_of(v as nat);
        assert(magnitude_digits(t) =~= digits_of(v as nat));
    }
}

proof fn lemma_words_of_word(t: Seq<char>)
    requires
        t.len() > 0,
        forall|i: int| 0 <= i < t.len() ==> !is_space(#[trigger] t[i]),
    ensures
        words(t) == seq![t],
    decreases t.len(),
{
    if t.len() == 1 {
        assert(t.drop_last() =~= Seq::<char>::empty());
        assert(words(t.drop_last()).len() == 0);
        assert(seq![t.last()] =~= t);
        assert(words(t) =~= seq![t]);
    } else {
        lemma_words_of_word(t.drop_last());
        assert(t.drop_last().push(t.last()) =~= t);
        assert(words(t) =~= seq![t]);
    }
}

proof fn lemma_words_nonempty(s: Seq<char>)
    requires
        s.len() > 0,
        !is_space(s.last()),
    ensures
        words(s).len() > 0,
    decreases s.len(),
{
    if s.len() >= 2 && !is_space(s[s.len() - 2]) {
        lemma_words_nonempty(s.drop_last());
    }
}

/// The words of two texts joined by a whitespace character are the words of
/// the first followed by those of the second.
proof fn lemma_words_join(a: Seq<char>, sep: char, b: Seq<char>)
    requires
        is_space(sep),
    ensures
        words(a + seq![sep] + b) == words(a) + words(b),
    decreases b.len(),
{
    let x = a + seq![sep] + b;
    if b.len() == 0 {
        assert(x.drop_last() =~= a);
        assert(words(a) + words(b) =~= words(a));
    } else {
        let b0 = b.drop_last();
        let c = b.last();
        lemma_words_join(a, sep, b0);
        assert(x.drop_last() =~= a + seq![sep] + b0);
        let w = words(a + seq![sep] + b0);
        if is_space(c) {
        } else if b0.len() > 0 && !is_space(b0.last()) {
            assert(x[x.len() - 2] == b0.last());
            lemma_words_nonempty(b0);
            assert(b[b.len() - 2] == b0.last());
            assert(words(x) =~= words(a) + words(b));
        } else {
            if b0.len() > 0 {
                assert(x[x.len() - 2] == b0.last());
                assert(b[b.len() - 2] == b0.last());
            } else {
                assert(x[x.len() - 2] == sep);
                assert(b0 =~= Seq::<char>::empty());
            }
            assert(words(x) =~= words(a) + words(b));
        }
    }
}

proof fn lemma_line_count_single(s: Seq<char>)
    requires
        forall|i: int| 0 <= i < s.len() ==> #[trigger] s[i] != '\n',
    ensures
        line_count(s) == 1,
    decreases s.len(),
{
    if s.len() > 0 {
        lemma_line_count_single(s.drop_last());
    }
}

proof fn lemma_line_count_join(a: Seq<char>, b: Seq<char>)
    ensures
        line_count(a + seq!['\n'] + b) == line_count(a) + line_count(b),
    decreases b.len(),
{
    let x = a + seq!['\n'] + b;
    if b.len() == 0 {
        assert(x.drop_last() =~= a);
    } else {
        lemma_line_count_join(a, b.drop_last());
        assert(x.drop_last() =~= a + seq!['\n'] + b.drop_last());
    }
}

proof fn lemma_row_words(row: Seq<i32>)
    ensures
        words(row_text(row)).len() == row.len(),
        forall|i: int|
            0 <= i < row.len() ==> #[trigger] words(row_text(row))[i] == decimal(row[i] as int),
        forall|i: int|
            0 <= i < row.len() ==> is_int_literal(#[trigger] words(row_text(row))[i]),
        forall|i: int| 0 <= i < row_text(row).len() ==> #[trigger] row_text(row)[i] != '\n',
    decreases row.len(),
{
    if row.len() == 0 {
        assert(words(row_text(row)) =~= Seq::<Seq<char>>::empty());
    } else {
        let last = row.last();
        lemma_decimal(last);
        lemma_words_of_word(decimal(last as int));
        if row.len() == 1 {
            assert(row[0] == last);
        } else {
            let pre = row.drop_last();
            lemma_row_words(pre);
            lemma_words_join(row_text(pre), ' ', decimal(last as int));
            assert forall|i: int| 0 <= i < row.len() implies #[trigger] words(row_text(row))[i]
                == decimal(row[i] as int) && is_int_literal(words(row_text(row))[i]) by {
                if i < pre.len() {
                    assert(pre[i] == row[i]);
                    lemma_decimal(pre[i]);
                }
            }
            assert forall|i: int| 0 <= i < row_text(row).len() implies #[trigger] row_text(row)[i]
                != '\n' by {
                let p = row_text(pre);
                if i < p.len() {
                    assert(row_text(row)[i] == p[i]);
                } else if i > p.len() {
                    assert(row_text(row)[i] == decimal(last as int)[i - p.len() - 1]);
                }
            }
        }
    }
}

proof fn lemma_grid_words(rows: Seq<Seq<i32>>, width: nat)
    requires
        rows.len() >= 1,
        forall|r: int| 0 <= r < rows.len() ==> (#[trigger] rows[r]).len() == width,
    ensures
        words(grid_text(rows)).len() == rows.len() * width,
        forall|r: int, c: int|
            0 <= r < rows.len() && 0 <= c < width ==> #[trigger] words(grid_text(rows))[r * width
                + c] == decimal(rows[r][c] as int),
        forall|i: int|
            0 <= i < words(grid_text(rows)).len() ==> is_int_literal(
                #[trigger] words(grid_text(rows))[i],
            ),
        line_count(grid_text(rows)) == rows.len(),
    decreases rows.len(),
{
    let last = rows.last();
    lemma_row_words(last);
    lemma_line_count_single(row_text(last));
    if rows.len() == 1 {
        assert(rows[0] == last);
        assert forall|r: int, c: int| 0 <= r < rows.len() && 0 <= c < width implies #[trigger] words(
            grid_text(rows),
        )[r * width + c] == decimal(rows[r][c] as int) by {
            assert(r == 0);
            assert(r * width + c == c);
        }
    } else {
        let pre = rows.drop_last();
        let m = pre.len();
        assert forall|r: int| 0 <= r < pre.len() implies (#[trigger] pre[r]).len() == width by {
            assert(pre[r] == rows[r]);
        }
        lemma_grid_words(pre, width);
        lemma_words_join(grid_text(pre), '\n', row_text(last));
        lemma_line_count_join(grid_text(pre), row_text(last));
        let wp = words(grid_text(pre));
        let wl = words(row_text(last));
        assert(words(grid_text(rows)) == wp + wl);
        assert(m * width + width == rows.len() * width) by (nonlinear_arith)
            requires
                m + 1 == rows.len(),
        ;
        assert forall|r: int, c: int| 0 <= r < rows.len() && 0 <= c < width implies #[trigger] words(
            grid_text(rows),
        )[r * width + c] == decimal(rows[r][c] as int) by {
            if r < m {
                lemma_index_in_bounds(r, c, m as int, width as int);
                assert(pre[r] == rows[r]);
                assert(wp[r * width + c] == decimal(pre[r][c] as int));
            } else {
                assert(r * width == m * width);
                assert(rows[r] == last);
                assert(wl[c] == decimal(last[c] as int));
            }
        }
    }
}

/// Writing a rectangular grid of at least one row as text (each cell in
/// decimal, cells separated by spaces, rows by newlines) and reading that text
/// back succeeds and gives the same grid, cell for cell.
pub proof fn lemma_parse_round_trip(rows: Seq<Seq<i32>>, width: nat, g: GridView)
    requires
        rows.len() >= 1,
        forall|r: int| 0 <= r < rows.len() ==> (#[trigger] rows[r]).len() == width,
    ensures
        parse_succeeds(grid_text(rows)),
        parsed_as(grid_text(rows), g) ==> {
            &&& g.height == rows.len()
            &&& g.width == width
            &&& forall|r: int, c: int|
                0 <= r < rows.len() && 0 <= c < width ==> #[trigger] g.at(r, c) == rows[r][c]
        },
{
    let s = grid_text(rows);
    let m = rows.len();
    lemma_grid_words(rows, width);
    assert((m * width) / m == width) by (nonlinear_arith)
        requires
            m >= 1,
    ;
    if parsed_as(s, g) {
        assert(g.width == width) by (nonlinear_arith)
            requires
                m * g.width == m * width,
                m >= 1,
        ;
        assert forall|r: int, c: int| 0 <= r < rows.len() && 0 <= c < width implies #[trigger] g.at(
            r,
            c,
        ) == rows[r][c] by {
            lemma_index_in_bounds(r, c, m as int, width as int);
            lemma_decimal(rows[r][c]);
        }
    }
}

} // verus!
