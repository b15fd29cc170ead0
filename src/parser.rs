use vstd::prelude::*;
use crate::grid::{Grid, GridView};

verus! {

#[verifier::external_type_specification]
#[verifier::external_body]
pub struct ExParseIntError(std::num::ParseIntError);

/// Why a text could not be read as a grid.
#[derive(Debug)]
pub enum MatrixParseError {
    /// A token is not a decimal `i32` literal.
    InvalidNumber(std::num::ParseIntError),
    /// The tokens cannot be laid out as `height` rows of `width` cells.
    MalformedMatrix { height: usize, width: usize, actual_size: usize },
}

/// Unicode `White_Space`: the characters that `char::is_whitespace` accepts.
pub open spec fn is_space(c: char) -> bool {
    let u = c as u32;
    (0x9 <= u <= 0xd) || u == 0x20 || u == 0x85 || u == 0xa0 || u == 0x1680 || (0x2000 <= u
        <= 0x200a) || u == 0x2028 || u == 0x2029 || u == 0x202f || u == 0x205f || u == 0x3000
}

/// The maximal runs of non-whitespace characters of `s`, in order.
pub open spec fn words(s: Seq<char>) -> Seq<Seq<char>>
    decreases s.len(),
{
    if s.len() == 0 {
        seq![]
    } else {
        let prev = words(s.drop_last());
        let c = s.last();
        if is_space(c) {
            prev
        } else if s.len() >= 2 && !is_space(s[s.len() - 2]) {
            prev.update(prev.len() - 1, prev.last().push(c))
        } else {
            prev.push(seq![c])
        }
    }
}

/// The number of lines of `s` when it is split at every `'\n'`
/// (a trailing newline starts one more, empty, line).
pub open spec fn line_count(s: Seq<char>) -> nat
    decreases s.len(),
{
    if s.len() == 0 {
        1
    } else if s.last() == '\n' {
        line_count(s.drop_last()) + 1
    } else {
        line_count(s.drop_last())
    }
}

pub open spec fn is_digit(c: char) -> bool {
    '0' <= c <= '9'
}

/// The value of a sequence of decimal digits, most significant first.
pub open spec fn digits_value(d: Seq<char>) -> int
    decreases d.len(),
{
    if d.len() == 0 {
        0
    } else {
        digits_value(d.drop_last()) * 10 + (d.last() as u32 - '0' as u32)
    }
}

pub open spec fn has_sign(t: Seq<char>) -> bool {
    t.len() > 0 && (t[0] == '-' || t[0] == '+')
}

/// `t` without its leading sign, if it has one.
pub open spec fn magnitude_digits(t: Seq<char>) -> Seq<char> {
    if has_sign(t) {
        t.drop_first()
    } else {
        t
    }
}

/// The integer that the token `t` denotes: an optional sign and decimal digits.
pub open spec fn literal_value(t: Seq<char>) -> int {
    if t.len() > 0 && t[0] == '-' {
        -digits_value(magnitude_digits(t))
    } else {
        digits_value(magnitude_digits(t))
    }
}

/// Whether `t` is an `i32` literal: an optional `+` or `-`, then one or more
/// decimal digits, with a value in the range of `i32`.
pub open spec fn is_int_literal(t: Seq<char>) -> bool {
    let d = magnitude_digits(t);
    &&& d.len() > 0
    &&& forall|i: int| 0 <= i < d.len() ==> is_digit(#[trigger] d[i])
    &&& i32::MIN <= literal_value(t) <= i32::MAX
}

/// Whether every token in `ws` is an `i32` literal.
pub open spec fn all_literals(ws: Seq<Seq<char>>) -> bool {
    forall|i: int| 0 <= i < ws.len() ==> is_int_literal(#[trigger] ws[i])
}

/// Whether `s` reads as a grid: every word is an `i32` literal and the number
/// of lines divides the number of words.
pub open spec fn parse_succeeds(s: Seq<char>) -> bool {
    &&& all_literals(words(s))
    &&& line_count(s) * (words(s).len() / line_count(s)) == words(s).len()
}

/// `g` is the grid that `s` reads as: one row per line, the words' values in
/// row-major order.
pub open spec fn parsed_as(s: Seq<char>, g: GridView) -> bool {
    &&& g.wf()
    &&& g.height == line_count(s)
    &&& g.height * g.width == words(s).len()
    &&& g.cells.len() == words(s).len()
    &&& forall|i: int| 0 <= i < g.cells.len() ==> #[trigger] g.cells[i] == literal_value(words(s)[i])
}

/// Relies on `str::chars`: the characters of the string, in order.
#[verifier::external_body]
fn chars_of(s: &str) -> (r: Vec<char>)
    ensures
        r@ == s@,
{
    s.chars().collect()
}

/// Relies on `str::parse::<i32>` (`i32`'s `FromStr`): it accepts exactly an
/// optional `+` or `-` followed by one or more ASCII digits whose value fits in
/// an `i32`, and returns that value.
#[verifier::external_body]
fn parse_token(t: &Vec<char>) -> (r: Result<i32, std::num::ParseIntError>)
    ensures
        r is Ok <==> is_int_literal(t@),
        r is Ok ==> r->Ok_0 == literal_value(t@),
{
    t.iter().collect::<String>().parse::<i32>()
}

fn is_space_char(c: char) -> (r: bool)
    ensures
        r == is_space(c),
{
    let u = c as u32;
    (0x9 <= u && u <= 0xd) || u == 0x20 || u == 0x85 || u == 0xa0 || u == 0x1680 || (0x2000 <= u
        && u <= 0x200a) || u == 0x2028 || u == 0x2029 || u == 0x202f || u == 0x205f || u
        == 0x3000
}

/// The words found so far: the finished ones, then the one being read, if any.
spec fn pending(done: Seq<Seq<char>>, cur: Seq<char>) -> Seq<Seq<char>> {
    if cur.len() > 0 {
        done.push(cur)
    } else {
        done
    }
}

/// Splits `text` into its words and counts its lines.
fn tokenize(text: &str) -> (r: (Vec<Vec<char>>, usize))
    requires
        text@.len() < usize::MAX,
    ensures
        r.0@.len() == words(text@).len(),
        forall|k: int| 0 <= k < r.0@.len() ==> (#[trigger] r.0@[k])@ == words(text@)[k],
        r.1 == line_count(text@),
        r.1 >= 1,
{
    let chars = chars_of(text);
    let n: usize = chars.len();
    let mut toks: Vec<Vec<char>> = Vec::new();
    let ghost mut done: Seq<Seq<char>> = seq![];
    let mut cur: Vec<char> = Vec::new();
    let mut lines: usize = 1;
    let mut i: usize = 0;
    proof {
        assert(chars@.take(0) =~= Seq::<char>::empty());
    }
    while i < n
        invariant
            n == chars@.len(),
            chars@ == text@,
            n < usize::MAX,
            0 <= i <= n,
            toks@.len() == done.len(),
            forall|k: int| 0 <= k < toks@.len() ==> (#[trigger] toks@[k])@ == done[k],
            pending(done, cur@) == words(chars@.take(i as int)),
            cur@.len() > 0 <==> (i > 0 && !is_space(chars@[i - 1])),
            lines == line_count(chars@.take(i as int)),
            1 <= lines <= i + 1,
        decreases n - i,
    {
        let c = chars[i];
        let ghost prefix = chars@.take(i + 1);
        proof {
            assert(prefix.drop_last() =~= chars@.take(i as int));
            assert(prefix.last() == c);
        }
        if is_space_char(c) {
            if cur.len() > 0 {
                proof {
                    done = done.push(cur@);
                }
                toks.push(cur);
                cur = Vec::new();
            }
            if c == '\n' {
                lines = lines + 1;
            }
        } else {
            proof {
                if cur@.len() > 0 {
                    assert(prefix[prefix.len() - 2] == chars@[i - 1]);
                    assert(words(prefix) =~= done.push(cur@.push(c)));
                } else {
                    if i > 0 {
                        assert(prefix[prefix.len() - 2] == chars@[i - 1]);
                    }
                    assert(words(prefix) =~= done.push(seq![c]));
                    assert(cur@.push(c) =~= seq![c]);
                }
            }
            cur.push(c);
        }
        i = i + 1;
    }
    proof {
        assert(chars@.take(n as int) =~= chars@);
    }
    if cur.len() > 0 {
        proof {
            done = done.push(cur@);
        }
        toks.push(cur);
    }
    assert(done =~= words(text@));
    (toks, lines)
}

/// Reads a grid from text: rows are separated by `'\n'`, the cells of a row by
/// whitespace, and each cell is an `i32` literal.
///
/// The grid has one row per line (so a trailing newline adds an empty row), and
/// as many columns as the number of cells divided by the number of rows. It is
/// built only when that shape holds every cell exactly.
pub fn parse_matrix(matrix_string: &str) -> (r: Result<Grid, MatrixParseError>)
    requires
        matrix_string@.len() < usize::MAX,
    ensures
        r is Ok <==> parse_succeeds(matrix_string@),
        r matches Ok(g) ==> parsed_as(matrix_string@, g@),
        !all_literals(words(matrix_string@)) ==> r matches Err(MatrixParseError::InvalidNumber(_)),
        all_literals(words(matrix_string@)) && !parse_succeeds(matrix_string@) ==> (r matches Err(
            MatrixParseError::MalformedMatrix { actual_size, .. },
        ) && actual_size == words(matrix_string@).len()),
        r matches Err(MatrixParseError::InvalidNumber(_)) ==> !all_literals(words(matrix_string@)),
        r matches Err(MatrixParseError::MalformedMatrix { height, width, actual_size }) ==> {
            &&& all_literals(words(matrix_string@))
            &&& height == line_count(matrix_string@)
            &&& actual_size == words(matrix_string@).len()
            &&& width == actual_size / height
            &&& height * width != actual_size
        },
{
    let (toks, height) = tokenize(matrix_string);
    let ghost ws = words(matrix_string@);
    let mut cells: Vec<i32> = Vec::new();
    let mut k: usize = 0;
    while k < toks.len()
        invariant
            ws == words(matrix_string@),
            height == line_count(matrix_string@),
            height >= 1,
            toks@.len() == ws.len(),
            forall|j: int| 0 <= j < toks@.len() ==> (#[trigger] toks@[j])@ == ws[j],
            0 <= k <= toks@.len(),
            cells@.len() == k,
            forall|j: int|
                0 <= j < k ==> is_int_literal(#[trigger] ws[j]) && cells@[j] == literal_value(
                    ws[j],
                ),
        decreases toks@.len() - k,
    {
        match parse_token(&toks[k]) {
            Ok(v) => cells.push(v),
            Err(e) => {
                assert(!is_int_literal(ws[k as int]));
                return Err(MatrixParseError::InvalidNumber(e));
            },
        }
        k = k + 1;
    }
    let total: usize = cells.len();
    let width: usize = total / height;
    assert(width * height <= total) by (nonlinear_arith)
        requires
            width == total / height,
            height > 0,
    ;
    if height * width == total {
        Ok(Grid::from_cells(cells, height, width))
    } else {
        Err(MatrixParseError::MalformedMatrix { height, width, actual_size: total })
    }
}

} // verus!
