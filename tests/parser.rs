use grid_product::{parse_matrix, Grid, MatrixParseError};
use ndarray::arr2;
use ndarray::Array2;

fn same_grid(g: &Grid, expected: &Array2<i32>) -> bool {
    if g.height() != expected.nrows() || g.width() != expected.ncols() {
        return false;
    }
    for r in 0..g.height() {
        for c in 0..g.width() {
            if g.get(r, c) != expected[[r, c]] {
                return false;
            }
        }
    }
    true
}

#[test]
fn small_matrix() {
    let string = r"0 1 2
                       3 4 5
                       6 7 8";

    let expected = arr2(&[[0, 1, 2], [3, 4, 5], [6, 7, 8]]);

    assert_eq!(0, expected[[0, 0]]);
    assert_eq!(1, expected[[0, 1]]);
    assert_eq!(3, expected[[1, 0]]);

    assert!(same_grid(&parse_matrix(string).unwrap(), &expected));
}

#[test]
fn tall_matrix() {
    let string = r"0 1 2
                       3 4 5
                       6 7 8
                       9 10 11";

    let expected = arr2(&[[0, 1, 2], [3, 4, 5], [6, 7, 8], [9, 10, 11]]);

    assert_eq!(3, expected.ncols());
    assert_eq!(4, expected.nrows());

    assert!(same_grid(&parse_matrix(string).unwrap(), &expected));
}

#[test]
fn wide_matrix() {
    let string = r"0 1 2 3
                       4 5 6 7
                       8 9 10 11";

    let expected = arr2(&[[0, 1, 2, 3], [4, 5, 6, 7], [8, 9, 10, 11]]);

    assert_eq!(4, expected.ncols());
    assert_eq!(3, expected.nrows());

    assert!(same_grid(&parse_matrix(string).unwrap(), &expected));
}

#[test]
fn bad_token_is_invalid_number() {
    let r = parse_matrix("1 2 x 4");
    assert!(matches!(r, Err(MatrixParseError::InvalidNumber(_))));
}

#[test]
fn bad_token_on_a_later_row_is_invalid_number() {
    let r = parse_matrix("1 2\n3 4\n5 6\n7 8\n9 1.5");
    assert!(matches!(r, Err(MatrixParseError::InvalidNumber(_))));
}

#[test]
fn out_of_range_token_is_invalid_number() {
    assert!(matches!(parse_matrix("2147483648"), Err(MatrixParseError::InvalidNumber(_))));
    assert!(matches!(parse_matrix("1 - 2"), Err(MatrixParseError::InvalidNumber(_))));
}

#[test]
fn ragged_rows_are_malformed() {
    match parse_matrix("1 2 3\n4 5 6\n7 8") {
        Err(MatrixParseError::MalformedMatrix { height, width, actual_size }) => {
            assert_eq!(height, 3);
            assert_eq!(width, 2);
            assert_eq!(actual_size, 8);
        }
        other => panic!("expected a malformed matrix, got {:?}", other),
    }
}

#[test]
fn trailing_newline_adds_an_empty_row() {
    match parse_matrix("1 2\n3 4\n") {
        Err(MatrixParseError::MalformedMatrix { height, width, actual_size }) => {
            assert_eq!(height, 3);
            assert_eq!(width, 1);
            assert_eq!(actual_size, 4);
        }
        other => panic!("expected a malformed matrix, got {:?}", other),
    }
}

#[test]
fn empty_text_is_one_empty_row() {
    let g = parse_matrix("").unwrap();
    assert_eq!(g.height(), 1);
    assert_eq!(g.width(), 0);
}

#[test]
fn signs_and_unicode_whitespace() {
    let g = parse_matrix("+5\u{3000}-7\t0\n  -0 12\u{a0}  +3  ").unwrap();
    assert_eq!(g.height(), 2);
    assert_eq!(g.width(), 3);
    assert_eq!(g.get(0, 0), 5);
    assert_eq!(g.get(0, 1), -7);
    assert_eq!(g.get(0, 2), 0);
    assert_eq!(g.get(1, 0), 0);
    assert_eq!(g.get(1, 1), 12);
    assert_eq!(g.get(1, 2), 3);
}

#[test]
fn written_grid_reads_back() {
    let rows: Vec<Vec<i32>> = vec![vec![-2147483648, 0, 7], vec![2147483647, -13, 100]];
    let text = rows
        .iter()
        .map(|r| r.iter().map(|v| v.to_string()).collect::<Vec<_>>().join(" "))
        .collect::<Vec<_>>()
        .join("\n");
    let g = parse_matrix(&text).unwrap();
    assert_eq!(g.height(), 2);
    assert_eq!(g.width(), 3);
    for r in 0..2 {
        for c in 0..3 {
            assert_eq!(g.get(r, c), rows[r][c]);
        }
    }
}

#[test]
fn every_row_has_width_cells() {
    let g = parse_matrix("1 2 3 4\n5 6 7 8").unwrap();
    assert_eq!(g.height() * g.width(), 8);
}

#[test]
fn uneven_rows_with_a_divisible_total_still_form_a_grid() {
    // the shape is decided by the token count alone: 9 tokens on 3 lines
    let g = parse_matrix("1 2 3\n4 5 6 7\n8 9").unwrap();
    assert_eq!(g.height(), 3);
    assert_eq!(g.width(), 3);
    assert_eq!(g.get(1, 0), 4);
    assert_eq!(g.get(2, 0), 7);
}

#[test]
fn bad_token_wins_over_a_bad_shape() {
    assert!(matches!(parse_matrix("x\n1 2"), Err(MatrixParseError::InvalidNumber(_))));
}
