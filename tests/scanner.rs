use grid_product::render::pretty_string;
use grid_product::{
    diagonal_max, horizontal_max, max_four_product, parse_matrix, vertical_max, Grid,
};

fn grid(text: &str) -> Grid {
    parse_matrix(text).unwrap()
}

#[test]
fn horizontal() {
    let matrix = r"2 3 4 5 0
                       0 0 0 0 0
                       0 0 0 0 0
                       0 0 0 0 0";

    let matrix = parse_matrix(matrix).unwrap();

    assert_eq!(max_four_product(&matrix), 120);
    assert_eq!(horizontal_max(&matrix), 120);
}

#[test]
fn vertical() {
    let matrix = r"2 0 0 0 0
                       3 0 0 0 0
                       4 0 0 0 0
                       5 0 0 0 0
                       0 0 0 0 0";

    let matrix = parse_matrix(matrix).unwrap();

    assert_eq!(max_four_product(&matrix), 120);
    assert_eq!(vertical_max(&matrix), 120);
}

#[test]
fn diagonal_1() {
    let matrix = r"2 0 0 0 0
                       0 3 0 0 0
                       0 0 4 0 0
                       0 0 0 5 0
                       0 0 0 0 0";

    let matrix = parse_matrix(matrix).unwrap();

    assert_eq!(max_four_product(&matrix), 120);
    assert_eq!(diagonal_max(&matrix), 120);
}

#[test]
fn diagonal_2() {
    let matrix = r"0 0 0 5 0
                       0 0 4 0 0
                       0 3 0 0 0
                       2 0 0 0 0
                       0 0 0 0 0";

    let matrix = parse_matrix(matrix).unwrap();

    assert_eq!(max_four_product(&matrix), 120);
    assert_eq!(diagonal_max(&matrix), 120);
}

#[test]
fn right_corner() {
    let matrix = r"0 0 0 0 0
                       0 0 0 0 2
                       0 0 0 0 3
                       0 0 0 0 4
                       0 0 0 0 5";

    let matrix = parse_matrix(matrix).unwrap();

    assert_eq!(max_four_product(&matrix), 120);
    assert_eq!(vertical_max(&matrix), 120);
}

#[test]
fn bottom_corner() {
    let matrix = r"0 0 0 0 0
                       0 0 0 0 0
                       0 0 0 0 0
                       0 0 0 0 0
                       0 2 3 4 5";

    let matrix = parse_matrix(matrix).unwrap();

    assert_eq!(max_four_product(&matrix), 120);
    assert_eq!(horizontal_max(&matrix), 120);
}

#[test]
fn large_matrix() {
    let matrix = r" 1  2  1  2 50  2  1  2  1  2  1  2
                        2  1  2 10  2  1  2  1  2  1  2  1
                        1  2 10  1  1 20  1  2  1  2  1  2
                        2 10  2  1  2 10  2  1  2  1  2  1
                        1  2 10  2  1 10  1  2  1  2  1  2
                        2  1  2 10 10 10 30  1  2  1  2  1
                        1  2  1  2 40  2  1  2  1  2  1  2
                        2  1  2  1  2  1  2  1  2  1  2  1
                        1  2  1  2  1  2  1  2  1  2  1  2";

    let matrix = parse_matrix(matrix).unwrap();

    assert_eq!(max_four_product(&matrix), 50_000);
    assert_eq!(horizontal_max(&matrix), 30_000);
    assert_eq!(vertical_max(&matrix), 20_000);
    assert_eq!(diagonal_max(&matrix), 50_000);
}

#[test]
fn undersized_grid_gives_zero_everywhere() {
    let g = grid("1 2 3\n4 5 6\n7 8 9");
    assert_eq!(horizontal_max(&g), 0);
    assert_eq!(vertical_max(&g), 0);
    assert_eq!(diagonal_max(&g), 0);
    assert_eq!(max_four_product(&g), 0);
}

#[test]
fn single_row_has_only_horizontal_windows() {
    let g = grid("1 2 3 4 5");
    assert_eq!(horizontal_max(&g), 120);
    assert_eq!(vertical_max(&g), 0);
    assert_eq!(diagonal_max(&g), 0);
    assert_eq!(max_four_product(&g), 120);
}

#[test]
fn single_column_has_only_vertical_windows() {
    let g = grid("1\n2\n3\n4");
    assert_eq!(horizontal_max(&g), 0);
    assert_eq!(vertical_max(&g), 24);
    assert_eq!(diagonal_max(&g), 0);
    assert_eq!(max_four_product(&g), 24);
}

#[test]
fn negative_windows_keep_their_maximum() {
    // every window product is negative, and the best of them wins over 0
    let g = grid("-1 1 1 1 -2");
    assert_eq!(horizontal_max(&g), -1);
    assert_eq!(max_four_product(&g), 0);
}

#[test]
fn combined_is_the_largest_direction() {
    let g = grid("1 2 1 2 50\n2 1 2 10 2\n1 2 10 1 1\n2 10 2 1 2\n9 9 9 9 9");
    let h = horizontal_max(&g);
    let v = vertical_max(&g);
    let d = diagonal_max(&g);
    assert_eq!(h, 6561);
    assert_eq!(v, 360);
    assert_eq!(d, 50000);
    assert_eq!(max_four_product(&g), h.max(v).max(d));
}

#[test]
fn products_of_extreme_cells_are_exact() {
    let g = grid("-2147483648 -2147483648 -2147483648 -2147483648");
    assert_eq!(horizontal_max(&g), 21267647932558653966460912964485513216);
    let g = grid("2147483647 2147483647 2147483647 2147483647");
    assert_eq!(horizontal_max(&g), 2147483647i128.pow(4));
}

#[test]
fn anti_diagonal_beats_main_diagonal() {
    let g = grid("1 0 0 2\n0 1 2 0\n0 2 1 0\n2 0 0 1");
    assert_eq!(diagonal_max(&g), 16);
}

#[test]
fn pretty_string_pads_cells_and_joins_rows() {
    let g = grid("1 -5 12\n0 100 -123");
    assert_eq!(pretty_string(&g), "01 -5 12\n00 100 -123");
    assert_eq!(pretty_string(&grid("")), "");
}
