use sudoku_rust::grid::GridPoint;
use sudoku_rust::solution::{for_each_point, for_each_point_mut, pretty, Solution};

fn board(rows: &[&str]) -> Vec<Vec<char>> {
    rows.iter().map(|r| r.chars().collect()).collect()
}

const SOLVED: [&str; 9] = [
    "534678912",
    "672195348",
    "198342567",
    "859761423",
    "426853791",
    "713924856",
    "961537284",
    "287419635",
    "345286179",
];

#[test]
fn empty_grid_stays_blank() {
    let input = board(&["........."; 9]);
    let mut b = input.clone();
    Solution::solve_sudoku(&mut b);
    assert_eq!(b, input);
}

#[test]
fn single_seed_resolves_only_its_cell() {
    let mut rows = vec!["........."; 9];
    rows[0] = "5........";
    let input = board(&rows);
    let mut b = input.clone();
    Solution::solve_sudoku(&mut b);
    assert_eq!(b, input);
}

#[test]
fn solved_grid_comes_back_unchanged() {
    let input = board(&SOLVED);
    let mut b = input.clone();
    Solution::solve_sudoku(&mut b);
    assert_eq!(b, input, "\n input:\n{}", pretty(&input));
}

#[test]
fn one_blank_cell_is_filled_in() {
    let mut input = board(&SOLVED);
    let expected = input.clone();
    input[4][4] = '.';
    input[8][0] = '.';
    let mut b = input.clone();
    Solution::solve_sudoku(&mut b);
    assert_eq!(b, expected);
}

#[test]
fn contradictory_cell_is_left_blank() {
    let mut rows = vec!["........."; 9];
    rows[0] = ".12345678";
    rows[5] = "9........";
    let input = board(&rows);
    let mut b = input.clone();
    Solution::solve_sudoku(&mut b);
    assert_eq!(b[0][0], '.');
    assert_eq!(b[0][1], '1');
    assert_eq!(b[5][0], '9');
}

#[test]
fn points_are_listed_row_by_row() {
    let input = board(&SOLVED);
    let points = for_each_point(&input);
    assert_eq!(points.len(), 81);
    assert_eq!(points[0].1, '5');
    assert_eq!(points[10].0.x.0, 1);
    assert_eq!(points[10].0.y.0, 1);
    assert_eq!(points[10].1, '7');
    assert_eq!(points[80].1, '9');
}

#[test]
fn every_point_is_rewritten() {
    let mut b = board(&["........."; 9]);
    for_each_point_mut(&mut b, |p: GridPoint, _old: char| if p.x.0 == p.y.0 { '1' } else { '.' });
    for y in 0..9 {
        for x in 0..9 {
            assert_eq!(b[y][x], if x == y { '1' } else { '.' });
        }
    }
}

#[test]
fn pretty_writes_rows_as_json() {
    let input = board(&["1.", ".2"]);
    assert_eq!(pretty(&input), "[\"1\",\".\"]\n[\".\",\"2\"]");
}

#[test]
fn points_of_a_ragged_board() {
    let input = board(&["ab", "", "cde"]);
    let points = for_each_point(&input);
    let listed: Vec<(usize, usize, char)> =
        points.iter().map(|(p, ch)| (p.y.0, p.x.0, *ch)).collect();
    assert_eq!(listed, vec![(0, 0, 'a'), (0, 1, 'b'), (2, 0, 'c'), (2, 1, 'd'), (2, 2, 'e')]);
}

#[test]
fn rewrite_a_ragged_board_from_old_characters() {
    let mut b = board(&["ab", "", "cde"]);
    for_each_point_mut(&mut b, |p: GridPoint, old: char| {
        if p.y.0 == 2 { old.to_ascii_uppercase() } else { old }
    });
    assert_eq!(b, board(&["ab", "", "CDE"]));
}
