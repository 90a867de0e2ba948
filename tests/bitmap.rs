use sudoku_rust::bitmap::Bitmap;
use sudoku_rust::digit::{self, Digit};
use sudoku_rust::grid::{BlockColumn, BlockRow, GridBlock, GridColumn, GridPoint, GridRow};
use sudoku_rust::variants::Variants;

fn point(x: usize, y: usize) -> GridPoint {
    GridPoint { x: GridColumn(x), y: GridRow(y) }
}

fn digit_at(index: u8) -> Digit {
    Digit::from_index(index).unwrap()
}

fn same_unit(a: (usize, usize), b: (usize, usize)) -> bool {
    a.0 == b.0 || a.1 == b.1 || (a.0 / 3 == b.0 / 3 && a.1 / 3 == b.1 / 3)
}

fn all_cells(bitmap: &Bitmap) -> Vec<Variants> {
    let mut cells = Vec::new();
    for y in 0..9 {
        for x in 0..9 {
            cells.push(bitmap.get_variants(point(x, y)));
        }
    }
    cells
}

#[test]
fn test_row_iterator() {
    let bitmap = Bitmap::new();
    let mut rows = bitmap.iter();
    let mut n_rows = 0;
    while let Some(row) = rows.next() {
        let mut cells = row.iter();
        let mut n_cells = 0;
        while let Some(vars) = cells.next() {
            assert_eq!(vars, Variants::any());
            n_cells += 1;
        }
        assert_eq!(n_cells, 9);
        n_rows += 1;
    }
    assert_eq!(n_rows, 9);
}

#[test]
fn test_clear_row() {
    let mut bitmap = Bitmap::new();
    let target_row = GridRow(1);
    let target_digit = digit_at(digit::FIVE);

    bitmap.clear_row(target_row, target_digit);

    let mut rows = bitmap.iter();
    let mut y = 0;
    while let Some(row) = rows.next() {
        let expected = if GridRow(y) == target_row {
            Variants::any() ^ target_digit
        } else {
            Variants::any()
        };
        let mut cells = row.iter();
        let mut x = 0;
        while let Some(vars) = cells.next() {
            assert_eq!(expected, vars, "y: {}, x: {}", y, x);
            x += 1;
        }
        y += 1;
    }
}

#[test]
fn test_clear_column() {
    let mut bitmap = Bitmap::new();
    let target_row = GridColumn(3);
    let target_digit = digit_at(digit::EIGHT);

    bitmap.clear_column(target_row, target_digit);

    let mut rows = bitmap.iter();
    let mut y = 0;
    while let Some(row) = rows.next() {
        let mut cells = row.iter();
        let mut x = 0;
        while let Some(vars) = cells.next() {
            let expected = if GridColumn(x) == target_row {
                Variants::any() ^ target_digit
            } else {
                Variants::any()
            };
            assert_eq!(expected, vars, "y: {}, x: {}", y, x);
            x += 1;
        }
        y += 1;
    }
}

#[test]
fn clear_block_touches_only_the_block() {
    let mut bitmap = Bitmap::new();
    let block = GridBlock { x: BlockColumn(2), y: BlockRow(1) };
    let d = digit_at(digit::TWO);
    bitmap.clear_block(block, d);
    for y in 0..9 {
        for x in 0..9 {
            let expected = if x / 3 == 2 && y / 3 == 1 {
                Variants::any() ^ d
            } else {
                Variants::any()
            };
            assert_eq!(bitmap.get_variants(point(x, y)), expected, "y: {}, x: {}", y, x);
        }
    }
}

#[test]
fn new_bitmap_holds_any_everywhere() {
    let bitmap = Bitmap::new();
    for vars in all_cells(&bitmap) {
        assert_eq!(vars, Variants::any());
        assert_eq!(vars.count(), 9);
    }
}

#[test]
fn set_then_get_round_trips_on_every_cell() {
    let samples: Vec<u64> = vec![0, 0x1ff, 0x155, 0x0aa, 0x100, 0x001, 0x0f0, 0x10f];
    for (n, bits) in samples.iter().enumerate() {
        let mut bitmap = Bitmap::new();
        for y in 0..9 {
            for x in 0..9 {
                let value = Variants::from_bits((*bits + (x + 9 * y) as u64) & 0x1ff).unwrap();
                bitmap.set_variants(point(x, y), value);
                assert_eq!(bitmap.get_variants(point(x, y)), value, "sample {}", n);
            }
        }
        for y in 0..9 {
            for x in 0..9 {
                let value = Variants::from_bits((*bits + (x + 9 * y) as u64) & 0x1ff).unwrap();
                assert_eq!(bitmap.get_variants(point(x, y)), value, "sample {} y {} x {}", n, y, x);
            }
        }
    }
}

#[test]
fn write_to_straddling_cell_keeps_neighbours() {
    // Cell 7 starts at bit 63, so its field spans words 0 and 1.
    let mut bitmap = Bitmap::new();
    let empty = Variants::new();
    bitmap.set_variants(point(7, 0), empty);
    assert_eq!(bitmap.get_variants(point(7, 0)), empty);
    assert_eq!(bitmap.get_variants(point(6, 0)), Variants::any());
    assert_eq!(bitmap.get_variants(point(8, 0)), Variants::any());
    let one = Variants::from_bits(0x101).unwrap();
    bitmap.set_variants(point(7, 0), one);
    assert_eq!(bitmap.get_variants(point(7, 0)), one);
    // Cell 63 ends exactly on a word boundary.
    bitmap.set_variants(point(0, 7), empty);
    assert_eq!(bitmap.get_variants(point(0, 7)), empty);
    assert_eq!(bitmap.get_variants(point(1, 7)), Variants::any());
    assert_eq!(bitmap.get_variants(point(8, 6)), Variants::any());
}

#[test]
fn set_digit_resolves_the_cell() {
    let mut bitmap = Bitmap::new();
    let d = digit_at(digit::SEVEN);
    bitmap.set_digit(point(4, 4), d);
    assert_eq!(bitmap.get_digit(point(4, 4)), Ok(d));
    assert_eq!(bitmap.get_digit(point(4, 5)), Err("multiple variants"));
}

#[test]
fn commit_eliminates_from_peers_only() {
    for &(px, py) in &[(0usize, 0usize), (4, 4), (7, 0), (8, 8), (2, 6)] {
        let mut bitmap = Bitmap::new();
        let d = digit_at(digit::FIVE);
        bitmap.set_known_digit(point(px, py), d);
        for y in 0..9 {
            for x in 0..9 {
                let vars = bitmap.get_variants(point(x, y));
                if (x, y) == (px, py) {
                    assert_eq!(vars, Variants::from_digit(d));
                } else if same_unit((x, y), (px, py)) {
                    assert!(!vars.has_digit(d));
                    assert_eq!(vars, Variants::any() ^ d);
                } else {
                    assert_eq!(vars, Variants::any());
                }
            }
        }
    }
}

#[test]
fn commit_twice_equals_commit_once() {
    let mut once = Bitmap::new();
    once.set_known_digit(point(3, 1), digit_at(digit::NINE));
    once.set_known_digit(point(5, 5), digit_at(digit::ONE));
    let mut twice = Bitmap::new();
    twice.set_known_digit(point(3, 1), digit_at(digit::NINE));
    twice.set_known_digit(point(5, 5), digit_at(digit::ONE));
    twice.set_known_digit(point(5, 5), digit_at(digit::ONE));
    assert_eq!(all_cells(&once), all_cells(&twice));
}

#[test]
fn single_five_in_corner() {
    let mut bitmap = Bitmap::new();
    let five = Digit::try_from('5').unwrap();
    bitmap.set_known_digit(point(0, 0), five);
    assert!(!bitmap.get_variants(point(1, 0)).has_digit(five));
    assert!(!bitmap.get_variants(point(0, 1)).has_digit(five));
    for y in 0..9 {
        for x in 0..9 {
            if x != 0 && y != 0 && (x >= 3 || y >= 3) {
                assert_eq!(bitmap.get_variants(point(x, y)), Variants::any());
            }
        }
    }
}

#[test]
fn contradiction_leaves_no_candidate() {
    let mut bitmap = Bitmap::new();
    for x in 1..9 {
        bitmap.set_known_digit(point(x, 0), digit_at(x as u8 - 1));
    }
    bitmap.set_known_digit(point(0, 5), digit_at(digit::NINE));
    assert_eq!(bitmap.get_variants(point(0, 0)), Variants::new());
    assert_eq!(bitmap.get_digit(point(0, 0)), Err("no variants"));
}

#[test]
fn commit_after_elimination_still_gives_the_singleton() {
    let mut bitmap = Bitmap::new();
    let d = digit_at(digit::THREE);
    bitmap.set_known_digit(point(0, 0), d);
    assert!(!bitmap.get_variants(point(5, 0)).has_digit(d));
    bitmap.set_known_digit(point(5, 0), d);
    assert_eq!(bitmap.get_variants(point(5, 0)), Variants::from_digit(d));
    assert!(!bitmap.get_variants(point(0, 0)).has_digit(d));
}
