use sudoku_rust::grid::{
    BlockColumn, BlockPoint, BlockRow, GridBlock, GridColumn, GridPoint, GridRow,
};
use sudoku_rust::range::Range;

#[test]
fn point_coordinates_and_block() {
    let p = GridPoint { x: GridColumn(7), y: GridRow(4) };
    assert_eq!(p.column(), GridColumn(7));
    assert_eq!(p.row(), GridRow(4));
    assert_eq!(p.block(), GridBlock { x: BlockColumn(2), y: BlockRow(1) });
}

#[test]
fn block_offsets_to_grid_points() {
    let b = GridBlock { x: BlockColumn(1), y: BlockRow(2) };
    let p = b.grid_point(BlockPoint { x: BlockColumn(2), y: BlockRow(0) });
    assert_eq!(p, GridPoint { x: GridColumn(5), y: GridRow(6) });
}

#[test]
fn coordinate_arithmetic() {
    assert_eq!(GridColumn(3) + 2, GridColumn(5));
    assert_eq!(GridColumn(3) + -3, GridColumn(0));
    assert_eq!(GridRow(3) + 4usize, GridRow(7));
    assert_eq!(usize::from(GridRow(6)), 6);
    assert_eq!(BlockColumn::from(2usize), BlockColumn(2));
}

#[test]
fn range_walks_its_coordinates() {
    let mut it = Range::new(GridRow(2), GridRow(5)).into_iter();
    let mut seen = Vec::new();
    while let Some(row) = it.next() {
        seen.push(row);
    }
    assert_eq!(seen, vec![GridRow(2), GridRow(3), GridRow(4)]);
    assert_eq!(it.next(), None);
}
