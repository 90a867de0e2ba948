use vstd::prelude::*;
use crate::range::SameAs;

verus! {

pub const WIDTH: usize = 9;

pub const HEIGHT: usize = 9;

pub const BLOCK_SIZE: usize = 3;

pub const NUM_BLOCKS: usize = WIDTH / BLOCK_SIZE;

/// Number of cells of the grid.
pub const NUM_CELLS: usize = WIDTH * HEIGHT;

/// Row of the cell with flat index `c` (cells are numbered row by row).
pub open spec fn row_of(c: int) -> int {
    c / 9
}

/// Column of the cell with flat index `c`.
pub open spec fn column_of(c: int) -> int {
    c % 9
}

/// Whether cells `a` and `b` lie in one 3x3 block.
pub open spec fn same_block(a: int, b: int) -> bool {
    row_of(a) / 3 == row_of(b) / 3 && column_of(a) / 3 == column_of(b) / 3
}

/// Whether cells `a` and `b` share a row, a column or a block.
pub open spec fn same_unit(a: int, b: int) -> bool {
    row_of(a) == row_of(b) || column_of(a) == column_of(b) || same_block(a, b)
}

#[derive(Copy, Clone, Debug, PartialEq, Eq, Structural)]
pub struct GridColumn(pub usize);

#[derive(Copy, Clone, Debug, PartialEq, Eq, Structural)]
pub struct GridRow(pub usize);

#[derive(Copy, Clone, Debug, PartialEq, Eq, Structural)]
pub struct BlockColumn(pub usize);

#[derive(Copy, Clone, Debug, PartialEq, Eq, Structural)]
pub struct BlockRow(pub usize);

/// One of the nine 3x3 blocks, by its block column and block row.
#[derive(Copy, Clone, Debug, PartialEq, Eq, Structural)]
pub struct GridBlock {
    pub x: BlockColumn,
    pub y: BlockRow,
}

/// An offset inside a block.
#[derive(Copy, Clone, Debug, PartialEq, Eq, Structural)]
pub struct BlockPoint {
    pub x: BlockColumn,
    pub y: BlockRow,
}

/// A cell of the grid.
#[derive(Copy, Clone, Debug, PartialEq, Eq, Structural)]
pub struct GridPoint {
    pub x: GridColumn,
    pub y: GridRow,
}

impl GridBlock {
    pub open spec fn is_valid(self) -> bool {
        self.x.0 < NUM_BLOCKS && self.y.0 < NUM_BLOCKS
    }

    /// The cell at offset `p` inside this block.
    pub fn grid_point(&self, p: BlockPoint) -> (r: GridPoint)
        requires
            self.is_valid(),
            p.is_valid(),
        ensures
            r.x.0 == self.x.0 * BLOCK_SIZE + p.x.0,
            r.y.0 == self.y.0 * BLOCK_SIZE + p.y.0,
            r.is_valid(),
    {
        GridPoint {
            x: GridColumn(self.x.0 * BLOCK_SIZE + p.x.0),
            y: GridRow(self.y.0 * BLOCK_SIZE + p.y.0),
        }
    }
}

impl BlockPoint {
    pub open spec fn is_valid(self) -> bool {
        self.x.0 < BLOCK_SIZE && self.y.0 < BLOCK_SIZE
    }
}

impl GridPoint {
    pub open spec fn is_valid(self) -> bool {
        self.x.0 < WIDTH && self.y.0 < HEIGHT
    }

    /// Flat index of the cell, row by row.
    pub open spec fn cell(self) -> int {
        self.y.0 * WIDTH + self.x.0
    }

    pub fn column(&self) -> (r: GridColumn)
        ensures
            r == self.x,
    {
        self.x
    }

    pub fn row(&self) -> (r: GridRow)
        ensures
            r == self.y,
    {
        self.y
    }

    /// The block that holds this cell.
    pub fn block(&self) -> (r: GridBlock)
        ensures
            r.x.0 == self.x.0 / BLOCK_SIZE,
            r.y.0 == self.y.0 / BLOCK_SIZE,
            self.is_valid() ==> r.is_valid(),
    {
        GridBlock { x: BlockColumn(self.x.0 / BLOCK_SIZE), y: BlockRow(self.y.0 / BLOCK_SIZE) }
    }
}

impl From<usize> for GridColumn {
    fn from(u: usize) -> (r: GridColumn) {
        GridColumn(u)
    }
}

impl vstd::std_specs::convert::FromSpecImpl<usize> for GridColumn {
    open spec fn obeys_from_spec() -> bool {
        true
    }

    open spec fn from_spec(u: usize) -> GridColumn {
        GridColumn(u)
    }
}

impl From<GridColumn> for usize {
    fn from(v: GridColumn) -> (r: usize) {
        v.0
    }
}

impl vstd::std_specs::convert::FromSpecImpl<GridColumn> for usize {
    open spec fn obeys_from_spec() -> bool {
        true
    }

    open spec fn from_spec(v: GridColumn) -> usize {
        v.0
    }
}

impl SameAs<usize> for GridColumn {

}

impl From<usize> for GridRow {
    fn from(u: usize) -> (r: GridRow) {
        GridRow(u)
    }
}

impl vstd::std_specs::convert::FromSpecImpl<usize> for GridRow {
    open spec fn obeys_from_spec() -> bool {
        true
    }

    open spec fn from_spec(u: usize) -> GridRow {
        GridRow(u)
    }
}

impl From<GridRow> for usize {
    fn from(v: GridRow) -> (r: usize) {
        v.0
    }
}

impl vstd::std_specs::convert::FromSpecImpl<GridRow> for usize {
    open spec fn obeys_from_spec() -> bool {
        true
    }

    open spec fn from_spec(v: GridRow) -> usize {
        v.0
    }
}

impl SameAs<usize> for GridRow {

}

impl From<usize> for BlockColumn {
    fn from(u: usize) -> (r: BlockColumn) {
        BlockColumn(u)
    }
}

impl vstd::std_specs::convert::FromSpecImpl<usize> for BlockColumn {
    open spec fn obeys_from_spec() -> bool {
        true
    }

    open spec fn from_spec(u: usize) -> BlockColumn {
        BlockColumn(u)
    }
}

impl From<BlockColumn> for usize {
    fn from(v: BlockColumn) -> (r: usize) {
        v.0
    }
}

impl vstd::std_specs::convert::FromSpecImpl<BlockColumn> for usize {
    open spec fn obeys_from_spec() -> bool {
        true
    }

    open spec fn from_spec(v: BlockColumn) -> usize {
        v.0
    }
}

impl SameAs<usize> for BlockColumn {

}

impl From<usize> for BlockRow {
    fn from(u: usize) -> (r: BlockRow) {
        BlockRow(u)
    }
}

impl vstd::std_specs::convert::FromSpecImpl<usize> for BlockRow {
    open spec fn obeys_from_spec() -> bool {
        true
    }

    open spec fn from_spec(u: usize) -> BlockRow {
        BlockRow(u)
    }
}

impl From<BlockRow> for usize {
    fn from(v: BlockRow) -> (r: usize) {
        v.0
    }
}

impl vstd::std_specs::convert::FromSpecImpl<BlockRow> for usize {
    open spec fn obeys_from_spec() -> bool {
        true
    }

    open spec fn from_spec(v: BlockRow) -> usize {
        v.0
    }
}

impl SameAs<usize> for BlockRow {

}

impl core::ops::Add<i32> for GridColumn {
    type Output = GridColumn;

    fn add(self, rhs: i32) -> (r: GridColumn) {
        if rhs >= 0 {
            GridColumn(self.0 + rhs as usize)
        } else {
            GridColumn(self.0 - (-(rhs as i64)) as usize)
        }
    }
}

impl vstd::std_specs::ops::AddSpecImpl<i32> for GridColumn {
    open spec fn obeys_add_spec() -> bool {
        true
    }

    /// The sum must be a valid index.
    open spec fn add_req(self, rhs: i32) -> bool {
        0 <= self.0 + rhs <= usize::MAX
    }

    open spec fn add_spec(self, rhs: i32) -> GridColumn {
        GridColumn((self.0 + rhs) as usize)
    }
}

impl core::ops::Add<usize> for GridRow {
    type Output = GridRow;

    fn add(self, rhs: usize) -> (r: GridRow) {
        GridRow(self.0 + rhs)
    }
}

impl vstd::std_specs::ops::AddSpecImpl<usize> for GridRow {
    open spec fn obeys_add_spec() -> bool {
        true
    }

    /// The sum must be a valid index.
    open spec fn add_req(self, rhs: usize) -> bool {
        self.0 + rhs <= usize::MAX
    }

    open spec fn add_spec(self, rhs: usize) -> GridRow {
        GridRow((self.0 + rhs) as usize)
    }
}

} // verus!
