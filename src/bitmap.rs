use vstd::prelude::*;
use crate::digit::Digit;
use crate::grid::{
    column_of, row_of, same_unit, BlockColumn, BlockPoint, BlockRow, GridBlock, GridColumn, GridPoint, GridRow,
    HEIGHT, NUM_BLOCKS, NUM_CELLS, WIDTH,
};
use crate::variants::{all_digits, word_bits, Variants, NUM_BITS};

verus! {

/// Bits in one storage word.
pub const WORD_BITS: usize = 64;

/// Bits needed for the candidate sets of the whole grid.
pub const GRID_SIZE_BITS: usize = NUM_BITS * WIDTH * HEIGHT;

/// Storage words needed for the whole grid, rounded up.
pub const GRID_SIZE_TY: usize = (GRID_SIZE_BITS + WORD_BITS - 1) / WORD_BITS;

/// The nine bits of one cell's field, at the bottom of a word.
const MASK: u64 = 0x1ff;

/// Whether bit `b` of the word `w` is set.
pub open spec fn word_bit(w: u64, b: int) -> bool {
    (w >> (b as u64)) & 1u64 == 1u64
}

/// Bit `k` of the storage, counted across words from the low bit of the first.
pub open spec fn bit_at(words: Seq<u64>, k: int) -> bool {
    word_bit(words[k / 64], k % 64)
}

/// The candidate set that the storage holds for cell `c`: its field starts at
/// bit `9 * c`.
pub open spec fn cell_of(words: Seq<u64>, c: int) -> Set<nat> {
    Set::new(|d: nat| d < 9 && bit_at(words, c * 9 + d))
}

/// The state after the digit `d` becomes known at cell `c`: `c` holds `d`
/// alone, and every other cell of its row, column and block has lost `d`.
pub open spec fn committed(cells: Seq<Set<nat>>, c: int, d: nat) -> Seq<Set<nat>> {
    Seq::new(
        cells.len(),
        |q: int|
            if q == c {
                set![d]
            } else if same_unit(q, c) {
                cells[q].remove(d)
            } else {
                cells[q]
            },
    )
}

/// The candidate sets of all 81 cells, packed 9 bits per cell into 64-bit words.
#[derive(Debug)]
pub struct Bitmap {
    data: [u64; GRID_SIZE_TY],
}

impl View for Bitmap {
    type V = Seq<Set<nat>>;

    /// One candidate set per cell, row by row.
    closed spec fn view(&self) -> Seq<Set<nat>> {
        Seq::new(NUM_CELLS as nat, |c: int| cell_of(self.data@, c))
    }
}

/// A bit position of the storage.
#[derive(Debug)]
pub struct Index(usize);

impl View for Index {
    type V = nat;

    closed spec fn view(&self) -> nat {
        self.0 as nat
    }
}

/// The bit positions of one cell's field: `start` up to, not including, `end`.
struct IndexRange {
    start: Index,
    end: Index,
}

proof fn lemma_split_offset(k: int)
    requires
        k >= 0,
    ensures
        k == 64 * (k / 64) + k % 64,
        0 <= k % 64 < 64,
{
    vstd::arithmetic::div_mod::lemma_fundamental_div_mod(k, 64);
    vstd::arithmetic::div_mod::lemma_mod_pos_bound(k, 64);
}

proof fn lemma_read_inside(w: u64, sj: u64, d: u64)
    by (bit_vector)
    requires
        sj + 9 <= 64,
        d < 64,
    ensures
        d < 9 ==> (((w >> sj) & 0x1ffu64) >> d) & 1u64 == (w >> ((sj + d) as u64)) & 1u64,
        (w >> sj) & 0x1ffu64 <= 0x1ff,
{
}

proof fn lemma_read_across(w1: u64, w2: u64, sj: u64, ej: u64, d: u64)
    by (bit_vector)
    requires
        sj < 64,
        ej < 9,
        sj + 9 == 64 + ej,
        d < 9,
    ensures
        sj + d < 64 ==> ((((w1 >> sj) & 0x1ffu64) | ((w2 << ((9 - ej) as u64)) & 0x1ffu64))
            >> d) & 1u64 == (w1 >> ((sj + d) as u64)) & 1u64,
        sj + d >= 64 ==> ((((w1 >> sj) & 0x1ffu64) | ((w2 << ((9 - ej) as u64)) & 0x1ffu64))
            >> d) & 1u64 == (w2 >> ((sj + d - 64) as u64)) & 1u64,
        (((w1 >> sj) & 0x1ffu64) | ((w2 << ((9 - ej) as u64)) & 0x1ffu64)) <= 0x1ff,
{
}

proof fn lemma_write_low(w: u64, v: u64, sj: u64, b: u64)
    by (bit_vector)
    requires
        v <= 0x1ff,
        sj < 64,
        b < 64,
    ensures
        b < sj ==> (((w & !(0x1ffu64 << sj)) | (v << sj)) >> b) & 1u64 == (w >> b) & 1u64,
        sj <= b < sj + 9 ==> (((w & !(0x1ffu64 << sj)) | (v << sj)) >> b) & 1u64 == (v >> ((b
            - sj) as u64)) & 1u64,
        sj + 9 <= b ==> (((w & !(0x1ffu64 << sj)) | (v << sj)) >> b) & 1u64 == (w >> b) & 1u64,
{
}

proof fn lemma_write_high(w: u64, v: u64, ej: u64, b: u64)
    by (bit_vector)
    requires
        v <= 0x1ff,
        ej < 9,
        b < 64,
    ensures
        b < ej ==> (((w & !(0x1ffu64 >> ((9 - ej) as u64))) | (v >> ((9 - ej) as u64))) >> b)
            & 1u64 == (v >> ((b + 9 - ej) as u64)) & 1u64,
        b >= ej ==> (((w & !(0x1ffu64 >> ((9 - ej) as u64))) | (v >> ((9 - ej) as u64))) >> b)
            & 1u64 == (w >> b) & 1u64,
{
}

proof fn lemma_clear_word(w: u64, j: u64, b: u64)
    by (bit_vector)
    requires
        j < 64,
        b < 64,
    ensures
        b == j ==> ((w & !(1u64 << j)) >> b) & 1u64 != 1u64,
        b != j ==> ((w & !(1u64 << j)) >> b) & 1u64 == (w >> b) & 1u64,
{
}

proof fn lemma_set_word(w: u64, j: u64, b: u64)
    by (bit_vector)
    requires
        j < 64,
        b < 64,
    ensures
        b == j ==> ((w | (1u64 << j)) >> b) & 1u64 == 1u64,
        b != j ==> ((w | (1u64 << j)) >> b) & 1u64 == (w >> b) & 1u64,
{
}

/// When the storage bits change only inside the field of cell `c`, and there
/// as `field` says, the cells read as before with `c` replaced.
proof fn lemma_field_written(old_words: Seq<u64>, new_words: Seq<u64>, c: int, field: Set<nat>)
    requires
        0 <= c < 81,
        old_words.len() == GRID_SIZE_TY,
        new_words.len() == GRID_SIZE_TY,
        forall|k: int|
            0 <= k < 729 && !(c * 9 <= k < c * 9 + 9) ==> bit_at(new_words, k) == bit_at(
                old_words,
                k,
            ),
        forall|d: nat| d < 9 ==> (bit_at(new_words, c * 9 + d) <==> #[trigger] field.contains(d)),
        field.subset_of(all_digits()),
    ensures
        Seq::new(81, |q: int| cell_of(new_words, q)) == Seq::new(81, |q: int| cell_of(old_words, q)).update(c, field),
{
    let a = Seq::new(81, |q: int| cell_of(new_words, q));
    let b = Seq::new(81, |q: int| cell_of(old_words, q)).update(c, field);
    assert forall|q: int| 0 <= q < 81 implies a[q] == b[q] by {
        if q == c {
            assert(cell_of(new_words, q) =~= field);
        } else {
            assert forall|d: nat| #[trigger] cell_of(new_words, q).contains(d) == cell_of(
                old_words,
                q,
            ).contains(d) by {
                if d < 9 {
                    assert(!(c * 9 <= q * 9 + d < c * 9 + 9));
                }
            }
            assert(cell_of(new_words, q) =~= cell_of(old_words, q));
        }
    }
    assert(a =~= b);
}

proof fn lemma_cell_coords(row: int, col: int, n: int)
    requires
        0 <= row,
        0 <= col < n,
    ensures
        (row * n + col) / n == row,
        (row * n + col) % n == col,
{
    vstd::arithmetic::div_mod::lemma_fundamental_div_mod_converse(row * n + col, n, row, col);
}

/// Every cell index is its row times nine plus its column.
proof fn lemma_cell_split(q: int)
    requires
        0 <= q,
    ensures
        q == (q / 9) * 9 + q % 9,
        0 <= q % 9 < 9,
{
    vstd::arithmetic::div_mod::lemma_fundamental_div_mod(q, 9);
    vstd::arithmetic::div_mod::lemma_mod_pos_bound(q, 9);
}

/// When only bit `k` of the storage changed, to `value`, the cells read as
/// before but for the one digit that the bit stands for.
proof fn lemma_bit_written(old_words: Seq<u64>, new_words: Seq<u64>, k: int, value: bool)
    requires
        0 <= k < 729,
        old_words.len() == GRID_SIZE_TY,
        new_words.len() == GRID_SIZE_TY,
        forall|m: int| 0 <= m < 729 && m != k ==> bit_at(new_words, m) == bit_at(old_words, m),
        bit_at(new_words, k) == value,
    ensures
        Seq::new(81, |q: int| cell_of(new_words, q)) == Seq::new(81, |q: int| cell_of(old_words, q)).update(
            k / 9,
            if value {
                cell_of(old_words, k / 9).insert((k % 9) as nat)
            } else {
                cell_of(old_words, k / 9).remove((k % 9) as nat)
            },
        ),
{
    lemma_cell_split(k);
    let c = k / 9;
    let field = if value {
        cell_of(old_words, c).insert((k % 9) as nat)
    } else {
        cell_of(old_words, c).remove((k % 9) as nat)
    };
    assert forall|d: nat| d < 9 implies (bit_at(new_words, c * 9 + d)
        <==> #[trigger] field.contains(d)) by {
    }
    lemma_field_written(old_words, new_words, c, field);
}

/// Row, column and their block coordinates of cell `q`, as sums.
proof fn lemma_block_split(q: int)
    requires
        0 <= q,
    ensures
        q == row_of(q) * 9 + column_of(q),
        0 <= column_of(q) < 9,
        row_of(q) == (row_of(q) / 3) * 3 + row_of(q) % 3,
        column_of(q) == (column_of(q) / 3) * 3 + column_of(q) % 3,
        0 <= row_of(q) % 3 < 3,
        0 <= column_of(q) % 3 < 3,
{
    lemma_cell_split(q);
    vstd::arithmetic::div_mod::lemma_fundamental_div_mod(row_of(q), 3);
    vstd::arithmetic::div_mod::lemma_mod_pos_bound(row_of(q), 3);
    vstd::arithmetic::div_mod::lemma_fundamental_div_mod(column_of(q), 3);
    vstd::arithmetic::div_mod::lemma_mod_pos_bound(column_of(q), 3);
}

/// Whether cell `q` lies in block `b`.
pub open spec fn in_block(q: int, b: GridBlock) -> bool {
    row_of(q) / 3 == b.y.0 && column_of(q) / 3 == b.x.0
}

impl Index {
    /// The bit of digit `d` in the field of cell `p`.
    fn new(p: GridPoint, d: Digit) -> (r: Index)
        requires
            p.is_valid(),
        ensures
            r@ == p.cell() * 9 + d@,
            r@ < GRID_SIZE_BITS,
            d@ < 9,
    {
        let k = d.index() as usize;
        Index((p.y.0 * WIDTH + p.x.0) * NUM_BITS + k)
    }

    /// The word that holds this bit.
    pub fn i(&self) -> (r: usize)
        ensures
            r == self@ / 64,
    {
        self.0 / WORD_BITS
    }

    /// The bit's position inside its word.
    pub fn j(&self) -> (r: usize)
        ensures
            r == self@ % 64,
    {
        self.0 % WORD_BITS
    }
}

impl IndexRange {
    fn new(p: GridPoint) -> (r: IndexRange)
        requires
            p.is_valid(),
        ensures
            r.start@ == p.cell() * 9,
            r.end@ == r.start@ + 9,
    {
        let start = (p.y.0 * WIDTH + p.x.0) * NUM_BITS;
        IndexRange { start: Index(start), end: Index(start + NUM_BITS) }
    }
}

impl Bitmap {
    /// The grid holds one candidate set per cell.
    pub proof fn lemma_view_len(&self)
        ensures
            self@.len() == NUM_CELLS,
    {
    }

    /// A grid on which every digit is still possible in every cell.
    pub fn new() -> (r: Bitmap)
        ensures
            r@ == Seq::new(NUM_CELLS as nat, |c: int| all_digits()),
    {
        let r = Bitmap { data: [u64::MAX; GRID_SIZE_TY] };
        assert forall|c: int| 0 <= c < 81 implies #[trigger] cell_of(r.data@, c) == all_digits() by {
            assert forall|d: nat| d < 9 implies #[trigger] cell_of(r.data@, c).contains(d) by {
                let k = c * 9 + d;
                lemma_split_offset(k);
                let b = (k % 64) as u64;
                assert(r.data@[k / 64] == u64::MAX);
                assert((u64::MAX >> b) & 1u64 == 1u64) by (bit_vector)
                    requires
                        b < 64,
                ;
            }
            assert(cell_of(r.data@, c) =~= all_digits());
        }
        assert(r@ =~= Seq::new(NUM_CELLS as nat, |c: int| all_digits()));
        r
    }

    /// Writes the candidate set of cell `p`; a field that straddles two words
    /// is split at the word boundary.
    pub fn set_variants(&mut self, p: GridPoint, variants: Variants)
        requires
            p.is_valid(),
        ensures
            final(self)@ == old(self)@.update(p.cell(), variants@),
    {
        let range = IndexRange::new(p);
        let si = range.start.i();
        let sj = range.start.j();
        let ei = range.end.i();
        let ej = range.end.j();
        let ghost s = range.start@ as int;
        let ghost c = p.cell();
        proof {
            lemma_split_offset(s);
            lemma_split_offset(s + 9);
        }
        let v = variants.to_bits();
        let ghost old_words = self.data@;
        let w1 = self.data[si];
        let other_bits = w1 & !(MASK << (sj as u64));
        let digit_bits = v << (sj as u64);
        self.data[si] = other_bits | digit_bits;
        let ghost mut w2: u64 = 0;
        if ei > si {
            proof {
                w2 = self.data@[ei as int];
            }
            let w = self.data[ei];
            let other_bits = w & !(MASK >> ((NUM_BITS - ej) as u64));
            let digit_bits = v >> ((NUM_BITS - ej) as u64);
            self.data[ei] = other_bits | digit_bits;
        }
        proof {
            let new_words = self.data@;
            assert forall|k: int| 0 <= k < 729 implies #[trigger] bit_at(new_words, k) == if s <= k
                < s + 9 {
                word_bit(v, k - s)
            } else {
                bit_at(old_words, k)
            } by {
                lemma_split_offset(k);
                let b = (k % 64) as u64;
                if k / 64 == si {
                    lemma_write_low(w1, v, sj as u64, b);
                } else if ei > si && k / 64 == ei {
                    lemma_write_high(w2, v, ej as u64, b);
                }
            }
            assert forall|d: nat| d < 9 implies (bit_at(new_words, c * 9 + d)
                <==> #[trigger] variants@.contains(d)) by {
                assert(bit_at(new_words, s + d) == word_bit(v, d as int));
            }
            lemma_field_written(old_words, new_words, c, variants@);
        }
    }

    /// Reads the candidate set of cell `p`, joining the two parts of a field
    /// that straddles two words.
    #[verifier::rlimit(40)]
    pub fn get_variants(&self, p: GridPoint) -> (r: Variants)
        requires
            p.is_valid(),
        ensures
            self@.len() == NUM_CELLS,
            r@ == self@[p.cell()],
    {
        let range = IndexRange::new(p);
        let si = range.start.i();
        let sj = range.start.j();
        let ei = range.end.i();
        let ej = range.end.j();
        let ghost s = range.start@ as int;
        let ghost c = p.cell();
        proof {
            lemma_split_offset(s);
            lemma_split_offset(s + 9);
        }
        let w1 = self.data[si];
        let mut result: u64 = (w1 >> (sj as u64)) & MASK;
        let ghost mut w2: u64 = 0;
        if ei > si {
            let w = self.data[ei];
            proof {
                w2 = w;
            }
            let part2 = (w << ((NUM_BITS - ej) as u64)) & MASK;
            result = result | part2;
        }
        proof {
            assert forall|d: nat| d < 9 implies (#[trigger] word_bits(result).contains(d)
                <==> cell_of(self.data@, c).contains(d)) by {
                let k = c * 9 + d;
                lemma_split_offset(k);
                if ei > si {
                    lemma_read_across(w1, w2, sj as u64, ej as u64, d as u64);
                } else {
                    lemma_read_inside(w1, sj as u64, d as u64);
                }
            }
            if ei > si {
                lemma_read_across(w1, w2, sj as u64, ej as u64, 0);
            } else {
                lemma_read_inside(w1, sj as u64, 0);
            }
            assert forall|d: nat| 9 <= d implies !#[trigger] word_bits(result).contains(d) by {
                if d < 64 {
                    let e = d as u64;
                    assert((result >> e) & 1u64 != 1u64) by (bit_vector)
                        requires
                            result <= 0x1ff,
                            9 <= e,
                    ;
                }
            }
            assert(word_bits(result) =~= cell_of(self.data@, c));
        }
        match Variants::from_bits(result) {
            Ok(r) => r,
            Err(_) => {
                proof {
                    assert(false);
                }
                Variants::new()
            },
        }
    }

    fn clear_bit(&mut self, idx: Index)
        requires
            idx@ < GRID_SIZE_BITS,
        ensures
            final(self)@ == old(self)@.update(
                (idx@ / 9) as int,
                old(self)@[(idx@ / 9) as int].remove(idx@ % 9),
            ),
    {
        let ghost old_words = self.data@;
        let ghost k = idx@ as int;
        let i = idx.i();
        let j = idx.j();
        proof {
            lemma_split_offset(k);
        }
        let w = self.data[i];
        self.data[i] = w & !(1u64 << (j as u64));
        proof {
            assert forall|m: int| 0 <= m < 729 && m != k implies #[trigger] bit_at(self.data@, m)
                == bit_at(old_words, m) by {
                lemma_split_offset(m);
                if m / 64 == i {
                    lemma_clear_word(w, j as u64, (m % 64) as u64);
                }
            }
            lemma_clear_word(w, j as u64, j as u64);
            lemma_bit_written(old_words, self.data@, k, false);
        }
    }

    fn set_bit(&mut self, idx: Index)
        requires
            idx@ < GRID_SIZE_BITS,
        ensures
            final(self)@ == old(self)@.update(
                (idx@ / 9) as int,
                old(self)@[(idx@ / 9) as int].insert(idx@ % 9),
            ),
    {
        let ghost old_words = self.data@;
        let ghost k = idx@ as int;
        let i = idx.i();
        let j = idx.j();
        proof {
            lemma_split_offset(k);
        }
        let w = self.data[i];
        self.data[i] = w | (1u64 << (j as u64));
        proof {
            assert forall|m: int| 0 <= m < 729 && m != k implies #[trigger] bit_at(self.data@, m)
                == bit_at(old_words, m) by {
                lemma_split_offset(m);
                if m / 64 == i {
                    lemma_set_word(w, j as u64, (m % 64) as u64);
                }
            }
            lemma_set_word(w, j as u64, j as u64);
            lemma_bit_written(old_words, self.data@, k, true);
        }
    }

    /// Removes `d` from every cell of column `x`.
    pub fn clear_column(&mut self, x: GridColumn, d: Digit)
        requires
            x.0 < WIDTH,
        ensures
            final(self)@ == Seq::new(
                NUM_CELLS as nat,
                |q: int|
                    if column_of(q) == x.0 {
                        old(self)@[q].remove(d@)
                    } else {
                        old(self)@[q]
                    },
            ),
    {
        let ghost start = self@;
        let mut y: usize = 0;
        while y < HEIGHT
            invariant
                y <= HEIGHT,
                x.0 < WIDTH,
                self@ == Seq::new(
                    NUM_CELLS as nat,
                    |q: int|
                        if column_of(q) == x.0 && row_of(q) < y {
                            start[q].remove(d@)
                        } else {
                            start[q]
                        },
                ),
            decreases HEIGHT - y,
        {
            let idx = Index::new(GridPoint { x, y: GridRow(y) }, d);
            self.clear_bit(idx);
            proof {
                let c = y * 9 + x.0;
                lemma_cell_coords(y as int, x.0 as int, 9);
                lemma_cell_coords(c, d@ as int, 9);
                assert forall|q: int| 0 <= q < 81 implies #[trigger] self@[q] == (if column_of(q)
                    == x.0 && row_of(q) < y + 1 {
                    start[q].remove(d@)
                } else {
                    start[q]
                }) by {
                    lemma_cell_split(q);
                }
            }
            y += 1;
            proof {
                assert(self@ =~= Seq::new(
                    NUM_CELLS as nat,
                    |q: int|
                        if column_of(q) == x.0 && row_of(q) < y {
                            start[q].remove(d@)
                        } else {
                            start[q]
                        },
                ));
            }
        }
    }

    /// Removes `d` from every cell of row `y`.
    pub fn clear_row(&mut self, y: GridRow, d: Digit)
        requires
            y.0 < HEIGHT,
        ensures
            final(self)@ == Seq::new(
                NUM_CELLS as nat,
                |q: int|
                    if row_of(q) == y.0 {
                        old(self)@[q].remove(d@)
                    } else {
                        old(self)@[q]
                    },
            ),
    {
        let ghost start = self@;
        let mut x: usize = 0;
        while x < WIDTH
            invariant
                x <= WIDTH,
                y.0 < HEIGHT,
                self@ == Seq::new(
                    NUM_CELLS as nat,
                    |q: int|
                        if row_of(q) == y.0 && column_of(q) < x {
                            start[q].remove(d@)
                        } else {
                            start[q]
                        },
                ),
            decreases WIDTH - x,
        {
            let idx = Index::new(GridPoint { x: GridColumn(x), y }, d);
            self.clear_bit(idx);
            proof {
                let c = y.0 * 9 + x;
                lemma_cell_coords(y.0 as int, x as int, 9);
                lemma_cell_coords(c, d@ as int, 9);
                assert forall|q: int| 0 <= q < 81 implies #[trigger] self@[q] == (if row_of(q)
                    == y.0 && column_of(q) < x + 1 {
                    start[q].remove(d@)
                } else {
                    start[q]
                }) by {
                    lemma_cell_split(q);
                }
            }
            x += 1;
            proof {
                assert(self@ =~= Seq::new(
                    NUM_CELLS as nat,
                    |q: int|
                        if row_of(q) == y.0 && column_of(q) < x {
                            start[q].remove(d@)
                        } else {
                            start[q]
                        },
                ));
            }
        }
    }

    /// Removes `d` from every cell of block `b`.
    pub fn clear_block(&mut self, b: GridBlock, d: Digit)
        requires
            b.is_valid(),
        ensures
            final(self)@ == Seq::new(
                NUM_CELLS as nat,
                |q: int|
                    if in_block(q, b) {
                        old(self)@[q].remove(d@)
                    } else {
                        old(self)@[q]
                    },
            ),
    {
        let ghost start = self@;
        let ghost top = b.y.0 * 3;
        let ghost left = b.x.0 * 3;
        let mut y: usize = 0;
        while y < NUM_BLOCKS
            invariant
                y <= NUM_BLOCKS,
                b.is_valid(),
                top == b.y.0 * 3,
                left == b.x.0 * 3,
                self@ == Seq::new(
                    NUM_CELLS as nat,
                    |q: int|
                        if in_block(q, b) && row_of(q) < top + y {
                            start[q].remove(d@)
                        } else {
                            start[q]
                        },
                ),
            decreases NUM_BLOCKS - y,
        {
            let mut x: usize = 0;
            while x < NUM_BLOCKS
                invariant
                    x <= NUM_BLOCKS,
                    y < NUM_BLOCKS,
                    b.is_valid(),
                    top == b.y.0 * 3,
                    left == b.x.0 * 3,
                    self@ == Seq::new(
                        NUM_CELLS as nat,
                        |q: int|
                            if in_block(q, b) && (row_of(q) < top + y || (row_of(q) == top + y
                                && column_of(q) < left + x)) {
                                start[q].remove(d@)
                            } else {
                                start[q]
                            },
                    ),
                decreases NUM_BLOCKS - x,
            {
                let point = b.grid_point(BlockPoint { x: BlockColumn(x), y: BlockRow(y) });
                let idx = Index::new(point, d);
                self.clear_bit(idx);
                proof {
                    let c = point.cell();
                    lemma_cell_coords(point.y.0 as int, point.x.0 as int, 9);
                    lemma_cell_coords(c, d@ as int, 9);
                    lemma_cell_coords(b.y.0 as int, y as int, 3);
                    lemma_cell_coords(b.x.0 as int, x as int, 3);
                    assert forall|q: int| 0 <= q < 81 implies #[trigger] self@[q] == (if in_block(
                        q,
                        b,
                    ) && (row_of(q) < top + y || (row_of(q) == top + y && column_of(q) < left + x
                        + 1)) {
                        start[q].remove(d@)
                    } else {
                        start[q]
                    }) by {
                        lemma_block_split(q);
                    }
                }
                x += 1;
                proof {
                    assert(self@ =~= Seq::new(
                        NUM_CELLS as nat,
                        |q: int|
                            if in_block(q, b) && (row_of(q) < top + y || (row_of(q) == top + y
                                && column_of(q) < left + x)) {
                                start[q].remove(d@)
                            } else {
                                start[q]
                            },
                    ));
                }
            }
            proof {
                assert forall|q: int| 0 <= q < 81 implies #[trigger] self@[q] == (if in_block(q, b)
                    && row_of(q) < top + y + 1 {
                    start[q].remove(d@)
                } else {
                    start[q]
                }) by {
                    lemma_block_split(q);
                }
            }
            y += 1;
            proof {
                assert(self@ =~= Seq::new(
                    NUM_CELLS as nat,
                    |q: int|
                        if in_block(q, b) && row_of(q) < top + y {
                            start[q].remove(d@)
                        } else {
                            start[q]
                        },
                ));
            }
        }
        proof {
            assert forall|q: int| 0 <= q < 81 implies #[trigger] self@[q] == (if in_block(q, b) {
                start[q].remove(d@)
            } else {
                start[q]
            }) by {
                lemma_block_split(q);
            }
            assert(self@ =~= Seq::new(
                NUM_CELLS as nat,
                |q: int|
                    if in_block(q, b) {
                        start[q].remove(d@)
                    } else {
                        start[q]
                    },
            ));
        }
    }

    /// Writes the set holding `digit` alone into cell `p`, without touching
    /// any other cell.
    pub fn set_digit(&mut self, p: GridPoint, digit: Digit)
        requires
            p.is_valid(),
        ensures
            final(self)@ == old(self)@.update(p.cell(), set![digit@]),
    {
        self.set_variants(p, Variants::from_digit(digit))
    }

    /// Records that cell `p` holds `digit`: removes `digit` from every other
    /// cell of its row, column and block, then makes it the cell's only
    /// candidate.
    pub fn set_known_digit(&mut self, p: GridPoint, digit: Digit)
        requires
            p.is_valid(),
        ensures
            final(self)@ == committed(old(self)@, p.cell(), digit@),
    {
        let ghost start = self@;
        self.clear_column(p.column(), digit);
        self.clear_row(p.row(), digit);
        let b = p.block();
        self.clear_block(b, digit);
        self.set_digit(p, digit);
        proof {
            let c = p.cell();
            lemma_cell_coords(p.y.0 as int, p.x.0 as int, 9);
            assert forall|q: int| 0 <= q < 81 implies #[trigger] self@[q] == committed(
                start,
                c,
                digit@,
            )[q] by {
                lemma_block_split(q);
                if q != c && same_unit(q, c) {
                    assert(self@[q] =~= start[q].remove(digit@));
                }
            }
            assert(self@ =~= committed(start, c, digit@));
        }
    }

    /// The digit of cell `p` when exactly one candidate is left; an error
    /// when none or several are.
    pub fn get_digit(&self, p: GridPoint) -> (r: Result<Digit, &'static str>)
        requires
            p.is_valid(),
        ensures
            self@[p.cell()].finite(),
            r is Ok <==> self@[p.cell()].len() == 1,
            r is Ok ==> self@[p.cell()] == set![r->Ok_0@],
            self@[p.cell()].len() == 0 ==> r == Err::<Digit, &'static str>("no variants"),
            self@[p.cell()].len() > 1 ==> r == Err::<Digit, &'static str>("multiple variants"),
    {
        self.get_variants(p).to_digit()
    }

    /// Walks the grid row by row.
    pub fn iter(&self) -> (r: BitmapIterator<'_>)
        ensures
            r.grid() == self@,
            r.position() == 0,
    {
        BitmapIterator { bitmap: self, current: GridRow(0) }
    }
}

/// Reading a cell right after writing it gives back exactly the set written,
/// also for the cells whose field straddles two words.
pub proof fn lemma_set_get_round_trip(
    before: Bitmap,
    after: Bitmap,
    p: GridPoint,
    s: Variants,
    read: Variants,
)
    requires
        p.is_valid(),
        after@ == before@.update(p.cell(), s@),
        read@ == after@[p.cell()],
    ensures
        read == s,
{
    crate::variants::lemma_view_injective(read, s);
}

/// Every cell of a new grid reads as the set of all digits.
pub proof fn lemma_initial_state(fresh: Bitmap, p: GridPoint, read: Variants, any: Variants)
    requires
        p.is_valid(),
        fresh@ == Seq::new(NUM_CELLS as nat, |c: int| all_digits()),
        read@ == fresh@[p.cell()],
        any@ == all_digits(),
    ensures
        read == any,
{
    crate::variants::lemma_view_injective(read, any);
}

/// After a commit of digit `d` at cell `c`, no other cell of its row, column
/// or block holds `d`, and `c` holds `d` alone.
pub proof fn lemma_commit_eliminates(cells: Seq<Set<nat>>, c: int, d: nat)
    requires
        cells.len() == NUM_CELLS,
        0 <= c < NUM_CELLS,
    ensures
        committed(cells, c, d)[c] == set![d],
        forall|q: int|
            0 <= q < NUM_CELLS && q != c && same_unit(q, c) ==> !(#[trigger] committed(
                cells,
                c,
                d,
            )[q]).contains(d),
{
}

/// Committing the same digit at the same cell twice leaves the state that one
/// commit leaves.
pub proof fn lemma_commit_idempotent(cells: Seq<Set<nat>>, c: int, d: nat)
    requires
        cells.len() == NUM_CELLS,
        0 <= c < NUM_CELLS,
    ensures
        committed(committed(cells, c, d), c, d) == committed(cells, c, d),
{
    let once = committed(cells, c, d);
    let twice = committed(once, c, d);
    assert forall|q: int| 0 <= q < NUM_CELLS implies #[trigger] twice[q] == once[q] by {
        if q != c && same_unit(q, c) {
            assert(twice[q] =~= once[q]);
        }
    }
    assert(twice =~= once);
}

/// A commit at cell `c` leaves every cell outside its row, column and block
/// as it was.
pub proof fn lemma_commit_non_interference(cells: Seq<Set<nat>>, c: int, d: nat)
    requires
        cells.len() == NUM_CELLS,
        0 <= c < NUM_CELLS,
    ensures
        forall|q: int|
            0 <= q < NUM_CELLS && !same_unit(q, c) ==> #[trigger] committed(cells, c, d)[q]
                == cells[q],
{
}

/// A cursor over the rows of a grid.
pub struct BitmapIterator<'a> {
    bitmap: &'a Bitmap,
    current: GridRow,
}

impl<'a> BitmapIterator<'a> {
    /// The cells of the grid walked.
    pub closed spec fn grid(&self) -> Seq<Set<nat>> {
        self.bitmap@
    }

    /// The row that comes next.
    pub closed spec fn position(&self) -> nat {
        self.current.0 as nat
    }

    /// The next row, or `None` past the last one.
    pub fn next(&mut self) -> (r: Option<BitmapRow<'a>>)
        ensures
            final(self).grid() == old(self).grid(),
            old(self).position() < HEIGHT ==> r is Some && r->0.cells() == old(self).grid().subrange(
                (old(self).position() * 9) as int,
                (old(self).position() * 9 + 9) as int,
            ) && final(self).position() == old(self).position() + 1,
            old(self).position() >= HEIGHT ==> r is None && final(self).position() == old(
                self,
            ).position(),
    {
        if self.current.0 >= HEIGHT {
            None
        } else {
            let row = self.current;
            self.current = GridRow(row.0 + 1);
            Some(BitmapRow { bitmap: self.bitmap, row })
        }
    }
}

/// One row of a grid.
pub struct BitmapRow<'a> {
    bitmap: &'a Bitmap,
    row: GridRow,
}

impl<'a> BitmapRow<'a> {
    #[verifier::type_invariant]
    spec fn inv(self) -> bool {
        self.row.0 < HEIGHT
    }

    /// The candidate sets of the row's cells, left to right.
    pub closed spec fn cells(&self) -> Seq<Set<nat>> {
        self.bitmap@.subrange(self.row.0 * 9, self.row.0 * 9 + 9)
    }

    /// Walks the row's cells, left to right.
    pub fn iter<'r>(&'r self) -> (r: BitmapRowIterator<'a, 'r>)
        ensures
            r.cells() == self.cells(),
            r.position() == 0,
    {
        BitmapRowIterator { row: self, current: GridColumn(0) }
    }
}

/// A cursor over the cells of one row.
pub struct BitmapRowIterator<'a, 'r> {
    row: &'r BitmapRow<'a>,
    current: GridColumn,
}

impl<'a, 'r> BitmapRowIterator<'a, 'r> {
    /// The cells of the row walked.
    pub closed spec fn cells(&self) -> Seq<Set<nat>> {
        self.row.cells()
    }

    /// The column that comes next.
    pub closed spec fn position(&self) -> nat {
        self.current.0 as nat
    }

    /// The candidate set of the next cell, or `None` past the last one.
    pub fn next(&mut self) -> (r: Option<Variants>)
        ensures
            final(self).cells() == old(self).cells(),
            old(self).position() < WIDTH ==> r is Some && r->0@ == old(self).cells()[old(
                self,
            ).position() as int] && final(self).position() == old(self).position() + 1,
            old(self).position() >= WIDTH ==> r is None && final(self).position() == old(
                self,
            ).position(),
    {
        if self.current.0 >= WIDTH {
            None
        } else {
            let column = self.current;
            self.current = GridColumn(column.0 + 1);
            proof {
                use_type_invariant(self.row);
            }
            Some(self.row.bitmap.get_variants(GridPoint { y: self.row.row, x: column }))
        }
    }
}

} // verus!
