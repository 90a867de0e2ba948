use vstd::prelude::*;
use crate::bitmap::{committed, Bitmap};
use crate::digit::{char_digit, Digit};
use crate::grid::{GridColumn, GridPoint, GridRow, HEIGHT, NUM_CELLS, WIDTH};
use crate::variants::all_digits;
use vstd::string::StringExecFns;

verus! {

/// Whether `board` has the grid's shape: nine rows of nine characters.
pub open spec fn is_board(board: Seq<Vec<char>>) -> bool {
    board.len() == HEIGHT && forall|r: int| 0 <= r < HEIGHT ==> #[trigger] board[r]@.len() == WIDTH
}

/// The character of cell `c` of `board`, cells numbered row by row.
pub open spec fn board_char(board: Seq<Vec<char>>, c: int) -> char {
    board[c / 9]@[c % 9]
}

/// The cell with flat index `c`.
pub open spec fn point_of(c: int) -> GridPoint {
    GridPoint { x: GridColumn((c % 9) as usize), y: GridRow((c / 9) as usize) }
}

/// The candidate sets once the first `n` cells of `board`, row by row, have
/// been read: each cell that names a digit commits it.
pub open spec fn seeded(board: Seq<Vec<char>>, n: nat) -> Seq<Set<nat>>
    decreases n,
{
    if n == 0 {
        Seq::new(NUM_CELLS as nat, |c: int| all_digits())
    } else {
        let prev = seeded(board, (n - 1) as nat);
        match char_digit(board_char(board, n - 1)) {
            Some(d) => committed(prev, n - 1, d),
            None => prev,
        }
    }
}

/// Whether `out` is what the solver writes for a cell with candidates `s`:
/// the digit when exactly one is left, '.' otherwise.
pub open spec fn resolved_char(s: Set<nat>, out: char) -> bool {
    &&& s.len() == 1 ==> char_digit(out) is Some && s == set![char_digit(out)->0]
    &&& s.len() != 1 ==> out == '.'
}

proof fn lemma_point_of(c: int)
    requires
        0 <= c < NUM_CELLS,
    ensures
        point_of(c).is_valid(),
        point_of(c).cell() == c,
        0 <= c / 9 < 9,
        0 <= c % 9 < 9,
{
    vstd::arithmetic::div_mod::lemma_fundamental_div_mod(c, 9);
    vstd::arithmetic::div_mod::lemma_mod_pos_bound(c, 9);
}

/// The cell at row `y`, column `x`.
pub open spec fn point_at(y: int, x: int) -> GridPoint {
    GridPoint { x: GridColumn(x as usize), y: GridRow(y as usize) }
}

/// Every cell of `board` with its character, row by row; rows may have any
/// length.
pub open spec fn points_of(board: Seq<Vec<char>>) -> Seq<(GridPoint, char)>
    decreases board.len(),
{
    if board.len() == 0 {
        Seq::empty()
    } else {
        let y = board.len() - 1;
        points_of(board.drop_last()) + Seq::new(
            board[y]@.len(),
            |x: int| (point_at(y, x), board[y]@[x]),
        )
    }
}

/// On a board of the grid's shape, entry `c` of the listing is cell `c`.
proof fn lemma_points_of_board(board: Seq<Vec<char>>, y: int)
    requires
        is_board(board),
        0 <= y <= HEIGHT,
    ensures
        points_of(board.subrange(0, y)).len() == y * 9,
        forall|c: int|
            0 <= c < y * 9 ==> #[trigger] points_of(board.subrange(0, y))[c] == (
                point_of(c),
                board_char(board, c),
            ),
    decreases y,
{
    if y > 0 {
        lemma_points_of_board(board, y - 1);
        let prefix = board.subrange(0, y);
        assert(prefix.drop_last() =~= board.subrange(0, y - 1));
        assert forall|c: int| 0 <= c < y * 9 implies #[trigger] points_of(prefix)[c] == (
            point_of(c),
            board_char(board, c),
        ) by {
            if c >= (y - 1) * 9 {
                vstd::arithmetic::div_mod::lemma_fundamental_div_mod_converse(
                    c,
                    9,
                    y - 1,
                    c - (y - 1) * 9,
                );
            }
        }
    }
}

/// Every cell of `board` with its character, row by row.
pub fn for_each_point(board: &Vec<Vec<char>>) -> (r: Vec<(GridPoint, char)>)
    ensures
        r@ == points_of(board@),
{
    let mut r: Vec<(GridPoint, char)> = Vec::new();
    let mut y: usize = 0;
    while y < board.len()
        invariant
            y <= board@.len(),
            r@ == points_of(board@.subrange(0, y as int)),
        decreases board@.len() - y,
    {
        let row = &board[y];
        let ghost before = r@;
        let mut x: usize = 0;
        while x < row.len()
            invariant
                x <= row@.len(),
                y < board@.len(),
                row@ == board@[y as int]@,
                r@ == before + Seq::new(x as nat, |i: int| (point_at(y as int, i), row@[i])),
            decreases row@.len() - x,
        {
            let point = GridPoint { y: GridRow(y), x: GridColumn(x) };
            r.push((point, row[x]));
            x += 1;
            proof {
                assert(r@ =~= before + Seq::new(
                    x as nat,
                    |i: int| (point_at(y as int, i), row@[i]),
                ));
            }
        }
        proof {
            let prefix = board@.subrange(0, y + 1);
            assert(prefix.drop_last() =~= board@.subrange(0, y as int));
            assert(r@ =~= points_of(prefix));
        }
        y += 1;
    }
    proof {
        assert(board@.subrange(0, board@.len() as int) =~= board@);
    }
    r
}

/// Rewrites every cell of `board`, of any shape, with what `f` gives for the
/// cell and its old character.
pub fn for_each_point_mut(board: &mut Vec<Vec<char>>, f: impl Fn(GridPoint, char) -> char)
    requires
        forall|y: int, x: int|
            0 <= y < old(board)@.len() && 0 <= x < old(board)@[y]@.len() ==> f.requires(
                (point_at(y, x), #[trigger] old(board)@[y]@[x]),
            ),
    ensures
        final(board)@.len() == old(board)@.len(),
        forall|y: int|
            0 <= y < old(board)@.len() ==> #[trigger] final(board)@[y]@.len() == old(
                board,
            )@[y]@.len(),
        forall|y: int, x: int|
            0 <= y < old(board)@.len() && 0 <= x < old(board)@[y]@.len() ==> f.ensures(
                (point_at(y, x), old(board)@[y]@[x]),
                #[trigger] final(board)@[y]@[x],
            ),
{
    let mut out: Vec<Vec<char>> = Vec::new();
    let mut y: usize = 0;
    while y < board.len()
        invariant
            y <= board@.len(),
            out@.len() == y,
            forall|r: int, x: int|
                0 <= r < board@.len() && 0 <= x < board@[r]@.len() ==> f.requires(
                    (point_at(r, x), #[trigger] board@[r]@[x]),
                ),
            forall|r: int| 0 <= r < y ==> #[trigger] out@[r]@.len() == board@[r]@.len(),
            forall|r: int, x: int|
                0 <= r < y && 0 <= x < board@[r]@.len() ==> f.ensures(
                    (point_at(r, x), board@[r]@[x]),
                    #[trigger] out@[r]@[x],
                ),
        decreases board@.len() - y,
    {
        let old_row = &board[y];
        let mut row: Vec<char> = Vec::new();
        let mut x: usize = 0;
        while x < old_row.len()
            invariant
                x <= old_row@.len(),
                y < board@.len(),
                old_row@ == board@[y as int]@,
                row@.len() == x,
                forall|r: int, i: int|
                    0 <= r < board@.len() && 0 <= i < board@[r]@.len() ==> f.requires(
                        (point_at(r, i), #[trigger] board@[r]@[i]),
                    ),
                forall|i: int|
                    0 <= i < x ==> f.ensures(
                        (point_at(y as int, i), old_row@[i]),
                        #[trigger] row@[i],
                    ),
            decreases old_row@.len() - x,
        {
            let point = GridPoint { y: GridRow(y), x: GridColumn(x) };
            let ch = f(point, old_row[x]);
            row.push(ch);
            x += 1;
        }
        out.push(row);
        y += 1;
    }
    *board = out;
}

/// Solves a board by direct elimination only.
pub struct Solution {}

impl Solution {
    /// Commits every digit that `board` names, cell by cell and row by row,
    /// then writes back each cell whose candidates came down to one digit and
    /// '.' for every other cell.
    pub fn solve_sudoku(board: &mut Vec<Vec<char>>)
        requires
            is_board(old(board)@),
        ensures
            is_board(final(board)@),
            forall|c: int|
                0 <= c < NUM_CELLS ==> resolved_char(
                    seeded(old(board)@, NUM_CELLS as nat)[c],
                    #[trigger] board_char(final(board)@, c),
                ),
    {
        let mut bitmap = Bitmap::new();
        let points = for_each_point(board);
        let mut i: usize = 0;
        proof {
            assert(bitmap@ == seeded(board@, 0));
            lemma_points_of_board(board@, HEIGHT as int);
            assert(board@.subrange(0, HEIGHT as int) =~= board@);
        }
        while i < NUM_CELLS
            invariant
                i <= NUM_CELLS,
                points@.len() == NUM_CELLS,
                forall|c: int|
                    0 <= c < NUM_CELLS ==> (#[trigger] points@[c]).0 == point_of(c)
                        && points@[c].1 == board_char(board@, c),
                bitmap@ == seeded(board@, i as nat),
            decreases NUM_CELLS - i,
        {
            let (point, ch) = points[i];
            proof {
                lemma_point_of(i as int);
            }
            match Digit::from_char(ch) {
                Ok(d) => bitmap.set_known_digit(point, d),
                Err(_) => {},
            }
            i += 1;
        }
        let ghost before = board@;
        let read = |point: GridPoint, old_char: char| -> (r: char)
            requires
                point.is_valid(),
            ensures
                resolved_char(bitmap@[point.cell()], r),
            {
                match bitmap.get_digit(point) {
                    Ok(d) => d.to_char(),
                    Err(_) => '.',
                }
            };
        proof {
            assert forall|y: int, x: int|
                0 <= y < before.len() && 0 <= x < before[y]@.len() implies read.requires(
                (point_at(y, x), #[trigger] before[y]@[x]),
            ) by {}
        }
        for_each_point_mut(board, read);
        proof {
            assert forall|c: int| 0 <= c < NUM_CELLS implies resolved_char(
                bitmap@[c],
                #[trigger] board_char(board@, c),
            ) by {
                lemma_point_of(c);
                assert(point_at(c / 9, c % 9) == point_of(c));
                assert(board_char(board@, c) == board@[c / 9]@[c % 9]);
            }
        }
    }
}

/// What serde_json writes for a sequence of characters.
pub uninterp spec fn json_of_chars(s: Seq<char>) -> Seq<char>;

/// Relies on serde_json::to_string on a `Vec<char>`: it writes the row as a
/// JSON array of one-character strings, a function of the characters alone.
/// Its only failures come from a map key that is not a string and from the
/// writer, and it writes into a byte buffer, so on chars it does not fail.
#[verifier::external_body]
fn row_to_json(row: &Vec<char>) -> (r: String)
    ensures
        r@ == json_of_chars(row@),
{
    serde_json::to_string(row).unwrap()
}

/// The first `n` rows of `rows` as JSON arrays, one per line.
pub open spec fn json_lines(rows: Seq<Vec<char>>, n: nat) -> Seq<char>
    decreases n,
{
    if n == 0 {
        Seq::empty()
    } else if n == 1 {
        json_of_chars(rows[0]@)
    } else {
        json_lines(rows, (n - 1) as nat) + seq!['\n'] + json_of_chars(rows[n - 1]@)
    }
}

/// The board's rows as JSON arrays, one per line.
pub fn pretty(input: &Vec<Vec<char>>) -> (r: String)
    ensures
        r@ == json_lines(input@, input@.len()),
{
    let mut r = String::new();
    let mut i: usize = 0;
    while i < input.len()
        invariant
            i <= input@.len(),
            r@ == json_lines(input@, i as nat),
        decreases input@.len() - i,
    {
        if i > 0 {
            proof {
                reveal_strlit("\n");
            }
            r.append("\n");
        }
        let line = row_to_json(&input[i]);
        r.append(line.as_str());
        i += 1;
    }
    r
}

} // verus!
