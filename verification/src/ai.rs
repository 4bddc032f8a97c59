//! The bundled example AI routine: the decision logic behind the plugin
//! entry point, written against the same snapshot layout the plugin
//! boundary carries.

use vstd::prelude::*;
use crate::piece::{Shape, COLS, ROWS};
use crate::player::Board;

verus! {

/// The topmost filled row of column `i` among rows below `n`; 0 when the
/// column is empty there.
pub open spec fn col_top(b: Board, i: int, n: int) -> int
    decreases n,
{
    if n <= 0 {
        0int
    } else if b[n - 1][i] != 0 {
        n - 1
    } else {
        col_top(b, i, n - 1)
    }
}

/// The running minimum scan over the column tops: after looking at the
/// first `k` columns, the least top seen (starting from `ROWS`) and the
/// first column it was seen in (starting from 0).
pub open spec fn scan_min(b: Board, k: int) -> (int, int)
    decreases k,
{
    if k <= 0 {
        (ROWS as int, 0int)
    } else {
        let prev = scan_min(b, k - 1);
        if col_top(b, k - 1, ROWS as int) < prev.0 {
            (col_top(b, k - 1, ROWS as int), k - 1)
        } else {
            prev
        }
    }
}

/// The column the routine aims for: the first column whose stack is
/// lowest.
pub open spec fn best_col(b: Board) -> int {
    scan_min(b, COLS as int).1
}

/// The walk over the falling piece's cells from index `i` with `action`
/// accumulated so far: a cell with a column outside `0..=10` is skipped;
/// one on the target column answers 7 at once; one left of it sets 3,
/// one right of it sets 1, and the walk goes on.
pub open spec fn decide_from(cp: Shape, row: int, i: int, action: u32) -> u32
    decreases 4 - i,
{
    if i >= 4 {
        action
    } else {
        let x = cp[i][0];
        if x < 0 || x > 10 {
            decide_from(cp, row, i + 1, action)
        } else if x == row {
            7u32
        } else if x < row {
            decide_from(cp, row, i + 1, 3u32)
        } else {
            decide_from(cp, row, i + 1, 1u32)
        }
    }
}

/// The numeric action `calculate_move` answers for a snapshot.
pub open spec fn spec_calculate_move(b: Board, cp: Shape) -> u32 {
    decide_from(cp, best_col(b), 0, 0)
}

/// The example routine's whole decision: find the first column with the
/// lowest stack, then walk the falling piece's cells — answer 7 for a
/// cell over that column, else lean toward it with 3 or 1. The saved
/// piece is carried by the snapshot but not consulted.
#[allow(unused_variables)]
pub fn calculate_move(board: [[u32; COLS]; ROWS], current_piece: Shape, saved_piece: Shape) -> (r:
    u32)
    ensures
        r == spec_calculate_move(board, current_piece),
{
    let mut rows: [usize; COLS] = [0; COLS];
    let mut l: usize = 0;
    while l < ROWS
        invariant
            l <= ROWS,
            forall|i: int| 0 <= i < COLS ==> #[trigger] rows[i] == col_top(board, i, l as int),
        decreases ROWS - l,
    {
        let mut i: usize = 0;
        while i < COLS
            invariant
                l < ROWS,
                i <= COLS,
                forall|j: int|
                    0 <= j < i ==> #[trigger] rows[j] == col_top(board, j, l as int + 1),
                forall|j: int|
                    i <= j < COLS ==> #[trigger] rows[j] == col_top(board, j, l as int),
            decreases COLS - i,
        {
            if board[l][i] != 0 {
                rows[i] = l;
            }
            i = i + 1;
        }
        l = l + 1;
    }
    let mut row: usize = 0;
    let mut min_val: usize = ROWS;
    let mut xx: usize = 0;
    while xx < COLS
        invariant
            xx <= COLS,
            row < COLS,
            forall|i: int| 0 <= i < COLS ==> #[trigger] rows[i] == col_top(board, i, ROWS as int),
            (min_val as int, row as int) == scan_min(board, xx as int),
        decreases COLS - xx,
    {
        if rows[xx] < min_val {
            min_val = rows[xx];
            row = xx;
        }
        xx = xx + 1;
    }
    let mut action: u32 = 0;
    let mut i: usize = 0;
    loop
        invariant_except_break
            i <= 4,
            row < COLS,
            row as int == best_col(board),
            decide_from(current_piece, row as int, i as int, action) == spec_calculate_move(
                board,
                current_piece,
            ),
        ensures
            action == spec_calculate_move(board, current_piece),
        decreases 4 - i,
    {
        if i >= 4 {
            break ;
        }
        let x = current_piece[i][0];
        if x < 0 || x > 10 {
            i = i + 1;
            continue ;
        }
        if x == row as i32 {
            action = 7;
            break ;
        } else if x < row as i32 {
            action = 3;
        } else {
            action = 1;
        }
        i = i + 1;
    }
    action
}

} // verus!
