//! One player's board engine: the grid, the active pieces, the attack
//! queues, scoring and gravity.

use vstd::prelude::*;
use std::time::Instant;
use crate::piece::{Piece, Shape, COLS, ROWS};
use crate::clock::{instant_now, elapsed_micros};
use crate::rng::rand_below;

verus! {

/// Ticks an attack entry waits on the incoming queue before its garbage
/// rows are materialized.
pub const ATTACK_DELAY: u8 = 6;

/// The grid: `ROWS` rows of `COLS` cells, row 0 at the bottom. A cell is
/// `0` (empty), `1..=7` (a piece color) or `8` (garbage).
pub type Board = [[u32; COLS]; ROWS];

/// The mathematical view of a board: a sequence of rows, each a sequence
/// of cell values, bottom row first.
pub open spec fn grid(b: Board) -> Seq<Seq<u32>> {
    Seq::new(ROWS as nat, |y: int| Seq::new(COLS as nat, |x: int| b[y][x]))
}

/// A row with no empty cell.
pub open spec fn row_full(r: Seq<u32>) -> bool {
    forall|x: int| 0 <= x < r.len() ==> #[trigger] r[x] != 0
}

/// An all-empty row.
pub open spec fn zero_row() -> Seq<u32> {
    Seq::new(COLS as nat, |x: int| 0u32)
}

/// Every cell of the piece lies on the board and over an empty grid cell.
pub open spec fn piece_fits(g: Seq<Seq<u32>>, p: Piece) -> bool {
    forall|i: int|
        0 <= i < 4 ==> 0 <= #[trigger] p.cell_x(i) < COLS && 0 <= p.cell_y(i) < ROWS && g[p.cell_y(
            i,
        )][p.cell_x(i)] == 0
}

/// The grid with the piece's cells painted in its color; cells the piece
/// holds off the board are ignored.
pub open spec fn overlay(g: Seq<Seq<u32>>, p: Piece) -> Seq<Seq<u32>> {
    Seq::new(
        ROWS as nat,
        |y: int|
            Seq::new(
                COLS as nat,
                |x: int|
                    if p.covers(x, y) {
                        p.color
                    } else {
                        g[y][x]
                    },
            ),
    )
}

/// The per-drop gravity interval, in microseconds, for a given level;
/// levels past the end of the table stay at the fastest interval.
pub open spec fn spec_time_level_micros(level: int) -> u64 {
    if level == 0 {
        1_000_000
    } else if level == 1 {
        793_000
    } else if level == 2 {
        617_800
    } else if level == 3 {
        472_730
    } else if level == 4 {
        355_200
    } else if level == 5 {
        262_000
    } else if level == 6 {
        189_680
    } else if level == 7 {
        134_730
    } else if level == 8 {
        93_880
    } else if level == 9 {
        64_150
    } else if level == 10 {
        42_980
    } else if level == 11 {
        28_220
    } else if level == 12 {
        18_150
    } else if level == 13 {
        11_440
    } else if level == 14 {
        7_060
    } else if level == 15 {
        4_260
    } else if level == 16 {
        2_520
    } else if level == 17 {
        1_460
    } else if level == 18 {
        820
    } else {
        460
    }
}

/// The descending table of per-drop intervals, indexed by gravity level.
pub fn time_level_micros(level: usize) -> (r: u64)
    ensures
        r == spec_time_level_micros(level as int),
{
    match level {
        0 => 1_000_000,
        1 => 793_000,
        2 => 617_800,
        3 => 472_730,
        4 => 355_200,
        5 => 262_000,
        6 => 189_680,
        7 => 134_730,
        8 => 93_880,
        9 => 64_150,
        10 => 42_980,
        11 => 28_220,
        12 => 18_150,
        13 => 11_440,
        14 => 7_060,
        15 => 4_260,
        16 => 2_520,
        17 => 1_460,
        18 => 820,
        _ => 460,
    }
}

/// The rows of `g` below index `n` that are not full, in their original
/// order.
pub open spec fn kept_rows(g: Seq<Seq<u32>>, n: int) -> Seq<Seq<u32>>
    decreases n,
{
    if n <= 0 {
        Seq::empty()
    } else if row_full(g[n - 1]) {
        kept_rows(g, n - 1)
    } else {
        kept_rows(g, n - 1).push(g[n - 1])
    }
}

pub proof fn lemma_kept_rows_len(g: Seq<Seq<u32>>, n: int)
    requires
        0 <= n,
    ensures
        kept_rows(g, n).len() <= n,
    decreases n,
{
    if n > 0 {
        lemma_kept_rows_len(g, n - 1);
    }
}

/// `g` with its full rows removed: the rows that are kept move toward the
/// bottom in their original order, and emptied rows fill the top.
pub open spec fn compacted(g: Seq<Seq<u32>>) -> Seq<Seq<u32>> {
    Seq::new(
        ROWS as nat,
        |y: int|
            if y < kept_rows(g, ROWS as int).len() {
                kept_rows(g, ROWS as int)[y]
            } else {
                zero_row()
            },
    )
}

/// Score gained for clearing `l` lines: the Tetris bonus of 8 for four or
/// more, else `2*l - 1`.
pub open spec fn score_delta(l: int) -> int {
    if l >= 4 {
        8
    } else {
        2 * l - 1
    }
}

/// Attack rows sent to the opponent for clearing `l` lines.
pub open spec fn attack_of(l: int) -> int {
    if l >= 4 {
        4
    } else {
        l - 1
    }
}

/// The score after adding the delta for `l` cleared lines; a score at the
/// very top of `u32` stays where it is.
pub open spec fn score_after(s: u32, l: int) -> int {
    if s + score_delta(l) <= u32::MAX {
        s + score_delta(l)
    } else {
        s as int
    }
}

/// What scoring `l` cleared lines does to a player: the score grows by
/// the delta, gravity follows the level `score / 5`, and an attack, if
/// any, overwrites the outgoing slot with the fixed delay.
pub open spec fn scores(pre: Player, post: Player, l: int) -> bool {
    &&& post.score == score_after(pre.score, l)
    &&& post.gravity_micros == spec_time_level_micros(post.score as int / 5)
    &&& post.outgoing == (if attack_of(l) > 0 {
        Some((attack_of(l) as u8, ATTACK_DELAY))
    } else {
        pre.outgoing
    })
}

/// The total rows of the attacks in a queue.
pub open spec fn attack_sum(q: Seq<(u8, u8)>) -> int
    decreases q.len(),
{
    if q.len() == 0 {
        0int
    } else {
        attack_sum(q.drop_last()) + q.last().0 as int
    }
}

/// A row with every cell empty.
pub open spec fn row_empty(r: Seq<u32>) -> bool {
    forall|x: int| 0 <= x < r.len() ==> #[trigger] r[x] == 0
}

/// The incoming queue after one tick: every countdown drops by one, and
/// entries that reach zero leave the queue.
pub open spec fn ticked_queue(q: Seq<(u8, u8)>) -> Seq<(u8, u8)>
    decreases q.len(),
{
    if q.len() == 0 {
        Seq::empty()
    } else {
        let e = q.last();
        let rest = ticked_queue(q.drop_last());
        if e.1 == 1 {
            rest
        } else {
            rest.push((e.0, (e.1 - 1) as u8))
        }
    }
}

/// The garbage rows the entries leaving the queue this tick contribute.
pub open spec fn expired_rows(q: Seq<(u8, u8)>) -> int
    decreases q.len(),
{
    if q.len() == 0 {
        0int
    } else {
        expired_rows(q.drop_last()) + if q.last().1 == 1 {
            q.last().0 as int
        } else {
            0int
        }
    }
}

/// A garbage row: solid but for one empty column.
pub open spec fn garbage_row(col: int) -> Seq<u32> {
    Seq::new(
        COLS as nat,
        |x: int|
            if x == col {
                0u32
            } else {
                8u32
            },
    )
}

/// `g` with `n` garbage rows (empty at `col`) pushed in at the bottom;
/// the old rows shift up and rows past the top are dropped.
pub open spec fn garbage_grid(g: Seq<Seq<u32>>, n: int, col: int) -> Seq<Seq<u32>> {
    Seq::new(
        ROWS as nat,
        |y: int|
            if y < n {
                garbage_row(col)
            } else {
                g[y - n]
            },
    )
}

/// Pushing `n` garbage rows in loses the game: the first old row shifted
/// off past the kept block was not empty.
pub open spec fn garbage_overflows(g: Seq<Seq<u32>>, n: int) -> bool {
    !row_empty(g[ROWS - n])
}

/// What committing piece `p` into `pre`'s grid leaves behind: on a fit,
/// the painted grid, `ok`, and the loss latch raised iff a cell lies in
/// the overflow buffer; otherwise nothing changes and not `ok`.
pub open spec fn places(pre: Player, post: Player, ok: bool, p: Piece) -> bool {
    if piece_fits(grid(pre.board), p) {
        &&& ok
        &&& grid(post.board) == overlay(grid(pre.board), p)
        &&& post.lost == (pre.lost || exists|i: int|
            0 <= i < 4 && #[trigger] p.cell_y(i) >= ROWS - 4)
    } else {
        &&& !ok
        &&& post.board == pre.board
        &&& post.lost == pre.lost
    }
}

/// The leftmost column any of the piece's four cells occupies.
pub open spec fn min_cell_x(p: Piece) -> int {
    vstd::math::min(
        vstd::math::min(p.cell_x(0), p.cell_x(1)),
        vstd::math::min(p.cell_x(2), p.cell_x(3)),
    )
}

/// The rightmost column any of the piece's four cells occupies.
pub open spec fn max_cell_x(p: Piece) -> int {
    vstd::math::max(
        vstd::math::max(p.cell_x(0), p.cell_x(1)),
        vstd::math::max(p.cell_x(2), p.cell_x(3)),
    )
}

/// The lowest row any of the piece's four cells occupies.
pub open spec fn min_cell_y(p: Piece) -> int {
    vstd::math::min(
        vstd::math::min(p.cell_y(0), p.cell_y(1)),
        vstd::math::min(p.cell_y(2), p.cell_y(3)),
    )
}

/// The highest row any of the piece's four cells occupies.
pub open spec fn max_cell_y(p: Piece) -> int {
    vstd::math::max(
        vstd::math::max(p.cell_y(0), p.cell_y(1)),
        vstd::math::max(p.cell_y(2), p.cell_y(3)),
    )
}

/// The least horizontal shift that brings every cell's column back into
/// `[0, COLS)`; zero if none is needed.
pub open spec fn bounds_adj_x(p: Piece) -> int {
    if min_cell_x(p) < 0 {
        -min_cell_x(p)
    } else if max_cell_x(p) > COLS - 1 {
        COLS - 1 - max_cell_x(p)
    } else {
        0int
    }
}

/// The least vertical shift that brings every cell's row back into
/// `[0, ROWS)`; zero if none is needed.
pub open spec fn bounds_adj_y(p: Piece) -> int {
    if min_cell_y(p) < 0 {
        -min_cell_y(p)
    } else if max_cell_y(p) > ROWS - 1 {
        ROWS - 1 - max_cell_y(p)
    } else {
        0int
    }
}

/// Shifted by `(xa, ya)`, some cell of the piece still lies on the board
/// over an occupied grid cell.
pub open spec fn kick_collides(g: Seq<Seq<u32>>, p: Piece, xa: int, ya: int) -> bool {
    exists|i: int|
        0 <= i < 4 && 0 <= #[trigger] p.cell_y(i) + ya < ROWS && g[p.cell_y(i) + ya][p.cell_x(i)
            + xa] != 0
}

/// The vertical shift the kick converges to: starting from `ya`, one row
/// up at a time while any cell still collides.
pub open spec fn settle_y(g: Seq<Seq<u32>>, p: Piece, xa: int, ya: int) -> int
    decreases ROWS + 4099 - ya,
    when p.arith_ok() && -4100 <= ya
{
    if kick_collides(g, p, xa, ya) {
        settle_y(g, p, xa, ya + 1)
    } else {
        ya
    }
}

/// Where the wall/floor kick puts an out-of-place piece: first the least
/// shift that brings it inside the board's bounds, then up one row at a
/// time while any cell still collides with an occupied grid cell.
pub open spec fn adjusted(g: Seq<Seq<u32>>, p: Piece) -> Piece {
    crate::piece::moved(p, bounds_adj_x(p), settle_y(g, p, bounds_adj_x(p), bounds_adj_y(p)))
}

/// The four cells span at most four columns and four rows, so one shift
/// can always bring them all inside the board's bounds at once.
pub proof fn lemma_cell_spread(p: Piece)
    requires
        p.shape_ok(),
    ensures
        forall|i: int|
            0 <= i < 4 ==> min_cell_x(p) <= #[trigger] p.cell_x(i) <= max_cell_x(p) && min_cell_y(
                p,
            ) <= p.cell_y(i) <= max_cell_y(p),
        max_cell_x(p) - min_cell_x(p) <= 4,
        max_cell_y(p) - min_cell_y(p) <= 4,
        forall|i: int| 0 <= i < 4 ==> 0 <= #[trigger] p.cell_x(i) + bounds_adj_x(p) < COLS,
        forall|i: int| 0 <= i < 4 ==> 0 <= #[trigger] p.cell_y(i) + bounds_adj_y(p) < ROWS,
{
    assert forall|i: int| 0 <= i < 4 implies min_cell_x(p) <= #[trigger] p.cell_x(i) <= max_cell_x(
        p,
    ) && min_cell_y(p) <= p.cell_y(i) <= max_cell_y(p) by {
        assert(-2 <= p.shape[0][0] <= 2);
        assert(-2 <= p.shape[1][0] <= 2);
        assert(-2 <= p.shape[2][0] <= 2);
        assert(-2 <= p.shape[3][0] <= 2);
    }
    assert(-2 <= p.shape[0][0] <= 2 && -2 <= p.shape[0][1] <= 2);
    assert(-2 <= p.shape[1][0] <= 2 && -2 <= p.shape[1][1] <= 2);
    assert(-2 <= p.shape[2][0] <= 2 && -2 <= p.shape[2][1] <= 2);
    assert(-2 <= p.shape[3][0] <= 2 && -2 <= p.shape[3][1] <= 2);
}

/// Two board snapshots taken with no mutation in between are the same
/// grid: the snapshot is a function of the player's state alone.
pub proof fn lemma_get_board_idempotent(p: Player, b1: Board, b2: Board)
    requires
        grid(b1) == overlay(grid(p.board), p.current_piece),
        grid(b2) == overlay(grid(p.board), p.current_piece),
    ensures
        b1 == b2,
{
    assert forall|y: int| 0 <= y < ROWS implies b1[y] == b2[y] by {
        assert forall|x: int| 0 <= x < COLS implies b1[y]@[x] == b2[y]@[x] by {
            assert(grid(b1)[y][x] == b1[y][x]);
            assert(grid(b2)[y][x] == b2[y][x]);
            assert(grid(b1)[y][x] == grid(b2)[y][x]);
        }
        assert(b1[y]@ =~= b2[y]@);
        assert(b1[y] =~= b2[y]);
    }
    assert(b1 =~= b2);
}

/// A player as `Player::new` hands it out: empty board, no attacks, a
/// random current and next piece at the spawn point, and the gravity of
/// the given starting level.
pub open spec fn fresh_player(p: Player, init_level: int) -> bool {
    &&& grid(p.board) == Seq::new(ROWS as nat, |y: int| zero_row())
    &&& p.incoming@ == Seq::<(u8, u8)>::empty()
    &&& p.outgoing is None
    &&& p.saved_piece is None
    &&& crate::piece::is_spawn_piece(p.current_piece)
    &&& crate::piece::is_spawn_piece(p.next_piece)
    &&& p.score == 0
    &&& !p.lost
    &&& p.gravity_micros == spec_time_level_micros(init_level)
}

/// What one rotation command leaves behind, given `s2`, the shape one
/// quarter turn makes of the falling piece's shape: the rotated piece if
/// it fits; else the rotated piece where the kick puts it, if that fits;
/// else the rotation is undone entirely — shape and pivot — and nothing
/// changes.
pub open spec fn rotate_outcome(pre: Player, post: Player, s2: Shape) -> bool {
    let pr = Piece { shape: s2, ..pre.current_piece };
    if piece_fits(grid(pre.board), pr) {
        post == (Player { current_piece: pr, ..pre })
    } else {
        let pa = adjusted(grid(pre.board), pr);
        if piece_fits(grid(pre.board), pa) {
            post == (Player { current_piece: pa, ..pre })
        } else {
            post == pre
        }
    }
}

/// How many rows the piece can fall before the row below is blocked or
/// out of bounds.
pub open spec fn fall_dist(g: Seq<Seq<u32>>, p: Piece) -> int
    decreases p.position[1] + 4100,
    when p.arith_ok()
{
    if piece_fits(g, crate::piece::moved(p, 0, -1)) {
        1 + fall_dist(g, crate::piece::moved(p, 0, -1))
    } else {
        0int
    }
}

/// What one attack-resolution step leaves behind: nothing for a lost
/// player; else every countdown drops by one, the entries that reach
/// zero leave the queue, and their rows, if any, arrive as garbage rows
/// sharing one empty column, with the loss latch raised if settled cells
/// were shoved off the top. Nothing else moves.
pub open spec fn attacks_processed(pre: Player, post: Player) -> bool {
    &&& (pre.lost ==> post == pre)
    &&& (!pre.lost ==> ({
        let q = pre.incoming@;
        let total = expired_rows(q);
        &&& post.incoming@ == ticked_queue(q)
        &&& (total == 0 ==> post.board == pre.board && post.lost == pre.lost)
        &&& (total > 0 ==> exists|col: int|
            0 <= col < COLS && grid(post.board) == garbage_grid(
                grid(pre.board),
                vstd::math::min(total, ROWS as int),
                col,
            ) && post.lost == (pre.lost || garbage_overflows(
                grid(pre.board),
                vstd::math::min(total, ROWS as int),
            )))
    }))
    &&& post.outgoing == pre.outgoing
    &&& post.current_piece == pre.current_piece
    &&& post.saved_piece == pre.saved_piece
    &&& post.next_piece == pre.next_piece
    &&& post.score == pre.score
    &&& post.gravity_micros == pre.gravity_micros
    &&& post.update_timer == pre.update_timer
}

/// What one gravity step leaves behind: nothing for a lost player; the
/// piece one row lower where that fits; else the lock sequence taken at
/// the piece's place.
pub open spec fn gravity_stepped(pre: Player, post: Player) -> bool {
    &&& (pre.lost ==> post == pre)
    &&& (!pre.lost ==> ({
        let down = crate::piece::moved(pre.current_piece, 0, -1);
        if piece_fits(grid(pre.board), down) {
            post == (Player { current_piece: down, ..pre })
        } else {
            locks_to(pre, post, pre.current_piece)
        }
    }))
}

/// What one clock-gated engine tick leaves behind: nothing for a lost
/// player; else either nothing — the gravity interval had not elapsed —
/// or one attack-resolution step, one gravity step, and a fresh timer.
pub open spec fn engine_ticked(pre: Player, post: Player) -> bool {
    &&& (pre.lost ==> post == pre)
    &&& (!pre.lost ==> (post == pre || exists|mid: Player, stepped: Player|
        #![trigger gravity_stepped(mid, stepped)]
        attacks_processed(pre, mid) && gravity_stepped(mid, stepped) && post == (Player {
            update_timer: post.update_timer,
            ..stepped
        })))
}

/// What one move command by `(dx, dy)` leaves behind: nothing for a lost
/// player; the moved piece where it fits; else the moved piece where the
/// kick puts it, fit or not.
pub open spec fn moves_to(pre: Player, post: Player, dx: int, dy: int) -> bool {
    if pre.lost {
        post == pre
    } else {
        let m = crate::piece::moved(pre.current_piece, dx, dy);
        if piece_fits(grid(pre.board), m) {
            post == (Player { current_piece: m, ..pre })
        } else {
            post == (Player { current_piece: adjusted(grid(pre.board), m), ..pre })
        }
    }
}

/// What one rotation command leaves behind: nothing for a lost player,
/// else a rotation outcome for the turned shape.
pub open spec fn player_rotates(pre: Player, post: Player, clockwise: bool) -> bool {
    if pre.lost {
        post == pre
    } else {
        exists|s2: Shape|
            crate::piece::rotates_to(pre.current_piece.shape, s2, clockwise)
                && #[trigger] rotate_outcome(pre, post, s2)
    }
}

/// What one hard drop leaves behind: nothing for a lost player; else the
/// piece falls as far as it can and locks there.
pub open spec fn drops_to(pre: Player, post: Player) -> bool {
    if pre.lost {
        post == pre
    } else {
        locks_to(
            pre,
            post,
            crate::piece::moved(
                pre.current_piece,
                0,
                -fall_dist(grid(pre.board), pre.current_piece),
            ),
        )
    }
}

/// What one save command leaves behind: nothing for a lost player; the
/// first call stores the falling piece and promotes the next; later
/// calls swap stored and falling piece in place.
pub open spec fn saves_to(pre: Player, post: Player) -> bool {
    if pre.lost {
        post == pre
    } else {
        &&& post.saved_piece == Some(pre.current_piece)
        &&& (if pre.saved_piece is Some {
            post.current_piece == pre.saved_piece->0 && post.next_piece == pre.next_piece
        } else {
            post.current_piece == pre.next_piece && crate::piece::is_spawn_piece(post.next_piece)
        })
        &&& post.board == pre.board
        &&& post.incoming == pre.incoming
        &&& post.outgoing == pre.outgoing
        &&& post.score == pre.score
        &&& post.lost == pre.lost
        &&& post.gravity_micros == pre.gravity_micros
        &&& post.update_timer == pre.update_timer
    }
}

/// What locking piece `p` into `pre` leaves behind: the piece is
/// committed if it fits (losing if it reaches the overflow buffer), full
/// rows are cleared and scored, and the next piece takes over, with a
/// fresh random piece on deck. The gravity timer is not touched here.
pub open spec fn locks_to(pre: Player, post: Player, p: Piece) -> bool {
    let g = grid(pre.board);
    let fits = piece_fits(g, p);
    let placed = if fits {
        overlay(g, p)
    } else {
        g
    };
    let cleared = ROWS - kept_rows(placed, ROWS as int).len();
    &&& grid(post.board) == (if cleared == 0 {
        placed
    } else {
        compacted(placed)
    })
    &&& post.lost == (pre.lost || (fits && exists|i: int|
        0 <= i < 4 && #[trigger] p.cell_y(i) >= ROWS - 4))
    &&& (if cleared == 0 {
        post.score == pre.score && post.gravity_micros == pre.gravity_micros && post.outgoing
            == pre.outgoing
    } else {
        scores(pre, post, cleared as int)
    })
    &&& post.current_piece == pre.next_piece
    &&& crate::piece::is_spawn_piece(post.next_piece)
    &&& post.saved_piece == pre.saved_piece
    &&& post.incoming == pre.incoming
    &&& post.update_timer == pre.update_timer
}

/// One player's board engine.
pub struct Player {
    /// The settled grid, without the falling piece.
    pub board: Board,
    /// Attacks in flight toward this player: `(rows, countdown)` entries,
    /// in arrival order, every countdown at least 1.
    pub incoming: Vec<(u8, u8)>,
    /// The attack this player's last clear produced, if not yet consumed.
    pub outgoing: Option<(u8, u8)>,
    /// The falling piece.
    pub current_piece: Piece,
    /// The piece put aside by `save_piece`, if any.
    pub saved_piece: Option<Piece>,
    /// The piece that becomes current at the next lock.
    pub next_piece: Piece,
    /// Cleared-line score.
    pub score: u32,
    /// One-way latch: once set, commands and ticks no longer mutate the
    /// board or the pieces.
    pub lost: bool,
    /// Seconds per gravity drop, in microseconds.
    pub gravity_micros: u64,
    /// When the last gravity tick was taken.
    pub update_timer: Instant,
}

impl Player {
    /// Well-formedness of the engine's state.
    pub open spec fn wf(self) -> bool {
        &&& forall|y: int, x: int|
            0 <= y < ROWS && 0 <= x < COLS ==> (#[trigger] self.board[y][x]) <= 8
        &&& self.current_piece.wf()
        &&& self.next_piece.wf()
        &&& (self.saved_piece matches Some(p) ==> p.wf())
        &&& forall|i: int|
            0 <= i < self.incoming@.len() ==> (#[trigger] self.incoming@[i]).1 >= 1
        &&& (self.outgoing matches Some(a) ==> a.0 >= 1 && a.1 >= 1)
    }

    /// A fresh player: empty board, no attacks, a random current and next
    /// piece, and the gravity of the given starting level.
    pub fn new(init_level: usize) -> (p: Player)
        ensures
            p.wf(),
            fresh_player(p, init_level as int),
    {
        let p = Player {
            board: [[0u32; COLS]; ROWS],
            incoming: Vec::new(),
            outgoing: None,
            current_piece: Piece::random_piece(),
            saved_piece: None,
            next_piece: Piece::random_piece(),
            score: 0,
            lost: false,
            gravity_micros: time_level_micros(init_level),
            update_timer: instant_now(),
        };
        proof {
            assert(grid(p.board) =~~= Seq::new(ROWS as nat, |y: int| zero_row()));
        }
        p
    }

    /// A piece is valid here iff all four of its cells are on the board
    /// and over empty grid cells.
    pub fn valid_pos(&self, piece: &Piece) -> (r: bool)
        requires
            piece.arith_ok(),
        ensures
            r == piece_fits(grid(self.board), *piece),
    {
        let cells = piece.pos_on_board();
        let mut i: usize = 0;
        let mut ok = true;
        while i < 4
            invariant
                piece.arith_ok(),
                i <= 4,
                forall|j: int|
                    0 <= j < 4 ==> (#[trigger] cells[j])[0] == piece.cell_x(j) && cells[j][1]
                        == piece.cell_y(j),
                ok == forall|j: int|
                    0 <= j < i ==> 0 <= #[trigger] piece.cell_x(j) < COLS && 0 <= piece.cell_y(j)
                        < ROWS && grid(self.board)[piece.cell_y(j)][piece.cell_x(j)] == 0,
            decreases 4 - i,
        {
            let x = cells[i][0];
            let y = cells[i][1];
            if x < 0 || y < 0 || x >= COLS as i32 || y >= ROWS as i32
                || self.board[y as usize][x as usize] != 0 {
                ok = false;
            }
            i = i + 1;
        }
        ok
    }

    /// The grid with the falling piece overlaid, for rendering and for the
    /// plugin snapshot. Reads nothing but the player's state, so two calls
    /// without a mutation in between return the same grid.
    pub fn get_board(&self) -> (b: Board)
        requires
            self.wf(),
        ensures
            grid(b) =~~= overlay(grid(self.board), self.current_piece),
    {
        paint_piece(self.board, &self.current_piece)
    }

    /// Commits a piece's cells into the grid with its color: the falling
    /// piece, or `alt_piece` if one is given. If any committed cell lies
    /// in the top four rows (the overflow buffer), the player loses. A
    /// call on a piece that does not fit reports an error and mutates
    /// nothing; under correct engine use that path is unreachable.
    pub fn place_piece(&mut self, alt_piece: Option<&Piece>) -> (r: Result<(), String>)
        requires
            old(self).wf(),
            (alt_piece matches Some(p) ==> p.arith_ok()),
        ensures
            final(self).wf(),
            (alt_piece is None ==> places(
                *old(self),
                *final(self),
                r is Ok,
                old(self).current_piece,
            )),
            (alt_piece matches Some(q) ==> places(*old(self), *final(self), r is Ok, *q)),
            final(self).incoming == old(self).incoming,
            final(self).outgoing == old(self).outgoing,
            final(self).current_piece == old(self).current_piece,
            final(self).saved_piece == old(self).saved_piece,
            final(self).next_piece == old(self).next_piece,
            final(self).score == old(self).score,
            final(self).gravity_micros == old(self).gravity_micros,
            final(self).update_timer == old(self).update_timer,
    {
        let piece: Piece = if let Some(p) = alt_piece {
            *p
        } else {
            self.current_piece
        };
        if self.valid_pos(&piece) {
            self.board = paint_piece(self.board, &piece);
            let cells = piece.pos_on_board();
            let mut overflow = false;
            let mut i: usize = 0;
            while i < 4
                invariant
                    piece.arith_ok(),
                    i <= 4,
                    forall|j: int|
                        0 <= j < 4 ==> (#[trigger] cells[j])[0] == piece.cell_x(j) && cells[j][1]
                            == piece.cell_y(j),
                    overflow == exists|j: int|
                        0 <= j < i && #[trigger] piece.cell_y(j) >= ROWS - 4,
                decreases 4 - i,
            {
                if cells[i][1] >= ROWS as i32 - 4 {
                    overflow = true;
                }
                i = i + 1;
            }
            if overflow {
                self.lose_game();
            }
            proof {
                assert forall|y: int, x: int| 0 <= y < ROWS && 0 <= x < COLS implies (
                #[trigger] self.board[y][x]) <= 8 by {
                    assert(grid(self.board)[y][x] == overlay(grid(old(self).board), piece)[y][x]);
                }
                assert(places(*old(self), *self, true, piece));
            }
            Ok(())
        } else {
            proof {
                assert(places(*old(self), *self, false, piece));
            }
            Err("Error placing piece on board!".to_string())
        }
    }

    /// Books `lines_cleared` cleared lines: adds the score delta, sets
    /// gravity to the level the new score reaches, and, if the clear
    /// produces an attack, overwrites the outgoing slot with it.
    pub fn process_score(&mut self, lines_cleared: usize)
        requires
            old(self).wf(),
            1 <= lines_cleared,
        ensures
            final(self).wf(),
            scores(*old(self), *final(self), lines_cleared as int),
            final(self).board == old(self).board,
            final(self).incoming == old(self).incoming,
            final(self).current_piece == old(self).current_piece,
            final(self).saved_piece == old(self).saved_piece,
            final(self).next_piece == old(self).next_piece,
            final(self).lost == old(self).lost,
            final(self).update_timer == old(self).update_timer,
    {
        let (delta, attack): (u32, u8) = if lines_cleared >= 4 {
            (8, 4)
        } else {
            ((2 * lines_cleared - 1) as u32, (lines_cleared - 1) as u8)
        };
        if self.score <= u32::MAX - delta {
            self.score = self.score + delta;
        }
        let level = self.score / 5;
        self.gravity_micros = time_level_micros(level as usize);
        if attack > 0 {
            self.outgoing = Some((attack, ATTACK_DELAY));
        }
    }

    /// Removes every full row: the remaining rows are compacted toward
    /// the bottom in their original order, emptied rows fill the top, and
    /// the count of removed rows is scored. A grid with no full row is
    /// left entirely alone.
    pub fn process_lines(&mut self)
        requires
            old(self).wf(),
        ensures
            final(self).wf(),
            ({
                let g = grid(old(self).board);
                let cleared = ROWS - kept_rows(g, ROWS as int).len();
                if cleared == 0 {
                    *final(self) == *old(self)
                } else {
                    grid(final(self).board) == compacted(g) && scores(
                        *old(self),
                        *final(self),
                        cleared as int,
                    )
                }
            }),
            final(self).incoming == old(self).incoming,
            final(self).current_piece == old(self).current_piece,
            final(self).saved_piece == old(self).saved_piece,
            final(self).next_piece == old(self).next_piece,
            final(self).lost == old(self).lost,
            final(self).update_timer == old(self).update_timer,
    {
        let ghost g = grid(self.board);
        let mut nb: Board = [[0u32; COLS]; ROWS];
        let mut k: usize = 0;
        let mut r: usize = 0;
        proof {
            assert forall|y: int, x: int| 0 <= y < ROWS && 0 <= x < COLS implies #[trigger] grid(
                nb,
            )[y][x] == 0u32 by {}
        }
        while r < ROWS
            invariant
                old(self).wf(),
                *self == *old(self),
                g == grid(self.board),
                r <= ROWS,
                k == kept_rows(g, r as int).len(),
                k <= r,
                forall|j: int| 0 <= j < k ==> #[trigger] grid(nb)[j] =~= kept_rows(g, r as int)[j],
                forall|y: int, x: int|
                    k <= y < ROWS && 0 <= x < COLS ==> #[trigger] grid(nb)[y][x] == 0u32,
                forall|y: int, x: int|
                    0 <= y < ROWS && 0 <= x < COLS ==> (#[trigger] grid(nb)[y][x]) <= 8,
            decreases ROWS - r,
        {
            proof {
                lemma_kept_rows_len(g, r as int);
                assert(self.board[r as int]@ =~= g[r as int]);
            }
            if !row_is_full(&self.board[r]) {
                let ghost prevnb = nb;
                nb[k] = self.board[r];
                proof {
                    assert forall|y: int| 0 <= y < ROWS && y != k implies #[trigger] grid(
                        nb,
                    )[y] =~= grid(prevnb)[y] by {
                        assert(nb[y] == prevnb[y]);
                    }
                    assert(grid(nb)[k as int] =~= g[r as int]);
                    assert(kept_rows(g, r as int + 1) == kept_rows(g, r as int).push(
                        g[r as int],
                    ));
                    assert forall|j: int| 0 <= j < k + 1 implies #[trigger] grid(nb)[j] =~= kept_rows(
                        g,
                        r as int + 1,
                    )[j] by {
                        if j < k {
                            assert(grid(nb)[j] =~= grid(prevnb)[j]);
                            assert(grid(prevnb)[j] =~= kept_rows(g, r as int)[j]);
                        }
                    }
                    assert forall|y: int, x: int|
                        k + 1 <= y < ROWS && 0 <= x < COLS implies #[trigger] grid(nb)[y][x]
                        == 0u32 by {
                        assert(grid(nb)[y] =~= grid(prevnb)[y]);
                        assert(grid(prevnb)[y][x] == 0u32);
                    }
                }
                k = k + 1;
            } else {
                proof {
                    assert(kept_rows(g, r as int + 1) == kept_rows(g, r as int));
                }
            }
            r = r + 1;
        }
        if k < ROWS {
            let cleared = ROWS - k;
            self.board = nb;
            proof {
                assert forall|y: int, x: int| 0 <= y < ROWS && 0 <= x < COLS implies (
                #[trigger] self.board[y][x]) <= 8 by {
                    assert(grid(nb)[y][x] <= 8);
                }
            }
            self.process_score(cleared);
            proof {
                assert(grid(self.board) =~~= compacted(g));
            }
        }
    }

    /// Pushes `rows` garbage rows in at the bottom, every one solid but
    /// for the single empty column `col`; the settled rows shift up, rows
    /// pushed past the top are dropped, and the player loses if the first
    /// dropped row was not empty.
    pub fn insert_garbage(&mut self, rows: usize, col: usize)
        requires
            old(self).wf(),
            1 <= rows,
            col < COLS,
        ensures
            final(self).wf(),
            ({
                let n = vstd::math::min(rows as int, ROWS as int);
                &&& grid(final(self).board) == garbage_grid(grid(old(self).board), n, col as int)
                &&& final(self).lost == (old(self).lost || garbage_overflows(
                    grid(old(self).board),
                    n,
                ))
            }),
            final(self).incoming == old(self).incoming,
            final(self).outgoing == old(self).outgoing,
            final(self).current_piece == old(self).current_piece,
            final(self).saved_piece == old(self).saved_piece,
            final(self).next_piece == old(self).next_piece,
            final(self).score == old(self).score,
            final(self).gravity_micros == old(self).gravity_micros,
            final(self).update_timer == old(self).update_timer,
    {
        let ghost g = grid(self.board);
        let n = if rows < ROWS {
            rows
        } else {
            ROWS
        };
        let mut grow: [u32; COLS] = [8u32; COLS];
        grow[col] = 0;
        proof {
            assert(grow@ =~= garbage_row(col as int));
        }
        let mut nb: Board = [[0u32; COLS]; ROWS];
        let mut y: usize = 0;
        while y < ROWS
            invariant
                old(self).wf(),
                *self == *old(self),
                g == grid(self.board),
                col < COLS,
                1 <= n <= ROWS,
                y <= ROWS,
                grow@ =~= garbage_row(col as int),
                forall|j: int|
                    0 <= j < y ==> #[trigger] grid(nb)[j] =~= (if j < n {
                        garbage_row(col as int)
                    } else {
                        g[j - n]
                    }),
            decreases ROWS - y,
        {
            let ghost prevnb = nb;
            if y < n {
                nb[y] = grow;
            } else {
                nb[y] = self.board[y - n];
                proof {
                    assert(self.board[y - n]@ =~= g[y as int - n as int]);
                }
            }
            proof {
                assert forall|j: int| 0 <= j < y && j != y implies #[trigger] grid(nb)[j] =~= grid(
                    prevnb,
                )[j] by {
                    assert(nb[j] == prevnb[j]);
                }
            }
            y = y + 1;
        }
        let lost_now = !row_is_empty(&self.board[ROWS - n]);
        proof {
            assert(self.board[ROWS - n]@ =~= g[ROWS - n as int]);
        }
        self.board = nb;
        if lost_now {
            self.lose_game();
        }
        proof {
            assert(grid(self.board) =~~= garbage_grid(g, n as int, col as int));
            assert forall|yy: int, xx: int| 0 <= yy < ROWS && 0 <= xx < COLS implies (
            #[trigger] self.board[yy][xx]) <= 8 by {
                assert(grid(self.board)[yy][xx] == garbage_grid(g, n as int, col as int)[yy][xx]);
            }
        }
    }

    /// Ticks the incoming attack queue down by one and materializes what
    /// falls due: every countdown drops by one, the entries that reach
    /// zero leave the queue, and their rows, if any, arrive as garbage at
    /// the bottom of the grid, all with the same randomly drawn empty
    /// column. A lost player is left entirely alone.
    pub fn process_attacks(&mut self)
        requires
            old(self).wf(),
        ensures
            final(self).wf(),
            attacks_processed(*old(self), *final(self)),
    {
        if self.lost {
            return ;
        }
        let ghost q = self.incoming@;
        let mut newq: Vec<(u8, u8)> = Vec::new();
        let mut pending: usize = 0;
        let mut i: usize = 0;
        while i < self.incoming.len()
            invariant
                old(self).wf(),
                *self == *old(self),
                q == self.incoming@,
                i <= q.len(),
                newq@ == ticked_queue(q.take(i as int)),
                forall|j: int| 0 <= j < newq@.len() ==> (#[trigger] newq@[j]).1 >= 1,
                pending == vstd::math::min(expired_rows(q.take(i as int)), ROWS as int),
            decreases q.len() - i,
        {
            let (a, c) = self.incoming[i];
            proof {
                assert(q.take(i as int + 1).drop_last() =~= q.take(i as int));
                assert(q.take(i as int + 1).last() == q[i as int]);
                assert(q[i as int].1 >= 1);
            }
            if c == 1 {
                let add = a as usize;
                pending = if pending + add < ROWS {
                    pending + add
                } else {
                    ROWS
                };
            } else {
                newq.push((a, c - 1));
            }
            i = i + 1;
        }
        proof {
            assert(q.take(q.len() as int) =~= q);
        }
        self.incoming = newq;
        if pending > 0 {
            let col = rand_below(COLS);
            self.insert_garbage(pending, col);
            proof {
                let total = expired_rows(q);
                assert(vstd::math::min(pending as int, ROWS as int) == vstd::math::min(
                    total,
                    ROWS as int,
                ));
            }
        }
    }

    /// Promotes the next piece to current and draws a fresh random next
    /// piece.
    pub fn next_piece(&mut self)
        requires
            old(self).wf(),
        ensures
            final(self).wf(),
            final(self).current_piece == old(self).next_piece,
            crate::piece::is_spawn_piece(final(self).next_piece),
            final(self).board == old(self).board,
            final(self).incoming == old(self).incoming,
            final(self).outgoing == old(self).outgoing,
            final(self).saved_piece == old(self).saved_piece,
            final(self).score == old(self).score,
            final(self).lost == old(self).lost,
            final(self).gravity_micros == old(self).gravity_micros,
            final(self).update_timer == old(self).update_timer,
    {
        self.current_piece = self.next_piece;
        self.next_piece = Piece::random_piece();
    }

    /// Puts the falling piece aside. The first call stores it and
    /// promotes the next piece; later calls swap the stored piece and the
    /// falling piece in place, with no validity check — the swapped-in
    /// piece may overlap. A lost player is left alone.
    pub fn save_piece(&mut self)
        requires
            old(self).wf(),
        ensures
            final(self).wf(),
            saves_to(*old(self), *final(self)),
    {
        if self.lost {
            return ;
        }
        if let Some(saved) = self.saved_piece {
            self.saved_piece = Some(self.current_piece);
            self.current_piece = saved;
        } else {
            self.saved_piece = Some(self.current_piece);
            self.next_piece();
        }
    }

    /// Appends an attack entry to the incoming queue; called by the match
    /// coordinator when the opponent's clear hands an attack over.
    pub fn add_incoming(&mut self, attack: (u8, u8))
        requires
            old(self).wf(),
            attack.1 >= 1,
        ensures
            final(self).wf(),
            final(self).incoming@ == old(self).incoming@.push(attack),
            final(self).board == old(self).board,
            final(self).outgoing == old(self).outgoing,
            final(self).current_piece == old(self).current_piece,
            final(self).saved_piece == old(self).saved_piece,
            final(self).next_piece == old(self).next_piece,
            final(self).score == old(self).score,
            final(self).lost == old(self).lost,
            final(self).gravity_micros == old(self).gravity_micros,
            final(self).update_timer == old(self).update_timer,
    {
        self.incoming.push(attack);
    }

    /// Hands out and clears the pending outgoing attack, if any; called
    /// by the match coordinator once per tick.
    pub fn take_outgoing(&mut self) -> (r: Option<(u8, u8)>)
        requires
            old(self).wf(),
        ensures
            final(self).wf(),
            r == old(self).outgoing,
            final(self).outgoing is None,
            final(self).board == old(self).board,
            final(self).incoming == old(self).incoming,
            final(self).current_piece == old(self).current_piece,
            final(self).saved_piece == old(self).saved_piece,
            final(self).next_piece == old(self).next_piece,
            final(self).score == old(self).score,
            final(self).lost == old(self).lost,
            final(self).gravity_micros == old(self).gravity_micros,
            final(self).update_timer == old(self).update_timer,
    {
        let r = self.outgoing;
        self.outgoing = None;
        r
    }

    /// The cleared-line score.
    pub fn get_score(&self) -> (r: u32)
        ensures
            r == self.score,
    {
        self.score
    }

    /// The incoming attack queue, in arrival order.
    pub fn get_incoming(&self) -> (r: &Vec<(u8, u8)>)
        ensures
            r@ == self.incoming@,
    {
        &self.incoming
    }

    /// The piece that becomes current at the next lock.
    pub fn get_next_piece(&self) -> (r: &Piece)
        ensures
            *r == self.next_piece,
    {
        &self.next_piece
    }

    /// The piece put aside by `save_piece`, if any.
    pub fn get_saved_piece(&self) -> (r: Option<&Piece>)
        ensures
            (r is Some) == (self.saved_piece is Some),
            (r matches Some(p) ==> *p == self.saved_piece->0),
    {
        match &self.saved_piece {
            Some(p) => Some(p),
            None => None,
        }
    }

    /// The falling piece's absolute cells, for the plugin snapshot.
    pub fn get_current_shape(&self) -> (r: Shape)
        requires
            self.wf(),
        ensures
            forall|i: int|
                0 <= i < 4 ==> (#[trigger] r[i])[0] == self.current_piece.cell_x(i) && r[i][1]
                    == self.current_piece.cell_y(i),
    {
        self.current_piece.pos_on_board()
    }

    /// The saved piece's absolute cells, or all zeros when none is saved.
    pub fn get_saved_shape(&self) -> (r: Shape)
        requires
            self.wf(),
        ensures
            self.saved_piece is None ==> forall|i: int|
                0 <= i < 4 ==> (#[trigger] r[i])[0] == 0 && r[i][1] == 0,
            (self.saved_piece matches Some(p) ==> forall|i: int|
                0 <= i < 4 ==> (#[trigger] r[i])[0] == p.cell_x(i) && r[i][1] == p.cell_y(i)),
    {
        match &self.saved_piece {
            Some(p) => p.pos_on_board(),
            None => [[0i32; 2]; 4],
        }
    }

    /// The total rows of all attacks now in flight toward this player,
    /// for the attack meter.
    pub fn get_attackbar(&self) -> (r: u32)
        ensures
            r == vstd::math::min(attack_sum(self.incoming@), u32::MAX as int),
    {
        let ghost q = self.incoming@;
        let mut sum: u32 = 0;
        let mut i: usize = 0;
        while i < self.incoming.len()
            invariant
                q == self.incoming@,
                i <= q.len(),
                sum == vstd::math::min(attack_sum(q.take(i as int)), u32::MAX as int),
            decreases q.len() - i,
        {
            let (a, _) = self.incoming[i];
            proof {
                assert(q.take(i as int + 1).drop_last() =~= q.take(i as int));
                assert(q.take(i as int + 1).last() == q[i as int]);
            }
            sum = if sum <= u32::MAX - a as u32 {
                sum + a as u32
            } else {
                u32::MAX
            };
            i = i + 1;
        }
        proof {
            assert(q.take(q.len() as int) =~= q);
        }
        sum
    }

    /// One gravity step: the falling piece moves down a row; if it
    /// cannot, it locks where it is — it is committed into the grid, full
    /// rows are cleared and scored, and the next piece takes over. This
    /// is the sole trigger for locking. A lost player is left alone.
    pub fn move_tick(&mut self)
        requires
            old(self).wf(),
        ensures
            final(self).wf(),
            gravity_stepped(*old(self), *final(self)),
    {
        if self.lost {
            return ;
        }
        proof {
            crate::piece::lemma_moved_cells(old(self).current_piece, 0, -1);
        }
        self.current_piece.mov(0, -1);
        proof {
            assert(self.current_piece.position =~= crate::piece::moved(
                old(self).current_piece,
                0,
                -1,
            ).position);
            assert(self.current_piece == crate::piece::moved(old(self).current_piece, 0, -1));
        }
        if !self.valid_pos(&self.current_piece) {
            self.current_piece.mov(0, 1);
            proof {
                assert(self.current_piece.position =~= old(self).current_piece.position);
                assert(self.current_piece == old(self).current_piece);
            }
            let _ = self.place_piece(None);
            self.process_lines();
            self.next_piece();
        } else {
            proof {
                assert(piece_fits(grid(self.board), self.current_piece));
                assert(0 <= self.current_piece.cell_x(0) < COLS && 0 <= self.current_piece.cell_y(
                    0,
                ) < ROWS);
                assert(self.current_piece.wf());
            }
        }
    }

    /// One engine tick, clock permitting: when the time since the last
    /// gravity step has reached the gravity interval, pending attacks are
    /// resolved, a gravity step is taken, and the timer restarts. What
    /// the clock answers decides whether anything happens at all. A lost
    /// player is left alone.
    pub fn update(&mut self)
        requires
            old(self).wf(),
        ensures
            final(self).wf(),
            engine_ticked(*old(self), *final(self)),
    {
        if self.lost {
            return ;
        }
        let elapsed = elapsed_micros(&self.update_timer);
        if elapsed >= self.gravity_micros {
            self.process_attacks();
            let ghost mid = *self;
            self.move_tick();
            let ghost stepped = *self;
            self.update_timer = instant_now();
            proof {
                assert(attacks_processed(*old(self), mid) && gravity_stepped(mid, stepped)
                    && *self == (Player { update_timer: self.update_timer, ..stepped }));
            }
        }
    }

    /// The wall/floor kick taken after an invalid move or rotation: the
    /// falling piece is shifted by the least amount that brings it back
    /// inside the board's bounds, then pushed up one row at a time while
    /// any of its cells still collides with an occupied grid cell. The
    /// landing spot may still overlap nothing can fix; the caller decides
    /// what to do then.
    pub fn adjust_current(&mut self)
        requires
            old(self).current_piece.arith_ok(),
        ensures
            final(self).current_piece == adjusted(
                grid(old(self).board),
                old(self).current_piece,
            ),
            final(self).current_piece.shape == old(self).current_piece.shape,
            final(self).current_piece.color == old(self).current_piece.color,
            -2 <= final(self).current_piece.position[0] <= 11,
            -2 <= final(self).current_piece.position[1] <= 49,
            final(self).board == old(self).board,
            final(self).incoming == old(self).incoming,
            final(self).outgoing == old(self).outgoing,
            final(self).saved_piece == old(self).saved_piece,
            final(self).next_piece == old(self).next_piece,
            final(self).score == old(self).score,
            final(self).lost == old(self).lost,
            final(self).gravity_micros == old(self).gravity_micros,
            final(self).update_timer == old(self).update_timer,
    {
        let ghost g = grid(self.board);
        let ghost pc = self.current_piece;
        proof {
            lemma_cell_spread(pc);
        }
        let cells = self.current_piece.pos_on_board();
        let min_x: i32 = {
            let a = if cells[0][0] < cells[1][0] {
                cells[0][0]
            } else {
                cells[1][0]
            };
            let b = if cells[2][0] < cells[3][0] {
                cells[2][0]
            } else {
                cells[3][0]
            };
            if a < b {
                a
            } else {
                b
            }
        };
        let max_x: i32 = {
            let a = if cells[0][0] > cells[1][0] {
                cells[0][0]
            } else {
                cells[1][0]
            };
            let b = if cells[2][0] > cells[3][0] {
                cells[2][0]
            } else {
                cells[3][0]
            };
            if a > b {
                a
            } else {
                b
            }
        };
        let min_y: i32 = {
            let a = if cells[0][1] < cells[1][1] {
                cells[0][1]
            } else {
                cells[1][1]
            };
            let b = if cells[2][1] < cells[3][1] {
                cells[2][1]
            } else {
                cells[3][1]
            };
            if a < b {
                a
            } else {
                b
            }
        };
        let max_y: i32 = {
            let a = if cells[0][1] > cells[1][1] {
                cells[0][1]
            } else {
                cells[1][1]
            };
            let b = if cells[2][1] > cells[3][1] {
                cells[2][1]
            } else {
                cells[3][1]
            };
            if a > b {
                a
            } else {
                b
            }
        };
        proof {
            assert(min_x == min_cell_x(pc) && max_x == max_cell_x(pc));
            assert(min_y == min_cell_y(pc) && max_y == max_cell_y(pc));
        }
        let xa: i32 = if min_x < 0 {
            -min_x
        } else if max_x > COLS as i32 - 1 {
            COLS as i32 - 1 - max_x
        } else {
            0
        };
        let ya0: i32 = if min_y < 0 {
            -min_y
        } else if max_y > ROWS as i32 - 1 {
            ROWS as i32 - 1 - max_y
        } else {
            0
        };
        proof {
            assert(xa == bounds_adj_x(pc) && ya0 == bounds_adj_y(pc));
        }
        let mut ya: i32 = ya0;
        loop
            invariant_except_break
                pc.arith_ok(),
                *self == *old(self),
                pc == self.current_piece,
                g == grid(self.board),
                forall|j: int|
                    0 <= j < 4 ==> (#[trigger] cells[j])[0] == pc.cell_x(j) && cells[j][1]
                        == pc.cell_y(j),
                xa == bounds_adj_x(pc),
                ya0 == bounds_adj_y(pc),
                -4200 <= ya0 <= 4200,
                ya0 <= ya <= ya0 + ROWS,
                forall|i: int| 0 <= i < 4 ==> 0 <= #[trigger] pc.cell_x(i) + xa < COLS,
                forall|i: int| 0 <= i < 4 ==> 0 <= #[trigger] pc.cell_y(i) + ya0 < ROWS,
                settle_y(g, pc, xa as int, ya as int) == settle_y(g, pc, xa as int, ya0 as int),
            ensures
                *self == *old(self),
                pc == self.current_piece,
                ya0 <= ya <= ya0 + ROWS,
                ya as int == settle_y(g, pc, xa as int, ya0 as int),
            decreases ROWS + 4200 - ya,
        {
            let mut hit = false;
            let mut i: usize = 0;
            while i < 4
                invariant
                    pc.arith_ok(),
                    *self == *old(self),
                    g == grid(self.board),
                    forall|j: int|
                        0 <= j < 4 ==> (#[trigger] cells[j])[0] == pc.cell_x(j) && cells[j][1]
                            == pc.cell_y(j),
                    forall|j: int| 0 <= j < 4 ==> 0 <= #[trigger] pc.cell_x(j) + xa < COLS,
                    -4200 <= ya0 <= 4200,
                    ya0 <= ya <= ya0 + ROWS,
                    i <= 4,
                    hit == exists|j: int|
                        0 <= j < i && 0 <= #[trigger] pc.cell_y(j) + ya < ROWS && g[pc.cell_y(j)
                            + ya][pc.cell_x(j) + xa] != 0,
                decreases 4 - i,
            {
                let yy = cells[i][1] + ya;
                if 0 <= yy && yy < ROWS as i32 {
                    let xx = cells[i][0] + xa;
                    if self.board[yy as usize][xx as usize] != 0 {
                        hit = true;
                    }
                }
                i = i + 1;
            }
            proof {
                assert(hit == kick_collides(g, pc, xa as int, ya as int));
            }
            if !hit {
                proof {
                    assert(settle_y(g, pc, xa as int, ya as int) == ya as int);
                }
                break ;
            }
            proof {
                assert(settle_y(g, pc, xa as int, ya as int) == settle_y(
                    g,
                    pc,
                    xa as int,
                    ya as int + 1,
                ));
                let w = choose|j: int|
                    0 <= j < 4 && 0 <= #[trigger] pc.cell_y(j) + ya < ROWS && g[pc.cell_y(j)
                        + ya][pc.cell_x(j) + xa] != 0;
                assert(pc.cell_y(w) + ya0 >= 0);
                assert(ya < ROWS + ya0);
            }
            ya = ya + 1;
        }
        self.current_piece.mov(xa, ya);
        proof {
            crate::piece::lemma_moved_cells(pc, xa as int, ya as int);
            assert(self.current_piece.position =~= adjusted(g, pc).position);
            assert(self.current_piece == adjusted(g, pc));
            assert(pc.cell_x(0) + xa - pc.shape[0][0] == self.current_piece.position[0]);
            assert(0 <= pc.cell_y(0) + ya0 < ROWS);
            assert(pc.cell_y(0) + ya - pc.shape[0][1] == self.current_piece.position[1]);
        }
    }

    /// A direct lateral or vertical move command. If the moved piece is
    /// invalid, the kick tries to rescue it; a spot the kick cannot clear
    /// is kept all the same — the move is abandoned at the kicked
    /// position. A lost player is left alone.
    pub fn move_current(&mut self, x: i32, y: i32)
        requires
            old(self).wf(),
            -4000 <= old(self).current_piece.position[0] + x <= 4000,
            -4000 <= old(self).current_piece.position[1] + y <= 4000,
        ensures
            final(self).wf(),
            moves_to(*old(self), *final(self), x as int, y as int),
    {
        if self.lost {
            return ;
        }
        proof {
            crate::piece::lemma_moved_cells(old(self).current_piece, x as int, y as int);
        }
        self.current_piece.mov(x, y);
        proof {
            assert(self.current_piece.position =~= crate::piece::moved(
                old(self).current_piece,
                x as int,
                y as int,
            ).position);
            assert(self.current_piece == crate::piece::moved(
                old(self).current_piece,
                x as int,
                y as int,
            ));
        }
        if !self.valid_pos(&self.current_piece) {
            self.adjust_current();
        } else {
            proof {
                assert(0 <= self.current_piece.cell_x(0) < COLS && 0 <= self.current_piece.cell_y(
                    0,
                ) < ROWS);
                assert(self.current_piece.wf());
            }
        }
    }

    /// A rotation command. If the rotated piece is invalid, the kick
    /// tries to rescue it; if even the kicked spot overlaps, the
    /// rotation is undone entirely — shape and pivot — so a piece that
    /// was valid is never left overlapping or out of bounds. A lost
    /// player is left alone.
    pub fn rotate_current(&mut self, clockwise: bool)
        requires
            old(self).wf(),
        ensures
            final(self).wf(),
            player_rotates(*old(self), *final(self), clockwise),
            piece_fits(grid(old(self).board), old(self).current_piece) ==> piece_fits(
                grid(final(self).board),
                final(self).current_piece,
            ),
    {
        if self.lost {
            return ;
        }
        let before = self.current_piece;
        self.current_piece.rotate(clockwise);
        let ghost s2 = self.current_piece.shape;
        let ghost pr = self.current_piece;
        proof {
            assert(pr == (Piece { shape: s2, ..old(self).current_piece }));
        }
        if !self.valid_pos(&self.current_piece) {
            self.adjust_current();
            if !self.valid_pos(&self.current_piece) {
                self.current_piece = before;
                proof {
                    assert(*self == *old(self));
                    assert(rotate_outcome(*old(self), *self, s2));
                }
            } else {
                proof {
                    assert(0 <= self.current_piece.cell_x(0) < COLS
                        && 0 <= self.current_piece.cell_y(0) < ROWS);
                    assert(self.current_piece.wf());
                    assert(rotate_outcome(*old(self), *self, s2));
                }
            }
        } else {
            proof {
                assert(0 <= self.current_piece.cell_x(0) < COLS && 0 <= self.current_piece.cell_y(
                    0,
                ) < ROWS);
                assert(self.current_piece.wf());
                assert(rotate_outcome(*old(self), *self, s2));
            }
        }
    }

    /// A hard drop: the piece falls as far as it can and locks at once —
    /// it is committed into the grid, full rows are cleared and scored,
    /// and the next piece takes over. A lost player is left alone.
    pub fn drop_current(&mut self)
        requires
            old(self).wf(),
        ensures
            final(self).wf(),
            drops_to(*old(self), *final(self)),
    {
        if self.lost {
            return ;
        }
        let ghost g = grid(self.board);
        let ghost p0 = self.current_piece;
        let ghost d = fall_dist(g, p0);
        let ghost mut k: int = 0;
        proof {
            assert(crate::piece::moved(p0, 0, 0).position =~= p0.position);
            assert(crate::piece::moved(p0, 0, 0) == p0);
        }
        loop
            invariant_except_break
                old(self).wf(),
                g == grid(self.board),
                self.board == old(self).board,
                self.incoming == old(self).incoming,
                self.outgoing == old(self).outgoing,
                self.saved_piece == old(self).saved_piece,
                self.next_piece == old(self).next_piece,
                self.score == old(self).score,
                self.lost == old(self).lost,
                self.gravity_micros == old(self).gravity_micros,
                self.update_timer == old(self).update_timer,
                self.current_piece.wf(),
                0 <= k,
                self.current_piece.position[0] == p0.position[0],
                self.current_piece.position[1] == p0.position[1] - k,
                self.current_piece == crate::piece::moved(p0, 0, -k),
                fall_dist(g, self.current_piece) + k == d,
            ensures
                *self == (Player { current_piece: crate::piece::moved(p0, 0, -d), ..*old(self) }),
                !piece_fits(g, crate::piece::moved(self.current_piece, 0, -1)),
                self.current_piece.wf(),
            decreases self.current_piece.position[1] + 4100,
        {
            let mut trial = self.current_piece;
            proof {
                crate::piece::lemma_moved_cells(self.current_piece, 0, -1);
            }
            trial.mov(0, -1);
            proof {
                assert(trial.position =~= crate::piece::moved(
                    self.current_piece,
                    0,
                    -1,
                ).position);
                assert(trial == crate::piece::moved(self.current_piece, 0, -1));
            }
            if self.valid_pos(&trial) {
                proof {
                    assert(0 <= trial.cell_x(0) < COLS && 0 <= trial.cell_y(0) < ROWS);
                    assert(trial.wf());
                    crate::piece::lemma_moved_cells(p0, 0, -k);
                    crate::piece::lemma_moved_cells(p0, 0, -(k + 1));
                    assert(trial.position =~= crate::piece::moved(p0, 0, -(k + 1)).position);
                    assert(trial == crate::piece::moved(p0, 0, -(k + 1)));
                    k = k + 1;
                }
                self.current_piece = trial;
            } else {
                proof {
                    assert(fall_dist(g, self.current_piece) == 0);
                    assert(k == d);
                }
                break ;
            }
        }
        let _ = self.place_piece(None);
        self.process_lines();
        self.next_piece();
    }

    /// Sets the one-way loss latch.
    pub fn lose_game(&mut self)
        ensures
            *final(self) == (Player { lost: true, ..*old(self) }),
    {
        self.lost = true;
    }
}

/// The row holds nothing at all.
fn row_is_empty(row: &[u32; COLS]) -> (r: bool)
    ensures
        r == row_empty(row@),
{
    let mut x: usize = 0;
    let mut empty = true;
    while x < COLS
        invariant
            x <= COLS,
            empty == forall|j: int| 0 <= j < x ==> #[trigger] row@[j] == 0,
        decreases COLS - x,
    {
        if row[x] != 0 {
            empty = false;
        }
        x = x + 1;
    }
    empty
}

/// The row has no empty cell.
fn row_is_full(row: &[u32; COLS]) -> (r: bool)
    ensures
        r == row_full(row@),
{
    let mut x: usize = 0;
    let mut full = true;
    while x < COLS
        invariant
            x <= COLS,
            full == forall|j: int| 0 <= j < x ==> #[trigger] row@[j] != 0,
        decreases COLS - x,
    {
        if row[x] == 0 {
            full = false;
        }
        x = x + 1;
    }
    full
}

/// `board` with the piece's on-board cells painted in its color.
fn paint_piece(board: Board, piece: &Piece) -> (b: Board)
    requires
        piece.arith_ok(),
    ensures
        grid(b) =~~= overlay(grid(board), *piece),
{
    let pc = *piece;
    let mut b = board;
    let cells = piece.pos_on_board();
    let mut i: usize = 0;
    while i < 4
        invariant
            pc.arith_ok(),
            i <= 4,
            forall|j: int|
                0 <= j < 4 ==> (#[trigger] cells[j])[0] == pc.cell_x(j) && cells[j][1] == pc.cell_y(
                    j,
                ),
            forall|y: int, x: int|
                0 <= y < ROWS && 0 <= x < COLS ==> #[trigger] grid(b)[y][x] == (if (exists|j: int|
                    0 <= j < i && pc.cell_x(j) == x && pc.cell_y(j) == y) {
                    pc.color
                } else {
                    grid(board)[y][x]
                }),
        decreases 4 - i,
    {
        let x = cells[i][0];
        let y = cells[i][1];
        let ghost prev = b;
        if 0 <= x && x < COLS as i32 && 0 <= y && y < ROWS as i32 {
            let mut row = b[y as usize];
            row[x as usize] = pc.color;
            b[y as usize] = row;
            proof {
                assert forall|yy: int, xx: int| 0 <= yy < ROWS && 0 <= xx < COLS implies #[trigger] grid(
                    b,
                )[yy][xx] == (if yy == y as int && xx == x as int {
                    pc.color
                } else {
                    grid(prev)[yy][xx]
                }) by {}
            }
        }
        proof {
            assert forall|yy: int, xx: int| 0 <= yy < ROWS && 0 <= xx < COLS implies #[trigger] grid(
                b,
            )[yy][xx] == (if (exists|j: int|
                0 <= j < i + 1 && pc.cell_x(j) == xx && pc.cell_y(j) == yy) {
                pc.color
            } else {
                grid(board)[yy][xx]
            }) by {
                if exists|j: int| 0 <= j < i + 1 && pc.cell_x(j) == xx && pc.cell_y(j) == yy {
                    let j = choose|j: int|
                        0 <= j < i + 1 && pc.cell_x(j) == xx && pc.cell_y(j) == yy;
                    if j < i {
                        assert(grid(prev)[yy][xx] == pc.color);
                    } else {
                        assert(pc.cell_x(i as int) == xx && pc.cell_y(i as int) == yy);
                    }
                } else {
                    assert(!(exists|j: int| 0 <= j < i && pc.cell_x(j) == xx && pc.cell_y(j) == yy));
                    assert(!(pc.cell_x(i as int) == xx && pc.cell_y(i as int) == yy));
                }
            }
        }
        i = i + 1;
    }
    proof {
        assert forall|y: int, x: int| 0 <= y < ROWS && 0 <= x < COLS implies #[trigger] grid(
            b,
        )[y][x] == overlay(grid(board), pc)[y][x] by {
            if pc.covers(x, y) {
                let j = choose|j: int| 0 <= j < 4 && pc.cell_x(j) == x && pc.cell_y(j) == y;
                assert(grid(b)[y][x] == pc.color);
            }
        }
    }
    b
}

} // verus!
