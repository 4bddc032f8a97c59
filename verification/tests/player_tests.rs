use tetris::piece::{spawn_shape, Piece, COLS, ROWS};
use tetris::player::{time_level_micros, Player, ATTACK_DELAY};

/// A fresh player: empty board, nothing queued, nothing saved, score 0,
/// not lost, gravity at the starting level.
#[test]
fn new_player_is_fresh() {
    let p = Player::new(0);
    assert_eq!(p.board, [[0u32; COLS]; ROWS]);
    assert!(p.incoming.is_empty());
    assert_eq!(p.outgoing, None);
    assert!(p.saved_piece.is_none());
    assert_eq!(p.get_score(), 0);
    assert!(!p.lost);
    assert_eq!(p.gravity_micros, 1_000_000);
    let p3 = Player::new(3);
    assert_eq!(p3.gravity_micros, 472_730);
}

/// The gravity table: the documented interval for each level, clamped at
/// the fast end.
#[test]
fn gravity_table_values() {
    assert_eq!(time_level_micros(0), 1_000_000);
    assert_eq!(time_level_micros(1), 793_000);
    assert_eq!(time_level_micros(9), 64_150);
    assert_eq!(time_level_micros(19), 460);
    assert_eq!(time_level_micros(25), 460);
}

/// A piece is valid iff every cell is on the board and over empty cells.
#[test]
fn valid_pos_cases() {
    let mut p = Player::new(0);
    // interior of an empty board
    let piece = Piece::new(spawn_shape(2), 3, [5, 10]);
    assert!(p.valid_pos(&piece));
    // a cell below the bottom row
    let low = Piece::new(spawn_shape(2), 3, [5, 0]); // offset (0,-1) -> y = -1
    assert!(!p.valid_pos(&low));
    // a cell past the left wall
    let left = Piece::new(spawn_shape(2), 3, [0, 10]); // offset (-1,0) -> x = -1
    assert!(!p.valid_pos(&left));
    // a cell past the right wall
    let right = Piece::new(spawn_shape(2), 3, [9, 10]); // offset (1,0) -> x = 10
    assert!(!p.valid_pos(&right));
    // a cell above the top row
    let high = Piece::new(spawn_shape(2), 3, [5, 24]);
    assert!(!p.valid_pos(&high));
    // overlapping a non-empty cell
    p.board[10][5] = 4;
    assert!(!p.valid_pos(&piece));
    // beside the non-empty cell it fits again
    let beside = Piece::new(spawn_shape(2), 3, [2, 10]);
    assert!(p.valid_pos(&beside));
}

/// The board snapshot overlays the falling piece without touching the
/// settled grid, and two snapshots in a row are identical.
#[test]
fn get_board_overlays_and_is_idempotent() {
    let mut p = Player::new(0);
    p.board[0][0] = 5;
    p.current_piece = Piece::new(spawn_shape(2), 3, [5, 10]);
    let b1 = p.get_board();
    let b2 = p.get_board();
    assert_eq!(b1, b2);
    assert_eq!(b1[0][0], 5);
    assert_eq!(b1[10][4], 3);
    assert_eq!(b1[10][5], 3);
    assert_eq!(b1[9][5], 3);
    assert_eq!(b1[10][6], 3);
    assert_eq!(p.board[10][5], 0); // the settled grid is untouched
}

/// Placing a piece commits its color; placing one that does not fit
/// reports an error and mutates nothing.
#[test]
fn place_piece_commits_or_errors() {
    let mut p = Player::new(0);
    p.current_piece = Piece::new(spawn_shape(0), 1, [5, 0]); // I piece flat on the bottom row
    assert!(p.place_piece(None).is_ok());
    assert_eq!(p.board[0][3], 1);
    assert_eq!(p.board[0][4], 1);
    assert_eq!(p.board[0][5], 1);
    assert_eq!(p.board[0][6], 1);
    assert!(!p.lost);

    let before = p.board;
    let overlapping = Piece::new(spawn_shape(0), 2, [5, 0]);
    assert!(p.place_piece(Some(&overlapping)).is_err());
    assert_eq!(p.board, before);

    // a piece locked inside the overflow buffer loses the game
    let high = Piece::new(spawn_shape(0), 2, [5, ROWS as i32 - 2]);
    assert!(p.place_piece(Some(&high)).is_ok());
    assert!(p.lost);
}

/// Rows 2 and 5 full: after processing, the kept rows sit at the bottom
/// in their original order and two empty rows appear at the top.
#[test]
fn process_lines_compacts_rows_2_and_5() {
    let mut p = Player::new(0);
    // mark every row with its own value in column 0 (rows 2 and 5 get
    // fully filled instead)
    for y in 0..ROWS {
        p.board[y][0] = (y + 1) as u32 % 8 + 1;
    }
    for x in 0..COLS {
        p.board[2][x] = 7;
        p.board[5][x] = 7;
    }
    let expected_kept: Vec<[u32; COLS]> = (0..ROWS).filter(|&y| y != 2 && y != 5).map(|y| p.board[y]).collect();
    p.process_lines();
    for (i, row) in expected_kept.iter().enumerate() {
        assert_eq!(p.board[i], *row);
    }
    assert_eq!(p.board[ROWS - 2], [0u32; COLS]);
    assert_eq!(p.board[ROWS - 1], [0u32; COLS]);
    // two cleared lines: score 2*2 - 1 = 3, attack 1
    assert_eq!(p.get_score(), 3);
    assert_eq!(p.outgoing, Some((1, ATTACK_DELAY)));
}

/// A grid with no full row is left entirely alone.
#[test]
fn process_lines_without_full_rows_is_a_no_op() {
    let mut p = Player::new(0);
    p.board[0][0] = 3;
    p.board[7][9] = 8;
    let before = p.board;
    p.process_lines();
    assert_eq!(p.board, before);
    assert_eq!(p.get_score(), 0);
    assert_eq!(p.outgoing, None);
}

/// One cleared line scores +1 and sends nothing; four clear the Tetris
/// bonus of +8 and send an attack of 4.
#[test]
fn process_score_deltas() {
    let mut p = Player::new(0);
    p.process_score(1);
    assert_eq!(p.get_score(), 1);
    assert_eq!(p.outgoing, None);
    p.process_score(4);
    assert_eq!(p.get_score(), 9);
    assert_eq!(p.outgoing, Some((4, ATTACK_DELAY)));
    p.process_score(2);
    assert_eq!(p.get_score(), 12);
    assert_eq!(p.outgoing, Some((1, ATTACK_DELAY)));
    p.process_score(3);
    assert_eq!(p.get_score(), 17);
    assert_eq!(p.outgoing, Some((2, ATTACK_DELAY)));
    // gravity follows score / 5
    assert_eq!(p.gravity_micros, time_level_micros(17 / 5));
}

/// An incoming entry `(3, 1)` becomes three garbage rows at the bottom,
/// each solid but for the same single column, with prior rows shifted up.
#[test]
fn process_attacks_materializes_garbage() {
    let mut p = Player::new(0);
    p.board[0][0] = 5;
    p.board[1][1] = 6;
    p.add_incoming((3, 1));
    p.process_attacks();
    assert!(p.incoming.is_empty());
    // the three bottom rows are solid garbage with one shared empty column
    let hole = (0..COLS).find(|&x| p.board[0][x] == 0).expect("one empty column");
    for y in 0..3 {
        for x in 0..COLS {
            if x == hole {
                assert_eq!(p.board[y][x], 0);
            } else {
                assert_eq!(p.board[y][x], 8);
            }
        }
    }
    // the old rows moved up by three
    assert_eq!(p.board[3][0], 5);
    assert_eq!(p.board[4][1], 6);
    // nothing was near the top, so the player plays on
    assert!(!p.lost);
}

/// Countdowns tick down once per call and entries survive until they
/// reach zero.
#[test]
fn process_attacks_counts_down() {
    let mut p = Player::new(0);
    p.add_incoming((2, 3));
    p.process_attacks();
    assert_eq!(p.incoming, vec![(2, 2)]);
    assert_eq!(p.board, [[0u32; COLS]; ROWS]);
    p.process_attacks();
    assert_eq!(p.incoming, vec![(2, 1)]);
    p.process_attacks();
    assert!(p.incoming.is_empty());
    // the two garbage rows arrived at the third tick, solid but for one
    // shared empty column
    let hole = (0..COLS).find(|&x| p.board[0][x] == 0).expect("one empty column");
    for y in 0..2 {
        for x in 0..COLS {
            assert_eq!(p.board[y][x], if x == hole { 0 } else { 8 });
        }
    }
    for y in 2..ROWS {
        assert_eq!(p.board[y], [0u32; COLS]);
    }
}

/// Garbage that shoves settled cells off the top loses the game: the
/// first row pushed past the kept block was not empty.
#[test]
fn process_attacks_overflow_loses() {
    let mut p = Player::new(0);
    for x in 0..COLS {
        p.board[ROWS - 3][x] = 2;
    }
    p.add_incoming((3, 1));
    p.process_attacks();
    assert!(p.lost);
}

/// The saved piece: the first call stores and promotes, the second swaps
/// in place.
#[test]
fn save_piece_stores_then_swaps() {
    let mut p = Player::new(0);
    let first = p.current_piece;
    let next = p.next_piece;
    p.save_piece();
    assert_eq!(p.saved_piece.as_ref().map(|s| s.color), Some(first.color));
    assert_eq!(p.current_piece.color, next.color);
    assert_eq!(p.current_piece.position, next.position);

    let second = p.current_piece;
    let on_deck = p.next_piece;
    p.save_piece();
    assert_eq!(p.saved_piece.as_ref().map(|s| s.color), Some(second.color));
    assert_eq!(p.current_piece.color, first.color);
    // the swap promotes no new piece
    assert_eq!(p.next_piece.color, on_deck.color);
    assert_eq!(p.next_piece.shape, on_deck.shape);
}

/// Gravity ticks walk the piece down; when it cannot fall it locks into
/// an empty board's bottom row and the next piece takes over.
#[test]
fn move_tick_locks_at_the_bottom() {
    let mut p = Player::new(0);
    p.current_piece = Piece::new(spawn_shape(0), 1, [5, 23]); // flat I piece
    let next = p.next_piece;
    let mut locked = false;
    for _ in 0..30 {
        let before = p.board;
        p.move_tick();
        if p.board != before {
            locked = true;
            break;
        }
    }
    assert!(locked);
    for x in 3..7 {
        assert_eq!(p.board[0][x], 1);
    }
    // everything else stayed empty
    let filled: usize = p.board.iter().flatten().filter(|&&c| c != 0).count();
    assert_eq!(filled, 4);
    assert_eq!(p.current_piece.color, next.color);
    assert_eq!(p.current_piece.shape, next.shape);
    assert!(!p.lost);
}

/// A hard drop falls all the way and locks at once.
#[test]
fn drop_current_locks_at_once() {
    let mut p = Player::new(0);
    p.current_piece = Piece::new(spawn_shape(1), 2, [5, 20]); // O piece
    p.drop_current();
    assert_eq!(p.board[0][4], 2);
    assert_eq!(p.board[0][5], 2);
    assert_eq!(p.board[1][4], 2);
    assert_eq!(p.board[1][5], 2);
    assert!(!p.lost);
}

/// A lateral move that fits is taken as it is.
#[test]
fn move_current_moves_when_valid() {
    let mut p = Player::new(0);
    p.current_piece = Piece::new(spawn_shape(2), 3, [5, 10]);
    p.move_current(-1, 0);
    assert_eq!(p.current_piece.position, [4, 10]);
    p.move_current(0, -1);
    assert_eq!(p.current_piece.position, [4, 9]);
}

/// A move into the wall is kicked back inside the board.
#[test]
fn move_current_kicks_back_from_the_wall() {
    let mut p = Player::new(0);
    p.current_piece = Piece::new(spawn_shape(2), 3, [1, 10]);
    p.move_current(-5, 0); // pivot would sit at x = -4, far out of bounds
    // the kick shifts it right until the leftmost cell reaches column 0
    assert_eq!(p.current_piece.position, [1, 10]);
}

/// A free rotation is taken; one that no kick can rescue is undone
/// entirely, shape and pivot.
#[test]
fn rotate_current_rolls_back_when_stuck() {
    let mut p = Player::new(0);
    p.current_piece = Piece::new(spawn_shape(2), 3, [5, 10]);
    let shape_before = p.current_piece.shape;
    p.rotate_current(true);
    assert_ne!(p.current_piece.shape, shape_before);
    let rotated = p.current_piece;
    assert!(p.valid_pos(&rotated));
    let mut q = Player::new(0);
    // an I piece standing in a one-cell-wide well that runs the whole
    // height of the board cannot rotate flat anywhere
    for y in 0..ROWS {
        for x in 0..COLS {
            if x != 5 {
                q.board[y][x] = 8;
            }
        }
    }
    q.current_piece = Piece::new([[0, -2], [0, -1], [0, 0], [0, 1]], 1, [5, 2]);
    let upright = q.current_piece;
    q.rotate_current(true);
    // the rotation was undone whole: the piece stands upright where it was
    assert_eq!(q.current_piece.shape, upright.shape);
    assert_eq!(q.current_piece.position, upright.position);
}

/// A piece that was valid before a rotation command is still valid after
/// it, even when the kick would have climbed off the top of the board:
/// the failed rotation is undone whole instead.
#[test]
fn rotate_current_never_invalidates_a_valid_piece() {
    let mut p = Player::new(0);
    // a one-cell-wide well at column 5, walled in at rows 21..=23
    for y in 21..24 {
        for x in 0..COLS {
            if x != 5 {
                p.board[y][x] = 8;
            }
        }
    }
    p.current_piece = Piece::new([[0, -2], [0, -1], [0, 0], [0, 1]], 1, [5, 21]);
    let before = p.current_piece;
    assert!(p.valid_pos(&before));
    p.rotate_current(true);
    let after = p.current_piece;
    assert!(p.valid_pos(&after));
    assert_eq!(after.shape, before.shape);
    assert_eq!(after.position, before.position);
}

/// The loss latch: once lost, commands and ticks no longer change the
/// board or the pieces.
#[test]
fn lost_is_a_one_way_latch() {
    let mut p = Player::new(0);
    p.board[3][3] = 4;
    p.lose_game();
    assert!(p.lost);
    let board = p.board;
    let piece = p.current_piece;
    p.move_tick();
    p.drop_current();
    p.move_current(-1, 0);
    p.rotate_current(true);
    p.save_piece();
    p.process_attacks();
    p.update();
    assert_eq!(p.board, board);
    assert_eq!(p.current_piece.position, piece.position);
    assert_eq!(p.current_piece.shape, piece.shape);
    assert!(p.lost);
}

/// The outgoing slot is taken exactly once.
#[test]
fn take_outgoing_clears_the_slot() {
    let mut p = Player::new(0);
    p.process_score(4);
    assert_eq!(p.take_outgoing(), Some((4, ATTACK_DELAY)));
    assert_eq!(p.take_outgoing(), None);
}

/// The attack meter sums the rows of everything in flight.
#[test]
fn attackbar_sums_incoming_rows() {
    let mut p = Player::new(0);
    assert_eq!(p.get_attackbar(), 0);
    p.add_incoming((3, 6));
    p.add_incoming((4, 2));
    assert_eq!(p.get_attackbar(), 7);
    assert_eq!(p.get_incoming(), &vec![(3, 6), (4, 2)]);
}

/// Two players exchanging attacks: a Tetris on one side materializes,
/// after the fixed delay, exactly four garbage rows on the other.
#[test]
fn attack_exchange_between_two_players() {
    let mut a = Player::new(0);
    let mut b = Player::new(0);
    for y in 0..4 {
        for x in 0..COLS {
            a.board[y][x] = 3;
        }
    }
    a.process_lines();
    assert_eq!(a.get_score(), 8);
    let attack = a.take_outgoing().expect("a Tetris sends an attack");
    assert_eq!(attack, (4, ATTACK_DELAY));
    b.add_incoming(attack);
    for _ in 0..ATTACK_DELAY {
        b.process_attacks();
    }
    assert!(b.incoming.is_empty());
    let hole = (0..COLS).find(|&x| b.board[0][x] == 0).expect("one empty column");
    for y in 0..4 {
        for x in 0..COLS {
            assert_eq!(b.board[y][x], if x == hole { 0 } else { 8 });
        }
    }
    for y in 4..ROWS {
        assert_eq!(b.board[y], [0u32; COLS]);
    }
    assert!(!b.lost);
}
