use tetris::game::{Command, Game, PLAYER_AMOUNT};
use tetris::piece::{spawn_shape, Piece, COLS, ROWS};

/// A fresh match: two fresh players and the AI flag as asked.
#[test]
fn new_game_is_fresh() {
    let g = Game::new(0, false);
    assert_eq!(PLAYER_AMOUNT, 2);
    assert!(!g.ai_enabled);
    assert_eq!(g.get_scores(), [0, 0]);
    assert_eq!(g.get_attackbars(), [0, 0]);
    assert_eq!(g.player_one.board, [[0u32; COLS]; ROWS]);
    assert_eq!(g.player_two.board, [[0u32; COLS]; ROWS]);
    let h = Game::new(2, true);
    assert!(h.ai_enabled);
    assert_eq!(h.player_one.gravity_micros, 617_800);
}

/// Commands land on the player they are bound to.
#[test]
fn key_down_dispatches_to_the_right_player() {
    let mut g = Game::new(0, false);
    g.player_one.current_piece = Piece::new(spawn_shape(2), 3, [5, 10]);
    g.player_two.current_piece = Piece::new(spawn_shape(2), 3, [5, 10]);
    g.key_down(0, Command::MoveLeft);
    assert_eq!(g.player_one.current_piece.position, [4, 10]);
    assert_eq!(g.player_two.current_piece.position, [5, 10]);
    g.key_down(1, Command::MoveRight);
    assert_eq!(g.player_two.current_piece.position, [6, 10]);
    g.key_down(1, Command::SoftDrop);
    assert_eq!(g.player_two.current_piece.position, [6, 9]);
    g.key_down(0, Command::SavePiece);
    assert!(g.player_one.saved_piece.is_some());
}

/// While a plugin drives the second player, that side's human commands
/// are ignored.
#[test]
fn key_down_ignores_the_ai_side() {
    let mut g = Game::new(0, true);
    g.player_two.current_piece = Piece::new(spawn_shape(2), 3, [5, 10]);
    g.key_down(1, Command::MoveLeft);
    assert_eq!(g.player_two.current_piece.position, [5, 10]);
    g.key_down(1, Command::HardDrop);
    assert_eq!(g.player_two.board, [[0u32; COLS]; ROWS]);
    // the first player's side still answers
    g.player_one.current_piece = Piece::new(spawn_shape(2), 3, [5, 10]);
    g.key_down(0, Command::MoveRight);
    assert_eq!(g.player_one.current_piece.position, [6, 10]);
}

/// The AI protocol's numeric answers: 1 and 2 move, 3 and 4 rotate, 5
/// drops softly, 6 drops hard, 7 saves, everything else is a no-op. All
/// of them steer the second player.
#[test]
fn parse_ai_output_maps_actions() {
    let mut g = Game::new(0, true);
    g.player_two.current_piece = Piece::new(spawn_shape(2), 3, [5, 10]);
    g.parse_ai_output(1);
    assert_eq!(g.player_two.current_piece.position, [4, 10]);
    g.parse_ai_output(2);
    assert_eq!(g.player_two.current_piece.position, [5, 10]);
    g.parse_ai_output(5);
    assert_eq!(g.player_two.current_piece.position, [5, 9]);
    let shape_before = g.player_two.current_piece.shape;
    g.parse_ai_output(3);
    assert_ne!(g.player_two.current_piece.shape, shape_before);
    g.parse_ai_output(4);
    assert_eq!(g.player_two.current_piece.shape, shape_before);
    g.parse_ai_output(7);
    assert!(g.player_two.saved_piece.is_some());
    let before = g.player_two.current_piece;
    g.parse_ai_output(0);
    g.parse_ai_output(42);
    assert_eq!(g.player_two.current_piece.position, before.position);
    assert_eq!(g.player_two.current_piece.shape, before.shape);
    // the first player is never touched
    assert_eq!(g.player_one.board, [[0u32; COLS]; ROWS]);
    g.parse_ai_output(6);
    assert_ne!(g.player_two.board, [[0u32; COLS]; ROWS]);
}

/// The rendering accessors mirror each player's state.
#[test]
fn accessors_mirror_both_players() {
    let mut g = Game::new(0, false);
    g.player_one.board[0][0] = 5;
    g.player_one.current_piece = Piece::new(spawn_shape(2), 3, [5, 10]);
    g.player_two.current_piece = Piece::new(spawn_shape(0), 1, [5, 10]);
    let boards = g.get_boards();
    assert_eq!(boards[0], g.player_one.get_board());
    assert_eq!(boards[1], g.player_two.get_board());
    assert_eq!(boards[0][0][0], 5);
    assert_eq!(boards[0][10][5], 3);

    let nexts = g.get_next_pieces();
    assert_eq!(nexts[0], g.player_one.get_next_piece().get_display_shape());

    // nothing saved yet: empty preview boxes
    assert_eq!(g.get_saved_pieces(), [[[0u32; 4]; 4]; 2]);
    g.player_one.save_piece();
    let saved = g.get_saved_pieces();
    assert_ne!(saved[0], [[0u32; 4]; 4]);
    assert_eq!(saved[1], [[0u32; 4]; 4]);

    g.player_two.add_incoming((3, 2));
    assert_eq!(g.get_attackbars(), [0, 3]);
}

/// The plugin snapshot carries the overlaid grid and both piece layouts;
/// an index past the players answers zeros.
#[test]
fn player_data_snapshot() {
    let mut g = Game::new(0, true);
    g.player_two.current_piece = Piece::new(spawn_shape(2), 3, [5, 10]);
    let (board, current, saved) = g.get_player_data(1);
    assert_eq!(board, g.player_two.get_board());
    assert_eq!(current, [[4, 10], [5, 10], [5, 9], [6, 10]]);
    assert_eq!(saved, [[0i32; 2]; 4]);
    g.player_two.save_piece();
    let (_, _, saved2) = g.get_player_data(1);
    assert_eq!(saved2, [[4, 10], [5, 10], [5, 9], [6, 10]]);

    let (zb, zc, zs) = g.get_player_data(9);
    assert_eq!(zb, [[0u32; COLS]; ROWS]);
    assert_eq!(zc, [[0i32; 2]; 4]);
    assert_eq!(zs, [[0i32; 2]; 4]);
}

/// A match tick hands each side's outgoing attack to the other and
/// leaves both outgoing slots empty.
#[test]
fn update_routes_attacks() {
    let mut g = Game::new(0, false);
    // a pending Tetris attack on the first player's side
    g.player_one.process_score(4);
    // a gravity interval of a full second has not elapsed yet, so the
    // players' engines do not tick here; the routing still runs
    g.update();
    assert_eq!(g.player_one.outgoing, None);
    assert_eq!(g.player_two.outgoing, None);
    assert_eq!(g.player_two.get_incoming().len(), 1);
    assert_eq!(g.player_two.get_incoming()[0].0, 4);
    assert_eq!(g.get_attackbars(), [0, 4]);
}
