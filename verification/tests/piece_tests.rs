use tetris::piece::{spawn_shape, Piece, COLS, ROWS};

/// Four quarter turns return a non-O piece to its original occupied
/// cells; one turn is the axis-swap-and-negate step.
#[test]
fn rotation() {
    // the T shape at a known interior position
    let mut p = Piece::new(spawn_shape(2), 3, [5, 10]);
    let original = p.pos_on_board();

    p.rotate(true);
    // (x, y) -> (y, -x): [-1,0] -> [0,1], [0,0] -> [0,0], [0,-1] -> [-1,0], [1,0] -> [0,-1]
    assert_eq!(p.shape, [[0, 1], [0, 0], [-1, 0], [0, -1]]);

    p.rotate(true);
    p.rotate(true);
    p.rotate(true);
    assert_eq!(p.pos_on_board(), original);
    assert_eq!(p.shape, spawn_shape(2));

    let mut q = Piece::new(spawn_shape(5), 6, [4, 7]);
    let original_q = q.pos_on_board();
    q.rotate(false);
    q.rotate(false);
    q.rotate(false);
    q.rotate(false);
    assert_eq!(q.pos_on_board(), original_q);
}

/// The O shape is rotation-invariant: a turn leaves it alone.
#[test]
fn rotation_leaves_o_alone() {
    let mut p = Piece::new(spawn_shape(1), 2, [5, 10]);
    let before = p.shape;
    p.rotate(true);
    assert_eq!(p.shape, before);
    p.rotate(false);
    assert_eq!(p.shape, before);
}

/// The occupied cells are exactly `position + shape[i]`, four of them.
#[test]
fn occupied_cells_are_pivot_plus_offsets() {
    let p = Piece::new(spawn_shape(0), 1, [5, 23]);
    let cells = p.pos_on_board();
    assert_eq!(cells.len(), 4);
    for i in 0..4 {
        assert_eq!(cells[i][0], p.position[0] + p.shape[i][0]);
        assert_eq!(cells[i][1], p.position[1] + p.shape[i][1]);
    }
    assert_eq!(cells, [[3, 23], [4, 23], [5, 23], [6, 23]]);
}

/// Moving a piece translates only the pivot.
#[test]
fn mov_translates_pivot() {
    let mut p = Piece::new(spawn_shape(3), 4, [5, 23]);
    p.mov(-2, -3);
    assert_eq!(p.position, [3, 20]);
    assert_eq!(p.shape, spawn_shape(3));
}

/// A spawned piece of each kind carries its own color and the spawn
/// point.
#[test]
fn from_kind_colors_and_spawn_point() {
    for kind in 0..7 {
        let p = Piece::from_kind(kind);
        assert_eq!(p.color, kind as u32 + 1);
        assert_eq!(p.position, [COLS as i32 / 2, ROWS as i32 - 1]);
        assert_eq!(p.shape, spawn_shape(kind));
    }
}

/// A random piece is one of the seven spawn pieces.
#[test]
fn random_piece_is_a_spawn_piece() {
    for _ in 0..50 {
        let p = Piece::random_piece();
        assert!(p.color >= 1 && p.color <= 7);
        assert_eq!(p.shape, spawn_shape(p.color as usize - 1));
        assert_eq!(p.position, [COLS as i32 / 2, ROWS as i32 - 1]);
    }
}

/// The preview box shows the T shape in its color at the offsets shifted
/// by two.
#[test]
fn display_shape_of_t() {
    let p = Piece::new(spawn_shape(2), 3, [5, 23]);
    let d = p.get_display_shape();
    let mut expected = [[0u32; 4]; 4];
    expected[2][1] = 3; // (-1, 0)
    expected[2][2] = 3; // (0, 0)
    expected[1][2] = 3; // (0, -1)
    expected[2][3] = 3; // (1, 0)
    assert_eq!(d, expected);
}
