//! Tetromino pieces: geometry, colors, movement and rotation arithmetic.

use vstd::prelude::*;

verus! {

/// Number of rows of a board; the top four rows are the overflow buffer.
pub const ROWS: usize = 24;

/// Number of columns of a board.
pub const COLS: usize = 10;

/// A board-relative coordinate pair: index 0 is the column, index 1 the row.
/// Row 0 is the bottom; gravity pulls toward decreasing row.
pub type Point = [i32; 2];

/// Four offsets relative to a piece's pivot.
pub type Shape = [Point; 4];

/// One cell of a piece's shape, as mathematical integers: `(column, row)`.
pub open spec fn spawn_offset(kind: int, i: int) -> (int, int) {
    if kind == 0 {
        // I
        if i == 0 { (-2, 0) } else if i == 1 { (-1, 0) } else if i == 2 { (0, 0) } else { (1, 0) }
    } else if kind == 1 {
        // O
        if i == 0 { (-1, 0) } else if i == 1 { (-1, -1) } else if i == 2 { (0, -1) } else { (0, 0) }
    } else if kind == 2 {
        // T
        if i == 0 { (-1, 0) } else if i == 1 { (0, 0) } else if i == 2 { (0, -1) } else { (1, 0) }
    } else if kind == 3 {
        // S
        if i == 0 { (-1, 0) } else if i == 1 { (0, 0) } else if i == 2 { (0, -1) } else { (1, -1) }
    } else if kind == 4 {
        // Z
        if i == 0 { (-1, -1) } else if i == 1 { (0, -1) } else if i == 2 { (0, 0) } else { (1, 0) }
    } else if kind == 5 {
        // J
        if i == 0 { (-1, -1) } else if i == 1 { (-1, 0) } else if i == 2 { (0, 0) } else { (1, 0) }
    } else {
        // L
        if i == 0 { (-1, 0) } else if i == 1 { (0, 0) } else if i == 2 { (1, 0) } else { (1, -1) }
    }
}

/// `s` is, point for point, the spawn shape of kind `kind`.
pub open spec fn shape_is_spawn(s: Shape, kind: int) -> bool {
    forall|i: int|
        0 <= i < 4 ==> (#[trigger] s[i])[0] == spawn_offset(kind, i).0 && s[i][1] == spawn_offset(
            kind,
            i,
        ).1
}

/// `s` is exactly the spawn shape of the O piece, the only shape that
/// rotation leaves alone.
pub fn is_o_shape(s: &Shape) -> (r: bool)
    ensures
        r == shape_is_spawn(*s, 1),
{
    let r = s[0][0] == -1 && s[0][1] == 0 && s[1][0] == -1 && s[1][1] == -1 && s[2][0] == 0
        && s[2][1] == -1 && s[3][0] == 0 && s[3][1] == 0;
    proof {
        if r {
            assert forall|i: int| 0 <= i < 4 implies (#[trigger] s[i])[0] == spawn_offset(1, i).0
                && s[i][1] == spawn_offset(1, i).1 by {}
        } else {
            assert(!shape_is_spawn(*s, 1)) by {
                if shape_is_spawn(*s, 1) {
                    assert(s[0][0] == spawn_offset(1, 0).0);
                    assert(s[1][0] == spawn_offset(1, 1).0);
                    assert(s[2][0] == spawn_offset(1, 2).0);
                    assert(s[3][0] == spawn_offset(1, 3).0);
                    assert(s[0][1] == spawn_offset(1, 0).1);
                    assert(s[1][1] == spawn_offset(1, 1).1);
                    assert(s[2][1] == spawn_offset(1, 2).1);
                    assert(s[3][1] == spawn_offset(1, 3).1);
                }
            }
        }
    }
    r
}

/// The spawn shape of piece kind `kind` (`0..7`: I, O, T, S, Z, J, L).
pub fn spawn_shape(kind: usize) -> (s: Shape)
    requires
        kind < 7,
    ensures
        shape_is_spawn(s, kind as int),
{
    let s: Shape = if kind == 0 {
        [[-2, 0], [-1, 0], [0, 0], [1, 0]]
    } else if kind == 1 {
        [[-1, 0], [-1, -1], [0, -1], [0, 0]]
    } else if kind == 2 {
        [[-1, 0], [0, 0], [0, -1], [1, 0]]
    } else if kind == 3 {
        [[-1, 0], [0, 0], [0, -1], [1, -1]]
    } else if kind == 4 {
        [[-1, -1], [0, -1], [0, 0], [1, 0]]
    } else if kind == 5 {
        [[-1, -1], [-1, 0], [0, 0], [1, 0]]
    } else {
        [[-1, 0], [0, 0], [1, 0], [1, -1]]
    };
    s
}

/// `s2` is what one call of `rotate` makes of shape `s1`: the O spawn
/// shape stays as it is; every other shape has each offset `(x, y)` sent
/// to `(y, -x)` clockwise, `(-y, x)` counter-clockwise.
pub open spec fn rotates_to(s1: Shape, s2: Shape, clockwise: bool) -> bool {
    if shape_is_spawn(s1, 1) {
        s2 == s1
    } else {
        forall|i: int|
            0 <= i < 4 ==> (#[trigger] s2[i])[0] == (if clockwise {
                s1[i][1] as int
            } else {
                -(s1[i][1] as int)
            }) && s2[i][1] == (if clockwise {
                -(s1[i][0] as int)
            } else {
                s1[i][0] as int
            })
    }
}

/// Four quarter turns in the same direction bring a piece back to its
/// original occupied cells, for every starting shape whose first three
/// turns never land on the O spawn shape — the one shape rotation
/// refuses to touch.
pub proof fn lemma_rotation_round_trip(
    p: Piece,
    s1: Shape,
    s2: Shape,
    s3: Shape,
    s4: Shape,
    clockwise: bool,
)
    requires
        !shape_is_spawn(p.shape, 1),
        !shape_is_spawn(s1, 1),
        !shape_is_spawn(s2, 1),
        !shape_is_spawn(s3, 1),
        rotates_to(p.shape, s1, clockwise),
        rotates_to(s1, s2, clockwise),
        rotates_to(s2, s3, clockwise),
        rotates_to(s3, s4, clockwise),
    ensures
        forall|i: int|
            0 <= i < 4 ==> (#[trigger] s4[i])[0] == p.shape[i][0] && s4[i][1] == p.shape[i][1],
        forall|i: int|
            0 <= i < 4 ==> (Piece { shape: s4, ..p }).cell_x(i) == #[trigger] p.cell_x(i) && (Piece {
                shape: s4,
                ..p
            }).cell_y(i) == p.cell_y(i),
{
    assert forall|i: int| 0 <= i < 4 implies (#[trigger] s4[i])[0] == p.shape[i][0] && s4[i][1]
        == p.shape[i][1] by {
        assert(s1[i][0] == (if clockwise {
            p.shape[i][1] as int
        } else {
            -(p.shape[i][1] as int)
        }));
        assert(s2[i][0] == (if clockwise {
            s1[i][1] as int
        } else {
            -(s1[i][1] as int)
        }));
        assert(s3[i][0] == (if clockwise {
            s2[i][1] as int
        } else {
            -(s2[i][1] as int)
        }));
    }
}

/// The seven real pieces never meet the exclusion above: starting from
/// any spawn shape but the O, no quarter turn along the way lands on the
/// O spawn shape, so four turns always close the circle.
pub proof fn lemma_spawn_rotation_round_trip(
    p: Piece,
    k: int,
    s1: Shape,
    s2: Shape,
    s3: Shape,
    s4: Shape,
    clockwise: bool,
)
    requires
        0 <= k < 7,
        k != 1,
        shape_is_spawn(p.shape, k),
        rotates_to(p.shape, s1, clockwise),
        rotates_to(s1, s2, clockwise),
        rotates_to(s2, s3, clockwise),
        rotates_to(s3, s4, clockwise),
    ensures
        forall|i: int|
            0 <= i < 4 ==> (#[trigger] s4[i])[0] == p.shape[i][0] && s4[i][1] == p.shape[i][1],
{
    let s = p.shape;
    assert(s[0][0] == spawn_offset(k, 0).0 && s[0][1] == spawn_offset(k, 0).1);
    assert(s[1][0] == spawn_offset(k, 1).0 && s[1][1] == spawn_offset(k, 1).1);
    assert(!shape_is_spawn(s, 1)) by {
        if shape_is_spawn(s, 1) {
            assert(s[1][0] == spawn_offset(1, 1).0 && s[1][1] == spawn_offset(1, 1).1);
        }
    }
    assert(!shape_is_spawn(s1, 1)) by {
        if shape_is_spawn(s1, 1) {
            assert(s1[0][0] == -1 && s1[0][1] == 0);
            assert(s1[0][0] == (if clockwise {
                s[0][1] as int
            } else {
                -(s[0][1] as int)
            }));
            assert(s1[0][1] == (if clockwise {
                -(s[0][0] as int)
            } else {
                s[0][0] as int
            }));
        }
    }
    assert(!shape_is_spawn(s2, 1)) by {
        if shape_is_spawn(s2, 1) {
            assert(s2[0][0] == -1 && s2[0][1] == 0);
            assert(s1[0][0] == (if clockwise {
                s[0][1] as int
            } else {
                -(s[0][1] as int)
            }));
            assert(s1[0][1] == (if clockwise {
                -(s[0][0] as int)
            } else {
                s[0][0] as int
            }));
            assert(s2[0][0] == (if clockwise {
                s1[0][1] as int
            } else {
                -(s1[0][1] as int)
            }));
            assert(s2[0][1] == (if clockwise {
                -(s1[0][0] as int)
            } else {
                s1[0][0] as int
            }));
        }
    }
    assert(!shape_is_spawn(s3, 1)) by {
        if shape_is_spawn(s3, 1) {
            assert(s3[0][0] == -1 && s3[0][1] == 0);
            assert(s1[0][0] == (if clockwise {
                s[0][1] as int
            } else {
                -(s[0][1] as int)
            }));
            assert(s1[0][1] == (if clockwise {
                -(s[0][0] as int)
            } else {
                s[0][0] as int
            }));
            assert(s2[0][0] == (if clockwise {
                s1[0][1] as int
            } else {
                -(s1[0][1] as int)
            }));
            assert(s2[0][1] == (if clockwise {
                -(s1[0][0] as int)
            } else {
                s1[0][0] as int
            }));
            assert(s3[0][0] == (if clockwise {
                s2[0][1] as int
            } else {
                -(s2[0][1] as int)
            }));
            assert(s3[0][1] == (if clockwise {
                -(s2[0][0] as int)
            } else {
                s2[0][0] as int
            }));
        }
    }
    lemma_rotation_round_trip(p, s1, s2, s3, s4, clockwise);
}

/// The piece with its pivot translated by `(dx, dy)`; shape and color
/// stay. Meaningful while the translated pivot fits in `i32`.
pub open spec fn moved(p: Piece, dx: int, dy: int) -> Piece {
    Piece {
        position: vstd::array::spec_array_update(
            vstd::array::spec_array_update(p.position, 0, (p.position[0] + dx) as i32),
            1,
            (p.position[1] + dy) as i32,
        ),
        ..p
    }
}

/// Translating the pivot translates every occupied cell by the same
/// vector.
pub proof fn lemma_moved_cells(p: Piece, dx: int, dy: int)
    requires
        i32::MIN <= p.position[0] + dx <= i32::MAX,
        i32::MIN <= p.position[1] + dy <= i32::MAX,
    ensures
        moved(p, dx, dy).position[0] == p.position[0] + dx,
        moved(p, dx, dy).position[1] == p.position[1] + dy,
        moved(p, dx, dy).shape == p.shape,
        moved(p, dx, dy).color == p.color,
        forall|i: int|
            0 <= i < 4 ==> #[trigger] moved(p, dx, dy).cell_x(i) == p.cell_x(i) + dx && moved(
                p,
                dx,
                dy,
            ).cell_y(i) == p.cell_y(i) + dy,
{
    broadcast use vstd::array::group_array_axioms;

    let q = moved(p, dx, dy);
    assert(q.position@ == vstd::array::spec_array_update(p.position, 0, (p.position[0] + dx) as i32)@.update(1, (p.position[1] + dy) as i32));
    assert(q.position[0] == p.position[0] + dx);
    assert(q.position[1] == p.position[1] + dy);
}

/// `p` is one of the seven pieces as it spawns: its kind's shape and
/// color, with the pivot at the spawn point.
pub open spec fn is_spawn_piece(p: Piece) -> bool {
    exists|k: int|
        0 <= k < 7 && #[trigger] shape_is_spawn(p.shape, k) && p.color == k + 1 && p.position[0]
            == COLS as int / 2 && p.position[1] == ROWS as int - 1
}

/// What the 4-by-4 preview box shows of a piece at row `r`, column `c`:
/// the piece's color where an offset `(c - 2, r - 2)` exists, else empty.
pub open spec fn shown_cell(p: Piece, r: int, c: int) -> u32 {
    if exists|i: int|
        0 <= i < 4 && (#[trigger] p.shape[i])[0] + 2 == c && p.shape[i][1] + 2 == r {
        p.color
    } else {
        0u32
    }
}

/// A piece: four shape offsets around a pivot, a color code in `1..=7`,
/// and the pivot's board coordinate.
#[derive(Clone, Copy)]
pub struct Piece {
    pub shape: Shape,
    pub color: u32,
    pub position: Point,
}

impl Piece {
    /// The shape and color are sane: a color code of a real piece, and
    /// shape offsets within two cells of the pivot.
    pub open spec fn shape_ok(self) -> bool {
        &&& 1 <= self.color <= 7
        &&& forall|i: int|
            0 <= i < 4 ==> -2 <= (#[trigger] self.shape[i])[0] <= 2 && -2 <= self.shape[i][1] <= 2
    }

    /// Sane, with the pivot near enough the board that all placement
    /// arithmetic stays comfortably in `i32` range. A piece in mid-move
    /// may be here without being well-formed.
    pub open spec fn arith_ok(self) -> bool {
        &&& self.shape_ok()
        &&& -4096 <= self.position[0] <= 4096
        &&& -4096 <= self.position[1] <= 4096
    }

    /// Well-formedness at rest: sane, with the pivot in the band the
    /// engine's own operations keep it in.
    pub open spec fn wf(self) -> bool {
        &&& self.shape_ok()
        &&& -64 <= self.position[0] <= 64
        &&& -64 <= self.position[1] <= 64
    }

    /// Column of the piece's `i`-th occupied cell.
    pub open spec fn cell_x(self, i: int) -> int {
        self.position[0] + self.shape[i][0]
    }

    /// Row of the piece's `i`-th occupied cell.
    pub open spec fn cell_y(self, i: int) -> int {
        self.position[1] + self.shape[i][1]
    }

    /// The piece occupies board cell `(x, y)`.
    pub open spec fn covers(self, x: int, y: int) -> bool {
        exists|i: int| 0 <= i < 4 && self.cell_x(i) == x && self.cell_y(i) == y
    }

    pub fn new(shape: Shape, color: u32, position: Point) -> (p: Piece)
        ensures
            p.shape == shape,
            p.color == color,
            p.position == position,
    {
        Piece { shape, color, position }
    }

    /// Translates the pivot by `(x, y)`; validity is the caller's concern.
    pub fn mov(&mut self, x: i32, y: i32)
        requires
            i32::MIN <= old(self).position[0] + x <= i32::MAX,
            i32::MIN <= old(self).position[1] + y <= i32::MAX,
        ensures
            final(self).position[0] == old(self).position[0] + x,
            final(self).position[1] == old(self).position[1] + y,
            final(self).shape == old(self).shape,
            final(self).color == old(self).color,
    {
        self.position[0] = self.position[0] + x;
        self.position[1] = self.position[1] + y;
    }

    /// Rotates the shape a quarter turn about the pivot by swapping each
    /// offset's axes and negating one of them: clockwise sends `(x, y)` to
    /// `(y, -x)`, counter-clockwise to `(-y, x)`. The O shape (the square)
    /// is rotation-invariant and is left alone. Validity on the board is
    /// the caller's concern.
    pub fn rotate(&mut self, clockwise: bool)
        requires
            old(self).shape_ok(),
        ensures
            final(self).shape_ok(),
            final(self).color == old(self).color,
            final(self).position == old(self).position,
            rotates_to(old(self).shape, final(self).shape, clockwise),
    {
        if !is_o_shape(&self.shape) {
            let mut i: usize = 0;
            while i < 4
                invariant
                    old(self).shape_ok(),
                    self.color == old(self).color,
                    self.position == old(self).position,
                    i <= 4,
                    forall|j: int|
                        i <= j < 4 ==> #[trigger] self.shape[j] == old(self).shape[j],
                    forall|j: int|
                        0 <= j < i ==> (#[trigger] self.shape[j])[0] == (if clockwise {
                            old(self).shape[j][1] as int
                        } else {
                            -(old(self).shape[j][1] as int)
                        }) && self.shape[j][1] == (if clockwise {
                            -(old(self).shape[j][0] as int)
                        } else {
                            old(self).shape[j][0] as int
                        }),
                decreases 4 - i,
            {
                let x = self.shape[i][0];
                let y = self.shape[i][1];
                if clockwise {
                    self.shape[i] = [y, -x];
                } else {
                    self.shape[i] = [-y, x];
                }
                i = i + 1;
            }
        }
    }

    /// A freshly spawned piece of the given kind: the spawn shape, the
    /// color bound to that kind, and the pivot at the spawn point in the
    /// middle of the top row.
    pub fn from_kind(kind: usize) -> (p: Piece)
        requires
            kind < 7,
        ensures
            p.wf(),
            shape_is_spawn(p.shape, kind as int),
            p.color == kind + 1,
            p.position[0] == COLS as int / 2,
            p.position[1] == ROWS as int - 1,
    {
        let p = Piece {
            shape: spawn_shape(kind),
            color: (kind + 1) as u32,
            position: [(COLS as i32) / 2, (ROWS as i32) - 1],
        };
        p
    }

    /// A uniformly random one of the seven pieces, at the spawn point.
    pub fn random_piece() -> (p: Piece)
        ensures
            p.wf(),
            is_spawn_piece(p),
    {
        let kind = crate::rng::rand_below(7);
        let p = Piece::from_kind(kind);
        proof {
            assert(shape_is_spawn(p.shape, kind as int) && p.color == kind + 1);
        }
        p
    }

    /// The piece's shape drawn into a 4-by-4 preview box in its color:
    /// each offset `(x, y)` lands at column `x + 2`, row `y + 2`; the
    /// rare offset a rotation pushes outside the box is left out.
    pub fn get_display_shape(&self) -> (d: [[u32; 4]; 4])
        requires
            self.shape_ok(),
        ensures
            forall|r: int, c: int|
                0 <= r < 4 && 0 <= c < 4 ==> #[trigger] d[r][c] == shown_cell(*self, r, c),
    {
        let mut d: [[u32; 4]; 4] = [[0u32; 4]; 4];
        let mut i: usize = 0;
        while i < 4
            invariant
                self.shape_ok(),
                i <= 4,
                forall|r: int, c: int|
                    0 <= r < 4 && 0 <= c < 4 ==> #[trigger] d[r][c] == (if (exists|j: int|
                        0 <= j < i && (#[trigger] self.shape[j])[0] + 2 == c && self.shape[j][1] + 2
                            == r) {
                        self.color
                    } else {
                        0u32
                    }),
            decreases 4 - i,
        {
            let x = self.shape[i][0] + 2;
            let y = self.shape[i][1] + 2;
            let ghost prev = d;
            if 0 <= x && x < 4 && 0 <= y && y < 4 {
                let mut row = d[y as usize];
                row[x as usize] = self.color;
                d[y as usize] = row;
                proof {
                    assert forall|r: int, c: int| 0 <= r < 4 && 0 <= c < 4 implies
                        #[trigger] d[r][c] == (if r == y as int && c == x as int {
                        self.color
                    } else {
                        prev[r][c]
                    }) by {}
                }
            }
            proof {
                assert forall|r: int, c: int| 0 <= r < 4 && 0 <= c < 4 implies #[trigger] d[r][c]
                    == (if (exists|j: int|
                    0 <= j < i + 1 && (#[trigger] self.shape[j])[0] + 2 == c && self.shape[j][1] + 2
                        == r) {
                    self.color
                } else {
                    0u32
                }) by {
                    if exists|j: int|
                        0 <= j < i + 1 && (#[trigger] self.shape[j])[0] + 2 == c
                            && self.shape[j][1] + 2 == r {
                        let j = choose|j: int|
                            0 <= j < i + 1 && (#[trigger] self.shape[j])[0] + 2 == c
                                && self.shape[j][1] + 2 == r;
                        if j < i {
                            assert(prev[r][c] == self.color);
                        } else {
                            assert(self.shape[i as int][0] + 2 == c && self.shape[i as int][1] + 2
                                == r);
                        }
                    } else {
                        assert(!(exists|j: int|
                            0 <= j < i && (#[trigger] self.shape[j])[0] + 2 == c
                                && self.shape[j][1] + 2 == r));
                        assert(!(self.shape[i as int][0] + 2 == c && self.shape[i as int][1] + 2
                            == r));
                    }
                }
            }
            i = i + 1;
        }
        d
    }

    /// The absolute board cells the piece occupies: `position + shape[i]`.
    pub fn pos_on_board(&self) -> (r: Shape)
        requires
            self.arith_ok(),
        ensures
            forall|i: int|
                0 <= i < 4 ==> (#[trigger] r[i])[0] == self.cell_x(i) && r[i][1] == self.cell_y(i),
    {
        let mut board_pos: Shape = [[0i32; 2]; 4];
        let mut i: usize = 0;
        while i < 4
            invariant
                self.arith_ok(),
                i <= 4,
                forall|j: int|
                    0 <= j < i ==> (#[trigger] board_pos[j])[0] == self.cell_x(j)
                        && board_pos[j][1] == self.cell_y(j),
            decreases 4 - i,
        {
            board_pos[i] = [self.position[0] + self.shape[i][0], self.position[1]
                + self.shape[i][1]];
            i = i + 1;
        }
        board_pos
    }
}

} // verus!
