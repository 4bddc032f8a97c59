//! The match coordinator: exactly two board engines, attack routing
//! between them, command dispatch, and the decision half of the AI
//! protocol.

use vstd::prelude::*;
use crate::piece::{shown_cell, Shape, COLS, ROWS};
use crate::player::{
    attack_sum, drops_to, engine_ticked, fresh_player, grid, moves_to, overlay, player_rotates,
    saves_to, Board, Player,
};

verus! {

/// A match always has exactly two players.
pub const PLAYER_AMOUNT: usize = 2;

/// An abstract input command for one player's board engine.
#[derive(Clone, Copy, PartialEq, Eq, Structural, Debug)]
pub enum Command {
    MoveLeft,
    MoveRight,
    RotateCW,
    RotateCCW,
    SoftDrop,
    HardDrop,
    SavePiece,
}

/// What applying one command to a player leaves behind.
pub open spec fn command_applied(pre: Player, post: Player, c: Command) -> bool {
    match c {
        Command::MoveLeft => moves_to(pre, post, -1, 0),
        Command::MoveRight => moves_to(pre, post, 1, 0),
        Command::RotateCW => player_rotates(pre, post, true),
        Command::RotateCCW => player_rotates(pre, post, false),
        Command::SoftDrop => moves_to(pre, post, 0, -1),
        Command::HardDrop => drops_to(pre, post),
        Command::SavePiece => saves_to(pre, post),
    }
}

/// The command an AI routine's numeric answer stands for; every
/// unassigned number is a no-op.
pub open spec fn spec_command_of_output(o: u32) -> Option<Command> {
    if o == 1 {
        Some(Command::MoveLeft)
    } else if o == 2 {
        Some(Command::MoveRight)
    } else if o == 3 {
        Some(Command::RotateCW)
    } else if o == 4 {
        Some(Command::RotateCCW)
    } else if o == 5 {
        Some(Command::SoftDrop)
    } else if o == 6 {
        Some(Command::HardDrop)
    } else if o == 7 {
        Some(Command::SavePiece)
    } else {
        None
    }
}

/// The attack hand-off: `post` is the receiving player with the handed
/// attack, if any, appended to the incoming queue, and nothing else
/// moved.
pub open spec fn routed(handed: Option<(u8, u8)>, pre: Player, post: Player) -> bool {
    &&& (handed matches Some(a) ==> post.incoming@ == pre.incoming@.push(a))
    &&& (handed is None ==> post.incoming == pre.incoming)
    &&& post.board == pre.board
    &&& post.outgoing == pre.outgoing
    &&& post.current_piece == pre.current_piece
    &&& post.saved_piece == pre.saved_piece
    &&& post.next_piece == pre.next_piece
    &&& post.score == pre.score
    &&& post.lost == pre.lost
    &&& post.gravity_micros == pre.gravity_micros
    &&& post.update_timer == pre.update_timer
}

/// The match coordinator: it owns both board engines exclusively; all
/// interaction between them goes by value through the attack hand-off.
/// When a plugin drives the second player, that player's human commands
/// are ignored; the plugin call itself lives with the caller, which
/// hands its numeric answer to `parse_ai_output`.
pub struct Game {
    /// The first player's engine (index 0).
    pub player_one: Player,
    /// The second player's engine (index 1) — the AI-driven side when a
    /// plugin is loaded.
    pub player_two: Player,
    /// A plugin drives the second player.
    pub ai_enabled: bool,
}

impl Game {
    /// Both engines are well-formed.
    pub open spec fn wf(self) -> bool {
        &&& self.player_one.wf()
        &&& self.player_two.wf()
    }

    /// The player of the given index, for speaking about both at once.
    pub open spec fn player(self, i: int) -> Player {
        if i == 0 {
            self.player_one
        } else {
            self.player_two
        }
    }

    /// A fresh match: two fresh players at the given starting gravity
    /// level. Whether a plugin drives the second side is the caller's
    /// concern — loading one is a collaborator's job.
    pub fn new(init_level: usize, ai_enabled: bool) -> (g: Game)
        ensures
            g.wf(),
            fresh_player(g.player_one, init_level as int),
            fresh_player(g.player_two, init_level as int),
            g.ai_enabled == ai_enabled,
    {
        Game { player_one: Player::new(init_level), player_two: Player::new(init_level), ai_enabled }
    }

    /// One match tick: the first player's engine ticks, its outgoing
    /// attack, if any, is handed to the second player; then the second
    /// player's engine ticks and its attack is handed to the first. The
    /// first player always goes first, so an attack it produces this
    /// tick already counts down on the second player's own tick, while
    /// one going the other way reaches the first player only after its
    /// own tick.
    pub fn update(&mut self)
        requires
            old(self).wf(),
        ensures
            final(self).wf(),
            final(self).ai_enabled == old(self).ai_enabled,
            final(self).player_one.outgoing is None,
            final(self).player_two.outgoing is None,
            exists|u1: Player, f2: Player, u2: Player|
                #![trigger engine_ticked(f2, u2), engine_ticked(old(self).player_one, u1)]
                engine_ticked(old(self).player_one, u1) && routed(
                    u1.outgoing,
                    old(self).player_two,
                    f2,
                ) && engine_ticked(f2, u2) && routed(
                    u2.outgoing,
                    (Player { outgoing: None, ..u1 }),
                    final(self).player_one,
                ) && final(self).player_two == (Player { outgoing: None, ..u2 }),
    {
        self.player_one.update();
        let ghost u1 = self.player_one;
        if let Some(attack) = self.player_one.take_outgoing() {
            self.player_two.add_incoming(attack);
        }
        let ghost f2 = self.player_two;
        self.player_two.update();
        let ghost u2 = self.player_two;
        if let Some(attack) = self.player_two.take_outgoing() {
            self.player_one.add_incoming(attack);
        }
        proof {
            assert(engine_ticked(old(self).player_one, u1));
            assert(routed(u1.outgoing, old(self).player_two, f2));
            assert(engine_ticked(f2, u2));
            assert(routed(u2.outgoing, (Player { outgoing: None, ..u1 }), self.player_one));
            assert(self.player_two == (Player { outgoing: None, ..u2 }));
        }
    }

    /// Dispatches an abstract input command to the player it is bound
    /// to. Commands for the second player are ignored while a plugin
    /// drives that side, so input cannot fight the plugin.
    pub fn key_down(&mut self, player: usize, command: Command)
        requires
            old(self).wf(),
            player < PLAYER_AMOUNT,
        ensures
            final(self).wf(),
            final(self).ai_enabled == old(self).ai_enabled,
            player == 0 ==> command_applied(
                old(self).player_one,
                final(self).player_one,
                command,
            ) && final(self).player_two == old(self).player_two,
            player == 1 && !old(self).ai_enabled ==> command_applied(
                old(self).player_two,
                final(self).player_two,
                command,
            ) && final(self).player_one == old(self).player_one,
            player == 1 && old(self).ai_enabled ==> *final(self) == *old(self),
    {
        if player == 0 {
            apply_command(&mut self.player_one, command);
        } else if !self.ai_enabled {
            apply_command(&mut self.player_two, command);
        }
    }

    /// Interprets an AI routine's numeric answer as a command for the
    /// second player: 1 and 2 move left and right, 3 and 4 rotate
    /// clockwise and counter-clockwise, 5 is a soft drop, 6 a hard drop,
    /// 7 saves the piece, and anything else does nothing.
    pub fn parse_ai_output(&mut self, output: u32)
        requires
            old(self).wf(),
        ensures
            final(self).wf(),
            final(self).ai_enabled == old(self).ai_enabled,
            final(self).player_one == old(self).player_one,
            (spec_command_of_output(output) matches Some(c) ==> command_applied(
                old(self).player_two,
                final(self).player_two,
                c,
            )),
            spec_command_of_output(output) is None ==> *final(self) == *old(self),
    {
        match output {
            1 => self.player_two.move_current(-1, 0),
            2 => self.player_two.move_current(1, 0),
            3 => self.player_two.rotate_current(true),
            4 => self.player_two.rotate_current(false),
            5 => self.player_two.move_current(0, -1),
            6 => self.player_two.drop_current(),
            7 => self.player_two.save_piece(),
            _ => (),
        }
    }

    /// Both grids with their falling pieces overlaid, for rendering.
    pub fn get_boards(&self) -> (r: [Board; 2])
        requires
            self.wf(),
        ensures
            forall|p: int|
                0 <= p < 2 ==> grid(#[trigger] r[p]) == overlay(
                    grid(self.player(p).board),
                    self.player(p).current_piece,
                ),
    {
        let r = [self.player_one.get_board(), self.player_two.get_board()];
        proof {
            assert(grid(r[0]) == overlay(grid(self.player(0).board), self.player(0).current_piece));
            assert(grid(r[1]) == overlay(grid(self.player(1).board), self.player(1).current_piece));
        }
        r
    }

    /// Both players' next pieces drawn into 4-by-4 preview boxes.
    pub fn get_next_pieces(&self) -> (r: [[[u32; 4]; 4]; 2])
        requires
            self.wf(),
        ensures
            forall|p: int, row: int, c: int|
                0 <= p < 2 && 0 <= row < 4 && 0 <= c < 4 ==> #[trigger] r[p][row][c] == shown_cell(
                    self.player(p).next_piece,
                    row,
                    c,
                ),
    {
        let r = [
            self.player_one.get_next_piece().get_display_shape(),
            self.player_two.get_next_piece().get_display_shape(),
        ];
        r
    }

    /// Both players' saved pieces drawn into 4-by-4 preview boxes; a
    /// side that has saved nothing shows an empty box.
    pub fn get_saved_pieces(&self) -> (r: [[[u32; 4]; 4]; 2])
        requires
            self.wf(),
        ensures
            forall|p: int, row: int, c: int|
                0 <= p < 2 && 0 <= row < 4 && 0 <= c < 4 ==> #[trigger] r[p][row][c] == (
                if self.player(p).saved_piece is Some {
                    shown_cell(self.player(p).saved_piece->0, row, c)
                } else {
                    0u32
                }),
    {
        let mut r: [[[u32; 4]; 4]; 2] = [[[0u32; 4]; 4]; 2];
        if let Some(p) = self.player_one.get_saved_piece() {
            r[0] = p.get_display_shape();
        }
        if let Some(p) = self.player_two.get_saved_piece() {
            r[1] = p.get_display_shape();
        }
        r
    }

    /// The total attack rows in flight toward each player, for the
    /// attack meters.
    pub fn get_attackbars(&self) -> (r: [u32; 2])
        ensures
            forall|p: int|
                0 <= p < 2 ==> #[trigger] r[p] == vstd::math::min(
                    attack_sum(self.player(p).incoming@),
                    u32::MAX as int,
                ),
    {
        let r = [self.player_one.get_attackbar(), self.player_two.get_attackbar()];
        proof {
            assert(r[0] == vstd::math::min(attack_sum(self.player(0).incoming@), u32::MAX as int));
            assert(r[1] == vstd::math::min(attack_sum(self.player(1).incoming@), u32::MAX as int));
        }
        r
    }

    /// The snapshot handed across the plugin boundary: the indexed
    /// player's overlaid grid and the absolute cells of its falling and
    /// saved pieces. An index past the players answers all zeros.
    pub fn get_player_data(&self, index: usize) -> (r: (Board, Shape, Shape))
        requires
            self.wf(),
        ensures
            index < 2 ==> ({
                let pl = self.player(index as int);
                &&& grid(r.0) == overlay(grid(pl.board), pl.current_piece)
                &&& forall|i: int|
                    0 <= i < 4 ==> (#[trigger] r.1[i])[0] == pl.current_piece.cell_x(i)
                        && r.1[i][1] == pl.current_piece.cell_y(i)
                &&& (pl.saved_piece matches Some(sp) ==> forall|i: int|
                    0 <= i < 4 ==> (#[trigger] r.2[i])[0] == sp.cell_x(i) && r.2[i][1] == sp.cell_y(
                        i,
                    ))
                &&& (pl.saved_piece is None ==> forall|i: int|
                    0 <= i < 4 ==> (#[trigger] r.2[i])[0] == 0 && r.2[i][1] == 0)
            }),
            index >= 2 ==> ({
                &&& (forall|y: int, x: int|
                    0 <= y < ROWS && 0 <= x < COLS ==> #[trigger] grid(r.0)[y][x] == 0)
                &&& (forall|i: int| 0 <= i < 4 ==> (#[trigger] r.1[i])[0] == 0 && r.1[i][1] == 0)
                &&& (forall|i: int| 0 <= i < 4 ==> (#[trigger] r.2[i])[0] == 0 && r.2[i][1] == 0)
            }),
    {
        if index == 0 {
            (
                self.player_one.get_board(),
                self.player_one.get_current_shape(),
                self.player_one.get_saved_shape(),
            )
        } else if index == 1 {
            (
                self.player_two.get_board(),
                self.player_two.get_current_shape(),
                self.player_two.get_saved_shape(),
            )
        } else {
            ([[0u32; COLS]; ROWS], [[0i32; 2]; 4], [[0i32; 2]; 4])
        }
    }

    /// Both players' scores.
    pub fn get_scores(&self) -> (r: [u32; 2])
        ensures
            r[0] == self.player_one.score,
            r[1] == self.player_two.score,
    {
        [self.player_one.get_score(), self.player_two.get_score()]
    }
}

/// Runs one command on one player's engine.
fn apply_command(p: &mut Player, command: Command)
    requires
        old(p).wf(),
    ensures
        final(p).wf(),
        command_applied(*old(p), *final(p), command),
{
    match command {
        Command::MoveLeft => p.move_current(-1, 0),
        Command::MoveRight => p.move_current(1, 0),
        Command::RotateCW => p.rotate_current(true),
        Command::RotateCCW => p.rotate_current(false),
        Command::SoftDrop => p.move_current(0, -1),
        Command::HardDrop => p.drop_current(),
        Command::SavePiece => p.save_piece(),
    }
}

} // verus!
