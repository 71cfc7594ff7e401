//! The seven masks of a position and the rule for making a move on them.
//!
//! All masks are kept in one fixed frame. `friendly` is the side to move and
//! `enemy` the other; after a move the two exchange their roles. The side
//! that started on row 0 is the maximizing player and its far row is row 7;
//! for the other side it is row 0.
use crate::bitboard::{bit, on_grid, rotate180_bits, square, Bitboard};
use crate::game_move::Move;
use crate::piece::PieceType;
use crate::team::Team;
use crate::vec2::Vec2;
use vstd::prelude::*;

verus! {

/// A position: where the pieces of the two sides stand, of which type they
/// are, and which of them are stacks of two.
#[derive(Clone, Copy, Debug, PartialEq, Eq, Structural)]
pub struct Board {
    pub enemy: Bitboard,
    pub friendly: Bitboard,
    pub seesterne: Bitboard,
    pub muscheln: Bitboard,
    pub moewen: Bitboard,
    pub robben: Bitboard,
    pub double: Bitboard,
}

/// 1 where the flag holds, else 0.
pub open spec fn count(flag: bool) -> int {
    if flag {
        1
    } else {
        0
    }
}

/// The mask `x` after the piece on `o` has left and the destination `d`
/// has been settled: set where `placed`, cleared where not.
pub open spec fn moved(x: Bitboard, o: int, d: int, placed: bool) -> Bitboard {
    if placed {
        x.without(o).with(d)
    } else {
        x.without(o).without(d)
    }
}

proof fn lemma_start_masks(sq: u64)
    by (bit_vector)
    requires
        sq < 64,
    ensures
        rotate180_bits(0x30u64) == 0x0C00_0000_0000_0000u64,
        rotate180_bits(0x0Cu64) == 0x3000_0000_0000_0000u64,
        rotate180_bits(0x82u64) == 0x4100_0000_0000_0000u64,
        rotate180_bits(0x41u64) == 0x8200_0000_0000_0000u64,
        0x30u64 | 0x0C00_0000_0000_0000u64 == 0x0C00_0000_0000_0030u64,
        0x0Cu64 | 0x3000_0000_0000_0000u64 == 0x3000_0000_0000_000Cu64,
        0x82u64 | 0x4100_0000_0000_0000u64 == 0x4100_0000_0000_0082u64,
        0x41u64 | 0x8200_0000_0000_0000u64 == 0x8200_0000_0000_0041u64,
        (0xFFu64 >> sq) & 1 == 1 <==> sq < 8,
        (0xFF00_0000_0000_0000u64 >> sq) & 1 == 1 <==> sq >= 56,
        (0u64 >> sq) & 1 == 0,
        (0x0C00_0000_0000_0030u64 >> sq) & 1 == 1 <==> (sq == 4 || sq == 5 || sq == 58 || sq
            == 59),
        (0x3000_0000_0000_000Cu64 >> sq) & 1 == 1 <==> (sq == 2 || sq == 3 || sq == 60 || sq
            == 61),
        (0x4100_0000_0000_0082u64 >> sq) & 1 == 1 <==> (sq == 1 || sq == 7 || sq == 56 || sq
            == 62),
        (0x8200_0000_0000_0041u64 >> sq) & 1 == 1 <==> (sq == 0 || sq == 6 || sq == 57 || sq
            == 63),
{
}

/// Whether `moved` holds a cell exactly if `from` holds the cell that `f`
/// names for it.
pub open spec fn cells_from(moved: Bitboard, from: Bitboard, f: spec_fn(int, int) -> (int, int)) -> bool {
    forall|x: int, y: int|
        on_grid(x, y) ==> #[trigger] moved.at(x, y) == from.at(f(x, y).0, f(x, y).1)
}

/// Whether every mask of `moved` holds a cell exactly if the same mask of
/// `from` holds the cell that `f` names for it.
pub open spec fn board_from(moved: Board, from: Board, f: spec_fn(int, int) -> (int, int)) -> bool {
    &&& cells_from(moved.friendly, from.friendly, f)
    &&& cells_from(moved.enemy, from.enemy, f)
    &&& cells_from(moved.double, from.double, f)
    &&& cells_from(moved.robben, from.robben, f)
    &&& cells_from(moved.muscheln, from.muscheln, f)
    &&& cells_from(moved.seesterne, from.seesterne, f)
    &&& cells_from(moved.moewen, from.moewen, f)
}

impl Board {
    /// The mask that records where pieces of type `t` stand.
    pub open spec fn type_mask(self, t: PieceType) -> Bitboard {
        match t {
            PieceType::ROBBE => self.robben,
            PieceType::MUSCHEL => self.muscheln,
            PieceType::SEESTERN => self.seesterne,
            PieceType::MOEWE => self.moewen,
        }
    }

    /// Whether a piece of either side stands on `sq`.
    pub open spec fn occupied(self, sq: int) -> bool {
        self.friendly.has(sq) || self.enemy.has(sq)
    }

    /// In how many of the four type masks `sq` appears.
    pub open spec fn type_count(self, sq: int) -> int {
        count(self.robben.has(sq)) + count(self.muscheln.has(sq)) + count(self.seesterne.has(sq))
            + count(self.moewen.has(sq))
    }

    /// What must hold of one square: it belongs to one side at most, it has
    /// exactly one piece type if it is occupied and none if it is not, and it
    /// is marked as a stack only if it is occupied.
    pub open spec fn cell_ok(self, sq: int) -> bool {
        &&& !(self.friendly.has(sq) && self.enemy.has(sq))
        &&& self.type_count(sq) == count(self.occupied(sq))
        &&& self.double.has(sq) ==> self.occupied(sq)
    }

    /// The invariant of a position: every square is in order.
    pub open spec fn wf(self) -> bool {
        forall|sq: int| 0 <= sq < 64 ==> #[trigger] self.cell_ok(sq)
    }

    /// The position without any piece.
    pub open spec fn empty() -> Board {
        Board {
            enemy: Bitboard { bits: 0 },
            friendly: Bitboard { bits: 0 },
            seesterne: Bitboard { bits: 0 },
            muscheln: Bitboard { bits: 0 },
            moewen: Bitboard { bits: 0 },
            robben: Bitboard { bits: 0 },
            double: Bitboard { bits: 0 },
        }
    }

    /// The position without any piece.
    pub fn new() -> (r: Self)
        ensures
            r == Board::empty(),
            r.wf(),
            forall|sq: int| !r.occupied(sq),
    {
        let r = Board {
            enemy: Bitboard::new(),
            friendly: Bitboard::new(),
            seesterne: Bitboard::new(),
            muscheln: Bitboard::new(),
            moewen: Bitboard::new(),
            robben: Bitboard::new(),
            double: Bitboard::new(),
        };
        proof {
            assert forall|sq: int| !bit(0u64, sq) by {
                assert((Bitboard { bits: 0 })@.contains(sq) == bit(0u64, sq));
            }
        }
        r
    }

    /// The position from which a game starts: the side to move fills row
    /// 0, the other side row 7, each with two pieces of every type, the one
    /// row a half turn of the other, and no stacks.
    pub open spec fn start() -> Board {
        Board {
            enemy: Bitboard { bits: 0xFF00_0000_0000_0000 },
            friendly: Bitboard { bits: 0xFF },
            seesterne: Bitboard { bits: 0x3000_0000_0000_000C },
            muscheln: Bitboard { bits: 0x0C00_0000_0000_0030 },
            moewen: Bitboard { bits: 0x8200_0000_0000_0041 },
            robben: Bitboard { bits: 0x4100_0000_0000_0082 },
            double: Bitboard { bits: 0 },
        }
    }

    /// The starting position is in order.
    pub proof fn lemma_start_wf()
        ensures
            Board::start().wf(),
    {
        let b = Board::start();
        assert forall|sq: int| 0 <= sq < 64 implies #[trigger] b.cell_ok(sq) by {
            lemma_start_masks(sq as u64);
        }
    }

    /// The position from which a game starts.
    pub fn new_default() -> (r: Self)
        ensures
            r == Board::start(),
            r.wf(),
    {
        let enemy = Bitboard::from(0xFF00000000000000u64);
        let friendly = Bitboard::from(0xFFu64);

        let double = Bitboard::new();

        let muscheln = Bitboard::from(0b00110000) | Bitboard::from(0b00110000).rotate180();
        let seesterne = Bitboard::from(0b00001100) | Bitboard::from(0b00001100).rotate180();
        let robben = Bitboard::from(0b10000010) | Bitboard::from(0b10000010).rotate180();
        let moewen = Bitboard::from(0b01000001) | Bitboard::from(0b01000001).rotate180();

        proof {
            lemma_start_masks(0);
            Board::lemma_start_wf();
        }
        Board { enemy, friendly, seesterne, muscheln, moewen, robben, double }
    }

    /// Every mask turned half round.
    pub fn rotate180(&mut self)
        ensures
            final(self).friendly == old(self).friendly.rotated180(),
            final(self).enemy == old(self).enemy.rotated180(),
            final(self).double == old(self).double.rotated180(),
            final(self).robben == old(self).robben.rotated180(),
            final(self).seesterne == old(self).seesterne.rotated180(),
            final(self).moewen == old(self).moewen.rotated180(),
            final(self).muscheln == old(self).muscheln.rotated180(),
            old(self).wf() ==> final(self).wf(),
    {
        let ghost before = *self;
        self.friendly = self.friendly.rotate180();
        self.enemy = self.enemy.rotate180();
        self.double = self.double.rotate180();
        self.robben = self.robben.rotate180();
        self.seesterne = self.seesterne.rotate180();
        self.moewen = self.moewen.rotate180();
        self.muscheln = self.muscheln.rotate180();
        proof {
            if before.wf() {
                before.friendly.lemma_transform_cells();
                before.enemy.lemma_transform_cells();
                before.double.lemma_transform_cells();
                before.robben.lemma_transform_cells();
                before.muscheln.lemma_transform_cells();
                before.seesterne.lemma_transform_cells();
                before.moewen.lemma_transform_cells();
                before.friendly.lemma_quarter_turn_cells();
                before.enemy.lemma_quarter_turn_cells();
                before.double.lemma_quarter_turn_cells();
                before.robben.lemma_quarter_turn_cells();
                before.muscheln.lemma_quarter_turn_cells();
                before.seesterne.lemma_quarter_turn_cells();
                before.moewen.lemma_quarter_turn_cells();
                self.lemma_moved_cells_wf(before, |x: int, y: int| (7 - x, 7 - y));
            }
        }
    }

    /// Every mask turned a quarter round, clockwise.
    pub fn rotate90_clockwise(&mut self)
        ensures
            final(self).friendly == old(self).friendly.rotated90_clockwise(),
            final(self).enemy == old(self).enemy.rotated90_clockwise(),
            final(self).double == old(self).double.rotated90_clockwise(),
            final(self).robben == old(self).robben.rotated90_clockwise(),
            final(self).seesterne == old(self).seesterne.rotated90_clockwise(),
            final(self).moewen == old(self).moewen.rotated90_clockwise(),
            final(self).muscheln == old(self).muscheln.rotated90_clockwise(),
            old(self).wf() ==> final(self).wf(),
    {
        let ghost before = *self;
        self.friendly = self.friendly.rotate90_clockwise();
        self.enemy = self.enemy.rotate90_clockwise();
        self.double = self.double.rotate90_clockwise();
        self.robben = self.robben.rotate90_clockwise();
        self.seesterne = self.seesterne.rotate90_clockwise();
        self.moewen = self.moewen.rotate90_clockwise();
        self.muscheln = self.muscheln.rotate90_clockwise();
        proof {
            if before.wf() {
                before.friendly.lemma_transform_cells();
                before.enemy.lemma_transform_cells();
                before.double.lemma_transform_cells();
                before.robben.lemma_transform_cells();
                before.muscheln.lemma_transform_cells();
                before.seesterne.lemma_transform_cells();
                before.moewen.lemma_transform_cells();
                before.friendly.lemma_quarter_turn_cells();
                before.enemy.lemma_quarter_turn_cells();
                before.double.lemma_quarter_turn_cells();
                before.robben.lemma_quarter_turn_cells();
                before.muscheln.lemma_quarter_turn_cells();
                before.seesterne.lemma_quarter_turn_cells();
                before.moewen.lemma_quarter_turn_cells();
                self.lemma_moved_cells_wf(before, |x: int, y: int| (7 - y, x));
            }
        }
    }

    /// Every mask turned a quarter round, anti-clockwise.
    pub fn rotate90_anti_clockwise(&mut self)
        ensures
            final(self).friendly == old(self).friendly.rotated90_anti_clockwise(),
            final(self).enemy == old(self).enemy.rotated90_anti_clockwise(),
            final(self).double == old(self).double.rotated90_anti_clockwise(),
            final(self).robben == old(self).robben.rotated90_anti_clockwise(),
            final(self).seesterne == old(self).seesterne.rotated90_anti_clockwise(),
            final(self).moewen == old(self).moewen.rotated90_anti_clockwise(),
            final(self).muscheln == old(self).muscheln.rotated90_anti_clockwise(),
            old(self).wf() ==> final(self).wf(),
    {
        let ghost before = *self;
        self.friendly = self.friendly.rotate90_anti_clockwise();
        self.enemy = self.enemy.rotate90_anti_clockwise();
        self.double = self.double.rotate90_anti_clockwise();
        self.robben = self.robben.rotate90_anti_clockwise();
        self.seesterne = self.seesterne.rotate90_anti_clockwise();
        self.moewen = self.moewen.rotate90_anti_clockwise();
        self.muscheln = self.muscheln.rotate90_anti_clockwise();
        proof {
            if before.wf() {
                before.friendly.lemma_transform_cells();
                before.enemy.lemma_transform_cells();
                before.double.lemma_transform_cells();
                before.robben.lemma_transform_cells();
                before.muscheln.lemma_transform_cells();
                before.seesterne.lemma_transform_cells();
                before.moewen.lemma_transform_cells();
                before.friendly.lemma_quarter_turn_cells();
                before.enemy.lemma_quarter_turn_cells();
                before.double.lemma_quarter_turn_cells();
                before.robben.lemma_quarter_turn_cells();
                before.muscheln.lemma_quarter_turn_cells();
                before.seesterne.lemma_quarter_turn_cells();
                before.moewen.lemma_quarter_turn_cells();
                self.lemma_moved_cells_wf(before, |x: int, y: int| (y, 7 - x));
            }
        }
    }

    /// Every mask with its columns swapped end for end.
    pub fn flip_horizontal(&mut self)
        ensures
            final(self).friendly == old(self).friendly.flipped_horizontal(),
            final(self).enemy == old(self).enemy.flipped_horizontal(),
            final(self).double == old(self).double.flipped_horizontal(),
            final(self).robben == old(self).robben.flipped_horizontal(),
            final(self).seesterne == old(self).seesterne.flipped_horizontal(),
            final(self).moewen == old(self).moewen.flipped_horizontal(),
            final(self).muscheln == old(self).muscheln.flipped_horizontal(),
            old(self).wf() ==> final(self).wf(),
    {
        let ghost before = *self;
        self.friendly = self.friendly.flip_horizontal();
        self.enemy = self.enemy.flip_horizontal();
        self.double = self.double.flip_horizontal();
        self.robben = self.robben.flip_horizontal();
        self.seesterne = self.seesterne.flip_horizontal();
        self.moewen = self.moewen.flip_horizontal();
        self.muscheln = self.muscheln.flip_horizontal();
        proof {
            if before.wf() {
                before.friendly.lemma_transform_cells();
                before.enemy.lemma_transform_cells();
                before.double.lemma_transform_cells();
                before.robben.lemma_transform_cells();
                before.muscheln.lemma_transform_cells();
                before.seesterne.lemma_transform_cells();
                before.moewen.lemma_transform_cells();
                before.friendly.lemma_quarter_turn_cells();
                before.enemy.lemma_quarter_turn_cells();
                before.double.lemma_quarter_turn_cells();
                before.robben.lemma_quarter_turn_cells();
                before.muscheln.lemma_quarter_turn_cells();
                before.seesterne.lemma_quarter_turn_cells();
                before.moewen.lemma_quarter_turn_cells();
                self.lemma_moved_cells_wf(before, |x: int, y: int| (7 - x, y));
            }
        }
    }

    /// A position whose cells are the cells of a position in order, taken
    /// from other places of the grid, is in order too.
    pub proof fn lemma_moved_cells_wf(self, from: Board, f: spec_fn(int, int) -> (int, int))
        requires
            from.wf(),
            board_from(self, from, f),
            forall|x: int, y: int|
                on_grid(x, y) ==> on_grid(
                    (#[trigger] f(x, y)).0,
                    f(x, y).1,
                ),
        ensures
            self.wf(),
    {
        assert forall|sq: int| 0 <= sq < 64 implies #[trigger] self.cell_ok(sq) by {
            let x = 7 - sq % 8;
            let y = sq / 8;
            let there = square(f(x, y).0, f(x, y).1);
            assert(square(x, y) == sq);
            assert(on_grid(f(x, y).0, f(x, y).1));
            assert(from.cell_ok(there));
            assert(self.friendly.at(x, y) == from.friendly.at(f(x, y).0, f(x, y).1));
            assert(self.enemy.at(x, y) == from.enemy.at(f(x, y).0, f(x, y).1));
            assert(self.double.at(x, y) == from.double.at(f(x, y).0, f(x, y).1));
            assert(self.robben.at(x, y) == from.robben.at(f(x, y).0, f(x, y).1));
            assert(self.muscheln.at(x, y) == from.muscheln.at(f(x, y).0, f(x, y).1));
            assert(self.seesterne.at(x, y) == from.seesterne.at(f(x, y).0, f(x, y).1));
            assert(self.moewen.at(x, y) == from.moewen.at(f(x, y).0, f(x, y).1));
        }
    }

    /// Turning or mirroring a position in order, or exchanging the roles of
    /// its sides, leaves it in order.
    pub proof fn lemma_turns_keep_order(self, team: Team)
        requires
            self.wf(),
        ensures
            self.mirrored().wf(),
            self.turned_for(team).wf(),
            self.turned_for(team).mirrored().wf(),
            (Board {
                friendly: self.friendly.rotated180(),
                enemy: self.enemy.rotated180(),
                double: self.double.rotated180(),
                robben: self.robben.rotated180(),
                muscheln: self.muscheln.rotated180(),
                seesterne: self.seesterne.rotated180(),
                moewen: self.moewen.rotated180(),
            }).wf(),
            (Board { friendly: self.enemy, enemy: self.friendly, ..self }).wf(),
    {
        self.friendly.lemma_transform_cells();
        self.enemy.lemma_transform_cells();
        self.double.lemma_transform_cells();
        self.robben.lemma_transform_cells();
        self.muscheln.lemma_transform_cells();
        self.seesterne.lemma_transform_cells();
        self.moewen.lemma_transform_cells();
        self.friendly.lemma_quarter_turn_cells();
        self.enemy.lemma_quarter_turn_cells();
        self.double.lemma_quarter_turn_cells();
        self.robben.lemma_quarter_turn_cells();
        self.muscheln.lemma_quarter_turn_cells();
        self.seesterne.lemma_quarter_turn_cells();
        self.moewen.lemma_quarter_turn_cells();
        let swapped = Board { friendly: self.enemy, enemy: self.friendly, ..self };
        assert forall|sq: int| 0 <= sq < 64 implies #[trigger] swapped.cell_ok(sq) by {
            assert(self.cell_ok(sq));
        }
        self.mirrored().lemma_moved_cells_wf(self, |x: int, y: int| (7 - x, y));
        let half = Board {
            friendly: self.friendly.rotated180(),
            enemy: self.enemy.rotated180(),
            double: self.double.rotated180(),
            robben: self.robben.rotated180(),
            muscheln: self.muscheln.rotated180(),
            seesterne: self.seesterne.rotated180(),
            moewen: self.moewen.rotated180(),
        };
        half.lemma_moved_cells_wf(self, |x: int, y: int| (7 - x, 7 - y));
        let turned = self.turned_for(team);
        match team {
            Team::ONE => {
                turned.lemma_moved_cells_wf(self, |x: int, y: int| (y, 7 - x));
            },
            Team::TWO => {
                turned.lemma_moved_cells_wf(swapped, |x: int, y: int| (7 - y, x));
            },
        }
        turned.friendly.lemma_transform_cells();
        turned.enemy.lemma_transform_cells();
        turned.double.lemma_transform_cells();
        turned.robben.lemma_transform_cells();
        turned.muscheln.lemma_transform_cells();
        turned.seesterne.lemma_transform_cells();
        turned.moewen.lemma_transform_cells();
        turned.mirrored().lemma_moved_cells_wf(turned, |x: int, y: int| (7 - x, y));
    }

    /// The reported position turned towards `team`. Side ONE's report is
    /// turned a quarter anti-clockwise. Side TWO's is turned a quarter
    /// clockwise and the two sides exchange their roles.
    pub open spec fn turned_for(self, team: Team) -> Board {
        match team {
            Team::ONE => Board {
                enemy: self.enemy.rotated90_anti_clockwise(),
                friendly: self.friendly.rotated90_anti_clockwise(),
                seesterne: self.seesterne.rotated90_anti_clockwise(),
                muscheln: self.muscheln.rotated90_anti_clockwise(),
                moewen: self.moewen.rotated90_anti_clockwise(),
                robben: self.robben.rotated90_anti_clockwise(),
                double: self.double.rotated90_anti_clockwise(),
            },
            Team::TWO => Board {
                enemy: self.friendly.rotated90_clockwise(),
                friendly: self.enemy.rotated90_clockwise(),
                seesterne: self.seesterne.rotated90_clockwise(),
                muscheln: self.muscheln.rotated90_clockwise(),
                moewen: self.moewen.rotated90_clockwise(),
                robben: self.robben.rotated90_clockwise(),
                double: self.double.rotated90_clockwise(),
            },
        }
    }

    /// The position with the columns of every mask swapped end for end.
    pub open spec fn mirrored(self) -> Board {
        Board {
            enemy: self.enemy.flipped_horizontal(),
            friendly: self.friendly.flipped_horizontal(),
            seesterne: self.seesterne.flipped_horizontal(),
            muscheln: self.muscheln.flipped_horizontal(),
            moewen: self.moewen.flipped_horizontal(),
            robben: self.robben.flipped_horizontal(),
            double: self.double.flipped_horizontal(),
        }
    }

    /// Turns a reported position towards `team`.
    pub fn turn_for(&mut self, team: &Team)
        ensures
            *final(self) == old(self).turned_for(*team),
            old(self).wf() ==> final(self).wf(),
    {
        proof {
            if old(self).wf() {
                old(self).lemma_turns_keep_order(*team);
            }
        }
        match team {
            Team::ONE => {
                self.rotate90_anti_clockwise();
            },
            Team::TWO => {
                self.rotate90_clockwise();
                self.friendly.swap_with(&mut self.enemy);
            },
        }
    }

    /// Turns a reported position into the frame in which `team` plays: it is
    /// turned towards the side and then mirrored.
    pub fn reorient(&mut self, team: &Team)
        ensures
            *final(self) == old(self).turned_for(*team).mirrored(),
            old(self).wf() ==> final(self).wf(),
    {
        proof {
            if old(self).wf() {
                old(self).lemma_turns_keep_order(*team);
            }
        }
        self.turn_for(team);
        self.flip_horizontal();
    }

    /// The piece type recorded for square `pos`. On a position that is in
    /// order this is the type of the piece there, and `None` where no piece
    /// stands; where several masks hold the square the first of moewen,
    /// robben, seesterne, muscheln counts.
    pub fn piece_at(&self, pos: u8) -> (r: Option<PieceType>)
        requires
            pos < 64,
        ensures
            r == self.type_at(pos as int),
    {
        if self.moewen.get(pos) {
            return Some(PieceType::MOEWE);
        } else if self.robben.get(pos) {
            return Some(PieceType::ROBBE);
        } else if self.seesterne.get(pos) {
            return Some(PieceType::SEESTERN);
        } else if self.muscheln.get(pos) {
            return Some(PieceType::MUSCHEL);
        }
        None
    }

    /// The piece type recorded for square `sq`.
    pub open spec fn type_at(self, sq: int) -> Option<PieceType> {
        if self.moewen.has(sq) {
            Some(PieceType::MOEWE)
        } else if self.robben.has(sq) {
            Some(PieceType::ROBBE)
        } else if self.seesterne.has(sq) {
            Some(PieceType::SEESTERN)
        } else if self.muscheln.has(sq) {
            Some(PieceType::MUSCHEL)
        } else {
            None
        }
    }

    /// On a position that is in order, the recorded type of a square is the
    /// one mask that holds it, and a square has a type exactly if it is
    /// occupied.
    pub proof fn lemma_type_at(self, sq: int)
        requires
            self.wf(),
            0 <= sq < 64,
        ensures
            self.type_at(sq) is Some <==> self.occupied(sq),
            forall|t: PieceType| self.type_mask(t).has(sq) <==> self.type_at(sq) == Some(t),
    {
        assert(self.cell_ok(sq));
    }

    /// The letter that stands for square `sq` in a picture of the position.
    pub open spec fn symbol(self, sq: int) -> char {
        let stack = self.double.has(sq);
        if self.robben.has(sq) {
            if stack {
                'R'
            } else {
                'r'
            }
        } else if self.muscheln.has(sq) {
            if stack {
                'H'
            } else {
                'h'
            }
        } else if self.moewen.has(sq) {
            if stack {
                'M'
            } else {
                'm'
            }
        } else if self.seesterne.has(sq) {
            if stack {
                'S'
            } else {
                's'
            }
        } else {
            '-'
        }
    }

    /// The letter that stands for square `pos` in a picture of the position:
    /// `r`, `h`, `m` or `s` for the piece type, a capital letter for a stack,
    /// and `-` where no type is recorded.
    pub fn symbol_at(&self, pos: u8) -> (r: char)
        requires
            pos < 64,
        ensures
            r == self.symbol(pos as int),
    {
        let stack = self.double.get(pos);
        if self.robben.get(pos) {
            if stack {
                'R'
            } else {
                'r'
            }
        } else if self.muscheln.get(pos) {
            if stack {
                'H'
            } else {
                'h'
            }
        } else if self.moewen.get(pos) {
            if stack {
                'M'
            } else {
                'm'
            }
        } else if self.seesterne.get(pos) {
            if stack {
                'S'
            } else {
                's'
            }
        } else {
            '-'
        }
    }

    /// Whether `mv` can be made on this position: it is a move between two
    /// cells of the grid, a piece of the moving side and of the move's type
    /// stands on the origin, and no piece of the moving side stands on the
    /// destination.
    pub open spec fn admits(self, mv: Move) -> bool {
        &&& mv.wf()
        &&& self.friendly.has(mv.origin.square())
        &&& self.type_mask(mv.piece).has(mv.origin.square())
        &&& !self.friendly.has(mv.result.square())
    }

    /// Whether `mv` lands on a stack of the other side. It is the position
    /// before the move that counts: a stack that the mover brings along is
    /// never taken for a stack of the other side.
    pub open spec fn hits_stack(self, mv: Move) -> bool {
        self.enemy.has(mv.result.square()) && self.double.has(mv.result.square())
    }

    /// The mask of type `t` after `mv`: the mover leaves the origin, whatever
    /// stood on the destination goes, and the mover is put there unless it
    /// was used up against a stack.
    pub open spec fn type_mask_after(self, t: PieceType, mv: Move) -> Bitboard {
        let d = mv.result.square();
        if t == mv.piece {
            moved(self.type_mask(t), mv.origin.square(), d, !self.hits_stack(mv))
        } else {
            self.type_mask(t).without(d)
        }
    }

    /// The position after `mv`, the two sides having exchanged their roles.
    ///
    /// A piece of the other side on the destination is removed. If it was a
    /// stack, the stack and the mover are both used up and the square is left
    /// empty, whether or not the mover was a stack itself. Otherwise the
    /// mover stands on the destination, and it is a stack there exactly if it
    /// was one on the origin.
    pub open spec fn after_move(self, mv: Move) -> Board {
        let o = mv.origin.square();
        let d = mv.result.square();
        let placed = !self.hits_stack(mv);
        Board {
            enemy: moved(self.friendly, o, d, placed),
            friendly: self.enemy.without(d),
            seesterne: self.type_mask_after(PieceType::SEESTERN, mv),
            muscheln: self.type_mask_after(PieceType::MUSCHEL, mv),
            moewen: self.type_mask_after(PieceType::MOEWE, mv),
            robben: self.type_mask_after(PieceType::ROBBE, mv),
            double: moved(self.double, o, d, placed && self.double.has(o)),
        }
    }

    /// The row that the moving side has to reach.
    pub open spec fn far_row(maximizing_player: bool) -> int {
        if maximizing_player {
            7
        } else {
            0
        }
    }

    /// The points that `mv` brings the moving side: one for a stack of the
    /// other side that it removes, and one for a piece other than the leaper
    /// that arrives on the far row.
    pub open spec fn points_for(self, mv: Move, maximizing_player: bool) -> int {
        count(self.hits_stack(mv)) + count(
            mv.piece != PieceType::ROBBE && mv.result.y == Self::far_row(maximizing_player),
        )
    }

    /// What `moved` holds, square by square.
    pub proof fn lemma_moved(x: Bitboard, o: int, d: int, placed: bool)
        requires
            0 <= o < 64,
            0 <= d < 64,
        ensures
            forall|sq: int| #[trigger]
                moved(x, o, d, placed).has(sq) == if sq == d {
                    placed
                } else {
                    sq != o && x.has(sq)
                },
            forall|sq: int| #[trigger] x.without(d).has(sq) == (sq != d && x.has(sq)),
    {
        x.lemma_point_views(o);
        x.lemma_point_views(d);
        x.without(o).lemma_point_views(d);
        assert forall|sq: int| #[trigger]
            moved(x, o, d, placed).has(sq) == if sq == d {
                placed
            } else {
                sq != o && x.has(sq)
            } by {
            assert(x.without(o)@.contains(sq) == x.without(o).has(sq));
            assert(x@.contains(sq) == x.has(sq));
            assert(moved(x, o, d, placed)@.contains(sq) == moved(x, o, d, placed).has(sq));
        }
        assert forall|sq: int| #[trigger] x.without(d).has(sq) == (sq != d && x.has(sq)) by {
            assert(x.without(d)@.contains(sq) == x.without(d).has(sq));
            assert(x@.contains(sq) == x.has(sq));
        }
    }

    /// Whether `self` is what `mv` makes of `before`, square by square. On the
    /// destination stands the mover, now a piece of the side that is no longer
    /// to move, unless it landed on a stack, which leaves the square empty.
    /// The origin is empty. Every other square is as it was, the two sides
    /// exchanged.
    pub open spec fn is_result_of(self, before: Board, mv: Move) -> bool {
        let o = mv.origin.square();
        let d = mv.result.square();
        let placed = !before.hits_stack(mv);
        &&& forall|sq: int| #[trigger] self.friendly.has(sq) == (sq != d && before.enemy.has(sq))
        &&& forall|sq: int| #[trigger]
            self.enemy.has(sq) == if sq == d {
                placed
            } else {
                sq != o && before.friendly.has(sq)
            }
        &&& forall|sq: int| #[trigger]
            self.double.has(sq) == if sq == d {
                placed && before.double.has(o)
            } else {
                sq != o && before.double.has(sq)
            }
        &&& forall|sq: int, t: PieceType| #[trigger]
            self.type_mask(t).has(sq) == if sq == d {
                placed && t == mv.piece
            } else {
                sq != o && before.type_mask(t).has(sq)
            }
    }

    /// The position after a move is what the move makes of the position,
    /// square by square.
    pub proof fn lemma_after_move_cells(self, mv: Move)
        requires
            self.wf(),
            self.admits(mv),
        ensures
            self.after_move(mv).is_result_of(self, mv),
    {
        let a = self.after_move(mv);
        let o = mv.origin.square();
        let d = mv.result.square();
        let placed = !self.hits_stack(mv);
        Self::lemma_moved(self.friendly, o, d, placed);
        Self::lemma_moved(self.enemy, o, d, placed);
        Self::lemma_moved(self.double, o, d, placed && self.double.has(o));
        Self::lemma_moved(self.robben, o, d, placed);
        Self::lemma_moved(self.muscheln, o, d, placed);
        Self::lemma_moved(self.seesterne, o, d, placed);
        Self::lemma_moved(self.moewen, o, d, placed);
        assert(self.cell_ok(o));
        assert forall|sq: int, t: PieceType| #[trigger]
            a.type_mask(t).has(sq) == if sq == d {
                placed && t == mv.piece
            } else {
                sq != o && self.type_mask(t).has(sq)
            } by {
            assert(a.type_mask(t) == self.type_mask_after(t, mv));
        }
    }

    /// A move made on a position that is in order leaves a position that is
    /// in order: no square belongs to both sides, every occupied square has
    /// exactly one piece type, and only occupied squares are stacks.
    pub proof fn lemma_after_move_wf(self, mv: Move)
        requires
            self.wf(),
            self.admits(mv),
        ensures
            self.after_move(mv).wf(),
    {
        let a = self.after_move(mv);
        let o = mv.origin.square();
        let d = mv.result.square();
        self.lemma_after_move_cells(mv);
        assert forall|sq: int| 0 <= sq < 64 implies #[trigger] a.cell_ok(sq) by {
            assert(self.cell_ok(sq));
            assert(self.cell_ok(o));
            assert(a.robben == a.type_mask(PieceType::ROBBE));
            assert(a.muscheln == a.type_mask(PieceType::MUSCHEL));
            assert(a.seesterne == a.type_mask(PieceType::SEESTERN));
            assert(a.moewen == a.type_mask(PieceType::MOEWE));
            assert(self.robben == self.type_mask(PieceType::ROBBE));
            assert(self.muscheln == self.type_mask(PieceType::MUSCHEL));
            assert(self.seesterne == self.type_mask(PieceType::SEESTERN));
            assert(self.moewen == self.type_mask(PieceType::MOEWE));
        }
    }

    /// The position after the moves of `mvs` were made one after the other.
    pub open spec fn after_moves(self, mvs: Seq<Move>) -> Board
        decreases mvs.len(),
    {
        if mvs.len() == 0 {
            self
        } else {
            self.after_moves(mvs.drop_last()).after_move(mvs.last())
        }
    }

    /// Whether each move of `mvs` can be made on the position that the moves
    /// before it leave.
    pub open spec fn admits_all(self, mvs: Seq<Move>) -> bool
        decreases mvs.len(),
    {
        mvs.len() > 0 ==> self.admits_all(mvs.drop_last()) && self.after_moves(
            mvs.drop_last(),
        ).admits(mvs.last())
    }

    /// Whatever moves are made one after the other on a position that is in
    /// order, the position stays in order, and its two sides share no
    /// square.
    pub proof fn lemma_after_moves_wf(self, mvs: Seq<Move>)
        requires
            self.wf(),
            self.admits_all(mvs),
        ensures
            self.after_moves(mvs).wf(),
            self.after_moves(mvs).friendly.bits & self.after_moves(mvs).enemy.bits == 0,
        decreases mvs.len(),
    {
        if mvs.len() > 0 {
            self.lemma_after_moves_wf(mvs.drop_last());
            self.after_moves(mvs.drop_last()).lemma_after_move_wf(mvs.last());
        }
        self.after_moves(mvs).lemma_sides_disjoint();
    }

    /// The two sides of a position that is in order share no square, as
    /// masks: their bitwise `and` is zero.
    pub proof fn lemma_sides_disjoint(self)
        requires
            self.wf(),
        ensures
            self.friendly.bits & self.enemy.bits == 0,
    {
        let both = Bitboard { bits: self.friendly.bits & self.enemy.bits };
        self.friendly.lemma_mask_views(self.enemy);
        Bitboard::lemma_constant_views();
        assert forall|sq: int| !both@.contains(sq) by {
            if 0 <= sq < 64 {
                assert(self.cell_ok(sq));
                assert(self.friendly@.contains(sq) == self.friendly.has(sq));
                assert(self.enemy@.contains(sq) == self.enemy.has(sq));
            }
        }
        assert(both@ =~= (Bitboard { bits: 0 })@);
        both.lemma_view_determines(Bitboard { bits: 0 });
    }

    /// One type mask after a move from `origin` to `pos`: the mask of the
    /// moving piece's type sees the piece leave and arrive, any other mask
    /// loses what it held on the destination.
    fn settle(mask: Bitboard, moving: bool, origin: u8, pos: u8, placed: bool) -> (r: Bitboard)
        requires
            origin < 64,
            pos < 64,
        ensures
            r == if moving {
                moved(mask, origin as int, pos as int, placed)
            } else {
                mask.without(pos as int)
            },
    {
        if moving {
            let lifted = mask.clear(origin);
            if placed {
                lifted.set(pos)
            } else {
                lifted.clear(pos)
            }
        } else {
            mask.clear(pos)
        }
    }

    /// Makes `mv` for the side to move and returns the points that it
    /// brings. Afterwards the other side is the side to move.
    pub fn apply(&mut self, mv: &Move, maximizing_player: bool) -> (points: u8)
        requires
            old(self).wf(),
            old(self).admits(*mv),
        ensures
            *final(self) == old(self).after_move(*mv),
            final(self).is_result_of(*old(self), *mv),
            final(self).wf(),
            points == old(self).points_for(*mv, maximizing_player),
            points <= 2,
    {
        let origin = mv.origin.position();
        let pos = mv.result.position();
        let carried = self.double.get(origin);
        let captured = self.enemy.get(pos);
        let stack_hit = captured && self.double.get(pos);
        let placed = !stack_hit;
        proof {
            old(self).lemma_after_move_wf(*mv);
            old(self).lemma_after_move_cells(*mv);
        }

        // The mover leaves the origin; whatever stood on the destination
        // goes; the mover arrives unless a stack used it up.
        self.friendly = Self::settle(self.friendly, true, origin, pos, placed);
        self.enemy = self.enemy.clear(pos);
        self.double = Self::settle(self.double, true, origin, pos, placed && carried);
        self.robben = Self::settle(self.robben, mv.piece == PieceType::ROBBE, origin, pos, placed);
        self.muscheln = Self::settle(
            self.muscheln,
            mv.piece == PieceType::MUSCHEL,
            origin,
            pos,
            placed,
        );
        self.seesterne = Self::settle(
            self.seesterne,
            mv.piece == PieceType::SEESTERN,
            origin,
            pos,
            placed,
        );
        self.moewen = Self::settle(self.moewen, mv.piece == PieceType::MOEWE, origin, pos, placed);

        let mut points = 0u8;
        if stack_hit {
            points = 1;
        }
        let far_row: i32 = if maximizing_player {
            7
        } else {
            0
        };
        let light = match mv.piece {
            PieceType::ROBBE => false,
            _ => true,
        };
        if light && mv.result.y == far_row {
            points += 1;
        }
        self.friendly.swap_with(&mut self.enemy);
        points
    }

    /// Makes the move from square `origin_pos` to square `result_pos` with
    /// whatever piece stands on the origin.
    pub fn apply_anonymous(&mut self, origin_pos: u8, result_pos: u8, maximizing_player: bool) -> (points:
        u8)
        requires
            origin_pos < 64,
            result_pos < 64,
            old(self).wf(),
            old(self).friendly.has(origin_pos as int),
            !old(self).friendly.has(result_pos as int),
        ensures
            old(self).type_at(origin_pos as int) is Some,
            ({
                let mv = Move::make(
                    Vec2::of_square(origin_pos as int),
                    Vec2::of_square(result_pos as int).minus(Vec2::of_square(origin_pos as int)),
                    old(self).type_at(origin_pos as int).unwrap(),
                );
                &&& old(self).admits(mv)
                &&& *final(self) == old(self).after_move(mv)
                &&& points == old(self).points_for(mv, maximizing_player)
            }),
            final(self).wf(),
    {
        let origin = Vec2::from_pos(origin_pos);
        let result = Vec2::from_pos(result_pos);
        let vector = result - origin;
        proof {
            self.lemma_type_at(origin_pos as int);
        }
        match self.piece_at(origin_pos) {
            Some(piece) => {
                let mv = Move::new(origin, vector, piece);
                self.apply(&mv, maximizing_player)
            },
            None => 0,
        }
    }
}

} // verus!
