//! A single ply: a piece leaves one cell for another.
use crate::bitboard::{bit, lemma_single_square, on_grid, square, Bitboard};
use crate::piece::PieceType;
use crate::team::Team;
use crate::v64::v64_as_slice;
use crate::vec2::{fits_i32, Vec2};
use vstd::prelude::*;

verus! {

/// A ply. `result` is fixed when the move is made and is `origin + vector`
/// for as long as nobody writes the fields by hand.
#[derive(Clone, Copy, Debug, PartialEq, Eq, Structural)]
pub struct Move {
    pub origin: Vec2,
    pub vector: Vec2,
    pub piece: PieceType,
    pub result: Vec2,
}

/// The cell that `c` becomes when the engine's frame is turned into the
/// frame in which `team` reports its moves.
pub open spec fn turned(c: Vec2, team: Team) -> Vec2 {
    match team {
        Team::ONE => Vec2 { x: c.y, y: c.x },
        Team::TWO => Vec2 { x: (7 - c.y) as i32, y: (7 - c.x) as i32 },
    }
}

/// Turns one cell by way of the board that holds it alone: a flip of the
/// columns, then a quarter turn that depends on the side.
fn turn_cell(c: Vec2, team: &Team) -> (r: Vec2)
    requires
        c.on_grid(),
    ensures
        r == turned(c, *team),
        r.on_grid(),
{
    let start = Bitboard::from_coords(c);
    let flipped = start.flip_horizontal();
    let board = match team {
        Team::ONE => flipped.rotate90_clockwise(),
        Team::TWO => flipped.rotate90_anti_clockwise(),
    };
    let squares = board.get_set_bits();
    proof {
        let t = turned(c, *team);
        assert forall|x: int, y: int| on_grid(x, y) implies start.at(x, y) == (x == c.x && y
            == c.y) by {
            assert(start@.contains(square(x, y)) == bit(start.bits, square(x, y)));
        }
        assert forall|s: int| 0 <= s < 64 implies bit(board.bits, s) == (s == t.square()) by {
            let x = 7 - s % 8;
            let y = s / 8;
            assert(square(x, y) == s);
            assert(board.at(x, y) == bit(board.bits, s));
            match *team {
                Team::ONE => {
                    assert(board.at(x, y) == flipped.at(7 - y, x));
                    assert(flipped.at(7 - y, x) == start.at(7 - (7 - y), x));
                },
                Team::TWO => {
                    assert(board.at(x, y) == flipped.at(y, 7 - x));
                    assert(flipped.at(y, 7 - x) == start.at(7 - y, 7 - x));
                },
            }
        }
        lemma_single_square(board.bits, t.square());
    }
    let list = v64_as_slice(&squares);
    Vec2::from_pos(list[0])
}

impl Move {
    /// The cached destination agrees with origin and displacement, and both
    /// ends are cells of the grid.
    pub open spec fn wf(self) -> bool {
        &&& self.origin.on_grid()
        &&& self.result.on_grid()
        &&& self.result.x == self.origin.x + self.vector.x
        &&& self.result.y == self.origin.y + self.vector.y
    }

    /// The move of `piece` from `origin` by `vector`.
    pub open spec fn make(origin: Vec2, vector: Vec2, piece: PieceType) -> Move {
        Move { origin, vector, piece, result: origin.plus(vector) }
    }

    /// The move of `piece` from `origin` by `vector`.
    pub fn new(origin: Vec2, vector: Vec2, piece: PieceType) -> (r: Self)
        requires
            fits_i32(origin.x + vector.x),
            fits_i32(origin.y + vector.y),
        ensures
            r == Move::make(origin, vector, piece),
            r.result.x == origin.x + vector.x,
            r.result.y == origin.y + vector.y,
    {
        Move { origin, vector, piece, result: origin + vector }
    }

    /// The board that holds the destination cell alone.
    pub fn bits(&self) -> (r: Bitboard)
        requires
            fits_i32(self.origin.x + self.vector.x),
            fits_i32(self.origin.y + self.vector.y),
            self.origin.plus(self.vector).on_grid(),
        ensures
            r == (Bitboard { bits: 0 }).with(self.origin.plus(self.vector).square()),
            r@ == Set::<int>::empty().insert(self.origin.plus(self.vector).square()),
    {
        let x = self.origin.x + self.vector.x;
        let y = self.origin.y + self.vector.y;
        Bitboard::from_coords(Vec2 { x, y })
    }

    /// The same move in the frame in which `team` reports its moves: both
    /// ends are turned, and the displacement is taken anew between them.
    pub fn translate(&self, team: &Team) -> (r: Move)
        requires
            self.origin.on_grid(),
            self.result.on_grid(),
        ensures
            r.piece == self.piece,
            r.origin == turned(self.origin, *team),
            r.result == turned(self.result, *team),
            r.vector == r.result.minus(r.origin),
            r.wf(),
    {
        let result_coords = turn_cell(self.result, team);
        let origin_coords = turn_cell(self.origin, team);
        let vector = result_coords - origin_coords;
        Move::new(origin_coords, vector, self.piece)
    }

    /// Whether the destination lies off the grid.
    pub fn out_of_bounds(&self) -> (r: bool)
        ensures
            r == !self.result.on_grid(),
    {
        self.result.x > 7 || self.result.y > 7 || self.result.x < 0 || self.result.y < 0
    }
}

} // verus!
