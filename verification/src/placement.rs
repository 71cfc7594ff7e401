//! Setting up a position from a list of pieces.
use crate::bitboard::Bitboard;
use crate::board::Board;
use crate::piece::PieceType;
use crate::team::Team;
use vstd::prelude::*;

verus! {

/// One piece of a position that is handed over from outside: the cell, the
/// side that owns it, its type, and whether it is a stack of two.
#[derive(Clone, Copy, Debug, PartialEq, Eq, Structural)]
pub struct Placement {
    pub x: u8,
    pub y: u8,
    pub team: Team,
    pub piece: PieceType,
    pub stacked: bool,
}

impl Placement {
    /// The square on which the piece stands.
    pub open spec fn square(self) -> int {
        crate::bitboard::square(self.x as int, self.y as int)
    }
}

/// Whether one of the first `n` pieces stands on `sq` and is of the given
/// side.
pub open spec fn placed_side(pieces: Seq<Placement>, n: int, sq: int, team: Team) -> bool {
    exists|i: int| 0 <= i < n && (#[trigger] pieces[i]).square() == sq && pieces[i].team == team
}

/// Whether one of the first `n` pieces stands on `sq` and is of the given
/// type.
pub open spec fn placed_type(pieces: Seq<Placement>, n: int, sq: int, t: PieceType) -> bool {
    exists|i: int| 0 <= i < n && (#[trigger] pieces[i]).square() == sq && pieces[i].piece == t
}

/// Whether one of the first `n` pieces stands on `sq` and is a stack.
pub open spec fn placed_stack(pieces: Seq<Placement>, n: int, sq: int) -> bool {
    exists|i: int| 0 <= i < n && (#[trigger] pieces[i]).square() == sq && pieces[i].stacked
}

/// Whether the first `n` pieces fill exactly what `board` holds.
pub open spec fn holds_pieces(board: Board, pieces: Seq<Placement>, n: int) -> bool {
    &&& forall|sq: int| #[trigger] board.friendly.has(sq) == placed_side(pieces, n, sq, Team::ONE)
    &&& forall|sq: int| #[trigger] board.enemy.has(sq) == placed_side(pieces, n, sq, Team::TWO)
    &&& forall|sq: int| #[trigger] board.double.has(sq) == placed_stack(pieces, n, sq)
    &&& forall|sq: int, t: PieceType| #[trigger]
        board.type_mask(t).has(sq) == placed_type(pieces, n, sq, t)
}

impl Board {
    /// The position that holds the given pieces, side ONE being the side to
    /// move. If no two of the pieces share a cell the position is in order.
    pub fn from_pieces(pieces: &Vec<Placement>) -> (board: Board)
        requires
            forall|i: int| 0 <= i < pieces.len() ==> (#[trigger] pieces[i]).x < 8 && pieces[i].y < 8,
        ensures
            holds_pieces(board, pieces@, pieces.len() as int),
            (forall|i: int, j: int|
                0 <= i < j < pieces.len() ==> (#[trigger] pieces[i]).square() != (
                #[trigger] pieces[j]).square()) ==> board.wf(),
    {
        let mut board = Board::new();
        let mut n: usize = 0;
        proof {
            Bitboard::lemma_constant_views();
            assert forall|sq: int| !(Bitboard { bits: 0 }).has(sq) by {
                assert((Bitboard { bits: 0 })@.contains(sq) == (Bitboard { bits: 0 }).has(sq));
            }
        }
        while n < pieces.len()
            invariant
                n <= pieces.len(),
                forall|i: int|
                    0 <= i < pieces.len() ==> (#[trigger] pieces[i]).x < 8 && pieces[i].y < 8,
                holds_pieces(board, pieces@, n as int),
            decreases pieces.len() - n,
        {
            let entry = pieces[n];
            let ghost before = board;
            let ghost sq0 = entry.square();
            if entry.team == Team::ONE {
                board.friendly = board.friendly.set_at_coords(entry.x, entry.y);
            } else {
                board.enemy = board.enemy.set_at_coords(entry.x, entry.y);
            }
            if entry.piece == PieceType::ROBBE {
                board.robben = board.robben.set_at_coords(entry.x, entry.y);
            } else if entry.piece == PieceType::MUSCHEL {
                board.muscheln = board.muscheln.set_at_coords(entry.x, entry.y);
            } else if entry.piece == PieceType::SEESTERN {
                board.seesterne = board.seesterne.set_at_coords(entry.x, entry.y);
            } else {
                board.moewen = board.moewen.set_at_coords(entry.x, entry.y);
            }
            if entry.stacked {
                board.double = board.double.set_at_coords(entry.x, entry.y);
            }
            proof {
                let ps = pieces@;
                let m = n as int;
                assert forall|sq: int| #[trigger]
                    board.friendly.has(sq) == placed_side(ps, m + 1, sq, Team::ONE) by {
                    Self::lemma_added(before.friendly, board.friendly, sq0, entry.team == Team::ONE, sq);
                    assert(before.friendly.has(sq) == placed_side(ps, m, sq, Team::ONE));
                    if placed_side(ps, m + 1, sq, Team::ONE) {
                        let i = choose|i: int|
                            0 <= i < m + 1 && (#[trigger] ps[i]).square() == sq && ps[i].team
                                == Team::ONE;
                        if i < m {
                            assert(placed_side(ps, m, sq, Team::ONE));
                        }
                    }
                    if board.friendly.has(sq) {
                        if before.friendly.has(sq) {
                            let i = choose|i: int|
                                0 <= i < m && (#[trigger] ps[i]).square() == sq && ps[i].team
                                    == Team::ONE;
                            assert(0 <= i < m + 1);
                        } else {
                            assert(ps[m].square() == sq && ps[m].team == Team::ONE);
                        }
                    }
                }
                assert forall|sq: int| #[trigger]
                    board.enemy.has(sq) == placed_side(ps, m + 1, sq, Team::TWO) by {
                    Self::lemma_added(before.enemy, board.enemy, sq0, entry.team == Team::TWO, sq);
                    assert(before.enemy.has(sq) == placed_side(ps, m, sq, Team::TWO));
                    if placed_side(ps, m + 1, sq, Team::TWO) {
                        let i = choose|i: int|
                            0 <= i < m + 1 && (#[trigger] ps[i]).square() == sq && ps[i].team
                                == Team::TWO;
                        if i < m {
                            assert(placed_side(ps, m, sq, Team::TWO));
                        }
                    }
                    if board.enemy.has(sq) {
                        if before.enemy.has(sq) {
                            let i = choose|i: int|
                                0 <= i < m && (#[trigger] ps[i]).square() == sq && ps[i].team
                                    == Team::TWO;
                            assert(0 <= i < m + 1);
                        } else {
                            assert(ps[m].square() == sq && ps[m].team == Team::TWO);
                        }
                    }
                }
                assert forall|sq: int| #[trigger]
                    board.double.has(sq) == placed_stack(ps, m + 1, sq) by {
                    Self::lemma_added(before.double, board.double, sq0, entry.stacked, sq);
                    assert(before.double.has(sq) == placed_stack(ps, m, sq));
                    if placed_stack(ps, m + 1, sq) {
                        let i = choose|i: int|
                            0 <= i < m + 1 && (#[trigger] ps[i]).square() == sq && ps[i].stacked;
                        if i < m {
                            assert(placed_stack(ps, m, sq));
                        }
                    }
                    if board.double.has(sq) {
                        if before.double.has(sq) {
                            let i = choose|i: int|
                                0 <= i < m && (#[trigger] ps[i]).square() == sq && ps[i].stacked;
                            assert(0 <= i < m + 1);
                        } else {
                            assert(ps[m].square() == sq && ps[m].stacked);
                        }
                    }
                }
                assert forall|sq: int, t: PieceType| #[trigger]
                    board.type_mask(t).has(sq) == placed_type(ps, m + 1, sq, t) by {
                    Self::lemma_added(
                        before.type_mask(t),
                        board.type_mask(t),
                        sq0,
                        entry.piece == t,
                        sq,
                    );
                    assert(before.type_mask(t).has(sq) == placed_type(ps, m, sq, t));
                    if placed_type(ps, m + 1, sq, t) {
                        let i = choose|i: int|
                            0 <= i < m + 1 && (#[trigger] ps[i]).square() == sq && ps[i].piece
                                == t;
                        if i < m {
                            assert(placed_type(ps, m, sq, t));
                        }
                    }
                    if board.type_mask(t).has(sq) {
                        if before.type_mask(t).has(sq) {
                            let i = choose|i: int|
                                0 <= i < m && (#[trigger] ps[i]).square() == sq && ps[i].piece
                                    == t;
                            assert(0 <= i < m + 1);
                        } else {
                            assert(ps[m].square() == sq && ps[m].piece == t);
                        }
                    }
                }
            }
            n += 1;
        }
        proof {
            Self::lemma_distinct_pieces_wf(board, pieces@);
        }
        board
    }

    /// A mask that got `sq0` added, or was left alone, holds what it held
    /// and that square.
    proof fn lemma_added(before: Bitboard, after: Bitboard, sq0: int, added: bool, sq: int)
        requires
            0 <= sq0 < 64,
            after == if added {
                before.with(sq0)
            } else {
                before
            },
        ensures
            after.has(sq) == (before.has(sq) || (added && sq == sq0)),
    {
        before.lemma_point_views(sq0);
        assert(before@.contains(sq) == before.has(sq));
        assert(after@.contains(sq) == after.has(sq));
    }

    /// A position filled from pieces on pairwise different cells is in
    /// order.
    proof fn lemma_distinct_pieces_wf(board: Board, ps: Seq<Placement>)
        requires
            holds_pieces(board, ps, ps.len() as int),
        ensures
            (forall|i: int, j: int|
                0 <= i < j < ps.len() ==> (#[trigger] ps[i]).square() != (#[trigger] ps[j]).square())
                ==> board.wf(),
    {
        let n = ps.len() as int;
        if forall|i: int, j: int|
            0 <= i < j < ps.len() ==> (#[trigger] ps[i]).square() != (#[trigger] ps[j]).square() {
            assert forall|sq: int| 0 <= sq < 64 implies #[trigger] board.cell_ok(sq) by {
                assert(board.friendly.has(sq) == placed_side(ps, n, sq, Team::ONE));
                assert(board.enemy.has(sq) == placed_side(ps, n, sq, Team::TWO));
                assert(board.double.has(sq) == placed_stack(ps, n, sq));
                assert(board.type_mask(PieceType::ROBBE).has(sq) == placed_type(
                    ps,
                    n,
                    sq,
                    PieceType::ROBBE,
                ));
                assert(board.type_mask(PieceType::MUSCHEL).has(sq) == placed_type(
                    ps,
                    n,
                    sq,
                    PieceType::MUSCHEL,
                ));
                assert(board.type_mask(PieceType::SEESTERN).has(sq) == placed_type(
                    ps,
                    n,
                    sq,
                    PieceType::SEESTERN,
                ));
                assert(board.type_mask(PieceType::MOEWE).has(sq) == placed_type(
                    ps,
                    n,
                    sq,
                    PieceType::MOEWE,
                ));
                if exists|i: int| 0 <= i < n && (#[trigger] ps[i]).square() == sq {
                    let i = choose|i: int| 0 <= i < n && (#[trigger] ps[i]).square() == sq;
                    assert forall|j: int| 0 <= j < n && (#[trigger] ps[j]).square()
                        == sq implies j == i by {
                        if j < i {
                            assert(ps[j].square() != ps[i].square());
                        }
                        if i < j {
                            assert(ps[i].square() != ps[j].square());
                        }
                    }
                    assert(placed_side(ps, n, sq, ps[i].team));
                    assert(placed_type(ps, n, sq, ps[i].piece));
                }
            }
        }
    }
}

} // verus!
