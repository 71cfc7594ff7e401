//! The moves that the rules allow on a position.
//!
//! Moves are listed from the displacement lists of the piece types. The
//! destination tables give the same squares, mask by mask.
use crate::bitboard::{bit, lemma_set_bits, on_grid, set_bits_from, square, Bitboard};
use crate::board::Board;
use crate::game_move::Move;
use crate::moves::{
    moewe_gen_moves, moewe_reaches, muschel_gen_moves, muschel_reaches, robbe_lookup,
    robbe_reaches, seestern_gen_moves, seestern_reaches,
};
use crate::piece::{
    is_move_from, is_move_of, lands, lemma_moves_of, lemma_moves_of_distinct,
    lemma_one_per_pair_joined, lemma_vectors_addable, moewe, moves_of, muschel, no_vector_twice,
    one_per_pair, robbe, same_pair, seestern, vec2, vectors_of, PieceType,
};
use crate::vec2::Vec2;
use vstd::prelude::*;

verus! {

/// Whether a piece of type `t` on one of the cells of `from` reaches column
/// `x` of row `y` in one move, as the destination tables have it.
pub open spec fn reaches(t: PieceType, maximizing_player: bool, from: Bitboard, x: int, y: int) -> bool {
    match t {
        PieceType::ROBBE => robbe_reaches(from, x, y),
        PieceType::MOEWE => moewe_reaches(from, x, y),
        PieceType::MUSCHEL => muschel_reaches(from, maximizing_player, x, y),
        PieceType::SEESTERN => seestern_reaches(from, maximizing_player, x, y),
    }
}

/// The destination tables and the displacement lists say the same: from a
/// single cell a table reaches the cells that lie one of the piece's
/// displacements away.
pub proof fn lemma_reach_is_displacement(
    t: PieceType,
    maximizing_player: bool,
    from: Bitboard,
    origin: Vec2,
    x: int,
    y: int,
)
    requires
        origin.on_grid(),
        on_grid(x, y),
        forall|a: int, b: int| from.at(a, b) == (a == origin.x && b == origin.y),
    ensures
        reaches(t, maximizing_player, from, x, y) <==> vectors_of(t, maximizing_player).contains(
            vec2(x - origin.x, y - origin.y),
        ),
{
    let vectors = vectors_of(t, maximizing_player);
    let v = vec2(x - origin.x, y - origin.y);
    if reaches(t, maximizing_player, from, x, y) {
        assert(-2 <= x - origin.x <= 2 && -2 <= y - origin.y <= 2);
        assert(exists|j: int| 0 <= j < vectors.len() && vectors[j] == v) by {
            let dx = x - origin.x;
            let dy = y - origin.y;
            match t {
                PieceType::ROBBE => {
                    let j: int = if dx == 2 && dy == 1 {
                        0
                    } else if dx == 1 && dy == 2 {
                        1
                    } else if dx == -1 && dy == 2 {
                        2
                    } else if dx == -2 && dy == 1 {
                        3
                    } else if dx == -2 && dy == -1 {
                        4
                    } else if dx == -1 && dy == -2 {
                        5
                    } else if dx == 1 && dy == -2 {
                        6
                    } else {
                        7
                    };
                    assert(vectors[j] == v);
                },
                PieceType::MOEWE => {
                    let j: int = if dx == 1 {
                        0
                    } else if dy == 1 {
                        1
                    } else if dx == -1 {
                        2
                    } else {
                        3
                    };
                    assert(vectors[j] == v);
                },
                PieceType::MUSCHEL => {
                    let j: int = if dx == 1 {
                        0
                    } else {
                        1
                    };
                    assert(vectors[j] == v);
                },
                PieceType::SEESTERN => {
                    let f: int = if maximizing_player {
                        1
                    } else {
                        -1
                    };
                    let j: int = if dy == f {
                        if dx == 1 {
                            0
                        } else if dx == 0 {
                            1
                        } else {
                            2
                        }
                    } else if dx == 1 {
                        3
                    } else {
                        4
                    };
                    assert(vectors[j] == v);
                },
            }
        }
    }
    if vectors.contains(v) {
        let j = choose|j: int| 0 <= j < vectors.len() && vectors[j] == v;
        assert(vectors[j].x == x - origin.x && vectors[j].y == y - origin.y);
        assert(from.at(x - vectors[j].x, y - vectors[j].y));
    }
}

impl Board {
    /// The squares on which the side to move has a piece of type `t`, in
    /// rising order.
    pub open spec fn origins(self, t: PieceType) -> Seq<u8> {
        set_bits_from(self.type_mask(t).bits & self.friendly.bits, 0)
    }

    /// The moves of the pieces of type `t` of the side to move.
    pub open spec fn type_moves(self, t: PieceType, maximizing_player: bool) -> Seq<Move> {
        moves_of(
            t,
            vectors_of(t, maximizing_player),
            self.origins(t),
            self,
            self.origins(t).len() as int,
        )
    }

    /// All moves of the side to move, type after type.
    pub open spec fn moves(self, maximizing_player: bool) -> Seq<Move> {
        self.type_moves(PieceType::MOEWE, maximizing_player) + self.type_moves(
            PieceType::ROBBE,
            maximizing_player,
        ) + self.type_moves(PieceType::MUSCHEL, maximizing_player) + self.type_moves(
            PieceType::SEESTERN,
            maximizing_player,
        )
    }

    /// Whether `mv` is a move that the rules allow the side to move: the
    /// position admits it, and its displacement is one of those of its piece
    /// type.
    pub open spec fn is_legal(self, mv: Move, maximizing_player: bool) -> bool {
        &&& self.admits(mv)
        &&& vectors_of(mv.piece, maximizing_player).contains(mv.vector)
    }

    /// The squares listed as origins of type `t` are those on which the side
    /// to move has a piece of that type.
    proof fn lemma_origins(self, t: PieceType)
        ensures
            forall|i: int|
                0 <= i < self.origins(t).len() ==> {
                    let sq = #[trigger] self.origins(t)[i] as int;
                    0 <= sq < 64 && self.type_mask(t).has(sq) && self.friendly.has(sq)
                },
            forall|sq: int|
                self.type_mask(t).has(sq) && self.friendly.has(sq) ==> exists|i: int|
                    0 <= i < self.origins(t).len() && #[trigger] self.origins(t)[i] == sq,
    {
        let mask = Bitboard { bits: self.type_mask(t).bits & self.friendly.bits };
        lemma_set_bits(mask.bits, 0);
        self.type_mask(t).lemma_mask_views(self.friendly);
        assert forall|sq: int| mask.has(sq) == (self.type_mask(t).has(sq) && self.friendly.has(
            sq,
        )) by {
            assert(mask@.contains(sq) == mask.has(sq));
            assert(self.type_mask(t)@.contains(sq) == self.type_mask(t).has(sq));
            assert(self.friendly@.contains(sq) == self.friendly.has(sq));
        }
        assert forall|i: int| 0 <= i < self.origins(t).len() implies {
            let sq = #[trigger] self.origins(t)[i] as int;
            0 <= sq < 64 && self.type_mask(t).has(sq) && self.friendly.has(sq)
        } by {
            assert(mask.has(self.origins(t)[i] as int));
        }
        assert forall|sq: int|
            self.type_mask(t).has(sq) && self.friendly.has(sq) implies exists|i: int|
            0 <= i < self.origins(t).len() && #[trigger] self.origins(t)[i] == sq by {
            assert(mask.has(sq));
            assert(0 <= sq < 64 && bit(mask.bits, sq));
            let all = set_bits_from(mask.bits, 0);
            let i = choose|i: int| 0 <= i < all.len() && #[trigger] all[i] == sq;
            assert(self.origins(t) == all);
            assert(0 <= i < self.origins(t).len() && self.origins(t)[i] == sq);
        }
    }

    /// A move from a square of the side to move by a displacement of its
    /// piece type that lands is legal, and every legal move is of this kind.
    proof fn lemma_legal_shape(
        self,
        t: PieceType,
        maximizing_player: bool,
        origin: Vec2,
        j: int,
        m: Move,
    )
        requires
            origin.on_grid(),
            self.type_mask(t).has(origin.square()),
            self.friendly.has(origin.square()),
            0 <= j < vectors_of(t, maximizing_player).len(),
            m == Move::make(origin, vectors_of(t, maximizing_player)[j], t),
            lands(m, self),
        ensures
            m.piece == t,
            self.is_legal(m, maximizing_player),
    {
        let vectors = vectors_of(t, maximizing_player);
        assert(vectors.contains(vectors[j]));
        assert(-2 <= vectors[j].x <= 2 && -2 <= vectors[j].y <= 2);
    }

    /// The moves listed for one piece type are the legal moves of pieces of
    /// that type.
    pub proof fn lemma_type_moves(self, t: PieceType, maximizing_player: bool, m: Move)
        ensures
            self.type_moves(t, maximizing_player).contains(m) <==> (m.piece == t && self.is_legal(
                m,
                maximizing_player,
            )),
    {
        let vectors = vectors_of(t, maximizing_player);
        let squares = self.origins(t);
        let n = squares.len() as int;
        lemma_moves_of(t, vectors, squares, self, n, m);
        self.lemma_origins(t);
        if is_move_of(t, vectors, squares, self, n, m) {
            let i = choose|i: int|
                0 <= i < n && is_move_from(
                    t,
                    vectors,
                    Vec2::of_square(#[trigger] squares[i] as int),
                    self,
                    vectors.len() as int,
                    m,
                );
            let origin = Vec2::of_square(squares[i] as int);
            let j = choose|j: int|
                0 <= j < vectors.len() && m == Move::make(origin, #[trigger] vectors[j], t)
                    && lands(m, self);
            assert(origin.square() == squares[i]);
            self.lemma_legal_shape(t, maximizing_player, origin, j, m);
        }
        if m.piece == t && self.is_legal(m, maximizing_player) {
            let o = m.origin.square();
            let i = choose|i: int| 0 <= i < squares.len() && #[trigger] squares[i] == o;
            assert(Vec2::of_square(squares[i] as int) == m.origin);
            let j = choose|j: int| 0 <= j < vectors.len() && vectors[j] == m.vector;
            assert(m == Move::make(m.origin, vectors[j], t));
            assert(is_move_from(t, vectors, m.origin, self, vectors.len() as int, m));
            assert(is_move_of(t, vectors, squares, self, n, m));
        }
    }

    /// The list of moves holds the moves that the rules allow, and no other.
    pub proof fn lemma_moves_legal(self, maximizing_player: bool, m: Move)
        ensures
            self.moves(maximizing_player).contains(m) <==> self.is_legal(m, maximizing_player),
    {
        let a = self.type_moves(PieceType::MOEWE, maximizing_player);
        let b = self.type_moves(PieceType::ROBBE, maximizing_player);
        let c = self.type_moves(PieceType::MUSCHEL, maximizing_player);
        let d = self.type_moves(PieceType::SEESTERN, maximizing_player);
        self.lemma_type_moves(PieceType::MOEWE, maximizing_player, m);
        self.lemma_type_moves(PieceType::ROBBE, maximizing_player, m);
        self.lemma_type_moves(PieceType::MUSCHEL, maximizing_player, m);
        self.lemma_type_moves(PieceType::SEESTERN, maximizing_player, m);
        let all = self.moves(maximizing_player);
        assert(all == a + b + c + d);
        if all.contains(m) {
            let at = choose|at: int| 0 <= at < all.len() && all[at] == m;
            if at < a.len() {
                assert(a[at] == m);
            } else if at < a.len() + b.len() {
                assert(b[at - a.len()] == m);
            } else if at < a.len() + b.len() + c.len() {
                assert(c[at - a.len() - b.len()] == m);
            } else {
                assert(d[at - a.len() - b.len() - c.len()] == m);
            }
        }
        if a.contains(m) {
            let at = choose|at: int| 0 <= at < a.len() && a[at] == m;
            assert(all[at] == m);
        }
        if b.contains(m) {
            let at = choose|at: int| 0 <= at < b.len() && b[at] == m;
            assert(all[a.len() + at] == m);
        }
        if c.contains(m) {
            let at = choose|at: int| 0 <= at < c.len() && c[at] == m;
            assert(all[a.len() + b.len() + at] == m);
        }
        if d.contains(m) {
            let at = choose|at: int| 0 <= at < d.len() && d[at] == m;
            assert(all[a.len() + b.len() + c.len() + at] == m);
        }
    }

    /// The moves listed for one piece type hold no pair of cells twice.
    proof fn lemma_type_moves_distinct(self, t: PieceType, maximizing_player: bool)
        ensures
            one_per_pair(self.type_moves(t, maximizing_player)),
    {
        let vectors = vectors_of(t, maximizing_player);
        let squares = self.origins(t);
        lemma_vectors_addable(t, maximizing_player);
        lemma_set_bits(self.type_mask(t).bits & self.friendly.bits, 0);
        assert(no_vector_twice(vectors));
        lemma_moves_of_distinct(t, vectors, squares, self, squares.len() as int);
    }

    /// On a position that is in order no pair of an origin and a destination
    /// is listed twice.
    pub proof fn lemma_moves_distinct(self, maximizing_player: bool)
        requires
            self.wf(),
        ensures
            one_per_pair(self.moves(maximizing_player)),
    {
        let a = self.type_moves(PieceType::MOEWE, maximizing_player);
        let b = self.type_moves(PieceType::ROBBE, maximizing_player);
        let c = self.type_moves(PieceType::MUSCHEL, maximizing_player);
        let d = self.type_moves(PieceType::SEESTERN, maximizing_player);
        self.lemma_type_moves_distinct(PieceType::MOEWE, maximizing_player);
        self.lemma_type_moves_distinct(PieceType::ROBBE, maximizing_player);
        self.lemma_type_moves_distinct(PieceType::MUSCHEL, maximizing_player);
        self.lemma_type_moves_distinct(PieceType::SEESTERN, maximizing_player);
        assert forall|m: Move, n: Move|
            self.is_legal(m, maximizing_player) && self.is_legal(n, maximizing_player) && m.piece
                != n.piece implies !same_pair(m, n) by {
            if m.origin == n.origin {
                assert(self.cell_ok(m.origin.square()));
            }
        }
        assert forall|i: int, j: int| 0 <= i < a.len() && 0 <= j < b.len() implies !same_pair(
            a[i],
            b[j],
        ) by {
            assert(a.contains(a[i]) && b.contains(b[j]));
            self.lemma_type_moves(PieceType::MOEWE, maximizing_player, a[i]);
            self.lemma_type_moves(PieceType::ROBBE, maximizing_player, b[j]);
        }
        lemma_one_per_pair_joined(a, b);
        let ab = a + b;
        assert forall|i: int, j: int| 0 <= i < ab.len() && 0 <= j < c.len() implies !same_pair(
            ab[i],
            c[j],
        ) by {
            assert(c.contains(c[j]));
            self.lemma_type_moves(PieceType::MUSCHEL, maximizing_player, c[j]);
            if i < a.len() {
                assert(a.contains(a[i]) && ab[i] == a[i]);
                self.lemma_type_moves(PieceType::MOEWE, maximizing_player, ab[i]);
            } else {
                assert(b.contains(b[i - a.len()]) && ab[i] == b[i - a.len()]);
                self.lemma_type_moves(PieceType::ROBBE, maximizing_player, ab[i]);
            }
        }
        lemma_one_per_pair_joined(ab, c);
        let abc = ab + c;
        assert forall|i: int, j: int| 0 <= i < abc.len() && 0 <= j < d.len() implies !same_pair(
            abc[i],
            d[j],
        ) by {
            assert(d.contains(d[j]));
            self.lemma_type_moves(PieceType::SEESTERN, maximizing_player, d[j]);
            if i < a.len() {
                assert(a.contains(a[i]) && abc[i] == a[i]);
                self.lemma_type_moves(PieceType::MOEWE, maximizing_player, abc[i]);
            } else if i < ab.len() {
                assert(b.contains(b[i - a.len()]) && abc[i] == b[i - a.len()]);
                self.lemma_type_moves(PieceType::ROBBE, maximizing_player, abc[i]);
            } else {
                assert(c.contains(c[i - ab.len()]) && abc[i] == c[i - ab.len()]);
                self.lemma_type_moves(PieceType::MUSCHEL, maximizing_player, abc[i]);
            }
        }
        lemma_one_per_pair_joined(abc, d);
    }

    /// One move for every pair of an origin and a destination that the rules
    /// allow the side to move. A destination on which a piece of the other
    /// side stands is allowed: it is a capture.
    pub fn legal_moves(&self, maximizing_player: bool) -> (out: Vec<Move>)
        ensures
            out@ == self.moves(maximizing_player),
            forall|m: Move| out@.contains(m) <==> self.is_legal(m, maximizing_player),
            self.wf() ==> one_per_pair(out@),
    {
        proof {
            if self.wf() {
                self.lemma_moves_distinct(maximizing_player);
            }
            assert forall|m: Move|
                self.moves(maximizing_player).contains(m) <==> self.is_legal(
                    m,
                    maximizing_player,
                ) by {
                self.lemma_moves_legal(maximizing_player, m);
            }
        }
        let moewen = self.moewen & self.friendly;
        let robben = self.robben & self.friendly;
        let muscheln = self.muscheln & self.friendly;
        let seesterne = self.seesterne & self.friendly;
        proof {
            lemma_vectors_addable(PieceType::MOEWE, maximizing_player);
            lemma_vectors_addable(PieceType::ROBBE, maximizing_player);
            lemma_vectors_addable(PieceType::MUSCHEL, maximizing_player);
            lemma_vectors_addable(PieceType::SEESTERN, maximizing_player);
        }

        let mut out = moewe().calculate_moves(moewen, self);
        let mut more = robbe().calculate_moves(robben, self);
        out.append(&mut more);
        let mut more = muschel(maximizing_player).calculate_moves(muscheln, self);
        out.append(&mut more);
        let mut more = seestern(maximizing_player).calculate_moves(seesterne, self);
        out.append(&mut more);
        out
    }

    /// The squares to which the piece on square `pos` may move: what the
    /// destination table of its type gives, own pieces taken out. Squares on
    /// which the other side stands are among them. Where no piece type is
    /// recorded for `pos` the mask is empty.
    pub fn destinations(&self, pos: u8, maximizing_player: bool) -> (r: Bitboard)
        requires
            pos < 64,
        ensures
            self.type_at(pos as int) is None ==> r.bits == 0,
            self.type_at(pos as int) matches Some(t) ==> forall|x: int, y: int|
                on_grid(x, y) ==> (#[trigger] r.at(x, y) <==> (vectors_of(
                    t,
                    maximizing_player,
                ).contains(
                    vec2(x - Vec2::of_square(pos as int).x, y - Vec2::of_square(pos as int).y),
                ) && !self.friendly.at(x, y))),
    {
        let single = Bitboard::new().set(pos);
        let reach = match self.piece_at(pos) {
            None => { return Bitboard::new(); },
            Some(PieceType::ROBBE) => robbe_lookup(pos),
            Some(PieceType::MOEWE) => moewe_gen_moves(single, maximizing_player),
            Some(PieceType::MUSCHEL) => muschel_gen_moves(single, maximizing_player),
            Some(PieceType::SEESTERN) => seestern_gen_moves(single, maximizing_player),
        };
        let r = reach & Bitboard::from(!self.friendly.bits);
        proof {
            let t = self.type_at(pos as int).unwrap();
            let origin = Vec2::of_square(pos as int);
            let empty = Bitboard { bits: 0 };
            assert(single == empty.with(pos as int));
            assert forall|a: int, b: int| single.at(a, b) == (a == origin.x && b == origin.y) by {
                assert(single@.contains(square(a, b)) == bit(
                    single.bits,
                    square(a, b),
                ));
            }
            let blocked = Bitboard { bits: !self.friendly.bits };
            self.friendly.lemma_mask_views(self.friendly);
            reach.lemma_mask_views(blocked);
            assert forall|x: int, y: int| on_grid(x, y) implies (#[trigger] r.at(
                x,
                y,
            ) <==> (vectors_of(t, maximizing_player).contains(vec2(x - origin.x, y - origin.y))
                && !self.friendly.at(x, y))) by {
                let sq = square(x, y);
                lemma_reach_is_displacement(t, maximizing_player, single, origin, x, y);
                assert(reach.at(x, y) == reaches(t, maximizing_player, single, x, y));
                assert(r@.contains(sq) == bit(r.bits, sq));
                assert(reach@.contains(sq) == bit(reach.bits, sq));
                assert(blocked@.contains(sq) == bit(blocked.bits, sq));
            }
        }
        r
    }
}

} // verus!
