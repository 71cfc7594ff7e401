//! The four piece types and the moves that each can make.
use crate::bitboard::{lemma_set_bits, set_bits_from, Bitboard};
use crate::board::Board;
use crate::game_move::Move;
use crate::v64::v64_as_slice;
use crate::vec2::Vec2;
use vstd::prelude::*;

verus! {

/// The four piece types: the leaper, the piece that steps diagonally
/// forward, the piece that steps forward and along the diagonals, and the
/// piece that steps along rows and columns.
#[derive(Clone, Copy, Debug, PartialEq, Eq, Structural)]
pub enum PieceType {
    ROBBE,
    MUSCHEL,
    SEESTERN,
    MOEWE,
}

impl PieceType {
    /// The name of the piece type.
    pub fn name(&self) -> (r: &'static str)
        ensures
            r@ == match *self {
                PieceType::ROBBE => "Robbe"@,
                PieceType::MUSCHEL => "Herzmuschel"@,
                PieceType::SEESTERN => "Seestern"@,
                PieceType::MOEWE => "M\u{f6}we"@,
            },
    {
        match self {
            PieceType::ROBBE => "Robbe",
            PieceType::MUSCHEL => "Herzmuschel",
            PieceType::SEESTERN => "Seestern",
            PieceType::MOEWE => "M\u{f6}we",
        }
    }

    /// The piece type that a name of the turn protocol stands for.
    pub open spec fn named(name: Seq<char>) -> Option<PieceType> {
        if name == "Moewe"@ {
            Some(PieceType::MOEWE)
        } else if name == "Robbe"@ {
            Some(PieceType::ROBBE)
        } else if name == "Herzmuschel"@ {
            Some(PieceType::MUSCHEL)
        } else if name == "Seestern"@ {
            Some(PieceType::SEESTERN)
        } else {
            None
        }
    }

    /// The piece type that a name of the turn protocol stands for.
    pub fn piece_type_from_name(name: &String) -> (r: Option<PieceType>)
        ensures
            r == PieceType::named(name@),
    {
        if *name == "Moewe".to_owned() {
            Some(PieceType::MOEWE)
        } else if *name == "Robbe".to_owned() {
            Some(PieceType::ROBBE)
        } else if *name == "Herzmuschel".to_owned() {
            Some(PieceType::MUSCHEL)
        } else if *name == "Seestern".to_owned() {
            Some(PieceType::SEESTERN)
        } else {
            None
        }
    }
}

/// A piece type with its name and the displacements that it can move by.
#[derive(Debug, Copy, Clone)]
pub struct Piece<const MOVE_COUNT: usize> {
    pub name: &'static str,
    pub typ: &'static PieceType,
    pub vectors: [Vec2; MOVE_COUNT],
}

/// The pair of column `x` and row `y`.
pub open spec fn vec2(x: int, y: int) -> Vec2 {
    Vec2 { x: x as i32, y: y as i32 }
}

/// The leaper's eight jumps.
pub open spec fn robbe_vectors() -> Seq<Vec2> {
    seq![
        vec2(2, 1),
        vec2(1, 2),
        vec2(-1, 2),
        vec2(-2, 1),
        vec2(-2, -1),
        vec2(-1, -2),
        vec2(1, -2),
        vec2(2, -1),
    ]
}

/// The four steps along a row or a column.
pub open spec fn moewe_vectors() -> Seq<Vec2> {
    seq![vec2(1, 0), vec2(0, 1), vec2(-1, 0), vec2(0, -1)]
}

/// The two diagonal steps towards the row `forward` away.
pub open spec fn muschel_vectors(forward: int) -> Seq<Vec2> {
    seq![vec2(1, forward), vec2(-1, forward)]
}

/// The step and the two diagonal steps towards the row `forward` away, and
/// the two diagonal steps back.
pub open spec fn seestern_vectors(forward: int) -> Seq<Vec2> {
    seq![
        vec2(1, forward),
        vec2(0, forward),
        vec2(-1, forward),
        vec2(1, -forward),
        vec2(-1, -forward),
    ]
}

/// The displacements of a piece of type `t`. The maximizing player moves
/// forward towards row 7, the other side towards row 0.
pub open spec fn vectors_of(t: PieceType, maximizing_player: bool) -> Seq<Vec2> {
    let forward: int = if maximizing_player {
        1
    } else {
        -1
    };
    match t {
        PieceType::ROBBE => robbe_vectors(),
        PieceType::MOEWE => moewe_vectors(),
        PieceType::MUSCHEL => muschel_vectors(forward),
        PieceType::SEESTERN => seestern_vectors(forward),
    }
}

/// Whether a move stays on the grid and does not land on a piece of the
/// moving side.
pub open spec fn lands(m: Move, board: Board) -> bool {
    m.result.on_grid() && !board.friendly.has(m.result.square())
}

/// The moves of a piece on `origin` by the first `k` of `vectors` that land,
/// in the order of the displacements.
pub open spec fn moves_from(
    typ: PieceType,
    vectors: Seq<Vec2>,
    origin: Vec2,
    board: Board,
    k: int,
) -> Seq<Move>
    decreases k,
{
    if k <= 0 {
        Seq::empty()
    } else {
        let before = moves_from(typ, vectors, origin, board, k - 1);
        let m = Move::make(origin, vectors[k - 1], typ);
        if lands(m, board) {
            before.push(m)
        } else {
            before
        }
    }
}

/// The moves of the pieces on the first `n` of `squares`, square after
/// square.
pub open spec fn moves_of(
    typ: PieceType,
    vectors: Seq<Vec2>,
    squares: Seq<u8>,
    board: Board,
    n: int,
) -> Seq<Move>
    decreases n,
{
    if n <= 0 {
        Seq::empty()
    } else {
        moves_of(typ, vectors, squares, board, n - 1) + moves_from(
            typ,
            vectors,
            Vec2::of_square(squares[n - 1] as int),
            board,
            vectors.len() as int,
        )
    }
}

/// Whether `m` is the move from `origin` by one of the first `k` of
/// `vectors` and lands.
pub open spec fn is_move_from(
    typ: PieceType,
    vectors: Seq<Vec2>,
    origin: Vec2,
    board: Board,
    k: int,
    m: Move,
) -> bool {
    exists|j: int|
        0 <= j < k && m == Move::make(origin, #[trigger] vectors[j], typ) && lands(m, board)
}

/// Whether `m` is a move from one of the first `n` of `squares` by one of
/// `vectors` and lands.
pub open spec fn is_move_of(
    typ: PieceType,
    vectors: Seq<Vec2>,
    squares: Seq<u8>,
    board: Board,
    n: int,
    m: Move,
) -> bool {
    exists|i: int|
        0 <= i < n && is_move_from(
            typ,
            vectors,
            Vec2::of_square(#[trigger] squares[i] as int),
            board,
            vectors.len() as int,
            m,
        )
}

/// The list of moves from one square holds the moves from it that land, and
/// no other.
pub proof fn lemma_moves_from(
    typ: PieceType,
    vectors: Seq<Vec2>,
    origin: Vec2,
    board: Board,
    k: int,
    m: Move,
)
    requires
        0 <= k <= vectors.len(),
    ensures
        moves_from(typ, vectors, origin, board, k).contains(m) <==> is_move_from(
            typ,
            vectors,
            origin,
            board,
            k,
            m,
        ),
    decreases k,
{
    if k > 0 {
        lemma_moves_from(typ, vectors, origin, board, k - 1, m);
        let before = moves_from(typ, vectors, origin, board, k - 1);
        let last = Move::make(origin, vectors[k - 1], typ);
        let now = moves_from(typ, vectors, origin, board, k);
        if is_move_from(typ, vectors, origin, board, k, m) {
            let j = choose|j: int|
                0 <= j < k && m == Move::make(origin, #[trigger] vectors[j], typ) && lands(
                    m,
                    board,
                );
            if j < k - 1 {
                assert(is_move_from(typ, vectors, origin, board, k - 1, m));
                let at = choose|at: int| 0 <= at < before.len() && before[at] == m;
                assert(now[at] == m);
            } else {
                assert(now[before.len() as int] == m);
            }
        }
        if now.contains(m) {
            let at = choose|at: int| 0 <= at < now.len() && now[at] == m;
            if at < before.len() {
                assert(before[at] == m);
                let j = choose|j: int|
                    0 <= j < k - 1 && m == Move::make(origin, #[trigger] vectors[j], typ)
                        && lands(m, board);
                assert(0 <= j < k && m == Move::make(origin, vectors[j], typ));
            } else {
                assert(m == last);
                assert(m == Move::make(origin, vectors[k - 1], typ));
            }
        }
    }
}

/// The list of moves from a row of squares holds the moves from these
/// squares that land, and no other.
pub proof fn lemma_moves_of(
    typ: PieceType,
    vectors: Seq<Vec2>,
    squares: Seq<u8>,
    board: Board,
    n: int,
    m: Move,
)
    requires
        0 <= n <= squares.len(),
    ensures
        moves_of(typ, vectors, squares, board, n).contains(m) <==> is_move_of(
            typ,
            vectors,
            squares,
            board,
            n,
            m,
        ),
    decreases n,
{
    if n > 0 {
        lemma_moves_of(typ, vectors, squares, board, n - 1, m);
        let origin = Vec2::of_square(squares[n - 1] as int);
        lemma_moves_from(typ, vectors, origin, board, vectors.len() as int, m);
        let before = moves_of(typ, vectors, squares, board, n - 1);
        let here = moves_from(typ, vectors, origin, board, vectors.len() as int);
        let now = moves_of(typ, vectors, squares, board, n);
        assert(now == before + here);
        if is_move_of(typ, vectors, squares, board, n, m) {
            let i = choose|i: int|
                0 <= i < n && is_move_from(
                    typ,
                    vectors,
                    Vec2::of_square(#[trigger] squares[i] as int),
                    board,
                    vectors.len() as int,
                    m,
                );
            if i < n - 1 {
                assert(is_move_of(typ, vectors, squares, board, n - 1, m));
                let at = choose|at: int| 0 <= at < before.len() && before[at] == m;
                assert(now[at] == m);
            } else {
                let at = choose|at: int| 0 <= at < here.len() && here[at] == m;
                assert(now[before.len() + at] == m);
            }
        }
        if now.contains(m) {
            let at = choose|at: int| 0 <= at < now.len() && now[at] == m;
            if at < before.len() {
                assert(before[at] == m);
                let i = choose|i: int|
                    0 <= i < n - 1 && is_move_from(
                        typ,
                        vectors,
                        Vec2::of_square(#[trigger] squares[i] as int),
                        board,
                        vectors.len() as int,
                        m,
                    );
                assert(0 <= i < n);
            } else {
                assert(here[at - before.len()] == m);
                assert(is_move_from(
                    typ,
                    vectors,
                    Vec2::of_square(squares[n - 1] as int),
                    board,
                    vectors.len() as int,
                    m,
                ));
            }
        }
    }
}

/// Whether the two moves leave from the same cell for the same cell.
pub open spec fn same_pair(a: Move, b: Move) -> bool {
    a.origin == b.origin && a.result == b.result
}

/// Whether no two moves of the list leave from the same cell for the same
/// cell.
pub open spec fn one_per_pair(moves: Seq<Move>) -> bool {
    forall|i: int, j: int| 0 <= i < j < moves.len() ==> !same_pair(moves[i], moves[j])
}

/// Whether no displacement occurs twice.
pub open spec fn no_vector_twice(vectors: Seq<Vec2>) -> bool {
    forall|i: int, j: int| 0 <= i < j < vectors.len() ==> vectors[i] != vectors[j]
}

/// Two lists without a repeated pair, and without a pair in common, make a
/// list without a repeated pair.
pub proof fn lemma_one_per_pair_joined(a: Seq<Move>, b: Seq<Move>)
    requires
        one_per_pair(a),
        one_per_pair(b),
        forall|i: int, j: int| 0 <= i < a.len() && 0 <= j < b.len() ==> !same_pair(a[i], b[j]),
    ensures
        one_per_pair(a + b),
{
    let all = a + b;
    assert forall|i: int, j: int| 0 <= i < j < all.len() implies !same_pair(all[i], all[j]) by {
        if j < a.len() {
            assert(all[i] == a[i] && all[j] == a[j]);
        } else if i < a.len() {
            assert(all[i] == a[i] && all[j] == b[j - a.len()]);
        } else {
            assert(all[i] == b[i - a.len()] && all[j] == b[j - a.len()]);
        }
    }
}

/// From one cell no destination is listed twice.
pub proof fn lemma_moves_from_distinct(
    typ: PieceType,
    vectors: Seq<Vec2>,
    origin: Vec2,
    board: Board,
    k: int,
)
    requires
        0 <= k <= vectors.len(),
        origin.on_grid(),
        addable(vectors),
        no_vector_twice(vectors),
    ensures
        one_per_pair(moves_from(typ, vectors, origin, board, k)),
    decreases k,
{
    if k > 0 {
        lemma_moves_from_distinct(typ, vectors, origin, board, k - 1);
        let before = moves_from(typ, vectors, origin, board, k - 1);
        let now = moves_from(typ, vectors, origin, board, k);
        let m = Move::make(origin, vectors[k - 1], typ);
        if lands(m, board) {
            assert forall|i: int, j: int| 0 <= i < j < now.len() implies !same_pair(
                now[i],
                now[j],
            ) by {
                if j < before.len() {
                    assert(now[i] == before[i] && now[j] == before[j]);
                } else {
                    assert(now[j] == m);
                    assert(now[i] == before[i]);
                    lemma_moves_from(typ, vectors, origin, board, k - 1, before[i]);
                    assert(before.contains(before[i]));
                    let a = choose|a: int|
                        0 <= a < k - 1 && before[i] == Move::make(origin, #[trigger] vectors[a], typ)
                            && lands(before[i], board);
                    assert(vectors[a] != vectors[k - 1]);
                    assert(vectors[a].x + 7 <= i32::MAX && vectors[a].y + 7 <= i32::MAX);
                    assert(vectors[k - 1].x + 7 <= i32::MAX && vectors[k - 1].y + 7 <= i32::MAX);
                    assert(now[i].result.on_grid() && m.result.on_grid());
                }
            }
        }
    }
}

/// From pairwise different squares no pair of cells is listed twice.
pub proof fn lemma_moves_of_distinct(
    typ: PieceType,
    vectors: Seq<Vec2>,
    squares: Seq<u8>,
    board: Board,
    n: int,
)
    requires
        0 <= n <= squares.len(),
        addable(vectors),
        no_vector_twice(vectors),
        forall|i: int| 0 <= i < squares.len() ==> #[trigger] squares[i] < 64,
        forall|i: int, j: int| 0 <= i < j < squares.len() ==> squares[i] < squares[j],
    ensures
        one_per_pair(moves_of(typ, vectors, squares, board, n)),
    decreases n,
{
    if n > 0 {
        lemma_moves_of_distinct(typ, vectors, squares, board, n - 1);
        let origin = Vec2::of_square(squares[n - 1] as int);
        let before = moves_of(typ, vectors, squares, board, n - 1);
        let here = moves_from(typ, vectors, origin, board, vectors.len() as int);
        lemma_moves_from_distinct(typ, vectors, origin, board, vectors.len() as int);
        assert forall|i: int, j: int| 0 <= i < before.len() && 0 <= j < here.len() implies !same_pair(
            before[i],
            here[j],
        ) by {
            lemma_moves_of(typ, vectors, squares, board, n - 1, before[i]);
            lemma_moves_from(typ, vectors, origin, board, vectors.len() as int, here[j]);
            assert(before.contains(before[i]));
            assert(here.contains(here[j]));
            let a = choose|a: int|
                0 <= a < n - 1 && is_move_from(
                    typ,
                    vectors,
                    Vec2::of_square(#[trigger] squares[a] as int),
                    board,
                    vectors.len() as int,
                    before[i],
                );
            assert(squares[a] < squares[n - 1]);
            assert(before[i].origin == Vec2::of_square(squares[a] as int));
            assert(here[j].origin == origin);
            assert(Vec2::of_square(squares[a] as int).square() == squares[a]);
            assert(origin.square() == squares[n - 1]);
        }
        lemma_one_per_pair_joined(before, here);
    }
}

/// Whether every displacement can be added to a cell of the grid.
pub open spec fn addable(vectors: Seq<Vec2>) -> bool {
    forall|k: int|
        0 <= k < vectors.len() ==> (#[trigger] vectors[k]).x + 7 <= i32::MAX && vectors[k].y + 7
            <= i32::MAX
}

impl<const MOVE_COUNT: usize> Piece<MOVE_COUNT> {
    /// The piece with the given name, type and displacements.
    pub fn new(name: &'static str, typ: &'static PieceType, vectors: [Vec2; MOVE_COUNT]) -> (r:
        Self)
        ensures
            r.name == name,
            r.typ == typ,
            r.vectors == vectors,
    {
        Piece { name, typ, vectors }
    }

    /// The moves that pieces of this type make from the squares of
    /// `piece_positions`: square after square in rising order, and for each
    /// square displacement after displacement, those left out that leave the
    /// grid or land on a piece of the side to move.
    pub fn calculate_moves(&self, piece_positions: Bitboard, board: &Board) -> (moves: Vec<Move>)
        requires
            addable(self.vectors@),
        ensures
            moves@ == moves_of(
                *self.typ,
                self.vectors@,
                set_bits_from(piece_positions.bits, 0),
                *board,
                set_bits_from(piece_positions.bits, 0).len() as int,
            ),
    {
        let mut moves: Vec<Move> = Vec::new();
        let positions = piece_positions.get_set_bits();
        let squares = v64_as_slice(&positions);
        let ghost all = set_bits_from(piece_positions.bits, 0);
        proof {
            lemma_set_bits(piece_positions.bits, 0);
        }
        let mut i: usize = 0;
        while i < squares.len()
            invariant
                i <= squares.len(),
                squares@ == all,
                addable(self.vectors@),
                self.vectors@.len() == MOVE_COUNT,
                forall|j: int| 0 <= j < all.len() ==> #[trigger] all[j] < 64,
                moves@ == moves_of(*self.typ, self.vectors@, all, *board, i as int),
            decreases squares.len() - i,
        {
            let origin = Vec2::from_pos(squares[i]);
            let mut k: usize = 0;
            while k < MOVE_COUNT
                invariant
                    k <= MOVE_COUNT,
                    i < squares.len(),
                    squares@ == all,
                    origin == Vec2::of_square(all[i as int] as int),
                    origin.on_grid(),
                    addable(self.vectors@),
                    self.vectors@.len() == MOVE_COUNT,
                    moves@ == moves_of(*self.typ, self.vectors@, all, *board, i as int)
                        + moves_from(*self.typ, self.vectors@, origin, *board, k as int),
                decreases MOVE_COUNT - k,
            {
                let vector = self.vectors[k];
                let m = Move::new(origin, vector, *self.typ);
                let ghost before = moves@;
                if !m.out_of_bounds() {
                    if !board.friendly.get_at_coords(m.result.x as u8, m.result.y as u8) {
                        moves.push(m);
                    }
                }
                k += 1;
                proof {
                    let part = moves_from(*self.typ, self.vectors@, origin, *board, k - 1);
                    let whole = moves_of(*self.typ, self.vectors@, all, *board, i as int);
                    if lands(m, *board) {
                        assert(moves@ =~= whole + part.push(m));
                    }
                }
            }
            i += 1;
        }
        moves
    }
}

/// The leaper.
pub fn robbe() -> (p: Piece<8>)
    ensures
        *p.typ == PieceType::ROBBE,
        p.vectors@ == robbe_vectors(),
{
    let p = Piece::new(
        "Robbe",
        &PieceType::ROBBE,
        [
            Vec2::new(2, 1),
            Vec2::new(1, 2),
            Vec2::new(-1, 2),
            Vec2::new(-2, 1),
            Vec2::new(-2, -1),
            Vec2::new(-1, -2),
            Vec2::new(1, -2),
            Vec2::new(2, -1),
        ],
    );
    assert(p.vectors@ =~= robbe_vectors());
    p
}

/// The piece that steps along rows and columns.
pub fn moewe() -> (p: Piece<4>)
    ensures
        *p.typ == PieceType::MOEWE,
        p.vectors@ == moewe_vectors(),
{
    let p = Piece::new(
        "M\u{f6}we",
        &PieceType::MOEWE,
        [Vec2::new(1, 0), Vec2::new(0, 1), Vec2::new(-1, 0), Vec2::new(0, -1)],
    );
    assert(p.vectors@ =~= moewe_vectors());
    p
}

/// The piece that steps diagonally forward, for the given side.
pub fn muschel(maximizing_player: bool) -> (p: Piece<2>)
    ensures
        *p.typ == PieceType::MUSCHEL,
        p.vectors@ == vectors_of(PieceType::MUSCHEL, maximizing_player),
{
    let forward: i32 = if maximizing_player {
        1
    } else {
        -1
    };
    let p = Piece::new(
        "Herzmuschel",
        &PieceType::MUSCHEL,
        [Vec2::new(1, forward), Vec2::new(-1, forward)],
    );
    assert(p.vectors@ =~= vectors_of(PieceType::MUSCHEL, maximizing_player));
    p
}

/// The piece that steps forward and along the diagonals, for the given
/// side.
pub fn seestern(maximizing_player: bool) -> (p: Piece<5>)
    ensures
        *p.typ == PieceType::SEESTERN,
        p.vectors@ == vectors_of(PieceType::SEESTERN, maximizing_player),
{
    let forward: i32 = if maximizing_player {
        1
    } else {
        -1
    };
    let p = Piece::new(
        "Seestern",
        &PieceType::SEESTERN,
        [
            Vec2::new(1, forward),
            Vec2::new(0, forward),
            Vec2::new(-1, forward),
            Vec2::new(1, -forward),
            Vec2::new(-1, -forward),
        ],
    );
    assert(p.vectors@ =~= vectors_of(PieceType::SEESTERN, maximizing_player));
    p
}

/// The displacements of every piece type can be added to any cell.
pub proof fn lemma_vectors_addable(t: PieceType, maximizing_player: bool)
    ensures
        addable(vectors_of(t, maximizing_player)),
{
}

} // verus!
