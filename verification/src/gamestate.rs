//! A game in progress, and the two searches over the tree of its moves.
use crate::bitboard::Bitboard;
use crate::board::{count, Board};
use crate::game_move::Move;
use crate::nibble::Nibble;
use crate::placement::{holds_pieces, Placement};
use crate::vec2::Vec2;
use vstd::prelude::*;
use vstd::std_specs::bits::{axiom_u64_trailing_zeros, u64_trailing_zeros};

verus! {

/// A position with the side to move, the points of both sides and the
/// number of the turn. The high counter of `points` belongs to the
/// maximizing player, the low counter to the other side.
#[derive(Clone, Copy, Debug)]
pub struct Gamestate {
    pub board: Board,
    pub turn: u8,
    pub maximizing_player: bool,
    pub points: Nibble,
}

/// `rand::random::<usize>()`: some number; nothing is promised of it, and
/// two calls may differ.
#[verifier::external_body]
fn random_index() -> usize {
    rand::random::<usize>()
}

/// The mask of all squares if the two masks share a square, else the empty
/// mask.
pub fn overlaps(rhs: Bitboard, lhs: Bitboard) -> (r: Bitboard)
    ensures
        r.bits == if rhs@.disjoint(lhs@) {
            0
        } else {
            u64::MAX
        },
{
    let shared = rhs & lhs;
    proof {
        rhs.lemma_mask_views(lhs);
        Bitboard::lemma_constant_views();
        if rhs@.disjoint(lhs@) {
            assert(shared@ =~= (Bitboard { bits: 0 })@);
            shared.lemma_view_determines(Bitboard { bits: 0 });
        } else {
            let sq = choose|sq: int| rhs@.contains(sq) && lhs@.contains(sq);
            assert(shared@.contains(sq));
            assert(!(Bitboard { bits: 0 })@.contains(sq));
        }
    }
    if shared.bits != 0 {
        Bitboard::from(u64::MAX)
    } else {
        Bitboard::from(0)
    }
}

/// The move that `number` picks from the list: none from an empty list,
/// else the move at the place that the number leaves when it is divided by
/// the length.
pub fn pick_move(legal: &Vec<Move>, number: usize) -> (r: Option<Move>)
    ensures
        legal.len() == 0 ==> r is None,
        legal.len() > 0 ==> r == Some(legal[number as int % legal.len() as int]),
{
    if legal.len() == 0 {
        None
    } else {
        Some(legal[number % legal.len()])
    }
}

proof fn lemma_far_row(b: u64, sq: u64)
    by (bit_vector)
    requires
        sq < 64,
    ensures
        (b & 0xFF00_0000_0000_0000u64) == 0 && sq / 8 == 7 ==> (b >> sq) & 1 == 0,
        (b & 0xFFu64) == 0 && sq / 8 == 0 ==> (b >> sq) & 1 == 0,
        ((b & 0xFF00_0000_0000_0000u64) >> sq) & 1 == 1 ==> sq / 8 == 7 && (b >> sq) & 1 == 1,
        ((b & 0xFFu64) >> sq) & 1 == 1 ==> sq / 8 == 0 && (b >> sq) & 1 == 1,
{
}

/// The state of a node's scan of its successors: the best value so far, the
/// window that is left, and whether the node was given up.
pub struct Scan {
    pub best: int,
    pub lower: int,
    pub upper: int,
    pub stopped: bool,
}

/// Whether the result `r` of a search inside the window from `alpha` to
/// `beta` tells of the value `v` what such a search can tell: inside the
/// window it is the value, at or below `alpha` it is an upper bound of it,
/// and at or above `beta` a lower bound.
pub open spec fn tells(r: int, v: int, alpha: int, beta: int) -> bool {
    &&& alpha < r < beta ==> r == v
    &&& r <= alpha ==> v <= r
    &&& r >= beta ==> v >= r
}

/// The smaller of the count and the largest `u64`.
pub open spec fn capped(count: nat) -> u64 {
    if count > u64::MAX {
        u64::MAX
    } else {
        count as u64
    }
}

impl Gamestate {
    /// The points of the side to move.
    pub open spec fn mover_points(self) -> int {
        if self.maximizing_player {
            self.points.left()
        } else {
            self.points.right()
        }
    }

    /// Whether one side has the two points that end the game.
    pub open spec fn is_over(self) -> bool {
        self.points.left() >= 2 || self.points.right() >= 2
    }

    /// The moves of the side to move.
    pub open spec fn moves(self) -> Seq<Move> {
        self.board.moves(self.maximizing_player)
    }

    /// The state after the side to move has made `mv`: the position after the
    /// move, the points of the move added to the mover's, the other side to
    /// move, one turn later.
    pub open spec fn after(self, mv: Move) -> Gamestate {
        let gained = self.mover_points() + self.board.points_for(mv, self.maximizing_player);
        Gamestate {
            board: self.board.after_move(mv),
            turn: (self.turn + 1) as u8,
            maximizing_player: !self.maximizing_player,
            points: if self.maximizing_player {
                self.points.with_left(gained)
            } else {
                self.points.with_right(gained)
            },
        }
    }

    /// The number of move sequences of `depth + 1` plies from this state, no
    /// sequence going on from a state in which the game is over.
    pub open spec fn perft_count(self, depth: nat) -> nat
        decreases depth, 1int, 0int,
    {
        if depth == 0 {
            self.moves().len()
        } else if self.is_over() {
            0
        } else {
            self.perft_sum(depth, self.moves().len() as int)
        }
    }

    /// The part of `perft_count` that goes through the first `n` moves.
    pub open spec fn perft_sum(self, depth: nat, n: int) -> nat
        decreases depth, 0int, n,
    {
        if depth == 0 || n <= 0 || n > self.moves().len() {
            0
        } else {
            self.perft_sum(depth, n - 1) + self.after(self.moves()[n - 1]).perft_count(
                (depth - 1) as nat,
            )
        }
    }

    /// The state at the start of a game.
    pub fn new_default() -> (r: Self)
        ensures
            r.board == Board::start(),
            r.board.wf(),
            r.turn == 1,
            r.maximizing_player,
            r.points.left() == 0,
            r.points.right() == 0,
    {
        Gamestate {
            board: Board::new_default(),
            turn: 1,
            maximizing_player: true,
            points: Nibble::new(),
        }
    }

    /// The state in which the maximizing player is to move on `board` and
    /// nobody has a point.
    pub fn new(board: Board) -> (r: Self)
        ensures
            r.board == board,
            r.turn == 1,
            r.maximizing_player,
            r.points.left() == 0,
            r.points.right() == 0,
    {
        Gamestate { board, turn: 1, maximizing_player: true, points: Nibble::new() }
    }

    /// The state that is handed over from outside: the position that holds
    /// the given pieces, side ONE being the side to move, with the side flag,
    /// the points of the maximizing player and of the other side, and the
    /// number of the turn as given. If no two pieces share a cell the
    /// position is in order.
    pub fn from_pieces(
        pieces: &Vec<Placement>,
        maximizing_player: bool,
        points: (u8, u8),
        turn: u8,
    ) -> (r: Self)
        requires
            forall|i: int| 0 <= i < pieces.len() ==> (#[trigger] pieces[i]).x < 8 && pieces[i].y < 8,
            points.0 < 16,
            points.1 < 16,
        ensures
            holds_pieces(r.board, pieces@, pieces.len() as int),
            (forall|i: int, j: int|
                0 <= i < j < pieces.len() ==> (#[trigger] pieces[i]).square() != (
                #[trigger] pieces[j]).square()) ==> r.board.wf(),
            r.maximizing_player == maximizing_player,
            r.points.left() == points.0,
            r.points.right() == points.1,
            r.turn == turn,
    {
        let mut counters = Nibble::new();
        counters.set_left(points.0);
        counters.set_right(points.1);
        Gamestate { board: Board::from_pieces(pieces), turn, maximizing_player, points: counters }
    }

    /// Whether one side has the two points that end the game.
    pub fn is_game_over(&self) -> (r: bool)
        ensures
            r == self.is_over(),
    {
        self.points.get_left() >= 2 || self.points.get_right() >= 2
    }

    /// Whether one side has won.
    pub fn is_win(&self) -> (r: bool)
        ensures
            r == self.is_over(),
    {
        self.is_game_over()
    }

    /// The points of the maximizing player and of the other side.
    pub fn scores(&self) -> (r: (u8, u8))
        ensures
            r.0 == self.points.left(),
            r.1 == self.points.right(),
    {
        (self.points.get_left(), self.points.get_right())
    }

    /// Makes `mv` for the side to move: the position changes, the points of
    /// the move go to the mover, and the other side is to move in the next
    /// turn. A game that is over takes no more moves, and the number of the
    /// turn must still fit its counter.
    pub fn apply(&mut self, mv: &Move)
        requires
            old(self).board.wf(),
            old(self).board.admits(*mv),
            !old(self).is_over(),
            old(self).turn < u8::MAX,
        ensures
            *final(self) == old(self).after(*mv),
            final(self).board.wf(),
    {
        let gained = self.board.apply(mv, self.maximizing_player);
        if self.maximizing_player {
            let had = self.points.get_left();
            self.points.set_left(had + gained);
        } else {
            let had = self.points.get_right();
            self.points.set_right(had + gained);
        }
        self.maximizing_player = !self.maximizing_player;
        self.turn = self.turn + 1;
    }

    /// Makes the move from square `origin_pos` to square `result_pos` with
    /// whatever piece of the side to move stands on the origin.
    pub fn apply_anonymous(&mut self, origin_pos: u8, result_pos: u8)
        requires
            origin_pos < 64,
            result_pos < 64,
            old(self).board.wf(),
            old(self).board.friendly.has(origin_pos as int),
            !old(self).board.friendly.has(result_pos as int),
            !old(self).is_over(),
            old(self).turn < u8::MAX,
        ensures
            old(self).board.type_at(origin_pos as int) is Some,
            *final(self) == old(self).after(
                Move::make(
                    Vec2::of_square(origin_pos as int),
                    Vec2::of_square(result_pos as int).minus(Vec2::of_square(origin_pos as int)),
                    old(self).board.type_at(origin_pos as int).unwrap(),
                ),
            ),
            final(self).board.wf(),
    {
        let gained = self.board.apply_anonymous(origin_pos, result_pos, self.maximizing_player);
        if self.maximizing_player {
            let had = self.points.get_left();
            self.points.set_left(had + gained);
        } else {
            let had = self.points.get_right();
            self.points.set_right(had + gained);
        }
        self.maximizing_player = !self.maximizing_player;
        self.turn = self.turn + 1;
    }

    /// Counts the move sequences of `depth + 1` plies from this state. With
    /// `depth` 0 that is the number of moves. A state in which the game is
    /// over has no successors. A count beyond the largest `u64` is given as
    /// the largest `u64`.
    pub fn perft(&self, depth: u8) -> (count: u64)
        requires
            self.board.wf(),
            self.turn + depth <= u8::MAX,
        ensures
            count == capped(self.perft_count(depth as nat)),
        decreases depth,
    {
        let legal = self.board.legal_moves(self.maximizing_player);
        if depth == 0 {
            return legal.len() as u64;
        }
        let mut counter: u64 = 0;
        let mut i: usize = 0;
        while i < legal.len()
            invariant
                i <= legal.len(),
                depth > 0,
                self.board.wf(),
                self.turn + depth <= u8::MAX,
                legal@ == self.moves(),
                forall|m: Move| legal@.contains(m) <==> self.board.is_legal(m, self.maximizing_player),
                counter == capped(
                    if self.is_over() {
                        0
                    } else {
                        self.perft_sum(depth as nat, i as int)
                    },
                ),
            decreases legal.len() - i,
        {
            if !self.is_game_over() {
                let mv = legal[i];
                assert(legal@.contains(mv));
                let mut clone = *self;
                clone.apply(&mv);
                counter = counter.saturating_add(clone.perft(depth - 1));
            }
            i += 1;
        }
        counter
    }

    /// The value of a state for the maximizing player: its points less the
    /// other side's.
    pub open spec fn value(self) -> int {
        self.points.left() - self.points.right()
    }

    /// Whether a search of `depth` more plies stops at this state: no depth
    /// is left, the game is over, or the side to move has no move.
    pub open spec fn is_leaf(self, depth: nat) -> bool {
        depth == 0 || self.is_over() || self.moves().len() == 0
    }

    /// The value that a search of `depth` plies finds when both sides play
    /// their best: at a leaf the value of the state, else the largest or the
    /// smallest value among the successors, as `maximizing` says.
    pub open spec fn minimax(self, depth: nat, maximizing: bool) -> int
        decreases depth, 1int, 0int,
    {
        if self.is_leaf(depth) {
            self.value()
        } else {
            self.best_of(depth, maximizing, self.moves().len() as int)
        }
    }

    /// The best value among the first `n` successors, `n` at least 1.
    pub open spec fn best_of(self, depth: nat, maximizing: bool, n: int) -> int
        decreases depth, 0int, n,
    {
        if depth == 0 || n <= 0 || n > self.moves().len() {
            0
        } else {
            let here = self.after(self.moves()[n - 1]).minimax((depth - 1) as nat, !maximizing);
            if n == 1 {
                here
            } else {
                let before = self.best_of(depth, maximizing, n - 1);
                if maximizing == (here > before) {
                    here
                } else {
                    before
                }
            }
        }
    }

    /// A state in which the game is over ends every search: it has no move
    /// sequences of two plies or more, and its value is what the points say.
    pub proof fn lemma_over_is_terminal(self, depth: nat, maximizing: bool)
        requires
            self.is_over(),
        ensures
            depth > 0 ==> self.perft_count(depth) == 0,
            self.minimax(depth, maximizing) == self.value(),
    {
    }

    /// With more successors the best value can only get better.
    pub proof fn lemma_best_of_grows(self, depth: nat, maximizing: bool, n: int, m: int)
        requires
            depth > 0,
            1 <= n <= m <= self.moves().len(),
        ensures
            maximizing ==> self.best_of(depth, maximizing, n) <= self.best_of(depth, maximizing, m),
            !maximizing ==> self.best_of(depth, maximizing, n) >= self.best_of(
                depth,
                maximizing,
                m,
            ),
        decreases m - n,
    {
        if n < m {
            self.lemma_best_of_grows(depth, maximizing, n, m - 1);
        }
    }

    /// The value of the state for the maximizing player.
    pub fn eval(&self) -> (r: i32)
        ensures
            r == self.value(),
            -15 <= r <= 15,
    {
        self.points.get_left() as i32 - self.points.get_right() as i32
    }

    /// How far a node has come after it has tried its first `n` successors,
    /// with the window from `alpha` to `beta` to begin with. Each successor
    /// is searched inside the window that the ones before it have left; its
    /// value betters the best value and narrows the window from the node's
    /// own side. Once the window is empty the node is given up and no
    /// further successor counts.
    pub open spec fn scan(self, depth: nat, alpha: int, beta: int, maximizing: bool, n: int) -> Scan
        decreases depth, 0int, n,
    {
        if depth == 0 || n <= 0 || n > self.moves().len() {
            Scan {
                best: if maximizing {
                    i32::MIN as int
                } else {
                    i32::MAX as int
                },
                lower: alpha,
                upper: beta,
                stopped: false,
            }
        } else {
            let before = self.scan(depth, alpha, beta, maximizing, n - 1);
            if before.stopped {
                before
            } else {
                let v = self.after(self.moves()[n - 1]).search(
                    (depth - 1) as nat,
                    before.lower,
                    before.upper,
                    !maximizing,
                );
                let best = if maximizing == (v > before.best) {
                    v
                } else {
                    before.best
                };
                let lower = if maximizing && v > before.lower {
                    v
                } else {
                    before.lower
                };
                let upper = if !maximizing && v < before.upper {
                    v
                } else {
                    before.upper
                };
                Scan { best, lower, upper, stopped: upper <= lower }
            }
        }
    }

    /// What the search inside the window from `alpha` to `beta` returns: at
    /// a leaf the value of the state, else the best value that the scan of
    /// the successors has found when it ends or is given up.
    pub open spec fn search(self, depth: nat, alpha: int, beta: int, maximizing: bool) -> int
        decreases depth, 1int, 0int,
    {
        if self.is_leaf(depth) {
            self.value()
        } else {
            self.scan(depth, alpha, beta, maximizing, self.moves().len() as int).best
        }
    }

    /// A scan that was given up stays as it is.
    pub proof fn lemma_scan_stopped(
        self,
        depth: nat,
        alpha: int,
        beta: int,
        maximizing: bool,
        n: int,
        m: int,
    )
        requires
            depth > 0,
            1 <= n <= m <= self.moves().len(),
            self.scan(depth, alpha, beta, maximizing, n).stopped,
        ensures
            self.scan(depth, alpha, beta, maximizing, m) == self.scan(
                depth,
                alpha,
                beta,
                maximizing,
                n,
            ),
        decreases m - n,
    {
        if n < m {
            self.lemma_scan_stopped(depth, alpha, beta, maximizing, n, m - 1);
        }
    }

    /// What a scan with a window that is not empty knows after `n`
    /// successors. While it goes on, its best value lies on the near side of
    /// the far bound, the window has been narrowed to the best value, and the
    /// best value is the true best of the successors or, outside the window,
    /// a bound of it. Once it is given up, its best value has crossed the far
    /// bound and the true best of all successors lies beyond it too.
    proof fn lemma_scan(self, depth: nat, alpha: int, beta: int, maximizing: bool, n: int)
        requires
            alpha < beta,
            depth > 0,
            1 <= n <= self.moves().len(),
        ensures
            ({
                let s = self.scan(depth, alpha, beta, maximizing, n);
                let seen = self.best_of(depth, maximizing, n);
                let all = self.best_of(depth, maximizing, self.moves().len() as int);
                if maximizing {
                    &&& !s.stopped ==> s.best < beta && s.upper == beta && s.lower < s.upper
                        && s.lower == (if s.best > alpha {
                        s.best
                    } else {
                        alpha
                    }) && (s.best <= alpha ==> seen <= s.best) && (s.best > alpha ==> seen
                        == s.best)
                    &&& s.stopped ==> s.best >= beta && all >= s.best
                } else {
                    &&& !s.stopped ==> s.best > alpha && s.lower == alpha && s.lower < s.upper
                        && s.upper == (if s.best < beta {
                        s.best
                    } else {
                        beta
                    }) && (s.best >= beta ==> seen >= s.best) && (s.best < beta ==> seen
                        == s.best)
                    &&& s.stopped ==> s.best <= alpha && all <= s.best
                }
            }),
        decreases depth, 0int, n,
    {
        let before = self.scan(depth, alpha, beta, maximizing, n - 1);
        let len = self.moves().len() as int;
        if n > 1 {
            self.lemma_scan(depth, alpha, beta, maximizing, n - 1);
        }
        if !before.stopped {
            let next = self.after(self.moves()[n - 1]);
            next.lemma_search_bounds((depth - 1) as nat, before.lower, before.upper, !maximizing);
            next.lemma_search_range((depth - 1) as nat, before.lower, before.upper, !maximizing);
            if n > 1 {
                self.lemma_scan_range(depth, alpha, beta, maximizing, n - 1);
            }
            self.lemma_best_of_grows(depth, maximizing, n, len);
        }
    }

    /// A search inside a window that is not empty finds the minimax value or
    /// a bound of it: a result inside the window is the minimax value, a
    /// result at or below `alpha` is an upper bound of it, and a result at or
    /// above `beta` a lower bound.
    pub proof fn lemma_search_bounds(self, depth: nat, alpha: int, beta: int, maximizing: bool)
        requires
            alpha < beta,
        ensures
            tells(
                self.search(depth, alpha, beta, maximizing),
                self.minimax(depth, maximizing),
                alpha,
                beta,
            ),
        decreases depth, 1int, 0int,
    {
        if !self.is_leaf(depth) {
            self.lemma_scan(depth, alpha, beta, maximizing, self.moves().len() as int);
        }
    }

    /// Whatever the window, a search returns the value of some state: a
    /// difference of two counters.
    pub proof fn lemma_search_range(self, depth: nat, alpha: int, beta: int, maximizing: bool)
        ensures
            -15 <= self.search(depth, alpha, beta, maximizing) <= 15,
        decreases depth, 1int, 0int,
    {
        self.points.lemma_halves(self.points);
        if !self.is_leaf(depth) {
            self.lemma_scan_range(depth, alpha, beta, maximizing, self.moves().len() as int);
        }
    }

    /// After its first successor a scan holds the value of some state.
    proof fn lemma_scan_range(self, depth: nat, alpha: int, beta: int, maximizing: bool, n: int)
        requires
            depth > 0,
            1 <= n <= self.moves().len(),
        ensures
            -15 <= self.scan(depth, alpha, beta, maximizing, n).best <= 15,
        decreases depth, 0int, n,
    {
        let before = self.scan(depth, alpha, beta, maximizing, n - 1);
        if n > 1 {
            self.lemma_scan_range(depth, alpha, beta, maximizing, n - 1);
        }
        if !before.stopped {
            self.after(self.moves()[n - 1]).lemma_search_range(
                (depth - 1) as nat,
                before.lower,
                before.upper,
                !maximizing,
            );
        }
    }

    /// A search of `depth` plies inside the window from `alpha` to `beta`.
    /// Successors are tried in the order of the move list; each tightens the
    /// window from this node's side, and the node is given up as soon as the
    /// window is empty. `maximizing_player` says whether this node takes the
    /// largest or the smallest of its successors' values; who is to move is
    /// the state's own affair.
    ///
    /// With a window that is not empty to begin with, a result inside the
    /// window is the minimax value, a result at or below `alpha` is an upper
    /// bound of it, and a result at or above `beta` a lower bound.
    pub fn alpha_beta(&self, depth: u8, alpha: i32, beta: i32, maximizing_player: bool) -> (r: i32)
        requires
            self.board.wf(),
            self.turn + depth <= u8::MAX,
        ensures
            r == self.search(depth as nat, alpha as int, beta as int, maximizing_player),
            -15 <= r <= 15,
            alpha < beta ==> tells(
                r as int,
                self.minimax(depth as nat, maximizing_player),
                alpha as int,
                beta as int,
            ),
        decreases depth,
    {
        proof {
            if alpha < beta {
                self.lemma_search_bounds(depth as nat, alpha as int, beta as int, maximizing_player);
            }
        }
        if depth == 0 || self.is_win() {
            return self.eval();
        }
        let legal_moves = self.board.legal_moves(self.maximizing_player);
        if legal_moves.len() == 0 {
            return self.eval();
        }
        let mut lower = alpha;
        let mut upper = beta;
        let ghost d = depth as nat;
        let mut best: i32 = if maximizing_player {
            i32::MIN
        } else {
            i32::MAX
        };
        let mut i: usize = 0;
        while i < legal_moves.len()
            invariant
                i <= legal_moves.len(),
                depth > 0,
                d == depth,
                !self.is_over(),
                self.board.wf(),
                self.turn + depth <= u8::MAX,
                legal_moves@ == self.moves(),
                legal_moves.len() > 0,
                forall|m: Move|
                    legal_moves@.contains(m) <==> self.board.is_legal(m, self.maximizing_player),
                i > 0 ==> -15 <= best <= 15,
                alpha < beta ==> tells(
                    self.search(d, alpha as int, beta as int, maximizing_player),
                    self.minimax(d, maximizing_player),
                    alpha as int,
                    beta as int,
                ),
                self.scan(d, alpha as int, beta as int, maximizing_player, i as int) == (Scan {
                    best: best as int,
                    lower: lower as int,
                    upper: upper as int,
                    stopped: false,
                }),
            decreases legal_moves.len() - i,
        {
            let game_move = legal_moves[i];
            assert(legal_moves@.contains(game_move));
            let mut clone = *self;
            clone.apply(&game_move);
            let eval = clone.alpha_beta(depth - 1, lower, upper, !maximizing_player);
            proof {
                assert(clone == self.after(self.moves()[i as int]));
            }
            if maximizing_player {
                if eval > best {
                    best = eval;
                }
                if eval > lower {
                    lower = eval;
                }
            } else {
                if eval < best {
                    best = eval;
                }
                if eval < upper {
                    upper = eval;
                }
            }
            i += 1;
            if upper <= lower {
                proof {
                    self.lemma_scan_stopped(
                        d,
                        alpha as int,
                        beta as int,
                        maximizing_player,
                        i as int,
                        legal_moves.len() as int,
                    );
                }
                return best;
            }
        }
        best
    }

    /// The point that a piece other than the leaper earns by arriving on one
    /// of the squares of `bitboard`: 1 if the mask holds a square of the far
    /// row of the side to move, else 0.
    pub fn lf_calculate_points(&self, bitboard: Bitboard) -> (r: u8)
        ensures
            r == count(
                exists|sq: int|
                    bitboard.has(sq) && sq / 8 == Board::far_row(self.maximizing_player),
            ),
    {
        let row: u64 = if self.maximizing_player {
            0xFF00000000000000
        } else {
            0xFF
        };
        let hit = bitboard.bits & row;
        proof {
            let far = Board::far_row(self.maximizing_player);
            if hit == 0 {
                assert forall|sq: int| !(bitboard.has(sq) && sq / 8 == far) by {
                    if 0 <= sq < 64 {
                        lemma_far_row(bitboard.bits, sq as u64);
                    }
                }
            } else {
                axiom_u64_trailing_zeros(hit);
                let sq = u64_trailing_zeros(hit) as u64;
                lemma_far_row(bitboard.bits, sq);
                assert(bitboard.has(sq as int) && sq as int / 8 == far);
            }
        }
        if hit != 0 {
            1
        } else {
            0
        }
    }

    /// A move for the side to move, picked by chance from the moves that it
    /// has: none exactly if it has no move.
    pub fn best_move(&mut self) -> (r: Option<Move>)
        ensures
            *final(self) == *old(self),
            r is None <==> old(self).moves().len() == 0,
            r matches Some(m) ==> old(self).board.is_legal(m, old(self).maximizing_player),
    {
        let legal = self.board.legal_moves(self.maximizing_player);
        let index = random_index();
        let r = pick_move(&legal, index);
        proof {
            if legal.len() > 0 {
                let at = index as int % legal.len() as int;
                assert(legal@.contains(legal@[at]));
            }
        }
        r
    }

    /// The value of the `i`-th move for the maximizing player when both
    /// sides play their best for `depth` more plies after it.
    pub open spec fn move_value(self, i: int, depth: nat) -> int {
        self.after(self.moves()[i]).minimax(depth, !self.maximizing_player)
    }

    /// Whether the `i`-th move is the one to choose: no move is better for
    /// the side to move, and every earlier move is worse.
    pub open spec fn is_choice(self, i: int, depth: nat) -> bool {
        &&& 0 <= i < self.moves().len()
        &&& forall|j: int|
            0 <= j < self.moves().len() ==> if self.maximizing_player {
                #[trigger] self.move_value(j, depth) <= self.move_value(i, depth)
            } else {
                #[trigger] self.move_value(j, depth) >= self.move_value(i, depth)
            }
        &&& forall|j: int| 0 <= j < i ==> #[trigger] self.move_value(j, depth) != self.move_value(
            i,
            depth,
        )
    }

    /// The move that a search of `depth` plies behind each move finds best
    /// for the side to move, the first of several that are equally good.
    /// None exactly if the game is over or the side has no move.
    pub fn choose_move(&self, depth: u8) -> (r: Option<Move>)
        requires
            self.board.wf(),
            self.turn + depth < u8::MAX,
        ensures
            r is None <==> (self.is_over() || self.moves().len() == 0),
            r matches Some(m) ==> self.board.is_legal(m, self.maximizing_player) && exists|i: int|
                self.is_choice(i, depth as nat) && self.moves()[i] == m,
    {
        if self.is_game_over() {
            return None;
        }
        let legal = self.board.legal_moves(self.maximizing_player);
        if legal.len() == 0 {
            return None;
        }
        let ghost d = depth as nat;
        let mut best: usize = 0;
        let mut best_value: i32 = 0;
        let mut i: usize = 0;
        while i < legal.len()
            invariant
                i <= legal.len(),
                legal.len() > 0,
                d == depth,
                !self.is_over(),
                self.board.wf(),
                self.turn + depth < u8::MAX,
                legal@ == self.moves(),
                forall|m: Move|
                    legal@.contains(m) <==> self.board.is_legal(m, self.maximizing_player),
                i > 0 ==> best < i && best_value == self.move_value(best as int, d),
                i > 0 ==> forall|j: int|
                    0 <= j < i ==> if self.maximizing_player {
                        #[trigger] self.move_value(j, d) <= best_value
                    } else {
                        #[trigger] self.move_value(j, d) >= best_value
                    },
                i > 0 ==> forall|j: int|
                    0 <= j < best ==> #[trigger] self.move_value(j, d) != best_value,
            decreases legal.len() - i,
        {
            let mv = legal[i];
            assert(legal@.contains(mv));
            let mut next = *self;
            next.apply(&mv);
            let value = next.alpha_beta(depth, i32::MIN, i32::MAX, !self.maximizing_player);
            assert(value == self.move_value(i as int, d));
            let better = if self.maximizing_player {
                value > best_value
            } else {
                value < best_value
            };
            if i == 0 || better {
                best = i;
                best_value = value;
            }
            i += 1;
        }
        proof {
            assert(self.is_choice(best as int, d));
            assert(legal@.contains(legal@[best as int]));
        }
        Some(legal[best])
    }
}

} // verus!
