use softwarechallenge_2022::bitboard::Bitboard;
use softwarechallenge_2022::board::Board;
use softwarechallenge_2022::placement::Placement;
use softwarechallenge_2022::game_move::Move;
use softwarechallenge_2022::gamestate::{overlaps, pick_move, Gamestate};
use softwarechallenge_2022::nibble::Nibble;
use softwarechallenge_2022::piece::PieceType;
use softwarechallenge_2022::team::Team;
use softwarechallenge_2022::vec2::Vec2;

fn piece(x: u8, y: u8, team: Team, piece: PieceType, stacked: bool) -> Placement {
    Placement { x, y, team, piece, stacked }
}

fn points(left: u8, right: u8) -> Nibble {
    let mut n = Nibble::new();
    n.set_left(left);
    n.set_right(right);
    n
}

/// Both sides have stacks within reach. The maximizing player's pieces are
/// the pieces of the side to move if `mover` is ONE, else the other side's.
fn skirmish(mover: Team) -> Board {
    let one = mover;
    let two = mover.next();
    Board::from_pieces(&vec![
        piece(3, 3, one, PieceType::MOEWE, false),
        piece(3, 4, two, PieceType::ROBBE, true),
        piece(0, 7, two, PieceType::MUSCHEL, false),
        piece(5, 5, two, PieceType::SEESTERN, true),
        piece(4, 3, one, PieceType::SEESTERN, true),
        piece(6, 1, one, PieceType::MUSCHEL, false),
        piece(1, 6, two, PieceType::MOEWE, false),
        piece(4, 4, one, PieceType::MUSCHEL, true),
    ])
}

fn state(board: Board, maximizing_player: bool, left: u8, right: u8) -> Gamestate {
    Gamestate { board, turn: 1, maximizing_player, points: points(left, right) }
}

fn plain_minimax(g: &Gamestate, depth: u8, maximizing: bool) -> i32 {
    let moves = g.board.legal_moves(g.maximizing_player);
    if depth == 0 || g.is_game_over() || moves.is_empty() {
        return g.eval();
    }
    let mut best: Option<i32> = None;
    for m in moves.iter() {
        let mut next = *g;
        next.apply(m);
        let v = plain_minimax(&next, depth - 1, !maximizing);
        best = Some(match best {
            None => v,
            Some(b) => {
                if maximizing {
                    b.max(v)
                } else {
                    b.min(v)
                }
            }
        });
    }
    best.unwrap()
}

#[test]
fn new_default_is_the_start_of_a_game() {
    let g = Gamestate::new_default();
    assert_eq!(g.board, Board::new_default());
    assert_eq!(g.turn, 1);
    assert!(g.maximizing_player);
    assert_eq!(g.scores(), (0, 0));
    assert!(!g.is_game_over());
}

#[test]
fn new_takes_the_board() {
    let b = skirmish(Team::ONE);
    let g = Gamestate::new(b);
    assert_eq!(g.board, b);
    assert_eq!(g.turn, 1);
    assert!(g.maximizing_player);
    assert_eq!(g.scores(), (0, 0));
}

#[test]
fn game_is_over_at_two_points() {
    let b = Board::new_default();
    assert!(!state(b, true, 0, 0).is_game_over());
    assert!(!state(b, true, 1, 1).is_game_over());
    assert!(state(b, true, 2, 0).is_game_over());
    assert!(state(b, true, 0, 2).is_game_over());
    assert!(state(b, false, 3, 1).is_game_over());
    assert!(state(b, true, 2, 0).is_win());
    assert!(!state(b, true, 1, 0).is_win());
}

#[test]
fn eval_is_the_difference_of_the_points() {
    let b = Board::new_default();
    assert_eq!(state(b, true, 0, 0).eval(), 0);
    assert_eq!(state(b, true, 2, 1).eval(), 1);
    assert_eq!(state(b, false, 0, 2).eval(), -2);
    assert_eq!(state(b, false, 15, 0).eval(), 15);
    assert_eq!(state(b, false, 0, 15).eval(), -15);
}

#[test]
fn apply_scores_for_the_mover_and_passes_the_turn() {
    let mut g = state(skirmish(Team::ONE), true, 0, 1);
    let capture = Move::new(Vec2::new(3, 3), Vec2::new(0, 1), PieceType::MOEWE);
    g.apply(&capture);
    assert_eq!(g.scores(), (1, 1));
    assert!(!g.maximizing_player);
    assert_eq!(g.turn, 2);
    assert!(!g.board.enemy.get_at_coords(3, 4));
    assert!(!g.board.friendly.get_at_coords(3, 4));
    assert!(!g.board.double.get_at_coords(3, 4));
}

#[test]
fn apply_scores_for_the_minimizing_player() {
    let mut g = state(skirmish(Team::TWO), false, 0, 0);
    let capture = Move::new(Vec2::new(5, 5), Vec2::new(-1, -1), PieceType::SEESTERN);
    g.apply(&capture);
    assert_eq!(g.scores(), (0, 1));
    assert!(g.maximizing_player);
    assert_eq!(g.turn, 2);
}

#[test]
fn perft_of_the_starting_position() {
    let g = Gamestate::new_default();
    assert_eq!(g.perft(0), 17);
    assert_eq!(g.perft(1), 289);
    assert_eq!(g.perft(2), 5066);
    assert_eq!(g.perft(3), 88804);
}

#[test]
fn perft_is_the_same_every_time() {
    let g = Gamestate::new_default();
    let first = g.perft(2);
    for _ in 0..3 {
        assert_eq!(g.perft(2), first);
    }
}

#[test]
fn perft_one_is_the_sum_over_the_successors() {
    let g = state(skirmish(Team::ONE), true, 0, 0);
    let mut sum = 0;
    for m in g.board.legal_moves(true).iter() {
        let mut next = g;
        next.apply(m);
        sum += next.perft(0);
    }
    assert_eq!(g.perft(1), sum);
    assert_eq!(sum, 158);
}

#[test]
fn perft_of_a_skirmish() {
    let g = state(skirmish(Team::ONE), true, 0, 0);
    assert_eq!(g.perft(0), 11);
    assert_eq!(g.perft(2), 1670);
    assert_eq!(g.perft(3), 22998);
    let h = state(skirmish(Team::TWO), false, 0, 0);
    assert_eq!(h.perft(0), 16);
    assert_eq!(h.perft(1), 175);
    assert_eq!(h.perft(2), 2520);
}

#[test]
fn perft_stops_where_the_game_is_over() {
    let b = skirmish(Team::ONE);
    assert_eq!(state(b, true, 2, 0).perft(0), 11);
    assert_eq!(state(b, true, 2, 0).perft(1), 0);
    assert_eq!(state(b, true, 0, 2).perft(3), 0);
}

#[test]
fn perft_of_a_board_without_pieces() {
    let g = Gamestate::new(Board::new());
    assert_eq!(g.perft(0), 0);
    assert_eq!(g.perft(4), 0);
}

#[test]
fn alpha_beta_of_the_starting_position() {
    let g = Gamestate::new_default();
    for depth in 0..4u8 {
        assert_eq!(g.alpha_beta(depth, i32::MIN, i32::MAX, true), 0);
    }
}

#[test]
fn alpha_beta_finds_the_capture() {
    let g = state(skirmish(Team::ONE), true, 0, 0);
    assert_eq!(g.alpha_beta(0, i32::MIN, i32::MAX, true), 0);
    assert_eq!(g.alpha_beta(1, i32::MIN, i32::MAX, true), 1);
    assert_eq!(g.alpha_beta(2, i32::MIN, i32::MAX, true), 1);
    assert_eq!(g.alpha_beta(3, i32::MIN, i32::MAX, true), 1);
    let h = state(skirmish(Team::TWO), false, 0, 0);
    assert_eq!(h.alpha_beta(1, i32::MIN, i32::MAX, false), -1);
    assert_eq!(h.alpha_beta(2, i32::MIN, i32::MAX, false), 0);
    assert_eq!(h.alpha_beta(3, i32::MIN, i32::MAX, false), 0);
}

#[test]
fn alpha_beta_with_the_full_window_is_minimax() {
    for &(first, maximizing) in [(Team::ONE, true), (Team::TWO, false)].iter() {
        for &(l, r) in [(0u8, 0u8), (1, 0), (0, 1), (1, 1)].iter() {
            let g = state(skirmish(first), maximizing, l, r);
            for depth in 0..4u8 {
                assert_eq!(
                    g.alpha_beta(depth, i32::MIN, i32::MAX, maximizing),
                    plain_minimax(&g, depth, maximizing)
                );
            }
        }
    }
}

#[test]
fn alpha_beta_with_a_narrow_window_bounds_minimax() {
    let g = state(skirmish(Team::ONE), true, 0, 0);
    for depth in 1..4u8 {
        let value = plain_minimax(&g, depth, true);
        for alpha in -3..3 {
            for beta in (alpha + 1)..4 {
                let r = g.alpha_beta(depth, alpha, beta, true);
                if alpha < r && r < beta {
                    assert_eq!(r, value);
                }
                if r <= alpha {
                    assert!(value <= r);
                }
                if r >= beta {
                    assert!(value >= r);
                }
            }
        }
    }
}

#[test]
fn search_treats_a_finished_game_as_a_leaf() {
    let b = skirmish(Team::ONE);
    let g = state(b, true, 2, 1);
    assert!(g.is_game_over());
    assert_eq!(g.alpha_beta(3, i32::MIN, i32::MAX, true), 1);
    assert_eq!(g.perft(3), 0);
}

#[test]
fn search_without_moves_gives_the_value_of_the_state() {
    let g = state(Board::new(), true, 1, 0);
    assert_eq!(g.alpha_beta(3, i32::MIN, i32::MAX, true), 1);
    assert_eq!(g.alpha_beta(3, i32::MIN, i32::MAX, false), 1);
}

#[test]
fn best_move_is_a_legal_move() {
    let mut g = Gamestate::new_default();
    let legal = g.board.legal_moves(true);
    for _ in 0..50 {
        let m = g.best_move().unwrap();
        assert!(legal.contains(&m));
    }
    assert_eq!(g.board, Board::new_default());
}

#[test]
fn best_move_of_a_side_without_moves_is_none() {
    let mut g = Gamestate::new(Board::new());
    assert_eq!(g.best_move(), None);
}

#[test]
fn pick_move_wraps_round_the_list() {
    let legal = Board::new_default().legal_moves(true);
    assert_eq!(pick_move(&legal, 0), Some(legal[0]));
    assert_eq!(pick_move(&legal, 16), Some(legal[16]));
    assert_eq!(pick_move(&legal, 17), Some(legal[0]));
    assert_eq!(pick_move(&legal, 40), Some(legal[6]));
    assert_eq!(pick_move(&Vec::new(), 5), None);
}

#[test]
fn overlaps_is_all_or_nothing() {
    let a = Bitboard::from(0b1100);
    assert_eq!(overlaps(a, Bitboard::from(0b0100)).bits, u64::MAX);
    assert_eq!(overlaps(a, Bitboard::from(0b0011)).bits, 0);
    assert_eq!(overlaps(a, Bitboard::from(0)).bits, 0);
    assert_eq!(overlaps(Bitboard::from(u64::MAX), Bitboard::from(1 << 63)).bits, u64::MAX);
}

#[test]
fn far_row_point_for_each_side() {
    let max = state(Board::new(), true, 0, 0);
    let min = state(Board::new(), false, 0, 0);
    let top = Bitboard::from(1 << 60);
    let bottom = Bitboard::from(1 << 3);
    let middle = Bitboard::from(1 << 30);
    assert_eq!(max.lf_calculate_points(top), 1);
    assert_eq!(max.lf_calculate_points(bottom), 0);
    assert_eq!(max.lf_calculate_points(middle), 0);
    assert_eq!(min.lf_calculate_points(top), 0);
    assert_eq!(min.lf_calculate_points(bottom), 1);
    assert_eq!(min.lf_calculate_points(middle), 0);
    assert_eq!(max.lf_calculate_points(Bitboard::from(0)), 0);
}

#[test]
fn choose_move_takes_the_first_of_the_best() {
    let g = state(skirmish(Team::ONE), true, 0, 0);
    let legal = g.board.legal_moves(true);
    assert_eq!(g.choose_move(0), Some(legal[0]));
    assert_eq!(
        g.choose_move(0),
        Some(Move::new(Vec2::new(3, 3), Vec2::new(0, 1), PieceType::MOEWE))
    );
    assert_eq!(g.choose_move(1), Some(legal[5]));
    assert_eq!(
        g.choose_move(2),
        Some(Move::new(Vec2::new(4, 4), Vec2::new(1, 1), PieceType::MUSCHEL))
    );
}

#[test]
fn choose_move_for_the_minimizing_player() {
    let g = state(skirmish(Team::TWO), false, 0, 0);
    let legal = g.board.legal_moves(false);
    assert_eq!(g.choose_move(0), Some(legal[13]));
    assert_eq!(
        g.choose_move(1),
        Some(Move::new(Vec2::new(5, 5), Vec2::new(-1, -1), PieceType::SEESTERN))
    );
    assert_eq!(
        g.choose_move(2),
        Some(Move::new(Vec2::new(3, 4), Vec2::new(-1, -2), PieceType::ROBBE))
    );
}

#[test]
fn choose_move_of_the_starting_position() {
    let g = Gamestate::new_default();
    assert_eq!(
        g.choose_move(1),
        Some(Move::new(Vec2::new(7, 0), Vec2::new(0, 1), PieceType::MOEWE))
    );
}

#[test]
fn choose_move_is_none_at_the_end() {
    assert_eq!(state(skirmish(Team::ONE), true, 2, 0).choose_move(2), None);
    assert_eq!(state(skirmish(Team::ONE), true, 0, 2).choose_move(0), None);
    assert_eq!(Gamestate::new(Board::new()).choose_move(3), None);
}

#[test]
fn from_pieces_takes_everything_as_given() {
    let pieces = vec![
        piece(3, 3, Team::ONE, PieceType::MOEWE, false),
        piece(3, 4, Team::TWO, PieceType::ROBBE, true),
    ];
    let g = Gamestate::from_pieces(&pieces, false, (1, 0), 17);
    assert_eq!(g.board, Board::from_pieces(&pieces));
    assert!(!g.maximizing_player);
    assert_eq!(g.scores(), (1, 0));
    assert_eq!(g.turn, 17);
}

#[test]
fn apply_anonymous_is_apply_of_the_move_between_the_squares() {
    let mut a = state(skirmish(Team::ONE), true, 1, 0);
    let mut b = a;
    a.apply(&Move::new(Vec2::new(3, 3), Vec2::new(0, 1), PieceType::MOEWE));
    b.apply_anonymous(8 * 3 + 4, 8 * 4 + 4);
    assert_eq!(a.board, b.board);
    assert_eq!(a.scores(), b.scores());
    assert_eq!(b.scores(), (2, 0));
    assert_eq!(a.turn, b.turn);
    assert_eq!(a.maximizing_player, b.maximizing_player);
    assert!(b.is_game_over());
}

fn plain_alpha_beta(g: &Gamestate, depth: u8, alpha: i32, beta: i32, maximizing: bool) -> i32 {
    let moves = g.board.legal_moves(g.maximizing_player);
    if depth == 0 || g.is_game_over() || moves.is_empty() {
        return g.eval();
    }
    let mut alpha = alpha;
    let mut beta = beta;
    let mut best = if maximizing { i32::MIN } else { i32::MAX };
    for m in moves.iter() {
        let mut next = *g;
        next.apply(m);
        let v = plain_alpha_beta(&next, depth - 1, alpha, beta, !maximizing);
        if maximizing {
            best = best.max(v);
            alpha = alpha.max(v);
        } else {
            best = best.min(v);
            beta = beta.min(v);
        }
        if beta <= alpha {
            break;
        }
    }
    best
}

#[test]
fn alpha_beta_follows_the_plain_algorithm_for_every_window() {
    for &(mover, maximizing) in [(Team::ONE, true), (Team::TWO, false)].iter() {
        let g = state(skirmish(mover), maximizing, 0, 1);
        for depth in 0..3u8 {
            for alpha in -2..3 {
                for beta in -2..3 {
                    assert_eq!(
                        g.alpha_beta(depth, alpha, beta, maximizing),
                        plain_alpha_beta(&g, depth, alpha, beta, maximizing)
                    );
                }
            }
        }
    }
}

#[test]
fn alpha_beta_with_an_empty_window_stops_after_the_first_successor() {
    let g = state(skirmish(Team::ONE), true, 0, 0);
    // the first move captures a stack
    assert_eq!(g.alpha_beta(1, 5, 5, true), 1);
    assert_eq!(g.alpha_beta(1, 3, -3, true), 1);
    let h = state(skirmish(Team::TWO), false, 0, 0);
    // the first move of the other side captures nothing
    assert_eq!(h.alpha_beta(1, 0, 0, false), 0);
}
