use softwarechallenge_2022::bitboard::Bitboard;
use softwarechallenge_2022::board::Board;
use softwarechallenge_2022::placement::Placement;
use softwarechallenge_2022::game_move::Move;
use softwarechallenge_2022::piece::{moewe, robbe, PieceType};
use softwarechallenge_2022::team::Team;
use softwarechallenge_2022::vec2::Vec2;

fn piece(x: u8, y: u8, team: Team, piece: PieceType, stacked: bool) -> Placement {
    Placement { x, y, team, piece, stacked }
}

fn cell(x: u8, y: u8) -> u64 {
    1u64 << (8 * y + 7 - x)
}

fn in_order(b: &Board) -> bool {
    let occupied = b.friendly.bits | b.enemy.bits;
    let types = [b.robben.bits, b.muscheln.bits, b.seesterne.bits, b.moewen.bits];
    let mut union = 0u64;
    for i in 0..4 {
        for j in (i + 1)..4 {
            if types[i] & types[j] != 0 {
                return false;
            }
        }
        union |= types[i];
    }
    b.friendly.bits & b.enemy.bits == 0 && union == occupied && b.double.bits & !occupied == 0
}

fn pairs(moves: &Vec<Move>) -> Vec<(u8, u8)> {
    let mut out: Vec<(u8, u8)> =
        moves.iter().map(|m| (m.origin.position(), m.result.position())).collect();
    out.sort();
    out
}

#[test]
fn new_board_has_no_pieces() {
    let b = Board::new();
    assert_eq!(b.friendly.bits, 0);
    assert_eq!(b.enemy.bits, 0);
    assert_eq!(b.robben.bits | b.muscheln.bits | b.seesterne.bits | b.moewen.bits, 0);
    assert_eq!(b.double.bits, 0);
    assert!(b.legal_moves(true).is_empty());
    assert!(b.legal_moves(false).is_empty());
}

#[test]
fn starting_position() {
    let b = Board::new_default();
    assert_eq!(b.friendly.bits, 0xFF);
    assert_eq!(b.enemy.bits, 0xFF00_0000_0000_0000);
    assert_eq!(b.muscheln.bits, 0x0C00_0000_0000_0030);
    assert_eq!(b.seesterne.bits, 0x3000_0000_0000_000C);
    assert_eq!(b.robben.bits, 0x4100_0000_0000_0082);
    assert_eq!(b.moewen.bits, 0x8200_0000_0000_0041);
    assert_eq!(b.double.bits, 0);
    assert!(in_order(&b));
}

#[test]
fn piece_at_names_the_type() {
    let b = Board::new_default();
    assert_eq!(b.piece_at(0), Some(PieceType::MOEWE));
    assert_eq!(b.piece_at(1), Some(PieceType::ROBBE));
    assert_eq!(b.piece_at(2), Some(PieceType::SEESTERN));
    assert_eq!(b.piece_at(4), Some(PieceType::MUSCHEL));
    assert_eq!(b.piece_at(63), Some(PieceType::MOEWE));
    assert_eq!(b.piece_at(8), None);
    assert_eq!(b.piece_at(32), None);
}

#[test]
fn symbol_at_draws_the_type_and_the_stack() {
    let b = Board::from_pieces(&vec![
        piece(0, 0, Team::ONE, PieceType::ROBBE, false),
        piece(1, 0, Team::ONE, PieceType::ROBBE, true),
        piece(2, 0, Team::TWO, PieceType::MUSCHEL, false),
        piece(3, 0, Team::TWO, PieceType::MUSCHEL, true),
        piece(4, 0, Team::ONE, PieceType::MOEWE, false),
        piece(5, 0, Team::ONE, PieceType::MOEWE, true),
        piece(6, 0, Team::TWO, PieceType::SEESTERN, false),
        piece(7, 0, Team::TWO, PieceType::SEESTERN, true),
    ]);
    let row: Vec<char> = (0..8u8).rev().map(|pos| b.symbol_at(pos)).collect();
    assert_eq!(row, vec!['r', 'R', 'h', 'H', 'm', 'M', 's', 'S']);
    assert_eq!(b.symbol_at(8), '-');
}

#[test]
fn from_pieces_fills_the_masks() {
    let b = Board::from_pieces(&vec![
        piece(3, 3, Team::ONE, PieceType::MOEWE, false),
        piece(3, 4, Team::TWO, PieceType::SEESTERN, true),
        piece(0, 7, Team::TWO, PieceType::ROBBE, false),
        piece(7, 0, Team::ONE, PieceType::MUSCHEL, true),
    ]);
    assert_eq!(b.friendly.bits, cell(3, 3) | cell(7, 0));
    assert_eq!(b.enemy.bits, cell(3, 4) | cell(0, 7));
    assert_eq!(b.moewen.bits, cell(3, 3));
    assert_eq!(b.seesterne.bits, cell(3, 4));
    assert_eq!(b.robben.bits, cell(0, 7));
    assert_eq!(b.muscheln.bits, cell(7, 0));
    assert_eq!(b.double.bits, cell(3, 4) | cell(7, 0));
    assert!(in_order(&b));
}

#[test]
fn from_pieces_of_nothing_is_the_empty_board() {
    assert_eq!(Board::from_pieces(&Vec::new()), Board::new());
}

#[test]
fn calculate_moves_goes_square_by_square_and_vector_by_vector() {
    let b = Board::from_pieces(&vec![
        piece(0, 0, Team::ONE, PieceType::MOEWE, false),
        piece(1, 0, Team::ONE, PieceType::ROBBE, false),
        piece(7, 7, Team::ONE, PieceType::MOEWE, false),
        piece(7, 6, Team::TWO, PieceType::ROBBE, false),
    ]);
    let moves = moewe().calculate_moves(b.moewen & b.friendly, &b);
    // cell (0, 0) is square 7, cell (7, 7) is square 56
    let expected = vec![
        Move::new(Vec2::new(0, 0), Vec2::new(0, 1), PieceType::MOEWE),
        Move::new(Vec2::new(7, 7), Vec2::new(-1, 0), PieceType::MOEWE),
        Move::new(Vec2::new(7, 7), Vec2::new(0, -1), PieceType::MOEWE),
    ];
    assert_eq!(moves, expected);
    let jumps = robbe().calculate_moves(b.robben & b.friendly, &b);
    assert_eq!(
        jumps,
        vec![
            Move::new(Vec2::new(1, 0), Vec2::new(2, 1), PieceType::ROBBE),
            Move::new(Vec2::new(1, 0), Vec2::new(1, 2), PieceType::ROBBE),
            Move::new(Vec2::new(1, 0), Vec2::new(-1, 2), PieceType::ROBBE),
        ]
    );
}

#[test]
fn starting_position_has_seventeen_moves() {
    let b = Board::new_default();
    let moves = b.legal_moves(true);
    assert_eq!(moves.len(), 17);
    let expected: Vec<(u8, u8)> = vec![
        (0, 8),
        (1, 11),
        (1, 16),
        (1, 18),
        (2, 9),
        (2, 10),
        (2, 11),
        (3, 10),
        (3, 11),
        (3, 12),
        (4, 11),
        (4, 13),
        (5, 12),
        (5, 14),
        (6, 14),
        (7, 13),
        (7, 22),
    ];
    assert_eq!(pairs(&moves), expected);
    for m in moves.iter() {
        assert_eq!(m.result, m.origin + m.vector);
        assert_eq!(b.piece_at(m.origin.position()), Some(m.piece));
    }
}

#[test]
fn starting_position_seen_from_the_other_side() {
    let mut b = Board::new_default();
    b.friendly.swap_with(&mut b.enemy);
    let moves = b.legal_moves(false);
    assert_eq!(moves.len(), 17);
    for m in moves.iter() {
        assert!(m.origin.y == 7);
        assert!(m.result.y < 7);
    }
}

#[test]
fn moves_list_types_in_a_fixed_order() {
    let b = Board::new_default();
    let types: Vec<PieceType> = b.legal_moves(true).iter().map(|m| m.piece).collect();
    let mut expected = Vec::new();
    for _ in 0..2 {
        expected.push(PieceType::MOEWE);
    }
    for _ in 0..5 {
        expected.push(PieceType::ROBBE);
    }
    for _ in 0..4 {
        expected.push(PieceType::MUSCHEL);
    }
    for _ in 0..6 {
        expected.push(PieceType::SEESTERN);
    }
    assert_eq!(types, expected);
}

#[test]
fn captures_are_legal_and_own_squares_are_not() {
    let b = Board::from_pieces(&vec![
        piece(3, 3, Team::ONE, PieceType::MOEWE, false),
        piece(3, 4, Team::TWO, PieceType::SEESTERN, false),
        piece(4, 3, Team::ONE, PieceType::ROBBE, false),
    ]);
    let moves = b.legal_moves(true);
    let steps: Vec<(u8, u8)> = moves
        .iter()
        .filter(|m| m.piece == PieceType::MOEWE)
        .map(|m| (m.result.x as u8, m.result.y as u8))
        .collect();
    assert_eq!(steps, vec![(3, 4), (2, 3), (3, 2)]);
}

#[test]
fn plain_move_to_an_empty_square() {
    let mut b = Board::new_default();
    let m = Move::new(Vec2::new(7, 0), Vec2::new(0, 1), PieceType::MOEWE);
    let points = b.apply(&m, true);
    assert_eq!(points, 0);
    // the sides have exchanged their roles
    assert_eq!(b.friendly.bits, 0xFF00_0000_0000_0000);
    assert_eq!(b.enemy.bits, 0xFE | cell(7, 1));
    assert_eq!(b.moewen.bits, 0x8200_0000_0000_0040 | cell(7, 1));
    assert_eq!(b.robben.bits, 0x4100_0000_0000_0082);
    assert_eq!(b.double.bits, 0);
    assert!(in_order(&b));
}

#[test]
fn capture_of_a_single_piece_replaces_it() {
    let mut b = Board::from_pieces(&vec![
        piece(3, 3, Team::ONE, PieceType::MOEWE, false),
        piece(3, 4, Team::TWO, PieceType::SEESTERN, false),
        piece(0, 7, Team::TWO, PieceType::ROBBE, false),
    ]);
    let m = Move::new(Vec2::new(3, 3), Vec2::new(0, 1), PieceType::MOEWE);
    let points = b.apply(&m, true);
    assert_eq!(points, 0);
    assert_eq!(b.enemy.bits, cell(3, 4));
    assert_eq!(b.friendly.bits, cell(0, 7));
    assert_eq!(b.moewen.bits, cell(3, 4));
    assert_eq!(b.seesterne.bits, 0);
    assert_eq!(b.robben.bits, cell(0, 7));
    assert_eq!(b.muscheln.bits, 0);
    assert_eq!(b.double.bits, 0);
    assert!(in_order(&b));
}

#[test]
fn capture_of_a_piece_of_the_same_type() {
    let mut b = Board::from_pieces(&vec![
        piece(3, 3, Team::ONE, PieceType::MOEWE, false),
        piece(3, 4, Team::TWO, PieceType::MOEWE, false),
    ]);
    let m = Move::new(Vec2::new(3, 3), Vec2::new(0, 1), PieceType::MOEWE);
    assert_eq!(b.apply(&m, true), 0);
    assert_eq!(b.enemy.bits, cell(3, 4));
    assert_eq!(b.friendly.bits, 0);
    assert_eq!(b.moewen.bits, cell(3, 4));
    assert!(in_order(&b));
}

#[test]
fn capture_of_a_stack_clears_the_square_and_scores() {
    let mut b = Board::from_pieces(&vec![
        piece(3, 3, Team::ONE, PieceType::MOEWE, false),
        piece(3, 4, Team::TWO, PieceType::ROBBE, true),
        piece(0, 7, Team::TWO, PieceType::ROBBE, false),
    ]);
    let m = Move::new(Vec2::new(3, 3), Vec2::new(0, 1), PieceType::MOEWE);
    let points = b.apply(&m, true);
    assert_eq!(points, 1);
    assert_eq!(b.enemy.bits, 0);
    assert_eq!(b.friendly.bits, cell(0, 7));
    assert_eq!(b.moewen.bits, 0);
    assert_eq!(b.robben.bits, cell(0, 7));
    assert_eq!(b.double.bits, 0);
    assert!(in_order(&b));
}

#[test]
fn a_stack_moves_as_one() {
    let mut b = Board::from_pieces(&vec![piece(2, 2, Team::ONE, PieceType::SEESTERN, true)]);
    let m = Move::new(Vec2::new(2, 2), Vec2::new(1, 1), PieceType::SEESTERN);
    assert_eq!(b.apply(&m, true), 0);
    assert_eq!(b.enemy.bits, cell(3, 3));
    assert_eq!(b.seesterne.bits, cell(3, 3));
    assert_eq!(b.double.bits, cell(3, 3));
    assert!(in_order(&b));
}

#[test]
fn a_stack_that_captures_a_single_piece_stays_a_stack() {
    let mut b = Board::from_pieces(&vec![
        piece(2, 2, Team::ONE, PieceType::SEESTERN, true),
        piece(3, 3, Team::TWO, PieceType::MUSCHEL, false),
    ]);
    let m = Move::new(Vec2::new(2, 2), Vec2::new(1, 1), PieceType::SEESTERN);
    assert_eq!(b.apply(&m, true), 0);
    assert_eq!(b.enemy.bits, cell(3, 3));
    assert_eq!(b.friendly.bits, 0);
    assert_eq!(b.seesterne.bits, cell(3, 3));
    assert_eq!(b.muscheln.bits, 0);
    assert_eq!(b.double.bits, cell(3, 3));
    assert!(in_order(&b));
}

#[test]
fn a_stack_that_lands_on_a_stack_is_used_up_with_it() {
    let mut b = Board::from_pieces(&vec![
        piece(2, 2, Team::ONE, PieceType::SEESTERN, true),
        piece(3, 3, Team::TWO, PieceType::MUSCHEL, true),
    ]);
    let m = Move::new(Vec2::new(2, 2), Vec2::new(1, 1), PieceType::SEESTERN);
    assert_eq!(b.apply(&m, true), 1);
    assert_eq!(b, Board::new());
}

#[test]
fn a_light_piece_scores_on_the_far_row() {
    let mut b = Board::from_pieces(&vec![piece(3, 6, Team::ONE, PieceType::MUSCHEL, false)]);
    let m = Move::new(Vec2::new(3, 6), Vec2::new(1, 1), PieceType::MUSCHEL);
    assert_eq!(b.apply(&m, true), 1);
    assert_eq!(b.enemy.bits, cell(4, 7));
    assert_eq!(b.muscheln.bits, cell(4, 7));
}

#[test]
fn the_far_row_of_the_other_side_is_row_zero() {
    let mut b = Board::from_pieces(&vec![piece(3, 1, Team::ONE, PieceType::MUSCHEL, false)]);
    let m = Move::new(Vec2::new(3, 1), Vec2::new(1, -1), PieceType::MUSCHEL);
    assert_eq!(b.apply(&m, false), 1);
    let mut c = Board::from_pieces(&vec![piece(3, 6, Team::ONE, PieceType::MOEWE, false)]);
    let up = Move::new(Vec2::new(3, 6), Vec2::new(0, 1), PieceType::MOEWE);
    assert_eq!(c.apply(&up, false), 0);
}

#[test]
fn a_leaper_does_not_score_on_the_far_row() {
    let mut b = Board::from_pieces(&vec![piece(3, 5, Team::ONE, PieceType::ROBBE, false)]);
    let m = Move::new(Vec2::new(3, 5), Vec2::new(1, 2), PieceType::ROBBE);
    assert_eq!(b.apply(&m, true), 0);
    assert_eq!(b.robben.bits, cell(4, 7));
}

#[test]
fn a_stack_captured_on_the_far_row_scores_twice() {
    let mut b = Board::from_pieces(&vec![
        piece(3, 6, Team::ONE, PieceType::MOEWE, false),
        piece(3, 7, Team::TWO, PieceType::ROBBE, true),
    ]);
    let m = Move::new(Vec2::new(3, 6), Vec2::new(0, 1), PieceType::MOEWE);
    assert_eq!(b.apply(&m, true), 2);
    assert_eq!(b, Board::new());
}

#[test]
fn a_leaper_that_captures_a_stack_scores_once() {
    let mut b = Board::from_pieces(&vec![
        piece(3, 5, Team::ONE, PieceType::ROBBE, false),
        piece(4, 7, Team::TWO, PieceType::ROBBE, true),
    ]);
    let m = Move::new(Vec2::new(3, 5), Vec2::new(1, 2), PieceType::ROBBE);
    assert_eq!(b.apply(&m, true), 1);
    assert_eq!(b, Board::new());
}

#[test]
fn apply_anonymous_finds_the_piece() {
    let mut a = Board::new_default();
    let mut b = Board::new_default();
    let m = Move::new(Vec2::new(6, 0), Vec2::new(-1, 2), PieceType::ROBBE);
    let pa = a.apply(&m, true);
    let pb = b.apply_anonymous(1, 18, true);
    assert_eq!(pa, pb);
    assert_eq!(a, b);
    assert_eq!(b.robben.bits, 0x4100_0000_0000_0080 | (1 << 18));
}

#[test]
fn apply_anonymous_scores_like_apply() {
    let mut b = Board::from_pieces(&vec![
        piece(3, 6, Team::ONE, PieceType::MOEWE, false),
        piece(3, 7, Team::TWO, PieceType::ROBBE, true),
    ]);
    assert_eq!(b.apply_anonymous(8 * 6 + 4, 8 * 7 + 4, true), 2);
}

#[test]
fn invariant_holds_along_a_game() {
    let mut b = Board::new_default();
    let mut side = true;
    let mut pick = 7usize;
    for _ in 0..200 {
        let moves = b.legal_moves(side);
        if moves.is_empty() {
            break;
        }
        for m in moves.iter() {
            assert!(!m.out_of_bounds());
            assert!(b.friendly.get(m.origin.position()));
            assert!(!b.friendly.get(m.result.position()));
        }
        pick = pick.wrapping_mul(6364136223846793005).wrapping_add(1442695040888963407);
        let m = moves[(pick >> 33) % moves.len()];
        let points = b.apply(&m, side);
        assert!(points <= 2);
        assert!(in_order(&b));
        side = !side;
    }
}

#[test]
fn no_move_appears_twice() {
    let mut b = Board::new_default();
    let mut side = true;
    for round in 0..40usize {
        let moves = b.legal_moves(side);
        if moves.is_empty() {
            break;
        }
        let mut seen = pairs(&moves);
        let before = seen.len();
        seen.dedup();
        assert_eq!(seen.len(), before);
        let m = moves[(round * 5 + 3) % moves.len()];
        b.apply(&m, side);
        side = !side;
    }
}

#[test]
fn board_turns_every_mask() {
    let mut b = Board::new_default();
    b.rotate180();
    assert_eq!(b.friendly.bits, 0xFF00_0000_0000_0000);
    assert_eq!(b.enemy.bits, 0xFF);
    assert_eq!(b.robben.bits, 0x4100_0000_0000_0082);
    let mut c = Board::new_default();
    c.rotate90_clockwise();
    assert_eq!(c.friendly.bits, Bitboard::from(0xFF).rotate90_clockwise().bits);
    assert_eq!(c.moewen.bits, Bitboard::from(0x8200_0000_0000_0041).rotate90_clockwise().bits);
    c.rotate90_anti_clockwise();
    assert_eq!(c, Board::new_default());
    let mut d = Board::new_default();
    d.flip_horizontal();
    assert_eq!(d.robben.bits, 0x8200_0000_0000_0041);
    assert_eq!(d.moewen.bits, 0x4100_0000_0000_0082);
    assert_eq!(d.friendly.bits, 0xFF);
}

#[test]
fn turn_for_each_side() {
    let start = Board::from_pieces(&vec![
        piece(0, 0, Team::ONE, PieceType::MOEWE, false),
        piece(7, 3, Team::TWO, PieceType::ROBBE, true),
    ]);
    let mut one = start;
    one.turn_for(&Team::ONE);
    assert_eq!(one.friendly.bits, cell(7, 0));
    assert_eq!(one.enemy.bits, cell(4, 7));
    let mut two = start;
    two.turn_for(&Team::TWO);
    assert_eq!(two.enemy.bits, cell(0, 7));
    assert_eq!(two.friendly.bits, cell(3, 0));
    assert_eq!(two.double.bits, cell(3, 0));
}

#[test]
fn destinations_of_a_piece() {
    let b = Board::new_default();
    // the leaper on square 1 stands in column 6 of row 0
    assert_eq!(b.destinations(1, true).bits, cell(4, 1) | cell(7, 2) | cell(5, 2));
    // the star piece on square 2 stands in column 5 of row 0
    assert_eq!(b.destinations(2, true).bits, cell(4, 1) | cell(5, 1) | cell(6, 1));
    assert_eq!(b.destinations(2, false).bits, cell(4, 1) | cell(6, 1));
    assert_eq!(b.destinations(30, true).bits, 0);
    let c = Board::from_pieces(&vec![
        piece(3, 3, Team::ONE, PieceType::MOEWE, false),
        piece(3, 4, Team::TWO, PieceType::SEESTERN, false),
        piece(4, 3, Team::ONE, PieceType::ROBBE, false),
    ]);
    assert_eq!(c.destinations(8 * 3 + 4, true).bits, cell(3, 4) | cell(2, 3) | cell(3, 2));
}

#[test]
fn destinations_are_the_destinations_of_the_legal_moves() {
    let mut b = Board::new_default();
    let mut side = true;
    for round in 0..30usize {
        let moves = b.legal_moves(side);
        if moves.is_empty() {
            break;
        }
        for pos in 0..64u8 {
            let mut expected = 0u64;
            for m in moves.iter() {
                if m.origin.position() == pos {
                    expected |= 1u64 << m.result.position();
                }
            }
            if b.friendly.get(pos) {
                assert_eq!(b.destinations(pos, side).bits, expected);
            }
        }
        let m = moves[(round * 7 + 2) % moves.len()];
        b.apply(&m, side);
        side = !side;
    }
}

#[test]
fn reorient_for_each_side() {
    let start = Board::from_pieces(&vec![
        piece(0, 0, Team::ONE, PieceType::MOEWE, false),
        piece(7, 3, Team::TWO, PieceType::ROBBE, true),
    ]);
    let mut one = start;
    one.reorient(&Team::ONE);
    assert_eq!(one.friendly.bits, cell(0, 0));
    assert_eq!(one.enemy.bits, cell(3, 7));
    assert_eq!(one.double.bits, cell(3, 7));
    assert_eq!(one.robben.bits, cell(3, 7));
    let mut two = start;
    two.reorient(&Team::TWO);
    assert_eq!(two.enemy.bits, cell(7, 7));
    assert_eq!(two.friendly.bits, cell(4, 0));
    assert_eq!(two.moewen.bits, cell(7, 7));
}
