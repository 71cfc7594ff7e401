use softwarechallenge_2022::game_move::Move;
use softwarechallenge_2022::game_state::GameState;
use softwarechallenge_2022::nibble::Nibble;
use softwarechallenge_2022::piece::{moewe, muschel, robbe, seestern, Piece, PieceType};
use softwarechallenge_2022::team::Team;
use softwarechallenge_2022::vec2::Vec2;

#[test]
fn vec2_new_and_both() {
    let v = Vec2::new(3, -4);
    assert_eq!(v.x, 3);
    assert_eq!(v.y, -4);
    assert_eq!(Vec2::both(7), Vec2::new(7, 7));
}

#[test]
fn vec2_add_adds_components() {
    assert_eq!(Vec2::new(1, 2).add(&Vec2::new(10, -20)), Vec2::new(11, -18));
    assert_eq!(Vec2::new(1, 2) + Vec2::new(-1, -2), Vec2::new(0, 0));
    assert_eq!(Vec2::new(5, 1) - Vec2::new(2, 3), Vec2::new(3, -2));
}

#[test]
fn vec2_min_and_max_go_by_component() {
    let a = Vec2::new(1, 9);
    let b = Vec2::new(4, 2);
    assert_eq!(a.min(b), Vec2::new(1, 2));
    assert_eq!(a.max(b), Vec2::new(4, 9));
    assert_eq!(a.min(a), a);
    assert_eq!(a.max(a), a);
}

#[test]
fn vec2_squares_and_cells() {
    assert_eq!(Vec2::from_pos(0), Vec2::new(7, 0));
    assert_eq!(Vec2::from_pos(7), Vec2::new(0, 0));
    assert_eq!(Vec2::from_pos(12), Vec2::new(3, 1));
    assert_eq!(Vec2::from_pos(63), Vec2::new(0, 7));
    assert_eq!(Vec2::new(3, 1).position(), 12);
    for pos in 0..64u8 {
        assert_eq!(Vec2::from_pos(pos).position(), pos);
    }
}

#[test]
fn nibble_starts_at_zero() {
    let n = Nibble::new();
    assert_eq!(n.get_left(), 0);
    assert_eq!(n.get_right(), 0);
}

#[test]
fn nibble_halves_are_independent() {
    let mut n = Nibble::new();
    n.set_left(2);
    assert_eq!(n.get_left(), 2);
    assert_eq!(n.get_right(), 0);
    n.set_right(15);
    assert_eq!(n.get_left(), 2);
    assert_eq!(n.get_right(), 15);
    n.set_left(9);
    assert_eq!(n.get_left(), 9);
    assert_eq!(n.get_right(), 15);
    n.set_right(0);
    assert_eq!(n.get_left(), 9);
    assert_eq!(n.get_right(), 0);
}

#[test]
fn team_next_is_the_other_side() {
    assert_eq!(Team::ONE.next(), Team::TWO);
    assert_eq!(Team::TWO.next(), Team::ONE);
}

#[test]
fn team_current_alternates() {
    assert_eq!(Team::current(Team::ONE, 0), Team::TWO);
    assert_eq!(Team::current(Team::ONE, 1), Team::ONE);
    assert_eq!(Team::current(Team::ONE, 2), Team::TWO);
    assert_eq!(Team::current(Team::TWO, 3), Team::TWO);
    assert_eq!(Team::current(Team::TWO, 254), Team::ONE);
}

#[test]
fn team_from_name() {
    assert_eq!(Team::from_name(&String::from("ONE")), Some(Team::ONE));
    assert_eq!(Team::from_name(&String::from("TWO")), Some(Team::TWO));
    assert_eq!(Team::from_name(&String::from("one")), None);
    assert_eq!(Team::from_name(&String::new()), None);
}

#[test]
fn piece_type_from_name() {
    assert_eq!(PieceType::piece_type_from_name(&String::from("Moewe")), Some(PieceType::MOEWE));
    assert_eq!(PieceType::piece_type_from_name(&String::from("Robbe")), Some(PieceType::ROBBE));
    assert_eq!(
        PieceType::piece_type_from_name(&String::from("Herzmuschel")),
        Some(PieceType::MUSCHEL)
    );
    assert_eq!(
        PieceType::piece_type_from_name(&String::from("Seestern")),
        Some(PieceType::SEESTERN)
    );
    assert_eq!(PieceType::piece_type_from_name(&String::from("Muschel")), None);
    assert_eq!(PieceType::piece_type_from_name(&String::from("robbe")), None);
}

#[test]
fn piece_type_names() {
    assert_eq!(PieceType::ROBBE.name(), "Robbe");
    assert_eq!(PieceType::MUSCHEL.name(), "Herzmuschel");
    assert_eq!(PieceType::SEESTERN.name(), "Seestern");
    assert_eq!(PieceType::MOEWE.name(), "M\u{f6}we");
}

#[test]
fn piece_new_keeps_its_parts() {
    let p: Piece<2> = Piece::new("Test", &PieceType::MUSCHEL, [Vec2::new(1, 1), Vec2::new(0, 2)]);
    assert_eq!(p.name, "Test");
    assert_eq!(*p.typ, PieceType::MUSCHEL);
    assert_eq!(p.vectors, [Vec2::new(1, 1), Vec2::new(0, 2)]);
}

#[test]
fn the_four_pieces() {
    assert_eq!(*robbe().typ, PieceType::ROBBE);
    assert_eq!(robbe().vectors.len(), 8);
    assert_eq!(robbe().vectors[0], Vec2::new(2, 1));
    assert_eq!(robbe().vectors[7], Vec2::new(2, -1));
    assert_eq!(moewe().vectors, [Vec2::new(1, 0), Vec2::new(0, 1), Vec2::new(-1, 0), Vec2::new(0, -1)]);
    assert_eq!(muschel(true).vectors, [Vec2::new(1, 1), Vec2::new(-1, 1)]);
    assert_eq!(muschel(false).vectors, [Vec2::new(1, -1), Vec2::new(-1, -1)]);
    assert_eq!(
        seestern(true).vectors,
        [Vec2::new(1, 1), Vec2::new(0, 1), Vec2::new(-1, 1), Vec2::new(1, -1), Vec2::new(-1, -1)]
    );
    assert_eq!(
        seestern(false).vectors,
        [Vec2::new(1, -1), Vec2::new(0, -1), Vec2::new(-1, -1), Vec2::new(1, 1), Vec2::new(-1, 1)]
    );
    assert_eq!(seestern(true).name, "Seestern");
    assert_eq!(muschel(true).name, "Herzmuschel");
}

#[test]
fn move_new_caches_the_destination() {
    let m = Move::new(Vec2::new(3, 1), Vec2::new(-1, 2), PieceType::ROBBE);
    assert_eq!(m.origin, Vec2::new(3, 1));
    assert_eq!(m.vector, Vec2::new(-1, 2));
    assert_eq!(m.piece, PieceType::ROBBE);
    assert_eq!(m.result, Vec2::new(2, 3));
}

#[test]
fn move_bits_is_the_destination_cell() {
    let m = Move::new(Vec2::new(3, 1), Vec2::new(-1, 2), PieceType::ROBBE);
    assert_eq!(m.bits().bits, 1u64 << (3 * 8 + 7 - 2));
}

#[test]
fn move_out_of_bounds_on_every_edge() {
    let on = Move::new(Vec2::new(0, 0), Vec2::new(7, 7), PieceType::ROBBE);
    assert!(!on.out_of_bounds());
    assert!(Move::new(Vec2::new(7, 0), Vec2::new(1, 0), PieceType::MOEWE).out_of_bounds());
    assert!(Move::new(Vec2::new(0, 7), Vec2::new(0, 1), PieceType::MOEWE).out_of_bounds());
    assert!(Move::new(Vec2::new(0, 0), Vec2::new(-1, 0), PieceType::MOEWE).out_of_bounds());
    assert!(Move::new(Vec2::new(0, 0), Vec2::new(0, -1), PieceType::MOEWE).out_of_bounds());
}

#[test]
fn move_translate_for_side_one_exchanges_column_and_row() {
    let m = Move::new(Vec2::new(2, 0), Vec2::new(1, 1), PieceType::SEESTERN);
    let t = m.translate(&Team::ONE);
    assert_eq!(t.origin, Vec2::new(0, 2));
    assert_eq!(t.result, Vec2::new(1, 3));
    assert_eq!(t.vector, Vec2::new(1, 1));
    assert_eq!(t.piece, PieceType::SEESTERN);
}

#[test]
fn move_translate_for_side_two_also_turns_the_board_round() {
    let m = Move::new(Vec2::new(2, 0), Vec2::new(1, 1), PieceType::SEESTERN);
    let t = m.translate(&Team::TWO);
    assert_eq!(t.origin, Vec2::new(7, 5));
    assert_eq!(t.result, Vec2::new(6, 4));
    assert_eq!(t.vector, Vec2::new(-1, -1));
    assert_eq!(t.piece, PieceType::SEESTERN);
}

#[test]
fn move_translate_twice_gives_the_move_back() {
    let m = Move::new(Vec2::new(5, 6), Vec2::new(-2, -1), PieceType::ROBBE);
    assert_eq!(m.translate(&Team::ONE).translate(&Team::ONE), m);
    assert_eq!(m.translate(&Team::TWO).translate(&Team::TWO), m);
}

#[test]
fn game_state_starts_empty() {
    let g = GameState::new();
    assert_eq!(g.room_id, "");
    assert_eq!(g.turn, 0);
    assert_eq!(g.board.friendly.bits, 0);
    assert_eq!(g.board.enemy.bits, 0);
}
