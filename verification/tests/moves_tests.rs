use softwarechallenge_2022::bitboard::Bitboard;
use softwarechallenge_2022::moves::{
    moewe_gen_moves, muschel_gen_moves, robbe_gen_moves, robbe_lookup, seestern_gen_moves,
    LOOKUP_ROBBEN,
};

fn cell(x: u8, y: u8) -> Bitboard {
    Bitboard::new().set_at_coords(x, y)
}

fn cells(list: &[(u8, u8)]) -> u64 {
    let mut b = Bitboard::new();
    for &(x, y) in list {
        b = b.set_at_coords(x, y);
    }
    b.bits
}

fn reference(from: u64, vectors: &[(i32, i32)]) -> u64 {
    let mut out = Bitboard::new();
    for sq in 0..64i32 {
        if (from >> sq) & 1 == 1 {
            let x = 7 - sq % 8;
            let y = sq / 8;
            for &(dx, dy) in vectors {
                let nx = x + dx;
                let ny = y + dy;
                if nx >= 0 && nx < 8 && ny >= 0 && ny < 8 {
                    out = out.set_at_coords(nx as u8, ny as u8);
                }
            }
        }
    }
    out.bits
}

const KNIGHT: [(i32, i32); 8] =
    [(2, 1), (1, 2), (-1, 2), (-2, 1), (-2, -1), (-1, -2), (1, -2), (2, -1)];
const ORTHOGONAL: [(i32, i32); 4] = [(1, 0), (0, 1), (-1, 0), (0, -1)];

const POPULATIONS: [u64; 6] = [
    0,
    0xFF,
    0xFF00_0000_0000_0000,
    0x8100_0000_0000_0081,
    0x0123_4567_89AB_CDEF,
    0xFFFF_FFFF_FFFF_FFFF,
];

#[test]
fn leaper_in_the_middle_has_eight_jumps() {
    let moves = robbe_gen_moves(cell(3, 3));
    assert_eq!(
        moves.bits,
        cells(&[(5, 4), (4, 5), (2, 5), (1, 4), (1, 2), (2, 1), (4, 1), (5, 2)])
    );
}

#[test]
fn leaper_in_the_corner_has_two_jumps() {
    assert_eq!(robbe_gen_moves(cell(0, 0)).bits, cells(&[(2, 1), (1, 2)]));
    assert_eq!(robbe_gen_moves(cell(7, 7)).bits, cells(&[(5, 6), (6, 5)]));
    assert_eq!(robbe_gen_moves(cell(7, 0)).bits, cells(&[(5, 1), (6, 2)]));
    assert_eq!(robbe_gen_moves(cell(0, 7)).bits, cells(&[(2, 6), (1, 5)]));
}

#[test]
fn leaper_does_not_wrap_round_the_edges() {
    for &from in POPULATIONS.iter() {
        assert_eq!(robbe_gen_moves(Bitboard::from(from)).bits, reference(from, &KNIGHT));
    }
}

#[test]
fn lookup_equals_generator_on_every_square() {
    for pos in 0..64u8 {
        let single = Bitboard::from(1u64 << pos);
        assert_eq!(robbe_lookup(pos).bits, robbe_gen_moves(single).bits);
        assert_eq!(robbe_lookup(pos).bits, LOOKUP_ROBBEN[pos as usize]);
    }
}

#[test]
fn lookup_of_known_squares() {
    assert_eq!(robbe_lookup(0).bits, 0x20400);
    assert_eq!(robbe_lookup(27).bits, 0x142200221400);
    assert_eq!(robbe_lookup(63).bits, 0x20400000000000);
}

#[test]
fn single_step_piece_has_four_steps() {
    assert_eq!(moewe_gen_moves(cell(3, 3), true).bits, cells(&[(4, 3), (3, 4), (2, 3), (3, 2)]));
    assert_eq!(moewe_gen_moves(cell(0, 0), true).bits, cells(&[(1, 0), (0, 1)]));
    assert_eq!(moewe_gen_moves(cell(7, 7), false).bits, cells(&[(6, 7), (7, 6)]));
}

#[test]
fn single_step_piece_is_the_same_for_both_sides() {
    for &from in POPULATIONS.iter() {
        let a = moewe_gen_moves(Bitboard::from(from), true).bits;
        let b = moewe_gen_moves(Bitboard::from(from), false).bits;
        assert_eq!(a, b);
        assert_eq!(a, reference(from, &ORTHOGONAL));
    }
}

#[test]
fn diagonal_piece_steps_forward_only() {
    assert_eq!(muschel_gen_moves(cell(3, 3), true).bits, cells(&[(4, 4), (2, 4)]));
    assert_eq!(muschel_gen_moves(cell(3, 3), false).bits, cells(&[(4, 2), (2, 2)]));
    assert_eq!(muschel_gen_moves(cell(0, 0), true).bits, cells(&[(1, 1)]));
    assert_eq!(muschel_gen_moves(cell(0, 0), false).bits, 0);
    assert_eq!(muschel_gen_moves(cell(7, 7), true).bits, 0);
    assert_eq!(muschel_gen_moves(cell(7, 7), false).bits, cells(&[(6, 6)]));
}

#[test]
fn diagonal_piece_does_not_wrap_round_the_edges() {
    for &from in POPULATIONS.iter() {
        assert_eq!(
            muschel_gen_moves(Bitboard::from(from), true).bits,
            reference(from, &[(1, 1), (-1, 1)])
        );
        assert_eq!(
            muschel_gen_moves(Bitboard::from(from), false).bits,
            reference(from, &[(1, -1), (-1, -1)])
        );
    }
}

#[test]
fn star_piece_has_five_steps() {
    assert_eq!(
        seestern_gen_moves(cell(3, 3), true).bits,
        cells(&[(4, 4), (3, 4), (2, 4), (4, 2), (2, 2)])
    );
    assert_eq!(
        seestern_gen_moves(cell(3, 3), false).bits,
        cells(&[(4, 2), (3, 2), (2, 2), (4, 4), (2, 4)])
    );
    assert_eq!(seestern_gen_moves(cell(0, 0), true).bits, cells(&[(0, 1), (1, 1)]));
    assert_eq!(seestern_gen_moves(cell(0, 0), false).bits, cells(&[(1, 1)]));
}

#[test]
fn star_piece_does_not_wrap_round_the_edges() {
    for &from in POPULATIONS.iter() {
        assert_eq!(
            seestern_gen_moves(Bitboard::from(from), true).bits,
            reference(from, &[(1, 1), (0, 1), (-1, 1), (1, -1), (-1, -1)])
        );
        assert_eq!(
            seestern_gen_moves(Bitboard::from(from), false).bits,
            reference(from, &[(1, -1), (0, -1), (-1, -1), (1, 1), (-1, 1)])
        );
    }
}
