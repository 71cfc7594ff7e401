//! Destination tables of the four piece types.
//!
//! A generator takes the squares that pieces of one type stand on and gives
//! the squares that they reach in one move, own pieces not yet taken out.
//! Shifts that would cross the left or right edge are masked off first. The
//! side that plays from row 0 towards row 7 is the maximizing player; the
//! other side's forward moves are the same moves mirrored in the midline.
use crate::bitboard::{on_grid, square, Bitboard};
use vstd::prelude::*;

verus! {

/// All squares but those of one file. File A is the lowest bit of every row,
/// file H the highest.
pub const NOT_FILE_A: u64 = 0xFEFEFEFEFEFEFEFE;

pub const NOT_FILE_B: u64 = 0xFDFDFDFDFDFDFDFD;

pub const NOT_FILE_G: u64 = 0xBFBFBFBFBFBFBFBF;

pub const NOT_FILE_H: u64 = 0x7F7F7F7F7F7F7F7F;

/// The leaper's destinations from each single square.
pub const LOOKUP_ROBBEN: [u64; 64] = [
    0x20400,
    0x50800,
    0xA1100,
    0x142200,
    0x284400,
    0x508800,
    0xA01000,
    0x402000,
    0x2040004,
    0x5080008,
    0xA110011,
    0x14220022,
    0x28440044,
    0x50880088,
    0xA0100010,
    0x40200020,
    0x204000402,
    0x508000805,
    0xA1100110A,
    0x1422002214,
    0x2844004428,
    0x5088008850,
    0xA0100010A0,
    0x4020002040,
    0x20400040200,
    0x50800080500,
    0xA1100110A00,
    0x142200221400,
    0x284400442800,
    0x508800885000,
    0xA0100010A000,
    0x402000204000,
    0x2040004020000,
    0x5080008050000,
    0xA1100110A0000,
    0x14220022140000,
    0x28440044280000,
    0x50880088500000,
    0xA0100010A00000,
    0x40200020400000,
    0x204000402000000,
    0x508000805000000,
    0xA1100110A000000,
    0x1422002214000000,
    0x2844004428000000,
    0x5088008850000000,
    0xA0100010A0000000,
    0x4020002040000000,
    0x400040200000000,
    0x800080500000000,
    0x1100110A00000000,
    0x2200221400000000,
    0x4400442800000000,
    0x8800885000000000,
    0x100010A000000000,
    0x2000204000000000,
    0x4020000000000,
    0x8050000000000,
    0x110A0000000000,
    0x22140000000000,
    0x44280000000000,
    0x88500000000000,
    0x10A00000000000,
    0x20400000000000,
];

/// The leaper's eight jumps, by shifts.
pub open spec fn robbe_bits(loc: u64) -> u64 {
    ((loc & (NOT_FILE_A & NOT_FILE_B)) << 6) | ((loc & NOT_FILE_A) << 15) | ((loc & NOT_FILE_H)
        << 17) | ((loc & (NOT_FILE_H & NOT_FILE_G)) << 10) | ((loc & (NOT_FILE_H & NOT_FILE_G))
        >> 6) | ((loc & NOT_FILE_H) >> 15) | ((loc & NOT_FILE_A) >> 17) | ((loc & (NOT_FILE_A
        & NOT_FILE_B)) >> 10)
}

/// The four steps along a row or a column, by shifts.
pub open spec fn moewe_bits(loc: u64) -> u64 {
    (loc << 8) | ((loc & NOT_FILE_H) << 1) | (loc >> 8) | ((loc & NOT_FILE_A) >> 1)
}

/// The two diagonal steps forward, by shifts.
pub open spec fn muschel_bits(loc: u64, maximizing_player: bool) -> u64 {
    if maximizing_player {
        ((loc & NOT_FILE_A) << 7) | ((loc & NOT_FILE_H) << 9)
    } else {
        ((loc & NOT_FILE_H) >> 7) | ((loc & NOT_FILE_A) >> 9)
    }
}

/// The step forward and the four diagonal steps, by shifts.
pub open spec fn seestern_bits(loc: u64, maximizing_player: bool) -> u64 {
    if maximizing_player {
        ((loc & NOT_FILE_A) << 7) | (loc << 8) | ((loc & NOT_FILE_H) << 9) | ((loc & NOT_FILE_H)
            >> 7) | ((loc & NOT_FILE_A) >> 9)
    } else {
        ((loc & NOT_FILE_H) >> 7) | (loc >> 8) | ((loc & NOT_FILE_A) >> 9) | ((loc & NOT_FILE_A)
            << 7) | ((loc & NOT_FILE_H) << 9)
    }
}

/// One row towards the far side: up for the maximizing player, down for the
/// other.
pub open spec fn forward(maximizing_player: bool) -> int {
    if maximizing_player {
        1
    } else {
        -1
    }
}

/// Whether a leaper on one of `from`'s squares can jump to column `x` of
/// row `y`.
pub open spec fn robbe_reaches(from: Bitboard, x: int, y: int) -> bool {
    from.at(x - 2, y - 1) || from.at(x - 1, y - 2) || from.at(x + 1, y - 2) || from.at(
        x + 2,
        y - 1,
    ) || from.at(x + 2, y + 1) || from.at(x + 1, y + 2) || from.at(x - 1, y + 2) || from.at(
        x - 2,
        y + 1,
    )
}

/// Whether a single-step piece on one of `from`'s squares can step to
/// column `x` of row `y`.
pub open spec fn moewe_reaches(from: Bitboard, x: int, y: int) -> bool {
    from.at(x - 1, y) || from.at(x, y - 1) || from.at(x + 1, y) || from.at(x, y + 1)
}

/// Whether a piece that steps diagonally forward can step from one of
/// `from`'s squares to column `x` of row `y`.
pub open spec fn muschel_reaches(from: Bitboard, maximizing_player: bool, x: int, y: int) -> bool {
    let f = forward(maximizing_player);
    from.at(x - 1, y - f) || from.at(x + 1, y - f)
}

/// Whether a piece that steps forward or along any diagonal can step from
/// one of `from`'s squares to column `x` of row `y`.
pub open spec fn seestern_reaches(from: Bitboard, maximizing_player: bool, x: int, y: int) -> bool {
    let f = forward(maximizing_player);
    from.at(x - 1, y - f) || from.at(x, y - f) || from.at(x + 1, y - f) || from.at(x - 1, y + f)
        || from.at(x + 1, y + f)
}

proof fn lemma_leaper_bit(s: u64, sq: u64)
    by (bit_vector)
    requires
        sq < 64,
    ensures
        (robbe_bits(s) >> sq) & 1 == 1 <==> ((sq % 8 <= 5 && sq / 8 >= 1 && (s >> ((sq - 6) as u64)) & 1 == 1)
            || (sq % 8 <= 6 && sq / 8 >= 2 && (s >> ((sq - 15) as u64)) & 1 == 1)
            || (sq % 8 >= 1 && sq / 8 >= 2 && (s >> ((sq - 17) as u64)) & 1 == 1)
            || (sq % 8 >= 2 && sq / 8 >= 1 && (s >> ((sq - 10) as u64)) & 1 == 1)
            || (sq % 8 >= 2 && sq / 8 <= 6 && (s >> ((sq + 6) as u64)) & 1 == 1)
            || (sq % 8 >= 1 && sq / 8 <= 5 && (s >> ((sq + 15) as u64)) & 1 == 1)
            || (sq % 8 <= 6 && sq / 8 <= 5 && (s >> ((sq + 17) as u64)) & 1 == 1)
            || (sq % 8 <= 5 && sq / 8 <= 6 && (s >> ((sq + 10) as u64)) & 1 == 1)),
{
}

proof fn lemma_stepper_bits(s: u64, sq: u64)
    by (bit_vector)
    requires
        sq < 64,
    ensures
        (moewe_bits(s) >> sq) & 1 == 1 <==> ((sq % 8 <= 6 && (s >> ((sq + 1) as u64)) & 1 == 1)
            || (sq / 8 >= 1 && (s >> ((sq - 8) as u64)) & 1 == 1)
            || (sq % 8 >= 1 && (s >> ((sq - 1) as u64)) & 1 == 1)
            || (sq / 8 <= 6 && (s >> ((sq + 8) as u64)) & 1 == 1)),
        (muschel_bits(s, true) >> sq) & 1 == 1 <==> ((sq % 8 <= 6 && sq / 8 >= 1 && (s >> ((sq - 7) as u64)) & 1 == 1)
            || (sq % 8 >= 1 && sq / 8 >= 1 && (s >> ((sq - 9) as u64)) & 1 == 1)),
        (muschel_bits(s, false) >> sq) & 1 == 1 <==> ((sq % 8 <= 6 && sq / 8 <= 6 && (s >> ((sq + 9) as u64)) & 1 == 1)
            || (sq % 8 >= 1 && sq / 8 <= 6 && (s >> ((sq + 7) as u64)) & 1 == 1)),
        (seestern_bits(s, true) >> sq) & 1 == 1 <==> ((sq % 8 <= 6 && sq / 8 >= 1 && (s >> ((sq - 7) as u64)) & 1 == 1)
            || (sq / 8 >= 1 && (s >> ((sq - 8) as u64)) & 1 == 1)
            || (sq % 8 >= 1 && sq / 8 >= 1 && (s >> ((sq - 9) as u64)) & 1 == 1)
            || (sq % 8 <= 6 && sq / 8 <= 6 && (s >> ((sq + 9) as u64)) & 1 == 1)
            || (sq % 8 >= 1 && sq / 8 <= 6 && (s >> ((sq + 7) as u64)) & 1 == 1)),
        (seestern_bits(s, false) >> sq) & 1 == 1 <==> ((sq % 8 <= 6 && sq / 8 <= 6 && (s >> ((sq + 9) as u64)) & 1 == 1)
            || (sq / 8 <= 6 && (s >> ((sq + 8) as u64)) & 1 == 1)
            || (sq % 8 >= 1 && sq / 8 <= 6 && (s >> ((sq + 7) as u64)) & 1 == 1)
            || (sq % 8 <= 6 && sq / 8 >= 1 && (s >> ((sq - 7) as u64)) & 1 == 1)
            || (sq % 8 >= 1 && sq / 8 >= 1 && (s >> ((sq - 9) as u64)) & 1 == 1)),
{
}

/// What the shift generators' masks hold, cell by cell: a cell is reached
/// where one of the piece's moves leads to it from a cell of `from`.
pub proof fn lemma_generator_cells(from: Bitboard, maximizing_player: bool)
    ensures
        forall|x: int, y: int|
            on_grid(x, y) ==> #[trigger] (Bitboard { bits: robbe_bits(from.bits) }).at(x, y)
                == robbe_reaches(from, x, y),
        forall|x: int, y: int|
            on_grid(x, y) ==> #[trigger] (Bitboard { bits: moewe_bits(from.bits) }).at(x, y)
                == moewe_reaches(from, x, y),
        forall|x: int, y: int|
            on_grid(x, y) ==> #[trigger] (Bitboard {
                bits: muschel_bits(from.bits, maximizing_player),
            }).at(x, y) == muschel_reaches(from, maximizing_player, x, y),
        forall|x: int, y: int|
            on_grid(x, y) ==> #[trigger] (Bitboard {
                bits: seestern_bits(from.bits, maximizing_player),
            }).at(x, y) == seestern_reaches(from, maximizing_player, x, y),
{
    assert forall|x: int, y: int| on_grid(x, y) implies #[trigger] (Bitboard {
        bits: robbe_bits(from.bits),
    }).at(x, y) == robbe_reaches(from, x, y) by {
        lemma_leaper_bit(from.bits, square(x, y) as u64);
    }
    assert forall|x: int, y: int| on_grid(x, y) implies #[trigger] (Bitboard {
        bits: moewe_bits(from.bits),
    }).at(x, y) == moewe_reaches(from, x, y) by {
        lemma_stepper_bits(from.bits, square(x, y) as u64);
    }
    assert forall|x: int, y: int| on_grid(x, y) implies #[trigger] (Bitboard {
        bits: muschel_bits(from.bits, maximizing_player),
    }).at(x, y) == muschel_reaches(from, maximizing_player, x, y) by {
        lemma_stepper_bits(from.bits, square(x, y) as u64);
    }
    assert forall|x: int, y: int| on_grid(x, y) implies #[trigger] (Bitboard {
        bits: seestern_bits(from.bits, maximizing_player),
    }).at(x, y) == seestern_reaches(from, maximizing_player, x, y) by {
        lemma_stepper_bits(from.bits, square(x, y) as u64);
    }
}

proof fn lemma_leaper_jumps()
    by (bit_vector)
    ensures
        robbe_bits(1u64 << 0u64) == 0x20400u64,
        robbe_bits(1u64 << 1u64) == 0x50800u64,
        robbe_bits(1u64 << 2u64) == 0xA1100u64,
        robbe_bits(1u64 << 3u64) == 0x142200u64,
        robbe_bits(1u64 << 4u64) == 0x284400u64,
        robbe_bits(1u64 << 5u64) == 0x508800u64,
        robbe_bits(1u64 << 6u64) == 0xA01000u64,
        robbe_bits(1u64 << 7u64) == 0x402000u64,
        robbe_bits(1u64 << 8u64) == 0x2040004u64,
        robbe_bits(1u64 << 9u64) == 0x5080008u64,
        robbe_bits(1u64 << 10u64) == 0xA110011u64,
        robbe_bits(1u64 << 11u64) == 0x14220022u64,
        robbe_bits(1u64 << 12u64) == 0x28440044u64,
        robbe_bits(1u64 << 13u64) == 0x50880088u64,
        robbe_bits(1u64 << 14u64) == 0xA0100010u64,
        robbe_bits(1u64 << 15u64) == 0x40200020u64,
        robbe_bits(1u64 << 16u64) == 0x204000402u64,
        robbe_bits(1u64 << 17u64) == 0x508000805u64,
        robbe_bits(1u64 << 18u64) == 0xA1100110Au64,
        robbe_bits(1u64 << 19u64) == 0x1422002214u64,
        robbe_bits(1u64 << 20u64) == 0x2844004428u64,
        robbe_bits(1u64 << 21u64) == 0x5088008850u64,
        robbe_bits(1u64 << 22u64) == 0xA0100010A0u64,
        robbe_bits(1u64 << 23u64) == 0x4020002040u64,
        robbe_bits(1u64 << 24u64) == 0x20400040200u64,
        robbe_bits(1u64 << 25u64) == 0x50800080500u64,
        robbe_bits(1u64 << 26u64) == 0xA1100110A00u64,
        robbe_bits(1u64 << 27u64) == 0x142200221400u64,
        robbe_bits(1u64 << 28u64) == 0x284400442800u64,
        robbe_bits(1u64 << 29u64) == 0x508800885000u64,
        robbe_bits(1u64 << 30u64) == 0xA0100010A000u64,
        robbe_bits(1u64 << 31u64) == 0x402000204000u64,
        robbe_bits(1u64 << 32u64) == 0x2040004020000u64,
        robbe_bits(1u64 << 33u64) == 0x5080008050000u64,
        robbe_bits(1u64 << 34u64) == 0xA1100110A0000u64,
        robbe_bits(1u64 << 35u64) == 0x14220022140000u64,
        robbe_bits(1u64 << 36u64) == 0x28440044280000u64,
        robbe_bits(1u64 << 37u64) == 0x50880088500000u64,
        robbe_bits(1u64 << 38u64) == 0xA0100010A00000u64,
        robbe_bits(1u64 << 39u64) == 0x40200020400000u64,
        robbe_bits(1u64 << 40u64) == 0x204000402000000u64,
        robbe_bits(1u64 << 41u64) == 0x508000805000000u64,
        robbe_bits(1u64 << 42u64) == 0xA1100110A000000u64,
        robbe_bits(1u64 << 43u64) == 0x1422002214000000u64,
        robbe_bits(1u64 << 44u64) == 0x2844004428000000u64,
        robbe_bits(1u64 << 45u64) == 0x5088008850000000u64,
        robbe_bits(1u64 << 46u64) == 0xA0100010A0000000u64,
        robbe_bits(1u64 << 47u64) == 0x4020002040000000u64,
        robbe_bits(1u64 << 48u64) == 0x400040200000000u64,
        robbe_bits(1u64 << 49u64) == 0x800080500000000u64,
        robbe_bits(1u64 << 50u64) == 0x1100110A00000000u64,
        robbe_bits(1u64 << 51u64) == 0x2200221400000000u64,
        robbe_bits(1u64 << 52u64) == 0x4400442800000000u64,
        robbe_bits(1u64 << 53u64) == 0x8800885000000000u64,
        robbe_bits(1u64 << 54u64) == 0x100010A000000000u64,
        robbe_bits(1u64 << 55u64) == 0x2000204000000000u64,
        robbe_bits(1u64 << 56u64) == 0x4020000000000u64,
        robbe_bits(1u64 << 57u64) == 0x8050000000000u64,
        robbe_bits(1u64 << 58u64) == 0x110A0000000000u64,
        robbe_bits(1u64 << 59u64) == 0x22140000000000u64,
        robbe_bits(1u64 << 60u64) == 0x44280000000000u64,
        robbe_bits(1u64 << 61u64) == 0x88500000000000u64,
        robbe_bits(1u64 << 62u64) == 0x10A00000000000u64,
        robbe_bits(1u64 << 63u64) == 0x20400000000000u64,
{
}

/// The table's entry for a square is what the shift generator gives for the
/// board that holds that square alone.
pub proof fn lemma_lookup_matches_generator(pos: int)
    requires
        0 <= pos < 64,
    ensures
        LOOKUP_ROBBEN[pos] == robbe_bits(1u64 << (pos as u64)),
{
    lemma_leaper_jumps();
    if pos == 0 {
        assert(LOOKUP_ROBBEN[0] == 0x20400u64);
        assert(1u64 << (pos as u64) == 1u64 << 0u64);
    }
    if pos == 1 {
        assert(LOOKUP_ROBBEN[1] == 0x50800u64);
        assert(1u64 << (pos as u64) == 1u64 << 1u64);
    }
    if pos == 2 {
        assert(LOOKUP_ROBBEN[2] == 0xA1100u64);
        assert(1u64 << (pos as u64) == 1u64 << 2u64);
    }
    if pos == 3 {
        assert(LOOKUP_ROBBEN[3] == 0x142200u64);
        assert(1u64 << (pos as u64) == 1u64 << 3u64);
    }
    if pos == 4 {
        assert(LOOKUP_ROBBEN[4] == 0x284400u64);
        assert(1u64 << (pos as u64) == 1u64 << 4u64);
    }
    if pos == 5 {
        assert(LOOKUP_ROBBEN[5] == 0x508800u64);
        assert(1u64 << (pos as u64) == 1u64 << 5u64);
    }
    if pos == 6 {
        assert(LOOKUP_ROBBEN[6] == 0xA01000u64);
        assert(1u64 << (pos as u64) == 1u64 << 6u64);
    }
    if pos == 7 {
        assert(LOOKUP_ROBBEN[7] == 0x402000u64);
        assert(1u64 << (pos as u64) == 1u64 << 7u64);
    }
    if pos == 8 {
        assert(LOOKUP_ROBBEN[8] == 0x2040004u64);
        assert(1u64 << (pos as u64) == 1u64 << 8u64);
    }
    if pos == 9 {
        assert(LOOKUP_ROBBEN[9] == 0x5080008u64);
        assert(1u64 << (pos as u64) == 1u64 << 9u64);
    }
    if pos == 10 {
        assert(LOOKUP_ROBBEN[10] == 0xA110011u64);
        assert(1u64 << (pos as u64) == 1u64 << 10u64);
    }
    if pos == 11 {
        assert(LOOKUP_ROBBEN[11] == 0x14220022u64);
        assert(1u64 << (pos as u64) == 1u64 << 11u64);
    }
    if pos == 12 {
        assert(LOOKUP_ROBBEN[12] == 0x28440044u64);
        assert(1u64 << (pos as u64) == 1u64 << 12u64);
    }
    if pos == 13 {
        assert(LOOKUP_ROBBEN[13] == 0x50880088u64);
        assert(1u64 << (pos as u64) == 1u64 << 13u64);
    }
    if pos == 14 {
        assert(LOOKUP_ROBBEN[14] == 0xA0100010u64);
        assert(1u64 << (pos as u64) == 1u64 << 14u64);
    }
    if pos == 15 {
        assert(LOOKUP_ROBBEN[15] == 0x40200020u64);
        assert(1u64 << (pos as u64) == 1u64 << 15u64);
    }
    if pos == 16 {
        assert(LOOKUP_ROBBEN[16] == 0x204000402u64);
        assert(1u64 << (pos as u64) == 1u64 << 16u64);
    }
    if pos == 17 {
        assert(LOOKUP_ROBBEN[17] == 0x508000805u64);
        assert(1u64 << (pos as u64) == 1u64 << 17u64);
    }
    if pos == 18 {
        assert(LOOKUP_ROBBEN[18] == 0xA1100110Au64);
        assert(1u64 << (pos as u64) == 1u64 << 18u64);
    }
    if pos == 19 {
        assert(LOOKUP_ROBBEN[19] == 0x1422002214u64);
        assert(1u64 << (pos as u64) == 1u64 << 19u64);
    }
    if pos == 20 {
        assert(LOOKUP_ROBBEN[20] == 0x2844004428u64);
        assert(1u64 << (pos as u64) == 1u64 << 20u64);
    }
    if pos == 21 {
        assert(LOOKUP_ROBBEN[21] == 0x5088008850u64);
        assert(1u64 << (pos as u64) == 1u64 << 21u64);
    }
    if pos == 22 {
        assert(LOOKUP_ROBBEN[22] == 0xA0100010A0u64);
        assert(1u64 << (pos as u64) == 1u64 << 22u64);
    }
    if pos == 23 {
        assert(LOOKUP_ROBBEN[23] == 0x4020002040u64);
        assert(1u64 << (pos as u64) == 1u64 << 23u64);
    }
    if pos == 24 {
        assert(LOOKUP_ROBBEN[24] == 0x20400040200u64);
        assert(1u64 << (pos as u64) == 1u64 << 24u64);
    }
    if pos == 25 {
        assert(LOOKUP_ROBBEN[25] == 0x50800080500u64);
        assert(1u64 << (pos as u64) == 1u64 << 25u64);
    }
    if pos == 26 {
        assert(LOOKUP_ROBBEN[26] == 0xA1100110A00u64);
        assert(1u64 << (pos as u64) == 1u64 << 26u64);
    }
    if pos == 27 {
        assert(LOOKUP_ROBBEN[27] == 0x142200221400u64);
        assert(1u64 << (pos as u64) == 1u64 << 27u64);
    }
    if pos == 28 {
        assert(LOOKUP_ROBBEN[28] == 0x284400442800u64);
        assert(1u64 << (pos as u64) == 1u64 << 28u64);
    }
    if pos == 29 {
        assert(LOOKUP_ROBBEN[29] == 0x508800885000u64);
        assert(1u64 << (pos as u64) == 1u64 << 29u64);
    }
    if pos == 30 {
        assert(LOOKUP_ROBBEN[30] == 0xA0100010A000u64);
        assert(1u64 << (pos as u64) == 1u64 << 30u64);
    }
    if pos == 31 {
        assert(LOOKUP_ROBBEN[31] == 0x402000204000u64);
        assert(1u64 << (pos as u64) == 1u64 << 31u64);
    }
    if pos == 32 {
        assert(LOOKUP_ROBBEN[32] == 0x2040004020000u64);
        assert(1u64 << (pos as u64) == 1u64 << 32u64);
    }
    if pos == 33 {
        assert(LOOKUP_ROBBEN[33] == 0x5080008050000u64);
        assert(1u64 << (pos as u64) == 1u64 << 33u64);
    }
    if pos == 34 {
        assert(LOOKUP_ROBBEN[34] == 0xA1100110A0000u64);
        assert(1u64 << (pos as u64) == 1u64 << 34u64);
    }
    if pos == 35 {
        assert(LOOKUP_ROBBEN[35] == 0x14220022140000u64);
        assert(1u64 << (pos as u64) == 1u64 << 35u64);
    }
    if pos == 36 {
        assert(LOOKUP_ROBBEN[36] == 0x28440044280000u64);
        assert(1u64 << (pos as u64) == 1u64 << 36u64);
    }
    if pos == 37 {
        assert(LOOKUP_ROBBEN[37] == 0x50880088500000u64);
        assert(1u64 << (pos as u64) == 1u64 << 37u64);
    }
    if pos == 38 {
        assert(LOOKUP_ROBBEN[38] == 0xA0100010A00000u64);
        assert(1u64 << (pos as u64) == 1u64 << 38u64);
    }
    if pos == 39 {
        assert(LOOKUP_ROBBEN[39] == 0x40200020400000u64);
        assert(1u64 << (pos as u64) == 1u64 << 39u64);
    }
    if pos == 40 {
        assert(LOOKUP_ROBBEN[40] == 0x204000402000000u64);
        assert(1u64 << (pos as u64) == 1u64 << 40u64);
    }
    if pos == 41 {
        assert(LOOKUP_ROBBEN[41] == 0x508000805000000u64);
        assert(1u64 << (pos as u64) == 1u64 << 41u64);
    }
    if pos == 42 {
        assert(LOOKUP_ROBBEN[42] == 0xA1100110A000000u64);
        assert(1u64 << (pos as u64) == 1u64 << 42u64);
    }
    if pos == 43 {
        assert(LOOKUP_ROBBEN[43] == 0x1422002214000000u64);
        assert(1u64 << (pos as u64) == 1u64 << 43u64);
    }
    if pos == 44 {
        assert(LOOKUP_ROBBEN[44] == 0x2844004428000000u64);
        assert(1u64 << (pos as u64) == 1u64 << 44u64);
    }
    if pos == 45 {
        assert(LOOKUP_ROBBEN[45] == 0x5088008850000000u64);
        assert(1u64 << (pos as u64) == 1u64 << 45u64);
    }
    if pos == 46 {
        assert(LOOKUP_ROBBEN[46] == 0xA0100010A0000000u64);
        assert(1u64 << (pos as u64) == 1u64 << 46u64);
    }
    if pos == 47 {
        assert(LOOKUP_ROBBEN[47] == 0x4020002040000000u64);
        assert(1u64 << (pos as u64) == 1u64 << 47u64);
    }
    if pos == 48 {
        assert(LOOKUP_ROBBEN[48] == 0x400040200000000u64);
        assert(1u64 << (pos as u64) == 1u64 << 48u64);
    }
    if pos == 49 {
        assert(LOOKUP_ROBBEN[49] == 0x800080500000000u64);
        assert(1u64 << (pos as u64) == 1u64 << 49u64);
    }
    if pos == 50 {
        assert(LOOKUP_ROBBEN[50] == 0x1100110A00000000u64);
        assert(1u64 << (pos as u64) == 1u64 << 50u64);
    }
    if pos == 51 {
        assert(LOOKUP_ROBBEN[51] == 0x2200221400000000u64);
        assert(1u64 << (pos as u64) == 1u64 << 51u64);
    }
    if pos == 52 {
        assert(LOOKUP_ROBBEN[52] == 0x4400442800000000u64);
        assert(1u64 << (pos as u64) == 1u64 << 52u64);
    }
    if pos == 53 {
        assert(LOOKUP_ROBBEN[53] == 0x8800885000000000u64);
        assert(1u64 << (pos as u64) == 1u64 << 53u64);
    }
    if pos == 54 {
        assert(LOOKUP_ROBBEN[54] == 0x100010A000000000u64);
        assert(1u64 << (pos as u64) == 1u64 << 54u64);
    }
    if pos == 55 {
        assert(LOOKUP_ROBBEN[55] == 0x2000204000000000u64);
        assert(1u64 << (pos as u64) == 1u64 << 55u64);
    }
    if pos == 56 {
        assert(LOOKUP_ROBBEN[56] == 0x4020000000000u64);
        assert(1u64 << (pos as u64) == 1u64 << 56u64);
    }
    if pos == 57 {
        assert(LOOKUP_ROBBEN[57] == 0x8050000000000u64);
        assert(1u64 << (pos as u64) == 1u64 << 57u64);
    }
    if pos == 58 {
        assert(LOOKUP_ROBBEN[58] == 0x110A0000000000u64);
        assert(1u64 << (pos as u64) == 1u64 << 58u64);
    }
    if pos == 59 {
        assert(LOOKUP_ROBBEN[59] == 0x22140000000000u64);
        assert(1u64 << (pos as u64) == 1u64 << 59u64);
    }
    if pos == 60 {
        assert(LOOKUP_ROBBEN[60] == 0x44280000000000u64);
        assert(1u64 << (pos as u64) == 1u64 << 60u64);
    }
    if pos == 61 {
        assert(LOOKUP_ROBBEN[61] == 0x88500000000000u64);
        assert(1u64 << (pos as u64) == 1u64 << 61u64);
    }
    if pos == 62 {
        assert(LOOKUP_ROBBEN[62] == 0x10A00000000000u64);
        assert(1u64 << (pos as u64) == 1u64 << 62u64);
    }
    if pos == 63 {
        assert(LOOKUP_ROBBEN[63] == 0x20400000000000u64);
        assert(1u64 << (pos as u64) == 1u64 << 63u64);
    }
}

/// The squares that leapers on `robbe` reach.
pub fn robbe_gen_moves(robbe: Bitboard) -> (r: Bitboard)
    ensures
        r.bits == robbe_bits(robbe.bits),
        forall|x: int, y: int| on_grid(x, y) ==> #[trigger] r.at(x, y) == robbe_reaches(robbe, x, y),
{
    let robbe_loc = robbe.bits;

    let clip_file_ab = NOT_FILE_A & NOT_FILE_B;
    let clip_file_a = NOT_FILE_A;
    let clip_file_h = NOT_FILE_H;
    let clip_file_gh = NOT_FILE_H & NOT_FILE_G;

    let spot_1 = (robbe_loc & clip_file_ab) << 6;
    let spot_2 = (robbe_loc & clip_file_a) << 15;
    let spot_3 = (robbe_loc & clip_file_h) << 17;
    let spot_4 = (robbe_loc & clip_file_gh) << 10;

    let spot_5 = (robbe_loc & clip_file_gh) >> 6;
    let spot_6 = (robbe_loc & clip_file_h) >> 15;
    let spot_7 = (robbe_loc & clip_file_a) >> 17;
    let spot_8 = (robbe_loc & clip_file_ab) >> 10;

    let moves = spot_1 | spot_2 | spot_3 | spot_4 | spot_5 | spot_6 | spot_7 | spot_8;
    let r = Bitboard::from(moves);
    proof {
        lemma_generator_cells(robbe, true);
        assert(r == Bitboard { bits: robbe_bits(robbe.bits) });
    }
    r
}

/// The squares that single-step pieces on `moewe` reach. The step set is
/// its own mirror image, so both sides get the same squares.
pub fn moewe_gen_moves(moewe: Bitboard, maximizing_player: bool) -> (r: Bitboard)
    ensures
        r.bits == moewe_bits(moewe.bits),
        forall|x: int, y: int| on_grid(x, y) ==> #[trigger] r.at(x, y) == moewe_reaches(moewe, x, y),
{
    let moewe_loc = moewe.bits;

    let clip_file_a = moewe_loc & NOT_FILE_A;
    let clip_file_h = moewe_loc & NOT_FILE_H;

    let spot_2 = moewe_loc << 8;
    let spot_4 = clip_file_h << 1;
    let spot_6 = moewe_loc >> 8;
    let spot_8 = clip_file_a >> 1;

    let moves = spot_2 | spot_4 | spot_6 | spot_8;
    let r = Bitboard::from(moves);
    proof {
        lemma_generator_cells(moewe, maximizing_player);
        assert(r == Bitboard { bits: moewe_bits(moewe.bits) });
    }
    r
}

/// The squares that pieces on `muschel` reach by a diagonal step forward.
pub fn muschel_gen_moves(muschel: Bitboard, maximizing_player: bool) -> (r: Bitboard)
    ensures
        r.bits == muschel_bits(muschel.bits, maximizing_player),
        forall|x: int, y: int|
            on_grid(x, y) ==> #[trigger] r.at(x, y) == muschel_reaches(
                muschel,
                maximizing_player,
                x,
                y,
            ),
{
    let muschel_loc = muschel.bits;

    let clip_file_a = muschel_loc & NOT_FILE_A;
    let clip_file_h = muschel_loc & NOT_FILE_H;

    let moves = if maximizing_player {
        (clip_file_a << 7) | (clip_file_h << 9)
    } else {
        (clip_file_h >> 7) | (clip_file_a >> 9)
    };
    let r = Bitboard::from(moves);
    proof {
        lemma_generator_cells(muschel, maximizing_player);
        assert(r == Bitboard { bits: muschel_bits(muschel.bits, maximizing_player) });
    }
    r
}

/// The squares that pieces on `seestern` reach by a step forward or a step
/// along any diagonal.
pub fn seestern_gen_moves(seestern: Bitboard, maximizing_player: bool) -> (r: Bitboard)
    ensures
        r.bits == seestern_bits(seestern.bits, maximizing_player),
        forall|x: int, y: int|
            on_grid(x, y) ==> #[trigger] r.at(x, y) == seestern_reaches(
                seestern,
                maximizing_player,
                x,
                y,
            ),
{
    let seestern_loc = seestern.bits;

    let clip_file_a = seestern_loc & NOT_FILE_A;
    let clip_file_h = seestern_loc & NOT_FILE_H;

    let moves = if maximizing_player {
        (clip_file_a << 7) | (seestern_loc << 8) | (clip_file_h << 9) | (clip_file_h >> 7) | (
        clip_file_a >> 9)
    } else {
        (clip_file_h >> 7) | (seestern_loc >> 8) | (clip_file_a >> 9) | (clip_file_a << 7) | (
        clip_file_h << 9)
    };
    let r = Bitboard::from(moves);
    proof {
        lemma_generator_cells(seestern, maximizing_player);
        assert(r == Bitboard { bits: seestern_bits(seestern.bits, maximizing_player) });
    }
    r
}

/// The squares that a leaper on square `pos` reaches, read from the table.
pub fn robbe_lookup(pos: u8) -> (r: Bitboard)
    requires
        pos < 64,
    ensures
        r.bits == LOOKUP_ROBBEN[pos as int],
        r.bits == robbe_bits(1u64 << pos),
        forall|x: int, y: int|
            on_grid(x, y) ==> #[trigger] r.at(x, y) == robbe_reaches(
                (Bitboard { bits: 0 }).with(pos as int),
                x,
                y,
            ),
{
    let r = Bitboard::from(LOOKUP_ROBBEN[pos as usize]);
    proof {
        lemma_lookup_matches_generator(pos as int);
        lemma_generator_cells((Bitboard { bits: 0 }).with(pos as int), true);
        assert(0u64 | (1u64 << pos) == 1u64 << pos) by (bit_vector);
        assert(r == Bitboard { bits: robbe_bits((Bitboard { bits: 0 }).with(pos as int).bits) });
    }
    r
}

} // verus!
