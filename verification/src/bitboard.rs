//! A 64-bit population mask over the 8x8 grid.
//!
//! Square `8 * y + 7 - x` stands for the cell in column `x` of row `y`, so
//! the low byte of the mask is row 0 and bit 7 of each byte is column 0.
use crate::v64::{v64_items, v64_new, v64_push};
use crate::vec2::Vec2;
use thincollections::thin_v64::V64;
use vstd::prelude::*;
use vstd::std_specs::bits::{axiom_u64_trailing_zeros, u64_trailing_zeros};

verus! {

/// Every other row, and every other pair of rows: the groups that a flip of
/// the rows exchanges.
pub const K1: u64 = 0x00FF00FF00FF00FF;
pub const K2: u64 = 0x0000FFFF0000FFFF;

/// The squares that a flip in the diagonal exchanges with their partners 7,
/// 14 and 28 places below.
pub const D1: u64 = 0x5500550055005500;
pub const D2: u64 = 0x3333000033330000;
pub const D3: u64 = 0x0f0f0f0f00000000;

/// Every other column, every other pair and every other four of columns:
/// the groups that a flip of the columns exchanges.
pub const H1: u64 = 0x5555555555555555;
pub const H2: u64 = 0x3333333333333333;
pub const H3: u64 = 0x0F0F0F0F0F0F0F0F;

/// Whether bit `sq` of `bits` is set. Squares outside `0..64` are never set.
pub open spec fn bit(bits: u64, sq: int) -> bool {
    0 <= sq < 64 && (bits >> (sq as u64)) & 1 == 1
}

/// The square index of the cell in column `x` of row `y`.
pub open spec fn square(x: int, y: int) -> int {
    8 * y + 7 - x
}

/// Whether `x` and `y` name a cell of the grid.
pub open spec fn on_grid(x: int, y: int) -> bool {
    0 <= x < 8 && 0 <= y < 8
}

/// Rows swapped end for end by three exchanges of ever wider groups.
pub open spec fn flip_vertical_bits(b: u64) -> u64 {
    let x = ((b >> 8) & K1) | ((b & K1) << 8);
    let x = ((x >> 16) & K2) | ((x & K2) << 16);
    (x >> 32) | (x << 32)
}

/// Columns swapped end for end inside every row.
pub open spec fn flip_horizontal_bits(b: u64) -> u64 {
    let x = ((b >> 1) & H1) | ((b & H1) << 1);
    let x = ((x >> 2) & H2) | ((x & H2) << 2);
    ((x >> 4) & H3) | ((x & H3) << 4)
}

/// Rows and bit columns exchanged.
pub open spec fn flip_diagonal_bits(b: u64) -> u64 {
    let t = D3 & (b ^ (b << 28));
    let x = b ^ (t ^ (t >> 28));
    let t = D2 & (x ^ (x << 14));
    let x = x ^ (t ^ (t >> 14));
    let t = D1 & (x ^ (x << 7));
    x ^ (t ^ (t >> 7))
}

/// All 64 bits in reverse order.
pub open spec fn rotate180_bits(b: u64) -> u64 {
    flip_vertical_bits(flip_horizontal_bits(b))
}

/// The number of set bits.
pub open spec fn popcount(b: u64) -> nat
    decreases b,
{
    if b == 0 {
        0
    } else {
        ((b % 2) + popcount(b / 2)) as nat
    }
}

/// The set squares at or above `from`, in rising order.
pub open spec fn set_bits_from(b: u64, from: int) -> Seq<u8>
    decreases 64 - from,
{
    if from < 0 || from >= 64 {
        Seq::empty()
    } else if bit(b, from) {
        seq![from as u8] + set_bits_from(b, from + 1)
    } else {
        set_bits_from(b, from + 1)
    }
}

/// A subset of the 64 squares of the grid, one bit for each square.
#[derive(Clone, Copy, Debug, PartialEq, Eq, Structural)]
pub struct Bitboard {
    pub bits: u64,
}

impl View for Bitboard {
    type V = Set<int>;

    /// The squares that the board holds.
    open spec fn view(&self) -> Set<int> {
        Set::new(|sq: int| bit(self.bits, sq))
    }
}

/// `u64::reverse_bits`: the lowest bit becomes the highest, the second
/// lowest the second highest, and so on.
pub assume_specification[ u64::reverse_bits ](x: u64) -> (r: u64)
    ensures
        forall|sq: int| 0 <= sq < 64 ==> bit(r, sq) == bit(x, 63 - sq),
;

/// `u64::count_ones`: the number of ones in the binary form of the value.
pub assume_specification[ u64::count_ones ](x: u64) -> (r: u32)
    ensures
        r == popcount(x),
;

proof fn lemma_point_ops(bits: u64, pos: u64, sq: u64)
    by (bit_vector)
    requires
        pos < 64,
        sq < 64,
    ensures
        ((bits | (1u64 << pos)) >> sq) & 1 == 1 <==> (sq == pos || (bits >> sq) & 1 == 1),
        ((bits & !(1u64 << pos)) >> sq) & 1 == 1 <==> (sq != pos && (bits >> sq) & 1 == 1),
        ((bits ^ (1u64 << pos)) >> sq) & 1 == 1 <==> ((sq == pos) != ((bits >> sq) & 1 == 1)),
        (bits >> sq) & 1 != 0 <==> (bits >> sq) & 1 == 1,
        (0u64 >> sq) & 1 == 0,
        (0xFFFF_FFFF_FFFF_FFFFu64 >> sq) & 1 == 1,
{
}

proof fn lemma_coords(bits: u64, x: u8, y: u8)
    by (bit_vector)
    requires
        x < 8,
        y < 8,
    ensures
        y << 3 == 8 * y,
        (y << 3) + 7 - x < 64,
        ((bits >> (y << 3)) >> ((7 - x) as u8)) & 1 == (bits >> ((8 * y + 7 - x) as u64)) & 1,
{
}

proof fn lemma_mask_ops(a: u64, b: u64, sq: u64)
    by (bit_vector)
    requires
        sq < 64,
    ensures
        ((a & b) >> sq) & 1 == 1 <==> ((a >> sq) & 1 == 1 && (b >> sq) & 1 == 1),
        ((a | b) >> sq) & 1 == 1 <==> ((a >> sq) & 1 == 1 || (b >> sq) & 1 == 1),
        ((a ^ b) >> sq) & 1 == 1 <==> ((a >> sq) & 1 == 1) != ((b >> sq) & 1 == 1),
        ((!a) >> sq) & 1 == 1 <==> (a >> sq) & 1 != 1,
{
}

proof fn lemma_transforms(b: u64, sq: u64)
    by (bit_vector)
    requires
        sq < 64,
    ensures
        (flip_vertical_bits(b) >> sq) & 1 == (b >> (sq ^ 56)) & 1,
        sq ^ 56 == 8 * (7 - sq / 8) + sq % 8,
        (flip_horizontal_bits(b) >> sq) & 1 == (b >> (sq ^ 7)) & 1,
        sq ^ 7 == 8 * (sq / 8) + 7 - sq % 8,
        (rotate180_bits(b) >> sq) & 1 == (b >> (63 - sq) as u64) & 1,
{
}

proof fn lemma_transpose(b: u64, sq: u64)
    by (bit_vector)
    requires
        sq < 64,
    ensures
        (flip_diagonal_bits(b) >> sq) & 1 == (b >> (((sq >> 3) | (sq << 3)) & 63)) & 1,
        ((sq >> 3) | (sq << 3)) & 63 == 8 * (sq % 8) + sq / 8,
{
}

proof fn lemma_involutions(b: u64, c: u64)
    by (bit_vector)
    ensures
        flip_vertical_bits(flip_vertical_bits(b)) == b,
        flip_horizontal_bits(flip_horizontal_bits(b)) == b,
        rotate180_bits(rotate180_bits(b)) == b,
        flip_diagonal_bits(flip_diagonal_bits(b)) == b,
        c ^ (b ^ c) == b,
        (b ^ c) ^ (c ^ (b ^ c)) == c,
{
}

proof fn lemma_differing_bit(a: u64, b: u64, t: u64)
    by (bit_vector)
    requires
        t < 64,
        ((a ^ b) >> t) & 1 == 1,
    ensures
        ((a >> t) & 1 == 1) != ((b >> t) & 1 == 1),
{
}

proof fn lemma_scan_step(b: u64, c: u64, sq: u64)
    by (bit_vector)
    requires
        c <= 64,
    ensures
        (b >> c) != 0 ==> c < 64,
        (b >> c) >> 1 == b >> ((c + 1) as u64),
        (b >> c) & 1 != 0 <==> (b >> c) & 1 == 1,
        (b >> c) == 0 && c <= sq && sq < 64 ==> (b >> sq) & 1 == 0,
        (b >> c) / 2 == (b >> c) >> 1,
        (b >> c) % 2 == (b >> c) & 1,
        (b >> c) & 1 == 0 || (b >> c) & 1 == 1,
        b >> 0 == b,
{
}

proof fn lemma_popcount_zero(b: u64)
    ensures
        popcount(b) == 0 <==> b == 0,
    decreases b,
{
    if b != 0 {
        if b % 2 == 0 {
            lemma_popcount_zero(b / 2);
        }
    }
}

proof fn lemma_set_bits_empty(b: u64, from: int)
    requires
        0 <= from <= 64,
        forall|sq: int| from <= sq < 64 ==> !bit(b, sq),
    ensures
        set_bits_from(b, from) == Seq::<u8>::empty(),
    decreases 64 - from,
{
    if from < 64 {
        lemma_set_bits_empty(b, from + 1);
    }
}

/// Two masks with the same set squares are the same mask.
pub proof fn lemma_bits_determined(a: u64, b: u64)
    requires
        forall|sq: int| 0 <= sq < 64 ==> bit(a, sq) == bit(b, sq),
    ensures
        a == b,
{
    if a != b {
        let c = a ^ b;
        assert(c != 0) by (bit_vector)
            requires
                c == a ^ b,
                a != b,
        ;
        axiom_u64_trailing_zeros(c);
        let t = u64_trailing_zeros(c) as u64;
        lemma_differing_bit(a, b, t);
        assert(bit(a, t as int) == bit(b, t as int));
    }
}

/// The squares listed from `from` on are the set squares at or above it,
/// each once and in rising order.
pub proof fn lemma_set_bits(b: u64, from: int)
    requires
        0 <= from <= 64,
    ensures
        forall|i: int|
            0 <= i < set_bits_from(b, from).len() ==> from <= #[trigger] set_bits_from(b, from)[i]
                < 64 && bit(b, set_bits_from(b, from)[i] as int),
        forall|i: int, j: int|
            0 <= i < j < set_bits_from(b, from).len() ==> set_bits_from(b, from)[i]
                < set_bits_from(b, from)[j],
        forall|sq: int|
            from <= sq < 64 && bit(b, sq) ==> exists|i: int|
                0 <= i < set_bits_from(b, from).len() && #[trigger] set_bits_from(b, from)[i]
                    == sq,
    decreases 64 - from,
{
    if from < 64 {
        lemma_set_bits(b, from + 1);
        let rest = set_bits_from(b, from + 1);
        let all = set_bits_from(b, from);
        if bit(b, from) {
            assert(all[0] == from);
            assert forall|i: int| 1 <= i < all.len() implies all[i] == rest[i - 1] by {}
            assert forall|sq: int| from <= sq < 64 && bit(b, sq) implies exists|i: int|
                0 <= i < all.len() && #[trigger] all[i] == sq by {
                if sq == from {
                    assert(all[0] == sq);
                } else {
                    let i = choose|i: int| 0 <= i < rest.len() && #[trigger] rest[i] == sq;
                    assert(all[i + 1] == sq);
                }
            }
        }
    }
}

/// A mask with one set square lists that square and nothing else.
pub proof fn lemma_single_square(b: u64, sq: int)
    requires
        0 <= sq < 64,
        forall|s: int| 0 <= s < 64 ==> bit(b, s) == (s == sq),
    ensures
        set_bits_from(b, 0) == seq![sq as u8],
{
    lemma_set_bits(b, 0);
    let all = set_bits_from(b, 0);
    assert(bit(b, sq));
    let i = choose|i: int| 0 <= i < all.len() && #[trigger] all[i] == sq;
    assert(all[i] == sq);
    if all.len() > 1 {
        assert(bit(b, all[0] as int));
        assert(bit(b, all[1] as int));
        assert(all[0] < all[1]);
    }
    assert(all =~= seq![sq as u8]);
}

impl Bitboard {
    /// Whether the board holds square `sq`.
    pub open spec fn has(self, sq: int) -> bool {
        bit(self.bits, sq)
    }

    /// Whether the board holds the cell in column `x` of row `y`; no cell
    /// off the grid is held.
    pub open spec fn at(self, x: int, y: int) -> bool {
        on_grid(x, y) && bit(self.bits, square(x, y))
    }

    /// The board with square `sq` added.
    pub open spec fn with(self, sq: int) -> Bitboard {
        Bitboard { bits: self.bits | (1u64 << (sq as u64)) }
    }

    /// The board with square `sq` taken away.
    pub open spec fn without(self, sq: int) -> Bitboard {
        Bitboard { bits: self.bits & !(1u64 << (sq as u64)) }
    }

    /// The board with square `sq` turned over.
    pub open spec fn toggled(self, sq: int) -> Bitboard {
        Bitboard { bits: self.bits ^ (1u64 << (sq as u64)) }
    }

    /// The board with its rows swapped end for end.
    pub open spec fn flipped_vertical(self) -> Bitboard {
        Bitboard { bits: flip_vertical_bits(self.bits) }
    }

    /// The board with its columns swapped end for end.
    pub open spec fn flipped_horizontal(self) -> Bitboard {
        Bitboard { bits: flip_horizontal_bits(self.bits) }
    }

    /// The board mirrored in the diagonal from column 7 of row 0 to column 0
    /// of row 7.
    pub open spec fn flipped_diagonal(self) -> Bitboard {
        Bitboard { bits: flip_diagonal_bits(self.bits) }
    }

    /// The board turned half round.
    pub open spec fn rotated180(self) -> Bitboard {
        Bitboard { bits: rotate180_bits(self.bits) }
    }

    /// The board turned a quarter round, clockwise.
    pub open spec fn rotated90_clockwise(self) -> Bitboard {
        self.flipped_vertical().flipped_diagonal()
    }

    /// The board turned a quarter round, anti-clockwise.
    pub open spec fn rotated90_anti_clockwise(self) -> Bitboard {
        self.flipped_diagonal().flipped_vertical()
    }

    /// A board is what it holds: boards with equal views are equal.
    pub proof fn lemma_view_determines(self, other: Bitboard)
        requires
            self@ == other@,
        ensures
            self == other,
    {
        assert forall|sq: int| 0 <= sq < 64 implies bit(self.bits, sq) == bit(other.bits, sq) by {
            assert(self@.contains(sq) == bit(self.bits, sq));
            assert(other@.contains(sq) == bit(other.bits, sq));
        }
        lemma_bits_determined(self.bits, other.bits);
    }

    /// What adding, taking away and turning over one square do to the set
    /// of squares held.
    pub proof fn lemma_point_views(self, sq: int)
        requires
            0 <= sq < 64,
        ensures
            self.with(sq)@ == self@.insert(sq),
            self.without(sq)@ == self@.remove(sq),
            self.toggled(sq)@ == if self@.contains(sq) {
                self@.remove(sq)
            } else {
                self@.insert(sq)
            },
    {
        let turned = if self@.contains(sq) {
            self@.remove(sq)
        } else {
            self@.insert(sq)
        };
        assert forall|s: int| self.with(sq)@.contains(s) == self@.insert(sq).contains(s) by {
            if 0 <= s < 64 {
                lemma_point_ops(self.bits, sq as u64, s as u64);
            }
        }
        assert forall|s: int| self.without(sq)@.contains(s) == self@.remove(sq).contains(s) by {
            if 0 <= s < 64 {
                lemma_point_ops(self.bits, sq as u64, s as u64);
            }
        }
        assert forall|s: int| self.toggled(sq)@.contains(s) == turned.contains(s) by {
            if 0 <= s < 64 {
                lemma_point_ops(self.bits, sq as u64, s as u64);
            }
        }
        assert(self.with(sq)@ =~= self@.insert(sq));
        assert(self.without(sq)@ =~= self@.remove(sq));
        assert(self.toggled(sq)@ =~= turned);
    }

    /// The empty board holds nothing and the full board holds all 64
    /// squares.
    pub proof fn lemma_constant_views()
        ensures
            (Bitboard { bits: 0 })@ == Set::<int>::empty(),
            (Bitboard { bits: u64::MAX })@ == Set::new(|sq: int| 0 <= sq < 64),
    {
        assert forall|sq: int|
            !bit(0u64, sq) && bit(u64::MAX, sq) == (0 <= sq < 64) by {
            if 0 <= sq < 64 {
                lemma_point_ops(0, 0, sq as u64);
            }
        }
        assert((Bitboard { bits: 0 })@ =~= Set::<int>::empty());
        assert((Bitboard { bits: u64::MAX })@ =~= Set::new(|sq: int| 0 <= sq < 64));
    }

    /// `&`, `|`, `^` and `!` are intersection, union, symmetric difference
    /// and complement on the squares held.
    pub proof fn lemma_mask_views(self, other: Bitboard)
        ensures
            (Bitboard { bits: self.bits & other.bits })@ == self@.intersect(other@),
            (Bitboard { bits: self.bits | other.bits })@ == self@.union(other@),
            (Bitboard { bits: self.bits ^ other.bits })@ == self@.difference(other@).union(
                other@.difference(self@),
            ),
            (Bitboard { bits: !self.bits })@ == Set::new(|sq: int| 0 <= sq < 64 && !self.has(sq)),
    {
        let a = self.bits;
        let b = other.bits;
        assert forall|s: int|
            bit(a & b, s) == (bit(a, s) && bit(b, s)) && bit(a | b, s) == (bit(a, s) || bit(b, s))
                && bit(a ^ b, s) == (bit(a, s) != bit(b, s)) && bit(!a, s) == (0 <= s < 64 && !bit(
                a,
                s,
            )) by {
            if 0 <= s < 64 {
                lemma_mask_ops(a, b, s as u64);
            }
        }
        assert((Bitboard { bits: a & b })@ =~= self@.intersect(other@));
        assert((Bitboard { bits: a | b })@ =~= self@.union(other@));
        assert((Bitboard { bits: a ^ b })@ =~= self@.difference(other@).union(
            other@.difference(self@),
        ));
        assert((Bitboard { bits: !a })@ =~= Set::new(|sq: int| 0 <= sq < 64 && !self.has(sq)));
    }

    /// Where each whole-board transform takes the cell in column `x` of row
    /// `y` from.
    pub proof fn lemma_transform_cells(self)
        ensures
            forall|x: int, y: int|
                on_grid(x, y) ==> #[trigger] self.flipped_vertical().at(x, y) == self.at(x, 7 - y),
            forall|x: int, y: int|
                on_grid(x, y) ==> #[trigger] self.flipped_horizontal().at(x, y) == self.at(
                    7 - x,
                    y,
                ),
            forall|x: int, y: int|
                on_grid(x, y) ==> #[trigger] self.flipped_diagonal().at(x, y) == self.at(
                    7 - y,
                    7 - x,
                ),
            forall|x: int, y: int|
                on_grid(x, y) ==> #[trigger] self.rotated180().at(x, y) == self.at(7 - x, 7 - y),
    {
        assert forall|x: int, y: int| on_grid(x, y) implies #[trigger] self.flipped_vertical().at(
            x,
            y,
        ) == self.at(x, 7 - y) by {
            lemma_transforms(self.bits, square(x, y) as u64);
        }
        assert forall|x: int, y: int| on_grid(x, y) implies #[trigger] self.flipped_horizontal().at(
            x,
            y,
        ) == self.at(7 - x, y) by {
            lemma_transforms(self.bits, square(x, y) as u64);
        }
        assert forall|x: int, y: int| on_grid(x, y) implies #[trigger] self.flipped_diagonal().at(
            x,
            y,
        ) == self.at(7 - y, 7 - x) by {
            lemma_transpose(self.bits, square(x, y) as u64);
        }
        assert forall|x: int, y: int| on_grid(x, y) implies #[trigger] self.rotated180().at(x, y)
            == self.at(7 - x, 7 - y) by {
            lemma_transforms(self.bits, square(x, y) as u64);
        }
    }

    /// Where the two quarter turns take the cell in column `x` of row `y`
    /// from.
    pub proof fn lemma_quarter_turn_cells(self)
        ensures
            forall|x: int, y: int|
                on_grid(x, y) ==> #[trigger] self.rotated90_clockwise().at(x, y) == self.at(
                    7 - y,
                    x,
                ),
            forall|x: int, y: int|
                on_grid(x, y) ==> #[trigger] self.rotated90_anti_clockwise().at(x, y) == self.at(
                    y,
                    7 - x,
                ),
    {
        let v = self.flipped_vertical();
        let d = self.flipped_diagonal();
        self.lemma_transform_cells();
        v.lemma_transform_cells();
        d.lemma_transform_cells();
        assert forall|x: int, y: int| on_grid(x, y) implies #[trigger] self.rotated90_clockwise().at(
            x,
            y,
        ) == self.at(7 - y, x) by {
            assert(v.flipped_diagonal().at(x, y) == v.at(7 - y, 7 - x));
            assert(v.at(7 - y, 7 - x) == self.at(7 - y, 7 - (7 - x)));
        }
        assert forall|x: int, y: int|
            on_grid(x, y) implies #[trigger] self.rotated90_anti_clockwise().at(x, y) == self.at(
            y,
            7 - x,
        ) by {
            assert(d.flipped_vertical().at(x, y) == d.at(x, 7 - y));
            assert(d.at(x, 7 - y) == self.at(7 - (7 - y), 7 - x));
        }
    }

    /// A half turn made twice, a flip made twice, and a quarter turn one way
    /// after a quarter turn the other way all give the board back.
    pub proof fn lemma_transforms_undo(self)
        ensures
            self.rotated180().rotated180() == self,
            self.flipped_horizontal().flipped_horizontal() == self,
            self.flipped_vertical().flipped_vertical() == self,
            self.flipped_diagonal().flipped_diagonal() == self,
            self.rotated90_anti_clockwise().rotated90_clockwise() == self,
            self.rotated90_clockwise().rotated90_anti_clockwise() == self,
    {
        lemma_involutions(self.bits, 0);
        lemma_involutions(flip_diagonal_bits(self.bits), 0);
        lemma_involutions(flip_vertical_bits(self.bits), 0);
    }

    /// A square set after it was cleared is held, and a square cleared after
    /// it was set is not.
    pub proof fn lemma_set_clear(self, p: int)
        requires
            0 <= p < 64,
        ensures
            self.without(p).with(p)@.contains(p),
            !self.with(p).without(p)@.contains(p),
    {
        self.lemma_point_views(p);
        self.without(p).lemma_point_views(p);
        self.with(p).lemma_point_views(p);
    }

    /// The board that holds no square.
    pub fn new() -> (r: Self)
        ensures
            r.bits == 0,
            r@ == Set::<int>::empty(),
    {
        proof {
            Self::lemma_constant_views();
        }
        Bitboard { bits: 0 }
    }

    /// The board with the given mask.
    pub fn from(bits: u64) -> (r: Self)
        ensures
            r.bits == bits,
    {
        Bitboard { bits }
    }

    /// The board that holds the one cell `coords`.
    pub fn from_coords(coords: Vec2) -> (r: Self)
        requires
            coords.on_grid(),
        ensures
            r == (Bitboard { bits: 0 }).with(coords.square()),
            r@ == Set::<int>::empty().insert(coords.square()),
    {
        Bitboard::new().set(coords.position())
    }

    /// Whether the board holds square `pos`.
    pub fn get(&self, pos: u8) -> (r: bool)
        requires
            pos < 64,
        ensures
            r == self@.contains(pos as int),
    {
        proof {
            lemma_point_ops(self.bits, pos as u64, pos as u64);
        }
        (self.bits >> pos & 1u64) != 0
    }

    /// Whether the board holds the cell in column `x` of row `y`.
    pub fn get_at_coords(&self, x: u8, y: u8) -> (r: bool)
        requires
            x < 8,
            y < 8,
        ensures
            r == self.at(x as int, y as int),
            r == self@.contains(square(x as int, y as int)),
    {
        proof {
            lemma_coords(self.bits, x, y);
            lemma_point_ops(self.bits, 0, (8 * y + 7 - x) as u64);
        }
        (self.bits >> (y << 3)) >> (7 - x) & 1u64 != 0
    }

    /// The board with square `pos` added.
    pub fn set(&self, pos: u8) -> (r: Self)
        requires
            pos < 64,
        ensures
            r == self.with(pos as int),
            r@ == self@.insert(pos as int),
    {
        proof {
            self.lemma_point_views(pos as int);
        }
        Bitboard { bits: self.bits | (1u64 << pos) }
    }

    /// The board with the cell in column `x` of row `y` added.
    pub fn set_at_coords(&self, x: u8, y: u8) -> (r: Self)
        requires
            x < 8,
            y < 8,
        ensures
            r == self.with(square(x as int, y as int)),
            r@ == self@.insert(square(x as int, y as int)),
    {
        proof {
            lemma_coords(self.bits, x, y);
        }
        self.set((y << 3) + 7 - x)
    }

    /// The board with square `pos` taken away.
    pub fn clear(&self, pos: u8) -> (r: Self)
        requires
            pos < 64,
        ensures
            r == self.without(pos as int),
            r@ == self@.remove(pos as int),
    {
        proof {
            self.lemma_point_views(pos as int);
        }
        Bitboard { bits: self.bits & !(1u64 << pos) }
    }

    /// The board with square `pos` turned over.
    pub fn flip_bit(&self, pos: u8) -> (r: Self)
        requires
            pos < 64,
        ensures
            r == self.toggled(pos as int),
            r@ == if self@.contains(pos as int) {
                self@.remove(pos as int)
            } else {
                self@.insert(pos as int)
            },
    {
        proof {
            self.lemma_point_views(pos as int);
        }
        Bitboard { bits: self.bits ^ (1u64 << pos) }
    }

    /// The board that holds no square.
    pub fn clear_all(&self) -> (r: Self)
        ensures
            r.bits == 0,
            r@ == Set::<int>::empty(),
    {
        Bitboard::new()
    }

    /// The board that holds all 64 squares.
    pub fn set_all(&self) -> (r: Self)
        ensures
            r.bits == u64::MAX,
            r@ == Set::new(|sq: int| 0 <= sq < 64),
    {
        proof {
            Self::lemma_constant_views();
        }
        Bitboard { bits: u64::MAX }
    }

    /// Reverses the order of the 64 squares, which is a half turn.
    pub fn reverse(&self) -> (r: Self)
        ensures
            r == self.rotated180(),
            forall|x: int, y: int|
                on_grid(x, y) ==> #[trigger] r.at(x, y) == self.at(7 - x, 7 - y),
    {
        let r = Bitboard { bits: self.bits.reverse_bits() };
        proof {
            assert forall|sq: int| 0 <= sq < 64 implies bit(r.bits, sq) == bit(
                rotate180_bits(self.bits),
                sq,
            ) by {
                lemma_transforms(self.bits, sq as u64);
            }
            lemma_bits_determined(r.bits, rotate180_bits(self.bits));
            self.lemma_transform_cells();
            assert(r == self.rotated180());
            assert forall|x: int, y: int| on_grid(x, y) implies r.at(x, y) == self.rotated180().at(x, y) by {}
        }
        r
    }

    /// A quarter turn that takes the cell in column `x` of row `y` to
    /// column `y` of row `7 - x`.
    pub fn rotate90_clockwise(&self) -> (r: Self)
        ensures
            r == self.rotated90_clockwise(),
            forall|x: int, y: int| on_grid(x, y) ==> #[trigger] r.at(x, y) == self.at(7 - y, x),
    {
        proof {
            self.lemma_quarter_turn_cells();
        }
        self.flip_vertical().flip_diagonal_a1_h8()
    }

    /// A quarter turn that takes the cell in column `x` of row `y` to
    /// column `7 - y` of row `x`.
    pub fn rotate90_anti_clockwise(&self) -> (r: Self)
        ensures
            r == self.rotated90_anti_clockwise(),
            forall|x: int, y: int| on_grid(x, y) ==> #[trigger] r.at(x, y) == self.at(y, 7 - x),
    {
        proof {
            self.lemma_quarter_turn_cells();
        }
        self.flip_diagonal_a1_h8().flip_vertical()
    }

    /// Every row moves to the row as far from the other edge.
    pub fn flip_vertical(&self) -> (r: Self)
        ensures
            r == self.flipped_vertical(),
            forall|x: int, y: int| on_grid(x, y) ==> #[trigger] r.at(x, y) == self.at(x, 7 - y),
    {
        let mut x = self.bits;
        x = ((x >> 8) & K1) | ((x & K1) << 8);
        x = ((x >> 16) & K2) | ((x & K2) << 16);
        x = (x >> 32) | (x << 32);
        let r = Bitboard { bits: x };
        proof {
            self.lemma_transform_cells();
            assert(r == self.flipped_vertical());
            assert forall|x: int, y: int| on_grid(x, y) implies r.at(x, y) == self.flipped_vertical().at(x, y) by {}
        }
        r
    }

    /// Every column moves to the column as far from the other edge.
    pub fn flip_horizontal(&self) -> (r: Self)
        ensures
            r == self.flipped_horizontal(),
            forall|x: int, y: int| on_grid(x, y) ==> #[trigger] r.at(x, y) == self.at(7 - x, y),
    {
        let mut x = self.bits;
        x = ((x >> 1) & H1) | ((x & H1) << 1);
        x = ((x >> 2) & H2) | ((x & H2) << 2);
        x = ((x >> 4) & H3) | ((x & H3) << 4);
        let r = Bitboard { bits: x };
        proof {
            self.lemma_transform_cells();
            assert(r == self.flipped_horizontal());
            assert forall|x: int, y: int| on_grid(x, y) implies r.at(x, y) == self.flipped_horizontal().at(x, y) by {}
        }
        r
    }

    /// Mirrors the board in the diagonal that runs from column 7 of row 0
    /// to column 0 of row 7.
    pub fn flip_diagonal_a1_h8(&self) -> (r: Self)
        ensures
            r == self.flipped_diagonal(),
            forall|x: int, y: int|
                on_grid(x, y) ==> #[trigger] r.at(x, y) == self.at(7 - y, 7 - x),
    {
        let mut x = self.bits;
        let mut t: u64 = D3 & (x ^ (x << 28));
        x ^= t ^ (t >> 28);
        t = D2 & (x ^ (x << 14));
        x ^= t ^ (t >> 14);
        t = D1 & (x ^ (x << 7));
        x ^= t ^ (t >> 7);
        let r = Bitboard { bits: x };
        proof {
            self.lemma_transform_cells();
            assert(r == self.flipped_diagonal());
            assert forall|x: int, y: int| on_grid(x, y) implies r.at(x, y) == self.flipped_diagonal().at(x, y) by {}
        }
        r
    }

    /// A half turn: every cell moves to the cell opposite the centre.
    pub fn rotate180(&self) -> (r: Self)
        ensures
            r == self.rotated180(),
            forall|x: int, y: int|
                on_grid(x, y) ==> #[trigger] r.at(x, y) == self.at(7 - x, 7 - y),
    {
        let mut x = self.bits;
        x = ((x >> 1) & H1) | ((x & H1) << 1);
        x = ((x >> 2) & H2) | ((x & H2) << 2);
        x = ((x >> 4) & H3) | ((x & H3) << 4);
        x = ((x >> 8) & K1) | ((x & K1) << 8);
        x = ((x >> 16) & K2) | ((x & K2) << 16);
        x = (x >> 32) | (x << 32);
        let r = Bitboard { bits: x };
        proof {
            self.lemma_transform_cells();
            assert(r == self.rotated180());
            assert forall|x: int, y: int| on_grid(x, y) implies r.at(x, y) == self.rotated180().at(x, y) by {}
        }
        r
    }

    /// Exchanges the two boards without a third.
    pub fn swap_with(&mut self, other: &mut Bitboard)
        ensures
            *final(self) == *old(other),
            *final(other) == *old(self),
    {
        proof {
            lemma_involutions(self.bits, other.bits);
        }
        self.bits ^= other.bits;
        other.bits ^= self.bits;
        self.bits ^= other.bits;
    }

    /// The squares that the board holds, in rising order.
    pub fn get_set_bits(&self) -> (out: V64<u8>)
        ensures
            v64_items(out) == set_bits_from(self.bits, 0),
    {
        let mut out = v64_new();
        let mut bits = self.bits;
        let mut ones = bits.count_ones();
        let mut counter: u8 = 0;
        proof {
            lemma_scan_step(self.bits, 0, 0);
        }
        while ones > 0
            invariant
                counter <= 64,
                bits == self.bits >> counter,
                ones == popcount(bits),
                v64_items(out).len() <= counter,
                v64_items(out) + set_bits_from(self.bits, counter as int) == set_bits_from(
                    self.bits,
                    0,
                ),
            decreases 64 - counter,
        {
            proof {
                lemma_popcount_zero(bits);
                lemma_scan_step(self.bits, counter as u64, counter as u64);
            }
            let ghost before = v64_items(out);
            if bits & 0x1 != 0 {
                v64_push(&mut out, counter);
                ones -= 1;
                proof {
                    assert(v64_items(out) + set_bits_from(self.bits, counter + 1) =~= before
                        + set_bits_from(self.bits, counter as int));
                }
            }
            bits >>= 1;
            counter += 1;
        }
        proof {
            lemma_popcount_zero(bits);
            assert forall|sq: int| counter <= sq < 64 implies !bit(self.bits, sq) by {
                lemma_scan_step(self.bits, counter as u64, sq as u64);
            }
            lemma_set_bits_empty(self.bits, counter as int);
            assert(v64_items(out) + Seq::<u8>::empty() =~= v64_items(out));
        }
        out
    }
}

impl core::ops::BitAnd for Bitboard {
    type Output = Bitboard;

    fn bitand(self, rhs: Self) -> (r: Bitboard) {
        Bitboard { bits: self.bits & rhs.bits }
    }
}

impl vstd::std_specs::ops::BitAndSpecImpl for Bitboard {
    open spec fn obeys_bitand_spec() -> bool {
        true
    }

    open spec fn bitand_req(self, rhs: Self) -> bool {
        true
    }

    open spec fn bitand_spec(self, rhs: Self) -> Bitboard {
        Bitboard { bits: self.bits & rhs.bits }
    }
}

impl core::ops::BitAndAssign for Bitboard {
    fn bitand_assign(&mut self, rhs: Self)
        ensures
            final(self).bits == old(self).bits & rhs.bits,
    {
        self.bits &= rhs.bits
    }
}

impl core::ops::BitOr for Bitboard {
    type Output = Bitboard;

    fn bitor(self, rhs: Self) -> (r: Bitboard) {
        Bitboard { bits: self.bits | rhs.bits }
    }
}

impl vstd::std_specs::ops::BitOrSpecImpl for Bitboard {
    open spec fn obeys_bitor_spec() -> bool {
        true
    }

    open spec fn bitor_req(self, rhs: Self) -> bool {
        true
    }

    open spec fn bitor_spec(self, rhs: Self) -> Bitboard {
        Bitboard { bits: self.bits | rhs.bits }
    }
}

impl core::ops::BitOrAssign for Bitboard {
    fn bitor_assign(&mut self, rhs: Self)
        ensures
            final(self).bits == old(self).bits | rhs.bits,
    {
        self.bits |= rhs.bits
    }
}

impl core::ops::BitXor for Bitboard {
    type Output = Bitboard;

    fn bitxor(self, rhs: Self) -> (r: Bitboard) {
        Bitboard { bits: self.bits ^ rhs.bits }
    }
}

impl vstd::std_specs::ops::BitXorSpecImpl for Bitboard {
    open spec fn obeys_bitxor_spec() -> bool {
        true
    }

    open spec fn bitxor_req(self, rhs: Self) -> bool {
        true
    }

    open spec fn bitxor_spec(self, rhs: Self) -> Bitboard {
        Bitboard { bits: self.bits ^ rhs.bits }
    }
}

impl core::ops::BitXorAssign for Bitboard {
    fn bitxor_assign(&mut self, rhs: Self)
        ensures
            final(self).bits == old(self).bits ^ rhs.bits,
    {
        self.bits ^= rhs.bits
    }
}

impl core::ops::Not for Bitboard {
    type Output = Bitboard;

    fn not(self) -> (r: Bitboard) {
        Bitboard { bits: !self.bits }
    }
}

impl vstd::std_specs::ops::NotSpecImpl for Bitboard {
    open spec fn obeys_not_spec() -> bool {
        true
    }

    open spec fn not_req(self) -> bool {
        true
    }

    open spec fn not_spec(self) -> Bitboard {
        Bitboard { bits: !self.bits }
    }
}

} // verus!
