//! Rules engine and search core for a two-player stacking board game on an
//! 8x8 grid.
pub mod bitboard;
pub mod board;
pub mod game;
pub mod game_move;
pub mod game_state;
pub mod gamestate;
pub mod legal;
pub mod memento;
pub mod moves;
pub mod nibble;
pub mod piece;
pub mod placement;
pub mod team;
pub mod v64;
pub mod vec2;
pub mod xml_node;

use crate::bitboard::bit;
use vstd::prelude::*;
use vstd::std_specs::bits::{axiom_u64_trailing_zeros, u64_trailing_zeros};

verus! {

/// `x` without its lowest set bit.
pub open spec fn drop_lowest(x: u64) -> u64 {
    x & ((x - 1) as u64)
}

/// `x`, then `x` without its lowest set bit, and so on down to the last
/// value that has a bit.
pub open spec fn bit_steps(x: u64) -> Seq<u64>
    decreases x,
    via bit_steps_end
{
    if x == 0 {
        Seq::empty()
    } else {
        seq![x] + bit_steps(drop_lowest(x))
    }
}

#[via_fn]
proof fn bit_steps_end(x: u64) {
    if x != 0 {
        assert(x & ((x - 1) as u64) < x) by (bit_vector)
            requires
                x != 0,
        ;
    }
}

/// Calls `f` on `x`, then on `x` without its lowest set bit, and so on for
/// as long as a bit is left.
pub fn bit_loop<F: FnMut(u64)>(x: u64, f: F)
    requires
        forall|v: u64| call_requires(f, (v,)),
    ensures
        forall|k: int| 0 <= k < bit_steps(x).len() ==> call_ensures(f, (#[trigger] bit_steps(x)[k],), ()),
{
    let mut rest = x;
    let mut call = f;
    let ghost mut done: int = 0;
    while rest != 0
        invariant
            call == f,
            forall|v: u64| call_requires(f, (v,)),
            0 <= done <= bit_steps(x).len(),
            bit_steps(x).skip(done) == bit_steps(rest),
            forall|k: int| 0 <= k < done ==> call_ensures(f, (#[trigger] bit_steps(x)[k],), ()),
        decreases rest,
    {
        call(rest);
        proof {
            assert(rest & ((rest - 1) as u64) < rest) by (bit_vector)
                requires
                    rest != 0,
            ;
            assert(bit_steps(rest).len() > 0);
            assert(bit_steps(rest)[0] == rest);
            assert(bit_steps(x)[done] == bit_steps(x).skip(done)[0]);
            assert(bit_steps(x).skip(done + 1) =~= bit_steps(x).skip(done).skip(1));
            assert(bit_steps(rest).skip(1) =~= bit_steps(drop_lowest(rest)));
            done = done + 1;
        }
        rest &= rest - 1;
    }
    proof {
        assert(bit_steps(x).skip(done).len() == 0);
    }
}

/// The lowest set square of a mask, and 64 for the empty mask.
pub fn square_of(bitboard: u64) -> (r: u8)
    ensures
        r == u64_trailing_zeros(bitboard),
        bitboard == 0 <==> r == 64,
        bitboard != 0 ==> bit(bitboard, r as int),
        forall|sq: int| 0 <= sq < r ==> !bit(bitboard, sq),
{
    proof {
        axiom_u64_trailing_zeros(bitboard);
        assert forall|sq: int| 0 <= sq < u64_trailing_zeros(bitboard) implies !bit(
            bitboard,
            sq,
        ) by {
            let j = sq as u64;
            let low = (bitboard >> j) & 1u64;
            assert(low == 0u64);
        }
    }
    bitboard.trailing_zeros() as u8
}

} // verus!
