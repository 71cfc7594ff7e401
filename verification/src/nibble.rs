//! Two four-bit counters packed in one byte.
use vstd::prelude::*;

verus! {

/// Two counters from 0 to 15, a left one in the high half of the byte and a
/// right one in the low half.
#[derive(Clone, Copy, Debug, PartialEq, Eq, Structural)]
pub struct Nibble {
    data: u8,
}

proof fn lemma_nibble(data: u8, value: u8)
    by (bit_vector)
    requires
        value < 16,
    ensures
        (data & 0x0F) == data % 16,
        (data >> 4) == data / 16,
        ((data & 0xF0) | value) % 16 == value,
        ((data & 0xF0) | value) / 16 == data / 16,
        ((data & 0x0F) | (value << 4)) % 16 == data % 16,
        ((data & 0x0F) | (value << 4)) / 16 == value,
{
}

impl Nibble {
    /// The counter in the high half.
    pub closed spec fn left(self) -> int {
        self.data as int / 16
    }

    /// The counter in the low half.
    pub closed spec fn right(self) -> int {
        self.data as int % 16
    }

    /// The pair with `value` as its high counter.
    pub closed spec fn with_left(self, value: int) -> Nibble {
        Nibble { data: (value * 16 + self.data as int % 16) as u8 }
    }

    /// The pair with `value` as its low counter.
    pub closed spec fn with_right(self, value: int) -> Nibble {
        Nibble { data: (self.data as int / 16 * 16 + value) as u8 }
    }

    /// Setting one counter leaves the other as it was.
    pub proof fn lemma_with(self, value: int)
        requires
            0 <= value < 16,
        ensures
            self.with_left(value).left() == value,
            self.with_left(value).right() == self.right(),
            self.with_right(value).right() == value,
            self.with_right(value).left() == self.left(),
    {
    }

    /// Each counter is below 16, and the two of them make up the byte.
    pub proof fn lemma_halves(self, other: Nibble)
        ensures
            0 <= self.left() < 16,
            0 <= self.right() < 16,
            self.left() == other.left() && self.right() == other.right() ==> self == other,
    {
    }

    /// Both counters at 0.
    pub fn new() -> (r: Self)
        ensures
            r.left() == 0,
            r.right() == 0,
    {
        Nibble { data: 0 }
    }

    /// The counter in the low half.
    pub fn get_right(&self) -> (r: u8)
        ensures
            r == self.right(),
            r < 16,
    {
        proof {
            lemma_nibble(self.data, 0);
        }
        self.data & 0x0F
    }

    /// The counter in the high half.
    pub fn get_left(&self) -> (r: u8)
        ensures
            r == self.left(),
            r < 16,
    {
        proof {
            lemma_nibble(self.data, 0);
        }
        self.data >> 4
    }

    /// Sets the low counter. A counter has four bits.
    pub fn set_right(&mut self, value: u8)
        requires
            value < 16,
        ensures
            *final(self) == old(self).with_right(value as int),
            final(self).right() == value,
            final(self).left() == old(self).left(),
    {
        proof {
            lemma_nibble(self.data, value);
            lemma_nibble(self.data & 0xF0, value);
        }
        self.data &= 0xF0;
        self.data |= value;
    }

    /// Sets the high counter. A counter has four bits.
    pub fn set_left(&mut self, value: u8)
        requires
            value < 16,
        ensures
            *final(self) == old(self).with_left(value as int),
            final(self).left() == value,
            final(self).right() == old(self).right(),
    {
        proof {
            lemma_nibble(self.data, value);
            lemma_nibble(self.data & 0x0F, value);
        }
        self.data &= 0x0F;
        self.data |= value << 4;
    }
}

} // verus!
