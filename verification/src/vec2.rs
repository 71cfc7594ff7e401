//! Column and row pairs: cells of the grid and displacements between them.
use crate::bitboard::{on_grid, square};
use vstd::prelude::*;

verus! {

/// A column `x` and a row `y`.
#[derive(Clone, Copy, Debug, PartialEq, Eq, Structural)]
pub struct Vec2 {
    pub x: i32,
    pub y: i32,
}

/// Whether `a + b` can be held in an `i32`.
pub open spec fn fits_i32(v: int) -> bool {
    i32::MIN <= v <= i32::MAX
}

impl Vec2 {
    /// Whether the pair names a cell of the grid.
    pub open spec fn on_grid(self) -> bool {
        on_grid(self.x as int, self.y as int)
    }

    /// The square index of the cell that the pair names.
    pub open spec fn square(self) -> int {
        square(self.x as int, self.y as int)
    }

    /// The cell that square `pos` stands for.
    pub open spec fn of_square(pos: int) -> Vec2 {
        Vec2 { x: (7 - pos % 8) as i32, y: (pos / 8) as i32 }
    }

    /// The sum of two pairs, component by component.
    pub open spec fn plus(self, other: Vec2) -> Vec2 {
        Vec2 { x: (self.x + other.x) as i32, y: (self.y + other.y) as i32 }
    }

    /// The difference of two pairs, component by component.
    pub open spec fn minus(self, other: Vec2) -> Vec2 {
        Vec2 { x: (self.x - other.x) as i32, y: (self.y - other.y) as i32 }
    }

    /// Creates a new vector.
    pub fn new(x: i32, y: i32) -> (r: Self)
        ensures
            r.x == x,
            r.y == y,
    {
        Self { x, y }
    }

    /// Add this vector to another.
    pub fn add(&self, vec2: &Vec2) -> (r: Vec2)
        requires
            fits_i32(vec2.x + self.x),
            fits_i32(vec2.y + self.y),
        ensures
            r == self.plus(*vec2),
            r.x == self.x + vec2.x,
            r.y == self.y + vec2.y,
    {
        Vec2::new(vec2.x + self.x, vec2.y + self.y)
    }

    /// Creates a new vector with both components set to the given value.
    pub fn both(value: i32) -> (r: Self)
        ensures
            r.x == value,
            r.y == value,
    {
        Self::new(value, value)
    }

    /// The smaller column and the smaller row of the two.
    pub fn min(self, other: Vec2) -> (r: Self)
        ensures
            r.x == if self.x <= other.x { self.x } else { other.x },
            r.y == if self.y <= other.y { self.y } else { other.y },
    {
        let x = if self.x <= other.x { self.x } else { other.x };
        let y = if self.y <= other.y { self.y } else { other.y };
        Self::new(x, y)
    }

    /// The larger column and the larger row of the two.
    pub fn max(self, other: Vec2) -> (r: Self)
        ensures
            r.x == if self.x >= other.x { self.x } else { other.x },
            r.y == if self.y >= other.y { self.y } else { other.y },
    {
        let x = if self.x >= other.x { self.x } else { other.x };
        let y = if self.y >= other.y { self.y } else { other.y };
        Self::new(x, y)
    }

    /// The cell that square `pos` stands for.
    pub fn from_pos(pos: u8) -> (r: Self)
        requires
            pos < 64,
        ensures
            r == Vec2::of_square(pos as int),
            r.on_grid(),
            r.square() == pos,
    {
        Vec2 { x: 7 - (pos % 8) as i32, y: (pos / 8) as i32 }
    }

    /// The square index of the cell that the pair names.
    pub fn position(&self) -> (pos: u8)
        requires
            self.on_grid(),
        ensures
            pos == self.square(),
            pos < 64,
    {
        (self.y * 8 + 7 - self.x) as u8
    }
}

impl core::ops::Add for Vec2 {
    type Output = Vec2;

    fn add(self, rhs: Vec2) -> (r: Vec2) {
        Vec2 { x: self.x + rhs.x, y: self.y + rhs.y }
    }
}

impl vstd::std_specs::ops::AddSpecImpl for Vec2 {
    open spec fn obeys_add_spec() -> bool {
        true
    }

    open spec fn add_req(self, rhs: Vec2) -> bool {
        fits_i32(self.x + rhs.x) && fits_i32(self.y + rhs.y)
    }

    open spec fn add_spec(self, rhs: Vec2) -> Vec2 {
        self.plus(rhs)
    }
}

impl core::ops::Sub for Vec2 {
    type Output = Vec2;

    fn sub(self, rhs: Vec2) -> (r: Vec2) {
        Vec2 { x: self.x - rhs.x, y: self.y - rhs.y }
    }
}

impl vstd::std_specs::ops::SubSpecImpl for Vec2 {
    open spec fn obeys_sub_spec() -> bool {
        true
    }

    open spec fn sub_req(self, rhs: Vec2) -> bool {
        fits_i32(self.x - rhs.x) && fits_i32(self.y - rhs.y)
    }

    open spec fn sub_spec(self, rhs: Vec2) -> Vec2 {
        self.minus(rhs)
    }
}

} // verus!
