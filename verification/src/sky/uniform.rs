//! A background of one flat color.

use vstd::prelude::*;

use crate::color::cbounded;
use crate::color::Color;
use crate::fixed::SCALE;
use crate::geometry::Vec3;

verus! {

/// The same color in every direction.
pub struct Uniform {
    pub color: Color,
}

impl Uniform {
    pub fn new(color: Color) -> (s: Uniform)
        requires
            cbounded(color, SCALE as int),
        ensures
            s.color == color,
    {
        Self { color }
    }

    /// The stored color, whatever the direction.
    pub fn at(&self, _unit_dir: Vec3<i64>) -> (c: Color)
        ensures
            c == self.color,
    {
        self.color
    }
}

} // verus!
