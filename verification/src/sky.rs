//! Background light: what a ray that escapes the scene brings home.

pub mod day;
pub mod uniform;

pub use day::Day;
pub use uniform::Uniform;

use vstd::prelude::*;

use crate::color::cbounded;
use crate::color::Color;
use crate::fixed::SCALE;
use crate::geometry::vec3::vbounded;
use crate::geometry::Vec3;

verus! {

/// One of the supported backgrounds.
pub enum Sky {
    Uniform(Uniform),
    Day(Day),
}

/// The stored background never amplifies a channel.
pub open spec fn sky_wf(s: Sky) -> bool {
    match s {
        Sky::Uniform(u) => cbounded(u.color, SCALE as int),
        Sky::Day(_) => true,
    }
}

impl Sky {
    /// The background color seen along a unit direction.
    pub fn at(&self, unit_dir: Vec3<i64>) -> (c: Color)
        requires
            sky_wf(*self),
            vbounded(unit_dir, 3 * SCALE),
        ensures
            cbounded(c, SCALE as int),
            match *self {
                Sky::Uniform(u) => c == u.color,
                Sky::Day(_) => c == crate::sky::day::day_at_spec(unit_dir),
            },
    {
        match self {
            Sky::Uniform(u) => u.at(unit_dir),
            Sky::Day(d) => d.at(unit_dir),
        }
    }
}

} // verus!
