//! A daytime background: a vertical gradient from white to sky blue.

use vstd::prelude::*;

use crate::color::cbounded;
use crate::color::lemma_channel;
use crate::color::Color;
use crate::fixed::fmul;
use crate::fixed::fmul_spec;
use crate::fixed::SCALE;
use crate::geometry::vec3::vbounded;
use crate::geometry::Vec3;

verus! {

/// The blend parameter of the gradient: half of one more than the
/// vertical component, clamped into one unit.
pub open spec fn day_t_spec(unit_dir: Vec3<i64>) -> int {
    let raw = fmul_spec(500000, unit_dir.y + SCALE);
    if raw < 0 {
        0
    } else if raw > SCALE {
        SCALE as int
    } else {
        raw
    }
}

/// The gradient color: white at the horizon blended toward sky blue
/// upward, channel by channel.
pub open spec fn day_at_spec(unit_dir: Vec3<i64>) -> Color {
    let t = day_t_spec(unit_dir);
    Color(
        Vec3 {
            x: (fmul_spec(SCALE as int, SCALE - t) + fmul_spec(500000, t)) as i64,
            y: (fmul_spec(SCALE as int, SCALE - t) + fmul_spec(700000, t)) as i64,
            z: (fmul_spec(SCALE as int, SCALE - t) + fmul_spec(SCALE as int, t)) as i64,
        },
    )
}

/// A clear-day gradient.
pub struct Day {}

impl Day {
    pub fn new() -> (s: Day) {
        Self {  }
    }

    /// Blends white toward sky blue by the height of the direction.
    pub fn at(&self, unit_dir: Vec3<i64>) -> (c: Color)
        requires
            vbounded(unit_dir, 3 * SCALE),
        ensures
            c == day_at_spec(unit_dir),
            cbounded(c, SCALE as int),
    {
        proof {
            crate::fixed::lemma_fmul_bound_scaled(500000, unit_dir.y as int + SCALE, 1, 4);
        }
        let raw = fmul(500000, unit_dir.y + SCALE);
        let t = if raw < 0 {
            0
        } else if raw > SCALE {
            SCALE
        } else {
            raw
        };
        proof {
            lemma_channel(SCALE as int, SCALE - t as int);
            lemma_channel(500000, t as int);
            lemma_channel(700000, t as int);
            lemma_channel(SCALE as int, t as int);
        }
        let white_part = fmul(SCALE, SCALE - t);
        Color(
            Vec3::new(
                white_part + fmul(500000, t),
                white_part + fmul(700000, t),
                white_part + fmul(SCALE, t),
            ),
        )
    }
}

} // verus!
