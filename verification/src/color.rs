//! Linear RGB radiance, carried as a fixed-point vector.

use vstd::prelude::*;

use crate::fixed::fmul;
use crate::fixed::fmul_spec;
use crate::fixed::iabs;
use crate::fixed::SCALE;
use crate::geometry::Vec3;

verus! {

/// A linear RGB color. Channels are fixed-point scalars; full intensity of
/// a channel is `SCALE`, but accumulation may carry values past it until
/// they are averaged back down.
#[derive(Debug, Copy, Clone, PartialEq)]
pub struct Color(pub Vec3<i64>);

/// Every channel of `c` lies in `[0, b]`.
pub open spec fn cbounded(c: Color, b: int) -> bool {
    0 <= c.0.x <= b && 0 <= c.0.y <= b && 0 <= c.0.z <= b
}

/// The componentwise fixed-point product of two colors, one channel.
pub open spec fn modulate_spec(a: int, b: int) -> int {
    fmul_spec(a, b)
}

impl Color {
    pub fn new(r: i64, g: i64, b: i64) -> (c: Color)
        ensures
            c.0 == (Vec3 { x: r, y: g, z: b }),
    {
        Color(Vec3::new(r, g, b))
    }

    /// The red channel.
    pub fn r(&self) -> (v: i64)
        ensures
            v == self.0.x,
    {
        self.0.x
    }

    /// The green channel.
    pub fn g(&self) -> (v: i64)
        ensures
            v == self.0.y,
    {
        self.0.y
    }

    /// The blue channel.
    pub fn b(&self) -> (v: i64)
        ensures
            v == self.0.z,
    {
        self.0.z
    }

    /// Full intensity on every channel.
    pub fn white() -> (c: Color)
        ensures
            c.0 == (Vec3 { x: SCALE as i64, y: SCALE as i64, z: SCALE as i64 }),
    {
        Color(Vec3::new(SCALE, SCALE, SCALE))
    }

    /// No intensity on any channel.
    pub fn black() -> (c: Color)
        ensures
            c.0 == (Vec3 { x: 0i64, y: 0i64, z: 0i64 }),
    {
        Color(Vec3::new(0, 0, 0))
    }

    /// Attenuates `other` by this color, channel by channel: the
    /// fixed-point product of the two channels.
    pub fn attenuate(&self, other: Color) -> (c: Color)
        requires
            cbounded(*self, SCALE as int),
            cbounded(other, SCALE as int),
        ensures
            c.0.x == modulate_spec(self.0.x as int, other.0.x as int),
            c.0.y == modulate_spec(self.0.y as int, other.0.y as int),
            c.0.z == modulate_spec(self.0.z as int, other.0.z as int),
            cbounded(c, SCALE as int),
    {
        proof {
            lemma_channel(self.0.x as int, other.0.x as int);
            lemma_channel(self.0.y as int, other.0.y as int);
            lemma_channel(self.0.z as int, other.0.z as int);
        }
        Color(
            Vec3::new(
                fmul(self.0.x, other.0.x),
                fmul(self.0.y, other.0.y),
                fmul(self.0.z, other.0.z),
            ),
        )
    }
}

/// The fixed-point product of two channels in `[0, SCALE]` stays in
/// `[0, SCALE]`.
pub proof fn lemma_channel(a: int, b: int)
    requires
        0 <= a <= SCALE,
        0 <= b <= SCALE,
    ensures
        0 <= fmul_spec(a, b) <= SCALE,
        0 <= fmul_spec(a, b) <= b,
{
    crate::fixed::lemma_abs_mul(a, b);
    crate::fixed::lemma_div_le(iabs(a * b), SCALE as int);
    assert(a * b <= SCALE * b) by (nonlinear_arith)
        requires
            0 <= a <= SCALE,
            0 <= b,
    ;
    crate::fixed::lemma_div_mono(a * b, SCALE * b, SCALE as int);
    crate::fixed::lemma_scale_cancel(b);
}

impl vstd::std_specs::ops::AddSpecImpl for Color {
    open spec fn obeys_add_spec() -> bool {
        true
    }

    open spec fn add_req(self, rhs: Color) -> bool {
        &&& i64::MIN <= self.0.x + rhs.0.x <= i64::MAX
        &&& i64::MIN <= self.0.y + rhs.0.y <= i64::MAX
        &&& i64::MIN <= self.0.z + rhs.0.z <= i64::MAX
    }

    open spec fn add_spec(self, rhs: Color) -> Color {
        Color(
            Vec3 {
                x: (self.0.x + rhs.0.x) as i64,
                y: (self.0.y + rhs.0.y) as i64,
                z: (self.0.z + rhs.0.z) as i64,
            },
        )
    }
}

impl core::ops::Add for Color {
    type Output = Color;

    fn add(self, other: Self) -> Self {
        Color(Vec3 { x: self.0.x + other.0.x, y: self.0.y + other.0.y, z: self.0.z + other.0.z })
    }
}

} // verus!
