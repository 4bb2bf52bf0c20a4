//! Metric operations on fixed-point vectors.

use vstd::arithmetic::div_mod::lemma_fundamental_div_mod_converse;
use vstd::prelude::*;

use crate::fixed::fdiv;
use crate::fixed::fdiv_spec;
use crate::fixed::fmul;
use crate::fixed::fmul_spec;
use crate::fixed::fsqrt;
use crate::fixed::iabs;
use crate::fixed::is_isqrt;
use crate::fixed::lemma_abs_mul;
use crate::fixed::lemma_div_le;
use crate::fixed::lemma_div_mono;
use crate::fixed::lemma_fmul_bound;
use crate::fixed::lemma_fsq_nonneg;
use crate::fixed::lemma_mul_le;
use crate::fixed::lemma_root_lt;
use crate::fixed::lemma_sqrt_val;
use crate::fixed::sqrt_spec;
use crate::fixed::SCALE;
use crate::rng::rand_range;

use vstd::std_specs::ops::AddSpec;
use vstd::std_specs::ops::DivSpec;
use vstd::std_specs::ops::MulSpec;
use vstd::std_specs::ops::NegSpec;
use vstd::std_specs::ops::SubSpec;

verus! {

/// A three-component vector of coordinates, directions or colors.
#[derive(Debug, Copy, Clone, PartialEq)]
pub struct Vec3<T> {
    pub x: T,
    pub y: T,
    pub z: T,
}

impl<T: Copy> Vec3<T> {
    pub fn new(x: T, y: T, z: T) -> (v: Vec3<T>)
        ensures
            v == (Vec3 { x, y, z }),
    {
        Vec3 { x, y, z }
    }

    /// The first component.
    #[inline(always)]
    pub fn x(&self) -> (r: T)
        ensures
            r == self.x,
    {
        self.x
    }

    /// The second component.
    #[inline(always)]
    pub fn y(&self) -> (r: T)
        ensures
            r == self.y,
    {
        self.y
    }

    /// The third component.
    #[inline(always)]
    pub fn z(&self) -> (r: T)
        ensures
            r == self.z,
    {
        self.z
    }
}

impl<T: core::ops::Add<Output = T>> vstd::std_specs::ops::AddSpecImpl for Vec3<T> {
    open spec fn obeys_add_spec() -> bool {
        T::obeys_add_spec()
    }

    open spec fn add_req(self, rhs: Vec3<T>) -> bool {
        self.x.add_req(rhs.x) && self.y.add_req(rhs.y) && self.z.add_req(rhs.z)
    }

    open spec fn add_spec(self, rhs: Vec3<T>) -> Vec3<T> {
        Vec3 { x: self.x.add_spec(rhs.x), y: self.y.add_spec(rhs.y), z: self.z.add_spec(rhs.z) }
    }
}

impl<T: core::ops::Add<Output = T>> core::ops::Add for Vec3<T> {
    type Output = Vec3<T>;

    fn add(self, other: Self) -> Self {
        Vec3 { x: self.x + other.x, y: self.y + other.y, z: self.z + other.z }
    }
}

impl<T: core::ops::Sub<Output = T>> vstd::std_specs::ops::SubSpecImpl for Vec3<T> {
    open spec fn obeys_sub_spec() -> bool {
        T::obeys_sub_spec()
    }

    open spec fn sub_req(self, rhs: Vec3<T>) -> bool {
        self.x.sub_req(rhs.x) && self.y.sub_req(rhs.y) && self.z.sub_req(rhs.z)
    }

    open spec fn sub_spec(self, rhs: Vec3<T>) -> Vec3<T> {
        Vec3 { x: self.x.sub_spec(rhs.x), y: self.y.sub_spec(rhs.y), z: self.z.sub_spec(rhs.z) }
    }
}

impl<T: core::ops::Sub<Output = T>> core::ops::Sub for Vec3<T> {
    type Output = Vec3<T>;

    fn sub(self, other: Self) -> Self {
        Vec3 { x: self.x - other.x, y: self.y - other.y, z: self.z - other.z }
    }
}

impl<T: core::ops::Mul<Output = T>> vstd::std_specs::ops::MulSpecImpl for Vec3<T> {
    open spec fn obeys_mul_spec() -> bool {
        T::obeys_mul_spec()
    }

    open spec fn mul_req(self, rhs: Vec3<T>) -> bool {
        self.x.mul_req(rhs.x) && self.y.mul_req(rhs.y) && self.z.mul_req(rhs.z)
    }

    open spec fn mul_spec(self, rhs: Vec3<T>) -> Vec3<T> {
        Vec3 { x: self.x.mul_spec(rhs.x), y: self.y.mul_spec(rhs.y), z: self.z.mul_spec(rhs.z) }
    }
}

impl<T: core::ops::Mul<Output = T>> core::ops::Mul for Vec3<T> {
    type Output = Vec3<T>;

    fn mul(self, other: Self) -> Self {
        Vec3 { x: self.x * other.x, y: self.y * other.y, z: self.z * other.z }
    }
}

impl<T: core::ops::Div<Output = T>> vstd::std_specs::ops::DivSpecImpl for Vec3<T> {
    open spec fn obeys_div_spec() -> bool {
        T::obeys_div_spec()
    }

    open spec fn div_req(self, rhs: Vec3<T>) -> bool {
        self.x.div_req(rhs.x) && self.y.div_req(rhs.y) && self.z.div_req(rhs.z)
    }

    open spec fn div_spec(self, rhs: Vec3<T>) -> Vec3<T> {
        Vec3 { x: self.x.div_spec(rhs.x), y: self.y.div_spec(rhs.y), z: self.z.div_spec(rhs.z) }
    }
}

impl<T: core::ops::Div<Output = T>> core::ops::Div for Vec3<T> {
    type Output = Vec3<T>;

    fn div(self, other: Self) -> Self {
        Vec3 { x: self.x / other.x, y: self.y / other.y, z: self.z / other.z }
    }
}

impl<T: core::ops::Neg<Output = T>> vstd::std_specs::ops::NegSpecImpl for Vec3<T> {
    open spec fn obeys_neg_spec() -> bool {
        T::obeys_neg_spec()
    }

    open spec fn neg_req(self) -> bool {
        self.x.neg_req() && self.y.neg_req() && self.z.neg_req()
    }

    open spec fn neg_spec(self) -> Vec3<T> {
        Vec3 { x: self.x.neg_spec(), y: self.y.neg_spec(), z: self.z.neg_spec() }
    }
}

impl<T: core::ops::Neg<Output = T>> core::ops::Neg for Vec3<T> {
    type Output = Vec3<T>;

    fn neg(self) -> Self {
        Vec3 { x: self.x.neg(), y: self.y.neg(), z: self.z.neg() }
    }
}

/// The fixed-point scalar that coordinates are measured in.
pub type Fixed = i64;

/// The largest magnitude a stored coordinate may have; chosen so that the
/// triple products of the intersection tests stay inside the scalar range.
pub const COORD_MAX: i64 = 0x1_0000_0000;

/// The largest magnitude a stored scene coordinate may have: half the
/// arithmetic coordinate bound, so that differences of two stored
/// coordinates still satisfy it.
pub const WORLD_MAX: i64 = 0x8000_0000;

/// Below this raw magnitude on every component a vector counts as zero.
pub const NEAR_ZERO_EPS: i64 = 1;

/// Every component of `v` has magnitude at most `b`.
pub open spec fn vbounded(v: Vec3<i64>, b: int) -> bool {
    iabs(v.x as int) <= b && iabs(v.y as int) <= b && iabs(v.z as int) <= b
}

/// The fixed-point dot product of `a` and `b`.
pub open spec fn dot_spec(a: Vec3<i64>, b: Vec3<i64>) -> int {
    fmul_spec(a.x as int, b.x as int) + fmul_spec(a.y as int, b.y as int) + fmul_spec(
        a.z as int,
        b.z as int,
    )
}

/// The fixed-point squared length of `v`.
pub open spec fn len_sq_spec(v: Vec3<i64>) -> int {
    dot_spec(v, v)
}

/// The fixed-point length of `v`: the truncated square root of the
/// rescaled squared length.
pub open spec fn len_spec(v: Vec3<i64>) -> int {
    sqrt_spec(len_sq_spec(v) * SCALE)
}

/// The first component of the fixed-point cross product.
pub open spec fn cross_x_spec(a: Vec3<i64>, b: Vec3<i64>) -> int {
    fmul_spec(a.y as int, b.z as int) - fmul_spec(a.z as int, b.y as int)
}

/// The second component of the fixed-point cross product.
pub open spec fn cross_y_spec(a: Vec3<i64>, b: Vec3<i64>) -> int {
    fmul_spec(a.z as int, b.x as int) - fmul_spec(a.x as int, b.z as int)
}

/// The third component of the fixed-point cross product.
pub open spec fn cross_z_spec(a: Vec3<i64>, b: Vec3<i64>) -> int {
    fmul_spec(a.x as int, b.y as int) - fmul_spec(a.y as int, b.x as int)
}

/// The reflection of `v` about the normal `n`: `v - 2 * dot(v, n) * n`.
pub open spec fn reflect_spec(v: Vec3<i64>, n: Vec3<i64>) -> (int, int, int) {
    let twice: int = 2 * dot_spec(v, n);
    (
        v.x - fmul_spec(n.x as int, twice),
        v.y - fmul_spec(n.y as int, twice),
        v.z - fmul_spec(n.z as int, twice),
    )
}

/// The refraction of `v` about the normal `n` with index ratio `eta`:
/// Snell's law, split into the component perpendicular to the normal and
/// the component parallel to it.
pub open spec fn refract_spec(v: Vec3<i64>, n: Vec3<i64>, eta: int) -> (int, int, int) {
    let d = dot_spec(n, Vec3 { x: (-v.x) as i64, y: (-v.y) as i64, z: (-v.z) as i64 });
    let cos = if d <= SCALE {
        d
    } else {
        SCALE as int
    };
    let px = fmul_spec(eta, v.x + fmul_spec(cos, n.x as int));
    let py = fmul_spec(eta, v.y + fmul_spec(cos, n.y as int));
    let pz = fmul_spec(eta, v.z + fmul_spec(cos, n.z as int));
    let plsq = fmul_spec(px, px) + fmul_spec(py, py) + fmul_spec(pz, pz);
    let s = sqrt_spec(iabs(SCALE - plsq) * SCALE);
    (px - fmul_spec(s, n.x as int), py - fmul_spec(s, n.y as int), pz - fmul_spec(s, n.z as int))
}

/// The normalization of `v`: each component divided by the truncated
/// length.
pub open spec fn unit_spec(v: Vec3<i64>) -> Vec3<i64> {
    Vec3 {
        x: fdiv_spec(v.x as int, len_spec(v)) as i64,
        y: fdiv_spec(v.y as int, len_spec(v)) as i64,
        z: fdiv_spec(v.z as int, len_spec(v)) as i64,
    }
}

/// `v` counts as zero: every component is below the resolution threshold.
pub open spec fn near_zero_spec(v: Vec3<i64>) -> bool {
    iabs(v.x as int) < NEAR_ZERO_EPS && iabs(v.y as int) < NEAR_ZERO_EPS && iabs(v.z as int)
        < NEAR_ZERO_EPS
}

/// A fixed-point dot product of vectors bounded by `ba` and `bb` is bounded
/// by three rescaled bound products.
pub proof fn lemma_dot_bound(a: Vec3<i64>, b: Vec3<i64>, ba: int, bb: int)
    requires
        vbounded(a, ba),
        vbounded(b, bb),
    ensures
        iabs(dot_spec(a, b)) <= 3 * ((ba * bb) / (SCALE as int)),
{
    lemma_fmul_bound(a.x as int, b.x as int, ba, bb);
    lemma_fmul_bound(a.y as int, b.y as int, ba, bb);
    lemma_fmul_bound(a.z as int, b.z as int, ba, bb);
}

/// A fixed-point dot product of vectors bounded by multiples of the scale
/// is bounded by three times the product of the multiples, rescaled.
pub proof fn lemma_dot_bound_scaled(a: Vec3<i64>, b: Vec3<i64>, ka: int, kb: int)
    requires
        vbounded(a, ka * SCALE),
        vbounded(b, kb * SCALE),
        ka >= 0,
        kb >= 0,
    ensures
        iabs(dot_spec(a, b)) <= 3 * ((ka * kb) * SCALE),
{
    crate::fixed::lemma_fmul_bound_scaled(a.x as int, b.x as int, ka, kb);
    crate::fixed::lemma_fmul_bound_scaled(a.y as int, b.y as int, ka, kb);
    crate::fixed::lemma_fmul_bound_scaled(a.z as int, b.z as int, ka, kb);
}

/// The dot product is symmetric in its arguments.
pub proof fn lemma_dot_symmetric(a: Vec3<i64>, b: Vec3<i64>)
    ensures
        dot_spec(a, b) == dot_spec(b, a),
{
    assert(a.x as int * b.x as int == b.x as int * a.x as int) by (nonlinear_arith);
    assert(a.y as int * b.y as int == b.y as int * a.y as int) by (nonlinear_arith);
    assert(a.z as int * b.z as int == b.z as int * a.z as int) by (nonlinear_arith);
}

/// The cross product is antisymmetric: swapping the arguments negates
/// every component.
pub proof fn lemma_cross_antisymmetric(a: Vec3<i64>, b: Vec3<i64>)
    ensures
        cross_x_spec(a, b) == -cross_x_spec(b, a),
        cross_y_spec(a, b) == -cross_y_spec(b, a),
        cross_z_spec(a, b) == -cross_z_spec(b, a),
{
    assert forall|p: i64, q: i64| fmul_spec(p as int, q as int) == fmul_spec(
        q as int,
        p as int,
    ) by {
        assert(p as int * q as int == q as int * p as int) by (nonlinear_arith);
    }
}

/// Each fixed-point square making up a squared length is itself bounded by
/// the squared length.
proof fn lemma_sq_le_len_sq(v: Vec3<i64>)
    ensures
        fmul_spec(v.x as int, v.x as int) <= len_sq_spec(v),
        fmul_spec(v.y as int, v.y as int) <= len_sq_spec(v),
        fmul_spec(v.z as int, v.z as int) <= len_sq_spec(v),
        fmul_spec(v.x as int, v.x as int) >= 0,
        fmul_spec(v.y as int, v.y as int) >= 0,
        fmul_spec(v.z as int, v.z as int) >= 0,
        len_sq_spec(v) >= 0,
{
    lemma_fsq_nonneg(v.x as int);
    lemma_fsq_nonneg(v.y as int);
    lemma_fsq_nonneg(v.z as int);
}

/// A component of `v` cannot be much longer than the whole vector: its
/// magnitude is below `len_spec(v) + SCALE`.
proof fn lemma_comp_le_len(v: Vec3<i64>, x: int)
    requires
        x == v.x as int || x == v.y as int || x == v.z as int,
    ensures
        iabs(x) <= len_spec(v) + SCALE,
{
    lemma_sq_le_len_sq(v);
    let lsq = len_sq_spec(v);
    let l = len_spec(v);
    assert(is_isqrt(lsq * SCALE, l)) by {
        assert(lsq * SCALE >= 0) by (nonlinear_arith)
            requires
                lsq >= 0,
                SCALE >= 1,
        ;
        crate::fixed::lemma_sqrt_props(lsq * SCALE);
    }
    assert(fmul_spec(x, x) == x * x / (SCALE as int)) by {
        assert(x * x >= 0) by (nonlinear_arith);
        lemma_abs_mul(x, x);
    }
    assert(x * x < (fmul_spec(x, x) + 1) * SCALE) by (nonlinear_arith)
        requires
            fmul_spec(x, x) == x * x / (SCALE as int),
            SCALE >= 1,
            x * x >= 0,
    ;
    assert(x * x < (lsq + 1) * SCALE) by (nonlinear_arith)
        requires
            x * x < (fmul_spec(x, x) + 1) * SCALE,
            fmul_spec(x, x) <= lsq,
            SCALE >= 1,
    ;
    assert(iabs(x) <= l + SCALE) by (nonlinear_arith)
        requires
            x * x < (lsq + 1) * SCALE,
            lsq * SCALE < (l + 1) * (l + 1),
            l >= 0,
            SCALE >= 2,
    ;
}

/// The quotient of a component by a length at most `k` times shorter than
/// one unit stays within `k + 1` units.
proof fn lemma_unit_comp_bound(x: int, l: int, k: int)
    requires
        l >= 1,
        k >= 1,
        iabs(x) <= l + SCALE,
        SCALE <= k * l,
    ensures
        iabs(fdiv_spec(x, l)) <= (k + 1) * SCALE,
{
    lemma_abs_mul(x, SCALE as int);
    assert(iabs(fdiv_spec(x, l)) == iabs(x) * SCALE / l) by {
        lemma_div_le(iabs(x * SCALE), l);
    }
    assert(iabs(x) * SCALE <= ((k + 1) * SCALE) * l) by (nonlinear_arith)
        requires
            iabs(x) <= l + SCALE,
            SCALE <= k * l,
            l >= 1,
            k >= 1,
            SCALE >= 1,
    ;
    lemma_div_mono(iabs(x) * SCALE, ((k + 1) * SCALE) * l, l);
    lemma_fundamental_div_mod_converse(((k + 1) * SCALE) * l, l, (k + 1) * SCALE, 0);
}

impl Vec3<i64> {
    /// Computes the squared length of the vector, equivalent to `v.dot(v)`.
    pub fn len_sq(&self) -> (r: i64)
        requires
            vbounded(*self, COORD_MAX as int),
        ensures
            r == len_sq_spec(*self),
            0 <= r <= 3 * ((COORD_MAX as int * COORD_MAX as int) / (SCALE as int)),
    {
        proof {
            lemma_sq_le_len_sq(*self);
            lemma_dot_bound(*self, *self, COORD_MAX as int, COORD_MAX as int);
            lemma_fmul_bound(self.x as int, self.x as int, COORD_MAX as int, COORD_MAX as int);
            lemma_fmul_bound(self.y as int, self.y as int, COORD_MAX as int, COORD_MAX as int);
            lemma_fmul_bound(self.z as int, self.z as int, COORD_MAX as int, COORD_MAX as int);
        }
        fmul(self.x, self.x) + fmul(self.y, self.y) + fmul(self.z, self.z)
    }

    /// Computes the fixed-point Euclidean length of the vector.
    pub fn len(&self) -> (r: i64)
        requires
            vbounded(*self, COORD_MAX as int),
        ensures
            r == len_spec(*self),
            r >= 0,
    {
        let lsq = self.len_sq();
        let r = fsqrt(lsq);
        proof {
            lemma_sqrt_val(lsq as int * SCALE, r as int);
        }
        r
    }

    /// Computes the dot product of two vectors componentwise.
    pub fn dot(&self, other: Vec3<i64>) -> (r: i64)
        requires
            vbounded(*self, COORD_MAX as int),
            vbounded(other, COORD_MAX as int),
        ensures
            r == dot_spec(*self, other),
            iabs(r as int) <= 3 * ((COORD_MAX as int * COORD_MAX as int) / (SCALE as int)),
    {
        proof {
            lemma_dot_bound(*self, other, COORD_MAX as int, COORD_MAX as int);
            lemma_fmul_bound(self.x as int, other.x as int, COORD_MAX as int, COORD_MAX as int);
            lemma_fmul_bound(self.y as int, other.y as int, COORD_MAX as int, COORD_MAX as int);
            lemma_fmul_bound(self.z as int, other.z as int, COORD_MAX as int, COORD_MAX as int);
        }
        fmul(self.x, other.x) + fmul(self.y, other.y) + fmul(self.z, other.z)
    }

    /// Computes the cross product of two vectors.
    pub fn cross(&self, other: Vec3<i64>) -> (r: Vec3<i64>)
        requires
            vbounded(*self, COORD_MAX as int),
            vbounded(other, COORD_MAX as int),
        ensures
            r.x == cross_x_spec(*self, other),
            r.y == cross_y_spec(*self, other),
            r.z == cross_z_spec(*self, other),
            vbounded(r, 2 * ((COORD_MAX as int * COORD_MAX as int) / (SCALE as int))),
    {
        proof {
            lemma_fmul_bound(self.y as int, other.z as int, COORD_MAX as int, COORD_MAX as int);
            lemma_fmul_bound(self.z as int, other.y as int, COORD_MAX as int, COORD_MAX as int);
            lemma_fmul_bound(self.z as int, other.x as int, COORD_MAX as int, COORD_MAX as int);
            lemma_fmul_bound(self.x as int, other.z as int, COORD_MAX as int, COORD_MAX as int);
            lemma_fmul_bound(self.x as int, other.y as int, COORD_MAX as int, COORD_MAX as int);
            lemma_fmul_bound(self.y as int, other.x as int, COORD_MAX as int, COORD_MAX as int);
        }
        Vec3::new(
            fmul(self.y, other.z) - fmul(self.z, other.y),
            fmul(self.z, other.x) - fmul(self.x, other.z),
            fmul(self.x, other.y) - fmul(self.y, other.x),
        )
    }

    /// Returns the unit-length representation of the vector, each component
    /// divided by the truncated length. The squared length must be at least
    /// one raw step; the shorter the vector, the looser the bound on the
    /// result, which is why the samplers reject short candidates.
    pub fn unit(&self) -> (r: Vec3<i64>)
        requires
            vbounded(*self, COORD_MAX as int),
            len_sq_spec(*self) >= 1,
        ensures
            r.x == fdiv_spec(self.x as int, len_spec(*self)),
            r.y == fdiv_spec(self.y as int, len_spec(*self)),
            r.z == fdiv_spec(self.z as int, len_spec(*self)),
            len_sq_spec(*self) >= SCALE as int ==> vbounded(r, 2 * SCALE),
            len_sq_spec(*self) >= (SCALE as int) / 4 ==> vbounded(r, 3 * SCALE),
    {
        let lsq = self.len_sq();
        let l = fsqrt(lsq);
        proof {
            lemma_sqrt_val(lsq as int * SCALE, l as int);
            assert(l >= 1) by (nonlinear_arith)
                requires
                    l >= 0,
                    lsq as int * SCALE < (l + 1) * (l + 1),
                    lsq >= 1,
                    SCALE >= 2,
            ;
            lemma_comp_le_len(*self, self.x as int);
            lemma_comp_le_len(*self, self.y as int);
            lemma_comp_le_len(*self, self.z as int);
            assert forall|c: i64|
                iabs(c as int) <= l + SCALE implies iabs(
                fdiv_spec(c as int, l as int),
            ) <= i64::MAX as int by {
                lemma_unit_comp_bound(c as int, l as int, SCALE as int);
            }
            if lsq >= SCALE {
                assert(SCALE as int <= 1 * l) by (nonlinear_arith)
                    requires
                        l >= 0,
                        lsq as int * SCALE < (l + 1) * (l + 1),
                        lsq >= SCALE,
                        SCALE >= 2,
                ;
                lemma_unit_comp_bound(self.x as int, l as int, 1);
                lemma_unit_comp_bound(self.y as int, l as int, 1);
                lemma_unit_comp_bound(self.z as int, l as int, 1);
            }
            if lsq >= SCALE / 4 {
                assert(SCALE as int <= 2 * l) by (nonlinear_arith)
                    requires
                        l >= 0,
                        lsq as int * SCALE < (l + 1) * (l + 1),
                        4 * lsq >= SCALE,
                        SCALE == 1000000,
                ;
                lemma_unit_comp_bound(self.x as int, l as int, 2);
                lemma_unit_comp_bound(self.y as int, l as int, 2);
                lemma_unit_comp_bound(self.z as int, l as int, 2);
            }
        }
        Vec3::new(fdiv(self.x, l), fdiv(self.y, l), fdiv(self.z, l))
    }

    /// Reflects the vector about a surface given by its normal vector.
    pub fn reflect(&self, normal: Vec3<i64>) -> (r: Vec3<i64>)
        requires
            vbounded(*self, COORD_MAX as int),
            vbounded(normal, COORD_MAX as int),
        ensures
            (r.x as int, r.y as int, r.z as int) == reflect_spec(*self, normal),
    {
        let d = self.dot(normal);
        let twice = 2 * d;
        let ghost tb: int = 6 * ((COORD_MAX as int * COORD_MAX as int) / (SCALE as int));
        proof {
            lemma_fmul_bound(normal.x as int, twice as int, COORD_MAX as int, tb);
            lemma_fmul_bound(normal.y as int, twice as int, COORD_MAX as int, tb);
            lemma_fmul_bound(normal.z as int, twice as int, COORD_MAX as int, tb);
        }
        Vec3::new(
            self.x - fmul(normal.x, twice),
            self.y - fmul(normal.y, twice),
            self.z - fmul(normal.z, twice),
        )
    }

    /// Refracts the vector (assumed near unit length) about the normal
    /// `n` with the given ratio of refraction indices, by Snell's law
    /// split into components perpendicular and parallel to the normal.
    pub fn refract(&self, normal: Vec3<i64>, eta_ratio: i64) -> (r: Vec3<i64>)
        requires
            vbounded(*self, 3 * SCALE),
            vbounded(normal, 2 * SCALE),
            0 <= eta_ratio <= 4 * SCALE,
        ensures
            ({
                let (rx, ry, rz) = refract_spec(*self, normal, eta_ratio as int);
                r.x == rx && r.y == ry && r.z == rz
            }),
            vbounded(r, 1000 * SCALE),
    {
        let v = *self;
        let minus_v = Vec3::new(-v.x, -v.y, -v.z);
        proof {
            lemma_dot_bound_scaled(normal, minus_v, 2, 3);
        }
        let d = normal.dot(minus_v);
        let cos_theta = if d <= SCALE {
            d
        } else {
            SCALE
        };
        proof {
            crate::fixed::lemma_fmul_bound_scaled(cos_theta as int, normal.x as int, 18, 2);
            crate::fixed::lemma_fmul_bound_scaled(cos_theta as int, normal.y as int, 18, 2);
            crate::fixed::lemma_fmul_bound_scaled(cos_theta as int, normal.z as int, 18, 2);
            crate::fixed::lemma_fmul_bound_scaled(
                eta_ratio as int,
                v.x + fmul_spec(cos_theta as int, normal.x as int),
                4,
                39,
            );
            crate::fixed::lemma_fmul_bound_scaled(
                eta_ratio as int,
                v.y + fmul_spec(cos_theta as int, normal.y as int),
                4,
                39,
            );
            crate::fixed::lemma_fmul_bound_scaled(
                eta_ratio as int,
                v.z + fmul_spec(cos_theta as int, normal.z as int),
                4,
                39,
            );
        }
        let perp = Vec3::new(
            fmul(eta_ratio, v.x + fmul(cos_theta, normal.x)),
            fmul(eta_ratio, v.y + fmul(cos_theta, normal.y)),
            fmul(eta_ratio, v.z + fmul(cos_theta, normal.z)),
        );
        proof {
            lemma_dot_bound_scaled(perp, perp, 156, 156);
        }
        let shortfall = SCALE - perp.len_sq();
        let mag = if shortfall >= 0 {
            shortfall
        } else {
            -shortfall
        };
        let s = fsqrt(mag);
        proof {
            lemma_sqrt_val(mag as int * SCALE, s as int);
            lemma_mul_le(mag as int, SCALE as int, 73009 * SCALE, SCALE as int);
            assert((280 * SCALE) * (280 * SCALE) > 73009 * SCALE * SCALE) by (nonlinear_arith)
                requires
                    SCALE == 1000000,
            ;
            lemma_root_lt(s as int, mag as int * SCALE, 280 * SCALE);
            crate::fixed::lemma_fmul_bound_scaled(s as int, normal.x as int, 280, 2);
            crate::fixed::lemma_fmul_bound_scaled(s as int, normal.y as int, 280, 2);
            crate::fixed::lemma_fmul_bound_scaled(s as int, normal.z as int, 280, 2);
        }
        Vec3::new(
            perp.x + -fmul(s, normal.x),
            perp.y + -fmul(s, normal.y),
            perp.z + -fmul(s, normal.z),
        )
    }

    /// Whether every component of the vector is below the resolution
    /// threshold, so that normalizing it would be meaningless.
    pub fn near_zero(&self) -> (r: bool)
        ensures
            r == near_zero_spec(*self),
    {
        let t = NEAR_ZERO_EPS;
        (self.x < t && self.x > -t) && (self.y < t && self.y > -t) && (self.z < t && self.z > -t)
    }

    /// Generates a vector whose components are uniform draws from the
    /// half-open range `[min, max)`.
    pub fn random(rng: &mut rand::rngs::StdRng, min: i64, max: i64) -> (v: Vec3<i64>)
        requires
            min < max,
        ensures
            min <= v.x < max,
            min <= v.y < max,
            min <= v.z < max,
    {
        let x = rand_range(rng, min, max);
        let y = rand_range(rng, min, max);
        let z = rand_range(rng, min, max);
        Vec3::new(x, y, z)
    }

    /// Generates a random vector in the unit-radius sphere, rejecting draws
    /// from the surrounding cube, and also rejecting draws too short to
    /// normalize meaningfully. After a bounded number of rejections it
    /// falls back to a fixed in-sphere vector.
    pub fn random_in_unit_sphere(rng: &mut rand::rngs::StdRng) -> (v: Vec3<i64>)
        ensures
            vbounded(v, SCALE as int),
            (SCALE as int) / 4 <= len_sq_spec(v) <= SCALE as int,
    {
        let mut tries: u64 = 0;
        while tries < 64
            invariant
                true,
            decreases 64 - tries,
        {
            let cand = Vec3::random(rng, -SCALE, SCALE);
            let lsq = cand.len_sq();
            if SCALE / 4 <= lsq && lsq <= SCALE {
                return cand;
            }
            tries = tries + 1;
        }
        let fallback = Vec3::new(SCALE / 2, 0, 0);
        proof {
            lemma_fundamental_div_mod_converse(250000000000, 1000000, 250000, 0);
            assert(fmul_spec(500000, 500000) == 250000);
            lemma_fundamental_div_mod_converse(0, 1000000, 0, 0);
            assert(fmul_spec(0, 0) == 0);
        }
        fallback
    }

    /// Generates a random unit-length vector: a rejection draw from the
    /// unit sphere, normalized.
    pub fn random_unit(rng: &mut rand::rngs::StdRng) -> (v: Vec3<i64>)
        ensures
            vbounded(v, 3 * SCALE),
            exists|w: Vec3<i64>|
                250000 <= len_sq_spec(w) <= SCALE && v == #[trigger] unit_spec(w),
    {
        let cand = Vec3::random_in_unit_sphere(rng);
        proof {
            assert((SCALE as int) / 4 >= 1);
        }
        let out = cand.unit();
        proof {
            assert((SCALE as int) / 4 == 250000);
            assert(out == unit_spec(cand));
        }
        out
    }
}

} // verus!
