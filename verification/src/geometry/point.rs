//! Positions in space, as a wrapper distinguishing them from directions.

use vstd::prelude::*;
use vstd::std_specs::ops::AddSpec;
use vstd::std_specs::ops::DivSpec;
use vstd::std_specs::ops::MulSpec;
use vstd::std_specs::ops::NegSpec;
use vstd::std_specs::ops::SubSpec;

use crate::geometry::vec3::Vec3;

verus! {

/// A point in space: a vector from the origin, kept as a distinct type.
#[derive(Debug, Copy, Clone, PartialEq)]
pub struct Point<T>(pub Vec3<T>);

impl<T: Copy> Point<T> {
    pub fn new(x: T, y: T, z: T) -> (p: Point<T>)
        ensures
            p.0 == (Vec3 { x, y, z }),
    {
        Point(Vec3::new(x, y, z))
    }
}

impl<T> vstd::std_specs::convert::FromSpecImpl<Vec3<T>> for Point<T> {
    open spec fn obeys_from_spec() -> bool {
        true
    }

    open spec fn from_spec(v: Vec3<T>) -> Point<T> {
        Point(v)
    }
}

impl<T> From<Vec3<T>> for Point<T> {
    fn from(v: Vec3<T>) -> Self {
        Point(v)
    }
}

impl<T> vstd::std_specs::convert::FromSpecImpl<Point<T>> for Vec3<T> {
    open spec fn obeys_from_spec() -> bool {
        true
    }

    open spec fn from_spec(p: Point<T>) -> Vec3<T> {
        p.0
    }
}

impl<T> From<Point<T>> for Vec3<T> {
    fn from(p: Point<T>) -> Self {
        p.0
    }
}

impl<T: core::ops::Add<Output = T>> vstd::std_specs::ops::AddSpecImpl for Point<T> {
    open spec fn obeys_add_spec() -> bool {
        T::obeys_add_spec()
    }

    open spec fn add_req(self, rhs: Point<T>) -> bool {
        vstd::std_specs::ops::AddSpec::add_req(self.0, rhs.0)
    }

    open spec fn add_spec(self, rhs: Point<T>) -> Point<T> {
        Point(vstd::std_specs::ops::AddSpec::add_spec(self.0, rhs.0))
    }
}

impl<T: core::ops::Add<Output = T>> core::ops::Add for Point<T> {
    type Output = Point<T>;

    fn add(self, other: Self) -> Self {
        Point(self.0 + other.0)
    }
}

impl<T: core::ops::Sub<Output = T>> vstd::std_specs::ops::SubSpecImpl for Point<T> {
    open spec fn obeys_sub_spec() -> bool {
        T::obeys_sub_spec()
    }

    open spec fn sub_req(self, rhs: Point<T>) -> bool {
        vstd::std_specs::ops::SubSpec::sub_req(self.0, rhs.0)
    }

    open spec fn sub_spec(self, rhs: Point<T>) -> Point<T> {
        Point(vstd::std_specs::ops::SubSpec::sub_spec(self.0, rhs.0))
    }
}

impl<T: core::ops::Sub<Output = T>> core::ops::Sub for Point<T> {
    type Output = Point<T>;

    fn sub(self, other: Self) -> Self {
        Point(self.0 - other.0)
    }
}

impl<T: core::ops::Mul<Output = T>> vstd::std_specs::ops::MulSpecImpl for Point<T> {
    open spec fn obeys_mul_spec() -> bool {
        T::obeys_mul_spec()
    }

    open spec fn mul_req(self, rhs: Point<T>) -> bool {
        vstd::std_specs::ops::MulSpec::mul_req(self.0, rhs.0)
    }

    open spec fn mul_spec(self, rhs: Point<T>) -> Point<T> {
        Point(vstd::std_specs::ops::MulSpec::mul_spec(self.0, rhs.0))
    }
}

impl<T: core::ops::Mul<Output = T>> core::ops::Mul for Point<T> {
    type Output = Point<T>;

    fn mul(self, other: Self) -> Self {
        Point(self.0 * other.0)
    }
}

impl<T: core::ops::Div<Output = T>> vstd::std_specs::ops::DivSpecImpl for Point<T> {
    open spec fn obeys_div_spec() -> bool {
        T::obeys_div_spec()
    }

    open spec fn div_req(self, rhs: Point<T>) -> bool {
        vstd::std_specs::ops::DivSpec::div_req(self.0, rhs.0)
    }

    open spec fn div_spec(self, rhs: Point<T>) -> Point<T> {
        Point(vstd::std_specs::ops::DivSpec::div_spec(self.0, rhs.0))
    }
}

impl<T: core::ops::Div<Output = T>> core::ops::Div for Point<T> {
    type Output = Point<T>;

    fn div(self, other: Self) -> Self {
        Point(self.0 / other.0)
    }
}

impl<T: core::ops::Neg<Output = T>> vstd::std_specs::ops::NegSpecImpl for Point<T> {
    open spec fn obeys_neg_spec() -> bool {
        T::obeys_neg_spec()
    }

    open spec fn neg_req(self) -> bool {
        vstd::std_specs::ops::NegSpec::neg_req(self.0)
    }

    open spec fn neg_spec(self) -> Point<T> {
        Point(vstd::std_specs::ops::NegSpec::neg_spec(self.0))
    }
}

impl<T: core::ops::Neg<Output = T>> core::ops::Neg for Point<T> {
    type Output = Point<T>;

    fn neg(self) -> Self {
        Point(self.0.neg())
    }
}

} // verus!
