//! A minimal generic three-component vector with public fields.
//!
//! The componentwise operators are defined for any component type that has
//! them; their contracts follow the component type's own operator
//! specifications, so instantiating at a machine integer gives fully
//! verified vector arithmetic.

use vstd::prelude::*;
use vstd::std_specs::ops::AddSpec;
use vstd::std_specs::ops::DivSpec;
use vstd::std_specs::ops::MulSpec;
use vstd::std_specs::ops::NegSpec;
use vstd::std_specs::ops::SubSpec;

verus! {

/// A plain three-component vector over any component type.
#[derive(Debug, Copy, Clone)]
pub struct Vec3<T> {
    pub x: T,
    pub y: T,
    pub z: T,
}

impl<T> Vec3<T> {
    pub fn new(x: T, y: T, z: T) -> (v: Vec3<T>)
        ensures
            v == (Vec3 { x, y, z }),
    {
        Vec3 { x, y, z }
    }
}

impl<T: core::ops::Mul<Output = T> + core::ops::Add<Output = T> + Copy> Vec3<T> {
    /// The dot product: the sum of the componentwise products, summed from
    /// the first component to the last.
    pub fn dot(&self, other: &Vec3<T>) -> (r: T)
        requires
            T::obeys_mul_spec(),
            T::obeys_add_spec(),
            self.x.mul_req(other.x),
            self.y.mul_req(other.y),
            self.z.mul_req(other.z),
            self.x.mul_spec(other.x).add_req(self.y.mul_spec(other.y)),
            self.x.mul_spec(other.x).add_spec(self.y.mul_spec(other.y)).add_req(
                self.z.mul_spec(other.z),
            ),
        ensures
            r == self.x.mul_spec(other.x).add_spec(self.y.mul_spec(other.y)).add_spec(
                self.z.mul_spec(other.z),
            ),
    {
        self.x * other.x + self.y * other.y + self.z * other.z
    }
}

impl<T: core::ops::Add<Output = T>> vstd::std_specs::ops::AddSpecImpl for Vec3<T> {
    open spec fn obeys_add_spec() -> bool {
        T::obeys_add_spec()
    }

    open spec fn add_req(self, rhs: Vec3<T>) -> bool {
        self.x.add_req(rhs.x) && self.y.add_req(rhs.y) && self.z.add_req(rhs.z)
    }

    open spec fn add_spec(self, rhs: Vec3<T>) -> Vec3<T> {
        Vec3 { x: self.x.add_spec(rhs.x), y: self.y.add_spec(rhs.y), z: self.z.add_spec(rhs.z) }
    }
}

impl<T: core::ops::Add<Output = T>> core::ops::Add for Vec3<T> {
    type Output = Vec3<T>;

    fn add(self, other: Self) -> Self {
        Vec3 { x: self.x + other.x, y: self.y + other.y, z: self.z + other.z }
    }
}

impl<T: core::ops::Sub<Output = T>> vstd::std_specs::ops::SubSpecImpl for Vec3<T> {
    open spec fn obeys_sub_spec() -> bool {
        T::obeys_sub_spec()
    }

    open spec fn sub_req(self, rhs: Vec3<T>) -> bool {
        self.x.sub_req(rhs.x) && self.y.sub_req(rhs.y) && self.z.sub_req(rhs.z)
    }

    open spec fn sub_spec(self, rhs: Vec3<T>) -> Vec3<T> {
        Vec3 { x: self.x.sub_spec(rhs.x), y: self.y.sub_spec(rhs.y), z: self.z.sub_spec(rhs.z) }
    }
}

impl<T: core::ops::Sub<Output = T>> core::ops::Sub for Vec3<T> {
    type Output = Vec3<T>;

    fn sub(self, other: Self) -> Self {
        Vec3 { x: self.x - other.x, y: self.y - other.y, z: self.z - other.z }
    }
}

impl<T: core::ops::Mul<Output = T>> vstd::std_specs::ops::MulSpecImpl for Vec3<T> {
    open spec fn obeys_mul_spec() -> bool {
        T::obeys_mul_spec()
    }

    open spec fn mul_req(self, rhs: Vec3<T>) -> bool {
        self.x.mul_req(rhs.x) && self.y.mul_req(rhs.y) && self.z.mul_req(rhs.z)
    }

    open spec fn mul_spec(self, rhs: Vec3<T>) -> Vec3<T> {
        Vec3 { x: self.x.mul_spec(rhs.x), y: self.y.mul_spec(rhs.y), z: self.z.mul_spec(rhs.z) }
    }
}

impl<T: core::ops::Mul<Output = T>> core::ops::Mul for Vec3<T> {
    type Output = Vec3<T>;

    fn mul(self, other: Self) -> Self {
        Vec3 { x: self.x * other.x, y: self.y * other.y, z: self.z * other.z }
    }
}

impl<T: core::ops::Div<Output = T>> vstd::std_specs::ops::DivSpecImpl for Vec3<T> {
    open spec fn obeys_div_spec() -> bool {
        T::obeys_div_spec()
    }

    open spec fn div_req(self, rhs: Vec3<T>) -> bool {
        self.x.div_req(rhs.x) && self.y.div_req(rhs.y) && self.z.div_req(rhs.z)
    }

    open spec fn div_spec(self, rhs: Vec3<T>) -> Vec3<T> {
        Vec3 { x: self.x.div_spec(rhs.x), y: self.y.div_spec(rhs.y), z: self.z.div_spec(rhs.z) }
    }
}

impl<T: core::ops::Div<Output = T>> core::ops::Div for Vec3<T> {
    type Output = Vec3<T>;

    fn div(self, other: Self) -> Self {
        Vec3 { x: self.x / other.x, y: self.y / other.y, z: self.z / other.z }
    }
}

impl<T: core::ops::Neg<Output = T>> vstd::std_specs::ops::NegSpecImpl for Vec3<T> {
    open spec fn obeys_neg_spec() -> bool {
        T::obeys_neg_spec()
    }

    open spec fn neg_req(self) -> bool {
        self.x.neg_req() && self.y.neg_req() && self.z.neg_req()
    }

    open spec fn neg_spec(self) -> Vec3<T> {
        Vec3 { x: self.x.neg_spec(), y: self.y.neg_spec(), z: self.z.neg_spec() }
    }
}

impl<T: core::ops::Neg<Output = T>> core::ops::Neg for Vec3<T> {
    type Output = Vec3<T>;

    fn neg(self) -> Self {
        Vec3 { x: self.x.neg(), y: self.y.neg(), z: self.z.neg() }
    }
}

} // verus!
