//! Three-component vectors of [`Scalar`]s, as far as they can be handled
//! without rounding: building, picking and comparing components.
use crate::scalar::Scalar;
use vstd::prelude::*;

verus! {

/// One of the three axes.
#[derive(Clone, Copy, PartialEq, Eq, Structural, Debug)]
pub enum Components {
    X,
    Y,
    Z,
}

/// A position, a direction, a normal or a colour.
#[derive(Clone, Copy, Debug)]
pub struct Vector3 {
    pub x: Scalar,
    pub y: Scalar,
    pub z: Scalar,
}

impl Vector3 {
    /// The component along an axis.
    pub open spec fn component(self, axis: Components) -> Scalar {
        match axis {
            Components::X => self.x,
            Components::Y => self.y,
            Components::Z => self.z,
        }
    }

    /// Some component is a NaN.
    pub open spec fn has_nan(self) -> bool {
        self.x.nan() || self.y.nan() || self.z.nan()
    }

    /// The axis that `largest_component` picks: the one whose component is
    /// largest in absolute value, X before Y only where it is strictly larger,
    /// and Z wherever the better of the two is not strictly larger than it.
    pub open spec fn dominant(self) -> Components {
        if self.x.absolute().greater(self.y.absolute()) {
            if self.x.absolute().greater(self.z.absolute()) {
                Components::X
            } else {
                Components::Z
            }
        } else {
            if self.y.absolute().greater(self.z.absolute()) {
                Components::Y
            } else {
                Components::Z
            }
        }
    }

    /// A number held to the range from zero to one: zero for what is less
    /// than zero, one for what is more than one. A NaN stays.
    pub open spec fn restricted(v: Scalar) -> Scalar {
        if v.less(Scalar::zero_value()) {
            Scalar::zero_value()
        } else if v.greater(Scalar::one_value()) {
            Scalar::one_value()
        } else {
            v
        }
    }

    /// The vector whose components are all positive zero.
    pub open spec fn origin() -> Vector3 {
        Vector3 { x: Scalar::zero_value(), y: Scalar::zero_value(), z: Scalar::zero_value() }
    }

    pub fn new(x: Scalar, y: Scalar, z: Scalar) -> (v: Self)
        ensures
            v == (Vector3 { x, y, z }),
    {
        Self { x, y, z }
    }

    pub fn zero() -> (v: Self)
        ensures
            v == Vector3::origin(),
    {
        Self::new(Scalar::zero(), Scalar::zero(), Scalar::zero())
    }

    pub fn from_single(a: Scalar) -> (v: Self)
        ensures
            v == (Vector3 { x: a, y: a, z: a }),
    {
        Self::new(a, a, a)
    }

    /// The number, held to the range from zero to one.
    pub fn restrict_value(v: Scalar) -> (r: Scalar)
        ensures
            r == Vector3::restricted(v),
            !v.nan() ==> 0 <= r.rank() <= Scalar::one_value().rank(),
    {
        if v.lt(Scalar::zero()) {
            Scalar::zero()
        } else if v.gt(Scalar::one()) {
            Scalar::one()
        } else {
            v
        }
    }

    /// The vector with each component held to the range from zero to one.
    pub fn restrict_values(&self) -> (v: Self)
        ensures
            v == (Vector3 {
                x: Vector3::restricted(self.x),
                y: Vector3::restricted(self.y),
                z: Vector3::restricted(self.z),
            }),
    {
        Self::new(
            Self::restrict_value(self.x),
            Self::restrict_value(self.y),
            Self::restrict_value(self.z),
        )
    }

    pub fn get_component(&self, axis: Components) -> (c: Scalar)
        ensures
            c == self.component(axis),
    {
        match axis {
            Components::X => self.x,
            Components::Y => self.y,
            Components::Z => self.z,
        }
    }

    pub fn abs(&self) -> (v: Self)
        ensures
            v == (Vector3 {
                x: self.x.absolute(),
                y: self.y.absolute(),
                z: self.z.absolute(),
            }),
    {
        Self::new(self.x.abs(), self.y.abs(), self.z.abs())
    }

    /// The vector that points the other way: every sign bit flipped.
    pub fn negate(&self) -> (v: Self)
        ensures
            v == (Vector3 { x: self.x.negated(), y: self.y.negated(), z: self.z.negated() }),
    {
        Self::new(self.x.neg(), self.y.neg(), self.z.neg())
    }

    pub fn max(&self, a: Self) -> (v: Self)
        ensures
            v == (Vector3 {
                x: self.x.larger(a.x),
                y: self.y.larger(a.y),
                z: self.z.larger(a.z),
            }),
    {
        Self::new(self.x.max(a.x), self.y.max(a.y), self.z.max(a.z))
    }

    pub fn min(&self, a: Self) -> (v: Self)
        ensures
            v == (Vector3 {
                x: self.x.smaller(a.x),
                y: self.y.smaller(a.y),
                z: self.z.smaller(a.z),
            }),
    {
        Self::new(self.x.min(a.x), self.y.min(a.y), self.z.min(a.z))
    }

    pub fn largest_component(&self) -> (c: Components)
        ensures
            c == self.dominant(),
            !self.has_nan() ==> {
                &&& self.component(c).magnitude() >= self.x.magnitude()
                &&& self.component(c).magnitude() >= self.y.magnitude()
                &&& self.component(c).magnitude() >= self.z.magnitude()
            },
    {
        if self.x.abs().gt(self.y.abs()) {
            if self.x.abs().gt(self.z.abs()) {
                Components::X
            } else {
                Components::Z
            }
        } else {
            if self.y.abs().gt(self.z.abs()) {
                Components::Y
            } else {
                Components::Z
            }
        }
    }

    pub fn largest_component_value(&self) -> (c: Scalar)
        ensures
            c == self.component(self.dominant()),
    {
        match self.largest_component() {
            Components::X => self.x,
            Components::Y => self.y,
            Components::Z => self.z,
        }
    }

    pub fn only_largest_component(&self) -> (v: Self)
        ensures
            v == match self.dominant() {
                Components::X => Vector3 {
                    x: self.x,
                    y: Scalar::zero_value(),
                    z: Scalar::zero_value(),
                },
                Components::Y => Vector3 {
                    x: Scalar::zero_value(),
                    y: self.y,
                    z: Scalar::zero_value(),
                },
                Components::Z => Vector3 {
                    x: Scalar::zero_value(),
                    y: Scalar::zero_value(),
                    z: self.z,
                },
            },
    {
        match self.largest_component() {
            Components::X => Self::new(self.x, Scalar::zero(), Scalar::zero()),
            Components::Y => Self::new(Scalar::zero(), self.y, Scalar::zero()),
            Components::Z => Self::new(Scalar::zero(), Scalar::zero(), self.z),
        }
    }
}

} // verus!
