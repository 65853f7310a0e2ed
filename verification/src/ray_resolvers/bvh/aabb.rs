//! Axis-aligned boxes: their union, and the slab test of a ray against one.
use crate::ray_resolvers::bvh::triangle::{Probe, Triangle};
use crate::ray_resolvers::ray_resolver::{Arithmetic, RayResolver, RayResult};
use crate::scalar::Scalar;
use crate::utilities::{Components, Vector3};
use vstd::prelude::*;

verus! {

/// An axis-aligned box, given by its two extreme corners.
#[derive(Clone, Copy, Debug)]
pub struct AABB {
    pub min: Vector3,
    pub max: Vector3,
}

/// What `union` keeps of two lower bounds: the first where it is strictly
/// smaller, else the second.
pub open spec fn lower_of(a: Scalar, b: Scalar) -> Scalar {
    if a.less(b) {
        a
    } else {
        b
    }
}

/// What `union` keeps of two upper bounds: the first where it is strictly
/// larger, else the second.
pub open spec fn upper_of(a: Scalar, b: Scalar) -> Scalar {
    if a.greater(b) {
        a
    } else {
        b
    }
}

impl AABB {
    /// No corner holds a NaN, and `min` is at most `max` along every axis.
    pub open spec fn ordered(self) -> bool {
        &&& !self.min.has_nan()
        &&& !self.max.has_nan()
        &&& self.min.x.rank() <= self.max.x.rank()
        &&& self.min.y.rank() <= self.max.y.rank()
        &&& self.min.z.rank() <= self.max.z.rank()
    }

    /// The point lies in the box, borders included.
    pub open spec fn contains(self, p: Vector3) -> bool {
        &&& self.min.x.rank() <= p.x.rank() <= self.max.x.rank()
        &&& self.min.y.rank() <= p.y.rank() <= self.max.y.rank()
        &&& self.min.z.rank() <= p.z.rank() <= self.max.z.rank()
    }

    /// Every point of `other` lies in the box.
    pub open spec fn encloses(self, other: AABB) -> bool {
        &&& self.min.x.rank() <= other.min.x.rank()
        &&& self.min.y.rank() <= other.min.y.rank()
        &&& self.min.z.rank() <= other.min.z.rank()
        &&& other.max.x.rank() <= self.max.x.rank()
        &&& other.max.y.rank() <= self.max.y.rank()
        &&& other.max.z.rank() <= self.max.z.rank()
    }

    /// The two boxes are the same set of points: their corners are the same
    /// numbers, though a zero may differ in sign.
    pub open spec fn same_extent(self, other: AABB) -> bool {
        &&& self.min.x.rank() == other.min.x.rank()
        &&& self.min.y.rank() == other.min.y.rank()
        &&& self.min.z.rank() == other.min.z.rank()
        &&& self.max.x.rank() == other.max.x.rank()
        &&& self.max.y.rank() == other.max.y.rank()
        &&& self.max.z.rank() == other.max.z.rank()
    }

    /// The smallest box around both: per axis the lesser `min` and the greater
    /// `max`.
    pub open spec fn join(self, other: AABB) -> AABB {
        AABB {
            min: Vector3 {
                x: lower_of(self.min.x, other.min.x),
                y: lower_of(self.min.y, other.min.y),
                z: lower_of(self.min.z, other.min.z),
            },
            max: Vector3 {
                x: upper_of(self.max.x, other.max.x),
                y: upper_of(self.max.y, other.max.y),
                z: upper_of(self.max.z, other.max.z),
            },
        }
    }

    pub fn union(&self, other: &Self) -> (r: Self)
        ensures
            r == self.join(*other),
            self.ordered() && other.ordered() ==> r.ordered() && r.encloses(*self) && r.encloses(
                *other,
            ),
    {
        let xmin = if self.min.x.lt(other.min.x) {
            self.min.x
        } else {
            other.min.x
        };
        let ymin = if self.min.y.lt(other.min.y) {
            self.min.y
        } else {
            other.min.y
        };
        let zmin = if self.min.z.lt(other.min.z) {
            self.min.z
        } else {
            other.min.z
        };
        let xmax = if self.max.x.gt(other.max.x) {
            self.max.x
        } else {
            other.max.x
        };
        let ymax = if self.max.y.gt(other.max.y) {
            self.max.y
        } else {
            other.max.y
        };
        let zmax = if self.max.z.gt(other.max.z) {
            self.max.z
        } else {
            other.max.z
        };
        Self { min: Vector3::new(xmin, ymin, zmin), max: Vector3::new(xmax, ymax, zmax) }
    }
}

/// Union does not depend on the order of its operands: without NaNs the two
/// results are the same box.
pub proof fn lemma_union_commutative(a: AABB, b: AABB)
    requires
        !a.min.has_nan(),
        !a.max.has_nan(),
        !b.min.has_nan(),
        !b.max.has_nan(),
    ensures
        a.join(b).same_extent(b.join(a)),
        !a.join(b).min.has_nan(),
        !a.join(b).max.has_nan(),
{
}

/// Union does not depend on how its operands are grouped: without NaNs the
/// two results are the same box.
pub proof fn lemma_union_associative(a: AABB, b: AABB, c: AABB)
    requires
        !a.min.has_nan(),
        !a.max.has_nan(),
        !b.min.has_nan(),
        !b.max.has_nan(),
        !c.min.has_nan(),
        !c.max.has_nan(),
    ensures
        a.join(b).join(c).same_extent(a.join(b.join(c))),
{
}

/// Among numbers that are neither NaN nor negative zero the encoding is the
/// number, so two boxes of such corners with the same extent are equal, and
/// union is commutative and associative on the encodings themselves.
pub proof fn lemma_union_laws_exact(a: AABB, b: AABB, c: AABB)
    requires
        a.plain(),
        b.plain(),
        c.plain(),
    ensures
        a.join(b) == b.join(a),
        a.join(b).join(c) == a.join(b.join(c)),
        a.join(b).plain(),
{
}

impl AABB {
    /// No corner holds a NaN or a negative zero.
    pub open spec fn plain(self) -> bool {
        &&& self.min.x.plain()
        &&& self.min.y.plain()
        &&& self.min.z.plain()
        &&& self.max.x.plain()
        &&& self.max.y.plain()
        &&& self.max.z.plain()
    }
}

/// What a ray's arithmetic yields for one box: per axis the reciprocal of the
/// ray's direction, and the ray parameters at which the ray meets the plane
/// through the box's `min` and the plane through its `max`.
#[derive(Clone, Copy, Debug)]
pub struct Slabs {
    /// One over the direction, per axis.
    pub invdir: Vector3,
    /// `(min - origin) * invdir`, per axis.
    pub at_min: Vector3,
    /// `(max - origin) * invdir`, per axis.
    pub at_max: Vector3,
}

/// The interval `[entry, exit]` cut down by the interval `[near, far]` of one
/// more axis; `None` where the two do not meet.
pub open spec fn narrowed(entry: Scalar, exit: Scalar, near: Scalar, far: Scalar) -> Option<
    (Scalar, Scalar),
> {
    if entry.greater(far) || near.greater(exit) {
        None
    } else {
        Some(
            (
                if near.greater(entry) {
                    near
                } else {
                    entry
                },
                if far.less(exit) {
                    far
                } else {
                    exit
                },
            ),
        )
    }
}

impl Slabs {
    /// Where the ray enters the slab of an axis: at the `min` plane if it
    /// runs up the axis, at the `max` plane if it runs down.
    pub open spec fn near(self, axis: Components) -> Scalar {
        if self.invdir.component(axis).at_least(Scalar::zero_value()) {
            self.at_min.component(axis)
        } else {
            self.at_max.component(axis)
        }
    }

    /// Where the ray leaves the slab of an axis.
    pub open spec fn far(self, axis: Components) -> Scalar {
        if self.invdir.component(axis).at_least(Scalar::zero_value()) {
            self.at_max.component(axis)
        } else {
            self.at_min.component(axis)
        }
    }

    /// The stretch of the ray's line inside all three slabs, axis by axis.
    pub open spec fn interval(self) -> Option<(Scalar, Scalar)> {
        match narrowed(
            self.near(Components::X),
            self.far(Components::X),
            self.near(Components::Y),
            self.far(Components::Y),
        ) {
            None => None,
            Some((entry, exit)) => narrowed(
                entry,
                exit,
                self.near(Components::Z),
                self.far(Components::Z),
            ),
        }
    }

    /// The ray parameter of the hit: none where the line misses the box or
    /// the box lies behind the origin; the exit where the origin is inside;
    /// else the entry.
    pub open spec fn parameter(self) -> Option<Scalar> {
        match self.interval() {
            None => None,
            Some((entry, exit)) => if exit.less(Scalar::zero_value()) {
                None
            } else if entry.less(Scalar::zero_value()) {
                Some(exit)
            } else {
                Some(entry)
            },
        }
    }

    fn bounds_along(&self, axis: Components) -> (r: (Scalar, Scalar))
        ensures
            r == (self.near(axis), self.far(axis)),
    {
        if self.invdir.get_component(axis).ge(Scalar::zero()) {
            (self.at_min.get_component(axis), self.at_max.get_component(axis))
        } else {
            (self.at_max.get_component(axis), self.at_min.get_component(axis))
        }
    }

    /// The slab test on finished arithmetic.
    pub fn hit_parameter(&self) -> (r: Option<Scalar>)
        ensures
            r == self.parameter(),
    {
        let (mut tmin, mut tmax) = self.bounds_along(Components::X);
        let (tymin, tymax) = self.bounds_along(Components::Y);
        if tmin.gt(tymax) || tymin.gt(tmax) {
            return None;
        }
        if tymin.gt(tmin) {
            tmin = tymin;
        }
        if tymax.lt(tmax) {
            tmax = tymax;
        }
        let (tzmin, tzmax) = self.bounds_along(Components::Z);
        if tmin.gt(tzmax) || tzmin.gt(tmax) {
            return None;
        }
        if tzmin.gt(tmin) {
            tmin = tzmin;
        }
        if tzmax.lt(tmax) {
            tmax = tzmax;
        }
        let t = if tmin.lt(Scalar::zero()) {
            tmax
        } else {
            tmin
        };
        if tmax.lt(Scalar::zero()) {
            return None;
        }
        Some(t)
    }
}

/// The greatest of three integers.
pub open spec fn greatest(a: int, b: int, c: int) -> int {
    if a >= b && a >= c {
        a
    } else if b >= c {
        b
    } else {
        c
    }
}

/// The least of three integers.
pub open spec fn least(a: int, b: int, c: int) -> int {
    if a <= b && a <= c {
        a
    } else if b <= c {
        b
    } else {
        c
    }
}

impl Slabs {
    /// All six crossings are numbers, and along each axis the ray enters the
    /// slab no later than it leaves it.
    pub open spec fn proper(self) -> bool {
        &&& !self.at_min.has_nan()
        &&& !self.at_max.has_nan()
        &&& self.near(Components::X).rank() <= self.far(Components::X).rank()
        &&& self.near(Components::Y).rank() <= self.far(Components::Y).rank()
        &&& self.near(Components::Z).rank() <= self.far(Components::Z).rank()
    }

    /// The latest of the three entries.
    pub open spec fn entry_rank(self) -> int {
        greatest(
            self.near(Components::X).rank(),
            self.near(Components::Y).rank(),
            self.near(Components::Z).rank(),
        )
    }

    /// The earliest of the three exits.
    pub open spec fn exit_rank(self) -> int {
        least(
            self.far(Components::X).rank(),
            self.far(Components::Y).rank(),
            self.far(Components::Z).rank(),
        )
    }
}

/// On proper crossings the slab test is the intersection of three intervals:
/// the ray's line meets the box exactly if the latest entry is not after the
/// earliest exit, and the ray does if that exit is not behind its origin. The
/// hit is at the entry, or at the exit where the entry lies behind the origin.
pub proof fn lemma_slab_test_intersects(s: Slabs)
    requires
        s.proper(),
    ensures
        s.interval() is Some <==> s.entry_rank() <= s.exit_rank(),
        s.interval() matches Some((entry, exit)) ==> {
            &&& !entry.nan()
            &&& !exit.nan()
            &&& entry.rank() == s.entry_rank()
            &&& exit.rank() == s.exit_rank()
        },
        s.parameter() is Some <==> s.entry_rank() <= s.exit_rank() && 0 <= s.exit_rank(),
        s.parameter() matches Some(t) ==> !t.nan() && t.rank() == if s.entry_rank() < 0 {
            s.exit_rank()
        } else {
            s.entry_rank()
        },
{
}

impl AABB {
    /// Whether the ray from `pos` along `dir` meets the box, and at which ray
    /// parameter. The products come from `slabs`; the decision is made here.
    pub fn trace<S: Fn(AABB, Vector3, Vector3) -> Slabs>(
        &self,
        pos: &Vector3,
        dir: &Vector3,
        slabs: &S,
    ) -> (r: Option<Scalar>)
        requires
            call_requires(*slabs, (*self, *pos, *dir)),
        ensures
            exists|s: Slabs| #[trigger] call_ensures(*slabs, (*self, *pos, *dir), s) && r == s.parameter(),
    {
        let s = slabs(*self, *pos, *dir);
        s.hit_parameter()
    }
}

/// A box in front of a node: a ray that misses the box is not shown to the
/// node.
pub struct AABBRayResolver {
    pub aabb: AABB,
    pub inner: Box<RayResolver>,
}

impl AABBRayResolver {
    pub fn new(aabb: AABB, inner: RayResolver) -> (r: Self)
        ensures
            r.aabb == aabb,
            *r.inner == inner,
    {
        let inner = Box::new(inner);
        Self { aabb, inner }
    }

    /// `r` is an answer of this node to the ray: nothing where the slab test
    /// rejects the box, else an answer of the node behind it.
    pub open spec fn answers<
        S: Fn(AABB, Vector3, Vector3) -> Slabs,
        P: Fn(Triangle, Vector3, Vector3) -> Probe,
        B: Fn(Vector3, Vector3, Vector3, Scalar, Scalar) -> Vector3,
        D: Fn(Vector3, Vector3, Vector3) -> Scalar,
    >(self, pos: Vector3, dir: Vector3, kit: Arithmetic<S, P, B, D>, r: Option<RayResult>) -> bool
        decreases self,
    {
        exists|s: Slabs| #[trigger]
            call_ensures(kit.slabs, (self.aabb, pos, dir), s) && if s.parameter() is Some {
                self.inner.answers(pos, dir, kit, r)
            } else {
                r is None
            }
    }

    /// The triangles behind the box, from left to right.
    pub open spec fn leaves(self) -> Seq<Triangle>
        decreases self,
    {
        self.inner.leaves()
    }

    /// What the node behind the box answers, if the ray meets the box;
    /// nothing if it does not. Where on the box the ray lands plays no part.
    pub fn resolve<
        S: Fn(AABB, Vector3, Vector3) -> Slabs,
        P: Fn(Triangle, Vector3, Vector3) -> Probe,
        B: Fn(Vector3, Vector3, Vector3, Scalar, Scalar) -> Vector3,
        D: Fn(Vector3, Vector3, Vector3) -> Scalar,
    >(&self, pos: Vector3, dir: Vector3, refraction: bool, kit: &Arithmetic<S, P, B, D>) -> (r:
        Option<RayResult>)
        requires
            kit.total(),
        ensures
            self.answers(pos, dir, *kit, r),
        decreases self,
    {
        match self.aabb.trace(&pos, &dir, &kit.slabs) {
            Some(_) => self.inner.resolve(pos, dir, refraction, kit),
            None => None,
        }
    }
}

} // verus!
