//! Triangles: their bounds, and the one-sided intersection test.
use crate::ray_resolvers::bvh::aabb::AABB;
use crate::ray_resolvers::ray_resolver::{MaterialType, RayResult};
use crate::scalar::Scalar;
use crate::utilities::Vector3;
use vstd::prelude::*;

verus! {

/// The least determinant that the intersection test accepts: four machine
/// epsilons, that is two to the power of -21.
pub const DETERMINANT_FLOOR_BITS: u32 = 0x3500_0000;

/// How the surface of a triangle looks.
#[derive(Clone, Copy, Debug)]
pub struct TriangleMaterial {
    pub color: Vector3,
    pub emit: Vector3,
    pub t: MaterialType,
}

/// A triangle with a normal at each corner.
#[derive(Clone, Copy, Debug)]
pub struct Triangle {
    pub v0: Vector3,
    pub v1: Vector3,
    pub v2: Vector3,
    pub n0: Vector3,
    pub n1: Vector3,
    pub n2: Vector3,
    /// The mean of the three corners, by which triangles are sorted.
    pub centroid: Vector3,
    pub material: TriangleMaterial,
}

/// Of three numbers the least, as a left-to-right scan finds it: the running
/// value gives way only to a strictly smaller one, so of equals the first
/// stays, and a NaN in front stays too.
pub open spec fn least_of(a: Scalar, b: Scalar, c: Scalar) -> Scalar {
    let m = if a.greater(b) {
        b
    } else {
        a
    };
    if m.greater(c) {
        c
    } else {
        m
    }
}

/// Of three numbers the greatest, as a left-to-right scan finds it: the
/// running value stays only while it is strictly larger, so of equals the
/// last wins, and so does a NaN at the end.
pub open spec fn greatest_of(a: Scalar, b: Scalar, c: Scalar) -> Scalar {
    let m = if a.greater(b) {
        a
    } else {
        b
    };
    if m.greater(c) {
        m
    } else {
        c
    }
}

fn min_of_three(a: Scalar, b: Scalar, c: Scalar) -> (m: Scalar)
    ensures
        m == least_of(a, b, c),
{
    let m = if a.gt(b) {
        b
    } else {
        a
    };
    if m.gt(c) {
        c
    } else {
        m
    }
}

fn max_of_three(a: Scalar, b: Scalar, c: Scalar) -> (m: Scalar)
    ensures
        m == greatest_of(a, b, c),
{
    let m = if a.gt(b) {
        a
    } else {
        b
    };
    if m.gt(c) {
        m
    } else {
        c
    }
}

impl Triangle {
    /// No corner holds a NaN.
    pub open spec fn corners_are_numbers(self) -> bool {
        !self.v0.has_nan() && !self.v1.has_nan() && !self.v2.has_nan()
    }

    /// The box that `bounds` returns.
    pub open spec fn extent(self) -> AABB {
        AABB {
            min: Vector3 {
                x: least_of(self.v0.x, self.v1.x, self.v2.x),
                y: least_of(self.v0.y, self.v1.y, self.v2.y),
                z: least_of(self.v0.z, self.v1.z, self.v2.z),
            },
            max: Vector3 {
                x: greatest_of(self.v0.x, self.v1.x, self.v2.x),
                y: greatest_of(self.v0.y, self.v1.y, self.v2.y),
                z: greatest_of(self.v0.z, self.v1.z, self.v2.z),
            },
        }
    }

    /// A flat triangle: the normal of its plane stands at all three corners.
    /// The normal and the centroid are the caller's arithmetic.
    pub fn new(
        v0: Vector3,
        v1: Vector3,
        v2: Vector3,
        normal: Vector3,
        centroid: Vector3,
        material: TriangleMaterial,
    ) -> (t: Self)
        ensures
            t == (Triangle {
                v0,
                v1,
                v2,
                n0: normal,
                n1: normal,
                n2: normal,
                centroid,
                material,
            }),
    {
        Self::new_with_normal(v0, v1, v2, normal, normal, normal, centroid, material)
    }

    /// A triangle with a normal of its own at each corner. The centroid is
    /// the caller's arithmetic.
    pub fn new_with_normal(
        v0: Vector3,
        v1: Vector3,
        v2: Vector3,
        n0: Vector3,
        n1: Vector3,
        n2: Vector3,
        centroid: Vector3,
        material: TriangleMaterial,
    ) -> (t: Self)
        ensures
            t == (Triangle { v0, v1, v2, n0, n1, n2, centroid, material }),
    {
        Self { v0, v1, v2, n0, n1, n2, centroid, material }
    }

    /// The smallest box around the three corners.
    pub fn bounds(&self) -> (b: AABB)
        ensures
            b == self.extent(),
            self.corners_are_numbers() ==> {
                &&& b.ordered()
                &&& b.contains(self.v0)
                &&& b.contains(self.v1)
                &&& b.contains(self.v2)
            },
    {
        let xmin = min_of_three(self.v0.x, self.v1.x, self.v2.x);
        let ymin = min_of_three(self.v0.y, self.v1.y, self.v2.y);
        let zmin = min_of_three(self.v0.z, self.v1.z, self.v2.z);
        let xmax = max_of_three(self.v0.x, self.v1.x, self.v2.x);
        let ymax = max_of_three(self.v0.y, self.v1.y, self.v2.y);
        let zmax = max_of_three(self.v0.z, self.v1.z, self.v2.z);
        AABB { min: Vector3::new(xmin, ymin, zmin), max: Vector3::new(xmax, ymax, zmax) }
    }
}

/// What a ray's arithmetic yields for one triangle.
#[derive(Clone, Copy, Debug)]
pub struct Probe {
    /// The determinant: the first edge dotted with the cross product of the
    /// direction and the second edge. Positive where the ray meets the front.
    pub det: Scalar,
    /// The first barycentric coordinate of the point where the ray's line
    /// meets the triangle's plane.
    pub u: Scalar,
    /// The second barycentric coordinate.
    pub v: Scalar,
    /// `u + v`.
    pub sum: Scalar,
    /// The point where the line meets the plane.
    pub hit: Vector3,
}

impl Probe {
    /// The test proper. A determinant under the floor is a miss: a triangle
    /// seen from behind or edge-on is never hit. Then the point must lie in
    /// the triangle. A point behind the ray's origin is a hit like any other.
    /// Only a comparison that holds rejects, so a NaN never does.
    pub open spec fn accepted(self) -> bool {
        &&& !self.det.less(Scalar { bits: DETERMINANT_FLOOR_BITS })
        &&& !self.u.less(Scalar::zero_value())
        &&& !self.u.greater(Scalar::one_value())
        &&& !self.v.less(Scalar::zero_value())
        &&& !self.sum.greater(Scalar::one_value())
    }

    /// The point of the hit with its barycentric coordinates, if the test
    /// accepts.
    pub open spec fn outcome(self) -> Option<(Vector3, Scalar, Scalar)> {
        if self.accepted() {
            Some((self.hit, self.u, self.v))
        } else {
            None
        }
    }

    /// The intersection test on finished arithmetic.
    pub fn intersection(&self) -> (r: Option<(Vector3, Scalar, Scalar)>)
        ensures
            r == self.outcome(),
            r is Some && !self.u.nan() && !self.v.nan() && !self.sum.nan() ==> {
                &&& 0 <= self.u.rank() <= Scalar::one_value().rank()
                &&& 0 <= self.v.rank()
                &&& self.sum.rank() <= Scalar::one_value().rank()
            },
    {
        if self.det.lt(Scalar::from_bits(DETERMINANT_FLOOR_BITS)) {
            return None;
        }
        if self.u.lt(Scalar::zero()) || self.u.gt(Scalar::one()) {
            return None;
        }
        if self.v.lt(Scalar::zero()) || self.sum.gt(Scalar::one()) {
            return None;
        }
        Some((self.hit, self.u, self.v))
    }
}

/// A triangle is hit from one side only: of two probes whose determinants
/// are each other's opposite, as those of a triangle and of the same
/// triangle wound the other way round are before rounding, at most one is
/// accepted.
pub proof fn lemma_hit_from_one_side(front: Probe, back: Probe)
    requires
        !front.det.nan(),
        !back.det.nan(),
        back.det.rank() == -front.det.rank(),
    ensures
        !(front.accepted() && back.accepted()),
{
}

impl Triangle {
    /// Whether the ray from `pos` along `dir` hits the triangle, and where.
    /// The arithmetic comes from `probe`; the decision is made here.
    pub fn trace<P: Fn(Triangle, Vector3, Vector3) -> Probe>(
        &self,
        pos: &Vector3,
        dir: &Vector3,
        probe: &P,
    ) -> (r: Option<(Vector3, Scalar, Scalar)>)
        requires
            call_requires(*probe, (*self, *pos, *dir)),
        ensures
            exists|p: Probe| #[trigger] call_ensures(*probe, (*self, *pos, *dir), p) && r == p.outcome(),
    {
        let p = probe(*self, *pos, *dir);
        p.intersection()
    }

}

/// A leaf of the hierarchy: one triangle.
#[derive(Clone, Copy, Debug)]
pub struct TriangleResolver {
    pub triangle: Triangle,
}

impl TriangleResolver {
    /// `r` is an answer of this leaf to the ray. A miss of the triangle is no
    /// answer. On a hit the answer holds the point, the triangle's own colour
    /// and emission, and a normal blended from the corners' normals: the
    /// weight `u` goes to `n1`, `v` to `n0` and the rest to `n2`.
    pub open spec fn answers<
        P: Fn(Triangle, Vector3, Vector3) -> Probe,
        B: Fn(Vector3, Vector3, Vector3, Scalar, Scalar) -> Vector3,
    >(self, pos: Vector3, dir: Vector3, probe: P, blend: B, r: Option<RayResult>) -> bool {
        exists|p: Probe| #[trigger]
            call_ensures(probe, (self.triangle, pos, dir), p) && match p.outcome() {
                None => r is None,
                Some((hit, u, v)) => exists|normal: Vector3| #[trigger]
                    call_ensures(
                        blend,
                        (self.triangle.n1, self.triangle.n0, self.triangle.n2, u, v),
                        normal,
                    ) && r == Some(
                        RayResult {
                            pos: hit,
                            color: self.triangle.material.color,
                            normal,
                            emit: self.triangle.material.emit,
                            t: self.triangle.material.t,
                        },
                    ),
            }
    }

    /// The hit of the ray on the triangle, if any. `probe` does the
    /// arithmetic of the intersection, `blend` that of the normal.
    /// `_refraction` is reserved and changes nothing.
    pub fn resolve<
        P: Fn(Triangle, Vector3, Vector3) -> Probe,
        B: Fn(Vector3, Vector3, Vector3, Scalar, Scalar) -> Vector3,
    >(&self, pos: Vector3, dir: Vector3, _refraction: bool, probe: &P, blend: &B) -> (r: Option<
        RayResult,
    >)
        requires
            call_requires(*probe, (self.triangle, pos, dir)),
            forall|u: Scalar, v: Scalar|
                call_requires(
                    *blend,
                    (self.triangle.n1, self.triangle.n0, self.triangle.n2, u, v),
                ),
        ensures
            self.answers(pos, dir, *probe, *blend, r),
    {
        let p = probe(self.triangle, pos, dir);
        match p.intersection() {
            Some((hit, u, v)) => {
                let normal = blend(self.triangle.n1, self.triangle.n0, self.triangle.n2, u, v);
                Some(
                    RayResult::new(
                        hit,
                        self.triangle.material.color,
                        normal,
                        self.triangle.material.emit,
                        self.triangle.material.t,
                    ),
                )
            },
            None => None,
        }
    }
}

} // verus!
