//! The ray query: what it is asked with, what it answers with, and the three
//! kinds of node that answer it.
use crate::ray_resolvers::bvh::aabb::{AABBRayResolver, Slabs, AABB};
use crate::ray_resolvers::bvh::multi_ray_resolver::MultiRayResolver;
use crate::ray_resolvers::bvh::triangle::{Probe, Triangle, TriangleResolver};
use crate::scalar::Scalar;
use crate::utilities::Vector3;
use vstd::prelude::*;

verus! {

/// How a surface treats light.
#[derive(Clone, Copy, Debug)]
pub enum MaterialType {
    Diffuse,
    Reflective,
    Lens,
    /// Refracting, with its index of refraction.
    Glass(Scalar),
}

/// The surface that a ray met.
#[derive(Clone, Copy, Debug)]
pub struct RayResult {
    /// Where the ray met it.
    pub pos: Vector3,
    pub color: Vector3,
    /// The surface normal there.
    pub normal: Vector3,
    /// The light that the surface gives off by itself.
    pub emit: Vector3,
    pub t: MaterialType,
}

impl RayResult {
    pub fn new(pos: Vector3, color: Vector3, normal: Vector3, emit: Vector3, t: MaterialType) -> (r:
        Self)
        ensures
            r == (RayResult { pos, color, normal, emit, t }),
    {
        Self { pos, color, normal, emit, t }
    }

    /// A diffuse surface at the origin, all of whose vectors are zero.
    pub fn empty() -> (r: Self)
        ensures
            r == (RayResult {
                pos: Vector3::origin(),
                color: Vector3::origin(),
                normal: Vector3::origin(),
                emit: Vector3::origin(),
                t: MaterialType::Diffuse,
            }),
    {
        Self::new(
            Vector3::zero(),
            Vector3::zero(),
            Vector3::zero(),
            Vector3::zero(),
            MaterialType::Diffuse,
        )
    }
}

/// The rounding arithmetic of a ray query, which the caller brings along.
///
/// A query compares numbers and decides; it never computes one. Whatever has
/// to be added, multiplied or divided on the way is asked of these four
/// functions, each with the ray's origin and direction as its last two
/// arguments but for `blend`.
pub struct Arithmetic<S, P, B, D> {
    /// For a box: the reciprocal direction and the plane crossings.
    pub slabs: S,
    /// For a triangle: determinant, barycentric coordinates and point.
    pub probe: P,
    /// For three normals and the weights `u` and `v` of the first two: the
    /// unit vector along the normals' weighted sum, the third weighing
    /// `1 - u - v`.
    pub blend: B,
    /// For a point: how far along the ray it lies, as the dot product of the
    /// direction with the vector from the origin to the point.
    pub distance: D,
}

impl<
    S: Fn(AABB, Vector3, Vector3) -> Slabs,
    P: Fn(Triangle, Vector3, Vector3) -> Probe,
    B: Fn(Vector3, Vector3, Vector3, Scalar, Scalar) -> Vector3,
    D: Fn(Vector3, Vector3, Vector3) -> Scalar,
> Arithmetic<S, P, B, D> {
    /// Each of the four functions may be called with any arguments.
    pub open spec fn total(self) -> bool {
        &&& forall|b: AABB, pos: Vector3, dir: Vector3| call_requires(self.slabs, (b, pos, dir))
        &&& forall|t: Triangle, pos: Vector3, dir: Vector3|
            call_requires(self.probe, (t, pos, dir))
        &&& forall|a: Vector3, b: Vector3, c: Vector3, u: Scalar, v: Scalar|
            call_requires(self.blend, (a, b, c, u, v))
        &&& forall|hit: Vector3, pos: Vector3, dir: Vector3|
            call_requires(self.distance, (hit, pos, dir))
    }
}

/// A node of the hierarchy.
pub enum RayResolver {
    /// A box in front of one node.
    Bounding(AABBRayResolver),
    /// Several nodes side by side.
    Multi(MultiRayResolver),
    /// One triangle.
    Leaf(TriangleResolver),
}

impl RayResolver {
    /// `r` is an answer of this node to the ray from `pos` along `dir`, for
    /// some outcomes of the arithmetic.
    pub open spec fn answers<
        S: Fn(AABB, Vector3, Vector3) -> Slabs,
        P: Fn(Triangle, Vector3, Vector3) -> Probe,
        B: Fn(Vector3, Vector3, Vector3, Scalar, Scalar) -> Vector3,
        D: Fn(Vector3, Vector3, Vector3) -> Scalar,
    >(self, pos: Vector3, dir: Vector3, kit: Arithmetic<S, P, B, D>, r: Option<RayResult>) -> bool
        decreases self,
    {
        match self {
            RayResolver::Bounding(b) => b.answers(pos, dir, kit, r),
            RayResolver::Multi(m) => m.answers(pos, dir, kit, r),
            RayResolver::Leaf(l) => l.answers(pos, dir, kit.probe, kit.blend, r),
        }
    }

    /// The triangles below this node, from left to right.
    pub open spec fn leaves(self) -> Seq<Triangle>
        decreases self,
    {
        match self {
            RayResolver::Bounding(b) => b.leaves(),
            RayResolver::Multi(m) => m.leaves(),
            RayResolver::Leaf(l) => seq![l.triangle],
        }
    }

    /// The nearest surface that the ray from `pos` along `dir` meets below
    /// this node, if it meets any. `refraction` is reserved and changes
    /// nothing.
    pub fn resolve<
        S: Fn(AABB, Vector3, Vector3) -> Slabs,
        P: Fn(Triangle, Vector3, Vector3) -> Probe,
        B: Fn(Vector3, Vector3, Vector3, Scalar, Scalar) -> Vector3,
        D: Fn(Vector3, Vector3, Vector3) -> Scalar,
    >(&self, pos: Vector3, dir: Vector3, refraction: bool, kit: &Arithmetic<S, P, B, D>) -> (r:
        Option<RayResult>)
        requires
            kit.total(),
        ensures
            self.answers(pos, dir, *kit, r),
        decreases self,
    {
        match self {
            RayResolver::Bounding(b) => b.resolve(pos, dir, refraction, kit),
            RayResolver::Multi(m) => m.resolve(pos, dir, refraction, kit),
            RayResolver::Leaf(l) => l.resolve(pos, dir, refraction, &kit.probe, &kit.blend),
        }
    }
}

} // verus!
