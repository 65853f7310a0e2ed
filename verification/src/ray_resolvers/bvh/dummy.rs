//! A stand-in for a scene.
use crate::ray_resolvers::ray_resolver::{MaterialType, RayResult};
use crate::scalar::Scalar;
use crate::utilities::Vector3;
use vstd::prelude::*;

verus! {

/// A surface that is everywhere: every ray meets it where the ray starts.
pub struct Dummy {}

impl Dummy {
    /// A white, diffuse, dark surface at the ray's origin, facing the ray:
    /// its normal is zero less the direction. `_refraction` is reserved and
    /// changes nothing.
    pub fn resolve(&self, pos: Vector3, dir: Vector3, _refraction: bool) -> (r: Option<RayResult>)
        ensures
            r == Some(
                RayResult {
                    pos,
                    color: Vector3 {
                        x: Scalar::one_value(),
                        y: Scalar::one_value(),
                        z: Scalar::one_value(),
                    },
                    normal: Vector3 {
                        x: dir.x.reversed(),
                        y: dir.y.reversed(),
                        z: dir.z.reversed(),
                    },
                    emit: Vector3::origin(),
                    t: MaterialType::Diffuse,
                },
            ),
    {
        Some(
            RayResult::new(
                pos,
                Vector3::from_single(Scalar::one()),
                Vector3::new(dir.x.zero_minus(), dir.y.zero_minus(), dir.z.zero_minus()),
                Vector3::zero(),
                MaterialType::Diffuse,
            ),
        )
    }
}

} // verus!
