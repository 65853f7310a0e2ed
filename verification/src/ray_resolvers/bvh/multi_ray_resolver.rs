//! Several nodes side by side, of whose answers the nearest counts.
use crate::ray_resolvers::bvh::aabb::{Slabs, AABB};
use crate::ray_resolvers::bvh::triangle::{Probe, Triangle};
use crate::ray_resolvers::ray_resolver::{Arithmetic, RayResolver, RayResult};
use crate::scalar::Scalar;
use crate::utilities::Vector3;
use vstd::prelude::*;

verus! {

/// The nearest of the first `n` answers, with its distance: an answer takes
/// the place of the one held only if its distance is strictly less, so of two
/// equally near answers the earlier stays, and no answer displaces one whose
/// distance is a NaN.
pub open spec fn nearest_of(outs: Seq<Option<RayResult>>, dists: Seq<Scalar>, n: nat) -> Option<
    (RayResult, Scalar),
>
    decreases n,
{
    if n == 0 {
        None
    } else {
        let held = nearest_of(outs, dists, (n - 1) as nat);
        match outs[n - 1] {
            None => held,
            Some(hit) => match held {
                None => Some((hit, dists[n - 1])),
                Some((_, least)) => if dists[n - 1].less(least) {
                    Some((hit, dists[n - 1]))
                } else {
                    held
                },
            },
        }
    }
}

/// The nearest of all the answers.
pub open spec fn nearest(outs: Seq<Option<RayResult>>, dists: Seq<Scalar>) -> Option<RayResult> {
    match nearest_of(outs, dists, outs.len()) {
        None => None,
        Some((hit, _)) => Some(hit),
    }
}

/// Nodes side by side.
pub struct MultiRayResolver {
    pub inner: Vec<RayResolver>,
}

impl MultiRayResolver {
    /// `r` is an answer of this node to the ray. Without children there is
    /// none. An only child answers for the node. Of several children each is
    /// asked, the distance of each answer is measured, and the nearest answer
    /// is the node's.
    pub open spec fn answers<
        S: Fn(AABB, Vector3, Vector3) -> Slabs,
        P: Fn(Triangle, Vector3, Vector3) -> Probe,
        B: Fn(Vector3, Vector3, Vector3, Scalar, Scalar) -> Vector3,
        D: Fn(Vector3, Vector3, Vector3) -> Scalar,
    >(self, pos: Vector3, dir: Vector3, kit: Arithmetic<S, P, B, D>, r: Option<RayResult>) -> bool
        decreases self,
    {
        if self.inner.len() == 0 {
            r is None
        } else if self.inner.len() == 1 {
            self.inner[0].answers(pos, dir, kit, r)
        } else {
            exists|outs: Seq<Option<RayResult>>, dists: Seq<Scalar>|
                #![trigger nearest(outs, dists)]
                {
                    &&& outs.len() == self.inner.len()
                    &&& dists.len() == self.inner.len()
                    &&& forall|i: int|
                        0 <= i < self.inner.len() ==> (#[trigger] self.inner[i]).answers(
                            pos,
                            dir,
                            kit,
                            outs[i],
                        )
                    &&& forall|i: int|
                        0 <= i < self.inner.len() ==> match #[trigger] outs[i] {
                            Some(hit) => call_ensures(kit.distance, (hit.pos, pos, dir), dists[i]),
                            None => true,
                        }
                    &&& r == nearest(outs, dists)
                }
        }
    }

    /// The triangles below the first `n` children, from left to right.
    pub open spec fn leaves_below(self, n: nat) -> Seq<Triangle>
        decreases self, n,
    {
        if n == 0 || n > self.inner.len() {
            Seq::empty()
        } else {
            self.leaves_below((n - 1) as nat) + self.inner[n - 1].leaves()
        }
    }

    /// The triangles below this node, from left to right.
    pub open spec fn leaves(self) -> Seq<Triangle>
        decreases self, self.inner.len() + 1,
    {
        self.leaves_below(self.inner.len() as nat)
    }

    /// The nearest of the children's answers. Every child is asked, whatever
    /// the others answered. `refraction` is reserved and changes nothing.
    pub fn resolve<
        S: Fn(AABB, Vector3, Vector3) -> Slabs,
        P: Fn(Triangle, Vector3, Vector3) -> Probe,
        B: Fn(Vector3, Vector3, Vector3, Scalar, Scalar) -> Vector3,
        D: Fn(Vector3, Vector3, Vector3) -> Scalar,
    >(&self, pos: Vector3, dir: Vector3, refraction: bool, kit: &Arithmetic<S, P, B, D>) -> (r:
        Option<RayResult>)
        requires
            kit.total(),
        ensures
            self.answers(pos, dir, *kit, r),
        decreases self,
    {
        if self.inner.len() == 0 {
            return None;
        }
        if self.inner.len() == 1 {
            let ray = &self.inner[0];
            return ray.resolve(pos, dir, refraction, kit);
        }
        let mut closest: Option<RayResult> = None;
        let mut closest_distance = Scalar::zero();
        let ghost mut outs: Seq<Option<RayResult>> = Seq::empty();
        let ghost mut dists: Seq<Scalar> = Seq::empty();
        let mut i: usize = 0;
        while i < self.inner.len()
            invariant
                0 <= i <= self.inner.len(),
                kit.total(),
                outs.len() == i,
                dists.len() == i,
                forall|j: int|
                    0 <= j < i ==> (#[trigger] self.inner[j]).answers(pos, dir, *kit, outs[j]),
                forall|j: int|
                    0 <= j < i ==> match #[trigger] outs[j] {
                        Some(hit) => call_ensures(kit.distance, (hit.pos, pos, dir), dists[j]),
                        None => true,
                    },
                match nearest_of(outs, dists, i as nat) {
                    None => closest is None,
                    Some((hit, least)) => closest == Some(hit) && closest_distance == least,
                },
            decreases self.inner.len() - i,
        {
            let result = self.inner[i].resolve(pos, dir, refraction, kit);
            let ghost before = (outs, dists);
            match result {
                Some(result) => {
                    let distance = (kit.distance)(result.pos, pos, dir);
                    proof {
                        outs = outs.push(Some(result));
                        dists = dists.push(distance);
                    }
                    if closest.is_none() || distance.lt(closest_distance) {
                        closest = Some(result);
                        closest_distance = distance;
                    }
                },
                None => {
                    proof {
                        outs = outs.push(None);
                        dists = dists.push(Scalar::zero_value());
                    }
                },
            }
            proof {
                lemma_nearest_of_prefix(before.0, before.1, outs, dists, i as nat);
            }
            i = i + 1;
        }
        assert(closest == nearest(outs, dists));
        closest
    }
}

/// The nearest of the first `n` answers depends on the first `n` answers and
/// distances alone.
pub proof fn lemma_nearest_of_prefix(
    outs: Seq<Option<RayResult>>,
    dists: Seq<Scalar>,
    outs2: Seq<Option<RayResult>>,
    dists2: Seq<Scalar>,
    n: nat,
)
    requires
        n <= outs.len(),
        n <= dists.len(),
        n <= outs2.len(),
        n <= dists2.len(),
        forall|i: int| 0 <= i < n ==> outs[i] == outs2[i],
        forall|i: int| 0 <= i < n ==> dists[i] == dists2[i],
    ensures
        nearest_of(outs, dists, n) == nearest_of(outs2, dists2, n),
    decreases n,
{
    if n > 0 {
        lemma_nearest_of_prefix(outs, dists, outs2, dists2, (n - 1) as nat);
    }
}

} // verus!
