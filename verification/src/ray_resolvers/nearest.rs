//! What a query over a hierarchy finds, measured against asking every
//! triangle in turn.
//!
//! The statements here are about arithmetic that is a function: the same
//! triangle and ray always give the same probe, the same point the same
//! distance. They speak of that arithmetic through what it makes a triangle
//! show to the ray (`seen_of`) and how far it puts a point (`depth_of`).
use crate::ray_resolvers::bvh::aabb::{AABBRayResolver, Slabs, AABB};
use crate::ray_resolvers::bvh::multi_ray_resolver::{nearest, nearest_of, MultiRayResolver};
use crate::ray_resolvers::bvh::triangle::{Probe, Triangle, TriangleResolver};
use crate::ray_resolvers::ray_resolver::{Arithmetic, RayResolver, RayResult};
use crate::scalar::Scalar;
use crate::utilities::Vector3;
use vstd::prelude::*;

verus! {

/// The arithmetic is a function, and `seen_of` and `depth_of` are what it
/// computes: a leaf over a triangle `t` has no answer but `seen_of(t)`, and a
/// point `p` no distance but `depth_of(p)`.
pub open spec fn determined<
    S: Fn(AABB, Vector3, Vector3) -> Slabs,
    P: Fn(Triangle, Vector3, Vector3) -> Probe,
    B: Fn(Vector3, Vector3, Vector3, Scalar, Scalar) -> Vector3,
    D: Fn(Vector3, Vector3, Vector3) -> Scalar,
>(
    pos: Vector3,
    dir: Vector3,
    kit: Arithmetic<S, P, B, D>,
    seen_of: spec_fn(Triangle) -> Option<RayResult>,
    depth_of: spec_fn(Vector3) -> Scalar,
) -> bool {
    &&& forall|t: Triangle, r: Option<RayResult>|
        #[trigger] (TriangleResolver { triangle: t }).answers(pos, dir, kit.probe, kit.blend, r)
            ==> r == seen_of(t)
    &&& forall|p: Vector3, d: Scalar|
        #[trigger] call_ensures(kit.distance, (p, pos, dir), d) ==> d == depth_of(p)
}

/// Some triangle of the sequence shows itself to the ray.
pub open spec fn some_seen(
    triangles: Seq<Triangle>,
    seen_of: spec_fn(Triangle) -> Option<RayResult>,
) -> bool {
    exists|t: Triangle| #[trigger] triangles.contains(t) && seen_of(t) is Some
}

/// No box stands in the way of a hit: wherever a triangle below a box shows
/// itself to the ray, the slab test lets the ray into the box.
///
/// Rounding can break this. So can a triangle behind the ray's origin: the
/// intersection test reports it, while the slab test rejects a box that lies
/// behind the origin altogether.
pub open spec fn unobstructed<
    S: Fn(AABB, Vector3, Vector3) -> Slabs,
    P: Fn(Triangle, Vector3, Vector3) -> Probe,
    B: Fn(Vector3, Vector3, Vector3, Scalar, Scalar) -> Vector3,
    D: Fn(Vector3, Vector3, Vector3) -> Scalar,
>(
    node: RayResolver,
    pos: Vector3,
    dir: Vector3,
    kit: Arithmetic<S, P, B, D>,
    seen_of: spec_fn(Triangle) -> Option<RayResult>,
) -> bool
    decreases node,
{
    match node {
        RayResolver::Bounding(b) => {
            &&& some_seen(b.leaves(), seen_of) ==> forall|s: Slabs|
                #[trigger] call_ensures(kit.slabs, (b.aabb, pos, dir), s) ==> s.parameter() is Some
            &&& unobstructed(*b.inner, pos, dir, kit, seen_of)
        },
        RayResolver::Multi(m) => forall|i: int|
            0 <= i < m.inner.len() ==> unobstructed(#[trigger] m.inner[i], pos, dir, kit, seen_of),
        RayResolver::Leaf(_) => true,
    }
}

/// Where no box stands in the way below nodes side by side, none does below
/// any one of them.
pub proof fn lemma_unobstructed_child<
    S: Fn(AABB, Vector3, Vector3) -> Slabs,
    P: Fn(Triangle, Vector3, Vector3) -> Probe,
    B: Fn(Vector3, Vector3, Vector3, Scalar, Scalar) -> Vector3,
    D: Fn(Vector3, Vector3, Vector3) -> Scalar,
>(
    m: MultiRayResolver,
    i: int,
    pos: Vector3,
    dir: Vector3,
    kit: Arithmetic<S, P, B, D>,
    seen_of: spec_fn(Triangle) -> Option<RayResult>,
)
    requires
        unobstructed(RayResolver::Multi(m), pos, dir, kit, seen_of),
        0 <= i < m.inner.len(),
    ensures
        unobstructed(m.inner[i], pos, dir, kit, seen_of),
{
    let node = RayResolver::Multi(m);
    assert(node is Multi);
    assert(node->Multi_0 == m);
    assert(forall|j: int|
        0 <= j < m.inner.len() ==> unobstructed(#[trigger] m.inner[j], pos, dir, kit, seen_of));
}

/// Every hit on these triangles lies at a distance that is a number.
pub open spec fn depths_are_numbers(
    triangles: Seq<Triangle>,
    seen_of: spec_fn(Triangle) -> Option<RayResult>,
    depth_of: spec_fn(Vector3) -> Scalar,
) -> bool {
    forall|t: Triangle| #[trigger]
        triangles.contains(t) ==> match seen_of(t) {
            Some(hit) => !depth_of(hit.pos).nan(),
            None => true,
        }
}

/// `r` is what asking every triangle finds: nothing if none shows itself to
/// the ray, else what one of them shows, no other showing anything nearer.
pub open spec fn nearest_seen(
    triangles: Seq<Triangle>,
    seen_of: spec_fn(Triangle) -> Option<RayResult>,
    depth_of: spec_fn(Vector3) -> Scalar,
    r: Option<RayResult>,
) -> bool {
    match r {
        None => !some_seen(triangles, seen_of),
        Some(hit) => {
            &&& exists|t: Triangle| #[trigger] triangles.contains(t) && seen_of(t) == Some(hit)
            &&& forall|t: Triangle| #[trigger]
                triangles.contains(t) ==> match seen_of(t) {
                    Some(other) => depth_of(hit.pos).rank() <= depth_of(other.pos).rank(),
                    None => true,
                }
        },
    }
}

/// A triangle is below the first `n` children of a node exactly if it is
/// below one of them.
pub proof fn lemma_leaves_below(m: MultiRayResolver, n: nat, t: Triangle)
    requires
        n <= m.inner.len(),
    ensures
        m.leaves_below(n).contains(t) <==> exists|i: int|
            0 <= i < n && (#[trigger] m.inner[i]).leaves().contains(t),
    decreases n,
{
    if n == 0 {
        assert(!m.leaves_below(n).contains(t));
    } else {
        let before = m.leaves_below((n - 1) as nat);
        let last = m.inner[n - 1].leaves();
        lemma_leaves_below(m, (n - 1) as nat, t);
        assert(m.leaves_below(n) == before + last);
        if (before + last).contains(t) {
            let k = choose|k: int| 0 <= k < (before + last).len() && (before + last)[k] == t;
            if k < before.len() {
                assert(before[k] == t);
                assert(before.contains(t));
            } else {
                assert(last[k - before.len()] == t);
                assert(last.contains(t));
                assert(m.inner[n - 1].leaves().contains(t));
            }
        }
        if exists|i: int| 0 <= i < n && (#[trigger] m.inner[i]).leaves().contains(t) {
            let i = choose|i: int| 0 <= i < n && (#[trigger] m.inner[i]).leaves().contains(t);
            if i < n - 1 {
                assert(before.contains(t));
                let k = choose|k: int| 0 <= k < before.len() && before[k] == t;
                assert((before + last)[k] == t);
            } else {
                let k = choose|k: int| 0 <= k < last.len() && last[k] == t;
                assert((before + last)[before.len() + k] == t);
            }
        }
    }
}

/// The distance of a held answer.
pub open spec fn distance_held(held: Option<(RayResult, Scalar)>) -> Scalar {
    match held {
        Some((_, least)) => least,
        None => Scalar::zero_value(),
    }
}

/// What the fold over the children's answers keeps: nothing where no child
/// answered; else the answer of a child with its distance, which no other
/// answer's distance undercuts, as long as the distances are numbers.
pub proof fn lemma_nearest_of(outs: Seq<Option<RayResult>>, dists: Seq<Scalar>, n: nat)
    requires
        n <= outs.len(),
        n <= dists.len(),
    ensures
        nearest_of(outs, dists, n) is None <==> forall|i: int| 0 <= i < n ==> outs[i] is None,
        nearest_of(outs, dists, n) matches Some((hit, least)) ==> {
            &&& exists|i: int| 0 <= i < n && outs[i] == Some(hit) && dists[i] == least
            &&& (forall|i: int| 0 <= i < n && outs[i] is Some ==> !(#[trigger] dists[i]).nan())
                ==> forall|i: int|
                0 <= i < n && outs[i] is Some ==> least.rank() <= (#[trigger] dists[i]).rank()
        },
    decreases n,
{
    if n > 0 {
        lemma_nearest_of(outs, dists, (n - 1) as nat);
        let held = nearest_of(outs, dists, (n - 1) as nat);
        match nearest_of(outs, dists, n) {
            None => {},
            Some((hit, least)) => {
                match outs[n - 1] {
                    None => {
                        let i = choose|i: int|
                            0 <= i < n - 1 && outs[i] == Some(hit) && dists[i] == least;
                        assert(0 <= i < n && outs[i] == Some(hit) && dists[i] == least);
                    },
                    Some(last) => {
                        if held is None || dists[n - 1].less(distance_held(held)) {
                            assert(outs[n - 1] == Some(hit) && dists[n - 1] == least);
                        } else {
                            let i = choose|i: int|
                                0 <= i < n - 1 && outs[i] == Some(hit) && dists[i] == least;
                            assert(0 <= i < n && outs[i] == Some(hit) && dists[i] == least);
                        }
                    },
                }
            },
        }
    }
}

/// A query over a hierarchy finds what asking every triangle finds, as long
/// as no box stands in the way of a hit and the hits' distances are numbers.
///
/// With that the answer does not depend on how the triangles are spread over
/// the hierarchy: `nearest_seen` speaks of the triangles only.
pub proof fn lemma_query_finds_nearest<
    S: Fn(AABB, Vector3, Vector3) -> Slabs,
    P: Fn(Triangle, Vector3, Vector3) -> Probe,
    B: Fn(Vector3, Vector3, Vector3, Scalar, Scalar) -> Vector3,
    D: Fn(Vector3, Vector3, Vector3) -> Scalar,
>(
    node: RayResolver,
    pos: Vector3,
    dir: Vector3,
    kit: Arithmetic<S, P, B, D>,
    seen_of: spec_fn(Triangle) -> Option<RayResult>,
    depth_of: spec_fn(Vector3) -> Scalar,
    r: Option<RayResult>,
)
    requires
        node.answers(pos, dir, kit, r),
        determined(pos, dir, kit, seen_of, depth_of),
        unobstructed(node, pos, dir, kit, seen_of),
        depths_are_numbers(node.leaves(), seen_of, depth_of),
    ensures
        nearest_seen(node.leaves(), seen_of, depth_of, r),
    decreases node,
{
    match node {
        RayResolver::Leaf(l) => {
            let leaves = node.leaves();
            assert(leaves[0] == l.triangle);
            assert(leaves.contains(l.triangle));
            assert(r == seen_of(l.triangle));
            assert forall|t: Triangle| leaves.contains(t) implies t == l.triangle by {}
        },
        RayResolver::Bounding(b) => {
            let s = choose|s: Slabs| #[trigger]
                call_ensures(kit.slabs, (b.aabb, pos, dir), s) && if s.parameter() is Some {
                    b.inner.answers(pos, dir, kit, r)
                } else {
                    r is None
                };
            if s.parameter() is Some {
                lemma_query_finds_nearest(*b.inner, pos, dir, kit, seen_of, depth_of, r);
            }
        },
        RayResolver::Multi(m) => {
            lemma_multi_finds_nearest(m, pos, dir, kit, seen_of, depth_of, r);
        },
    }
}

/// `lemma_query_finds_nearest` for nodes side by side.
pub proof fn lemma_multi_finds_nearest<
    S: Fn(AABB, Vector3, Vector3) -> Slabs,
    P: Fn(Triangle, Vector3, Vector3) -> Probe,
    B: Fn(Vector3, Vector3, Vector3, Scalar, Scalar) -> Vector3,
    D: Fn(Vector3, Vector3, Vector3) -> Scalar,
>(
    m: MultiRayResolver,
    pos: Vector3,
    dir: Vector3,
    kit: Arithmetic<S, P, B, D>,
    seen_of: spec_fn(Triangle) -> Option<RayResult>,
    depth_of: spec_fn(Vector3) -> Scalar,
    r: Option<RayResult>,
)
    requires
        m.answers(pos, dir, kit, r),
        determined(pos, dir, kit, seen_of, depth_of),
        unobstructed(RayResolver::Multi(m), pos, dir, kit, seen_of),
        depths_are_numbers(m.leaves(), seen_of, depth_of),
    ensures
        nearest_seen(m.leaves(), seen_of, depth_of, r),
    decreases m,
{
    let leaves = m.leaves();
    let n = m.inner.len() as nat;
    assert forall|t: Triangle|
        leaves.contains(t) <==> exists|i: int|
            0 <= i < n && (#[trigger] m.inner[i]).leaves().contains(t) by {
        lemma_leaves_below(m, n, t);
    }
    if n == 0 {
    } else if n == 1 {
        assert(m.leaves_below(0) =~= Seq::empty());
        assert(leaves =~= m.inner[0].leaves());
        lemma_unobstructed_child(m, 0, pos, dir, kit, seen_of);
        lemma_query_finds_nearest(m.inner[0], pos, dir, kit, seen_of, depth_of, r);
    } else {
        let (outs, dists) = children_answers(m, pos, dir, kit, r);
        assert forall|i: int| 0 <= i < n implies nearest_seen(
            (#[trigger] m.inner[i]).leaves(),
            seen_of,
            depth_of,
            outs[i],
        ) by {
            assert forall|t: Triangle| #[trigger]
                m.inner[i].leaves().contains(t) implies match seen_of(t) {
                Some(hit) => !depth_of(hit.pos).nan(),
                None => true,
            } by {
                assert(leaves.contains(t));
            }
            lemma_unobstructed_child(m, i, pos, dir, kit, seen_of);
            lemma_query_finds_nearest(m.inner[i], pos, dir, kit, seen_of, depth_of, outs[i]);
        }
        assert forall|i: int| 0 <= i < n && outs[i] is Some implies dists[i] == depth_of(
            outs[i]->0.pos,
        ) && !(#[trigger] dists[i]).nan() by {
            let hit = outs[i]->0;
            assert(nearest_seen(m.inner[i].leaves(), seen_of, depth_of, outs[i]));
            let t = choose|t: Triangle| #[trigger]
                m.inner[i].leaves().contains(t) && seen_of(t) == Some(hit);
            assert(leaves.contains(t));
        }
        lemma_nearest_of(outs, dists, n);
        match r {
            None => {
                if some_seen(leaves, seen_of) {
                    let t = choose|t: Triangle| #[trigger] leaves.contains(t) && seen_of(t) is Some;
                    let i = choose|i: int|
                        0 <= i < n && (#[trigger] m.inner[i]).leaves().contains(t);
                    assert(nearest_seen(m.inner[i].leaves(), seen_of, depth_of, outs[i]));
                    assert(some_seen(m.inner[i].leaves(), seen_of));
                    assert(outs[i] is Some);
                }
            },
            Some(hit) => {
                let least = distance_held(nearest_of(outs, dists, n));
                let k = choose|k: int| 0 <= k < n && outs[k] == Some(hit) && dists[k] == least;
                assert(nearest_seen(m.inner[k].leaves(), seen_of, depth_of, outs[k]));
                let t = choose|t: Triangle| #[trigger]
                    m.inner[k].leaves().contains(t) && seen_of(t) == Some(hit);
                assert(leaves.contains(t) && seen_of(t) == Some(hit));
                assert forall|t: Triangle| #[trigger] leaves.contains(t) implies match seen_of(t) {
                    Some(other) => depth_of(hit.pos).rank() <= depth_of(other.pos).rank(),
                    None => true,
                } by {
                    if seen_of(t) is Some {
                        let i = choose|i: int|
                            0 <= i < n && (#[trigger] m.inner[i]).leaves().contains(t);
                        assert(nearest_seen(m.inner[i].leaves(), seen_of, depth_of, outs[i]));
                        assert(some_seen(m.inner[i].leaves(), seen_of));
                        assert(outs[i] is Some);
                        assert(least.rank() <= dists[i].rank());
                    }
                }
            },
        }
    }
}

/// Whatever a query answers is what one of the triangles below shows to the
/// ray; so where no triangle shows itself, there is no answer. No box can
/// change that: a box only ever hides.
pub proof fn lemma_answer_is_seen<
    S: Fn(AABB, Vector3, Vector3) -> Slabs,
    P: Fn(Triangle, Vector3, Vector3) -> Probe,
    B: Fn(Vector3, Vector3, Vector3, Scalar, Scalar) -> Vector3,
    D: Fn(Vector3, Vector3, Vector3) -> Scalar,
>(
    node: RayResolver,
    pos: Vector3,
    dir: Vector3,
    kit: Arithmetic<S, P, B, D>,
    seen_of: spec_fn(Triangle) -> Option<RayResult>,
    depth_of: spec_fn(Vector3) -> Scalar,
    r: Option<RayResult>,
)
    requires
        node.answers(pos, dir, kit, r),
        determined(pos, dir, kit, seen_of, depth_of),
    ensures
        r is Some ==> exists|t: Triangle| #[trigger] node.leaves().contains(t) && seen_of(t) == r,
        !some_seen(node.leaves(), seen_of) ==> r is None,
    decreases node,
{
    match node {
        RayResolver::Leaf(l) => {
            assert(node.leaves()[0] == l.triangle);
            assert(node.leaves().contains(l.triangle));
            assert(r == seen_of(l.triangle));
        },
        RayResolver::Bounding(b) => {
            let s = choose|s: Slabs| #[trigger]
                call_ensures(kit.slabs, (b.aabb, pos, dir), s) && if s.parameter() is Some {
                    b.inner.answers(pos, dir, kit, r)
                } else {
                    r is None
                };
            if s.parameter() is Some {
                lemma_answer_is_seen(*b.inner, pos, dir, kit, seen_of, depth_of, r);
            }
        },
        RayResolver::Multi(m) => {
            let leaves = m.leaves();
            let n = m.inner.len() as nat;
            assert forall|t: Triangle|
                leaves.contains(t) <==> exists|i: int|
                    0 <= i < n && (#[trigger] m.inner[i]).leaves().contains(t) by {
                lemma_leaves_below(m, n, t);
            }
            if n == 0 {
            } else if n == 1 {
                assert(m.leaves_below(0) =~= Seq::empty());
                assert(leaves =~= m.inner[0].leaves());
                lemma_answer_is_seen(m.inner[0], pos, dir, kit, seen_of, depth_of, r);
            } else if r is Some {
                let (outs, dists) = children_answers(m, pos, dir, kit, r);
                lemma_nearest_of(outs, dists, n);
                let k = choose|k: int| 0 <= k < n && outs[k] == r;
                lemma_answer_is_seen(m.inner[k], pos, dir, kit, seen_of, depth_of, outs[k]);
                let t = choose|t: Triangle| #[trigger]
                    m.inner[k].leaves().contains(t) && seen_of(t) == r;
                assert(leaves.contains(t) && seen_of(t) == r);
            }
        },
    }
    if r is Some {
        let t = choose|t: Triangle| #[trigger] node.leaves().contains(t) && seen_of(t) == r;
        assert(node.leaves().contains(t) && seen_of(t) is Some);
    }
}

/// The children's answers and their distances from which nodes side by side
/// make their own answer.
pub proof fn children_answers<
    S: Fn(AABB, Vector3, Vector3) -> Slabs,
    P: Fn(Triangle, Vector3, Vector3) -> Probe,
    B: Fn(Vector3, Vector3, Vector3, Scalar, Scalar) -> Vector3,
    D: Fn(Vector3, Vector3, Vector3) -> Scalar,
>(
    m: MultiRayResolver,
    pos: Vector3,
    dir: Vector3,
    kit: Arithmetic<S, P, B, D>,
    r: Option<RayResult>,
) -> (found: (Seq<Option<RayResult>>, Seq<Scalar>))
    requires
        m.inner.len() >= 2,
        m.answers(pos, dir, kit, r),
    ensures
        found.0.len() == m.inner.len(),
        found.1.len() == m.inner.len(),
        forall|i: int|
            0 <= i < m.inner.len() ==> (#[trigger] m.inner[i]).answers(pos, dir, kit, found.0[i]),
        forall|i: int|
            0 <= i < m.inner.len() ==> match #[trigger] found.0[i] {
                Some(hit) => call_ensures(kit.distance, (hit.pos, pos, dir), found.1[i]),
                None => true,
            },
        r == nearest(found.0, found.1),
{
    choose|outs: Seq<Option<RayResult>>, dists: Seq<Scalar>|
        #![trigger nearest(outs, dists)]
        {
            &&& outs.len() == m.inner.len()
            &&& dists.len() == m.inner.len()
            &&& forall|i: int|
                0 <= i < m.inner.len() ==> (#[trigger] m.inner[i]).answers(pos, dir, kit, outs[i])
            &&& forall|i: int|
                0 <= i < m.inner.len() ==> match #[trigger] outs[i] {
                    Some(hit) => call_ensures(kit.distance, (hit.pos, pos, dir), dists[i]),
                    None => true,
                }
            &&& r == nearest(outs, dists)
        }
}

/// Where all the triangles that show themselves to the ray show the same
/// thing (as where only one of them is hit), a query answers with it, as
/// long as no box stands in the way.
pub proof fn lemma_query_finds_single_hit<
    S: Fn(AABB, Vector3, Vector3) -> Slabs,
    P: Fn(Triangle, Vector3, Vector3) -> Probe,
    B: Fn(Vector3, Vector3, Vector3, Scalar, Scalar) -> Vector3,
    D: Fn(Vector3, Vector3, Vector3) -> Scalar,
>(
    node: RayResolver,
    pos: Vector3,
    dir: Vector3,
    kit: Arithmetic<S, P, B, D>,
    seen_of: spec_fn(Triangle) -> Option<RayResult>,
    depth_of: spec_fn(Vector3) -> Scalar,
    r: Option<RayResult>,
    hit: RayResult,
)
    requires
        node.answers(pos, dir, kit, r),
        determined(pos, dir, kit, seen_of, depth_of),
        unobstructed(node, pos, dir, kit, seen_of),
        some_seen(node.leaves(), seen_of),
        forall|t: Triangle| #[trigger]
            node.leaves().contains(t) && seen_of(t) is Some ==> seen_of(t) == Some(hit),
    ensures
        r == Some(hit),
    decreases node,
{
    match node {
        RayResolver::Leaf(l) => {
            assert(node.leaves()[0] == l.triangle);
            assert(node.leaves().contains(l.triangle));
            assert(r == seen_of(l.triangle));
            let t = choose|t: Triangle| #[trigger] node.leaves().contains(t) && seen_of(t) is Some;
            assert(t == l.triangle);
        },
        RayResolver::Bounding(b) => {
            let s = choose|s: Slabs| #[trigger]
                call_ensures(kit.slabs, (b.aabb, pos, dir), s) && if s.parameter() is Some {
                    b.inner.answers(pos, dir, kit, r)
                } else {
                    r is None
                };
            lemma_query_finds_single_hit(*b.inner, pos, dir, kit, seen_of, depth_of, r, hit);
        },
        RayResolver::Multi(m) => {
            let leaves = m.leaves();
            let n = m.inner.len() as nat;
            assert forall|t: Triangle|
                leaves.contains(t) <==> exists|i: int|
                    0 <= i < n && (#[trigger] m.inner[i]).leaves().contains(t) by {
                lemma_leaves_below(m, n, t);
            }
            let t = choose|t: Triangle| #[trigger] leaves.contains(t) && seen_of(t) is Some;
            let k = choose|k: int| 0 <= k < n && (#[trigger] m.inner[k]).leaves().contains(t);
            assert(some_seen(m.inner[k].leaves(), seen_of));
            if n == 1 {
                assert(m.leaves_below(0) =~= Seq::empty());
                assert(leaves =~= m.inner[0].leaves());
                lemma_unobstructed_child(m, 0, pos, dir, kit, seen_of);
                lemma_query_finds_single_hit(m.inner[0], pos, dir, kit, seen_of, depth_of, r, hit);
            } else {
                let (outs, dists) = children_answers(m, pos, dir, kit, r);
                lemma_nearest_of(outs, dists, n);
                lemma_unobstructed_child(m, k, pos, dir, kit, seen_of);
                assert forall|u: Triangle| #[trigger]
                    m.inner[k].leaves().contains(u) && seen_of(u) is Some implies seen_of(u)
                    == Some(hit) by {
                    assert(leaves.contains(u));
                }
                lemma_query_finds_single_hit(
                    m.inner[k],
                    pos,
                    dir,
                    kit,
                    seen_of,
                    depth_of,
                    outs[k],
                    hit,
                );
                assert(outs[k] is Some);
                let j = choose|j: int| 0 <= j < n && outs[j] == r;
                lemma_answer_is_seen(m.inner[j], pos, dir, kit, seen_of, depth_of, outs[j]);
                let u = choose|u: Triangle| #[trigger]
                    m.inner[j].leaves().contains(u) && seen_of(u) == r;
                assert(leaves.contains(u));
            }
        },
    }
}

/// What asking every triangle finds does not depend on the order in which
/// they are asked: of the same triangles in two orders either both findings
/// are empty, or both are hits at the same distance.
pub proof fn lemma_nearest_seen_any_order(
    a: Seq<Triangle>,
    b: Seq<Triangle>,
    seen_of: spec_fn(Triangle) -> Option<RayResult>,
    depth_of: spec_fn(Vector3) -> Scalar,
    ra: Option<RayResult>,
    rb: Option<RayResult>,
)
    requires
        a.to_multiset() == b.to_multiset(),
        nearest_seen(a, seen_of, depth_of, ra),
        nearest_seen(b, seen_of, depth_of, rb),
    ensures
        ra is None <==> rb is None,
        ra matches Some(x) ==> rb matches Some(y) ==> depth_of(x.pos).rank() == depth_of(
            y.pos,
        ).rank(),
{
    assert forall|t: Triangle| a.contains(t) <==> b.contains(t) by {
        vstd::seq_lib::to_multiset_contains(a, t);
        vstd::seq_lib::to_multiset_contains(b, t);
    }
    if ra is Some {
        let t = choose|t: Triangle| #[trigger] a.contains(t) && seen_of(t) == ra;
        assert(b.contains(t) && seen_of(t) is Some);
    }
    if rb is Some {
        let t = choose|t: Triangle| #[trigger] b.contains(t) && seen_of(t) == rb;
        assert(a.contains(t) && seen_of(t) is Some);
    }
}

} // verus!
