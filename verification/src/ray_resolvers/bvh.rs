//! Building the hierarchy: a box round all triangles, a split at the median
//! along the box's longest side, and the same again for each half.
pub mod aabb;
pub mod dummy;
pub mod mesh;
pub mod multi_ray_resolver;
pub mod triangle;

use crate::error::Error;
use crate::ray_resolvers::bvh::aabb::{AABBRayResolver, AABB};
use crate::ray_resolvers::bvh::multi_ray_resolver::MultiRayResolver;
use crate::ray_resolvers::bvh::triangle::{Triangle, TriangleResolver};
use crate::ray_resolvers::ray_resolver::RayResolver;
use crate::utilities::{Components, Vector3};
use std::cmp::Ordering;
use vstd::prelude::*;

verus! {

/// The union of the bounds of the first `n` triangles, taken from left to
/// right, starting from the bounds of the first.
pub open spec fn box_over(s: Seq<Triangle>, n: nat) -> AABB
    decreases n,
{
    if n == 0 {
        s[0].extent()
    } else {
        box_over(s, (n - 1) as nat).join(s[n - 1].extent())
    }
}

/// The box round all the triangles.
pub open spec fn bounding_box(s: Seq<Triangle>) -> AABB {
    box_over(s, s.len())
}

/// The number by which a triangle is placed along an axis: the total rank of
/// its centroid's coordinate. Among numbers it goes by their size. A NaN has
/// a place in it too, so that any triangles whatever can be put in order.
pub open spec fn split_key(t: Triangle, axis: Components) -> int {
    t.centroid.component(axis).total_rank()
}

/// The triangle at `mid` stands where sorting by `split_key` would put it:
/// none before it has a greater key and none after it a smaller one.
pub open spec fn split_around(s: Seq<Triangle>, mid: int, axis: Components) -> bool {
    &&& forall|i: int| 0 <= i < mid ==> split_key(#[trigger] s[i], axis) <= split_key(s[mid], axis)
    &&& forall|i: int|
        mid < i < s.len() ==> split_key(#[trigger] s[i], axis) >= split_key(s[mid], axis)
}

/// `split_around` for a position in a vector.
pub open spec fn split_at_index(s: Seq<Triangle>, index: usize, axis: Components) -> bool {
    split_around(s, index as int, axis)
}

/// The box round all the triangles.
pub fn get_bounding_box(triangles: &Vec<Triangle>) -> (aabb: AABB)
    requires
        triangles.len() > 0,
    ensures
        aabb == bounding_box(triangles@),
{
    let mut aabb = triangles[0].bounds();
    let mut i: usize = 0;
    while i < triangles.len()
        invariant
            0 <= i <= triangles.len(),
            aabb == box_over(triangles@, i as nat),
        decreases triangles.len() - i,
    {
        aabb = aabb.union(&triangles[i].bounds());
        i = i + 1;
    }
    aabb
}

/// Which of two triangles comes first along an axis, by `split_key`.
pub fn compare_centroids(a: &Triangle, b: &Triangle, axis: Components) -> (o: Ordering)
    ensures
        (o == Ordering::Less) == (split_key(*a, axis) < split_key(*b, axis)),
        (o == Ordering::Greater) == (split_key(*a, axis) > split_key(*b, axis)),
        (o == Ordering::Equal) == (split_key(*a, axis) == split_key(*b, axis)),
{
    let x: i64 = a.centroid.get_component(axis).total_key();
    let y: i64 = b.centroid.get_component(axis).total_key();
    if x < y {
        Ordering::Less
    } else if x > y {
        Ordering::Greater
    } else {
        Ordering::Equal
    }
}

/// `Vec::select_nth_unstable_by` with `compare_centroids` as its order: the
/// triangles are rearranged so that the one at `index` stands where sorting
/// would put it, with none of a greater key before it and none of a smaller
/// key after it. Which of the arrangements that meet this comes out is not
/// said.
#[verifier::external_body]
fn select_nth_by_centroid(triangles: &mut Vec<Triangle>, index: usize, axis: Components)
    requires
        index < old(triangles).len(),
    ensures
        final(triangles)@.to_multiset() == old(triangles)@.to_multiset(),
        final(triangles)@.len() == old(triangles)@.len(),
        split_at_index(final(triangles)@, index, axis),
{
    triangles.select_nth_unstable_by(index, |a, b| compare_centroids(a, b, axis));
}

impl AABBRayResolver {
    /// This node is a hierarchy that `generate_bvh` may build from these
    /// triangles.
    ///
    /// Over one triangle it is that triangle behind its own bounds. Over more
    /// it is two such hierarchies side by side behind the box round all the
    /// triangles: the triangles are rearranged round the median of their
    /// centroids along the axis on which `extent` finds the box longest, the
    /// first half (the smaller, where the count is odd) goes to the left and
    /// the rest to the right.
    pub open spec fn built_from<E: Fn(AABB) -> Vector3>(
        self,
        triangles: Seq<Triangle>,
        extent: E,
    ) -> bool
        decreases self,
    {
        if triangles.len() == 0 {
            false
        } else if triangles.len() == 1 {
            &&& self.aabb == triangles[0].extent()
            &&& *self.inner == RayResolver::Leaf(TriangleResolver { triangle: triangles[0] })
        } else {
            &&& self.aabb == bounding_box(triangles)
            &&& *self.inner matches RayResolver::Multi(multi)
            &&& multi.inner.len() == 2
            &&& multi.inner[0] matches RayResolver::Bounding(left)
            &&& multi.inner[1] matches RayResolver::Bounding(right)
            &&& exists|size: Vector3, arranged: Seq<Triangle>|
                #![trigger split_around(arranged, (triangles.len() / 2) as int, size.dominant())]
                {
                    &&& call_ensures(extent, (bounding_box(triangles),), size)
                    &&& arranged.to_multiset() == triangles.to_multiset()
                    &&& split_around(arranged, (triangles.len() / 2) as int, size.dominant())
                    &&& left.built_from(
                        arranged.subrange(0, (triangles.len() / 2) as int),
                        extent,
                    )
                    &&& right.built_from(
                        arranged.subrange(
                            (triangles.len() / 2) as int,
                            triangles.len() as int,
                        ),
                        extent,
                    )
                }
        }
    }
}

/// Builds the hierarchy over the triangles. `extent` does the one piece of
/// arithmetic on the way: the size of a box, which is its `max` less its
/// `min`.
///
/// There is no hierarchy over no triangles: that alone is an error.
pub fn generate_bvh<E: Fn(AABB) -> Vector3>(triangles: Vec<Triangle>, extent: &E) -> (r: Result<
    AABBRayResolver,
    Error,
>)
    requires
        forall|b: AABB| call_requires(*extent, (b,)),
    ensures
        r is Err <==> triangles@.len() == 0,
        r matches Err(e) ==> e@ == "BVH generation requires atleast 2 triangles"@,
        r matches Ok(root) ==> {
            &&& root.built_from(triangles@, *extent)
            &&& root.aabb == bounding_box(triangles@)
            &&& root.leaves().to_multiset() == triangles@.to_multiset()
        },
    decreases triangles@.len(),
{
    let mut triangles = triangles;
    let ghost given = triangles@;
    if triangles.len() < 1 {
        return Err(Error::new("BVH generation requires atleast 2 triangles".to_string()));
    }
    if triangles.len() == 1 {
        let triangle = triangles[0];
        let aabb = triangle.bounds();
        let inner = TriangleResolver { triangle };
        let resolver = AABBRayResolver::new(aabb, RayResolver::Leaf(inner));
        proof {
            lemma_built_keeps_triangles(resolver, given, *extent);
            assert(box_over(given, 1) == box_over(given, 0).join(given[0].extent()));
            assert(aabb.join(aabb) == aabb);
        }
        return Ok(resolver);
    }
    let bounds = get_bounding_box(&triangles);
    let size = extent(bounds);
    let orientation = size.largest_component();
    let index = triangles.len() / 2;
    select_nth_by_centroid(&mut triangles, index, orientation);
    let ghost arranged = triangles@;
    let t2 = triangles.split_off(index);
    let t1 = triangles;
    let bvh1 = match generate_bvh(t1, extent) {
        Ok(b) => b,
        Err(e) => {
            return Err(e);
        },
    };
    let bvh2 = match generate_bvh(t2, extent) {
        Ok(b) => b,
        Err(e) => {
            return Err(e);
        },
    };
    let multi = MultiRayResolver {
        inner: vec![RayResolver::Bounding(bvh1), RayResolver::Bounding(bvh2)],
    };
    let ghost children = multi.inner@;
    let root = AABBRayResolver::new(bounds, RayResolver::Multi(multi));
    proof {
        let mid = (given.len() / 2) as int;
        assert(children[0] == RayResolver::Bounding(bvh1));
        assert(children[1] == RayResolver::Bounding(bvh2));
        assert(call_ensures(*extent, (bounding_box(given),), size));
        assert(split_around(arranged, mid, size.dominant()));
        assert(bvh1.built_from(arranged.subrange(0, mid), *extent));
        assert(bvh2.built_from(arranged.subrange(mid, given.len() as int), *extent));
        assert(root.built_from(given, *extent));
        lemma_built_keeps_triangles(root, given, *extent);
    }
    Ok(root)
}

/// The size that `extent` found of the box, and the order into which the
/// triangles were brought, before a hierarchy over more than one of them was
/// split in two.
pub proof fn arrangement<E: Fn(AABB) -> Vector3>(
    root: AABBRayResolver,
    triangles: Seq<Triangle>,
    extent: E,
) -> (found: (Vector3, Seq<Triangle>))
    requires
        triangles.len() >= 2,
        root.built_from(triangles, extent),
    ensures
        call_ensures(extent, (bounding_box(triangles),), found.0),
        found.1.to_multiset() == triangles.to_multiset(),
        found.1.len() == triangles.len(),
        split_around(found.1, (triangles.len() / 2) as int, found.0.dominant()),
        root.inner->Multi_0.inner[0]->Bounding_0.built_from(
            found.1.subrange(0, (triangles.len() / 2) as int),
            extent,
        ),
        root.inner->Multi_0.inner[1]->Bounding_0.built_from(
            found.1.subrange((triangles.len() / 2) as int, triangles.len() as int),
            extent,
        ),
{
    let left = root.inner->Multi_0.inner[0]->Bounding_0;
    let right = root.inner->Multi_0.inner[1]->Bounding_0;
    let (size, arranged) = choose|size: Vector3, arranged: Seq<Triangle>|
        #![trigger split_around(arranged, (triangles.len() / 2) as int, size.dominant())]
        {
            &&& call_ensures(extent, (bounding_box(triangles),), size)
            &&& arranged.to_multiset() == triangles.to_multiset()
            &&& split_around(arranged, (triangles.len() / 2) as int, size.dominant())
            &&& left.built_from(arranged.subrange(0, (triangles.len() / 2) as int), extent)
            &&& right.built_from(
                arranged.subrange((triangles.len() / 2) as int, triangles.len() as int),
                extent,
            )
        };
    arranged.to_multiset_ensures();
    triangles.to_multiset_ensures();
    (size, arranged)
}

/// A hierarchy over more than one triangle is split at the median: half of
/// the triangles, rounded down, are on the left, and along the axis on which
/// `extent` found the box longest no triangle on the left has its centroid
/// after that of a triangle on the right.
pub proof fn lemma_built_splits_at_median<E: Fn(AABB) -> Vector3>(
    root: AABBRayResolver,
    triangles: Seq<Triangle>,
    extent: E,
) -> (axis: Components)
    requires
        triangles.len() >= 2,
        root.built_from(triangles, extent),
    ensures
        exists|size: Vector3| #[trigger]
            call_ensures(extent, (root.aabb,), size) && axis == size.dominant(),
        root.inner->Multi_0.inner[0].leaves().len() == triangles.len() / 2,
        root.inner->Multi_0.inner[1].leaves().len() == triangles.len() - triangles.len() / 2,
        forall|a: Triangle, b: Triangle|
            root.inner->Multi_0.inner[0].leaves().contains(a)
                && root.inner->Multi_0.inner[1].leaves().contains(b) ==> split_key(a, axis)
                <= split_key(b, axis),
{
    let n = triangles.len() as int;
    let mid = n / 2;
    let left = root.inner->Multi_0.inner[0]->Bounding_0;
    let right = root.inner->Multi_0.inner[1]->Bounding_0;
    let (size, arranged) = arrangement(root, triangles, extent);
    let axis = size.dominant();
    let first = arranged.subrange(0, mid);
    let second = arranged.subrange(mid, n);
    lemma_built_keeps_triangles(left, first, extent);
    lemma_built_keeps_triangles(right, second, extent);
    assert(root.inner->Multi_0.inner[0].leaves() == left.leaves());
    assert(root.inner->Multi_0.inner[1].leaves() == right.leaves());
    assert forall|a: Triangle, b: Triangle|
        left.leaves().contains(a) && right.leaves().contains(b) implies split_key(a, axis)
        <= split_key(b, axis) by {
        vstd::seq_lib::to_multiset_contains(left.leaves(), a);
        vstd::seq_lib::to_multiset_contains(first, a);
        vstd::seq_lib::to_multiset_contains(right.leaves(), b);
        vstd::seq_lib::to_multiset_contains(second, b);
        let i = choose|i: int| 0 <= i < first.len() && first[i] == a;
        let j = choose|j: int| 0 <= j < second.len() && second[j] == b;
        assert(arranged[i] == a);
        assert(arranged[mid + j] == b);
    }
    axis
}

/// A hierarchy holds the triangles it was built from, each as often as it
/// was given, and no others.
pub proof fn lemma_built_keeps_triangles<E: Fn(AABB) -> Vector3>(
    root: AABBRayResolver,
    triangles: Seq<Triangle>,
    extent: E,
)
    requires
        root.built_from(triangles, extent),
    ensures
        root.leaves().to_multiset() == triangles.to_multiset(),
        root.leaves().len() == triangles.len(),
    decreases root,
{
    if triangles.len() == 1 {
        assert(root.leaves() =~= triangles);
    } else {
        let n = triangles.len() as int;
        let mid = n / 2;
        let multi = root.inner->Multi_0;
        let left = multi.inner[0]->Bounding_0;
        let right = multi.inner[1]->Bounding_0;
        let (_, arranged) = arrangement(root, triangles, extent);
        let first = arranged.subrange(0, mid);
        let second = arranged.subrange(mid, n);
        lemma_built_keeps_triangles(left, first, extent);
        lemma_built_keeps_triangles(right, second, extent);
        assert(multi.inner[0].leaves() == left.leaves());
        assert(multi.inner[1].leaves() == right.leaves());
        assert(multi.leaves_below(0) =~= Seq::empty());
        assert(multi.leaves_below(1) == multi.leaves_below(0) + multi.inner[0].leaves());
        assert(multi.leaves_below(2) == multi.leaves_below(1) + multi.inner[1].leaves());
        assert(multi.leaves() == multi.leaves_below(2));
        assert(root.inner.leaves() == multi.leaves());
        assert(root.leaves() =~= left.leaves() + right.leaves());
        assert(arranged =~= first + second);
        vstd::seq_lib::lemma_multiset_commutative(left.leaves(), right.leaves());
        vstd::seq_lib::lemma_multiset_commutative(first, second);
    }
}

/// The box lies snugly round the triangles: it holds every corner of every
/// one of them, and each of its six sides touches one of them.
#[verifier::opaque]
pub open spec fn snug(b: AABB, s: Seq<Triangle>) -> bool {
    &&& b.ordered()
    &&& forall|t: Triangle| #[trigger] s.contains(t) ==> b.encloses(t.extent())
    &&& exists|t: Triangle| #[trigger] s.contains(t) && t.extent().min.x.rank() == b.min.x.rank()
    &&& exists|t: Triangle| #[trigger] s.contains(t) && t.extent().min.y.rank() == b.min.y.rank()
    &&& exists|t: Triangle| #[trigger] s.contains(t) && t.extent().min.z.rank() == b.min.z.rank()
    &&& exists|t: Triangle| #[trigger] s.contains(t) && t.extent().max.x.rank() == b.max.x.rank()
    &&& exists|t: Triangle| #[trigger] s.contains(t) && t.extent().max.y.rank() == b.max.y.rank()
    &&& exists|t: Triangle| #[trigger] s.contains(t) && t.extent().max.z.rank() == b.max.z.rank()
}

/// No corner of any of the triangles holds a NaN.
pub open spec fn all_numbers(s: Seq<Triangle>) -> bool {
    forall|t: Triangle| #[trigger] s.contains(t) ==> t.corners_are_numbers()
}

/// The bounds of a triangle whose corners are numbers are an ordered box.
pub proof fn lemma_extent_ordered(t: Triangle)
    requires
        t.corners_are_numbers(),
    ensures
        t.extent().ordered(),
{
}

/// The box round the first `n` of some triangles lies snugly round them.
pub proof fn lemma_box_over_snug(s: Seq<Triangle>, n: nat)
    requires
        0 < s.len(),
        n <= s.len(),
        all_numbers(s),
    ensures
        snug(box_over(s, n), s.subrange(0, if n == 0 { 1 } else { n as int })),
    decreases n,
{
    reveal(snug);
    assert(s.contains(s[0]));
    lemma_extent_ordered(s[0]);
    if n == 0 {
        let one = s.subrange(0, 1);
        let b = box_over(s, 0);
        assert(one[0] == s[0]);
        assert(one.contains(s[0]));
        assert forall|t: Triangle| #[trigger] one.contains(t) implies b.encloses(t.extent()) by {
            assert(t == s[0]);
        }
    } else {
        lemma_box_over_snug(s, (n - 1) as nat);
        let before = s.subrange(0, if n == 1 { 1 } else { n - 1 });
        let now = s.subrange(0, n as int);
        let held = box_over(s, (n - 1) as nat);
        let last = s[n - 1];
        let b = box_over(s, n);
        assert(s.contains(last));
        lemma_extent_ordered(last);
        assert(b == held.join(last.extent()));
        assert(now[n - 1] == last);
        assert(now.contains(last));
        assert forall|t: Triangle| before.contains(t) implies now.contains(t) by {
            let k = choose|k: int| 0 <= k < before.len() && before[k] == t;
            assert(now[k] == t);
        }
        assert forall|t: Triangle| #[trigger] now.contains(t) implies b.encloses(t.extent()) by {
            let k = choose|k: int| 0 <= k < now.len() && now[k] == t;
            if k < n - 1 {
                assert(before[k] == t);
                assert(before.contains(t));
                assert(held.encloses(t.extent()));
            } else {
                assert(t == last);
            }
        }
        let t0 = choose|t: Triangle| #[trigger]
            before.contains(t) && t.extent().min.x.rank() == held.min.x.rank();
        let t1 = choose|t: Triangle| #[trigger]
            before.contains(t) && t.extent().min.y.rank() == held.min.y.rank();
        let t2 = choose|t: Triangle| #[trigger]
            before.contains(t) && t.extent().min.z.rank() == held.min.z.rank();
        let t3 = choose|t: Triangle| #[trigger]
            before.contains(t) && t.extent().max.x.rank() == held.max.x.rank();
        let t4 = choose|t: Triangle| #[trigger]
            before.contains(t) && t.extent().max.y.rank() == held.max.y.rank();
        let t5 = choose|t: Triangle| #[trigger]
            before.contains(t) && t.extent().max.z.rank() == held.max.z.rank();
        let w0 = if b.min.x.rank() == held.min.x.rank() { t0 } else { last };
        let w1 = if b.min.y.rank() == held.min.y.rank() { t1 } else { last };
        let w2 = if b.min.z.rank() == held.min.z.rank() { t2 } else { last };
        let w3 = if b.max.x.rank() == held.max.x.rank() { t3 } else { last };
        let w4 = if b.max.y.rank() == held.max.y.rank() { t4 } else { last };
        let w5 = if b.max.z.rank() == held.max.z.rank() { t5 } else { last };
        assert(now.contains(w0) && w0.extent().min.x.rank() == b.min.x.rank());
        assert(now.contains(w1) && w1.extent().min.y.rank() == b.min.y.rank());
        assert(now.contains(w2) && w2.extent().min.z.rank() == b.min.z.rank());
        assert(now.contains(w3) && w3.extent().max.x.rank() == b.max.x.rank());
        assert(now.contains(w4) && w4.extent().max.y.rank() == b.max.y.rank());
        assert(now.contains(w5) && w5.extent().max.z.rank() == b.max.z.rank());
    }
}

/// The box round triangles whose corners are numbers lies snugly round them.
pub proof fn lemma_bounding_box_snug(s: Seq<Triangle>)
    requires
        0 < s.len(),
        all_numbers(s),
    ensures
        snug(bounding_box(s), s),
{
    lemma_box_over_snug(s, s.len());
    assert(s.subrange(0, s.len() as int) =~= s);
}

/// The bounds of a triangle whose corners are numbers lie snugly round it.
pub proof fn lemma_own_bounds_snug(s: Seq<Triangle>)
    requires
        s.len() == 1,
        s[0].corners_are_numbers(),
    ensures
        snug(s[0].extent(), s),
{
    reveal(snug);
    let b = s[0].extent();
    assert(s.contains(s[0]));
    assert forall|t: Triangle| #[trigger] s.contains(t) implies b.encloses(t.extent()) by {
        assert(t == s[0]);
    }
}

/// Snugness is a matter of which triangles there are, not of their order.
pub proof fn lemma_snug_any_order(b: AABB, s: Seq<Triangle>, other: Seq<Triangle>)
    requires
        snug(b, s),
        s.to_multiset() == other.to_multiset(),
    ensures
        snug(b, other),
{
    reveal(snug);
    assert forall|t: Triangle| s.contains(t) <==> other.contains(t) by {
        vstd::seq_lib::to_multiset_contains(s, t);
        vstd::seq_lib::to_multiset_contains(other, t);
    }
    let t0 = choose|t: Triangle| #[trigger] s.contains(t) && t.extent().min.x.rank() == b.min.x.rank();
    let t1 = choose|t: Triangle| #[trigger] s.contains(t) && t.extent().min.y.rank() == b.min.y.rank();
    let t2 = choose|t: Triangle| #[trigger] s.contains(t) && t.extent().min.z.rank() == b.min.z.rank();
    let t3 = choose|t: Triangle| #[trigger] s.contains(t) && t.extent().max.x.rank() == b.max.x.rank();
    let t4 = choose|t: Triangle| #[trigger] s.contains(t) && t.extent().max.y.rank() == b.max.y.rank();
    let t5 = choose|t: Triangle| #[trigger] s.contains(t) && t.extent().max.z.rank() == b.max.z.rank();
    assert(other.contains(t0) && other.contains(t1) && other.contains(t2));
    assert(other.contains(t3) && other.contains(t4) && other.contains(t5));
}

/// Every box of the hierarchy lies snugly round the triangles below it.
pub open spec fn snug_throughout(node: RayResolver) -> bool
    decreases node,
{
    match node {
        RayResolver::Bounding(b) => snug(b.aabb, b.leaves()) && snug_throughout(*b.inner),
        RayResolver::Multi(m) => forall|i: int|
            0 <= i < m.inner.len() ==> snug_throughout(#[trigger] m.inner[i]),
        RayResolver::Leaf(_) => true,
    }
}

/// In a hierarchy built from triangles whose corners are numbers, every box
/// lies snugly round the triangles below it.
pub proof fn lemma_built_is_snug<E: Fn(AABB) -> Vector3>(
    root: AABBRayResolver,
    triangles: Seq<Triangle>,
    extent: E,
)
    requires
        root.built_from(triangles, extent),
        all_numbers(triangles),
    ensures
        snug_throughout(RayResolver::Bounding(root)),
    decreases root,
{
    lemma_built_keeps_triangles(root, triangles, extent);
    if triangles.len() == 1 {
        assert(root.leaves() =~= triangles);
        assert(triangles.contains(triangles[0]));
        lemma_own_bounds_snug(triangles);
        assert(snug_throughout(*root.inner));
    } else {
        let n = triangles.len() as int;
        let mid = n / 2;
        let multi = root.inner->Multi_0;
        let left = multi.inner[0]->Bounding_0;
        let right = multi.inner[1]->Bounding_0;
        let (_, arranged) = arrangement(root, triangles, extent);
        let first = arranged.subrange(0, mid);
        let second = arranged.subrange(mid, n);
        assert forall|t: Triangle| arranged.contains(t) implies triangles.contains(t) by {
            vstd::seq_lib::to_multiset_contains(arranged, t);
            vstd::seq_lib::to_multiset_contains(triangles, t);
        }
        assert forall|t: Triangle| #[trigger] first.contains(t) implies t.corners_are_numbers() by {
            let k = choose|k: int| 0 <= k < first.len() && first[k] == t;
            assert(arranged[k] == t);
            assert(arranged.contains(t));
        }
        assert forall|t: Triangle| #[trigger] second.contains(t) implies t.corners_are_numbers() by {
            let k = choose|k: int| 0 <= k < second.len() && second[k] == t;
            assert(arranged[mid + k] == t);
            assert(arranged.contains(t));
        }
        lemma_built_is_snug(left, first, extent);
        lemma_built_is_snug(right, second, extent);
        lemma_bounding_box_snug(triangles);
        lemma_snug_any_order(root.aabb, triangles, root.leaves());
        assert forall|i: int| 0 <= i < multi.inner.len() implies snug_throughout(
            #[trigger] multi.inner[i],
        ) by {
            if i == 0 {
                assert(multi.inner[0] == RayResolver::Bounding(left));
            } else {
                assert(multi.inner[1] == RayResolver::Bounding(right));
            }
        }
        assert(snug_throughout(*root.inner));
    }
}

} // verus!
