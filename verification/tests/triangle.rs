use ray_bvh::ray_resolvers::bvh::triangle::{
    Probe, Triangle, TriangleMaterial, TriangleResolver, DETERMINANT_FLOOR_BITS,
};
use ray_bvh::ray_resolvers::ray_resolver::MaterialType;
use ray_bvh::scalar::Scalar;
use ray_bvh::utilities::Vector3;

fn s(x: f32) -> Scalar {
    Scalar::from_bits(x.to_bits())
}

fn f(x: Scalar) -> f32 {
    f32::from_bits(x.to_bits())
}

fn v(x: f32, y: f32, z: f32) -> Vector3 {
    Vector3::new(s(x), s(y), s(z))
}

fn arr(a: Vector3) -> [f32; 3] {
    [f(a.x), f(a.y), f(a.z)]
}

fn vec3(a: [f32; 3]) -> Vector3 {
    v(a[0], a[1], a[2])
}

fn sub(a: [f32; 3], b: [f32; 3]) -> [f32; 3] {
    [a[0] - b[0], a[1] - b[1], a[2] - b[2]]
}

fn add(a: [f32; 3], b: [f32; 3]) -> [f32; 3] {
    [a[0] + b[0], a[1] + b[1], a[2] + b[2]]
}

fn scale(a: [f32; 3], k: f32) -> [f32; 3] {
    [a[0] * k, a[1] * k, a[2] * k]
}

fn dot(a: [f32; 3], b: [f32; 3]) -> f32 {
    a[0] * b[0] + a[1] * b[1] + a[2] * b[2]
}

fn cross(a: [f32; 3], b: [f32; 3]) -> [f32; 3] {
    [
        a[1] * b[2] - a[2] * b[1],
        a[2] * b[0] - a[0] * b[2],
        a[0] * b[1] - a[1] * b[0],
    ]
}

fn normalized(a: [f32; 3]) -> [f32; 3] {
    scale(a, 1.0 / dot(a, a).sqrt())
}

fn probe(t: Triangle, pos: Vector3, dir: Vector3) -> Probe {
    let v0 = arr(t.v0);
    let e1 = sub(arr(t.v1), v0);
    let e2 = sub(arr(t.v2), v0);
    let d = arr(dir);
    let pvec = cross(d, e2);
    let det = dot(e1, pvec);
    let inv_det = 1.0 / det;
    let tvec = sub(arr(pos), v0);
    let u = dot(tvec, pvec) * inv_det;
    let qvec = cross(tvec, e1);
    let w = dot(d, qvec) * inv_det;
    let along = dot(e2, qvec) * inv_det;
    Probe {
        det: s(det),
        u: s(u),
        v: s(w),
        sum: s(u + w),
        hit: vec3(add(scale(d, along), arr(pos))),
    }
}

fn material(r: f32, g: f32, b: f32) -> TriangleMaterial {
    TriangleMaterial { color: v(r, g, b), emit: Vector3::zero(), t: MaterialType::Diffuse }
}

fn flat(v0: [f32; 3], v1: [f32; 3], v2: [f32; 3], m: TriangleMaterial) -> Triangle {
    let normal = normalized(cross(sub(v1, v0), sub(v2, v0)));
    let centroid = scale(add(add(v0, v1), v2), 1.0 / 3.0);
    Triangle::new(vec3(v0), vec3(v1), vec3(v2), vec3(normal), vec3(centroid), m)
}

fn first_of_three(a: Vector3, _b: Vector3, _c: Vector3, _u: Scalar, _w: Scalar) -> Vector3 {
    a
}

fn second_of_three(_a: Vector3, b: Vector3, _c: Vector3, _u: Scalar, _w: Scalar) -> Vector3 {
    b
}

fn third_of_three(_a: Vector3, _b: Vector3, c: Vector3, _u: Scalar, _w: Scalar) -> Vector3 {
    c
}

fn weights(_a: Vector3, _b: Vector3, _c: Vector3, u: Scalar, w: Scalar) -> Vector3 {
    Vector3::new(u, w, Scalar::zero())
}

fn given(det: f32, u: f32, w: f32, sum: f32) -> Probe {
    Probe { det: s(det), u: s(u), v: s(w), sum: s(sum), hit: v(7.0, 8.0, 9.0) }
}

fn front() -> Triangle {
    flat([0.0, 0.0, 0.0], [0.0, 1.0, 0.0], [1.0, 0.0, 0.0], material(1.0, 0.5, 0.25))
}

fn back() -> Triangle {
    flat([0.0, 0.0, 0.0], [1.0, 0.0, 0.0], [0.0, 1.0, 0.0], material(1.0, 0.5, 0.25))
}

#[test]
fn floor_is_four_epsilons() {
    assert_eq!(DETERMINANT_FLOOR_BITS, (f32::EPSILON * 4.0).to_bits());
}

#[test]
fn new_repeats_the_normal() {
    let t = Triangle::new(
        v(0.0, 0.0, 0.0),
        v(1.0, 0.0, 0.0),
        v(0.0, 1.0, 0.0),
        v(0.0, 0.0, 1.0),
        v(0.25, 0.5, 0.0),
        material(1.0, 1.0, 1.0),
    );
    assert_eq!(arr(t.n0), [0.0, 0.0, 1.0]);
    assert_eq!(arr(t.n1), [0.0, 0.0, 1.0]);
    assert_eq!(arr(t.n2), [0.0, 0.0, 1.0]);
    assert_eq!(arr(t.v1), [1.0, 0.0, 0.0]);
    assert_eq!(arr(t.v2), [0.0, 1.0, 0.0]);
    assert_eq!(arr(t.centroid), [0.25, 0.5, 0.0]);
}

#[test]
fn new_with_normal_keeps_each_normal() {
    let t = Triangle::new_with_normal(
        v(0.0, 0.0, 0.0),
        v(1.0, 0.0, 0.0),
        v(0.0, 1.0, 0.0),
        v(1.0, 0.0, 0.0),
        v(0.0, 1.0, 0.0),
        v(0.0, 0.0, 1.0),
        v(3.0, 4.0, 5.0),
        material(0.1, 0.2, 0.3),
    );
    assert_eq!(arr(t.v0), [0.0, 0.0, 0.0]);
    assert_eq!(arr(t.n0), [1.0, 0.0, 0.0]);
    assert_eq!(arr(t.n1), [0.0, 1.0, 0.0]);
    assert_eq!(arr(t.n2), [0.0, 0.0, 1.0]);
    assert_eq!(arr(t.centroid), [3.0, 4.0, 5.0]);
    assert_eq!(arr(t.material.color), [0.1, 0.2, 0.3]);
}

#[test]
fn bounds_are_the_extremes_of_the_corners() {
    let t = flat([1.0, -2.0, 3.0], [-4.0, 5.0, 0.5], [0.0, 0.0, 9.0], material(1.0, 1.0, 1.0));
    let b = t.bounds();
    assert_eq!(arr(b.min), [-4.0, -2.0, 0.5]);
    assert_eq!(arr(b.max), [1.0, 5.0, 9.0]);
}

#[test]
fn bounds_of_a_flat_triangle_have_no_depth() {
    let b = front().bounds();
    assert_eq!(arr(b.min), [0.0, 0.0, 0.0]);
    assert_eq!(arr(b.max), [1.0, 1.0, 0.0]);
}

#[test]
fn bounds_of_equal_zeros() {
    let t = Triangle::new(
        v(0.0, -0.0, 0.0),
        v(-0.0, 0.0, -0.0),
        v(0.0, 0.0, 0.0),
        v(0.0, 0.0, 1.0),
        v(0.0, 0.0, 0.0),
        material(1.0, 1.0, 1.0),
    );
    let b = t.bounds();
    assert_eq!(b.min.x.to_bits(), 0.0f32.to_bits());
    assert_eq!(b.min.y.to_bits(), (-0.0f32).to_bits());
    assert_eq!(b.max.x.to_bits(), 0.0f32.to_bits());
    assert_eq!(b.max.z.to_bits(), 0.0f32.to_bits());
}

#[test]
fn bounds_with_a_nan_in_front() {
    let t = Triangle::new(
        v(f32::NAN, 0.0, 0.0),
        v(1.0, 0.0, 0.0),
        v(2.0, 0.0, 0.0),
        v(0.0, 0.0, 1.0),
        v(0.0, 0.0, 0.0),
        material(1.0, 1.0, 1.0),
    );
    let b = t.bounds();
    assert!(f(b.min.x).is_nan());
    assert_eq!(f(b.max.x), 2.0);
}

#[test]
fn front_face_is_hit() {
    let pos = v(0.2, 0.2, -1.0);
    let dir = v(0.0, 0.0, 1.0);
    let (hit, u, w) = front().trace(&pos, &dir, &probe).unwrap();
    assert!(f(u) >= 0.0);
    assert!(f(w) >= 0.0);
    assert!(f(u) + f(w) <= 1.0);
    assert_eq!(f(u), 0.2);
    assert_eq!(f(w), 0.2);
    assert_eq!(arr(hit), [0.2, 0.2, 0.0]);
}

#[test]
fn back_face_is_not_hit() {
    let pos = v(0.2, 0.2, -1.0);
    let dir = v(0.0, 0.0, 1.0);
    assert!(back().trace(&pos, &dir, &probe).is_none());
}

#[test]
fn reversed_winding_swaps_the_sides() {
    let pos = v(0.2, 0.2, 1.0);
    let dir = v(0.0, 0.0, -1.0);
    assert!(front().trace(&pos, &dir, &probe).is_none());
    assert!(back().trace(&pos, &dir, &probe).is_some());
}

#[test]
fn no_ray_hits_both_windings() {
    let rays = vec![
        ([0.2, 0.2, -1.0], [0.0, 0.0, 1.0]),
        ([0.2, 0.2, 1.0], [0.0, 0.0, -1.0]),
        ([0.1, 0.3, -2.0], [0.1, 0.05, 1.0]),
        ([0.5, 0.1, 3.0], [-0.1, 0.1, -1.0]),
        ([0.3, 0.3, 0.0], [1.0, 0.0, 0.0]),
    ];
    for (p, d) in rays {
        let a = front().trace(&vec3(p), &vec3(d), &probe);
        let b = back().trace(&vec3(p), &vec3(d), &probe);
        assert!(!(a.is_some() && b.is_some()));
    }
}

#[test]
fn ray_past_the_triangle_misses() {
    let dir = v(0.0, 0.0, 1.0);
    assert!(front().trace(&v(0.8, 0.8, -1.0), &dir, &probe).is_none());
    assert!(front().trace(&v(-0.1, 0.2, -1.0), &dir, &probe).is_none());
    assert!(front().trace(&v(0.2, -0.1, -1.0), &dir, &probe).is_none());
    assert!(front().trace(&v(5.0, 5.0, -10.0), &dir, &probe).is_none());
}

#[test]
fn ray_along_the_plane_misses() {
    assert!(front().trace(&v(-1.0, 0.2, 0.0), &v(1.0, 0.0, 0.0), &probe).is_none());
}

#[test]
fn hit_behind_the_origin_is_reported() {
    let pos = v(0.2, 0.2, 1.0);
    let dir = v(0.0, 0.0, 1.0);
    let (hit, _u, _w) = front().trace(&pos, &dir, &probe).unwrap();
    assert_eq!(arr(hit), [0.2, 0.2, 0.0]);
}

#[test]
fn intersection_accepts_inside() {
    let p = given(1.0, 0.25, 0.5, 0.75);
    let (hit, u, w) = p.intersection().unwrap();
    assert_eq!(arr(hit), [7.0, 8.0, 9.0]);
    assert_eq!(f(u), 0.25);
    assert_eq!(f(w), 0.5);
}

#[test]
fn intersection_accepts_the_borders() {
    assert!(given(1.0, 0.0, 0.0, 0.0).intersection().is_some());
    assert!(given(1.0, 1.0, 0.0, 1.0).intersection().is_some());
    assert!(given(1.0, 0.0, 1.0, 1.0).intersection().is_some());
    assert!(given(1.0, -0.0, -0.0, -0.0).intersection().is_some());
}

#[test]
fn intersection_rejects_outside() {
    assert!(given(1.0, -0.1, 0.5, 0.4).intersection().is_none());
    assert!(given(1.0, 1.1, 0.0, 1.1).intersection().is_none());
    assert!(given(1.0, 0.5, -0.1, 0.4).intersection().is_none());
    assert!(given(1.0, 0.5, 0.6, 1.1).intersection().is_none());
    assert!(given(1.0, 0.5, 0.5, 1.0000001).intersection().is_none());
}

#[test]
fn intersection_at_the_floor() {
    let floor = f32::from_bits(DETERMINANT_FLOOR_BITS);
    let below = f32::from_bits(DETERMINANT_FLOOR_BITS - 1);
    assert!(given(floor, 0.25, 0.25, 0.5).intersection().is_some());
    assert!(given(below, 0.25, 0.25, 0.5).intersection().is_none());
    assert!(given(0.0, 0.25, 0.25, 0.5).intersection().is_none());
    assert!(given(-1.0, 0.25, 0.25, 0.5).intersection().is_none());
    assert!(given(-1.0e30, 0.25, 0.25, 0.5).intersection().is_none());
}

#[test]
fn intersection_lets_a_nan_through() {
    assert!(given(f32::NAN, 0.25, 0.25, 0.5).intersection().is_some());
    assert!(given(1.0, f32::NAN, 0.25, 0.5).intersection().is_some());
    assert!(given(1.0, 0.25, f32::NAN, 0.5).intersection().is_some());
    assert!(given(1.0, 0.25, 0.25, f32::NAN).intersection().is_some());
}

#[test]
fn leaf_answers_with_the_triangles_material() {
    let leaf = TriangleResolver { triangle: front() };
    let r = leaf
        .resolve(v(0.2, 0.2, -1.0), v(0.0, 0.0, 1.0), false, &probe, &first_of_three)
        .unwrap();
    assert_eq!(arr(r.pos), [0.2, 0.2, 0.0]);
    assert_eq!(arr(r.color), [1.0, 0.5, 0.25]);
    assert_eq!(arr(r.emit), [0.0, 0.0, 0.0]);
    assert!(matches!(r.t, MaterialType::Diffuse));
}

#[test]
fn leaf_misses_what_the_triangle_misses() {
    let leaf = TriangleResolver { triangle: back() };
    assert!(leaf
        .resolve(v(0.2, 0.2, -1.0), v(0.0, 0.0, 1.0), false, &probe, &first_of_three)
        .is_none());
}

#[test]
fn leaf_blends_the_normals_in_its_own_order() {
    let t = Triangle::new_with_normal(
        v(0.0, 0.0, 0.0),
        v(0.0, 1.0, 0.0),
        v(1.0, 0.0, 0.0),
        v(1.0, 0.0, 0.0),
        v(0.0, 1.0, 0.0),
        v(0.0, 0.0, 1.0),
        v(0.33, 0.33, 0.0),
        material(1.0, 1.0, 1.0),
    );
    let leaf = TriangleResolver { triangle: t };
    let pos = v(0.2, 0.2, -1.0);
    let dir = v(0.0, 0.0, 1.0);
    let a = leaf.resolve(pos, dir, false, &probe, &first_of_three).unwrap();
    let b = leaf.resolve(pos, dir, false, &probe, &second_of_three).unwrap();
    let c = leaf.resolve(pos, dir, false, &probe, &third_of_three).unwrap();
    assert_eq!(arr(a.normal), [0.0, 1.0, 0.0]);
    assert_eq!(arr(b.normal), [1.0, 0.0, 0.0]);
    assert_eq!(arr(c.normal), [0.0, 0.0, 1.0]);
}

#[test]
fn leaf_hands_the_barycentrics_to_the_blend() {
    let leaf = TriangleResolver { triangle: front() };
    let r = leaf
        .resolve(v(0.25, 0.5, -1.0), v(0.0, 0.0, 1.0), false, &probe, &weights)
        .unwrap();
    // `u` weighs the second corner, which lies up the y axis here.
    assert_eq!(arr(r.normal), [0.5, 0.25, 0.0]);
}

#[test]
fn leaf_ignores_refraction() {
    let leaf = TriangleResolver { triangle: front() };
    let pos = v(0.2, 0.2, -1.0);
    let dir = v(0.0, 0.0, 1.0);
    let a = leaf.resolve(pos, dir, false, &probe, &first_of_three).unwrap();
    let b = leaf.resolve(pos, dir, true, &probe, &first_of_three).unwrap();
    assert_eq!(arr(a.pos), arr(b.pos));
    assert_eq!(arr(a.normal), arr(b.normal));
}
