use ray_bvh::ray_resolvers::bvh::mesh::{pick_color, triangles_from_models, Mesh};
use ray_bvh::ray_resolvers::ray_resolver::MaterialType;
use ray_bvh::scalar::Scalar;
use ray_bvh::utilities::Vector3;

fn s(x: f32) -> Scalar {
    Scalar::from_bits(x.to_bits())
}

fn f(x: Scalar) -> f32 {
    f32::from_bits(x.to_bits())
}

fn v(x: f32, y: f32, z: f32) -> Vector3 {
    Vector3::new(s(x), s(y), s(z))
}

fn arr(a: Vector3) -> [f32; 3] {
    [f(a.x), f(a.y), f(a.z)]
}

fn buffer(numbers: &[f32]) -> Vec<Scalar> {
    numbers.iter().map(|x| s(*x)).collect()
}

/// Stands in for the normal of the plane: the first corner, so that a test
/// sees which corners the normal was made of.
fn first(a: Vector3, _b: Vector3, _c: Vector3) -> Vector3 {
    a
}

/// Stands in for the centroid: the sums of the corners' coordinates.
fn sum(a: Vector3, b: Vector3, c: Vector3) -> Vector3 {
    v(f(a.x) + f(b.x) + f(c.x), f(a.y) + f(b.y) + f(c.y), f(a.z) + f(b.z) + f(c.z))
}

fn square() -> Mesh {
    Mesh {
        positions: buffer(&[
            0.0, 0.0, 0.0, //
            1.0, 0.0, 0.5, //
            1.0, 2.0, 0.0, //
            0.0, 2.0, 0.5,
        ]),
        normals: Vec::new(),
        indices: vec![0, 1, 2, 0, 2, 3],
        material_id: None,
    }
}

#[test]
fn color_of_the_named_material() {
    let colors = Some(vec![v(1.0, 0.0, 0.0), v(0.0, 1.0, 0.0)]);
    let black = v(0.0, 0.0, 0.0);
    assert_eq!(arr(pick_color(&colors, black, Some(1))), [0.0, 1.0, 0.0]);
    assert_eq!(arr(pick_color(&colors, black, Some(0))), [1.0, 0.0, 0.0]);
}

#[test]
fn color_of_the_first_material_where_none_is_named() {
    let colors = Some(vec![v(1.0, 0.0, 0.0), v(0.0, 1.0, 0.0)]);
    let black = v(0.0, 0.0, 0.0);
    assert_eq!(arr(pick_color(&colors, black, None)), [1.0, 0.0, 0.0]);
    assert_eq!(arr(pick_color(&colors, black, Some(2))), [1.0, 0.0, 0.0]);
    assert_eq!(arr(pick_color(&colors, black, Some(usize::MAX))), [1.0, 0.0, 0.0]);
}

#[test]
fn default_color_where_there_are_no_materials() {
    let grey = v(0.5, 0.5, 0.5);
    assert_eq!(arr(pick_color(&None, grey, Some(1))), [0.5, 0.5, 0.5]);
    assert_eq!(arr(pick_color(&Some(Vec::new()), grey, None)), [0.5, 0.5, 0.5]);
}

#[test]
fn no_models_give_no_triangles() {
    let r = triangles_from_models(&Vec::new(), &None, v(0.0, 0.0, 0.0), &first, &sum);
    assert!(r.is_empty());
}

#[test]
fn corners_come_reversed_and_mirrored() {
    let r = triangles_from_models(&vec![square()], &None, v(0.0, 0.0, 0.0), &first, &sum);
    assert_eq!(r.len(), 2);
    assert_eq!(arr(r[0].v0), [-1.0, 2.0, 0.0]);
    assert_eq!(arr(r[0].v1), [-1.0, 0.0, 0.5]);
    assert_eq!(arr(r[0].v2), [-0.0, 0.0, 0.0]);
    assert_eq!(r[0].v2.x.to_bits(), (-0.0f32).to_bits());
    assert_eq!(arr(r[1].v0), [-0.0, 2.0, 0.5]);
    assert_eq!(arr(r[1].v1), [-1.0, 2.0, 0.0]);
    assert_eq!(arr(r[1].v2), [-0.0, 0.0, 0.0]);
}

#[test]
fn flat_normal_and_centroid_are_made_of_the_reversed_corners() {
    let r = triangles_from_models(&vec![square()], &None, v(0.0, 0.0, 0.0), &first, &sum);
    assert_eq!(arr(r[0].n0), [-1.0, 2.0, 0.0]);
    assert_eq!(arr(r[0].n1), [-1.0, 2.0, 0.0]);
    assert_eq!(arr(r[0].n2), [-1.0, 2.0, 0.0]);
    assert_eq!(arr(r[0].centroid), [-2.0, 2.0, 0.5]);
    assert_eq!(arr(r[1].centroid), [-1.0, 4.0, 0.5]);
}

#[test]
fn own_normals_come_second_first_third() {
    let mut m = square();
    m.normals = buffer(&[
        1.0, 0.0, 0.0, //
        0.0, 1.0, 0.0, //
        0.0, 0.0, 1.0, //
        0.5, 0.5, 0.5,
    ]);
    let r = triangles_from_models(&vec![m], &None, v(0.0, 0.0, 0.0), &first, &sum);
    assert_eq!(arr(r[0].n0), [-0.0, 1.0, 0.0]);
    assert_eq!(arr(r[0].n1), [-1.0, 0.0, 0.0]);
    assert_eq!(arr(r[0].n2), [-0.0, 0.0, 1.0]);
    assert_eq!(arr(r[1].n0), [-0.0, 0.0, 1.0]);
    assert_eq!(arr(r[1].n1), [-1.0, 0.0, 0.0]);
    assert_eq!(arr(r[1].n2), [-0.5, 0.5, 0.5]);
}

#[test]
fn triangles_are_diffuse_and_dark() {
    let colors = Some(vec![v(0.25, 0.5, 0.75)]);
    let r = triangles_from_models(&vec![square()], &colors, v(0.0, 0.0, 0.0), &first, &sum);
    for t in &r {
        assert_eq!(arr(t.material.color), [0.25, 0.5, 0.75]);
        assert_eq!(arr(t.material.emit), [0.0, 0.0, 0.0]);
        assert!(matches!(t.material.t, MaterialType::Diffuse));
    }
}

#[test]
fn models_follow_one_another() {
    let mut second = square();
    second.material_id = Some(1);
    second.indices = vec![3, 2, 1];
    let colors = Some(vec![v(1.0, 0.0, 0.0), v(0.0, 1.0, 0.0)]);
    let r = triangles_from_models(
        &vec![square(), second],
        &colors,
        v(0.0, 0.0, 0.0),
        &first,
        &sum,
    );
    assert_eq!(r.len(), 3);
    assert_eq!(arr(r[0].material.color), [1.0, 0.0, 0.0]);
    assert_eq!(arr(r[1].material.color), [1.0, 0.0, 0.0]);
    assert_eq!(arr(r[2].material.color), [0.0, 1.0, 0.0]);
    assert_eq!(arr(r[2].v0), [-1.0, 0.0, 0.5]);
    assert_eq!(arr(r[2].v2), [-0.0, 2.0, 0.5]);
}

#[test]
fn leftover_indices_are_ignored() {
    let mut m = square();
    m.indices = vec![0, 1, 2, 3, 3];
    let r = triangles_from_models(&vec![m], &None, v(0.0, 0.0, 0.0), &first, &sum);
    assert_eq!(r.len(), 1);
    let mut m = square();
    m.indices = vec![0, 1];
    let r = triangles_from_models(&vec![m], &None, v(0.0, 0.0, 0.0), &first, &sum);
    assert!(r.is_empty());
}
