//! From the flat buffers of a loaded scene to triangles.
use crate::ray_resolvers::bvh::triangle::{Triangle, TriangleMaterial};
use crate::ray_resolvers::ray_resolver::MaterialType;
use crate::scalar::Scalar;
use crate::utilities::Vector3;
use vstd::prelude::*;

verus! {

/// One model of a scene: triangles over a pool of vertices.
pub struct Mesh {
    /// The vertices' coordinates, three numbers to a vertex.
    pub positions: Vec<Scalar>,
    /// The vertices' normals, three numbers to a vertex; empty where the
    /// scene gives none.
    pub normals: Vec<Scalar>,
    /// The triangles' corners as vertex numbers, three to a triangle. What
    /// is left over after the last full three is ignored.
    pub indices: Vec<u32>,
    /// Which of the scene's materials the model wears.
    pub material_id: Option<usize>,
}

/// The vector that a buffer holds for a vertex. The scene's x axis points the
/// other way than ours, so the first of the three numbers changes its sign.
pub open spec fn point(buffer: Seq<Scalar>, vertex: int) -> Vector3 {
    Vector3 {
        x: buffer[3 * vertex].negated(),
        y: buffer[3 * vertex + 1],
        z: buffer[3 * vertex + 2],
    }
}

/// The colour that a model wears: that of the material it names; that of the
/// first material where it names none or one that is not there; the default
/// colour where the scene has no materials at all.
pub open spec fn color_worn(
    materials: Option<Vec<Vector3>>,
    default_color: Vector3,
    material_id: Option<usize>,
) -> Vector3 {
    match materials {
        Some(colors) if colors.len() > 0 => {
            let wanted = match material_id {
                Some(id) => id,
                None => 0,
            };
            if wanted < colors.len() {
                colors[wanted as int]
            } else {
                colors[0]
            }
        },
        _ => default_color,
    }
}

impl Mesh {
    /// The number of triangles.
    pub open spec fn faces(self) -> nat {
        self.indices@.len() / 3
    }

    /// The model brings normals of its own.
    pub open spec fn has_normals(self) -> bool {
        self.normals.len() > 0
    }

    /// Every corner of every triangle names a vertex that the buffers hold.
    pub open spec fn well_formed(self) -> bool {
        forall|j: int|
            0 <= j < 3 * self.faces() ==> {
                &&& 3 * (#[trigger] self.indices[j]) + 2 < self.positions.len()
                &&& self.has_normals() ==> 3 * self.indices[j] + 2 < self.normals.len()
            }
    }

    /// The position of the `corner`th corner of the `face`th triangle.
    pub open spec fn corner(self, face: int, corner: int) -> Vector3 {
        point(self.positions@, self.indices[3 * face + corner] as int)
    }

    /// The normal at that corner.
    pub open spec fn corner_normal(self, face: int, corner: int) -> Vector3 {
        point(self.normals@, self.indices[3 * face + corner] as int)
    }

    /// `t` is the triangle that the `face`th triangle of the model becomes.
    ///
    /// Its corners come in reverse. With normals of its own it gets them in
    /// the order second, first, third; without, the normal of its plane at all
    /// three corners, which `normal` makes of the corners, as `centroid` makes
    /// the centroid. It is diffuse, gives off no light, and has the colour
    /// given.
    pub open spec fn becomes<
        N: Fn(Vector3, Vector3, Vector3) -> Vector3,
        C: Fn(Vector3, Vector3, Vector3) -> Vector3,
    >(self, face: int, color: Vector3, normal: N, centroid: C, t: Triangle) -> bool {
        let v0 = self.corner(face, 0);
        let v1 = self.corner(face, 1);
        let v2 = self.corner(face, 2);
        &&& t.v0 == v2
        &&& t.v1 == v1
        &&& t.v2 == v0
        &&& call_ensures(centroid, (v2, v1, v0), t.centroid)
        &&& t.material == (TriangleMaterial {
            color,
            emit: Vector3::origin(),
            t: MaterialType::Diffuse,
        })
        &&& if self.has_normals() {
            &&& t.n0 == self.corner_normal(face, 1)
            &&& t.n1 == self.corner_normal(face, 0)
            &&& t.n2 == self.corner_normal(face, 2)
        } else {
            &&& call_ensures(normal, (v2, v1, v0), t.n0)
            &&& t.n1 == t.n0
            &&& t.n2 == t.n0
        }
    }
}

/// The number of triangles in the first `n` models.
pub open spec fn faces_before(models: Seq<Mesh>, n: nat) -> nat
    decreases n,
{
    if n == 0 {
        0
    } else {
        faces_before(models, (n - 1) as nat) + models[n - 1].faces()
    }
}

fn vertex(buffer: &Vec<Scalar>, index: u32) -> (p: Vector3)
    requires
        3 * index + 2 < buffer.len(),
    ensures
        p == point(buffer@, index as int),
{
    let i: usize = index as usize;
    Vector3::new(buffer[i * 3].neg(), buffer[i * 3 + 1], buffer[i * 3 + 2])
}

/// The colour that a model wears.
pub fn pick_color(
    materials: &Option<Vec<Vector3>>,
    default_color: Vector3,
    material_id: Option<usize>,
) -> (c: Vector3)
    ensures
        c == color_worn(*materials, default_color, material_id),
{
    match materials {
        Some(colors) => {
            if colors.len() == 0 {
                default_color
            } else {
                let wanted: usize = match material_id {
                    Some(id) => id,
                    None => 0,
                };
                if wanted < colors.len() {
                    colors[wanted]
                } else {
                    colors[0]
                }
            }
        },
        None => default_color,
    }
}

/// The triangles of a scene, model after model and within a model in the
/// order of its triangles. `materials` holds the diffuse colours of the
/// scene's materials, if it has any. `normal` makes the unit normal of a
/// triangle's plane of its corners, `centroid` their mean.
pub fn triangles_from_models<
    N: Fn(Vector3, Vector3, Vector3) -> Vector3,
    C: Fn(Vector3, Vector3, Vector3) -> Vector3,
>(
    models: &Vec<Mesh>,
    materials: &Option<Vec<Vector3>>,
    default_color: Vector3,
    normal: &N,
    centroid: &C,
) -> (triangles: Vec<Triangle>)
    requires
        forall|k: int| 0 <= k < models.len() ==> (#[trigger] models[k]).well_formed(),
        forall|a: Vector3, b: Vector3, c: Vector3| call_requires(*normal, (a, b, c)),
        forall|a: Vector3, b: Vector3, c: Vector3| call_requires(*centroid, (a, b, c)),
    ensures
        triangles.len() == faces_before(models@, models.len() as nat),
        forall|k: int, face: int|
            0 <= k < models.len() && 0 <= face < models[k].faces() ==> (#[trigger] models[k]).becomes(
                face,
                color_worn(*materials, default_color, models[k].material_id),
                *normal,
                *centroid,
                #[trigger] triangles[faces_before(models@, k as nat) + face],
            ),
{
    let mut triangles: Vec<Triangle> = Vec::new();
    let mut k: usize = 0;
    while k < models.len()
        invariant
            0 <= k <= models.len(),
            forall|m: int| 0 <= m < models.len() ==> (#[trigger] models[m]).well_formed(),
            forall|a: Vector3, b: Vector3, c: Vector3| call_requires(*normal, (a, b, c)),
            forall|a: Vector3, b: Vector3, c: Vector3| call_requires(*centroid, (a, b, c)),
            triangles.len() == faces_before(models@, k as nat),
            forall|m: int, face: int|
                0 <= m < k && 0 <= face < models[m].faces() ==> (#[trigger] models[m]).becomes(
                    face,
                    color_worn(*materials, default_color, models[m].material_id),
                    *normal,
                    *centroid,
                    #[trigger] triangles[faces_before(models@, m as nat) + face],
                ),
        decreases models.len() - k,
    {
        let model = &models[k];
        let color = pick_color(materials, default_color, model.material_id);
        let material = TriangleMaterial {
            color,
            emit: Vector3::zero(),
            t: MaterialType::Diffuse,
        };
        let has_normals = model.normals.len() > 0;
        let faces: usize = model.indices.len() / 3;
        let ghost start = triangles@;
        let mut face: usize = 0;
        while face < faces
            invariant
                0 <= face <= faces,
                faces == model.faces(),
                3 * faces <= model.indices.len(),
                model.well_formed(),
                has_normals == model.has_normals(),
                color == color_worn(*materials, default_color, model.material_id),
                material == (TriangleMaterial {
                    color,
                    emit: Vector3::origin(),
                    t: MaterialType::Diffuse,
                }),
                forall|a: Vector3, b: Vector3, c: Vector3| call_requires(*normal, (a, b, c)),
                forall|a: Vector3, b: Vector3, c: Vector3| call_requires(*centroid, (a, b, c)),
                triangles.len() == start.len() + face,
                forall|i: int| 0 <= i < start.len() ==> triangles[i] == start[i],
                forall|g: int|
                    0 <= g < face ==> model.becomes(
                        g,
                        color,
                        *normal,
                        *centroid,
                        #[trigger] triangles[start.len() + g],
                    ),
            decreases faces - face,
        {
            assert(3 * face + 2 < model.indices.len());
            assert(model.indices[3 * face as int] == model.indices[3 * face + 0]);
            let v0 = vertex(&model.positions, model.indices[3 * face]);
            let v1 = vertex(&model.positions, model.indices[3 * face + 1]);
            let v2 = vertex(&model.positions, model.indices[3 * face + 2]);
            let middle = centroid(v2, v1, v0);
            let ghost before = triangles@;
            if has_normals {
                let n0 = vertex(&model.normals, model.indices[3 * face]);
                let n1 = vertex(&model.normals, model.indices[3 * face + 1]);
                let n2 = vertex(&model.normals, model.indices[3 * face + 2]);
                triangles.push(Triangle::new_with_normal(v2, v1, v0, n1, n0, n2, middle, material));
            } else {
                let flat = normal(v2, v1, v0);
                triangles.push(Triangle::new(v2, v1, v0, flat, middle, material));
            }
            assert forall|g: int| 0 <= g < face + 1 implies model.becomes(
                g,
                color,
                *normal,
                *centroid,
                #[trigger] triangles[start.len() + g],
            ) by {
                if g < face {
                    assert(triangles[start.len() + g] == before[start.len() + g]);
                }
            }
            face = face + 1;
        }
        assert forall|m: int, g: int|
            0 <= m < k + 1 && 0 <= g < models[m].faces() implies (#[trigger] models[m]).becomes(
            g,
            color_worn(*materials, default_color, models[m].material_id),
            *normal,
            *centroid,
            #[trigger] triangles[faces_before(models@, m as nat) + g],
        ) by {
            if m < k {
                lemma_faces_before_grow(models@, m as nat, k as nat);
                assert(triangles[faces_before(models@, m as nat) + g] == start[faces_before(
                    models@,
                    m as nat,
                ) + g]);
            }
        }
        k = k + 1;
    }
    triangles
}

/// The triangles of a model come after those of the models before it.
pub proof fn lemma_faces_before_grow(models: Seq<Mesh>, m: nat, k: nat)
    requires
        m < k,
    ensures
        faces_before(models, m) + models[m as int].faces() <= faces_before(models, k),
    decreases k,
{
    if m + 1 < k {
        lemma_faces_before_grow(models, m, (k - 1) as nat);
    }
}

} // verus!
