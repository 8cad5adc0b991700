//! Triangle meshes, held as a hierarchy of triangles.

use vstd::prelude::*;
use crate::aabb::AABB;
use crate::bvh::{BVHNode, build_spec};
use crate::hittable::{HitRecord, Hittable};
use crate::interval::Interval;
use crate::quad::{Quad, Shape2D};
use crate::ray::Ray;
use crate::scalar::{Scalar, ONE};
use crate::vec3::{Point, Vec3, Vector};

verus! {

/// The numbers of a triangle mesh: three coordinates for each point and for
/// each normal, three indices of points for each face, and, where the mesh
/// has normals, three indices into the normals for each face.
pub struct Mesh {
    pub positions: Vec<Scalar>,
    pub normals: Vec<Scalar>,
    pub indices: Vec<u32>,
    pub normal_indices: Vec<u32>,
}

impl Mesh {
    /// The number of faces.
    pub open spec fn faces_spec(&self) -> int {
        self.indices@.len() as int / 3
    }

    /// Whether face `k` names three points that the mesh holds and, where
    /// the mesh has normals, three numbers that its normals hold.
    pub open spec fn face_ok_spec(&self, k: int) -> bool {
        &&& 3 * self.indices@[3 * k] + 2 < self.positions@.len()
        &&& 3 * self.indices@[3 * k + 1] + 2 < self.positions@.len()
        &&& 3 * self.indices@[3 * k + 2] + 2 < self.positions@.len()
        &&& self.normal_indices@.len() > 0 ==> {
            &&& 3 * k + 2 < self.normal_indices@.len()
            &&& self.normal_indices@[3 * k] < self.normals@.len()
            &&& self.normal_indices@[3 * k + 1] < self.normals@.len()
            &&& self.normal_indices@[3 * k + 2] < self.normals@.len()
        }
    }

    /// Whether the first `n` faces are in order.
    pub open spec fn faces_ok_spec(&self, n: int) -> bool {
        forall|k: int| 0 <= k < n ==> #[trigger] self.face_ok_spec(k)
    }

    /// The point that the index `i` names.
    pub open spec fn point_spec(&self, i: u32) -> Point {
        Vec3 {
            e0: self.positions@[3 * i],
            e1: self.positions@[3 * i + 1],
            e2: self.positions@[3 * i + 2],
        }
    }

    /// The side to which face `k` looks: straight up where the mesh has no
    /// normals or the one it names is close to nothing.
    pub open spec fn face_normal_spec(&self, k: int) -> Vector {
        let up: Vector = Vec3 { e0: 0, e1: ONE, e2: 0 };
        if self.normal_indices@.len() == 0 {
            up
        } else {
            let v: Vector = Vec3 {
                e0: self.normals@[self.normal_indices@[3 * k] as int],
                e1: self.normals@[self.normal_indices@[3 * k + 1] as int],
                e2: self.normals@[self.normal_indices@[3 * k + 2] as int],
            };
            if v.near_zero_spec() {
                up
            } else {
                v
            }
        }
    }

    /// Face `k` as a triangle of the material `mat`, scaled by `scale`: its
    /// two edges from the first point, in the order that makes it look to
    /// the side of its normal.
    pub open spec fn face_spec(&self, k: int, mat: usize, scale: Scalar) -> Quad {
        let p0 = self.point_spec(self.indices@[3 * k]);
        let a = self.point_spec(self.indices@[3 * k + 1]).minus_spec(p0);
        let b = self.point_spec(self.indices@[3 * k + 2]).minus_spec(p0);
        if a.cross_spec(b).dot_spec(self.face_normal_spec(k)) < 0 {
            Quad::with_shape_spec(
                p0.scaled_spec(scale),
                b.scaled_spec(scale),
                a.scaled_spec(scale),
                mat,
                Shape2D::Triangle,
            )
        } else {
            Quad::with_shape_spec(
                p0.scaled_spec(scale),
                a.scaled_spec(scale),
                b.scaled_spec(scale),
                mat,
                Shape2D::Triangle,
            )
        }
    }

    /// The first `n` faces as triangles.
    pub open spec fn triangles_spec(&self, n: int, mat: usize, scale: Scalar) -> Seq<Quad> {
        Seq::new(n as nat, |k: int| self.face_spec(k, mat, scale))
    }

    fn point(&self, i: u32) -> (p: Option<Point>)
        ensures
            p is Some <==> 3 * i + 2 < self.positions@.len(),
            p is Some ==> p->0 == self.point_spec(i),
    {
        let at: u64 = 3 * (i as u64);
        if at + 2 < self.positions.len() as u64 {
            let at: usize = at as usize;
            Some(Vec3::new(self.positions[at], self.positions[at + 1], self.positions[at + 2]))
        } else {
            None
        }
    }

    fn face_normal(&self, k: usize) -> (n: Option<Vector>)
        requires
            3 * k + 2 < self.indices@.len(),
        ensures
            n is Some <==> (self.normal_indices@.len() > 0 ==> {
                &&& 3 * k + 2 < self.normal_indices@.len()
                &&& self.normal_indices@[3 * k] < self.normals@.len()
                &&& self.normal_indices@[3 * k + 1] < self.normals@.len()
                &&& self.normal_indices@[3 * k + 2] < self.normals@.len()
            }),
            n is Some ==> n->0 == self.face_normal_spec(k as int),
    {
        let up: Vector = Vec3::new(0, ONE, 0);
        if self.normal_indices.len() == 0 {
            return Some(up);
        }
        let count: usize = self.indices.len();
        assert(3 * k + 2 < count);
        if 3 * k + 2 >= self.normal_indices.len() {
            return None;
        }
        let i0: usize = self.normal_indices[3 * k] as usize;
        let i1: usize = self.normal_indices[3 * k + 1] as usize;
        let i2: usize = self.normal_indices[3 * k + 2] as usize;
        if i0 >= self.normals.len() || i1 >= self.normals.len() || i2 >= self.normals.len() {
            return None;
        }
        let v: Vector = Vec3::new(self.normals[i0], self.normals[i1], self.normals[i2]);
        if v.near_zero() {
            Some(up)
        } else {
            Some(v)
        }
    }

    /// Face `k` as a triangle, or nothing where the face is not in order.
    pub fn face(&self, k: usize, mat: usize, scale: Scalar) -> (t: Option<Quad>)
        requires
            k < self.faces_spec(),
        ensures
            t is Some <==> self.face_ok_spec(k as int),
            t is Some ==> t->0 == self.face_spec(k as int, mat, scale),
    {
        let count: usize = self.indices.len();
        assert(3 * k + 2 < count);
        let face_normal = match self.face_normal(k) {
            Some(n) => n,
            None => {
                return None;
            },
        };
        let p0 = match self.point(self.indices[3 * k]) {
            Some(p) => p,
            None => {
                return None;
            },
        };
        let p1 = match self.point(self.indices[3 * k + 1]) {
            Some(p) => p,
            None => {
                return None;
            },
        };
        let p2 = match self.point(self.indices[3 * k + 2]) {
            Some(p) => p,
            None => {
                return None;
            },
        };
        let a = p1.minus(&p0);
        let b = p2.minus(&p0);
        let should_swap: bool = a.cross(&b).dot(&face_normal) < 0;
        if should_swap {
            Some(Quad::with_shape(p0.scaled(scale), b.scaled(scale), a.scaled(scale), mat, Shape2D::Triangle))
        } else {
            Some(Quad::with_shape(p0.scaled(scale), a.scaled(scale), b.scaled(scale), mat, Shape2D::Triangle))
        }
    }
}

/// A mesh as one surface.
pub struct Model {
    pub bvh: BVHNode<Quad>,
}

impl Model {
    /// The mesh as a surface of the material `mat`, scaled by `scale`; or
    /// nothing where the mesh has no face or one that is not in order.
    pub fn with_mat(mesh: &Mesh, mat: usize, scale: Scalar) -> (model: Option<Self>)
        ensures
            model is Some <==> mesh.faces_spec() >= 1 && mesh.faces_ok_spec(mesh.faces_spec()),
            model is Some ==> model->0.bvh == build_spec(
                mesh.triangles_spec(mesh.faces_spec(), mat, scale),
            ),
    {
        let faces_len: usize = mesh.indices.len() / 3;
        let mut faces: Vec<Quad> = Vec::new();
        let mut k: usize = 0;
        while k < faces_len
            invariant
                k <= faces_len,
                faces_len == mesh.faces_spec(),
                mesh.faces_ok_spec(k as int),
                faces@ =~= mesh.triangles_spec(k as int, mat, scale),
            decreases faces_len - k,
        {
            match mesh.face(k, mat, scale) {
                Some(t) => {
                    faces.push(t);
                },
                None => {
                    return None;
                },
            }
            k = k + 1;
        }
        if faces_len == 0 {
            return None;
        }
        Some(Model { bvh: BVHNode::new(faces) })
    }
}

impl Hittable for Model {
    open spec fn steady(&self) -> bool {
        self.bvh.steady()
    }

    open spec fn hit_ok(&self, r: Ray, ray_t: Interval, res: Option<HitRecord>) -> bool {
        self.bvh.hit_ok(r, ray_t, res)
    }

    open spec fn hit_spec(&self, r: Ray, ray_t: Interval) -> Option<HitRecord> {
        self.bvh.hit_spec(r, ray_t)
    }

    open spec fn bounding_box_spec(&self) -> AABB {
        self.bvh.bounding_box_spec()
    }

    fn hit(&self, r: &Ray, ray_t: Interval) -> (res: Option<HitRecord>)
        ensures
            !self.bvh.bbox.hit_spec(*r, ray_t) ==> res is None,
    {
        self.bvh.hit(r, ray_t)
    }

    fn bounding_box(&self) -> (bbox: &AABB) {
        self.bvh.bounding_box()
    }
}

} // verus!
