use raytracer::hittable::Hittable;
use raytracer::interval::Interval;
use raytracer::model::{Mesh, Model};
use raytracer::quad::Shape2D;
use raytracer::ray::Ray;
use raytracer::scalar::{INFINITY, ONE};
use raytracer::vec3::{Point, Vec3};

fn p(x: i64, y: i64, z: i64) -> Point {
    Vec3::new(x * ONE, y * ONE, z * ONE)
}

fn forward() -> Interval {
    Interval::from(0, INFINITY)
}

/// A square of two triangles in the plane z = 0, from (0, 0) to (1, 1).
fn square() -> Mesh {
    Mesh {
        positions: vec![0, 0, 0, ONE, 0, 0, ONE, ONE, 0, 0, ONE, 0],
        normals: vec![],
        indices: vec![0, 1, 2, 0, 2, 3],
        normal_indices: vec![],
    }
}

#[test]
fn faces_become_triangles() {
    let mesh = square();
    let t = mesh.face(0, 7, 2 * ONE).unwrap();
    assert_eq!(t.shape, Shape2D::Triangle);
    assert_eq!(t.mat, 7);
    assert_eq!(t.q, p(0, 0, 0));
    // Without normals a face looks up: (1,0,0) x (1,1,0) points along z and is kept.
    assert_eq!(t.u, p(2, 0, 0));
    assert_eq!(t.v, p(2, 2, 0));
    let t = mesh.face(1, 7, ONE).unwrap();
    assert_eq!(t.u, p(1, 1, 0));
    assert_eq!(t.v, p(0, 1, 0));
}

#[test]
fn a_face_is_turned_to_the_side_of_its_normal() {
    let mut mesh = square();
    mesh.normals = vec![0, 0, -ONE];
    mesh.normal_indices = vec![0, 1, 2, 0, 1, 2];
    let t = mesh.face(0, 0, ONE).unwrap();
    assert_eq!(t.u, p(1, 1, 0));
    assert_eq!(t.v, p(1, 0, 0));
    // A normal close to nothing counts as straight up.
    mesh.normals = vec![3, -4, 5];
    let t = mesh.face(0, 0, ONE).unwrap();
    assert_eq!(t.u, p(1, 0, 0));
}

#[test]
fn a_mesh_is_hit_where_its_faces_are() {
    let model = Model::with_mat(&square(), 3, 4 * ONE).unwrap();
    let down = |x: i64, y: i64| Ray::new(Vec3::new(x, y, 5 * ONE), p(0, 0, -1));
    let rec = model.hit(&down(3 * ONE, ONE), forward()).unwrap();
    assert_eq!(rec.t, 5 * ONE);
    assert_eq!(rec.mat, 3);
    assert!(model.hit(&down(ONE, 3 * ONE), forward()).is_some());
    assert!(model.hit(&down(5 * ONE, ONE), forward()).is_none());
    assert!(model.hit(&down(-ONE / 2, ONE), forward()).is_none());
    // The boxes round the edges of the triangles are padded before they are joined.
    assert_eq!(model.bounding_box().e0.max, 4 * ONE + 50_000);
    assert_eq!(model.bounding_box().e0.min, -50_000);
    assert_eq!(model.bounding_box().e1, Interval::from(0, 4 * ONE + 50_000));
}

#[test]
fn a_mesh_out_of_order_gives_no_model() {
    let mut none = square();
    none.indices = vec![];
    assert!(Model::with_mat(&none, 0, ONE).is_none());
    let mut two = square();
    two.indices = vec![0, 1];
    assert!(Model::with_mat(&two, 0, ONE).is_none());
    let mut far = square();
    far.indices = vec![0, 1, 4];
    assert!(Model::with_mat(&far, 0, ONE).is_none());
    assert!(far.face(0, 0, ONE).is_none());
    let mut cut = square();
    cut.positions.pop();
    assert!(Model::with_mat(&cut, 0, ONE).is_none());
    let mut normals = square();
    normals.normals = vec![0, ONE];
    normals.normal_indices = vec![0, 1, 2, 0, 1, 1];
    assert!(Model::with_mat(&normals, 0, ONE).is_none());
    normals.normal_indices = vec![0, 1, 1];
    assert!(Model::with_mat(&normals, 0, ONE).is_none());
    normals.normal_indices = vec![0, 1, 1, 1, 0, 0];
    assert!(Model::with_mat(&normals, 0, ONE).is_some());
}

#[test]
fn spare_indices_at_the_end_are_passed_over() {
    let mut mesh = square();
    mesh.indices = vec![0, 1, 2, 0, 2];
    let model = Model::with_mat(&mesh, 0, ONE).unwrap();
    let r = Ray::new(Vec3::new(ONE / 4, 3 * ONE / 4, 5 * ONE), p(0, 0, -1));
    assert!(model.hit(&r, forward()).is_none());
}
