use icosphere::geom::{isqrt, subdivide_edge, Point, NORM_TOL, SCALE};
use icosphere::sphere::{make_icospheres, make_mesh_buffers, subdivide_face, Icosphere};

fn norm(p: &Point) -> f64 {
    let (x, y, z) = (p.x as f64, p.y as f64, p.z as f64);
    (x * x + y * y + z * z).sqrt() / SCALE as f64
}

fn det(a: &Point, b: &Point, c: &Point) -> i128 {
    let (ax, ay, az) = (a.x as i128, a.y as i128, a.z as i128);
    let (bx, by, bz) = (b.x as i128, b.y as i128, b.z as i128);
    let (cx, cy, cz) = (c.x as i128, c.y as i128, c.z as i128);
    ax * (by * cz - bz * cy) - ay * (bx * cz - bz * cx) + az * (bx * cy - by * cx)
}

#[test]
fn base_has_20_faces() {
    let base = Icosphere::make_base();
    assert_eq!(base.faces.len(), 20);
    assert_eq!(base.lod_index(), 0);
}

#[test]
fn base_has_12_distinct_vertices_shared_by_5_faces() {
    let base = Icosphere::make_base();
    let mut verts: Vec<Point> = Vec::new();
    for f in &base.faces {
        for p in &f.points {
            if !verts.contains(p) {
                verts.push(*p);
            }
        }
    }
    assert_eq!(verts.len(), 12);
    for v in &verts {
        let shared = base
            .faces
            .iter()
            .filter(|f| f.points.contains(v))
            .count();
        assert_eq!(shared, 5);
    }
}

#[test]
fn base_vertices_on_unit_sphere() {
    let base = Icosphere::make_base();
    for f in &base.faces {
        for p in &f.points {
            assert!((norm(p) - 1.0).abs() < 1e-6);
            let n2 = p.x * p.x + p.y * p.y + p.z * p.z;
            assert!((n2 - SCALE * SCALE).abs() <= NORM_TOL);
        }
    }
}

#[test]
fn subdivision_quadruples_faces() {
    let base = Icosphere::make_base();
    let one = base.iterate_construction();
    assert_eq!(one.faces.len(), 80);
    assert_eq!(one.lod_index(), 1);
    let two = one.iterate_construction();
    assert_eq!(two.faces.len(), 320);
}

#[test]
fn lod_six_has_81920_faces() {
    let spheres = make_icospheres(7);
    assert_eq!(spheres.len(), 7);
    assert_eq!(spheres[6].faces.len(), 20 * 4096);
    assert_eq!(spheres[6].lod_index(), 6);
}

#[test]
fn all_vertices_near_unit_norm_at_all_lods() {
    for (k, s) in make_icospheres(6).iter().enumerate() {
        assert_eq!(s.lod_index(), k);
        for f in &s.faces {
            for p in &f.points {
                assert!((norm(p) - 1.0).abs() < 1e-4);
            }
        }
    }
}

#[test]
fn winding_preserved_under_subdivision() {
    let mut current = Icosphere::make_base();
    for f in &current.faces {
        assert!(det(&f.points[0], &f.points[1], &f.points[2]) > 0);
    }
    for _ in 0..4 {
        let next = current.iterate_construction();
        for (i, f) in current.faces.iter().enumerate() {
            let parent = det(&f.points[0], &f.points[1], &f.points[2]);
            for t in 0..4 {
                let c = &next.faces[4 * i + t];
                let child = det(&c.points[0], &c.points[1], &c.points[2]);
                assert!(child.signum() == parent.signum());
            }
        }
        current = next;
    }
}

#[test]
fn pipeline_is_deterministic() {
    let a = make_icospheres(5);
    let b = make_icospheres(5);
    assert_eq!(a, b);
}

#[test]
fn midpoint_of_pole_and_ring_point() {
    let base = Icosphere::make_base();
    // The first top face is (pole, first ring point, second ring point).
    let f = &base.faces[0];
    let pole = f.points[0];
    assert_eq!(pole, Point { x: 0, y: 0, z: 16777216 });
    let ring = f.points[1];
    assert_eq!(ring, Point { x: 15005998, y: 0, z: 7502999 });
    let m = subdivide_edge(pole, ring);
    assert!((norm(&m) - 1.0).abs() < 1e-6);
    // Exact expected value: the coordinate sum is (15005998, 0, 24280215),
    // its squared norm 814708816422229 has floor square root 28543104,
    // and scaling by 16777216 / 28543104 gives the projected midpoint.
    assert_eq!(isqrt(814708816422229), 28543104);
    assert_eq!(m, Point { x: 8820304, y: 0, z: 14271552 });
}

#[test]
fn subdivide_face_children_and_winding() {
    let base = Icosphere::make_base();
    let f = base.faces[7];
    let children = subdivide_face(&f);
    assert_eq!(children.len(), 4);
    // Corner children keep the parent's corners in order.
    assert_eq!(children[0].points[0], f.points[0]);
    assert_eq!(children[1].points[1], f.points[1]);
    assert_eq!(children[2].points[2], f.points[2]);
    // Shared midpoints appear in the right slots.
    assert_eq!(children[3].points[0], children[0].points[1]);
    assert_eq!(children[3].points[1], children[1].points[2]);
    assert_eq!(children[3].points[2], children[0].points[2]);
}

#[test]
fn isqrt_brackets() {
    assert_eq!(isqrt(0), 0);
    assert_eq!(isqrt(3), 1);
    assert_eq!(isqrt(4), 2);
    assert_eq!(isqrt(4294967295), 65535);
    assert_eq!(isqrt(4294967296), 65536);
}

#[test]
fn mesh_buffers_flatten_faces() {
    let base = Icosphere::make_base();
    let (vertices, indices) = make_mesh_buffers(&base);
    assert_eq!(vertices.len(), 60);
    assert_eq!(indices.len(), 20);
    for (i, f) in base.faces.iter().enumerate() {
        for t in 0..3 {
            assert_eq!(vertices[3 * i + t], f.points[t]);
            assert_eq!(indices[i][t], (3 * i + t) as u32);
        }
    }
}
