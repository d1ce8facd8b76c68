//! Faces, icospheres, and the two construction steps: building the base
//! icosahedron and subdividing every face of a level into four children.

use vstd::prelude::*;

use crate::geom::{
    dot, dot_sum, edge_midpoint, norm_sq, on_sphere, subdivide_edge, Point,
};
use crate::geom::{lemma_coord_bound, lemma_dot_comm, lemma_edge_midpoint_dot,
    lemma_edge_midpoint_on_sphere};

verus! {

/// A triangle: exactly three vertices, ordered. The order fixes the
/// winding (orientation) and subdivision preserves it.
#[derive(Clone, Copy, PartialEq, Eq, Debug)]
#[verifier::ext_equal]
pub struct Face {
    pub points: [Point; 3],
}

/// A well-formed face: every vertex on the sphere, and no two vertices
/// more than a quarter turn apart. The base icosahedron satisfies this
/// (its edges subtend well under a quarter turn) and subdivision only
/// shrinks the angles.
pub open spec fn wf_face(f: Face) -> bool {
    &&& on_sphere(f.points[0])
    &&& on_sphere(f.points[1])
    &&& on_sphere(f.points[2])
    &&& dot(f.points[0], f.points[1]) >= 0
    &&& dot(f.points[0], f.points[2]) >= 0
    &&& dot(f.points[1], f.points[2]) >= 0
}

/// The four children of a face, winding preserved: three corner
/// triangles in the parent's vertex order, then the middle triangle.
pub open spec fn face_children(f: Face) -> Seq<Face> {
    let p1 = f.points[0];
    let p2 = f.points[1];
    let p3 = f.points[2];
    let m12 = edge_midpoint(p1, p2);
    let m23 = edge_midpoint(p2, p3);
    let m31 = edge_midpoint(p3, p1);
    seq![
        Face { points: [p1, m12, m31] },
        Face { points: [m12, p2, m23] },
        Face { points: [m31, m23, p3] },
        Face { points: [m12, m23, m31] },
    ]
}

/// A dot product against a coordinate sum splits into two dot products.
proof fn lemma_dot_sum_split(v: Point, pa: Point, pb: Point)
    by (nonlinear_arith)
    ensures
        dot_sum(v, pa, pb) == dot(v, pa) + dot(v, pb),
{
}

/// The floor every projected dot product needs: `v` on the sphere, both
/// edge endpoints on the sphere, all pairs within a quarter turn.
proof fn lemma_vertex_mid_dots(v: Point, pa: Point, pb: Point)
    requires
        on_sphere(v),
        on_sphere(pa),
        on_sphere(pb),
        dot(pa, pb) >= 0,
        dot(v, pa) >= 0 || v == pa,
        dot(v, pb) >= 0 || v == pb,
    ensures
        v == pa || v == pb ==> dot(v, edge_midpoint(pa, pb)) >= 140000000000000,
        dot(v, edge_midpoint(pa, pb)) >= -100663341,
{
    lemma_coord_bound(v);
    lemma_dot_sum_split(v, pa, pb);
    if v == pa || v == pb {
        assert(dot(v, v) == norm_sq(v));
        assert(dot_sum(v, pa, pb) >= 281474708275200);
    } else {
        assert(dot_sum(v, pa, pb) >= 0);
    }
    lemma_edge_midpoint_dot(v, pa, pb);
}

/// A dot product of two projected midpoints of edges of one well-formed
/// face is non-negative, provided `v` (already projected) is close to
/// one endpoint of the other edge.
proof fn lemma_mid_mid_dot(v: Point, pa: Point, pb: Point)
    requires
        on_sphere(v),
        on_sphere(pa),
        on_sphere(pb),
        dot(pa, pb) >= 0,
        dot(v, pa) >= -100663341,
        dot(v, pb) >= -100663341,
        dot(v, pa) >= 140000000000000 || dot(v, pb) >= 140000000000000,
    ensures
        dot(v, edge_midpoint(pa, pb)) >= 0,
{
    lemma_coord_bound(v);
    lemma_dot_sum_split(v, pa, pb);
    assert(dot_sum(v, pa, pb) >= 100000000000000);
    lemma_edge_midpoint_dot(v, pa, pb);
}

/// Subdividing a well-formed face yields four well-formed children.
pub proof fn lemma_children_wf(f: Face)
    requires
        wf_face(f),
    ensures
        forall|i: int| 0 <= i < 4 ==> wf_face(#[trigger] face_children(f)[i]),
{
    let p1 = f.points[0];
    let p2 = f.points[1];
    let p3 = f.points[2];
    let m12 = edge_midpoint(p1, p2);
    let m23 = edge_midpoint(p2, p3);
    let m31 = edge_midpoint(p3, p1);
    lemma_dot_comm(p1, p2);
    lemma_dot_comm(p1, p3);
    lemma_dot_comm(p2, p3);
    lemma_edge_midpoint_on_sphere(p1, p2);
    lemma_edge_midpoint_on_sphere(p2, p3);
    lemma_edge_midpoint_on_sphere(p3, p1);
    // Each vertex against each projected midpoint.
    lemma_vertex_mid_dots(p1, p1, p2);
    lemma_vertex_mid_dots(p2, p1, p2);
    lemma_vertex_mid_dots(p3, p1, p2);
    lemma_vertex_mid_dots(p1, p2, p3);
    lemma_vertex_mid_dots(p2, p2, p3);
    lemma_vertex_mid_dots(p3, p2, p3);
    lemma_vertex_mid_dots(p1, p3, p1);
    lemma_vertex_mid_dots(p2, p3, p1);
    lemma_vertex_mid_dots(p3, p3, p1);
    // Midpoints against midpoints, through the vertex floors above.
    lemma_dot_comm(p1, m12);
    lemma_dot_comm(p2, m12);
    lemma_dot_comm(p3, m12);
    lemma_dot_comm(p1, m23);
    lemma_dot_comm(p2, m23);
    lemma_dot_comm(p3, m23);
    lemma_dot_comm(p1, m31);
    lemma_dot_comm(p2, m31);
    lemma_dot_comm(p3, m31);
    lemma_mid_mid_dot(m12, p3, p1);
    lemma_mid_mid_dot(m12, p2, p3);
    lemma_mid_mid_dot(m23, p3, p1);
    lemma_dot_comm(m12, m31);
    lemma_dot_comm(m12, m23);
    lemma_dot_comm(m23, m31);
    assert(wf_face(face_children(f)[0]));
    assert(wf_face(face_children(f)[1]));
    assert(wf_face(face_children(f)[2]));
    assert(wf_face(face_children(f)[3]));
}

/// Split one face into its four children: three edge midpoints are
/// inserted and projected onto the sphere, and the four triangles are
/// emitted in the parent's winding.
pub fn subdivide_face(face: &Face) -> (children: Vec<Face>)
    requires
        wf_face(*face),
    ensures
        children@ == face_children(*face),
        children@.len() == 4,
        forall|i: int| 0 <= i < 4 ==> wf_face(#[trigger] children@[i]),
{
    let p1 = face.points[0];
    let p2 = face.points[1];
    let p3 = face.points[2];
    proof {
        lemma_dot_comm(p1, p3);
    }
    let m12 = subdivide_edge(p1, p2);
    let m23 = subdivide_edge(p2, p3);
    let m31 = subdivide_edge(p3, p1);
    let mut children: Vec<Face> = Vec::new();
    children.push(Face { points: [p1, m12, m31] });
    children.push(Face { points: [m12, p2, m23] });
    children.push(Face { points: [m31, m23, p3] });
    children.push(Face { points: [m12, m23, m31] });
    proof {
        assert(children@ =~~= face_children(*face));
        lemma_children_wf(*face);
    }
    children
}


/// The five ring vertices at the top (`top == true`) or bottom latitude
/// of the base icosahedron. The latitude is the arctangent of one half;
/// the bottom ring is rotated half a longitude step against the top one.
pub open spec fn ring_vertex(top: bool, i: int) -> Point {
    if top {
        if i == 0 {
            Point { x: 15005998, y: 0, z: 7502999 }
        } else if i == 1 {
            Point { x: 4637108, y: 14271552, z: 7502999 }
        } else if i == 2 {
            Point { x: -12140108i64, y: 8820304, z: 7502999 }
        } else if i == 3 {
            Point { x: -12140108i64, y: -8820304i64, z: 7502999 }
        } else {
            Point { x: 4637108, y: -14271552i64, z: 7502999 }
        }
    } else {
        if i == 0 {
            Point { x: 12140108, y: 8820304, z: -7502999i64 }
        } else if i == 1 {
            Point { x: -4637108i64, y: 14271552, z: -7502999i64 }
        } else if i == 2 {
            Point { x: -15005998i64, y: 0, z: -7502999i64 }
        } else if i == 3 {
            Point { x: -4637108i64, y: -14271552i64, z: -7502999i64 }
        } else {
            Point { x: 12140108, y: -8820304i64, z: -7502999i64 }
        }
    }
}

/// The twelve vertices of the base icosahedron: the top pole, the top
/// ring, the bottom ring, then the bottom pole.
pub open spec fn base_vertex(i: int) -> Point {
    if i == 0 {
        Point { x: 0, y: 0, z: 16777216 }
    } else if i <= 5 {
        ring_vertex(true, i - 1)
    } else if i <= 10 {
        ring_vertex(false, i - 6)
    } else {
        Point { x: 0, y: 0, z: -16777216i64 }
    }
}

/// Which three of the twelve vertices make up face `k`, in winding
/// order: five faces around the top pole, two strips zipping the rings,
/// five faces around the bottom pole.
pub open spec fn base_tri(k: int) -> (int, int, int) {
    if k == 0 {
        (0, 1, 2)
    } else if k == 1 {
        (0, 2, 3)
    } else if k == 2 {
        (0, 3, 4)
    } else if k == 3 {
        (0, 4, 5)
    } else if k == 4 {
        (0, 5, 1)
    } else if k == 5 {
        (1, 6, 2)
    } else if k == 6 {
        (2, 7, 3)
    } else if k == 7 {
        (3, 8, 4)
    } else if k == 8 {
        (4, 9, 5)
    } else if k == 9 {
        (5, 10, 1)
    } else if k == 10 {
        (1, 10, 6)
    } else if k == 11 {
        (2, 6, 7)
    } else if k == 12 {
        (3, 7, 8)
    } else if k == 13 {
        (4, 8, 9)
    } else if k == 14 {
        (5, 9, 10)
    } else if k == 15 {
        (6, 11, 7)
    } else if k == 16 {
        (7, 11, 8)
    } else if k == 17 {
        (8, 11, 9)
    } else if k == 18 {
        (9, 11, 10)
    } else {
        (10, 11, 6)
    }
}

/// Face `k` of the base icosahedron.
pub open spec fn base_face(k: int) -> Face {
    Face {
        points: [
            base_vertex(base_tri(k).0),
            base_vertex(base_tri(k).1),
            base_vertex(base_tri(k).2),
        ],
    }
}

/// The twenty faces of the base icosahedron.
pub open spec fn base_faces() -> Seq<Face> {
    Seq::new(20, |k: int| base_face(k))
}

/// Every face of the base icosahedron is well-formed: all vertices on
/// the sphere, all vertex pairs within a quarter turn.
pub proof fn lemma_base_wf()
    ensures
        forall|k: int| 0 <= k < 20 ==> wf_face(#[trigger] base_faces()[k]),
{
    assert(281474708275200 <= 0 * 0 + 0 * 0 + 16777216 * 16777216 <= 281475245146112)
        by (nonlinear_arith);
    assert(281474708275200 <= 15005998 * 15005998 + 0 * 0 + 7502999 * 7502999 <= 281475245146112)
        by (nonlinear_arith);
    assert(281474708275200 <= 4637108 * 4637108 + 14271552 * 14271552 + 7502999 * 7502999 <= 281475245146112)
        by (nonlinear_arith);
    assert(281474708275200 <= (-12140108) * (-12140108) + 8820304 * 8820304 + 7502999 * 7502999 <= 281475245146112)
        by (nonlinear_arith);
    assert(281474708275200 <= (-12140108) * (-12140108) + (-8820304) * (-8820304) + 7502999 * 7502999 <= 281475245146112)
        by (nonlinear_arith);
    assert(281474708275200 <= 4637108 * 4637108 + (-14271552) * (-14271552) + 7502999 * 7502999 <= 281475245146112)
        by (nonlinear_arith);
    assert(281474708275200 <= 12140108 * 12140108 + 8820304 * 8820304 + (-7502999) * (-7502999) <= 281475245146112)
        by (nonlinear_arith);
    assert(281474708275200 <= (-4637108) * (-4637108) + 14271552 * 14271552 + (-7502999) * (-7502999) <= 281475245146112)
        by (nonlinear_arith);
    assert(281474708275200 <= (-15005998) * (-15005998) + 0 * 0 + (-7502999) * (-7502999) <= 281475245146112)
        by (nonlinear_arith);
    assert(281474708275200 <= (-4637108) * (-4637108) + (-14271552) * (-14271552) + (-7502999) * (-7502999) <= 281475245146112)
        by (nonlinear_arith);
    assert(281474708275200 <= 12140108 * 12140108 + (-8820304) * (-8820304) + (-7502999) * (-7502999) <= 281475245146112)
        by (nonlinear_arith);
    assert(281474708275200 <= 0 * 0 + 0 * 0 + (-16777216) * (-16777216) <= 281475245146112)
        by (nonlinear_arith);
    assert(0 * 15005998 + 0 * 0 + 16777216 * 7502999 >= 0) by (nonlinear_arith);
    assert(0 * 4637108 + 0 * 14271552 + 16777216 * 7502999 >= 0) by (nonlinear_arith);
    assert(15005998 * 4637108 + 0 * 14271552 + 7502999 * 7502999 >= 0) by (nonlinear_arith);
    assert(0 * (-12140108) + 0 * 8820304 + 16777216 * 7502999 >= 0) by (nonlinear_arith);
    assert(4637108 * (-12140108) + 14271552 * 8820304 + 7502999 * 7502999 >= 0) by (nonlinear_arith);
    assert(0 * (-12140108) + 0 * (-8820304) + 16777216 * 7502999 >= 0) by (nonlinear_arith);
    assert((-12140108) * (-12140108) + 8820304 * (-8820304) + 7502999 * 7502999 >= 0) by (nonlinear_arith);
    assert(0 * 4637108 + 0 * (-14271552) + 16777216 * 7502999 >= 0) by (nonlinear_arith);
    assert((-12140108) * 4637108 + (-8820304) * (-14271552) + 7502999 * 7502999 >= 0) by (nonlinear_arith);
    assert(4637108 * 15005998 + (-14271552) * 0 + 7502999 * 7502999 >= 0) by (nonlinear_arith);
    assert(15005998 * 12140108 + 0 * 8820304 + 7502999 * (-7502999) >= 0) by (nonlinear_arith);
    assert(12140108 * 4637108 + 8820304 * 14271552 + (-7502999) * 7502999 >= 0) by (nonlinear_arith);
    assert(4637108 * (-4637108) + 14271552 * 14271552 + 7502999 * (-7502999) >= 0) by (nonlinear_arith);
    assert((-4637108) * (-12140108) + 14271552 * 8820304 + (-7502999) * 7502999 >= 0) by (nonlinear_arith);
    assert((-12140108) * (-15005998) + 8820304 * 0 + 7502999 * (-7502999) >= 0) by (nonlinear_arith);
    assert((-15005998) * (-12140108) + 0 * (-8820304) + (-7502999) * 7502999 >= 0) by (nonlinear_arith);
    assert((-12140108) * (-4637108) + (-8820304) * (-14271552) + 7502999 * (-7502999) >= 0) by (nonlinear_arith);
    assert((-4637108) * 4637108 + (-14271552) * (-14271552) + (-7502999) * 7502999 >= 0) by (nonlinear_arith);
    assert(4637108 * 12140108 + (-14271552) * (-8820304) + 7502999 * (-7502999) >= 0) by (nonlinear_arith);
    assert(12140108 * 15005998 + (-8820304) * 0 + (-7502999) * 7502999 >= 0) by (nonlinear_arith);
    assert(15005998 * 12140108 + 0 * (-8820304) + 7502999 * (-7502999) >= 0) by (nonlinear_arith);
    assert(12140108 * 12140108 + (-8820304) * 8820304 + (-7502999) * (-7502999) >= 0) by (nonlinear_arith);
    assert(4637108 * 12140108 + 14271552 * 8820304 + 7502999 * (-7502999) >= 0) by (nonlinear_arith);
    assert(12140108 * (-4637108) + 8820304 * 14271552 + (-7502999) * (-7502999) >= 0) by (nonlinear_arith);
    assert((-12140108) * (-4637108) + 8820304 * 14271552 + 7502999 * (-7502999) >= 0) by (nonlinear_arith);
    assert((-4637108) * (-15005998) + 14271552 * 0 + (-7502999) * (-7502999) >= 0) by (nonlinear_arith);
    assert((-12140108) * (-15005998) + (-8820304) * 0 + 7502999 * (-7502999) >= 0) by (nonlinear_arith);
    assert((-15005998) * (-4637108) + 0 * (-14271552) + (-7502999) * (-7502999) >= 0) by (nonlinear_arith);
    assert(4637108 * (-4637108) + (-14271552) * (-14271552) + 7502999 * (-7502999) >= 0) by (nonlinear_arith);
    assert((-4637108) * 12140108 + (-14271552) * (-8820304) + (-7502999) * (-7502999) >= 0) by (nonlinear_arith);
    assert(12140108 * 0 + 8820304 * 0 + (-7502999) * (-16777216) >= 0) by (nonlinear_arith);
    assert(0 * (-4637108) + 0 * 14271552 + (-16777216) * (-7502999) >= 0) by (nonlinear_arith);
    assert((-4637108) * 0 + 14271552 * 0 + (-7502999) * (-16777216) >= 0) by (nonlinear_arith);
    assert(0 * (-15005998) + 0 * 0 + (-16777216) * (-7502999) >= 0) by (nonlinear_arith);
    assert((-15005998) * 0 + 0 * 0 + (-7502999) * (-16777216) >= 0) by (nonlinear_arith);
    assert(0 * (-4637108) + 0 * (-14271552) + (-16777216) * (-7502999) >= 0) by (nonlinear_arith);
    assert((-4637108) * 0 + (-14271552) * 0 + (-7502999) * (-16777216) >= 0) by (nonlinear_arith);
    assert(0 * 12140108 + 0 * (-8820304) + (-16777216) * (-7502999) >= 0) by (nonlinear_arith);
    assert(12140108 * 0 + (-8820304) * 0 + (-7502999) * (-16777216) >= 0) by (nonlinear_arith);
    assert(0 * 12140108 + 0 * 8820304 + (-16777216) * (-7502999) >= 0) by (nonlinear_arith);
    assert(wf_face(base_face(0)));
    assert(wf_face(base_face(1)));
    assert(wf_face(base_face(2)));
    assert(wf_face(base_face(3)));
    assert(wf_face(base_face(4)));
    assert(wf_face(base_face(5)));
    assert(wf_face(base_face(6)));
    assert(wf_face(base_face(7)));
    assert(wf_face(base_face(8)));
    assert(wf_face(base_face(9)));
    assert(wf_face(base_face(10)));
    assert(wf_face(base_face(11)));
    assert(wf_face(base_face(12)));
    assert(wf_face(base_face(13)));
    assert(wf_face(base_face(14)));
    assert(wf_face(base_face(15)));
    assert(wf_face(base_face(16)));
    assert(wf_face(base_face(17)));
    assert(wf_face(base_face(18)));
    assert(wf_face(base_face(19)));
}

/// The five ring points at one latitude, as the builder constructs them.
pub fn make_points_ring(top: bool) -> (r: Vec<Point>)
    ensures
        r@.len() == 5,
        forall|i: int| 0 <= i < 5 ==> r@[i] == ring_vertex(top, i),
{
    let r: Vec<Point> = if top {
        vec![
            Point { x: 15005998, y: 0, z: 7502999 },
            Point { x: 4637108, y: 14271552, z: 7502999 },
            Point { x: -12140108, y: 8820304, z: 7502999 },
            Point { x: -12140108, y: -8820304, z: 7502999 },
            Point { x: 4637108, y: -14271552, z: 7502999 },
        ]
    } else {
        vec![
            Point { x: 12140108, y: 8820304, z: -7502999 },
            Point { x: -4637108, y: 14271552, z: -7502999 },
            Point { x: -15005998, y: 0, z: -7502999 },
            Point { x: -4637108, y: -14271552, z: -7502999 },
            Point { x: 12140108, y: -8820304, z: -7502999 },
        ]
    };
    assert(r@[0] == ring_vertex(top, 0));
    assert(r@[1] == ring_vertex(top, 1));
    assert(r@[2] == ring_vertex(top, 2));
    assert(r@[3] == ring_vertex(top, 3));
    assert(r@[4] == ring_vertex(top, 4));
    r
}

/// One level of detail: an ordered sequence of faces, plus the number of
/// subdivisions that produced it (zero for the base icosahedron).
#[derive(Clone, PartialEq, Eq, Debug)]
pub struct Icosphere {
    pub faces: Vec<Face>,
    pub iteration: usize,
}

/// Every face of the sequence is well-formed.
pub open spec fn wf_faces(fs: Seq<Face>) -> bool {
    forall|k: int| 0 <= k < fs.len() ==> wf_face(#[trigger] fs[k])
}

/// One subdivision step on a whole face sequence: face `i` of the input
/// becomes faces `4 i` through `4 i + 3` of the output, in child order.
pub open spec fn subdivided(fs: Seq<Face>) -> Seq<Face> {
    Seq::new(4 * fs.len(), |j: int| face_children(fs[j / 4])[j % 4])
}

/// The face sequence of the icosphere at level of detail `k`.
pub open spec fn lod_faces(k: nat) -> Seq<Face>
    decreases k,
{
    if k == 0 {
        base_faces()
    } else {
        subdivided(lod_faces((k - 1) as nat))
    }
}

/// Fourth powers, for the face count `20 * 4^k` at level `k`.
pub open spec fn pow4(k: nat) -> nat
    decreases k,
{
    if k == 0 {
        1nat
    } else {
        4 * pow4((k - 1) as nat)
    }
}

/// Level `k` holds exactly `20 * 4^k` faces.
pub proof fn lemma_lod_face_count(k: nat)
    ensures
        lod_faces(k).len() == 20 * pow4(k),
    decreases k,
{
    if k > 0 {
        lemma_lod_face_count((k - 1) as nat);
    }
}

/// Entry `4 i + t` of a subdivided sequence is child `t` of face `i`.
pub proof fn lemma_subdivided_index(fs: Seq<Face>, i: int, t: int)
    requires
        0 <= i < fs.len(),
        0 <= t < 4,
    ensures
        subdivided(fs)[4 * i + t] == face_children(fs[i])[t],
{
    vstd::arithmetic::div_mod::lemma_fundamental_div_mod_converse(4 * i + t, 4, i, t);
}

/// Subdivision keeps every face well-formed.
pub proof fn lemma_subdivided_wf(fs: Seq<Face>)
    requires
        wf_faces(fs),
    ensures
        wf_faces(subdivided(fs)),
{
    assert forall|j: int| 0 <= j < subdivided(fs).len() implies wf_face(
        #[trigger] subdivided(fs)[j],
    ) by {
        vstd::arithmetic::div_mod::lemma_fundamental_div_mod(j, 4);
        vstd::arithmetic::div_mod::lemma_mod_bound(j, 4);
        let i = j / 4;
        let t = j % 4;
        assert(0 <= i < fs.len());
        lemma_children_wf(fs[i]);
        assert(subdivided(fs)[j] == face_children(fs[i])[t]);
    }
}

impl Icosphere {
    /// The level of detail: how many subdivisions produced this mesh.
    pub open spec fn lod(self) -> int {
        self.iteration as int
    }

    /// All faces of this mesh are well-formed; in particular every
    /// vertex lies on the sphere within `NORM_TOL`.
    pub open spec fn wf(self) -> bool {
        wf_faces(self.faces@)
    }

    /// The level of detail, for callers that cache several meshes.
    pub fn lod_index(&self) -> (k: usize)
        ensures
            k as int == self.lod(),
    {
        self.iteration
    }

    /// Build the base icosahedron (level of detail zero): two poles, two
    /// five-point rings, and the twenty faces that zip them together.
    pub fn make_base() -> (r: Icosphere)
        ensures
            r.faces@ == base_faces(),
            r.faces@.len() == 20,
            r.wf(),
            r.lod() == 0,
    {
        let top = Point { x: 0, y: 0, z: 16777216 };
        let bottom = Point { x: 0, y: 0, z: -16777216i64 };
        let ring_top = make_points_ring(true);
        let ring_bottom = make_points_ring(false);
        let mut faces: Vec<Face> = Vec::new();

        // Five faces around the top pole.
        let mut i: usize = 0;
        while i < 5
            invariant
                ring_top@.len() == 5,
                forall|t: int| 0 <= t < 5 ==> ring_top@[t] == ring_vertex(true, t),
                top == (Point { x: 0, y: 0, z: 16777216 }),
                i <= 5,
                faces@.len() == i,
                forall|j: int| 0 <= j < i ==> faces@[j] == base_face(j),
            decreases 5 - i,
        {
            let f = Face { points: [top, ring_top[i], ring_top[(i + 1) % 5]] };
            proof {
                assert(f =~~= base_face(i as int));
            }
            faces.push(f);
            i = i + 1;
        }

        // Five faces of the upper middle strip.
        let mut i: usize = 0;
        while i < 5
            invariant
                ring_top@.len() == 5,
                ring_bottom@.len() == 5,
                forall|t: int| 0 <= t < 5 ==> ring_top@[t] == ring_vertex(true, t),
                forall|t: int| 0 <= t < 5 ==> ring_bottom@[t] == ring_vertex(false, t),
                i <= 5,
                faces@.len() == 5 + i,
                forall|j: int| 0 <= j < 5 + i ==> faces@[j] == base_face(j),
            decreases 5 - i,
        {
            let f = Face { points: [ring_top[i], ring_bottom[i], ring_top[(i + 1) % 5]] };
            proof {
                assert(f =~~= base_face(5 + i as int));
            }
            faces.push(f);
            i = i + 1;
        }

        // Five faces of the lower middle strip: the bottom ring is
        // rotated half a step, so its partner index is offset by four.
        let mut i: usize = 0;
        while i < 5
            invariant
                ring_top@.len() == 5,
                ring_bottom@.len() == 5,
                forall|t: int| 0 <= t < 5 ==> ring_top@[t] == ring_vertex(true, t),
                forall|t: int| 0 <= t < 5 ==> ring_bottom@[t] == ring_vertex(false, t),
                i <= 5,
                faces@.len() == 10 + i,
                forall|j: int| 0 <= j < 10 + i ==> faces@[j] == base_face(j),
            decreases 5 - i,
        {
            let f = Face { points: [ring_top[i], ring_bottom[(i + 4) % 5], ring_bottom[i]] };
            proof {
                assert(f =~~= base_face(10 + i as int));
            }
            faces.push(f);
            i = i + 1;
        }

        // Five faces around the bottom pole.
        let mut i: usize = 0;
        while i < 5
            invariant
                ring_bottom@.len() == 5,
                forall|t: int| 0 <= t < 5 ==> ring_bottom@[t] == ring_vertex(false, t),
                bottom == (Point { x: 0, y: 0, z: -16777216i64 }),
                i <= 5,
                faces@.len() == 15 + i,
                forall|j: int| 0 <= j < 15 + i ==> faces@[j] == base_face(j),
            decreases 5 - i,
        {
            let f = Face { points: [ring_bottom[i], bottom, ring_bottom[(i + 1) % 5]] };
            proof {
                assert(f =~~= base_face(15 + i as int));
            }
            faces.push(f);
            i = i + 1;
        }

        proof {
            assert(faces@ =~~= base_faces());
            lemma_base_wf();
        }
        Icosphere { faces, iteration: 0 }
    }

    /// One subdivision step: every face is split into four children with
    /// their new vertices projected onto the sphere, quadrupling the
    /// face count and raising the level of detail by one.
    #[verifier::rlimit(60)]
    pub fn iterate_construction(&self) -> (r: Icosphere)
        requires
            self.wf(),
            self.lod() < usize::MAX,
        ensures
            r.faces@ == subdivided(self.faces@),
            r.faces@.len() == 4 * self.faces@.len(),
            r.wf(),
            r.lod() == self.lod() + 1,
    {
        let ghost fs = self.faces@;
        let mut new_faces: Vec<Face> = Vec::new();
        let n = self.faces.len();
        let mut i: usize = 0;
        while i < n
            invariant
                n == fs.len(),
                fs == self.faces@,
                wf_faces(fs),
                i <= n,
                new_faces@.len() == 4 * i,
                forall|j: int| 0 <= j < 4 * i ==> new_faces@[j] == subdivided(fs)[j],
            decreases n - i,
        {
            let children = subdivide_face(&self.faces[i]);
            new_faces.push(children[0]);
            new_faces.push(children[1]);
            new_faces.push(children[2]);
            new_faces.push(children[3]);
            proof {
                let b = 4 * (i as int);
                lemma_subdivided_index(fs, i as int, 0);
                lemma_subdivided_index(fs, i as int, 1);
                lemma_subdivided_index(fs, i as int, 2);
                lemma_subdivided_index(fs, i as int, 3);
                assert forall|j: int| 0 <= j < b + 4 implies new_faces@[j] == subdivided(fs)[j]
                by {
                    if j < b {
                        assert(new_faces@[j] == subdivided(fs)[j]);
                    } else {
                        assert(new_faces@[j] == children@[j - b]);
                        assert(children@[j - b] == face_children(fs[i as int])[j - b]);
                    }
                }
            }
            i = i + 1;
        }
        proof {
            assert(new_faces@ =~~= subdivided(fs));
            lemma_subdivided_wf(fs);
        }
        Icosphere { faces: new_faces, iteration: self.iteration + 1 }
    }
}

/// What the pipeline promises: entry `k` of the ladder is exactly the
/// face sequence of level-of-detail `k`, and is marked as such.
pub open spec fn is_lod_ladder(s: Seq<Icosphere>, levels: int) -> bool {
    &&& s.len() == levels
    &&& forall|k: int|
        0 <= k < levels ==> (#[trigger] s[k]).faces@ == lod_faces(k as nat) && s[k].lod() == k
}

/// Build the whole ladder of meshes: entry `k` is the base icosahedron
/// subdivided `k` times, so callers can cache every level and switch
/// between them.
pub fn make_icospheres(levels: usize) -> (r: Vec<Icosphere>)
    ensures
        r@.len() == levels,
        is_lod_ladder(r@, levels as int),
        forall|k: int|
            0 <= k < levels ==> (#[trigger] r@[k]).faces@ == lod_faces(k as nat)
                && r@[k].lod() == k && r@[k].wf(),
{
    let mut list: Vec<Icosphere> = Vec::new();
    let mut current = Icosphere::make_base();
    let mut i: usize = 0;
    while i < levels
        invariant
            i <= levels,
            list@.len() == i,
            current.wf(),
            current.faces@ == lod_faces(i as nat),
            current.lod() == i,
            forall|k: int|
                0 <= k < i ==> (#[trigger] list@[k]).faces@ == lod_faces(k as nat)
                    && list@[k].lod() == k && list@[k].wf(),
        decreases levels - i,
    {
        let next = current.iterate_construction();
        list.push(current);
        current = next;
        i = i + 1;
    }
    list
}

/// Flatten one mesh for a renderer: three vertices per face (faces do
/// not share vertex storage) and one index triple per face.
pub fn make_mesh_buffers(ico: &Icosphere) -> (out: (Vec<Point>, Vec<[u32; 3]>))
    requires
        3 * ico.faces@.len() <= u32::MAX,
    ensures
        out.0@.len() == 3 * ico.faces@.len(),
        out.1@.len() == ico.faces@.len(),
        forall|i: int, t: int|
            0 <= i < ico.faces@.len() && 0 <= t < 3 ==> out.0@[3 * i + t]
                == ico.faces@[i].points[t],
        forall|i: int|
            0 <= i < ico.faces@.len() ==> (#[trigger] out.1@[i])@ == seq![
                (3 * i) as u32,
                (3 * i + 1) as u32,
                (3 * i + 2) as u32,
            ],
{
    let mut vertices: Vec<Point> = Vec::new();
    let mut indices: Vec<[u32; 3]> = Vec::new();
    let n = ico.faces.len();
    let mut i: usize = 0;
    while i < n
        invariant
            n == ico.faces@.len(),
            3 * n <= u32::MAX,
            i <= n,
            vertices@.len() == 3 * i,
            indices@.len() == i,
            forall|j: int, t: int|
                0 <= j < i && 0 <= t < 3 ==> vertices@[3 * j + t] == ico.faces@[j].points[t],
            forall|j: int|
                0 <= j < i ==> (#[trigger] indices@[j])@ == seq![
                    (3 * j) as u32,
                    (3 * j + 1) as u32,
                    (3 * j + 2) as u32,
                ],
        decreases n - i,
    {
        let f = ico.faces[i];
        vertices.push(f.points[0]);
        vertices.push(f.points[1]);
        vertices.push(f.points[2]);
        let b = (3 * i) as u32;
        let idx: [u32; 3] = [b, b + 1, b + 2];
        indices.push(idx);
        proof {
            assert(idx@ =~= seq![(3 * (i as int)) as u32, (3 * (i as int) + 1) as u32, (3 * (
            i as int) + 2) as u32]);
        }
        i = i + 1;
    }
    (vertices, indices)
}

} // verus!
