//! The general laws of the library, stated and proved once: determinism
//! of the pipeline, and the vertex structure of the base icosahedron.

use vstd::prelude::*;

use crate::sphere::{base_tri, base_vertex, is_lod_ladder, Icosphere};

verus! {

/// Determinism of the pipeline: any two mesh ladders built for the same
/// number of levels agree face for face, because each level's faces are
/// a function of the level index alone.
pub proof fn lemma_pipeline_deterministic(a: Seq<Icosphere>, b: Seq<Icosphere>, levels: int)
    requires
        is_lod_ladder(a, levels),
        is_lod_ladder(b, levels),
    ensures
        a.len() == b.len(),
        forall|k: int|
            0 <= k < levels ==> (#[trigger] a[k]).faces@ == b[k].faces@ && a[k].lod()
                == b[k].lod(),
{
}

/// The base icosahedron has twelve pairwise distinct vertices, and each
/// face refers to three of them.
pub proof fn lemma_base_vertices_distinct()
    ensures
        forall|i: int, j: int| 0 <= i < j < 12 ==> base_vertex(i) != base_vertex(j),
        forall|k: int|
            0 <= k < 20 ==> 0 <= #[trigger] base_tri(k).0 < 12 && 0 <= base_tri(k).1 < 12 && 0
                <= base_tri(k).2 < 12,
{
}

/// Whether face `k` of the base icosahedron uses vertex `i`.
pub open spec fn base_tri_uses(k: int, i: int) -> bool {
    base_tri(k).0 == i || base_tri(k).1 == i || base_tri(k).2 == i
}

/// In how many of the first `k` base faces vertex `i` occurs.
pub open spec fn base_degree(i: int, k: nat) -> int
    decreases k,
{
    if k == 0 {
        0
    } else {
        base_degree(i, (k - 1) as nat) + if base_tri_uses(k - 1, i) {
            1int
        } else {
            0
        }
    }
}

/// Icosahedron topology: each of the twelve (pairwise distinct) base
/// vertices occurs in exactly five of the twenty faces.
pub proof fn lemma_base_vertex_degree()
    ensures
        forall|i: int| 0 <= i < 12 ==> base_degree(i, 20) == 5,
{
    reveal_with_fuel(base_degree, 21);
    assert(base_degree(0, 20) == 5);
    assert(base_degree(1, 20) == 5);
    assert(base_degree(2, 20) == 5);
    assert(base_degree(3, 20) == 5);
    assert(base_degree(4, 20) == 5);
    assert(base_degree(5, 20) == 5);
    assert(base_degree(6, 20) == 5);
    assert(base_degree(7, 20) == 5);
    assert(base_degree(8, 20) == 5);
    assert(base_degree(9, 20) == 5);
    assert(base_degree(10, 20) == 5);
    assert(base_degree(11, 20) == 5);
}

} // verus!
