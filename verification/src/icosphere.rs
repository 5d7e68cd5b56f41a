//! The triangles of an icosahedron, the sphere that buds are drawn with.

use vstd::prelude::*;

verus! {

/// The twenty triangles of an icosahedron over its twelve vertices.
pub open spec fn icosahedron_triangles() -> Seq<u32> {
    seq![
        0u32, 4, 1, 0, 9, 4, 9, 5, 4, 4, 5, 8, 4, 8, 1, 8, 10, 1, 8, 3, 10, 5, 3, 8, 5, 2, 3, 2, 7,
        3, 7, 10, 3, 7, 6, 10, 7, 11, 6, 11, 0, 6, 0, 1, 6, 6, 1, 10, 9, 0, 11, 9, 11, 2, 9, 2, 5,
        7, 2, 11,
    ]
}

fn icosahedron() -> (triangles: Vec<u32>)
    ensures
        triangles@ == icosahedron_triangles(),
{
    let triangles = vec![
        0u32, 4, 1, 0, 9, 4, 9, 5, 4, 4, 5, 8, 4, 8, 1, 8, 10, 1, 8, 3, 10, 5, 3, 8, 5, 2, 3, 2, 7,
        3, 7, 10, 3, 7, 6, 10, 7, 11, 6, 11, 0, 6, 0, 1, 6, 6, 1, 10, 9, 0, 11, 9, 11, 2, 9, 2, 5,
        7, 2, 11,
    ];
    assert(triangles@ =~= icosahedron_triangles());
    triangles
}

/// The index list of an icosahedron whose twelve vertices start at
/// `index_offset`.
pub fn generate(index_offset: u32) -> (indices: Vec<u32>)
    requires
        index_offset + 11 <= u32::MAX,
    ensures
        indices.len() == 60,
        forall|p: int|
            0 <= p < 60 ==> #[trigger] indices[p] == icosahedron_triangles()[p] + index_offset,
{
    let triangles = icosahedron();
    let mut indices: Vec<u32> = Vec::new();
    let mut p: usize = 0;
    while p < triangles.len()
        invariant
            p <= triangles.len(),
            triangles@ == icosahedron_triangles(),
            index_offset + 11 <= u32::MAX,
            indices.len() == p,
            forall|q: int|
                0 <= q < p ==> #[trigger] indices[q] == icosahedron_triangles()[q] + index_offset,
        decreases triangles.len() - p,
    {
        assert(triangles[p as int] <= 11);
        indices.push(triangles[p] + index_offset);
        p += 1;
    }
    indices
}

} // verus!
