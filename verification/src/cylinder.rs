//! The triangles of tubes: which vertices of two rings each triangle joins.

use vstd::prelude::*;

verus! {

/// The vertex at place `p` of the index list of an open cylinder with
/// `resolution` sides. The bottom ring holds the vertices `0..resolution`,
/// the top ring the next `resolution`; each side takes six places.
pub open spec fn cylinder_index(resolution: int, p: int) -> int {
    let i = p / 6;
    let slot = p % 6;
    if slot == 0 {
        i
    } else if slot == 1 || slot == 3 {
        resolution + i
    } else if slot == 2 || slot == 4 {
        (i + 2) % resolution
    } else {
        resolution + (i + 1) % resolution
    }
}

/// The index list of an open cylinder with `resolution` sides.
pub fn generate(resolution: u32) -> (indices: Vec<u32>)
    requires
        resolution <= 0x7fff_fffd,
    ensures
        indices.len() == 6 * resolution,
        forall|p: int|
            0 <= p < indices.len() ==> #[trigger] indices[p] == cylinder_index(
                resolution as int,
                p,
            ),
{
    let mut indices: Vec<u32> = Vec::new();
    let mut i: u32 = 0;
    while i < resolution
        invariant
            i <= resolution <= 0x7fff_fffd,
            indices.len() == 6 * i,
            forall|p: int|
                0 <= p < indices.len() ==> #[trigger] indices[p] == cylinder_index(
                    resolution as int,
                    p,
                ),
        decreases resolution - i,
    {
        let j = resolution + i;
        let k = (i + 2) % resolution;
        let l = resolution + (i + 1) % resolution;
        indices.push(i);
        indices.push(j);
        indices.push(k);
        indices.push(j);
        indices.push(k);
        indices.push(l);
        i += 1;
    }
    indices
}

/// The vertex at place `p` of the triangles that join a ring of `resolution`
/// vertices starting at `parent` to a ring starting at `ring`.
pub open spec fn extrusion_index(resolution: int, parent: int, ring: int, p: int) -> int {
    let i = p / 6;
    let slot = p % 6;
    if slot == 0 {
        parent + i
    } else if slot == 1 || slot == 3 {
        ring + i
    } else if slot == 2 || slot == 4 {
        parent + (i + 1) % resolution
    } else {
        ring + (i + 1) % resolution
    }
}

/// Where the ring begins that a new ring is joined to: the ring that ends at
/// `parent_verts`, or the very first vertices where fewer came before.
pub open spec fn parent_ring(resolution: int, parent_verts: int) -> int {
    if parent_verts >= resolution {
        parent_verts - resolution
    } else {
        0
    }
}

/// Appends the triangles that join the ring ending at `parent_verts` to a new
/// ring of `resolution` vertices that starts at `vertices_len`. A triangle
/// may only name a vertex that exists once the new ring is there, so the ring
/// joined to must not begin behind the new one; and the new ring's vertices
/// must have 32-bit numbers.
pub fn extrude(resolution: u32, parent_verts: u32, vertices_len: u32, indices: &mut Vec<u32>)
    requires
        resolution > 0 ==> parent_ring(resolution as int, parent_verts as int) <= vertices_len,
        vertices_len + resolution <= u32::MAX,
    ensures
        final(indices).len() == old(indices).len() + 6 * resolution,
        forall|p: int| 0 <= p < old(indices).len() ==> #[trigger] final(indices)[p] == old(indices)[p],
        forall|p: int|
            0 <= p < 6 * resolution ==> {
                &&& #[trigger] final(indices)[old(indices).len() + p] == extrusion_index(
                    resolution as int,
                    parent_ring(resolution as int, parent_verts as int),
                    vertices_len as int,
                    p,
                )
                &&& final(indices)[old(indices).len() + p] < vertices_len + resolution
            },
{
    let parent: u32 = if parent_verts >= resolution {
        parent_verts - resolution
    } else {
        0
    };
    let ghost start = indices.len() as int;
    let mut i: u32 = 0;
    while i < resolution
        invariant
            i <= resolution,
            parent == parent_ring(resolution as int, parent_verts as int),
            vertices_len + resolution <= u32::MAX,
            resolution > 0 ==> parent <= vertices_len,
            start == old(indices).len(),
            indices.len() == start + 6 * i,
            forall|p: int| 0 <= p < start ==> #[trigger] indices[p] == old(indices)[p],
            forall|p: int|
                0 <= p < 6 * i ==> {
                    &&& #[trigger] indices[start + p] == extrusion_index(
                        resolution as int,
                        parent as int,
                        vertices_len as int,
                        p,
                    )
                    &&& indices[start + p] < vertices_len + resolution
                },
        decreases resolution - i,
    {
        let j = parent + i;
        let k = vertices_len + i;
        let l = parent + (i + 1) % resolution;
        let m = vertices_len + (i + 1) % resolution;
        indices.push(j);
        indices.push(k);
        indices.push(l);
        indices.push(k);
        indices.push(l);
        indices.push(m);
        i += 1;
    }
}

} // verus!
