//! The whole-number side of turning shapes into triangles: how many vertices
//! the shapes of a plant take and which vertices each triangle joins. Where
//! the vertices lie is not decided here.

use crate::cylinder::{cylinder_index, extrude, extrusion_index, parent_ring};
use crate::icosphere::icosahedron_triangles;
use crate::turtle::RenderShape;
use vstd::prelude::*;

verus! {

/// The index list of the three-sided cylinder that every branch is drawn
/// with.
pub fn gen_cylinder_data() -> (indices: Vec<u32>)
    ensures
        indices@ == seq![0u32, 3, 2, 3, 2, 4, 1, 4, 0, 4, 0, 5, 2, 5, 1, 5, 1, 3],
{
    let indices = crate::cylinder::generate(3);
    assert(indices@ =~= seq![0u32, 3, 2, 3, 2, 4, 1, 4, 0, 4, 0, 5, 2, 5, 1, 5, 1, 3]);
    indices
}

/// How far the triangles of a plant have been laid out: how many vertices
/// there are, which vertices the triangles join, and for every open branch
/// the number of vertices at the time its last shape was drawn.
pub struct Layout {
    pub scopes: Seq<int>,
    pub vertices: int,
    pub indices: Seq<u32>,
}

/// The layout before any shape.
pub open spec fn empty_layout() -> Layout {
    Layout { scopes: seq![0int], vertices: 0, indices: Seq::empty() }
}

/// The number of vertices that the enclosing branch had when its last shape
/// was drawn.
pub open spec fn parent_of(layout: Layout) -> int {
    if layout.scopes.len() == 0 {
        0
    } else {
        layout.scopes.last()
    }
}

/// The layout with the innermost open branch ending at the newest vertex.
pub open spec fn with_parent(scopes: Seq<int>, vertices: int) -> Seq<int> {
    if scopes.len() == 0 {
        seq![vertices]
    } else {
        scopes.update(scopes.len() - 1, vertices)
    }
}

/// The layout after one more shape. The first line of a plant is a closed
/// tube of two rings; every later line adds one ring and joins it to the ring
/// that its branch ended with. A circle adds the twelve vertices of an
/// icosahedron. An opening bracket starts a branch where the enclosing one
/// stands, a closing bracket goes back to the enclosing branch, and a turn
/// lays out nothing.
pub open spec fn lay_out(layout: Layout, shape: RenderShape) -> Layout {
    match shape {
        RenderShape::Line { .. } => if layout.vertices == 0 {
            Layout {
                scopes: with_parent(layout.scopes, 6),
                vertices: 6,
                indices: layout.indices + Seq::new(18, |p: int| cylinder_index(3, p) as u32),
            }
        } else {
            Layout {
                scopes: with_parent(layout.scopes, layout.vertices + 3),
                vertices: layout.vertices + 3,
                indices: layout.indices + Seq::new(
                    18,
                    |p: int|
                        extrusion_index(3, parent_ring(3, parent_of(layout)), layout.vertices, p)
                            as u32,
                ),
            }
        },
        RenderShape::Circle { .. } => Layout {
            scopes: with_parent(layout.scopes, layout.vertices + 12),
            vertices: layout.vertices + 12,
            indices: layout.indices + Seq::new(
                60,
                |p: int| (icosahedron_triangles()[p] + layout.vertices) as u32,
            ),
        },
        RenderShape::Scope => Layout {
            scopes: layout.scopes.push(parent_of(layout)),
            vertices: layout.vertices,
            indices: layout.indices,
        },
        RenderShape::ScopeEnd { reset } => Layout {
            scopes: if reset || layout.scopes.len() <= 1 {
                seq![0int]
            } else {
                layout.scopes.drop_last()
            },
            vertices: layout.vertices,
            indices: layout.indices,
        },
        RenderShape::Turn { .. } => layout,
    }
}

/// The layout of a sequence of shapes.
pub open spec fn layout_of(shapes: Seq<RenderShape>) -> Layout
    decreases shapes.len(),
{
    if shapes.len() == 0 {
        empty_layout()
    } else {
        lay_out(layout_of(shapes.drop_last()), shapes.last())
    }
}

/// Whether the shape takes vertices: a line or a circle.
pub open spec fn is_drawn(shape: RenderShape) -> bool {
    shape is Line || shape is Circle
}

/// Whether any of the shapes takes vertices.
pub open spec fn any_drawn(shapes: Seq<RenderShape>) -> bool {
    exists|k: int| 0 <= k < shapes.len() && is_drawn(#[trigger] shapes[k])
}

/// Lays out the triangles of a plant: how many vertices its shapes take, and
/// which vertices each triangle joins. The vertices of the shapes follow one
/// another in the order of the shapes. Where no shape takes a vertex there is
/// no mesh. Every shape takes at most twelve vertices, and their numbers have
/// to fit 32 bits.
pub fn shapes_to_mesh_data(shapes: &Vec<RenderShape>) -> (mesh: Option<(u32, Vec<u32>)>)
    requires
        12 * shapes.len() <= u32::MAX,
    ensures
        mesh is None <==> !any_drawn(shapes@),
        mesh matches Some((vertices, indices)) ==> vertices == layout_of(shapes@).vertices
            && indices@ == layout_of(shapes@).indices,
{
    let mut scopes: Vec<u32> = Vec::new();
    scopes.push(0);
    let mut vertices: u32 = 0;
    let mut indices: Vec<u32> = Vec::new();
    let mut i: usize = 0;
    assert(shapes@.take(0) =~= Seq::<RenderShape>::empty());
    assert(scopes@.map_values(|v: u32| v as int) =~= empty_layout().scopes);
    while i < shapes.len()
        invariant
            i <= shapes.len(),
            12 * shapes.len() <= u32::MAX,
            vertices <= 12 * i,
            scopes.len() >= 1,
            forall|k: int| 0 <= k < scopes.len() ==> #[trigger] scopes[k] <= vertices,
            scopes@.map_values(|v: u32| v as int) == layout_of(shapes@.take(i as int)).scopes,
            vertices == layout_of(shapes@.take(i as int)).vertices,
            indices@ == layout_of(shapes@.take(i as int)).indices,
            vertices > 0 <==> any_drawn(shapes@.take(i as int)),
        decreases shapes.len() - i,
    {
        let ghost before = layout_of(shapes@.take(i as int));
        let ghost had = indices@;
        assert(shapes@.take(i + 1).drop_last() =~= shapes@.take(i as int));
        let parent = scopes[scopes.len() - 1];
        assert(parent == parent_of(before)) by {
            assert(scopes@.map_values(|v: u32| v as int).last() == parent);
        }
        let top = scopes.len() - 1;
        proof {
            let shorter = shapes@.take(i as int);
            let longer = shapes@.take(i + 1);
            if any_drawn(shorter) {
                let k = choose|k: int| 0 <= k < shorter.len() && is_drawn(#[trigger] shorter[k]);
                assert(is_drawn(longer[k]));
            }
            if is_drawn(shapes@[i as int]) {
                assert(is_drawn(longer[i as int]));
            }
            if any_drawn(longer) && !is_drawn(shapes@[i as int]) {
                let k = choose|k: int| 0 <= k < longer.len() && is_drawn(#[trigger] longer[k]);
                assert(is_drawn(shorter[k]));
            }
        }
        match shapes[i] {
            RenderShape::Line { .. } => {
                if vertices == 0 {
                    let mut tube = crate::cylinder::generate(3);
                    indices.append(&mut tube);
                    vertices = 6;
                    assert(indices@ =~= had + Seq::new(18, |p: int| cylinder_index(3, p) as u32));
                } else {
                    extrude(3, parent, vertices, &mut indices);
                    assert forall|q: int| had.len() <= q < had.len() + 18 implies indices@[q]
                        == extrusion_index(
                        3,
                        parent_ring(3, parent_of(before)),
                        before.vertices,
                        q - had.len(),
                    ) by {
                        let p = q - had.len();
                        assert(indices@[had.len() + p] == extrusion_index(
                            3,
                            parent_ring(3, parent as int),
                            vertices as int,
                            p,
                        ));
                    }
                    assert(indices@ =~= had + Seq::new(
                        18,
                        |p: int|
                            extrusion_index(
                                3,
                                parent_ring(3, parent_of(before)),
                                before.vertices,
                                p,
                            ) as u32,
                    ));
                    vertices = vertices + 3;
                }
                scopes.set(top, vertices);
                assert(scopes@.map_values(|v: u32| v as int) =~= with_parent(
                    before.scopes,
                    vertices as int,
                ));
            },
            RenderShape::Circle { .. } => {
                let mut ball = crate::icosphere::generate(vertices);
                indices.append(&mut ball);
                assert(indices@ =~= had + Seq::new(
                    60,
                    |p: int| (icosahedron_triangles()[p] + before.vertices) as u32,
                ));
                vertices = vertices + 12;
                scopes.set(top, vertices);
                assert(scopes@.map_values(|v: u32| v as int) =~= with_parent(
                    before.scopes,
                    vertices as int,
                ));
            },
            RenderShape::Scope => {
                scopes.push(parent);
                assert(scopes@.map_values(|v: u32| v as int) =~= before.scopes.push(
                    parent_of(before),
                ));
            },
            RenderShape::ScopeEnd { reset } => {
                if reset || scopes.len() <= 1 {
                    scopes.clear();
                    scopes.push(0);
                    assert(scopes@.map_values(|v: u32| v as int) =~= seq![0int]);
                } else {
                    scopes.pop();
                    assert(scopes@.map_values(|v: u32| v as int) =~= before.scopes.drop_last());
                }
            },
            RenderShape::Turn { .. } => {},
        }
        i += 1;
    }
    assert(shapes@.take(shapes.len() as int) =~= shapes@);
    if vertices == 0 {
        None
    } else {
        Some((vertices, indices))
    }
}

} // verus!
