//! Index lists of the line meshes that the engine draws.

use vstd::prelude::*;
use crate::visual::boxed;

verus! {

/// The line segments of a closed loop through `vert_count` vertices:
/// vertex `i` is joined to vertex `i + 1`, and the last one to vertex 0.
pub open spec fn loop_indices_spec(vert_count: u32) -> Seq<u32> {
    Seq::new(
        2 * vert_count as nat,
        |k: int|
            if k % 2 == 0 {
                (k / 2) as u32
            } else {
                ((k / 2 + 1) % vert_count as int) as u32
            },
    )
}

/// The index list of a closed loop through `vert_count` vertices.
pub fn loop_indices(vert_count: u32) -> (indices: Box<[u32]>)
    requires
        2 * vert_count <= usize::MAX,
    ensures
        indices@ == loop_indices_spec(vert_count),
{
    let mut indices: Vec<u32> = Vec::new();
    let mut idx: u32 = 0;
    while idx < vert_count
        invariant
            idx <= vert_count,
            indices@.len() == 2 * idx,
            forall|k: int|
                0 <= k < indices@.len() ==> indices@[k] == loop_indices_spec(vert_count)[k],
        decreases vert_count - idx,
    {
        indices.push(idx);
        indices.push((idx + 1) % vert_count);
        idx = idx + 1;
    }
    assert(indices@ =~= loop_indices_spec(vert_count));
    boxed(indices)
}

/// The twelve edges of a cube whose eight corners are numbered by their
/// coordinates read as a three-bit number.
pub open spec fn cube_indices_spec() -> Seq<u32> {
    seq![0, 1, 0, 2, 0, 4, 1, 3, 1, 5, 2, 3, 2, 6, 3, 7, 4, 5, 4, 6, 5, 7, 6, 7]
}

/// The index list of the edges of a cube.
pub fn cube_indices() -> (indices: Box<[u32]>)
    ensures
        indices@ == cube_indices_spec(),
{
    let indices: Vec<u32> = vec![
        0, 1, 0, 2, 0, 4, 1, 3, 1, 5, 2, 3, 2, 6, 3, 7, 4, 5, 4, 6, 5, 7, 6, 7,
    ];
    boxed(indices)
}

/// The single segment of a bullet.
pub open spec fn bullet_indices_spec() -> Seq<u32> {
    seq![0, 1]
}

/// The index list of a bullet.
pub fn bullet_indices() -> (indices: Box<[u32]>)
    ensures
        indices@ == bullet_indices_spec(),
{
    let indices: Vec<u32> = vec![0, 1];
    boxed(indices)
}

} // verus!
