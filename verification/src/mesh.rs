//! Index generation for triangle meshes.
//!
//! A convex polygon with vertices numbered `0 .. n` is triangulated as a
//! fan: every triangle shares vertex `0`, and triangle `t` covers vertices
//! `0`, `t + 1`, `t + 2`. The functions here compute only indices, on plain
//! integers; vertex data (positions, colors) and GPU buffers are the
//! caller's business.

use vstd::prelude::*;

verus! {

/// The index a fan triangulation places at position `j` of its index list:
/// positions come in groups of three, one group per triangle, and triangle
/// `t`'s group is `0, t + 1, t + 2`.
pub open spec fn fan_index_at(j: int) -> int {
    if j % 3 == 0 {
        0
    } else {
        j / 3 + j % 3
    }
}

/// Triangulates a polygon of `vertex_count` vertices (at least three) as a
/// fan around vertex `0`: the result lists `vertex_count - 2` triangles of
/// three indices each, and the group for triangle `t` is `0, t + 1, t + 2`.
pub fn fanned_indices(vertex_count: u32) -> (r: Vec<u32>)
    requires
        vertex_count >= 3,
    ensures
        r@.len() == 3 * (vertex_count - 2),
        forall|j: int| 0 <= j < r@.len() ==> r@[j] == fan_index_at(j),
        forall|j: int| 0 <= j < r@.len() ==> r@[j] < vertex_count,
{
    let mut indices: Vec<u32> = Vec::new();
    let mut i: u32 = 1;
    while i < vertex_count - 1
        invariant
            3 <= vertex_count,
            1 <= i <= vertex_count - 1,
            indices@.len() == 3 * (i - 1),
            forall|j: int| 0 <= j < indices@.len() ==> indices@[j] == fan_index_at(j),
            forall|j: int| 0 <= j < indices@.len() ==> indices@[j] < vertex_count,
        decreases vertex_count - 1 - i,
    {
        indices.push(0);
        indices.push(i);
        indices.push(i + 1);
        proof {
            let t = i - 1;
            assert(fan_index_at(3 * t) == 0 && fan_index_at(3 * t + 1) == t + 1 && fan_index_at(
                3 * t + 2,
            ) == t + 2) by (nonlinear_arith);
        }
        i = i + 1;
    }
    indices
}

} // verus!
