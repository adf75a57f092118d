//! Converts Blender's Z-up coordinates to Y-up.
use vstd::prelude::*;
use crate::float_bits::{lemma_neg_neg, neg_bits, negate};
use crate::mesh::BlenderMesh;

verus! {

/// `s` with its first `n` entries of three values `(x, y, z)` rewritten as `(x, z, -y)`.
pub open spec fn y_up_of(s: Seq<u32>, n: int) -> Seq<u32> {
    Seq::new(
        s.len(),
        |i: int|
            if i < 3 * n {
                if i % 3 == 0 {
                    s[i]
                } else if i % 3 == 1 {
                    s[i + 1]
                } else {
                    neg_bits(s[i - 1])
                }
            } else {
                s[i]
            },
    )
}

/// Rewrites the first `n` entries of `data` from Z-up to Y-up.
fn y_up_entries(data: &mut Vec<u32>, n: usize)
    requires
        3 * n <= old(data)@.len(),
    ensures
        final(data)@ == y_up_of(old(data)@, n as int),
{
    let ghost s = data@;
    let len = data.len();
    let mut v: usize = 0;
    while v < n
        invariant
            v <= n,
            3 * n <= s.len() == len,
            data@.len() == s.len(),
            forall|i: int| 0 <= i < 3 * v ==> data@[i] == #[trigger] y_up_of(s, n as int)[i],
            forall|i: int| 3 * v <= i < s.len() ==> #[trigger] data@[i] == s[i],
        decreases n - v,
    {
        let y_index = v * 3 + 1;
        let z_index = y_index + 1;
        let new_z = negate(data[y_index]);
        let new_y = data[z_index];
        data.set(y_index, new_y);
        data.set(z_index, new_z);
        v += 1;
        assert forall|i: int| 0 <= i < 3 * v implies data@[i] == #[trigger] y_up_of(s, n as int)[i] by {
            if i >= 3 * (v - 1) {
                assert(i % 3 == i - 3 * (v - 1));
            }
        }
    }
    assert(data@ =~= y_up_of(s, n as int));
}

impl BlenderMesh {
    /// Converts positions and normals from Blender's Z-up frame to a Y-up frame: each
    /// `(x, y, z)` becomes `(x, z, -y)`. As many normals are converted as there are whole
    /// positions.
    pub fn y_up(&mut self)
        requires
            3 * (old(self).vertex_positions@.len() / 3) <= old(self).vertex_normals@.len(),
        ensures
            final(self).vertex_positions@ == y_up_of(
                old(self).vertex_positions@,
                old(self).vertex_positions@.len() as int / 3,
            ),
            final(self).vertex_normals@ == y_up_of(
                old(self).vertex_normals@,
                old(self).vertex_positions@.len() as int / 3,
            ),
            final(self).vertex_position_indices == old(self).vertex_position_indices,
            final(self).num_vertices_in_each_face == old(self).num_vertices_in_each_face,
            final(self).vertex_normal_indices == old(self).vertex_normal_indices,
            final(self).vertex_uvs == old(self).vertex_uvs,
            final(self).vertex_uv_indices == old(self).vertex_uv_indices,
            final(self).texture_name == old(self).texture_name,
            final(self).armature_name == old(self).armature_name,
            final(self).vertex_group_indices == old(self).vertex_group_indices,
            final(self).vertex_group_weights == old(self).vertex_group_weights,
            final(self).num_groups_for_each_vertex == old(self).num_groups_for_each_vertex,
    {
        let n = self.vertex_positions.len() / 3;
        y_up_entries(&mut self.vertex_positions, n);
        y_up_entries(&mut self.vertex_normals, n);
    }
}

/// Converting twice turns `(x, y, z)` into `(x, -y, -z)`: the conversion is a
/// quarter turn about the x axis, an involution only up to the signs of y and z.
pub proof fn lemma_y_up_twice(s: Seq<u32>, n: int)
    requires
        0 <= 3 * n <= s.len(),
    ensures
        y_up_of(y_up_of(s, n), n) == Seq::new(
            s.len(),
            |i: int|
                if i < 3 * n && i % 3 != 0 {
                    neg_bits(s[i])
                } else {
                    s[i]
                },
        ),
{
    assert(y_up_of(y_up_of(s, n), n) =~= Seq::new(
        s.len(),
        |i: int|
            if i < 3 * n && i % 3 != 0 {
                neg_bits(s[i])
            } else {
                s[i]
            },
    ));
}

/// Converting four times gives back the original values exactly.
pub proof fn lemma_y_up_four_times(s: Seq<u32>, n: int)
    requires
        0 <= 3 * n <= s.len(),
    ensures
        y_up_of(y_up_of(y_up_of(y_up_of(s, n), n), n), n) == s,
{
    lemma_y_up_twice(s, n);
    let t = y_up_of(y_up_of(s, n), n);
    lemma_y_up_twice(t, n);
    assert forall|i: int| 0 <= i < s.len() implies y_up_of(y_up_of(t, n), n)[i] == s[i] by {
        lemma_neg_neg(s[i]);
    }
    assert(y_up_of(y_up_of(t, n), n) =~= s);
}

} // verus!
