//! Splits faces into triangles.
use vstd::prelude::*;
use crate::mesh::{BlenderMesh, lemma_run_start_step, lemma_run_within, run_start, total};

verus! {

/// The triangles of one face: a triangle as it is, a quad `v0 v1 v2 v3` split along
/// its `v0`-`v2` diagonal into `(v0, v1, v2)` and `(v0, v2, v3)`.
pub open spec fn face_triangles(f: Seq<u16>) -> Seq<u16> {
    if f.len() == 3 {
        f
    } else {
        seq![f[0], f[1], f[2], f[0], f[2], f[3]]
    }
}

/// The triangle list of the faces of arities `arities` whose corners are `indices`.
pub open spec fn triangulated(indices: Seq<u16>, arities: Seq<u8>) -> Seq<u16>
    decreases arities.len(),
{
    if arities.len() == 0 {
        Seq::empty()
    } else {
        let start = indices.len() - arities.last();
        triangulated(indices.take(start), arities.drop_last()) + face_triangles(indices.skip(start))
    }
}

/// The number of triangles that faces of arities `arities` make.
pub open spec fn triangle_count(arities: Seq<u8>) -> int
    decreases arities.len(),
{
    if arities.len() == 0 {
        0
    } else {
        triangle_count(arities.drop_last()) + arities.last() - 2
    }
}

/// Every face is a triangle or a quad.
pub open spec fn supported_faces(arities: Seq<u8>) -> bool {
    forall|i: int| 0 <= i < arities.len() ==> #[trigger] arities[i] == 3 || arities[i] == 4
}

impl BlenderMesh {
    /// Turns every face into triangles: a triangle is kept, a quad `v0 v1 v2 v3` becomes
    /// `(v0, v1, v2)` and `(v0, v2, v3)`. Only the position indices and face arities
    /// change; other index streams are the caller's to keep in step.
    pub fn triangulate(&mut self)
        requires
            supported_faces(old(self).num_vertices_in_each_face@),
            total(old(self).num_vertices_in_each_face@) == old(self).vertex_position_indices@.len(),
        ensures
            final(self).vertex_position_indices@ == triangulated(
                old(self).vertex_position_indices@,
                old(self).num_vertices_in_each_face@,
            ),
            final(self).num_vertices_in_each_face@ == Seq::new(
                triangle_count(old(self).num_vertices_in_each_face@) as nat,
                |i: int| 3u8,
            ),
            final(self).vertex_positions == old(self).vertex_positions,
            final(self).vertex_normals == old(self).vertex_normals,
            final(self).vertex_normal_indices == old(self).vertex_normal_indices,
            final(self).vertex_uvs == old(self).vertex_uvs,
            final(self).vertex_uv_indices == old(self).vertex_uv_indices,
            final(self).texture_name == old(self).texture_name,
            final(self).armature_name == old(self).armature_name,
            final(self).vertex_group_indices == old(self).vertex_group_indices,
            final(self).vertex_group_weights == old(self).vertex_group_weights,
            final(self).num_groups_for_each_vertex == old(self).num_groups_for_each_vertex,
    {
        let ghost idx = self.vertex_position_indices@;
        let ghost ar = self.num_vertices_in_each_face@;
        let mut triangulated_indices: Vec<u16> = Vec::new();
        let mut triangle_arities: Vec<u8> = Vec::new();
        let mut face_pointer: usize = 0;
        let mut f: usize = 0;
        let faces = self.num_vertices_in_each_face.len();
        let len = self.vertex_position_indices.len();
        assert(ar.take(0) =~= Seq::<u8>::empty());
        assert(idx.take(0) =~= Seq::<u16>::empty());
        while f < faces
            invariant
                f <= faces == ar.len(),
                len == idx.len() == total(ar),
                idx == self.vertex_position_indices@,
                ar == self.num_vertices_in_each_face@,
                supported_faces(ar),
                face_pointer == run_start(ar, f as int),
                triangulated_indices@ == triangulated(idx.take(face_pointer as int), ar.take(f as int)),
                triangle_arities@ == Seq::new(triangle_count(ar.take(f as int)) as nat, |i: int| 3u8),
                triangle_count(ar.take(f as int)) >= 0,
            decreases faces - f,
        {
            proof {
                lemma_run_within(ar, f as int);
                lemma_run_start_step(ar, f as int);
            }
            let n = self.num_vertices_in_each_face[f];
            let fp = face_pointer;
            let ghost next = (fp + n) as int;
            let ghost face = idx.subrange(fp as int, next);
            proof {
                let t = idx.take(next);
                assert(ar.take(f + 1).drop_last() =~= ar.take(f as int));
                assert(ar.take(f + 1).last() == n);
                assert(t.take(fp as int) =~= idx.take(fp as int));
                assert(t.skip(fp as int) =~= face);
            }
            triangulated_indices.push(self.vertex_position_indices[fp]);
            triangulated_indices.push(self.vertex_position_indices[fp + 1]);
            triangulated_indices.push(self.vertex_position_indices[fp + 2]);
            triangle_arities.push(3);
            if n == 4 {
                triangulated_indices.push(self.vertex_position_indices[fp]);
                triangulated_indices.push(self.vertex_position_indices[fp + 2]);
                triangulated_indices.push(self.vertex_position_indices[fp + 3]);
                triangle_arities.push(3);
            }
            assert(triangulated_indices@ =~= triangulated(idx.take(fp as int), ar.take(f as int))
                + face_triangles(face));
            assert(triangle_arities@ =~= Seq::new(triangle_count(ar.take(f + 1)) as nat, |i: int| 3u8));
            face_pointer = fp + n as usize;
            f += 1;
        }
        assert(ar.take(faces as int) =~= ar);
        assert(idx.take(len as int) =~= idx);
        self.vertex_position_indices = triangulated_indices;
        self.num_vertices_in_each_face = triangle_arities;
    }
}

/// Triangulation yields three indices per triangle, and each face makes `arity - 2`
/// triangles: one for a triangle, two for a quad.
pub proof fn lemma_triangulated_len(indices: Seq<u16>, arities: Seq<u8>)
    requires
        supported_faces(arities),
        total(arities) == indices.len(),
    ensures
        triangulated(indices, arities).len() == 3 * triangle_count(arities),
        triangle_count(arities) >= 0,
    decreases arities.len(),
{
    if arities.len() > 0 {
        let start = indices.len() - arities.last();
        let a = arities.drop_last();
        assert(arities.take(arities.len() - 1) =~= a);
        lemma_run_within(arities, arities.len() - 1);
        assert(arities[arities.len() - 1] == 3 || arities[arities.len() - 1] == 4);
        assert(supported_faces(a)) by {
            assert forall|i: int| 0 <= i < a.len() implies #[trigger] a[i] == 3 || a[i] == 4 by {
                assert(a[i] == arities[i]);
            }
        }
        lemma_triangulated_len(indices.take(start), a);
    }
}

/// The triangles of the first `j` faces start the triangle list of all faces.
proof fn lemma_triangulated_prefix(indices: Seq<u16>, arities: Seq<u8>, j: int)
    requires
        supported_faces(arities),
        total(arities) == indices.len(),
        0 <= j <= arities.len(),
    ensures
        ({
            let p = triangulated(indices.take(run_start(arities, j)), arities.take(j));
            p.len() <= triangulated(indices, arities).len()
                && triangulated(indices, arities).take(p.len() as int) == p
        }),
    decreases arities.len() - j,
{
    let whole = triangulated(indices, arities);
    if j == arities.len() {
        assert(arities.take(j) =~= arities);
        assert(indices.take(run_start(arities, j)) =~= indices);
        assert(whole.take(whole.len() as int) =~= whole);
    } else {
        lemma_triangulated_prefix(indices, arities, j + 1);
        lemma_run_within(arities, j);
        lemma_run_start_step(arities, j);
        let s1 = run_start(arities, j + 1);
        let t = indices.take(s1);
        assert(arities.take(j + 1).drop_last() =~= arities.take(j));
        assert(t.take(run_start(arities, j)) =~= indices.take(run_start(arities, j)));
        let p = triangulated(indices.take(run_start(arities, j)), arities.take(j));
        let q = triangulated(t, arities.take(j + 1));
        assert(q == p + face_triangles(t.skip(run_start(arities, j))));
        assert(whole.take(p.len() as int) =~= q.take(p.len() as int));
        assert(q.take(p.len() as int) =~= p);
    }
}

/// A quad `v0 v1 v2 v3` always becomes the two triangles `(v0, v1, v2)` and
/// `(v0, v2, v3)`, which share `v0` and `v2`, in its place in the triangle list.
pub proof fn lemma_quad_split(indices: Seq<u16>, arities: Seq<u8>, i: int)
    requires
        supported_faces(arities),
        total(arities) == indices.len(),
        0 <= i < arities.len(),
        arities[i] == 4,
    ensures
        ({
            let o = 3 * triangle_count(arities.take(i));
            let s = run_start(arities, i);
            triangulated(indices, arities).subrange(o, o + 6) == seq![
                indices[s],
                indices[s + 1],
                indices[s + 2],
                indices[s],
                indices[s + 2],
                indices[s + 3],
            ]
        }),
{
    let s = run_start(arities, i);
    lemma_run_within(arities, i);
    lemma_run_start_step(arities, i);
    lemma_triangulated_prefix(indices, arities, i + 1);
    let t = indices.take(s + 4);
    assert(arities.take(i + 1).drop_last() =~= arities.take(i));
    assert(t.take(s) =~= indices.take(s));
    let a = arities.take(i);
    assert(supported_faces(a)) by {
        assert forall|j: int| 0 <= j < a.len() implies #[trigger] a[j] == 3 || a[j] == 4 by {
            assert(a[j] == arities[j]);
        }
    }
    assert(a.take(i) =~= a);
    lemma_total_of_take(arities, i);
    lemma_triangulated_len(indices.take(s), a);
    let p = triangulated(indices.take(s), a);
    let q = triangulated(t, arities.take(i + 1));
    assert(t.skip(s).len() == 4);
    assert(q == p + face_triangles(t.skip(s)));
    let whole = triangulated(indices, arities);
    assert(whole.subrange(3 * triangle_count(a), 3 * triangle_count(a) + 6) =~= q.subrange(p.len() as int, p.len() as int + 6));
}

proof fn lemma_total_of_take(s: Seq<u8>, i: int)
    requires
        0 <= i <= s.len(),
    ensures
        total(s.take(i)) == run_start(s, i),
        s.take(i).len() == i,
{
}

} // verus!
