//! The mesh record and facts about run-length arrays shared by the transforms.
use vstd::prelude::*;

verus! {

/// Something went wrong in the Blender child process that was exporting mesh data.
#[derive(Debug)]
pub enum BlenderError {
    /// What Blender wrote to stderr while exporting meshes from a `.blend` file.
    Stderr(String),
}

impl BlenderError {
    /// The message that describes this error.
    pub fn message(&self) -> (r: String)
        ensures
            r@ == match self {
                BlenderError::Stderr(s) => s@,
            },
    {
        match self {
            BlenderError::Stderr(s) => s.clone(),
        }
    }
}

/// All of the data about a Blender mesh. Every float is held as its IEEE-754 bit pattern.
#[derive(Debug, PartialEq, Default)]
pub struct BlenderMesh {
    /// Three values per position: `[v1x, v1y, v1z, v2x, v2y, v2z, ...]`.
    pub vertex_positions: Vec<u32>,
    /// One index into the positions for each corner of each face.
    pub vertex_position_indices: Vec<u16>,
    /// How many corners each face has.
    pub num_vertices_in_each_face: Vec<u8>,
    /// Three values per normal.
    pub vertex_normals: Vec<u32>,
    /// One index into the normals per face corner; without it normals follow the
    /// position indices.
    pub vertex_normal_indices: Option<Vec<u16>>,
    /// Two values per uv coordinate: `[v1s, v1t, v2s, v2t, ...]`.
    pub vertex_uvs: Option<Vec<u32>>,
    /// One index into the uvs per face corner; without it uvs follow the position indices.
    pub vertex_uv_indices: Option<Vec<u16>>,
    pub texture_name: Option<String>,
    pub armature_name: Option<String>,
    /// The joints that influence each vertex, vertex after vertex.
    pub vertex_group_indices: Option<Vec<u8>>,
    /// The weight of each influence in `vertex_group_indices`.
    pub vertex_group_weights: Option<Vec<u32>>,
    /// How many influences each vertex has.
    pub num_groups_for_each_vertex: Option<Vec<u8>>,
}

/// The sum of the entries.
pub open spec fn total(s: Seq<u8>) -> int
    decreases s.len(),
{
    if s.len() == 0 {
        0
    } else {
        total(s.drop_last()) + s.last()
    }
}

/// Where the run of entry `q` starts in an array segmented by the run lengths `counts`.
pub open spec fn run_start(counts: Seq<u8>, q: int) -> int {
    total(counts.take(q))
}

/// The concatenation of `data[start .. start + len]` for each `(start, len)` of `runs`.
pub open spec fn gathered<T>(data: Seq<T>, runs: Seq<(int, int)>) -> Seq<T>
    decreases runs.len(),
{
    if runs.len() == 0 {
        Seq::empty()
    } else {
        let r = runs.last();
        gathered(data, runs.drop_last()) + data.subrange(r.0, r.0 + r.1)
    }
}

pub proof fn lemma_total_nonneg(s: Seq<u8>)
    ensures
        total(s) >= 0,
    decreases s.len(),
{
    if s.len() > 0 {
        lemma_total_nonneg(s.drop_last());
    }
}

pub proof fn lemma_run_start_step(s: Seq<u8>, q: int)
    requires
        0 <= q < s.len(),
    ensures
        run_start(s, q + 1) == run_start(s, q) + s[q],
{
    assert(s.take(q + 1).drop_last() =~= s.take(q));
}

/// A run lies inside the segmented array.
pub proof fn lemma_run_within(s: Seq<u8>, q: int)
    requires
        0 <= q < s.len(),
    ensures
        0 <= run_start(s, q),
        run_start(s, q) + s[q] <= total(s),
    decreases s.len() - q,
{
    lemma_total_nonneg(s.take(q));
    lemma_run_start_step(s, q);
    if q + 1 < s.len() {
        lemma_run_within(s, q + 1);
    } else {
        assert(s.take(q + 1) =~= s);
    }
}

/// Appends `data[start .. start + len]` to `out`.
pub(crate) fn append_run<T: Copy>(out: &mut Vec<T>, data: &Vec<T>, start: usize, len: usize)
    requires
        start + len <= data@.len(),
    ensures
        final(out)@ == old(out)@ + data@.subrange(start as int, start + len),
{
    let ghost before = out@;
    let n = data.len();
    let mut k: usize = 0;
    while k < len
        invariant
            k <= len,
            start + len <= n == data@.len(),
            out@ == before + data@.subrange(start as int, start + k),
        decreases len - k,
    {
        out.push(data[start + k]);
        k += 1;
        assert(out@ =~= before + data@.subrange(start as int, start + k));
    }
}

/// The start of each run of an array segmented by the run lengths `counts`.
pub(crate) fn run_starts(counts: &Vec<u8>) -> (r: Vec<usize>)
    requires
        total(counts@) <= usize::MAX,
    ensures
        r@.len() == counts@.len(),
        forall|q: int| 0 <= q < counts@.len() ==> r@[q] == run_start(counts@, q),
{
    let mut r: Vec<usize> = Vec::new();
    let mut acc: usize = 0;
    let mut q: usize = 0;
    assert(counts@.take(0) =~= Seq::<u8>::empty());
    while q < counts.len()
        invariant
            q <= counts@.len(),
            r@.len() == q,
            acc == run_start(counts@, q as int),
            total(counts@) <= usize::MAX,
            forall|j: int| 0 <= j < q ==> r@[j] == run_start(counts@, j),
        decreases counts@.len() - q,
    {
        proof {
            lemma_run_within(counts@, q as int);
            lemma_run_start_step(counts@, q as int);
        }
        r.push(acc);
        acc = acc + counts[q] as usize;
        q += 1;
    }
    r
}

} // verus!
