//! Fixed-stride buffers of per-vertex data.
use vstd::prelude::*;
use vstd::slice::slice_subrange;

verus! {

/// Data for one vertex attribute such as positions, normals or uvs.
///
/// `data` holds `attribute_size` values per entry, so `[0, 10, 2, 65, 4, 5]` with an
/// attribute size of three holds two entries, `(0, 10, 2)` and `(65, 4, 5)`. Entries are
/// addressed by an index stream: two vertices of a mesh may share one entry.
#[derive(Debug, PartialEq, Default)]
pub struct VertexAttribute<T> {
    pub(crate) data: Vec<T>,
    pub(crate) attribute_size: u8,
}

impl<T> VertexAttribute<T> {
    /// All of the values held, entry after entry.
    pub closed spec fn values(&self) -> Seq<T> {
        self.data@
    }

    /// The number of values per entry.
    pub closed spec fn stride(&self) -> nat {
        self.attribute_size as nat
    }

    /// The stride is positive and the data holds a whole number of entries.
    pub open spec fn well_formed(&self) -> bool {
        self.stride() > 0 && self.values().len() % self.stride() == 0
    }

    /// The number of entries held.
    pub open spec fn entry_count(&self) -> int {
        self.values().len() as int / (self.stride() as int)
    }

    /// The values of entry `i`.
    pub open spec fn entry(&self, i: int) -> Seq<T> {
        self.values().subrange(i * self.stride(), (i + 1) * self.stride())
    }

    /// Wraps `data` as entries of `attribute_size` values each. Fails when the stride is
    /// zero or the data does not split into whole entries.
    pub fn new(data: Vec<T>, attribute_size: u8) -> (r: Result<VertexAttribute<T>, ()>)
        ensures
            match r {
                Ok(a) => a.values() == data@ && a.stride() == attribute_size && a.well_formed(),
                Err(()) => !(attribute_size > 0 && data@.len() % (attribute_size as nat) == 0),
            },
    {
        if attribute_size == 0 || data.len() % (attribute_size as usize) != 0 {
            return Err(());
        }
        Ok(VertexAttribute { data, attribute_size })
    }

    /// All of the values, entry after entry.
    pub fn as_slice(&self) -> (r: &[T])
        ensures
            r@ == self.values(),
    {
        self.data.as_slice()
    }

    /// The number of values per entry.
    ///
    /// Positions and normals typically have a size of 3 (x, y, z), uvs a size of 2 (u, v);
    /// bone influences and weights have as many as the application skins with.
    pub fn attribute_size(&self) -> (r: u8)
        ensures
            r == self.stride(),
    {
        self.attribute_size
    }

    /// The underlying data, ready to be buffered onto the GPU.
    pub fn data(&self) -> (r: &Vec<T>)
        ensures
            r@ == self.values(),
    {
        &self.data
    }

    /// The values of the entry at `vertex_idx`.
    pub fn data_at_idx(&self, vertex_idx: u16) -> (r: &[T])
        requires
            (vertex_idx as int + 1) * (self.stride() as int) <= self.values().len(),
        ensures
            r@ == self.entry(vertex_idx as int),
    {
        let attribute_size = self.attribute_size as usize;
        let len = self.data.len();
        proof {
            let v = vertex_idx as int;
            let a = attribute_size as int;
            assert(v * a + a == (v + 1) * a) by (nonlinear_arith);
            assert(0 <= v * a) by (nonlinear_arith)
                requires
                    0 <= v,
                    0 <= a,
            ;
        }
        let idx = (vertex_idx as usize) * attribute_size;
        slice_subrange(self.data.as_slice(), idx, idx + attribute_size)
    }
}

impl<T> std::ops::Deref for VertexAttribute<T> {
    type Target = Vec<T>;

    fn deref(&self) -> (r: &Vec<T>)
        ensures
            r@ == self.values(),
    {
        &self.data
    }
}

/// The bone influences of each vertex, for vertex skinning: joint indices, and weights as
/// float bit patterns, with the same stride.
#[derive(Debug, PartialEq, Default)]
pub struct BoneAttributes {
    pub(crate) bone_influencers: VertexAttribute<u8>,
    pub(crate) bone_weights: VertexAttribute<u32>,
}

} // verus!
