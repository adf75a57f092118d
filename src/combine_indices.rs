//! Collapses the per-attribute index streams of a mesh into one index stream.
use std::collections::HashMap;
use vstd::prelude::*;
use crate::mesh::{BlenderMesh, append_run, gathered, lemma_run_within, run_start, run_starts, total};

verus! {

broadcast use vstd::std_specs::hash::group_hash_axioms;

/// The position, normal and uv index found at one face corner.
pub type CompositeKey = (u16, u16, u16);

/// The distinct entries of `s`, in the order in which each is first met.
pub open spec fn first_seen<K>(s: Seq<K>) -> Seq<K>
    decreases s.len(),
{
    if s.len() == 0 {
        Seq::empty()
    } else {
        let prev = first_seen(s.drop_last());
        if prev.contains(s.last()) {
            prev
        } else {
            prev.push(s.last())
        }
    }
}

/// A number that identifies a composite key.
pub open spec fn key_code(k: CompositeKey) -> int {
    (k.0 as int) * 0x1_0000_0000 + (k.1 as int) * 0x1_0000 + (k.2 as int)
}

proof fn lemma_key_code_injective(a: CompositeKey, b: CompositeKey)
    requires
        key_code(a) == key_code(b),
    ensures
        a == b,
{
}

impl BlenderMesh {
    /// The normal index at face corner `i`.
    pub open spec fn normal_index_at(&self, i: int) -> u16 {
        match self.vertex_normal_indices {
            Some(n) => n@[i],
            None => self.vertex_position_indices@[i],
        }
    }

    /// The uv index at face corner `i`.
    pub open spec fn uv_index_at(&self, i: int) -> u16 {
        match self.vertex_uv_indices {
            Some(u) => u@[i],
            None => self.vertex_position_indices@[i],
        }
    }

    /// The composite key of each face corner, in order.
    pub open spec fn composite_keys(&self) -> Seq<CompositeKey> {
        Seq::new(
            self.vertex_position_indices@.len(),
            |i: int|
                (self.vertex_position_indices@[i], self.normal_index_at(i), self.uv_index_at(i)),
        )
    }

    /// Whether the mesh carries all three bone group arrays.
    pub open spec fn has_groups(&self) -> bool {
        self.vertex_group_indices is Some && self.vertex_group_weights is Some
            && self.num_groups_for_each_vertex is Some
    }

    /// The influence count of each vertex.
    pub open spec fn group_counts(&self) -> Seq<u8> {
        self.num_groups_for_each_vertex->Some_0@
    }

    /// The index streams and attribute arrays agree with one another, so that the index
    /// streams can be unified.
    pub open spec fn can_combine_indices(&self) -> bool {
        let keys = self.composite_keys();
        &&& (self.vertex_normal_indices is Some ==> self.vertex_normal_indices->Some_0@.len()
            == keys.len())
        &&& (self.vertex_uv_indices is Some ==> self.vertex_uvs is Some
            && self.vertex_uv_indices->Some_0@.len() == keys.len())
        &&& first_seen(keys).len() <= 0x1_0000
        &&& forall|i: int|
            0 <= i < keys.len() ==> 3 * (keys[i].0 + 1) <= self.vertex_positions@.len()
        &&& (self.vertex_normals@.len() > 0 ==> forall|i: int|
            0 <= i < keys.len() ==> 3 * (keys[i].1 + 1) <= self.vertex_normals@.len())
        &&& (self.vertex_uvs is Some ==> forall|i: int|
            0 <= i < keys.len() ==> 2 * (keys[i].2 + 1) <= self.vertex_uvs->Some_0@.len())
        &&& (self.vertex_group_indices is Some || self.vertex_group_weights is Some
            || self.num_groups_for_each_vertex is Some ==> self.has_groups())
        &&& (self.has_groups() ==> {
            &&& forall|i: int| 0 <= i < keys.len() ==> keys[i].0 < self.group_counts().len()
            &&& total(self.group_counts()) == self.vertex_group_indices->Some_0@.len()
            &&& total(self.group_counts()) == self.vertex_group_weights->Some_0@.len()
        })
    }

    /// Replaces the position, normal and uv index streams by one index stream that
    /// addresses all of the attributes alike.
    ///
    /// Each distinct composite key (position, normal and uv index of a face corner) gets
    /// the next unified index the first time it is met, starting at zero; the positions,
    /// normals, uvs and bone groups that it addresses are appended to new dense arrays.
    /// Bone groups are looked up by the original position index. The normal and uv index
    /// streams are dropped.
    #[verifier::rlimit(100)]
    pub fn combine_vertex_indices(&mut self)
        requires
            old(self).can_combine_indices(),
        ensures
            ({
                let keys = old(self).composite_keys();
                let uniq = first_seen(keys);
                &&& final(self).vertex_position_indices@.len() == keys.len()
                &&& forall|i: int|
                    0 <= i < keys.len() ==> (#[trigger] final(self).vertex_position_indices@[i] as int)
                        < uniq.len() && uniq[final(self).vertex_position_indices@[i] as int]
                        == keys[i]
                &&& final(self).vertex_normal_indices is None
                &&& final(self).vertex_uv_indices is None
                &&& final(self).num_vertices_in_each_face == old(self).num_vertices_in_each_face
                &&& final(self).texture_name == old(self).texture_name
                &&& final(self).armature_name == old(self).armature_name
                &&& final(self).vertex_uvs is Some == old(self).vertex_uvs is Some
                &&& final(self).has_groups() == old(self).has_groups()
                &&& (!old(self).has_groups() ==> {
                    &&& final(self).vertex_group_indices is None
                    &&& final(self).vertex_group_weights is None
                    &&& final(self).num_groups_for_each_vertex is None
                })
                &&& densified(*old(self), uniq, final(self).vertex_positions@,
                    final(self).vertex_normals@,
                    if final(self).vertex_uvs is Some { final(self).vertex_uvs->Some_0@ } else { Seq::empty() },
                    if final(self).has_groups() { final(self).vertex_group_indices->Some_0@ } else { Seq::empty() },
                    if final(self).has_groups() { final(self).vertex_group_weights->Some_0@ } else { Seq::empty() },
                    if final(self).has_groups() { final(self).group_counts() } else { Seq::empty() })
            }),
    {
        let ghost keys = self.composite_keys();
        let n = self.vertex_position_indices.len();
        let has_normals = self.vertex_normals.len() > 0;
        let has_uvs = self.vertex_uvs.is_some();
        let has_groups = self.vertex_group_indices.is_some() && self.vertex_group_weights.is_some()
            && self.num_groups_for_each_vertex.is_some();
        // the group runs add up to the length of a vector, so their starts fit a usize
        let group_len = match &self.vertex_group_indices {
            Some(g) => g.len(),
            None => 0,
        };
        let starts = match &self.num_groups_for_each_vertex {
            Some(c) => {
                if has_groups {
                    assert(total(c@) == group_len);
                    run_starts(c)
                } else {
                    Vec::new()
                }
            },
            None => Vec::new(),
        };

        let mut codes: HashMap<u64, u16> = HashMap::new();
        let ghost mut uniq: Seq<CompositeKey> = Seq::empty();
        let mut next: usize = 0;
        let mut unified: Vec<u16> = Vec::new();
        let mut d = Dense {
            positions: Vec::new(),
            normals: Vec::new(),
            uvs: Vec::new(),
            g_idx: Vec::new(),
            g_w: Vec::new(),
            counts: Vec::new(),
        };
        proof {
            lemma_densified_empty(*self);
        }

        let mut i: usize = 0;
        assert(keys.take(0) =~= Seq::<CompositeKey>::empty());
        while i < n
            invariant
                i <= n == keys.len(),
                *self == *old(self),
                keys == self.composite_keys(),
                self.can_combine_indices(),
                has_normals == (self.vertex_normals@.len() > 0),
                has_uvs == (self.vertex_uvs is Some),
                has_groups == self.has_groups(),
                has_groups ==> starts@.len() == self.group_counts().len(),
                has_groups ==> forall|q: int|
                    0 <= q < self.group_counts().len() ==> starts@[q] == run_start(
                        self.group_counts(),
                        q,
                    ),
                uniq == first_seen(keys.take(i as int)),
                next == uniq.len(),
                uniq.len() <= first_seen(keys).len(),
                unified@.len() == i,
                forall|j: int|
                    0 <= j < i ==> (#[trigger] unified@[j] as int) < uniq.len() && uniq[unified@[j] as int]
                        == keys[j],
                forall|c: u64|
                    codes@.contains_key(c) ==> (codes@[c] as int) < uniq.len() && key_code(
                        uniq[codes@[c] as int],
                    ) == c as int,
                forall|j: int|
                    0 <= j < uniq.len() ==> codes@.contains_key(key_code(uniq[j]) as u64),
                densified(*self, uniq, d.positions@, d.normals@, d.uvs@, d.g_idx@, d.g_w@, d.counts@),
            decreases n - i,
        {
            let p = self.vertex_position_indices[i];
            let nrm = match &self.vertex_normal_indices {
                Some(v) => v[i],
                None => p,
            };
            let uv = match &self.vertex_uv_indices {
                Some(v) => v[i],
                None => p,
            };
            let ghost key: CompositeKey = (p, nrm, uv);
            assert(key == keys[i as int]);
            assert(keys.take(i + 1).drop_last() =~= keys.take(i as int));
            let code: u64 = (p as u64) * 0x1_0000_0000 + (nrm as u64) * 0x1_0000 + (uv as u64);
            assert(code as int == key_code(key));
            let found: Option<u16> = match codes.get(&code) {
                Some(u) => Some(*u),
                None => None,
            };
            let ghost old_uniq = uniq;
            let ghost old_unified = unified@;
            let u: u16 = match found {
                Some(u) => {
                    assert(codes@.contains_key(code) && codes@[code] == u);
                    proof {
                        lemma_key_code_injective(uniq[u as int], key);
                    }
                    assert(uniq.contains(key));
                    u
                },
                None => {
                    proof {
                        if uniq.contains(key) {
                            let j = uniq.index_of(key);
                            assert(codes@.contains_key(key_code(uniq[j]) as u64));
                        }
                        lemma_first_seen_is_prefix(keys, i as int + 1);
                    }
                    assert(first_seen(keys.take(i + 1)) == uniq.push(key));
                    let u = next as u16;
                    d.add_key(self, p, nrm, uv, &starts, Ghost(uniq));
                    proof {
                        uniq = uniq.push(key);
                    }
                    next = next + 1;
                    codes.insert(code, u);
                    u
                },
            };
            assert(first_seen(keys.take(i + 1)) == uniq);
            assert((u as int) < uniq.len() && uniq[u as int] == key);
            assert(forall|x: int| 0 <= x < old_uniq.len() ==> uniq[x] == old_uniq[x]);
            unified.push(u);
            assert forall|j: int| 0 <= j < i + 1 implies (unified@[j] as int) < uniq.len()
                && uniq[unified@[j] as int] == keys[j] by {
                if j < i {
                    assert(unified@[j] == old_unified[j]);
                    assert(old_uniq[old_unified[j] as int] == keys[j]);
                } else {
                    assert(unified@[j] == u);
                    assert(keys[j] == key);
                }
            }
            i += 1;
        }
        assert(keys.take(n as int) =~= keys);
        assert(uniq == first_seen(keys));
        proof {
            reveal(densified);
        }

        self.vertex_position_indices = unified;
        self.vertex_positions = d.positions;
        self.vertex_normals = d.normals;
        if has_uvs {
            self.vertex_uvs = Some(d.uvs);
        }
        self.vertex_normal_indices = None;
        self.vertex_uv_indices = None;
        if has_groups {
            self.vertex_group_indices = Some(d.g_idx);
            self.vertex_group_weights = Some(d.g_w);
            self.num_groups_for_each_vertex = Some(d.counts);
        }
    }
}

/// Where the position of a key lies in the position array.
pub open spec fn position_run(k: CompositeKey) -> (int, int) {
    (3 * k.0, 3)
}

/// Where the normal of a key lies in the normal array.
pub open spec fn normal_run(k: CompositeKey) -> (int, int) {
    (3 * k.1, 3)
}

/// Where the uv of a key lies in the uv array.
pub open spec fn uv_run(k: CompositeKey) -> (int, int) {
    (2 * k.2, 2)
}

/// Where the bone groups of a key lie in the group arrays.
pub open spec fn group_run(counts: Seq<u8>, k: CompositeKey) -> (int, int) {
    (run_start(counts, k.0 as int), counts[k.0 as int] as int)
}

/// The dense arrays that unification builds for the keys `uniq` of mesh `m`: for each
/// key in turn, the position, normal, uv and bone groups that it addresses. A mesh
/// without normals keeps none, one without uvs or bone groups builds none of those.
#[verifier::opaque]
pub open spec fn densified(
    m: BlenderMesh,
    uniq: Seq<CompositeKey>,
    positions: Seq<u32>,
    normals: Seq<u32>,
    uvs: Seq<u32>,
    group_indices: Seq<u8>,
    group_weights: Seq<u32>,
    group_counts: Seq<u8>,
) -> bool {
    &&& positions == gathered(m.vertex_positions@, uniq.map_values(|k| position_run(k)))
    &&& normals == if m.vertex_normals@.len() > 0 {
        gathered(m.vertex_normals@, uniq.map_values(|k| normal_run(k)))
    } else {
        Seq::empty()
    }
    &&& uvs == if m.vertex_uvs is Some {
        gathered(m.vertex_uvs->Some_0@, uniq.map_values(|k| uv_run(k)))
    } else {
        Seq::empty()
    }
    &&& group_counts == if m.has_groups() {
        uniq.map_values(|k: CompositeKey| m.group_counts()[k.0 as int])
    } else {
        Seq::empty()
    }
    &&& group_indices == if m.has_groups() {
        gathered(m.vertex_group_indices->Some_0@, uniq.map_values(|k| group_run(m.group_counts(), k)))
    } else {
        Seq::empty()
    }
    &&& group_weights == if m.has_groups() {
        gathered(m.vertex_group_weights->Some_0@, uniq.map_values(|k| group_run(m.group_counts(), k)))
    } else {
        Seq::empty()
    }
}

/// The dense arrays under construction.
struct Dense {
    positions: Vec<u32>,
    normals: Vec<u32>,
    uvs: Vec<u32>,
    g_idx: Vec<u8>,
    g_w: Vec<u32>,
    counts: Vec<u8>,
}

proof fn lemma_densified_empty(m: BlenderMesh)
    ensures
        densified(m, Seq::empty(), Seq::empty(), Seq::empty(), Seq::empty(), Seq::empty(), Seq::empty(), Seq::empty()),
{
    reveal(densified);
    let e = Seq::<CompositeKey>::empty();
    assert(e.map_values(|k: CompositeKey| m.group_counts()[k.0 as int]) =~= Seq::<u8>::empty());
    assert(e.map_values(|k| position_run(k)) =~= Seq::empty());
    assert(e.map_values(|k| normal_run(k)) =~= Seq::empty());
    assert(e.map_values(|k| uv_run(k)) =~= Seq::empty());
    assert(e.map_values(|k| group_run(m.group_counts(), k)) =~= Seq::empty());
}

proof fn lemma_gathered_push<T>(data: Seq<T>, runs: Seq<(int, int)>, r: (int, int))
    ensures
        gathered(data, runs.push(r)) == gathered(data, runs) + data.subrange(r.0, r.0 + r.1),
{
    assert(runs.push(r).drop_last() =~= runs);
}

impl Dense {
    /// Appends what `key` addresses in `m` to the dense arrays.
    fn add_key(&mut self, m: &BlenderMesh, p: u16, nrm: u16, uv: u16, starts: &Vec<usize>, Ghost(uniq): Ghost<Seq<CompositeKey>>)
        requires
            densified(*m, uniq, old(self).positions@, old(self).normals@, old(self).uvs@, old(self).g_idx@, old(self).g_w@, old(self).counts@),
            3 * (p + 1) <= m.vertex_positions@.len(),
            m.vertex_normals@.len() > 0 ==> 3 * (nrm + 1) <= m.vertex_normals@.len(),
            m.vertex_uvs is Some ==> 2 * (uv + 1) <= m.vertex_uvs->Some_0@.len(),
            m.has_groups() ==> {
                &&& p < m.group_counts().len()
                &&& total(m.group_counts()) == m.vertex_group_indices->Some_0@.len()
                &&& total(m.group_counts()) == m.vertex_group_weights->Some_0@.len()
                &&& starts@.len() == m.group_counts().len()
                &&& forall|q: int| 0 <= q < m.group_counts().len() ==> starts@[q] == run_start(m.group_counts(), q)
            },
        ensures
            densified(*m, uniq.push((p, nrm, uv)), final(self).positions@, final(self).normals@, final(self).uvs@, final(self).g_idx@, final(self).g_w@, final(self).counts@),
    {
        reveal(densified);
        let ghost key: CompositeKey = (p, nrm, uv);
        let ghost u2 = uniq.push(key);
        assert(u2.map_values(|k| position_run(k)) =~= uniq.map_values(|k| position_run(k)).push(position_run(key)));
        assert(u2.map_values(|k| normal_run(k)) =~= uniq.map_values(|k| normal_run(k)).push(normal_run(key)));
        assert(u2.map_values(|k| uv_run(k)) =~= uniq.map_values(|k| uv_run(k)).push(uv_run(key)));
        proof {
            lemma_gathered_push(m.vertex_positions@, uniq.map_values(|k| position_run(k)), position_run(key));
            lemma_gathered_push(m.vertex_normals@, uniq.map_values(|k| normal_run(k)), normal_run(key));
        }
        append_run(&mut self.positions, &m.vertex_positions, 3 * p as usize, 3);
        if m.vertex_normals.len() > 0 {
            append_run(&mut self.normals, &m.vertex_normals, 3 * nrm as usize, 3);
        }
        match &m.vertex_uvs {
            Some(uvs) => {
                proof {
                    lemma_gathered_push(uvs@, uniq.map_values(|k| uv_run(k)), uv_run(key));
                }
                append_run(&mut self.uvs, uvs, 2 * uv as usize, 2);
            },
            None => {},
        }
        match (&m.vertex_group_indices, &m.vertex_group_weights, &m.num_groups_for_each_vertex) {
            (Some(g_idx), Some(g_w), Some(counts)) => {
                let ghost c = m.group_counts();
                assert(u2.map_values(|k| group_run(c, k)) =~= uniq.map_values(|k| group_run(c, k)).push(group_run(c, key)));
                assert(u2.map_values(|k: CompositeKey| c[k.0 as int]) =~= uniq.map_values(|k: CompositeKey| c[k.0 as int]).push(c[p as int]));
                proof {
                    lemma_run_within(c, p as int);
                    lemma_gathered_push(g_idx@, uniq.map_values(|k| group_run(c, k)), group_run(c, key));
                    lemma_gathered_push(g_w@, uniq.map_values(|k| group_run(c, k)), group_run(c, key));
                }
                let count = counts[p as usize];
                append_run(&mut self.g_idx, g_idx, starts[p as usize], count as usize);
                append_run(&mut self.g_w, g_w, starts[p as usize], count as usize);
                self.counts.push(count);
            },
            _ => {},
        }
    }
}

/// The first-seen entries of `s` hold each entry of `s` exactly once.
pub proof fn lemma_first_seen_distinct<K>(s: Seq<K>)
    ensures
        first_seen(s).no_duplicates(),
        forall|x: K| first_seen(s).contains(x) <==> s.contains(x),
    decreases s.len(),
{
    if s.len() > 0 {
        let t = s.drop_last();
        lemma_first_seen_distinct(t);
        assert forall|x: K| s.contains(x) <==> (t.contains(x) || x == s.last()) by {
            if s.contains(x) {
                let j = choose|j: int| 0 <= j < s.len() && s[j] == x;
                if j < t.len() {
                    assert(t[j] == x);
                }
            }
            if t.contains(x) {
                let j = choose|j: int| 0 <= j < t.len() && t[j] == x;
                assert(s[j] == x);
            }
            if x == s.last() {
                assert(s[s.len() - 1] == x);
            }
        }
        let p = first_seen(t);
        if !p.contains(s.last()) {
            assert forall|x: K| p.push(s.last()).contains(x) <==> (p.contains(x) || x == s.last()) by {
                if p.push(s.last()).contains(x) {
                    let j = choose|j: int| 0 <= j < p.len() + 1 && p.push(s.last())[j] == x;
                    if j < p.len() {
                        assert(p[j] == x);
                    }
                }
                if p.contains(x) {
                    let j = choose|j: int| 0 <= j < p.len() && p[j] == x;
                    assert(p.push(s.last())[j] == x);
                }
                if x == s.last() {
                    assert(p.push(s.last())[p.len() as int] == x);
                }
            }
        }
    }
}

/// Unification keeps one unified index for each distinct composite key: the unified
/// indices are exactly `0 .. D`, where `D` is the number of distinct keys among `keys`.
pub proof fn lemma_unified_index_count(keys: Seq<CompositeKey>, unified: Seq<u16>)
    requires
        unified.len() == keys.len(),
        forall|i: int|
            0 <= i < keys.len() ==> (#[trigger] unified[i] as int) < first_seen(keys).len()
                && first_seen(keys)[unified[i] as int] == keys[i],
    ensures
        first_seen(keys).len() == keys.to_set().len(),
        forall|u: u16| (u as int) < first_seen(keys).len() ==> #[trigger] unified.contains(u),
{
    let uniq = first_seen(keys);
    lemma_first_seen_distinct(keys);
    assert(uniq.to_set() =~= keys.to_set());
    uniq.unique_seq_to_set();
    assert forall|u: u16| (u as int) < uniq.len() implies #[trigger] unified.contains(u) by {
        assert(uniq.contains(uniq[u as int]));
        assert(keys.contains(uniq[u as int]));
        let i = choose|i: int| 0 <= i < keys.len() && keys[i] == uniq[u as int];
        assert(uniq[unified[i] as int] == uniq[u as int]);
        assert(unified[i] == u);
    }
}

/// Unified indices are handed out in first-seen order: a key met for the first time at
/// face corner `i` gets as its index the number of distinct keys met before it, and a
/// key met again gets the index that it got the first time.
pub proof fn lemma_unified_first_seen_order(keys: Seq<CompositeKey>, unified: Seq<u16>, i: int)
    requires
        unified.len() == keys.len(),
        forall|i: int|
            0 <= i < keys.len() ==> (#[trigger] unified[i] as int) < first_seen(keys).len()
                && first_seen(keys)[unified[i] as int] == keys[i],
        0 <= i < keys.len(),
    ensures
        !keys.take(i).contains(keys[i]) ==> unified[i] as int == first_seen(keys.take(i)).len(),
        forall|j: int| 0 <= j < i && keys[j] == keys[i] ==> unified[j] == unified[i],
{
    let uniq = first_seen(keys);
    lemma_first_seen_distinct(keys);
    lemma_first_seen_is_prefix(keys, i + 1);
    assert(keys.take(i + 1).drop_last() =~= keys.take(i));
    lemma_first_seen_distinct(keys.take(i));
    if !keys.take(i).contains(keys[i]) {
        let k = first_seen(keys.take(i)).len() as int;
        assert(keys.take(i + 1).last() == keys[i]);
        assert(!first_seen(keys.take(i)).contains(keys[i]));
        assert(first_seen(keys.take(i + 1)) == first_seen(keys.take(i)).push(keys[i]));
        assert(first_seen(keys.take(i + 1))[k] == keys[i]);
        assert(uniq[k] == keys[i]);
    }
    assert forall|j: int| 0 <= j < i && keys[j] == keys[i] implies unified[j] == unified[i] by {
        assert(uniq[unified[j] as int] == uniq[unified[i] as int]);
    }
}

/// Unification is deterministic: the contract of `combine_vertex_indices` leaves one
/// unified index stream for given composite keys.
pub proof fn lemma_unified_deterministic(keys: Seq<CompositeKey>, a: Seq<u16>, b: Seq<u16>)
    requires
        a.len() == keys.len(),
        b.len() == keys.len(),
        forall|i: int|
            0 <= i < keys.len() ==> (#[trigger] a[i] as int) < first_seen(keys).len()
                && first_seen(keys)[a[i] as int] == keys[i],
        forall|i: int|
            0 <= i < keys.len() ==> (#[trigger] b[i] as int) < first_seen(keys).len()
                && first_seen(keys)[b[i] as int] == keys[i],
    ensures
        a == b,
{
    lemma_first_seen_distinct(keys);
    assert forall|i: int| 0 <= i < keys.len() implies a[i] == b[i] by {
        assert(first_seen(keys)[a[i] as int] == first_seen(keys)[b[i] as int]);
    }
    assert(a =~= b);
}

/// The first-seen entries of a prefix start the first-seen entries of the whole.
proof fn lemma_first_seen_is_prefix<K>(s: Seq<K>, i: int)
    requires
        0 <= i <= s.len(),
    ensures
        first_seen(s.take(i)).len() <= first_seen(s).len(),
        first_seen(s.take(i)) =~= first_seen(s).take(first_seen(s.take(i)).len() as int),
    decreases s.len() - i,
{
    if i < s.len() {
        assert(s.take(i + 1).drop_last() =~= s.take(i));
        lemma_first_seen_is_prefix(s, i + 1);
    } else {
        assert(s.take(i) =~= s);
    }
}

} // verus!
