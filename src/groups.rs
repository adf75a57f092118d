//! Gives every vertex the same number of bone influences.
use vstd::prelude::*;
use crate::float_bits::{is_nan_bits, is_non_negative_bits, less_than, rank};
use crate::mesh::{BlenderMesh, lemma_run_within, run_start, total};

verus! {

/// A bone influence: a joint index and its weight (a float bit pattern).
pub type Influence = (u8, u32);

/// Inserts `x` into `s` after every entry whose weight is at least that of `x`.
pub open spec fn insert_by_weight(s: Seq<Influence>, x: Influence) -> Seq<Influence>
    decreases s.len(),
{
    if s.len() == 0 {
        seq![x]
    } else if rank(s.last().1) >= rank(x.1) {
        s.push(x)
    } else {
        insert_by_weight(s.drop_last(), x).push(s.last())
    }
}

/// `s` sorted by weight, heaviest first; influences of equal weight keep their order.
pub open spec fn sorted_by_weight(s: Seq<Influence>) -> Seq<Influence>
    decreases s.len(),
{
    if s.len() == 0 {
        Seq::empty()
    } else {
        insert_by_weight(sorted_by_weight(s.drop_last()), s.last())
    }
}

/// The first `k` entries of `s`, padded with joint 0 at weight `0.0` where `s` is shorter.
pub open spec fn fit_to(s: Seq<Influence>, k: nat) -> Seq<Influence> {
    if s.len() >= k {
        s.take(k as int)
    } else {
        s + Seq::new((k - s.len()) as nat, |i: int| (0u8, 0u32))
    }
}

/// The influences of vertex `v`.
pub open spec fn vertex_influences(
    indices: Seq<u8>,
    weights: Seq<u32>,
    counts: Seq<u8>,
    v: int,
) -> Seq<Influence> {
    Seq::new(
        counts[v] as nat,
        |j: int| (indices[run_start(counts, v) + j], weights[run_start(counts, v) + j]),
    )
}

/// The `k` influences that vertex `v` keeps: its heaviest, padded with empty ones.
pub open spec fn normalized_influences(
    indices: Seq<u8>,
    weights: Seq<u32>,
    counts: Seq<u8>,
    v: int,
    k: nat,
) -> Seq<Influence> {
    fit_to(sorted_by_weight(vertex_influences(indices, weights, counts, v)), k)
}

/// The kept influences of the first `n` vertices, vertex after vertex.
pub open spec fn normalized_prefix(
    indices: Seq<u8>,
    weights: Seq<u32>,
    counts: Seq<u8>,
    k: nat,
    n: int,
) -> Seq<Influence>
    decreases n,
{
    if n <= 0 {
        Seq::empty()
    } else {
        normalized_prefix(indices, weights, counts, k, n - 1) + normalized_influences(
            indices,
            weights,
            counts,
            n - 1,
            k,
        )
    }
}

/// Inserts `x` into `sorted` as `insert_by_weight` does.
fn insert_influence(sorted: &mut Vec<Influence>, x: Influence)
    requires
        forall|t: int| 0 <= t < old(sorted)@.len() ==> !is_nan_bits(#[trigger] old(sorted)@[t].1),
        !is_nan_bits(x.1),
    ensures
        final(sorted)@ == insert_by_weight(old(sorted)@, x),
{
    let ghost s = sorted@;
    let mut j: usize = sorted.len();
    let mut go = j > 0 && less_than(sorted[j - 1].1, x.1);
    assert(s.skip(j as int) =~= Seq::<Influence>::empty());
    assert(s.take(j as int) =~= s);
    while go
        invariant
            sorted@ == s,
            j <= s.len(),
            forall|t: int| 0 <= t < s.len() ==> !is_nan_bits(#[trigger] s[t].1),
            !is_nan_bits(x.1),
            go ==> j > 0 && rank(s[j - 1].1) < rank(x.1),
            !go ==> j == 0 || rank(s[j - 1].1) >= rank(x.1),
            insert_by_weight(s, x) == insert_by_weight(s.take(j as int), x) + s.skip(j as int),
        decreases j,
    {
        proof {
            let t = s.take(j as int);
            assert(t.drop_last() =~= s.take(j - 1));
            assert(t.last() == s[j - 1]);
            assert(s.skip(j - 1) =~= seq![s[j - 1]] + s.skip(j as int));
            assert(insert_by_weight(t, x) == insert_by_weight(s.take(j - 1), x).push(s[j - 1]));
            assert(insert_by_weight(s.take(j - 1), x).push(s[j - 1]) + s.skip(j as int)
                =~= insert_by_weight(s.take(j - 1), x) + s.skip(j - 1));
        }
        j = j - 1;
        go = j > 0 && less_than(sorted[j - 1].1, x.1);
    }
    proof {
        let t = s.take(j as int);
        if j > 0 {
            assert(t.last() == s[j - 1]);
        }
        assert(insert_by_weight(t, x) =~= t.push(x));
        assert(s.insert(j as int, x) =~= t.push(x) + s.skip(j as int));
    }
    sorted.insert(j, x);
}

impl BlenderMesh {
    /// The bone group arrays agree: all present, one count per vertex whose sum is the
    /// length of the joint and weight arrays, and no weight is a NaN.
    pub open spec fn has_consistent_groups(&self) -> bool {
        &&& self.has_groups()
        &&& total(self.group_counts()) == self.vertex_group_indices->Some_0@.len()
        &&& total(self.group_counts()) == self.vertex_group_weights->Some_0@.len()
        &&& forall|t: int|
            0 <= t < self.vertex_group_weights->Some_0@.len() ==> !is_nan_bits(
                #[trigger] self.vertex_group_weights->Some_0@[t],
            )
    }

    /// Gives every vertex exactly `count` bone influences.
    ///
    /// A vertex's influences are sorted by weight, heaviest first (influences of equal
    /// weight keep their order); the heaviest `count` are kept, and a vertex with fewer is
    /// padded with joint 0 at weight `0.0`. Every vertex then has `count` influences.
    pub fn set_groups_per_vertex(&mut self, count: u8)
        requires
            old(self).has_consistent_groups(),
            old(self).group_counts().len() * count <= usize::MAX,
        ensures
            final(self).has_groups(),
            final(self).group_counts() == Seq::new(
                old(self).group_counts().len(),
                |v: int| count,
            ),
            ({
                let kept = normalized_prefix(
                    old(self).vertex_group_indices->Some_0@,
                    old(self).vertex_group_weights->Some_0@,
                    old(self).group_counts(),
                    count as nat,
                    old(self).group_counts().len() as int,
                );
                &&& final(self).vertex_group_indices->Some_0@ == kept.map_values(
                    |p: Influence| p.0,
                )
                &&& final(self).vertex_group_weights->Some_0@ == kept.map_values(
                    |p: Influence| p.1,
                )
            }),
            final(self).vertex_group_indices->Some_0@.len() == old(self).group_counts().len()
                * count,
            final(self).vertex_group_weights->Some_0@.len() == old(self).group_counts().len()
                * count,
            final(self).vertex_positions == old(self).vertex_positions,
            final(self).vertex_position_indices == old(self).vertex_position_indices,
            final(self).num_vertices_in_each_face == old(self).num_vertices_in_each_face,
            final(self).vertex_normals == old(self).vertex_normals,
            final(self).vertex_normal_indices == old(self).vertex_normal_indices,
            final(self).vertex_uvs == old(self).vertex_uvs,
            final(self).vertex_uv_indices == old(self).vertex_uv_indices,
            final(self).texture_name == old(self).texture_name,
            final(self).armature_name == old(self).armature_name,
    {
        let ghost old_self = *self;
        let mut new_indices: Vec<u8> = Vec::new();
        let mut new_weights: Vec<u32> = Vec::new();
        let mut new_counts: Vec<u8> = Vec::new();
        match (&self.vertex_group_indices, &self.vertex_group_weights, &self.num_groups_for_each_vertex) {
            (Some(indices), Some(weights), Some(counts)) => {
                let ghost k = count as nat;
                let n = counts.len();
                let mut start: usize = 0;
                let mut v: usize = 0;
                let ghost mut kept: Seq<Influence> = Seq::empty();
                let glen = indices.len();
                while v < n
                    invariant
                        v <= n == counts@.len(),
                        k == count as nat,
                        glen == indices@.len() == weights@.len() == total(counts@),
                        forall|t: int| 0 <= t < weights@.len() ==> !is_nan_bits(#[trigger] weights@[t]),
                        start == run_start(counts@, v as int),
                        kept == normalized_prefix(indices@, weights@, counts@, k, v as int),
                        new_indices@ == kept.map_values(|p: Influence| p.0),
                        new_weights@ == kept.map_values(|p: Influence| p.1),
                        new_counts@ == Seq::new(v as nat, |i: int| count),
                    decreases n - v,
                {
                    proof {
                        lemma_run_within(counts@, v as int);
                    }
                    let c = counts[v] as usize;
                    let ghost run = vertex_influences(indices@, weights@, counts@, v as int);
                    let mut sorted: Vec<Influence> = Vec::new();
                    let mut t: usize = 0;
                    assert(run.take(0) =~= Seq::<Influence>::empty());
                    while t < c
                        invariant
                            t <= c == counts@[v as int],
                            start == run_start(counts@, v as int),
                            start + c <= glen == indices@.len() == weights@.len(),
                            forall|q: int| 0 <= q < weights@.len() ==> !is_nan_bits(#[trigger] weights@[q]),
                            run == vertex_influences(indices@, weights@, counts@, v as int),
                            sorted@ == sorted_by_weight(run.take(t as int)),
                            forall|q: int| 0 <= q < sorted@.len() ==> !is_nan_bits(#[trigger] sorted@[q].1),
                        decreases c - t,
                    {
                        let x: Influence = (indices[start + t], weights[start + t]);
                        assert(run.take(t + 1).drop_last() =~= run.take(t as int));
                        assert(x == run[t as int]);
                        insert_influence(&mut sorted, x);
                        proof {
                            lemma_insert_elements(sorted_by_weight(run.take(t as int)), x);
                        }
                        t += 1;
                    }
                    assert(run.take(c as int) =~= run);
                    let ghost block = normalized_influences(indices@, weights@, counts@, v as int, k);
                    let mut j: usize = 0;
                    let ghost before_i = new_indices@;
                    let ghost before_w = new_weights@;
                    assert(new_indices@ =~= before_i + block.take(0).map_values(|p: Influence| p.0));
                    assert(new_weights@ =~= before_w + block.take(0).map_values(|p: Influence| p.1));
                    while j < count as usize
                        invariant
                            j <= count,
                            sorted@ == sorted_by_weight(run),
                            block == fit_to(sorted@, k),
                            k == count,
                            new_indices@ == before_i + block.take(j as int).map_values(|p: Influence| p.0),
                            new_weights@ == before_w + block.take(j as int).map_values(|p: Influence| p.1),
                        decreases count - j,
                    {
                        let p: Influence = if j < sorted.len() {
                            sorted[j]
                        } else {
                            (0u8, 0u32)
                        };
                        assert(p == block[j as int]);
                        new_indices.push(p.0);
                        new_weights.push(p.1);
                        j += 1;
                        assert(block.take(j as int).map_values(|p: Influence| p.0) =~= block.take(j - 1).map_values(|p: Influence| p.0).push(p.0));
                        assert(block.take(j as int).map_values(|p: Influence| p.1) =~= block.take(j - 1).map_values(|p: Influence| p.1).push(p.1));
                    }
                    proof {
                        assert(block.len() == k);
                        assert(block.take(k as int) =~= block);
                        let nk = kept + block;
                        assert(nk.map_values(|p: Influence| p.0) =~= kept.map_values(|p: Influence| p.0) + block.map_values(|p: Influence| p.0));
                        assert(nk.map_values(|p: Influence| p.1) =~= kept.map_values(|p: Influence| p.1) + block.map_values(|p: Influence| p.1));
                        kept = nk;
                        crate::mesh::lemma_run_start_step(counts@, v as int);
                    }
                    new_counts.push(count);
                    assert(new_counts@ =~= Seq::new((v + 1) as nat, |i: int| count));
                    start = start + c;
                    v += 1;
                }
            },
            _ => {},
        }
        proof {
            let c = old(self).group_counts();
            lemma_normalized_layout(
                old(self).vertex_group_indices->Some_0@,
                old(self).vertex_group_weights->Some_0@,
                c,
                count as nat,
                c.len() as int,
            );
        }
        self.vertex_group_indices = Some(new_indices);
        self.vertex_group_weights = Some(new_weights);
        self.num_groups_for_each_vertex = Some(new_counts);
    }
}

/// Inserting keeps every entry and adds `x`, so no NaN weight comes in.
proof fn lemma_insert_elements(s: Seq<Influence>, x: Influence)
    ensures
        insert_by_weight(s, x).len() == s.len() + 1,
        forall|q: int| 0 <= q < insert_by_weight(s, x).len() ==> (#[trigger] insert_by_weight(s, x)[q] == x
            || s.contains(insert_by_weight(s, x)[q])),
    decreases s.len(),
{
    if s.len() > 0 && rank(s.last().1) < rank(x.1) {
        let t = s.drop_last();
        lemma_insert_elements(t, x);
        let r = insert_by_weight(s, x);
        assert forall|q: int| 0 <= q < r.len() implies (#[trigger] r[q] == x || s.contains(r[q])) by {
            if q < r.len() - 1 {
                if insert_by_weight(t, x)[q] != x {
                    let w = choose|w: int| 0 <= w < t.len() && t[w] == insert_by_weight(t, x)[q];
                    assert(s[w] == t[w]);
                }
            } else {
                assert(s[s.len() - 1] == r[q]);
            }
        }
    } else if s.len() > 0 {
        let r = insert_by_weight(s, x);
        assert forall|q: int| 0 <= q < r.len() implies (#[trigger] r[q] == x || s.contains(r[q])) by {
            if q < s.len() {
                assert(s[q] == r[q]);
            }
        }
    }
}

/// The weights of `s` never increase from one entry to the next.
pub open spec fn weights_descending(s: Seq<Influence>) -> bool {
    forall|i: int, j: int| 0 <= i < j < s.len() ==> rank(#[trigger] s[i].1) >= rank(#[trigger] s[j].1)
}

proof fn lemma_insert_sorted(s: Seq<Influence>, x: Influence)
    requires
        weights_descending(s),
    ensures
        weights_descending(insert_by_weight(s, x)),
    decreases s.len(),
{
    if s.len() > 0 {
        let r = insert_by_weight(s, x);
        if rank(s.last().1) >= rank(x.1) {
            assert forall|i: int, j: int| 0 <= i < j < r.len() implies rank(#[trigger] r[i].1) >= rank(#[trigger] r[j].1) by {
                if j == s.len() {
                    if i < s.len() - 1 {
                        assert(rank(s[i].1) >= rank(s[s.len() - 1].1));
                    }
                } else {
                    assert(r[i] == s[i] && r[j] == s[j]);
                }
            }
        } else {
            let t = s.drop_last();
            lemma_insert_sorted(t, x);
            lemma_insert_elements(t, x);
            let it = insert_by_weight(t, x);
            assert forall|i: int, j: int| 0 <= i < j < r.len() implies rank(#[trigger] r[i].1) >= rank(#[trigger] r[j].1) by {
                if j == r.len() - 1 {
                    assert(r[j] == s.last());
                    assert(r[i] == it[i]);
                    if it[i] != x {
                        assert(t.contains(it[i]));
                        let w = choose|w: int| 0 <= w < t.len() && t[w] == it[i];
                        assert(rank(s[w].1) >= rank(s[s.len() - 1].1));
                    }
                } else {
                    assert(r[i] == it[i] && r[j] == it[j]);
                }
            }
        }
    }
}

proof fn lemma_sorted_by_weight(s: Seq<Influence>)
    ensures
        weights_descending(sorted_by_weight(s)),
        sorted_by_weight(s).len() == s.len(),
        forall|q: int| 0 <= q < sorted_by_weight(s).len() ==> s.contains(#[trigger] sorted_by_weight(s)[q]),
    decreases s.len(),
{
    if s.len() > 0 {
        let t = s.drop_last();
        lemma_sorted_by_weight(t);
        lemma_insert_sorted(sorted_by_weight(t), s.last());
        lemma_insert_elements(sorted_by_weight(t), s.last());
        let r = sorted_by_weight(s);
        assert forall|q: int| 0 <= q < r.len() implies s.contains(#[trigger] r[q]) by {
            if r[q] == s.last() {
                assert(s[s.len() - 1] == r[q]);
            } else {
                let w = choose|w: int| 0 <= w < sorted_by_weight(t).len() && sorted_by_weight(t)[w] == r[q];
                let u = choose|u: int| 0 <= u < t.len() && t[u] == sorted_by_weight(t)[w];
                assert(s[u] == r[q]);
            }
        }
    }
}

proof fn lemma_insert_multiset(s: Seq<Influence>, x: Influence)
    ensures
        insert_by_weight(s, x).to_multiset() == s.to_multiset().insert(x),
    decreases s.len(),
{
    broadcast use vstd::seq_lib::group_to_multiset_ensures;

    if s.len() == 0 {
        assert(seq![x] =~= Seq::<Influence>::empty().push(x));
    } else if rank(s.last().1) < rank(x.1) {
        let t = s.drop_last();
        lemma_insert_multiset(t, x);
        assert(s =~= t.push(s.last()));
        assert(insert_by_weight(s, x).to_multiset() =~= s.to_multiset().insert(x));
    }
}

proof fn lemma_sorted_multiset(s: Seq<Influence>)
    ensures
        sorted_by_weight(s).to_multiset() == s.to_multiset(),
    decreases s.len(),
{
    broadcast use vstd::seq_lib::group_to_multiset_ensures;

    if s.len() > 0 {
        let t = s.drop_last();
        lemma_sorted_multiset(t);
        lemma_insert_multiset(sorted_by_weight(t), s.last());
        assert(s =~= t.push(s.last()));
    }
}

/// Each vertex keeps exactly `k` influences: its influences reordered heaviest first,
/// cut after the first `k`, or, where it had fewer than `k`, followed by joint 0 at
/// weight `0.0`. Where no weight is negative, the kept weights run from heaviest to
/// lightest.
pub proof fn lemma_normalized_influences(
    indices: Seq<u8>,
    weights: Seq<u32>,
    counts: Seq<u8>,
    v: int,
    k: nat,
)
    requires
        0 <= v < counts.len(),
        total(counts) == indices.len(),
        total(counts) == weights.len(),
    ensures
        normalized_influences(indices, weights, counts, v, k).len() == k,
        sorted_by_weight(vertex_influences(indices, weights, counts, v)).to_multiset()
            == vertex_influences(indices, weights, counts, v).to_multiset(),
        weights_descending(sorted_by_weight(vertex_influences(indices, weights, counts, v))),
        counts[v] >= k ==> normalized_influences(indices, weights, counts, v, k) == sorted_by_weight(
            vertex_influences(indices, weights, counts, v),
        ).take(k as int),
        forall|j: int|
            counts[v] <= j < k ==> #[trigger] normalized_influences(indices, weights, counts, v, k)[j]
                == (0u8, 0u32),
        (forall|t: int| 0 <= t < weights.len() ==> is_non_negative_bits(#[trigger] weights[t]))
            ==> weights_descending(normalized_influences(indices, weights, counts, v, k)),
{
    let run = vertex_influences(indices, weights, counts, v);
    lemma_sorted_by_weight(run);
    lemma_sorted_multiset(run);
    lemma_run_within(counts, v);
    let sorted = sorted_by_weight(run);
    let r = normalized_influences(indices, weights, counts, v, k);
    if forall|t: int| 0 <= t < weights.len() ==> is_non_negative_bits(#[trigger] weights[t]) {
        assert forall|q: int| 0 <= q < sorted.len() implies rank(#[trigger] sorted[q].1) >= 0 by {
            let u = choose|u: int| 0 <= u < run.len() && run[u] == sorted[q];
            assert(is_non_negative_bits(weights[run_start(counts, v) + u]));
        }
        assert forall|i: int, j: int| 0 <= i < j < r.len() implies rank(#[trigger] r[i].1) >= rank(#[trigger] r[j].1) by {
            if j < sorted.len() {
                assert(r[i] == sorted[i] && r[j] == sorted[j]);
            } else if i < sorted.len() {
                assert(r[i] == sorted[i]);
            }
        }
    }
}

/// The kept influences lie vertex after vertex: the first `n` vertices take `n * k`
/// entries, and the `j`-th influence that vertex `v` keeps stands at `v * k + j`.
pub proof fn lemma_normalized_layout(
    indices: Seq<u8>,
    weights: Seq<u32>,
    counts: Seq<u8>,
    k: nat,
    n: int,
)
    requires
        0 <= n <= counts.len(),
        total(counts) == indices.len(),
        total(counts) == weights.len(),
    ensures
        normalized_prefix(indices, weights, counts, k, n).len() == n * k,
        forall|v: int, j: int|
            0 <= v < n && 0 <= j < k ==> normalized_prefix(indices, weights, counts, k, n)[v * k + j]
                == #[trigger] normalized_influences(indices, weights, counts, v, k)[j],
    decreases n,
{
    if n > 0 {
        lemma_normalized_layout(indices, weights, counts, k, n - 1);
        lemma_normalized_influences(indices, weights, counts, n - 1, k);
        let p = normalized_prefix(indices, weights, counts, k, n - 1);
        let whole = normalized_prefix(indices, weights, counts, k, n);
        assert((n - 1) * k + k == n * k) by (nonlinear_arith);
        assert forall|v: int, j: int| 0 <= v < n && 0 <= j < k implies whole[v * k + j]
            == #[trigger] normalized_influences(indices, weights, counts, v, k)[j] by {
            if v < n - 1 {
                assert(v * k + j < (n - 1) * k) by (nonlinear_arith)
                    requires
                        0 <= v < n - 1,
                        0 <= j < k,
                ;
                assert(0 <= v * k) by (nonlinear_arith)
                    requires
                        0 <= v,
                ;
                assert(whole[v * k + j] == p[v * k + j]);
            } else {
                assert(v * k == (n - 1) * k);
            }
        }
    }
}

} // verus!
