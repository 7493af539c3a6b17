//! Past answers, looked up by exact query and context, or by the similarity
//! of a new query's embedding to past ones.
//!
//! Embeddings and similarities are single-precision floats; they are held
//! here as their IEEE-754 bit patterns (what `f32::to_bits` gives), and
//! compared as IEEE-754 compares the values they stand for.

use vstd::prelude::*;
use crate::keyed::str_eq;

verus! {

/// The similarity above which a past answer is reused: 0.93 as an `f32`.
pub const SIMILARITY_THRESHOLD_BITS: u32 = 0x3f6e147b;

/// One past answer.
#[derive(Clone, Debug, PartialEq, Eq)]
pub struct QueryCache {
    pub query: String,
    /// Digest of the query together with the context it was answered from.
    pub context_hash: String,
    /// The query's embedding, one `f32` bit pattern per component.
    pub embedding: Vec<u32>,
    pub answer: String,
}

/// All past answers, oldest first; never deduplicated or evicted.
#[derive(Clone, Debug, PartialEq, Eq, Default)]
pub struct QueryState {
    pub entries: Vec<QueryCache>,
}

/// The `f32` with these bits is a NaN.
pub open spec fn is_nan_bits(b: u32) -> bool {
    b & 0x7f80_0000u32 == 0x7f80_0000u32 && b & 0x007f_ffffu32 != 0
}

/// The `f32` with these bits is a zero of either sign.
pub open spec fn is_zero_bits(b: u32) -> bool {
    b & 0x7fff_ffffu32 == 0
}

/// An unsigned key that orders `f32` bit patterns as their values are
/// ordered (the order of `f32::total_cmp`).
pub open spec fn order_key(b: u32) -> u32 {
    if b & 0x8000_0000u32 != 0 {
        !b
    } else {
        b | 0x8000_0000u32
    }
}

/// `a > b` on the `f32` values with these bit patterns.
pub open spec fn f32_gt(a: u32, b: u32) -> bool {
    !is_nan_bits(a) && !is_nan_bits(b) && !(is_zero_bits(a) && is_zero_bits(b)) && order_key(a)
        > order_key(b)
}

/// The entry was answered for exactly this query and context.
pub open spec fn entry_matches(e: QueryCache, query: Seq<char>, context_hash: Seq<char>) -> bool {
    e.query@ == query && e.context_hash@ == context_hash
}

/// Entry `i` takes part in a similarity lookup: its embedding has the
/// query's dimension and its similarity lies above the threshold.
pub open spec fn eligible(entries: Seq<QueryCache>, dim: nat, sims: Seq<u32>, threshold: u32, i: int) -> bool {
    0 <= i < entries.len() && i < sims.len() && entries[i].embedding@.len() == dim && f32_gt(
        sims[i],
        threshold,
    )
}

/// Entry `i` is the one a similarity lookup picks: eligible, no eligible
/// entry more similar, and every later eligible entry less similar (the
/// most recent of the equally most similar entries wins).
pub open spec fn best_similar(entries: Seq<QueryCache>, dim: nat, sims: Seq<u32>, threshold: u32, i: int) -> bool {
    &&& eligible(entries, dim, sims, threshold, i)
    &&& forall|j: int| #[trigger]
        eligible(entries, dim, sims, threshold, j) ==> !f32_gt(sims[j], sims[i])
    &&& forall|j: int| #[trigger]
        eligible(entries, dim, sims, threshold, j) && j > i ==> f32_gt(sims[i], sims[j])
}

fn is_nan(b: u32) -> (r: bool)
    ensures
        r == is_nan_bits(b),
{
    b & 0x7f80_0000u32 == 0x7f80_0000u32 && b & 0x007f_ffffu32 != 0
}

fn key(b: u32) -> (r: u32)
    ensures
        r == order_key(b),
{
    if b & 0x8000_0000u32 != 0 {
        !b
    } else {
        b | 0x8000_0000u32
    }
}

/// Whether the `f32` with bits `a` is greater than the one with bits `b`.
pub fn similarity_exceeds(a: u32, b: u32) -> (r: bool)
    ensures
        r == f32_gt(a, b),
{
    !is_nan(a) && !is_nan(b) && !(a & 0x7fff_ffffu32 == 0 && b & 0x7fff_ffffu32 == 0) && key(a)
        > key(b)
}

impl QueryState {
    /// An empty cache.
    pub fn new() -> (r: Self)
        ensures
            r.entries@.len() == 0,
    {
        QueryState { entries: Vec::new() }
    }

    /// The stored answer for exactly this query and context digest: the
    /// first such entry's, if there is one.
    pub fn get_cached_answer(&self, query: &str, context_hash: &str) -> (r: Option<String>)
        ensures
            match r {
                Some(a) => exists|i: int|
                    0 <= i < self.entries@.len() && entry_matches(
                        #[trigger] self.entries@[i],
                        query@,
                        context_hash@,
                    ) && a@ == self.entries@[i].answer@ && forall|j: int|
                        0 <= j < i ==> !entry_matches(self.entries@[j], query@, context_hash@),
                None => forall|i: int|
                    0 <= i < self.entries@.len() ==> !entry_matches(
                        #[trigger] self.entries@[i],
                        query@,
                        context_hash@,
                    ),
            },
    {
        let mut i: usize = 0;
        while i < self.entries.len()
            invariant
                i <= self.entries@.len(),
                forall|j: int|
                    0 <= j < i ==> !entry_matches(#[trigger] self.entries@[j], query@, context_hash@),
            decreases self.entries@.len() - i,
        {
            let e = &self.entries[i];
            if str_eq(e.query.as_str(), query) && str_eq(e.context_hash.as_str(), context_hash) {
                return Some(e.answer.clone());
            }
            i = i + 1;
        }
        None
    }

    /// Appends an answer; nothing is replaced or removed.
    pub fn insert_answer(&mut self, query: String, context_hash: String, embedding: Vec<u32>, answer: String)
        ensures
            final(self).entries@ == old(self).entries@.push(
                QueryCache { query, context_hash, embedding, answer },
            ),
    {
        self.entries.push(QueryCache { query, context_hash, embedding, answer });
    }

    /// The answer of the past query most similar to this one, if its
    /// similarity exceeds `threshold`. `similarities[i]` is the cosine
    /// similarity of entry `i`'s embedding to `query_embedding`; entries of
    /// another dimension, or without a similarity, take no part. Among equally
    /// similar entries the most recent wins.
    pub fn find_similar(&self, query_embedding: &Vec<u32>, similarities: &Vec<u32>, threshold: u32) -> (r: Option<String>)
        ensures
            match r {
                Some(a) => exists|i: int|
                    best_similar(self.entries@, query_embedding@.len(), similarities@, threshold, i)
                        && a@ == self.entries@[i].answer@,
                None => forall|i: int|
                    !eligible(self.entries@, query_embedding@.len(), similarities@, threshold, i),
            },
    {
        let ghost es = self.entries@;
        let ghost dim = query_embedding@.len();
        let dimension = query_embedding.len();
        let mut best: Option<usize> = None;
        let mut i: usize = 0;
        while i < self.entries.len()
            invariant
                es == self.entries@,
                dim == dimension,
                dim == query_embedding@.len(),
                i <= es.len(),
                match best {
                    Some(b) => b < i && eligible(es, dim, similarities@, threshold, b as int)
                        && (forall|j: int|
                        #![trigger eligible(es, dim, similarities@, threshold, j)]
                        0 <= j < i && eligible(es, dim, similarities@, threshold, j) ==> !f32_gt(
                            similarities@[j],
                            similarities@[b as int],
                        )) && (forall|j: int|
                        #![trigger eligible(es, dim, similarities@, threshold, j)]
                        b < j < i && eligible(es, dim, similarities@, threshold, j) ==> f32_gt(
                            similarities@[b as int],
                            similarities@[j],
                        )),
                    None => forall|j: int|
                        0 <= j < i ==> !eligible(es, dim, similarities@, threshold, j),
                },
            decreases es.len() - i,
        {
            if i < similarities.len() && self.entries[i].embedding.len() == dimension
                && similarity_exceeds(similarities[i], threshold) {
                match best {
                    None => {
                        best = Some(i);
                    },
                    Some(b) => {
                        if !similarity_exceeds(similarities[b], similarities[i]) {
                            proof {
                                let sv = similarities@;
                                assert forall|j: int|
                                    #![trigger eligible(es, dim, sv, threshold, j)]
                                    0 <= j < i && eligible(es, dim, sv, threshold, j) implies !f32_gt(
                                    sv[j],
                                    sv[i as int],
                                ) by {
                                    lemma_not_gt_trans(sv[j], sv[b as int], sv[i as int]);
                                }
                            }
                            best = Some(i);
                        }
                    },
                }
            }
            i = i + 1;
        }
        match best {
            Some(b) => {
                assert forall|j: int| #[trigger]
                    eligible(es, dim, similarities@, threshold, j) && j > b implies f32_gt(
                    similarities@[b as int],
                    similarities@[j],
                ) by {}
                assert(best_similar(es, dim, similarities@, threshold, b as int));
                Some(self.entries[b].answer.clone())
            },
            None => None,
        }
    }
}

/// The zeros are exactly the bit patterns with the two middle keys.
proof fn lemma_zero_keys(x: u32)
    ensures
        is_zero_bits(x) <==> (order_key(x) == 0x7fff_ffffu32 || order_key(x) == 0x8000_0000u32),
{
    assert((x & 0x7fff_ffffu32 == 0) <==> ((if x & 0x8000_0000u32 != 0 {
        !x
    } else {
        x | 0x8000_0000u32
    }) == 0x7fff_ffffu32 || (if x & 0x8000_0000u32 != 0 {
        !x
    } else {
        x | 0x8000_0000u32
    }) == 0x8000_0000u32)) by (bit_vector);
}

/// On numbers, "not greater than" is transitive.
proof fn lemma_not_gt_trans(x: u32, y: u32, z: u32)
    requires
        !is_nan_bits(x),
        !is_nan_bits(y),
        !is_nan_bits(z),
        !f32_gt(x, y),
        !f32_gt(y, z),
    ensures
        !f32_gt(x, z),
{
    lemma_zero_keys(x);
    lemma_zero_keys(y);
    lemma_zero_keys(z);
}

} // verus!
