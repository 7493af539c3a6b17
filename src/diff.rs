//! Change detection between indexing runs: which chunks of a file are new,
//! which are unchanged, and which are stale.

use vstd::prelude::*;
use vstd::string::StrSliceExecFns;
use crate::digest::chunk_digest;
use crate::index_state::{holds_hash, IndexState, IndexedChunk};
use crate::keyed::str_eq;
use crate::text::{all_white_space, is_blank, views};

verus! {

/// Chunks longer than this many characters are not indexed.
pub const MAX_CHUNK_CHARS: usize = 100000;

/// A chunk of this run that is not stored yet: its text and its digest.
#[derive(Clone, Debug, PartialEq, Eq)]
pub struct PendingChunk {
    pub text: String,
    pub hash: String,
}

/// The work that one changed file needs.
#[derive(Clone, Debug, PartialEq, Eq)]
pub struct FilePlan {
    /// Chunks to embed and upload, one per new digest, in the file's order.
    pub to_embed: Vec<PendingChunk>,
    /// Stored chunks whose digest occurs again: kept as they are.
    pub unchanged: Vec<IndexedChunk>,
    /// Stored chunks whose digest no longer occurs: to delete remotely.
    pub stale: Vec<IndexedChunk>,
}

/// Text and digest of each pending chunk.
pub open spec fn pending_views(p: Seq<PendingChunk>) -> Seq<(Seq<char>, Seq<char>)> {
    p.map_values(|c: PendingChunk| (c.text@, c.hash@))
}

/// Some candidate carries digest `h`.
pub open spec fn run_holds(cands: Seq<(Seq<char>, Seq<char>)>, h: Seq<char>) -> bool {
    exists|j: int| 0 <= j < cands.len() && cands[j].1 == h
}

/// The candidates whose digest is not stored yet, each digest once (its
/// first occurrence), in order.
pub open spec fn fresh(prev: Seq<IndexedChunk>, cands: Seq<(Seq<char>, Seq<char>)>) -> Seq<
    (Seq<char>, Seq<char>),
>
    decreases cands.len(),
{
    if cands.len() == 0 {
        Seq::empty()
    } else {
        let r = fresh(prev, cands.drop_last());
        let c = cands.last();
        if holds_hash(prev, c.1) || run_holds(r, c.1) {
            r
        } else {
            r.push(c)
        }
    }
}

/// A stored chunk whose digest occurs among the candidates.
pub open spec fn in_run(cands: Seq<(Seq<char>, Seq<char>)>) -> spec_fn(IndexedChunk) -> bool {
    |c: IndexedChunk| run_holds(cands, c.hash@)
}

/// A stored chunk whose digest does not occur among the candidates.
pub open spec fn not_in_run(cands: Seq<(Seq<char>, Seq<char>)>) -> spec_fn(IndexedChunk) -> bool {
    |c: IndexedChunk| !run_holds(cands, c.hash@)
}

/// Whether a chunk of the file is indexed at all: it holds more than white
/// space and is not too long.
pub open spec fn retained() -> spec_fn(Seq<char>) -> bool {
    |c: Seq<char>| !all_white_space(c) && c.len() <= MAX_CHUNK_CHARS
}

/// The chunks of this run that are indexed, each with its digest.
pub open spec fn run_candidates(chunks: Seq<Seq<char>>) -> Seq<(Seq<char>, Seq<char>)> {
    chunks.filter(retained()).map_values(|c: Seq<char>| (c, chunk_digest(c)))
}

/// What the diff of stored chunks `prev` against candidates `cands` holds.
pub open spec fn plans(p: FilePlan, prev: Seq<IndexedChunk>, cands: Seq<(Seq<char>, Seq<char>)>) -> bool {
    &&& pending_views(p.to_embed@) == fresh(prev, cands)
    &&& p.unchanged@ == prev.filter(in_run(cands))
    &&& p.stale@ == prev.filter(not_in_run(cands))
}

/// The chunks that embedding produced: for each pending chunk whose
/// pipeline returned an id, that id with the chunk's digest.
pub open spec fn embedded(to_embed: Seq<PendingChunk>, ids: Seq<Option<String>>) -> Seq<IndexedChunk>
    decreases to_embed.len(),
{
    if to_embed.len() == 0 {
        Seq::empty()
    } else {
        let r = embedded(to_embed.drop_last(), ids);
        let k = to_embed.len() - 1;
        if 0 <= k < ids.len() && ids[k] is Some {
            r.push(IndexedChunk { hash: to_embed[k].hash, id: ids[k]->Some_0 })
        } else {
            r
        }
    }
}

/// Whether a file must be processed again: it has no record, or its
/// modification time differs from the recorded one.
pub open spec fn reindex_needed(state: Map<Seq<char>, crate::index_state::FileMetadata>, path: Seq<char>, modified: u64) -> bool {
    !(state.contains_key(path) && state[path].last_modified == modified)
}

fn copy_indexed(c: &IndexedChunk) -> (r: IndexedChunk)
    ensures
        r == *c,
{
    IndexedChunk { hash: c.hash.clone(), id: c.id.clone() }
}

fn copy_pending(c: &PendingChunk) -> (r: PendingChunk)
    ensures
        r == *c,
{
    PendingChunk { text: c.text.clone(), hash: c.hash.clone() }
}

fn pending_has(p: &Vec<PendingChunk>, h: &str) -> (r: bool)
    ensures
        r == run_holds(pending_views(p@), h@),
{
    let mut i: usize = 0;
    while i < p.len()
        invariant
            i <= p@.len(),
            forall|j: int| 0 <= j < i ==> p@[j].hash@ != h@,
        decreases p@.len() - i,
    {
        if str_eq(p[i].hash.as_str(), h) {
            assert(pending_views(p@)[i as int].1 == h@);
            return true;
        }
        i = i + 1;
    }
    assert forall|j: int| 0 <= j < pending_views(p@).len() implies pending_views(p@)[j].1 != h@ by {
        assert(pending_views(p@)[j].1 == p@[j].hash@);
    }
    false
}

/// Whether the file at `path`, last modified at `modified`, must be
/// processed: a file whose recorded time is unchanged is skipped whole.
pub fn needs_reindex(state: &IndexState, path: &str, modified: u64) -> (r: bool)
    requires
        state.wf(),
    ensures
        r == reindex_needed(state@, path@, modified),
{
    match state.get_last_modified(path) {
        Some(t) => t != modified,
        None => true,
    }
}

/// Diffs the stored chunks of a file against this run's candidates (text
/// and digest): new digests are to embed, stored chunks whose digest occurs
/// again are unchanged, the others are stale.
pub fn diff_hashes(previous: &Vec<IndexedChunk>, candidates: &Vec<PendingChunk>) -> (r: FilePlan)
    ensures
        plans(r, previous@, pending_views(candidates@)),
{
    let ghost cv = pending_views(candidates@);
    let mut to_embed: Vec<PendingChunk> = Vec::new();
    let mut i: usize = 0;
    while i < candidates.len()
        invariant
            i <= candidates@.len(),
            cv == pending_views(candidates@),
            pending_views(to_embed@) == fresh(previous@, cv.take(i as int)),
        decreases candidates@.len() - i,
    {
        let c = &candidates[i];
        assert(cv.take(i + 1).drop_last() =~= cv.take(i as int));
        assert(cv.take(i + 1).last() == (c.text@, c.hash@));
        let stored = IndexState::has_chunk(previous.as_slice(), c.hash.as_str());
        let seen = pending_has(&to_embed, c.hash.as_str());
        if !stored && !seen {
            let ghost before = to_embed@;
            to_embed.push(copy_pending(c));
            assert(pending_views(to_embed@) =~= pending_views(before).push((c.text@, c.hash@)));
        }
        i = i + 1;
    }
    assert(cv.take(candidates@.len() as int) =~= cv);
    let mut unchanged: Vec<IndexedChunk> = Vec::new();
    let mut stale: Vec<IndexedChunk> = Vec::new();
    let mut j: usize = 0;
    while j < previous.len()
        invariant
            j <= previous@.len(),
            cv == pending_views(candidates@),
            unchanged@ == previous@.take(j as int).filter(in_run(cv)),
            stale@ == previous@.take(j as int).filter(not_in_run(cv)),
        decreases previous@.len() - j,
    {
        let p = &previous[j];
        assert(previous@.take(j + 1).drop_last() =~= previous@.take(j as int));
        assert(previous@.take(j + 1).last() == *p);
        let occurs = pending_has(candidates, p.hash.as_str());
        if occurs {
            unchanged.push(copy_indexed(p));
        } else {
            stale.push(copy_indexed(p));
        }
        assert(unchanged@ =~= previous@.take(j + 1).filter(in_run(cv))) by {
            reveal(Seq::filter);
        }
        assert(stale@ =~= previous@.take(j + 1).filter(not_in_run(cv))) by {
            reveal(Seq::filter);
        }
        j = j + 1;
    }
    assert(previous@.take(previous@.len() as int) =~= previous@);
    FilePlan { to_embed, unchanged, stale }
}

/// Plans the work for a changed file: keeps the chunks that hold more than
/// white space and are at most `MAX_CHUNK_CHARS` characters long, computes their
/// digests and diffs them against the stored chunks.
pub fn plan_file(previous: &Vec<IndexedChunk>, chunks: &Vec<String>) -> (r: FilePlan)
    ensures
        plans(r, previous@, run_candidates(views(chunks@))),
{
    let ghost cs = views(chunks@);
    let mut candidates: Vec<PendingChunk> = Vec::new();
    let mut i: usize = 0;
    while i < chunks.len()
        invariant
            i <= chunks@.len(),
            cs == views(chunks@),
            pending_views(candidates@) == run_candidates(cs.take(i as int)),
        decreases chunks@.len() - i,
    {
        let c = chunks[i].as_str();
        assert(cs.take(i + 1).drop_last() =~= cs.take(i as int));
        assert(cs.take(i + 1).last() == c@);
        let blank = is_blank(c);
        let len = c.unicode_len();
        let keep = !blank && len <= MAX_CHUNK_CHARS;
        assert(keep == retained()(c@));
        let ghost before = candidates@;
        if keep {
            let hash = IndexState::hash_chunk(c);
            candidates.push(PendingChunk { text: chunks[i].clone(), hash });
            assert(cs.take(i + 1).filter(retained()) =~= cs.take(i as int).filter(retained()).push(
                c@,
            )) by {
                reveal(Seq::filter);
            }
            assert(pending_views(candidates@) =~= pending_views(before).push((c@, chunk_digest(c@))));
            assert(pending_views(candidates@) =~= run_candidates(cs.take(i + 1)));
        } else {
            assert(cs.take(i + 1).filter(retained()) =~= cs.take(i as int).filter(retained())) by {
                reveal(Seq::filter);
            }
            assert(pending_views(candidates@) =~= run_candidates(cs.take(i + 1)));
        }
        i = i + 1;
    }
    assert(cs.take(chunks@.len() as int) =~= cs);
    diff_hashes(previous, &candidates)
}

/// The chunks that embedding produced: `ids[k]` is the id under which the
/// `k`-th pending chunk was stored, or `None` where its pipeline failed.
/// A failed chunk is left out.
pub fn embedded_chunks(to_embed: &Vec<PendingChunk>, ids: &Vec<Option<String>>) -> (r: Vec<
    IndexedChunk,
>)
    ensures
        r@ == embedded(to_embed@, ids@),
{
    let mut out: Vec<IndexedChunk> = Vec::new();
    let mut i: usize = 0;
    while i < to_embed.len()
        invariant
            i <= to_embed@.len(),
            out@ == embedded(to_embed@.take(i as int), ids@),
        decreases to_embed@.len() - i,
    {
        assert(to_embed@.take(i + 1).drop_last() =~= to_embed@.take(i as int));
        if i < ids.len() {
            match &ids[i] {
                Some(id) => {
                    out.push(IndexedChunk { hash: to_embed[i].hash.clone(), id: id.clone() });
                },
                None => {},
            }
        }
        i = i + 1;
    }
    assert(to_embed@.take(to_embed@.len() as int) =~= to_embed@);
    out
}

impl FilePlan {
    /// The ids of the stale chunks, to delete remotely.
    pub fn stale_ids(&self) -> (r: Vec<String>)
        ensures
            r@ == self.stale@.map_values(|c: IndexedChunk| c.id),
    {
        let mut out: Vec<String> = Vec::new();
        let mut i: usize = 0;
        while i < self.stale.len()
            invariant
                i <= self.stale@.len(),
                out@ == self.stale@.take(i as int).map_values(|c: IndexedChunk| c.id),
            decreases self.stale@.len() - i,
        {
            out.push(self.stale[i].id.clone());
            i = i + 1;
            assert(out@ =~= self.stale@.take(i as int).map_values(|c: IndexedChunk| c.id));
        }
        assert(self.stale@.take(self.stale@.len() as int) =~= self.stale@);
        out
    }

    /// The file's chunks after the run: the unchanged ones, then those that
    /// embedding produced (`ids` as for `embedded_chunks`).
    pub fn into_record(self, ids: &Vec<Option<String>>) -> (r: Vec<IndexedChunk>)
        ensures
            r@ == self.unchanged@ + embedded(self.to_embed@, ids@),
    {
        let mut added = embedded_chunks(&self.to_embed, ids);
        let mut record = self.unchanged;
        record.append(&mut added);
        record
    }
}

/// The chunks stored for `path`, none when the file has no record.
pub open spec fn stored_chunks(state: Map<Seq<char>, crate::index_state::FileMetadata>, path: Seq<char>) -> Seq<IndexedChunk> {
    if state.contains_key(path) {
        state[path].chunks@
    } else {
        Seq::empty()
    }
}

/// Plans the work for the changed file at `path` against what is stored
/// for it, as `plan_file` does.
pub fn plan_for(state: &IndexState, path: &str, chunks: &Vec<String>) -> (r: FilePlan)
    requires
        state.wf(),
    ensures
        plans(r, stored_chunks(state@, path@), run_candidates(views(chunks@))),
{
    match state.get_file_chunks(path) {
        Some(previous) => plan_file(previous, chunks),
        None => {
            let empty: Vec<IndexedChunk> = Vec::new();
            plan_file(&empty, chunks)
        },
    }
}

/// Records the outcome of a changed file's run: its new modification time
/// and its chunks, the unchanged ones then those embedded (`ids` as for
/// `embedded_chunks`). Returns the ids of the stale chunks, to delete.
pub fn record_file(state: &mut IndexState, path: &str, modified: u64, plan: FilePlan, ids: &Vec<Option<String>>) -> (r: Vec<String>)
    requires
        old(state).wf(),
    ensures
        final(state).wf(),
        final(state)@ == old(state)@.insert(path@, final(state)@[path@]),
        final(state)@[path@].last_modified == modified,
        final(state)@[path@].chunks@ == plan.unchanged@ + embedded(plan.to_embed@, ids@),
        r@ == plan.stale@.map_values(|c: IndexedChunk| c.id),
{
    let stale = plan.stale_ids();
    let record = plan.into_record(ids);
    state.update_file_chunks(path, record, modified);
    stale
}

/// How many pipelines run at once: one batch.
pub const BATCH_SIZE: usize = 8;

/// The `k`-th batch of `n` items: positions `lo` up to `hi`.
pub open spec fn batch_at(n: int, k: int) -> (usize, usize) {
    let lo = k * BATCH_SIZE;
    let hi = if lo + BATCH_SIZE <= n {
        lo + BATCH_SIZE
    } else {
        n
    };
    (lo as usize, hi as usize)
}

/// Splits `n` items into consecutive batches of `BATCH_SIZE`, the last one
/// possibly shorter; each batch is given by its bounds.
pub fn batch_bounds(n: usize) -> (r: Vec<(usize, usize)>)
    ensures
        r@.len() == (n + BATCH_SIZE - 1) / BATCH_SIZE as int,
        forall|k: int| 0 <= k < r@.len() ==> #[trigger] r@[k] == batch_at(n as int, k),
        forall|k: int| 0 <= k < r@.len() ==> r@[k].0 < #[trigger] r@[k].1 <= n && r@[k].1 - r@[k].0 <= BATCH_SIZE,
{
    let mut out: Vec<(usize, usize)> = Vec::new();
    let mut lo: usize = 0;
    while lo < n
        invariant
            lo <= n || out@.len() == (n + BATCH_SIZE - 1) / BATCH_SIZE as int,
            lo < n ==> lo == out@.len() * BATCH_SIZE,
            lo < n ==> out@.len() < (n + BATCH_SIZE - 1) / BATCH_SIZE as int,
            lo >= n ==> out@.len() == (n + BATCH_SIZE - 1) / BATCH_SIZE as int,
            forall|k: int| 0 <= k < out@.len() ==> #[trigger] out@[k] == batch_at(n as int, k),
            forall|k: int| 0 <= k < out@.len() ==> out@[k].0 < #[trigger] out@[k].1 <= n && out@[k].1 - out@[k].0 <= BATCH_SIZE,
        decreases n - lo,
    {
        let hi = if n - lo >= BATCH_SIZE {
            lo + BATCH_SIZE
        } else {
            n
        };
        out.push((lo, hi));
        lo = hi;
    }
    out
}

/// A file whose recorded modification time equals its current one is
/// skipped whole: it is not read, chunked, embedded or changed remotely.
pub proof fn lemma_unchanged_time_skipped(state: IndexState, path: Seq<char>, modified: u64)
    requires
        state@.contains_key(path),
        state@[path].last_modified == modified,
    ensures
        !reindex_needed(state@, path, modified),
{
}

/// The digests that the diff schedules for embedding: none of them is
/// stored, each comes from this run, no digest twice; every digest of the
/// run is either stored or scheduled.
pub proof fn lemma_fresh(prev: Seq<IndexedChunk>, cands: Seq<(Seq<char>, Seq<char>)>)
    ensures
        forall|k: int|
            0 <= k < fresh(prev, cands).len() ==> !holds_hash(prev, #[trigger] fresh(prev, cands)[k].1)
                && run_holds(cands, fresh(prev, cands)[k].1),
        forall|j: int|
            0 <= j < cands.len() ==> holds_hash(prev, #[trigger] cands[j].1) || run_holds(
                fresh(prev, cands),
                cands[j].1,
            ),
        forall|a: int, b: int|
            0 <= a < b < fresh(prev, cands).len() ==> fresh(prev, cands)[a].1 != fresh(
                prev,
                cands,
            )[b].1,
    decreases cands.len(),
{
    if cands.len() > 0 {
        let rest = cands.drop_last();
        lemma_fresh(prev, rest);
        let r = fresh(prev, rest);
        let f = fresh(prev, cands);
        let c = cands.last();
        assert forall|k: int| 0 <= k < f.len() implies !holds_hash(prev, #[trigger] f[k].1)
            && run_holds(cands, f[k].1) by {
            if k < r.len() {
                assert(f[k] == r[k]);
                let j = choose|j: int| 0 <= j < rest.len() && rest[j].1 == r[k].1;
                assert(cands[j] == rest[j]);
            } else {
                assert(cands[cands.len() - 1] == c);
            }
        }
        assert forall|j: int| 0 <= j < cands.len() implies holds_hash(prev, #[trigger] cands[j].1)
            || run_holds(f, cands[j].1) by {
            if j < rest.len() {
                assert(rest[j] == cands[j]);
                if run_holds(r, rest[j].1) {
                    let k = choose|k: int| 0 <= k < r.len() && r[k].1 == rest[j].1;
                    assert(f[k] == r[k]);
                }
            } else {
                if !holds_hash(prev, c.1) && !run_holds(r, c.1) {
                    assert(f[r.len() as int] == c);
                }
            }
        }
        assert forall|a: int, b: int| 0 <= a < b < f.len() implies f[a].1 != f[b].1 by {
            if b < r.len() {
                assert(f[a] == r[a] && f[b] == r[b]);
            } else {
                assert(f[a] == r[a]);
                assert(f[b] == c);
            }
        }
    }
}

/// Every stored chunk is either unchanged (its digest occurs in this run)
/// or stale (it does not); nothing else is in either list.
pub proof fn lemma_stored_split(prev: Seq<IndexedChunk>, cands: Seq<(Seq<char>, Seq<char>)>)
    ensures
        forall|i: int|
            0 <= i < prev.len() ==> (run_holds(cands, (#[trigger] prev[i]).hash@) ==> prev.filter(
                in_run(cands),
            ).contains(prev[i])) && (!run_holds(cands, prev[i].hash@) ==> prev.filter(
                not_in_run(cands),
            ).contains(prev[i])),
        forall|i: int|
            0 <= i < prev.filter(in_run(cands)).len() ==> prev.contains(
                #[trigger] prev.filter(in_run(cands))[i],
            ) && run_holds(cands, prev.filter(in_run(cands))[i].hash@),
        forall|i: int|
            0 <= i < prev.filter(not_in_run(cands)).len() ==> prev.contains(
                #[trigger] prev.filter(not_in_run(cands))[i],
            ) && !run_holds(cands, prev.filter(not_in_run(cands))[i].hash@),
{
    lemma_filter_members(prev, in_run(cands));
    lemma_filter_members(prev, not_in_run(cands));
    assert forall|i: int| 0 <= i < prev.len() implies (run_holds(cands, (#[trigger] prev[i]).hash@)
        ==> prev.filter(in_run(cands)).contains(prev[i])) && (!run_holds(cands, prev[i].hash@)
        ==> prev.filter(not_in_run(cands)).contains(prev[i])) by {
        assert(in_run(cands)(prev[i]) == run_holds(cands, prev[i].hash@));
        assert(not_in_run(cands)(prev[i]) == !run_holds(cands, prev[i].hash@));
    }
    assert forall|i: int| 0 <= i < prev.filter(in_run(cands)).len() implies prev.contains(
        #[trigger] prev.filter(in_run(cands))[i],
    ) && run_holds(cands, prev.filter(in_run(cands))[i].hash@) by {
        assert(in_run(cands)(prev.filter(in_run(cands))[i]));
    }
    assert forall|i: int| 0 <= i < prev.filter(not_in_run(cands)).len() implies prev.contains(
        #[trigger] prev.filter(not_in_run(cands))[i],
    ) && !run_holds(cands, prev.filter(not_in_run(cands))[i].hash@) by {
        assert(not_in_run(cands)(prev.filter(not_in_run(cands))[i]));
    }
}

/// When a file's chunks are the same as those stored, only its time
/// changed: nothing is embedded and nothing is deleted.
pub proof fn lemma_same_content_no_work(prev: Seq<IndexedChunk>, cands: Seq<(Seq<char>, Seq<char>)>)
    requires
        forall|j: int| 0 <= j < cands.len() ==> holds_hash(prev, #[trigger] cands[j].1),
        forall|i: int| 0 <= i < prev.len() ==> run_holds(cands, (#[trigger] prev[i]).hash@),
    ensures
        fresh(prev, cands).len() == 0,
        prev.filter(not_in_run(cands)).len() == 0,
        prev.filter(in_run(cands)) == prev,
{
    lemma_fresh(prev, cands);
    lemma_stored_split(prev, cands);
    if fresh(prev, cands).len() > 0 {
        let k = 0int;
        let h = fresh(prev, cands)[k].1;
        let j = choose|j: int| 0 <= j < cands.len() && cands[j].1 == h;
        assert(holds_hash(prev, cands[j].1));
    }
    if prev.filter(not_in_run(cands)).len() > 0 {
        let x = prev.filter(not_in_run(cands))[0];
        let i = choose|i: int| 0 <= i < prev.len() && prev[i] == x;
        assert(run_holds(cands, prev[i].hash@));
    }
    assert(prev.filter(in_run(cands)) =~= prev) by {
        lemma_filter_all(prev, in_run(cands));
    }
}

proof fn lemma_filter_members(s: Seq<IndexedChunk>, pred: spec_fn(IndexedChunk) -> bool)
    ensures
        forall|i: int|
            0 <= i < s.filter(pred).len() ==> pred(#[trigger] s.filter(pred)[i]) && s.contains(
                s.filter(pred)[i],
            ),
        forall|i: int| 0 <= i < s.len() && pred(#[trigger] s[i]) ==> s.filter(pred).contains(s[i]),
    decreases s.len(),
{
    reveal(Seq::filter);
    if s.len() > 0 {
        let rest = s.drop_last();
        lemma_filter_members(rest, pred);
        let f = s.filter(pred);
        let g = rest.filter(pred);
        assert forall|i: int| 0 <= i < f.len() implies pred(#[trigger] f[i]) && s.contains(f[i]) by {
            if i < g.len() {
                assert(f[i] == g[i]);
                let j = choose|j: int| 0 <= j < rest.len() && rest[j] == g[i];
                assert(s[j] == rest[j]);
            } else {
                assert(f[i] == s.last());
                assert(s[s.len() - 1] == s.last());
            }
        }
        assert forall|i: int| 0 <= i < s.len() && pred(#[trigger] s[i]) implies f.contains(s[i]) by {
            if i < rest.len() {
                assert(rest[i] == s[i]);
                let j = choose|j: int| 0 <= j < g.len() && g[j] == rest[i];
                assert(f[j] == g[j]);
            } else {
                assert(f[f.len() - 1] == s[i]);
            }
        }
    }
}

proof fn lemma_filter_all(s: Seq<IndexedChunk>, pred: spec_fn(IndexedChunk) -> bool)
    requires
        forall|i: int| 0 <= i < s.len() ==> pred(#[trigger] s[i]),
    ensures
        s.filter(pred) == s,
    decreases s.len(),
{
    reveal(Seq::filter);
    if s.len() > 0 {
        lemma_filter_all(s.drop_last(), pred);
        assert(s.drop_last().push(s.last()) =~= s);
    }
}

proof fn lemma_filter_keeps_distinct(s: Seq<IndexedChunk>, pred: spec_fn(IndexedChunk) -> bool)
    requires
        crate::index_state::hashes_distinct(s),
    ensures
        crate::index_state::hashes_distinct(s.filter(pred)),
    decreases s.len(),
{
    reveal(Seq::filter);
    if s.len() > 0 {
        let rest = s.drop_last();
        lemma_filter_keeps_distinct(rest, pred);
        lemma_filter_members(rest, pred);
        let f = s.filter(pred);
        let g = rest.filter(pred);
        if pred(s.last()) {
            assert forall|a: int, b: int| 0 <= a < b < f.len() implies f[a].hash@ != f[b].hash@ by {
                if b == g.len() {
                    assert(f[a] == g[a]);
                    let i = choose|i: int| 0 <= i < rest.len() && rest[i] == g[a];
                    assert(s[i] == rest[i]);
                } else {
                    assert(f[a] == g[a] && f[b] == g[b]);
                }
            }
        }
    }
}

proof fn lemma_embedded_from(to_embed: Seq<PendingChunk>, ids: Seq<Option<String>>)
    ensures
        forall|i: int|
            0 <= i < embedded(to_embed, ids).len() ==> exists|k: int|
                0 <= k < to_embed.len() && (#[trigger] embedded(to_embed, ids)[i]).hash
                    == to_embed[k].hash,
        (forall|a: int, b: int|
            0 <= a < b < to_embed.len() ==> to_embed[a].hash@ != to_embed[b].hash@)
            ==> crate::index_state::hashes_distinct(embedded(to_embed, ids)),
    decreases to_embed.len(),
{
    if to_embed.len() > 0 {
        let rest = to_embed.drop_last();
        lemma_embedded_from(rest, ids);
        let e = embedded(to_embed, ids);
        let r = embedded(rest, ids);
        let k = to_embed.len() - 1;
        assert forall|i: int| 0 <= i < e.len() implies exists|k: int|
            0 <= k < to_embed.len() && (#[trigger] e[i]).hash == to_embed[k].hash by {
            if i < r.len() {
                assert(e[i] == r[i]);
                let m = choose|m: int| 0 <= m < rest.len() && r[i].hash == rest[m].hash;
                assert(to_embed[m] == rest[m]);
            } else {
                assert(e[i].hash == to_embed[k].hash);
            }
        }
        if forall|a: int, b: int| 0 <= a < b < to_embed.len() ==> to_embed[a].hash@ != to_embed[b].hash@ {
            assert forall|a: int, b: int| 0 <= a < b < rest.len() implies rest[a].hash@ != rest[b].hash@ by {
                assert(rest[a] == to_embed[a] && rest[b] == to_embed[b]);
            }
            assert forall|a: int, b: int| 0 <= a < b < e.len() implies e[a].hash@ != e[b].hash@ by {
                if b < r.len() {
                    assert(e[a] == r[a] && e[b] == r[b]);
                } else {
                    assert(e[a] == r[a]);
                    let m = choose|m: int| 0 <= m < rest.len() && r[a].hash == rest[m].hash;
                    assert(to_embed[m] == rest[m]);
                }
            }
        }
    }
}

/// A file's new record, built from its plan whatever pipelines failed,
/// holds no digest twice when the stored record held none twice; it holds
/// the unchanged chunks and the successfully embedded new ones, nothing stale.
pub proof fn lemma_record_distinct(
    prev: Seq<IndexedChunk>,
    cands: Seq<(Seq<char>, Seq<char>)>,
    to_embed: Seq<PendingChunk>,
    ids: Seq<Option<String>>,
)
    requires
        crate::index_state::hashes_distinct(prev),
        pending_views(to_embed) == fresh(prev, cands),
    ensures
        crate::index_state::hashes_distinct(prev.filter(in_run(cands)) + embedded(to_embed, ids)),
        forall|i: int|
            0 <= i < (prev.filter(in_run(cands)) + embedded(to_embed, ids)).len() ==> run_holds(
                cands,
                (#[trigger] (prev.filter(in_run(cands)) + embedded(to_embed, ids))[i]).hash@,
            ),
{
    let u = prev.filter(in_run(cands));
    let e = embedded(to_embed, ids);
    let f = fresh(prev, cands);
    lemma_fresh(prev, cands);
    lemma_stored_split(prev, cands);
    lemma_filter_keeps_distinct(prev, in_run(cands));
    assert forall|a: int, b: int| 0 <= a < b < to_embed.len() implies to_embed[a].hash@
        != to_embed[b].hash@ by {
        assert(f[a].1 == to_embed[a].hash@ && f[b].1 == to_embed[b].hash@);
    }
    lemma_embedded_from(to_embed, ids);
    let all = u + e;
    assert forall|a: int, b: int| 0 <= a < b < all.len() implies all[a].hash@ != all[b].hash@ by {
        if b < u.len() {
            assert(all[a] == u[a] && all[b] == u[b]);
        } else if a >= u.len() {
            assert(all[a] == e[a - u.len()] && all[b] == e[b - u.len()]);
        } else {
            assert(all[a] == u[a] && all[b] == e[b - u.len()]);
            let k = choose|k: int| 0 <= k < to_embed.len() && e[b - u.len()].hash == to_embed[k].hash;
            assert(f[k].1 == to_embed[k].hash@);
            let i = choose|i: int| 0 <= i < prev.len() && prev[i] == u[a];
            assert(holds_hash(prev, u[a].hash@));
        }
    }
    assert forall|i: int| 0 <= i < all.len() implies run_holds(cands, (#[trigger] all[i]).hash@) by {
        if i < u.len() {
            assert(all[i] == u[i]);
        } else {
            assert(all[i] == e[i - u.len()]);
            let k = choose|k: int| 0 <= k < to_embed.len() && e[i - u.len()].hash == to_embed[k].hash;
            assert(f[k].1 == to_embed[k].hash@);
        }
    }
}

} // verus!
