//! What the last indexing runs recorded: for each file, its modification
//! time and the chunks stored remotely for it.

use vstd::prelude::*;
use crate::digest::{chunk_digest, digest_text, is_hex_digest};
use crate::keyed::{
    entries_map, find_key, keys_unique, lemma_entries_map_at, lemma_entries_map_dom,
    lemma_entries_map_push, lemma_entries_map_update,
};

verus! {

/// A chunk stored remotely: its content digest and the id it was stored under.
#[derive(Clone, Debug, PartialEq, Eq)]
pub struct IndexedChunk {
    pub hash: String,
    pub id: String,
}

/// What is known of one file: when it was last modified (seconds since the
/// epoch) and its stored chunks.
#[derive(Clone, Debug, PartialEq, Eq)]
pub struct FileMetadata {
    pub last_modified: u64,
    pub chunks: Vec<IndexedChunk>,
}

/// The index state: one record per file path.
#[derive(Clone, Debug, PartialEq, Eq, Default)]
pub struct IndexState {
    pub files: Vec<(String, FileMetadata)>,
}

/// The digests of the chunks, in order.
pub open spec fn chunk_hashes(chunks: Seq<IndexedChunk>) -> Seq<Seq<char>> {
    chunks.map_values(|c: IndexedChunk| c.hash@)
}

/// Some chunk carries digest `h`.
pub open spec fn holds_hash(chunks: Seq<IndexedChunk>, h: Seq<char>) -> bool {
    exists|i: int| 0 <= i < chunks.len() && chunks[i].hash@ == h
}

/// No two chunks carry the same digest.
pub open spec fn hashes_distinct(chunks: Seq<IndexedChunk>) -> bool {
    forall|i: int, j: int| 0 <= i < j < chunks.len() ==> chunks[i].hash@ != chunks[j].hash@
}

impl View for IndexState {
    type V = Map<Seq<char>, FileMetadata>;

    open spec fn view(&self) -> Map<Seq<char>, FileMetadata> {
        entries_map(self.files@)
    }
}

impl IndexState {
    /// Each path has at most one record.
    pub open spec fn wf(&self) -> bool {
        keys_unique(self.files@)
    }

    /// Whether the state is well formed (as `wf` states), for state read
    /// from outside.
    pub fn is_well_formed(&self) -> (r: bool)
        ensures
            r == self.wf(),
    {
        let n = self.files.len();
        let mut i: usize = 0;
        while i < n
            invariant
                n == self.files@.len(),
                i <= n,
                forall|a: int, b: int| 0 <= a < b < n && a < i ==> self.files@[a].0@ != self.files@[b].0@,
            decreases n - i,
        {
            let mut j: usize = i + 1;
            while j < n
                invariant
                    n == self.files@.len(),
                    i < j <= n,
                    forall|b: int| i < b < j ==> self.files@[i as int].0@ != self.files@[b].0@,
                decreases n - j,
            {
                if crate::keyed::str_eq(self.files[i].0.as_str(), self.files[j].0.as_str()) {
                    return false;
                }
                j = j + 1;
            }
            i = i + 1;
        }
        true
    }

    /// A state with no files.
    pub fn new() -> (r: Self)
        ensures
            r.wf(),
            r@ == Map::<Seq<char>, FileMetadata>::empty(),
    {
        IndexState { files: Vec::new() }
    }

    /// The chunks recorded for `path`.
    pub fn get_file_chunks(&self, path: &str) -> (r: Option<&Vec<IndexedChunk>>)
        requires
            self.wf(),
        ensures
            match r {
                Some(c) => self@.contains_key(path@) && *c == self@[path@].chunks,
                None => !self@.contains_key(path@),
            },
    {
        match find_key(&self.files, path) {
            Some(i) => {
                proof {
                    lemma_entries_map_at(self.files@, i as int);
                }
                Some(&self.files[i].1.chunks)
            },
            None => {
                proof {
                    lemma_entries_map_dom(self.files@, path@);
                }
                None
            },
        }
    }

    /// The modification time recorded for `path`.
    pub fn get_last_modified(&self, path: &str) -> (r: Option<u64>)
        requires
            self.wf(),
        ensures
            match r {
                Some(t) => self@.contains_key(path@) && t == self@[path@].last_modified,
                None => !self@.contains_key(path@),
            },
    {
        match find_key(&self.files, path) {
            Some(i) => {
                proof {
                    lemma_entries_map_at(self.files@, i as int);
                }
                Some(self.files[i].1.last_modified)
            },
            None => {
                proof {
                    lemma_entries_map_dom(self.files@, path@);
                }
                None
            },
        }
    }

    /// Records `chunks` and `last_modified` for `path`, replacing what was
    /// recorded for it before.
    pub fn update_file_chunks(&mut self, path: &str, chunks: Vec<IndexedChunk>, last_modified: u64)
        requires
            old(self).wf(),
        ensures
            final(self).wf(),
            final(self)@ == old(self)@.insert(
                path@,
                FileMetadata { last_modified, chunks },
            ),
    {
        let meta = FileMetadata { last_modified, chunks };
        let entry = (path.to_owned(), meta);
        match find_key(&self.files, path) {
            Some(i) => {
                proof {
                    lemma_entries_map_update(self.files@, i as int, entry);
                }
                self.files.set(i, entry);
            },
            None => {
                proof {
                    lemma_entries_map_dom(self.files@, path@);
                    lemma_entries_map_push(self.files@, entry);
                }
                self.files.push(entry);
            },
        }
    }

    /// The digest that identifies a chunk's content: SHA-256 over its UTF-8
    /// bytes, in lowercase hexadecimal.
    pub fn hash_chunk(content: &str) -> (r: String)
        ensures
            r@ == chunk_digest(content@),
            is_hex_digest(r@),
    {
        digest_text(content)
    }

    /// Whether some chunk of `state` carries digest `hash`.
    pub fn has_chunk(state: &[IndexedChunk], hash: &str) -> (r: bool)
        ensures
            r == holds_hash(state@, hash@),
    {
        let mut i: usize = 0;
        while i < state.len()
            invariant
                i <= state@.len(),
                forall|j: int| 0 <= j < i ==> state@[j].hash@ != hash@,
            decreases state@.len() - i,
        {
            if crate::keyed::str_eq(state[i].hash.as_str(), hash) {
                return true;
            }
            i = i + 1;
        }
        false
    }
}

} // verus!
