use vstd::prelude::*;

use crate::float_bits::{embedding_valid, is_valid_embedding};
use crate::store::keyed_map::KeyedMap;

verus! {

/// One persisted cache record: a document id, the content hash its embedding
/// was computed for, and the embedding (as `f32` bit patterns).
pub struct CacheEntry {
    pub key: String,
    pub content_hash: u64,
    pub embedding: Vec<u32>,
}

/// Embedding cache with content-hash-based invalidation.
///
/// Stores `doc_id -> (content_hash, embedding)`. When a document's content
/// changes, so does its hash, and the cached embedding no longer matches.
/// Only valid embeddings (non-empty, finite, not all zero) are ever stored.
pub struct EmbeddingCache {
    cache: KeyedMap<(u64, Vec<u32>)>,
    cache_path: String,
    dirty: bool,
}

/// A copy of a vector of bit patterns.
pub fn copy_bits(v: &Vec<u32>) -> (r: Vec<u32>)
    ensures
        r@ == v@,
{
    let mut r: Vec<u32> = Vec::new();
    for i in 0..v.len()
        invariant
            r@ == v@.subrange(0, i as int),
    {
        r.push(v[i]);
        proof {
            assert(r@ =~= v@.subrange(0, i + 1));
        }
    }
    proof {
        assert(r@ =~= v@);
    }
    r
}

/// The cache contents that a list of persisted entries loads to: entries are
/// taken in order, invalid embeddings are skipped, and a later entry for a key
/// replaces an earlier one.
pub open spec fn loaded_entries(entries: Seq<CacheEntry>) -> Map<Seq<char>, (u64, Seq<u32>)>
    decreases entries.len(),
{
    if entries.len() == 0 {
        Map::empty()
    } else {
        let before = loaded_entries(entries.drop_last());
        let e = entries.last();
        if is_valid_embedding(e.embedding@) {
            before.insert(e.key@, (e.content_hash, e.embedding@))
        } else {
            before
        }
    }
}

/// What a lookup of `key` for content hash `hash` finds: the stored embedding
/// when there is one for that key and it was computed for that hash.
pub open spec fn cache_lookup(cache: Map<Seq<char>, (u64, Seq<u32>)>, key: Seq<char>, hash: u64) -> Option<Seq<u32>> {
    if cache.contains_key(key) && cache[key].0 == hash {
        Some(cache[key].1)
    } else {
        None
    }
}

impl View for EmbeddingCache {
    type V = Map<Seq<char>, (u64, Seq<u32>)>;

    closed spec fn view(&self) -> Map<Seq<char>, (u64, Seq<u32>)> {
        self.cache@.map_values(|v: (u64, Vec<u32>)| (v.0, v.1@))
    }
}

impl EmbeddingCache {
    pub closed spec fn well_formed(&self) -> bool {
        &&& self.cache.well_formed()
        &&& forall|k: Seq<char>| #[trigger] self.cache@.contains_key(k) ==> is_valid_embedding(self.cache@[k].1@)
    }

    /// The keys in the order in which they were first cached.
    pub closed spec fn key_order(&self) -> Seq<Seq<char>> {
        self.cache.key_order()
    }

    /// Changes have been made since the cache was loaded or last saved.
    pub closed spec fn dirty(&self) -> bool {
        self.dirty
    }

    /// Where the cache is persisted.
    pub closed spec fn path(&self) -> Seq<char> {
        self.cache_path@
    }

    /// What well-formedness gives a caller.
    pub proof fn lemma_well_formed(&self)
        requires
            self.well_formed(),
        ensures
            self@.dom().finite(),
            self.key_order().no_duplicates(),
            forall|k: Seq<char>| #[trigger] self@.contains_key(k) <==> self.key_order().contains(k),
            forall|k: Seq<char>| #[trigger] self@.contains_key(k) ==> is_valid_embedding(self@[k].1),
    {
        self.cache.lemma_keys();
        self.lemma_dom();
    }

    proof fn lemma_dom(&self)
        ensures
            self@.dom() == self.cache@.dom(),
            forall|k: Seq<char>| #[trigger] self.cache@.contains_key(k) ==> self@[k] == (self.cache@[k].0, self.cache@[k].1@),
    {
        assert(self@.dom() =~= self.cache@.dom());
    }

    /// A cache, persisted at `cache_path`, holding what `entries` load to.
    pub fn from_entries(cache_path: String, entries: Vec<CacheEntry>) -> (c: EmbeddingCache)
        ensures
            c.well_formed(),
            c@ == loaded_entries(entries@),
            c.path() == cache_path@,
            !c.dirty(),
    {
        let ghost all = entries@;
        let mut cache = EmbeddingCache { cache: KeyedMap::new(), cache_path, dirty: false };
        proof {
            assert(cache@ =~= loaded_entries(all.subrange(0, 0)));
        }
        let mut rest = entries;
        let ghost mut i: int = 0;
        // Entries are consumed from the front so that each can be moved into the map.
        rest = reverse_entries(rest);
        while rest.len() > 0
            invariant
                cache.well_formed(),
                !cache.dirty,
                cache.cache_path@ == cache_path@,
                i + rest@.len() == all.len(),
                forall|j: int| 0 <= j < rest@.len() ==> #[trigger] rest@[j] == all[all.len() - 1 - j],
                0 <= i <= all.len(),
                cache@ == loaded_entries(all.subrange(0, i as int)),
            decreases rest.len(),
        {
            let e = rest.pop().unwrap();
            proof {
                assert(e == all[i as int]);
                let prefix = all.subrange(0, i + 1);
                assert(prefix.drop_last() =~= all.subrange(0, i as int));
                assert(prefix.last() == e);
            }
            if embedding_valid(&e.embedding) {
                cache.cache.insert(e.key, (e.content_hash, e.embedding));
                proof {
                    assert(cache@ =~= loaded_entries(all.subrange(0, i + 1)));
                }
            }
            proof {
                i = i + 1;
            }
        }
        proof {
            assert(all.subrange(0, i as int) =~= all);
        }
        cache
    }

    /// The cached embedding for `key`, if one is stored and was computed for `content_hash`.
    pub fn get(&self, key: &str, content_hash: u64) -> (r: Option<&Vec<u32>>)
        requires
            self.well_formed(),
        ensures
            match r {
                Some(e) => cache_lookup(self@, key@, content_hash) == Some(e@),
                None => cache_lookup(self@, key@, content_hash) is None,
            },
    {
        match self.cache.get(key) {
            Some(entry) => {
                if entry.0 == content_hash && embedding_valid(&entry.1) {
                    Some(&entry.1)
                } else {
                    None
                }
            },
            None => None,
        }
    }

    /// Caches `embedding` for `key` under `content_hash`; an invalid embedding is ignored.
    pub fn insert(&mut self, key: String, content_hash: u64, embedding: Vec<u32>)
        requires
            old(self).well_formed(),
        ensures
            final(self).well_formed(),
            final(self).path() == old(self).path(),
            if is_valid_embedding(embedding@) {
                &&& final(self)@ == old(self)@.insert(key@, (content_hash, embedding@))
                &&& final(self).dirty()
                &&& final(self).key_order() == (if old(self)@.contains_key(key@) {
                    old(self).key_order()
                } else {
                    old(self).key_order().push(key@)
                })
            } else {
                &&& final(self)@ == old(self)@
                &&& final(self).dirty() == old(self).dirty()
                &&& final(self).key_order() == old(self).key_order()
            },
    {
        if embedding_valid(&embedding) {
            let ghost e = embedding@;
            self.cache.insert(key, (content_hash, embedding));
            self.dirty = true;
            proof {
                assert(self@ =~= old(self)@.insert(key@, (content_hash, e)));
            }
        }
    }

    pub fn contains_key(&self, key: &str) -> (b: bool)
        ensures
            b == self@.contains_key(key@),
    {
        self.cache.contains_key(key)
    }

    pub fn len(&self) -> (n: usize)
        requires
            self.well_formed(),
        ensures
            n == self@.len(),
    {
        proof {
            self.lemma_dom();
        }
        self.cache.len()
    }

    pub fn is_empty(&self) -> (b: bool)
        requires
            self.well_formed(),
        ensures
            b == (self@.len() == 0),
    {
        proof {
            self.lemma_dom();
        }
        self.cache.len() == 0
    }

    /// Removes every entry (used for a forced full rebuild).
    pub fn clear(&mut self)
        requires
            old(self).well_formed(),
        ensures
            final(self).well_formed(),
            final(self)@ == Map::<Seq<char>, (u64, Seq<u32>)>::empty(),
            final(self).dirty(),
            final(self).path() == old(self).path(),
    {
        self.cache.clear();
        self.dirty = true;
        proof {
            assert(self@ =~= Map::<Seq<char>, (u64, Seq<u32>)>::empty());
        }
    }

    /// Where the cache is persisted.
    pub fn cache_path(&self) -> (p: &String)
        ensures
            p@ == self.path(),
    {
        &self.cache_path
    }

    /// Whether there are changes that a save would write.
    pub fn is_dirty(&self) -> (b: bool)
        ensures
            b == self.dirty(),
    {
        self.dirty
    }

    /// The entries a save must write: `None` when nothing changed since the
    /// last load or save, else every entry, in key order.
    pub fn entries_to_save(&self) -> (r: Option<Vec<CacheEntry>>)
        requires
            self.well_formed(),
        ensures
            r is None <==> !self.dirty(),
            r matches Some(es) ==> {
                &&& es@.len() == self.key_order().len()
                &&& forall|i: int| 0 <= i < es@.len() ==> {
                    let k = #[trigger] self.key_order()[i];
                    &&& es@[i].key@ == k
                    &&& (es@[i].content_hash, es@[i].embedding@) == self@[k]
                }
            },
    {
        if !self.dirty {
            return None;
        }
        proof {
            self.cache.lemma_keys();
            self.lemma_dom();
        }
        let keys = self.cache.keys();
        let mut out: Vec<CacheEntry> = Vec::new();
        for i in 0..keys.len()
            invariant
                self.well_formed(),
                crate::store::keyed_map::string_views(keys@) == self.key_order(),
                forall|k: Seq<char>| #[trigger] self@.contains_key(k) <==> self.key_order().contains(k),
                self@.dom() == self.cache@.dom(),
                forall|k: Seq<char>| #[trigger] self.cache@.contains_key(k) ==> self@[k] == (self.cache@[k].0, self.cache@[k].1@),
                out@.len() == i,
                forall|j: int| 0 <= j < i ==> {
                    let k = #[trigger] self.key_order()[j];
                    &&& out@[j].key@ == k
                    &&& (out@[j].content_hash, out@[j].embedding@) == self@[k]
                },
        {
            let key = &keys[i];
            proof {
                assert(self.key_order()[i as int] == key@);
                assert(self.key_order().contains(key@));
            }
            match self.cache.get(key.as_str()) {
                Some(entry) => {
                    out.push(
                        CacheEntry {
                            key: key.clone(),
                            content_hash: entry.0,
                            embedding: copy_bits(&entry.1),
                        },
                    );
                },
                None => {
                    proof {
                        assert(false);
                    }
                },
            }
        }
        Some(out)
    }

    /// Records that the current contents have been written out.
    pub fn mark_saved(&mut self)
        ensures
            final(self)@ == old(self)@,
            final(self).key_order() == old(self).key_order(),
            final(self).well_formed() == old(self).well_formed(),
            final(self).path() == old(self).path(),
            !final(self).dirty(),
    {
        self.dirty = false;
    }
}

/// The entries in reverse order.
fn reverse_entries(v: Vec<CacheEntry>) -> (r: Vec<CacheEntry>)
    ensures
        r@.len() == v@.len(),
        forall|j: int| 0 <= j < r@.len() ==> #[trigger] r@[j] == v@[v@.len() - 1 - j],
{
    let mut src = v;
    let ghost orig = src@;
    let mut out: Vec<CacheEntry> = Vec::new();
    while src.len() > 0
        invariant
            out@.len() + src@.len() == orig.len(),
            src@ == orig.subrange(0, src@.len() as int),
            forall|j: int| 0 <= j < out@.len() ==> #[trigger] out@[j] == orig[orig.len() - 1 - j],
        decreases src.len(),
    {
        let e = src.pop().unwrap();
        out.push(e);
        proof {
            assert(src@ =~= orig.subrange(0, src@.len() as int));
        }
    }
    out
}

} // verus!
