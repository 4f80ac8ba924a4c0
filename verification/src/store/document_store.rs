use vstd::prelude::*;

use crate::seq_facts::lemma_filter_take_step;
use crate::store::content_hash::{compute_content_hash, content_hash_of};
use crate::store::document::{Document, DocumentView};
use crate::store::embedding_cache::{copy_bits, EmbeddingCache};
use crate::float_bits::is_valid_embedding;
use crate::store::keyed_map::{string_views, KeyedMap};

verus! {

broadcast use vstd::seq_lib::group_filter_ensures;

/// The document collection, keyed by document id.
///
/// There is no `get_mut`: the map that holds the documents (vstd's
/// `StringHashMap`) hands out no mutable reference to a stored value, so a
/// document is changed by storing a new one in its place, through `add` or
/// `record_embedding`.
pub struct DocumentStore {
    documents: KeyedMap<Document>,
    store_path: String,
}

/// A document whose embedding still has to be computed: its id, the text to
/// embed and the content hash of that text.
pub struct PendingEmbedding {
    pub id: String,
    pub embed_text: String,
    pub content_hash: u64,
}

/// What restoring from the cache left to do: how many documents were
/// restored, and the documents that need inference, in store order.
pub struct EmbeddingPlan {
    pub restored: usize,
    pub pending: Vec<PendingEmbedding>,
}

/// A stale document whose embedding the cache holds for its current content.
pub open spec fn restorable(cache: Map<Seq<char>, (u64, Seq<u32>)>, d: DocumentView) -> bool {
    &&& !d.is_fresh()
    &&& cache.contains_key(d.id)
    &&& cache[d.id].0 == content_hash_of(d.embed_view())
}

/// A stale document that the cache cannot restore.
pub open spec fn needs_inference(cache: Map<Seq<char>, (u64, Seq<u32>)>, d: DocumentView) -> bool {
    !d.is_fresh() && !restorable(cache, d)
}

/// `item` describes the pending work for document `d`.
pub open spec fn describes(item: PendingEmbedding, d: DocumentView) -> bool {
    &&& item.id@ == d.id
    &&& item.embed_text@ == d.embed_view()
    &&& item.content_hash == content_hash_of(d.embed_view())
}

/// `d` with its embedding and content hash replaced.
pub open spec fn with_embedding_spec(d: DocumentView, embedding: Seq<u32>, content_hash: u64) -> DocumentView {
    DocumentView { embedding, content_hash, ..d }
}

/// The store contents after recording embedding `e` for `item`: the
/// document with the item's id, if there is one, gets `e` and the item's
/// content hash.
pub open spec fn recorded_view(m: Map<Seq<char>, DocumentView>, item: PendingEmbedding, e: Seq<u32>) -> Map<
    Seq<char>,
    DocumentView,
> {
    if m.contains_key(item.id@) {
        m.insert(item.id@, with_embedding_spec(m[item.id@], e, item.content_hash))
    } else {
        m
    }
}

/// The store contents after recording each `(item, embedding)` step in turn.
pub open spec fn after_records(m: Map<Seq<char>, DocumentView>, steps: Seq<(PendingEmbedding, Seq<u32>)>) -> Map<
    Seq<char>,
    DocumentView,
>
    decreases steps.len(),
{
    if steps.len() == 0 {
        m
    } else {
        recorded_view(after_records(m, steps.drop_last()), steps.last().0, steps.last().1)
    }
}

/// The store contents that adding `docs` one after another to an empty store yields.
pub open spec fn added_all(docs: Seq<DocumentView>) -> Map<Seq<char>, DocumentView>
    decreases docs.len(),
{
    if docs.len() == 0 {
        Map::empty()
    } else {
        added_all(docs.drop_last()).insert(docs.last().id, docs.last())
    }
}

impl View for DocumentStore {
    type V = Map<Seq<char>, DocumentView>;

    closed spec fn view(&self) -> Map<Seq<char>, DocumentView> {
        self.documents@.map_values(|d: Document| d@)
    }
}

impl DocumentStore {
    /// The document ids, in the order in which they were first added.
    pub closed spec fn key_order(&self) -> Seq<Seq<char>> {
        self.documents.key_order()
    }

    /// Where the store is persisted.
    pub closed spec fn path(&self) -> Seq<char> {
        self.store_path@
    }

    /// The documents, in key order (the order in which their ids were first added).
    pub open spec fn docs_in_order(&self) -> Seq<DocumentView> {
        self.key_order().map_values(|k: Seq<char>| self@[k])
    }

    /// Each document is stored under its own id, and each id occurs once in the order.
    pub closed spec fn well_formed(&self) -> bool {
        &&& self.documents.well_formed()
        &&& forall|k: Seq<char>| #[trigger] self.documents@.contains_key(k) ==> self.documents@[k].id@ == k
    }

    proof fn lemma_dom(&self)
        ensures
            self@.dom() == self.documents@.dom(),
            forall|k: Seq<char>| #[trigger] self.documents@.contains_key(k) ==> self@[k] == self.documents@[k]@,
    {
        assert(self@.dom() =~= self.documents@.dom());
    }

    /// What well-formedness gives a caller.
    pub proof fn lemma_well_formed(&self)
        requires
            self.well_formed(),
        ensures
            self@.dom().finite(),
            self.key_order().no_duplicates(),
            self@.len() == self.key_order().len(),
            forall|k: Seq<char>| #[trigger] self@.contains_key(k) <==> self.key_order().contains(k),
            forall|k: Seq<char>| #[trigger] self@.contains_key(k) ==> self@[k].id == k,
    {
        self.documents.lemma_keys();
        self.lemma_dom();
    }

    /// An empty store persisted at `store_path`.
    pub fn at_path(store_path: String) -> (s: DocumentStore)
        ensures
            s.well_formed(),
            s@ == Map::<Seq<char>, DocumentView>::empty(),
            s.key_order() == Seq::<Seq<char>>::empty(),
            s.path() == store_path@,
    {
        let s = DocumentStore { documents: KeyedMap::new(), store_path };
        proof {
            assert(s@ =~= Map::<Seq<char>, DocumentView>::empty());
        }
        s
    }

    /// A store persisted at `store_path` holding `docs`, added in order (a
    /// later document with the same id replaces an earlier one).
    pub fn from_documents(store_path: String, docs: Vec<Document>) -> (s: DocumentStore)
        ensures
            s.well_formed(),
            s@ == added_all(docs@.map_values(|d: Document| d@)),
            s.path() == store_path@,
    {
        let ghost all = docs@;
        let ghost views = docs@.map_values(|d: Document| d@);
        let mut s = DocumentStore::at_path(store_path);
        let mut rest = docs;
        let mut back: Vec<Document> = Vec::new();
        while rest.len() > 0
            invariant
                back@.len() + rest@.len() == all.len(),
                rest@ == all.subrange(0, rest@.len() as int),
                forall|j: int| 0 <= j < back@.len() ==> #[trigger] back@[j] == all[all.len() - 1 - j],
            decreases rest.len(),
        {
            let d = rest.pop().unwrap();
            back.push(d);
            proof {
                assert(rest@ =~= all.subrange(0, rest@.len() as int));
            }
        }
        let ghost mut i: int = 0;
        proof {
            assert(s@ =~= added_all(views.subrange(0, 0)));
        }
        while back.len() > 0
            invariant
                s.well_formed(),
                s.path() == store_path@,
                0 <= i <= all.len(),
                i + back@.len() == all.len(),
                forall|j: int| 0 <= j < back@.len() ==> #[trigger] back@[j] == all[all.len() - 1 - j],
                views == all.map_values(|d: Document| d@),
                s@ == added_all(views.subrange(0, i)),
            decreases back.len(),
        {
            let d = back.pop().unwrap();
            proof {
                assert(d == all[i]);
                let prefix = views.subrange(0, i + 1);
                assert(prefix.drop_last() =~= views.subrange(0, i));
                assert(prefix.last() == d@);
            }
            s.add(d);
            proof {
                i = i + 1;
            }
        }
        proof {
            assert(views.subrange(0, i) =~= views);
        }
        s
    }

    /// Where the store is persisted.
    pub fn store_path(&self) -> (p: &String)
        ensures
            p@ == self.path(),
    {
        &self.store_path
    }

    /// Adds `doc` under its id, replacing any document with that id.
    pub fn add(&mut self, doc: Document)
        requires
            old(self).well_formed(),
        ensures
            final(self).well_formed(),
            final(self).path() == old(self).path(),
            final(self)@ == old(self)@.insert(doc@.id, doc@),
            final(self).key_order() == (if old(self)@.contains_key(doc@.id) {
                old(self).key_order()
            } else {
                old(self).key_order().push(doc@.id)
            }),
    {
        proof {
            old(self).lemma_dom();
        }
        let id = doc.id.clone();
        let ghost dv = doc@;
        self.documents.insert(id, doc);
        proof {
            assert(self@ =~= old(self)@.insert(dv.id, dv));
        }
    }

    /// Removes the document with id `id` and returns it.
    pub fn remove(&mut self, id: &str) -> (r: Option<Document>)
        requires
            old(self).well_formed(),
        ensures
            final(self).well_formed(),
            final(self).path() == old(self).path(),
            final(self)@ == old(self)@.remove(id@),
            final(self).key_order() == old(self).key_order().remove_value(id@),
            match r {
                Some(d) => old(self)@.contains_key(id@) && d@ == old(self)@[id@],
                None => !old(self)@.contains_key(id@),
            },
    {
        proof {
            old(self).lemma_dom();
        }
        let r = match self.documents.get(id) {
            Some(d) => Some(d.duplicate()),
            None => None,
        };
        self.documents.remove(id);
        proof {
            assert(self@ =~= old(self)@.remove(id@));
        }
        r
    }

    pub fn get(&self, id: &str) -> (r: Option<&Document>)
        ensures
            match r {
                Some(d) => self@.contains_key(id@) && d@ == self@[id@],
                None => !self@.contains_key(id@),
            },
    {
        proof {
            self.lemma_dom();
        }
        self.documents.get(id)
    }

    /// Every document, in key order (the order in which their ids were first added).
    pub fn all_documents(&self) -> (ds: Vec<&Document>)
        requires
            self.well_formed(),
        ensures
            ds@.len() == self.docs_in_order().len(),
            forall|i: int| 0 <= i < ds@.len() ==> #[trigger] ds@[i]@ == self.docs_in_order()[i],
    {
        proof {
            self.lemma_dom();
            self.documents.lemma_keys();
        }
        self.documents.values()
    }

    /// The documents that hold no embedding, in key order (the order in which their ids were first added).
    pub fn documents_without_embeddings(&self) -> (ds: Vec<&Document>)
        requires
            self.well_formed(),
        ensures
            ds@.map_values(|d: &Document| d@) == self.docs_in_order().filter(
                |d: DocumentView| !d.holds_embedding(),
            ),
    {
        let all = self.all_documents();
        let ghost docs = self.docs_in_order();
        let ghost pred = |d: DocumentView| !d.holds_embedding();
        let mut out: Vec<&Document> = Vec::new();
        for i in 0..all.len()
            invariant
                pred == (|d: DocumentView| !d.holds_embedding()),
                all@.len() == docs.len(),
                forall|j: int| 0 <= j < all@.len() ==> #[trigger] all@[j]@ == docs[j],
                out@.map_values(|d: &Document| d@) == docs.take(i as int).filter(pred),
        {
            proof {
                lemma_filter_take_step(docs, pred, i as int);
                assert(all@[i as int]@ == docs[i as int]);
            }
            if !all[i].has_embedding() {
                out.push(all[i]);
            }
            proof {
                assert(out@.map_values(|d: &Document| d@) =~= docs.take(i + 1).filter(pred));
            }
        }
        proof {
            assert(docs.take(all@.len() as int) =~= docs);
        }
        out
    }

    /// Number of documents.
    pub fn count(&self) -> (n: usize)
        requires
            self.well_formed(),
        ensures
            n == self@.len(),
    {
        proof {
            self.documents.lemma_keys();
            self.lemma_dom();
        }
        self.documents.len()
    }

    /// Number of documents that hold an embedding.
    pub fn count_with_embeddings(&self) -> (n: usize)
        requires
            self.well_formed(),
        ensures
            n == self.docs_in_order().filter(|d: DocumentView| d.holds_embedding()).len(),
    {
        let all = self.all_documents();
        let ghost docs = self.docs_in_order();
        let ghost pred = |d: DocumentView| d.holds_embedding();
        let mut n: usize = 0;
        for i in 0..all.len()
            invariant
                pred == (|d: DocumentView| d.holds_embedding()),
                all@.len() == docs.len(),
                forall|j: int| 0 <= j < all@.len() ==> #[trigger] all@[j]@ == docs[j],
                n == docs.take(i as int).filter(pred).len(),
                n <= i,
        {
            proof {
                lemma_filter_take_step(docs, pred, i as int);
                assert(all@[i as int]@ == docs[i as int]);
            }
            if all[i].has_embedding() {
                n = n + 1;
            }
        }
        proof {
            assert(docs.take(all@.len() as int) =~= docs);
        }
        n
    }

    /// Number of documents whose embedding is stale: present, but computed for other content.
    pub fn count_stale_embeddings(&self) -> (n: usize)
        requires
            self.well_formed(),
        ensures
            n == self.docs_in_order().filter(
                |d: DocumentView| d.holds_embedding() && !d.is_fresh(),
            ).len(),
    {
        let all = self.all_documents();
        let ghost docs = self.docs_in_order();
        let ghost pred = |d: DocumentView| d.holds_embedding() && !d.is_fresh();
        let mut n: usize = 0;
        for i in 0..all.len()
            invariant
                pred == (|d: DocumentView| d.holds_embedding() && !d.is_fresh()),
                all@.len() == docs.len(),
                forall|j: int| 0 <= j < all@.len() ==> #[trigger] all@[j]@ == docs[j],
                n == docs.take(i as int).filter(pred).len(),
                n <= i,
        {
            proof {
                lemma_filter_take_step(docs, pred, i as int);
                assert(all@[i as int]@ == docs[i as int]);
            }
            if all[i].has_embedding() && !all[i].embedding_is_fresh() {
                n = n + 1;
            }
        }
        proof {
            assert(docs.take(all@.len() as int) =~= docs);
        }
        n
    }
    /// Steps 1 and 2 of computing missing embeddings: every document whose
    /// embedding is not fresh is restored from `cache` when the cache holds an
    /// embedding for its current content; the rest are returned as pending
    /// work, in key order (the order in which their ids were first added).
    pub fn restore_from_cache(&mut self, cache: &EmbeddingCache) -> (plan: EmbeddingPlan)
        requires
            old(self).well_formed(),
            cache.well_formed(),
        ensures
            final(self).well_formed(),
            final(self).path() == old(self).path(),
            final(self).key_order() == old(self).key_order(),
            final(self)@.dom() == old(self)@.dom(),
            forall|k: Seq<char>| #[trigger] old(self)@.contains_key(k) ==> final(self)@[k] == (if restorable(cache@, old(self)@[k]) {
                with_embedding_spec(old(self)@[k], cache@[k].1, cache@[k].0)
            } else {
                old(self)@[k]
            }),
            plan.restored == old(self).docs_in_order().filter(|d: DocumentView| restorable(cache@, d)).len(),
            plan.pending@.len() == old(self).docs_in_order().filter(|d: DocumentView| needs_inference(cache@, d)).len(),
            forall|i: int| 0 <= i < plan.pending@.len() ==> describes(
                #[trigger] plan.pending@[i],
                old(self).docs_in_order().filter(|d: DocumentView| needs_inference(cache@, d))[i],
            ),
    {
        proof {
            self.lemma_well_formed();
            self.lemma_dom();
            cache.lemma_well_formed();
        }
        let keys = self.documents.key_list();
        let ghost order = self.key_order();
        let ghost old_view = self@;
        let ghost docs = self.docs_in_order();
        let ghost restore_pred = |d: DocumentView| restorable(cache@, d);
        let ghost infer_pred = |d: DocumentView| needs_inference(cache@, d);
        let mut restored: usize = 0;
        let mut pending: Vec<PendingEmbedding> = Vec::new();
        let n = keys.len();
        for i in 0..n
            invariant
                n == keys@.len(),
                string_views(keys@) == order,
                order == old(self).key_order(),
                old_view == old(self)@,
                docs == old(self).docs_in_order(),
                restore_pred == (|d: DocumentView| restorable(cache@, d)),
                infer_pred == (|d: DocumentView| needs_inference(cache@, d)),
                cache.well_formed(),
                forall|k: Seq<char>| #[trigger] cache@.contains_key(k) ==> is_valid_embedding(cache@[k].1),
                order.no_duplicates(),
                forall|k: Seq<char>| #[trigger] old_view.contains_key(k) <==> order.contains(k),
                forall|k: Seq<char>| #[trigger] old_view.contains_key(k) ==> old_view[k].id == k,
                self.well_formed(),
                self.path() == old(self).path(),
                self.key_order() == order,
                self@.dom() == old_view.dom(),
                forall|j: int| 0 <= j < i ==> #[trigger] self@[order[j]] == (if restorable(cache@, old_view[order[j]]) {
                    with_embedding_spec(old_view[order[j]], cache@[order[j]].1, cache@[order[j]].0)
                } else {
                    old_view[order[j]]
                }),
                forall|j: int| i <= j < n ==> #[trigger] self@[order[j]] == old_view[order[j]],
                restored <= i,
                restored == docs.take(i as int).filter(restore_pred).len(),
                pending@.len() == docs.take(i as int).filter(infer_pred).len(),
                forall|m: int| 0 <= m < pending@.len() ==> describes(
                    #[trigger] pending@[m],
                    docs.take(i as int).filter(infer_pred)[m],
                ),
        {
            let key = &keys[i];
            proof {
                assert(order[i as int] == key@);
                assert(order.contains(key@));
                assert(docs[i as int] == old_view[key@]);
                lemma_filter_take_step(docs, restore_pred, i as int);
                lemma_filter_take_step(docs, infer_pred, i as int);
                self.lemma_dom();
            }
            let ghost before = self@;
            let mut replacement: Option<Document> = None;
            match self.documents.get(key.as_str()) {
                Some(d) => {
                    if !d.embedding_is_fresh() {
                        let text = d.embed_text();
                        let hash = compute_content_hash(text.as_str());
                        match cache.get(key.as_str(), hash) {
                            Some(e) => {
                                replacement = Some(d.with_embedding(copy_bits(e), hash));
                            },
                            None => {
                                pending.push(PendingEmbedding { id: key.clone(), embed_text: text, content_hash: hash });
                            },
                        }
                    }
                },
                None => {
                    proof {
                        assert(false);
                    }
                },
            }
            match replacement {
                Some(nd) => {
                    let ghost ndv = nd@;
                    self.documents.insert(key.clone(), nd);
                    restored = restored + 1;
                    proof {
                        self.lemma_dom();
                        assert(self@ =~= before.insert(key@, ndv));
                        assert forall|j: int| 0 <= j < n && j != i implies order[j] != order[i as int] by {
                            assert(order.no_duplicates());
                        }
                    }
                },
                None => {},
            }
            proof {
                assert forall|j: int| 0 <= j < n && j != i implies order[j] != order[i as int] by {
                    assert(order.no_duplicates());
                }
            }
        }
        proof {
            assert(docs.take(n as int) =~= docs);
        }
        EmbeddingPlan { restored, pending }
    }

    /// Step 3 for one pending document: caches the computed `embedding` under
    /// the item's id and content hash (an invalid embedding is not cached), and
    /// stores it with that hash in the document. Returns whether the document
    /// was present.
    pub fn record_embedding(&mut self, cache: &mut EmbeddingCache, item: &PendingEmbedding, embedding: Vec<u32>) -> (recorded: bool)
        requires
            old(self).well_formed(),
            old(cache).well_formed(),
        ensures
            final(self).well_formed(),
            final(cache).well_formed(),
            final(self).path() == old(self).path(),
            final(cache).path() == old(cache).path(),
            final(self).key_order() == old(self).key_order(),
            if is_valid_embedding(embedding@) {
                &&& final(cache)@ == old(cache)@.insert(item.id@, (item.content_hash, embedding@))
                &&& final(cache).dirty()
            } else {
                &&& final(cache)@ == old(cache)@
                &&& final(cache).dirty() == old(cache).dirty()
            },
            recorded == old(self)@.contains_key(item.id@),
            final(self)@ == recorded_view(old(self)@, *item, embedding@),
    {
        proof {
            self.lemma_dom();
        }
        let copy = copy_bits(&embedding);
        cache.insert(item.id.clone(), item.content_hash, copy);
        let replacement = match self.documents.get(item.id.as_str()) {
            Some(d) => Some(d.with_embedding(embedding, item.content_hash)),
            None => None,
        };
        match replacement {
            Some(nd) => {
                let ghost ndv = nd@;
                self.documents.insert(item.id.clone(), nd);
                proof {
                    self.lemma_dom();
                    assert(self@ =~= old(self)@.insert(item.id@, ndv));
                }
                true
            },
            None => false,
        }
    }
}

} // verus!
