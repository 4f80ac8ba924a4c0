use std::collections::hash_map::DefaultHasher;
use vstd::prelude::*;
use vstd::std_specs::hash::DefaultHasherAdditionalSpecFns;

use crate::cli::supported_extensions;
use crate::float_bits::{is_nan_bits, is_zero_bits};
use crate::search::fuzzy::{best_word_match, skim_fuzzy_match, whitespace_words};
use crate::store::content_hash::{content_hash_of, str_hash_writes};
use crate::store::document::embed_text_of;

use crate::float_bits::{float_ge, holds_embedding, is_valid_embedding, order_key};
use crate::search::fuzzy::raw_fuzzy_score;
use crate::search::ranking::{is_ranking, ranks_before};
use crate::seq_facts::{lemma_filter_len_mono, lemma_filter_split};
use crate::store::document::DocumentView;
use crate::store::document_store::{added_all, DocumentStore};
use crate::store::embedding_cache::{loaded_entries, CacheEntry, EmbeddingCache};
use crate::store::document_store::{
    after_records, describes, needs_inference, recorded_view, restorable, with_embedding_spec,
    PendingEmbedding,
};
use crate::store::embedding_cache::cache_lookup;

verus! {

/// Whether an embedding is fresh depends only on the embedding, its recorded
/// content hash and the document's embed text (title and text).
pub proof fn law_freshness_follows_content(a: DocumentView, b: DocumentView)
    requires
        a.embedding == b.embedding,
        a.content_hash == b.content_hash,
        a.embed_view() == b.embed_view(),
    ensures
        a.is_fresh() == b.is_fresh(),
{
}

/// Reading back what was cached: after caching a valid embedding `e` for
/// `key` under `hash`, a lookup of `key` for `hash` finds `e`, a lookup of
/// `key` for another hash finds nothing, and other keys read as before.
pub proof fn law_cache_read_after_write(
    before: Map<Seq<char>, (u64, Seq<u32>)>,
    key: Seq<char>,
    hash: u64,
    e: Seq<u32>,
    other_key: Seq<char>,
    other_hash: u64,
)
    requires
        is_valid_embedding(e),
    ensures
        cache_lookup(before.insert(key, (hash, e)), key, hash) == Some(e),
        other_hash != hash ==> cache_lookup(before.insert(key, (hash, e)), key, other_hash) is None,
        other_key != key ==> cache_lookup(before.insert(key, (hash, e)), other_key, other_hash) == cache_lookup(
            before,
            other_key,
            other_hash,
        ),
{
}

/// After the cache is cleared, every lookup misses.
pub proof fn law_cleared_cache_misses(key: Seq<char>, hash: u64)
    ensures
        cache_lookup(Map::<Seq<char>, (u64, Seq<u32>)>::empty(), key, hash) is None,
{
}

/// A document read back after it was added is the one added; adding a
/// document under a new id and removing it again leaves the contents and the
/// key order as they were.
pub proof fn law_store_add_then_remove(
    before: Map<Seq<char>, DocumentView>,
    order: Seq<Seq<char>>,
    d: DocumentView,
)
    ensures
        before.insert(d.id, d).contains_key(d.id),
        before.insert(d.id, d)[d.id] == d,
        !before.contains_key(d.id) ==> before.insert(d.id, d).remove(d.id) == before,
        !order.contains(d.id) ==> order.push(d.id).remove_value(d.id) == order,
{
    if !before.contains_key(d.id) {
        assert(before.insert(d.id, d).remove(d.id) =~= before);
    }
    if !order.contains(d.id) {
        let pushed = order.push(d.id);
        pushed.index_of_first_ensures(d.id);
        assert(pushed[order.len() as int] == d.id);
        let i = pushed.index_of_first(d.id).unwrap();
        if i < order.len() {
            assert(order[i] == d.id);
            assert(false);
        }
        assert(pushed.remove(order.len() as int) =~= order);
    }
}

/// Every document either holds an embedding or does not: the documents with
/// embeddings and those without together are all the documents.
pub proof fn law_embedding_counts_partition(docs: Seq<DocumentView>)
    ensures
        docs.filter(|d: DocumentView| d.holds_embedding()).len() + docs.filter(
            |d: DocumentView| !d.holds_embedding(),
        ).len() == docs.len(),
{
    let all = |d: DocumentView| true;
    lemma_filter_split(
        docs,
        |d: DocumentView| d.holds_embedding(),
        |d: DocumentView| !d.holds_embedding(),
        all,
    );
    crate::seq_facts::lemma_filter_all(docs, all);
}

/// Stale embeddings are counted among the documents that hold an embedding.
pub proof fn law_stale_within_embedded(docs: Seq<DocumentView>)
    ensures
        docs.filter(|d: DocumentView| d.holds_embedding() && !d.is_fresh()).len() <= docs.filter(
            |d: DocumentView| d.holds_embedding(),
        ).len(),
{
    lemma_filter_len_mono(
        docs,
        |d: DocumentView| d.holds_embedding() && !d.is_fresh(),
        |d: DocumentView| d.holds_embedding(),
    );
}

/// Each document whose embedding is not fresh is either restored from the
/// cache or left for inference, never both; a fresh document is neither.
pub proof fn law_stale_documents_restored_or_pending(
    cache: Map<Seq<char>, (u64, Seq<u32>)>,
    docs: Seq<DocumentView>,
)
    ensures
        docs.filter(|d: DocumentView| restorable(cache, d)).len() + docs.filter(
            |d: DocumentView| needs_inference(cache, d),
        ).len() == docs.filter(|d: DocumentView| !d.is_fresh()).len(),
        forall|d: DocumentView| d.is_fresh() ==> !restorable(cache, d) && !needs_inference(cache, d),
{
    lemma_filter_split(
        docs,
        |d: DocumentView| restorable(cache, d),
        |d: DocumentView| needs_inference(cache, d),
        |d: DocumentView| !d.is_fresh(),
    );
}

/// A document restored from the cache is fresh afterwards.
pub proof fn law_restored_document_is_fresh(cache: Map<Seq<char>, (u64, Seq<u32>)>, d: DocumentView)
    requires
        restorable(cache, d),
        is_valid_embedding(cache[d.id].1),
    ensures
        with_embedding_spec(d, cache[d.id].1, cache[d.id].0).is_fresh(),
{
}

/// A pending document that is recorded with a computed embedding holding a
/// non-zero component is fresh afterwards.
pub proof fn law_recorded_document_is_fresh(
    item: crate::store::document_store::PendingEmbedding,
    d: DocumentView,
    e: Seq<u32>,
)
    requires
        describes(item, d),
        holds_embedding(e),
    ensures
        with_embedding_spec(d, e, item.content_hash).is_fresh(),
{
}

/// Recording steps touch only their own ids: after a run of steps, a
/// document no step names is unchanged, and one that a step names was
/// recorded by that step.
proof fn lemma_after_records(m: Map<Seq<char>, DocumentView>, steps: Seq<(PendingEmbedding, Seq<u32>)>)
    requires
        forall|a: int, b: int| 0 <= a < b < steps.len() ==> (#[trigger] steps[a]).0.id@ != (#[trigger] steps[b]).0.id@,
    ensures
        after_records(m, steps).dom() == m.dom(),
        forall|k: Seq<char>|
            #![trigger after_records(m, steps)[k]]
            m.contains_key(k) && (forall|j: int| 0 <= j < steps.len() ==> (#[trigger] steps[j]).0.id@ != k)
                ==> after_records(m, steps)[k] == m[k],
        forall|j: int|
            0 <= j < steps.len() && m.contains_key((#[trigger] steps[j]).0.id@) ==> after_records(m, steps)[steps[j].0.id@]
                == with_embedding_spec(m[steps[j].0.id@], steps[j].1, steps[j].0.content_hash),
    decreases steps.len(),
{
    if steps.len() > 0 {
        let rest = steps.drop_last();
        lemma_after_records(m, rest);
        let prev = after_records(m, rest);
        let last = steps.last();
        assert(after_records(m, steps) == recorded_view(prev, last.0, last.1));
        assert(after_records(m, steps).dom() =~= m.dom());
        assert forall|j: int|
            0 <= j < steps.len() && m.contains_key((#[trigger] steps[j]).0.id@) implies after_records(m, steps)[steps[j].0.id@]
                == with_embedding_spec(m[steps[j].0.id@], steps[j].1, steps[j].0.content_hash) by {
            if j == steps.len() - 1 {
                let k = last.0.id@;
                assert forall|i: int| 0 <= i < rest.len() implies (#[trigger] rest[i]).0.id@ != k by {
                    assert(rest[i] == steps[i]);
                }
                assert(prev[k] == m[k]);
            } else {
                assert(rest[j] == steps[j]);
                assert(steps[j].0.id@ != last.0.id@);
            }
        }
        assert forall|k: Seq<char>|
            #![trigger after_records(m, steps)[k]]
            m.contains_key(k) && (forall|j: int| 0 <= j < steps.len() ==> (#[trigger] steps[j]).0.id@ != k)
                implies after_records(m, steps)[k] == m[k] by {
            assert forall|j: int| 0 <= j < rest.len() implies (#[trigger] rest[j]).0.id@ != k by {
                assert(rest[j] == steps[j]);
            }
            assert(steps[steps.len() - 1] == last);
        }
    }
}

/// Incremental rebuild completes: starting from a store in which every
/// document is fresh or named by a pending item that describes it, recording
/// each pending item with an embedding that holds a non-zero component leaves
/// every document fresh, and no document is added or dropped.
pub proof fn law_recording_all_pending_makes_store_fresh(
    m: Map<Seq<char>, DocumentView>,
    steps: Seq<(PendingEmbedding, Seq<u32>)>,
)
    requires
        forall|k: Seq<char>| #[trigger] m.contains_key(k) ==> m[k].id == k,
        forall|j: int|
            0 <= j < steps.len() && m.contains_key((#[trigger] steps[j]).0.id@) ==> describes(steps[j].0, m[steps[j].0.id@]),
        forall|j: int| 0 <= j < steps.len() ==> holds_embedding((#[trigger] steps[j]).1),
        forall|a: int, b: int| 0 <= a < b < steps.len() ==> (#[trigger] steps[a]).0.id@ != (#[trigger] steps[b]).0.id@,
        forall|k: Seq<char>|
            #[trigger] m.contains_key(k) ==> m[k].is_fresh() || exists|j: int|
                0 <= j < steps.len() && (#[trigger] steps[j]).0.id@ == k,
    ensures
        after_records(m, steps).dom() == m.dom(),
        forall|k: Seq<char>| #[trigger] after_records(m, steps).contains_key(k) ==> after_records(m, steps)[k].is_fresh(),
{
    lemma_after_records(m, steps);
    assert forall|k: Seq<char>| #[trigger] after_records(m, steps).contains_key(k) implies after_records(
        m,
        steps,
    )[k].is_fresh() by {
        assert(m.contains_key(k));
        if exists|j: int| 0 <= j < steps.len() && (#[trigger] steps[j]).0.id@ == k {
            let j = choose|j: int| 0 <= j < steps.len() && (#[trigger] steps[j]).0.id@ == k;
            assert(describes(steps[j].0, m[k]));
            law_recorded_document_is_fresh(steps[j].0, m[k], steps[j].1);
        } else {
            assert(after_records(m, steps)[k] == m[k]);
        }
    }
}

/// Filtering a sequence of documents with pairwise distinct ids keeps the ids distinct.
proof fn lemma_filter_keeps_distinct_ids(s: Seq<DocumentView>, p: spec_fn(DocumentView) -> bool)
    requires
        forall|a: int, b: int| 0 <= a < b < s.len() ==> (#[trigger] s[a]).id != (#[trigger] s[b]).id,
    ensures
        forall|a: int, b: int|
            0 <= a < b < s.filter(p).len() ==> (#[trigger] s.filter(p)[a]).id != (#[trigger] s.filter(p)[b]).id,
    decreases s.len(),
{
    broadcast use vstd::seq_lib::group_filter_ensures;

    reveal(Seq::filter);
    if s.len() > 0 {
        let rest = s.drop_last();
        assert forall|a: int, b: int| 0 <= a < b < rest.len() implies (#[trigger] rest[a]).id != (
        #[trigger] rest[b]).id by {
            assert(rest[a] == s[a] && rest[b] == s[b]);
        }
        lemma_filter_keeps_distinct_ids(rest, p);
        let fr = rest.filter(p);
        if p(s.last()) {
            assert(s.filter(p) == fr.push(s.last()));
            assert forall|a: int, b: int| 0 <= a < b < s.filter(p).len() implies (#[trigger] s.filter(p)[a]).id
                != (#[trigger] s.filter(p)[b]).id by {
                if b == fr.len() {
                    let x = fr[a];
                    assert(fr.contains(x));
                    rest.lemma_filter_contains_rev(p, x);
                    let i = choose|i: int| 0 <= i < rest.len() && rest[i] == x;
                    assert(s[i] == x);
                    assert(s[s.len() - 1] == s.last());
                } else {
                    assert(s.filter(p)[a] == fr[a] && s.filter(p)[b] == fr[b]);
                }
            }
        }
    }
}

/// Incremental rebuild completes. Suppose a store (ids in `order`, contents
/// `before`) was restored from a cache holding only valid embeddings, giving
/// contents `after` and `pending` work, as `restore_from_cache` states; then
/// recording each pending item in turn with an embedding that holds a
/// non-zero component leaves every document fresh, and no document is added
/// or dropped.
pub proof fn law_restore_then_record_makes_store_fresh(
    before: Map<Seq<char>, DocumentView>,
    order: Seq<Seq<char>>,
    cache: Map<Seq<char>, (u64, Seq<u32>)>,
    after: Map<Seq<char>, DocumentView>,
    pending: Seq<PendingEmbedding>,
    embeddings: Seq<Seq<u32>>,
)
    requires
        order.no_duplicates(),
        forall|k: Seq<char>| #[trigger] before.contains_key(k) <==> order.contains(k),
        forall|k: Seq<char>| #[trigger] before.contains_key(k) ==> before[k].id == k,
        forall|k: Seq<char>| #[trigger] cache.contains_key(k) ==> is_valid_embedding(cache[k].1),
        after.dom() == before.dom(),
        forall|k: Seq<char>| #[trigger] before.contains_key(k) ==> after[k] == (if restorable(cache, before[k]) {
            with_embedding_spec(before[k], cache[k].1, cache[k].0)
        } else {
            before[k]
        }),
        pending.len() == order.map_values(|k: Seq<char>| before[k]).filter(
            |d: DocumentView| needs_inference(cache, d),
        ).len(),
        forall|i: int| 0 <= i < pending.len() ==> describes(
            #[trigger] pending[i],
            order.map_values(|k: Seq<char>| before[k]).filter(|d: DocumentView| needs_inference(cache, d))[i],
        ),
        embeddings.len() == pending.len(),
        forall|i: int| 0 <= i < embeddings.len() ==> holds_embedding(#[trigger] embeddings[i]),
    ensures
        ({
            let steps = Seq::new(pending.len(), |i: int| (pending[i], embeddings[i]));
            &&& after_records(after, steps).dom() == before.dom()
            &&& forall|k: Seq<char>| #[trigger] after_records(after, steps).contains_key(k) ==> after_records(
                after,
                steps,
            )[k].is_fresh()
        }),
{
    broadcast use vstd::seq_lib::group_filter_ensures;

    let docs = order.map_values(|k: Seq<char>| before[k]);
    let infer = |d: DocumentView| needs_inference(cache, d);
    let f = docs.filter(infer);
    let steps = Seq::new(pending.len(), |i: int| (pending[i], embeddings[i]));
    assert forall|a: int, b: int| 0 <= a < b < docs.len() implies (#[trigger] docs[a]).id != (
    #[trigger] docs[b]).id by {
        assert(order.contains(order[a]) && order.contains(order[b]));
        assert(before.contains_key(order[a]) && before.contains_key(order[b]));
        assert(docs[a] == before[order[a]] && docs[b] == before[order[b]]);
        assert(docs[a].id == order[a] && docs[b].id == order[b]);
    }
    lemma_filter_keeps_distinct_ids(docs, infer);
    // Each pending item names a document that still awaits inference, unchanged by the restore.
    assert forall|j: int| 0 <= j < f.len() implies {
        &&& before.contains_key((#[trigger] f[j]).id)
        &&& needs_inference(cache, f[j])
        &&& before[f[j].id] == f[j]
    } by {
        assert(f.contains(f[j]));
        docs.lemma_filter_contains_rev(infer, f[j]);
        let i = choose|i: int| 0 <= i < docs.len() && docs[i] == f[j];
        assert(order.contains(order[i]));
        assert(before.contains_key(order[i]));
        assert(docs[i] == before[order[i]]);
        assert(f[j].id == order[i]);
        assert(infer(f[j]));
    }
    assert forall|j: int|
        0 <= j < steps.len() && after.contains_key((#[trigger] steps[j]).0.id@) implies describes(
        steps[j].0,
        after[steps[j].0.id@],
    ) by {
        assert(steps[j].0 == pending[j]);
        assert(describes(pending[j], f[j]));
        assert(before[f[j].id] == f[j]);
    }
    assert forall|j: int| 0 <= j < steps.len() implies holds_embedding((#[trigger] steps[j]).1) by {
        assert(steps[j].1 == embeddings[j]);
    }
    assert forall|a: int, b: int| 0 <= a < b < steps.len() implies (#[trigger] steps[a]).0.id@ != (
    #[trigger] steps[b]).0.id@ by {
        assert(steps[a].0 == pending[a] && steps[b].0 == pending[b]);
        assert(describes(pending[a], f[a]) && describes(pending[b], f[b]));
    }
    assert forall|k: Seq<char>| #[trigger] after.contains_key(k) implies after[k].is_fresh() || exists|j: int|
        0 <= j < steps.len() && (#[trigger] steps[j]).0.id@ == k by {
        assert(before.contains_key(k));
        let d = before[k];
        if restorable(cache, d) {
            law_restored_document_is_fresh(cache, d);
        } else if !d.is_fresh() {
            assert(order.contains(k));
            let i = choose|i: int| 0 <= i < order.len() && order[i] == k;
            assert(docs[i] == d);
            assert(infer(docs[i]));
            assert(f.contains(d));
            let j = choose|j: int| 0 <= j < f.len() && f[j] == d;
            assert(describes(pending[j], f[j]));
            assert(steps[j].0 == pending[j]);
            assert(steps[j].0.id@ == k);
        }
    }
    law_recording_all_pending_makes_store_fresh(after, steps);
}

/// Ranked results come best first, each reaches the threshold, and none repeats.
pub proof fn law_ranking_best_first(scores: Seq<u32>, threshold: u32, order: Seq<usize>)
    requires
        is_ranking(scores, threshold, order),
    ensures
        forall|a: int, b: int|
            0 <= a < b < order.len() ==> order_key(scores[#[trigger] order[a] as int]) >= order_key(
                scores[#[trigger] order[b] as int],
            ),
        forall|j: int| 0 <= j < order.len() ==> float_ge(scores[#[trigger] order[j] as int], threshold),
        order.no_duplicates(),
{
    assert forall|a: int, b: int| 0 <= a < b < order.len() implies order[a] != order[b] by {
        assert(ranks_before(scores, order[a] as int, order[b] as int));
    }
}

/// Session resets keep pace with the inference count: when the count since
/// the last reset is the total count modulo the interval, the next inference
/// triggers a reset exactly when the new total is a multiple of the interval,
/// and otherwise the count since the last reset stays the total modulo the
/// interval. So, short of the last inference, the session is recreated after
/// every `interval`-th inference.
pub proof fn law_session_resets_every_interval(interval: int, processed: int)
    requires
        interval > 0,
        processed >= 0,
    ensures
        (processed % interval + 1 >= interval) == ((processed + 1) % interval == 0),
        processed % interval + 1 < interval ==> (processed + 1) % interval == processed % interval + 1,
{
    vstd::arithmetic::div_mod::lemma_fundamental_div_mod(processed, interval);
    vstd::arithmetic::div_mod::lemma_fundamental_div_mod(processed + 1, interval);
    vstd::arithmetic::div_mod::lemma_mod_bound(processed, interval);
    vstd::arithmetic::div_mod::lemma_mod_bound(processed + 1, interval);
    let q = processed / interval;
    let r = processed % interval;
    if r + 1 == interval {
        vstd::arithmetic::div_mod::lemma_mod_multiples_vanish(q + 1, 0, interval);
        assert(processed + 1 == (q + 1) * interval) by (nonlinear_arith)
            requires
                processed == interval * q + r,
                r + 1 == interval,
        ;
        vstd::arithmetic::div_mod::lemma_mod_multiples_basic(q + 1, interval);
    } else {
        assert(processed + 1 == q * interval + (r + 1)) by (nonlinear_arith)
            requires
                processed == interval * q + r,
        ;
        vstd::arithmetic::div_mod::lemma_fundamental_div_mod_converse(processed + 1, interval, q, r + 1);
    }
}

/// Fuzzy matching an empty query, or against an empty text, scores 0.
pub proof fn law_empty_fuzzy_match_scores_zero(query: Seq<char>, text: Seq<char>)
    requires
        query.len() == 0 || text.len() == 0,
    ensures
        raw_fuzzy_score(query, text) == 0,
{
}

/// Adding documents that each agree with a map `m` yields a part of `m`
/// that holds every id added.
proof fn lemma_added_within(m: Map<Seq<char>, DocumentView>, docs: Seq<DocumentView>)
    requires
        forall|i: int|
            0 <= i < docs.len() ==> m.contains_key((#[trigger] docs[i]).id) && m[docs[i].id] == docs[i],
    ensures
        forall|k: Seq<char>| #[trigger] added_all(docs).contains_key(k) ==> m.contains_key(k) && added_all(docs)[k] == m[k],
        forall|i: int| 0 <= i < docs.len() ==> added_all(docs).contains_key((#[trigger] docs[i]).id),
    decreases docs.len(),
{
    if docs.len() == 0 {
        assert(added_all(docs) == Map::<Seq<char>, DocumentView>::empty());
    } else {
        let prefix = docs.drop_last();
        assert forall|i: int| 0 <= i < prefix.len() implies m.contains_key((#[trigger] prefix[i]).id) && m[prefix[i].id]
            == prefix[i] by {
            assert(prefix[i] == docs[i]);
        }
        lemma_added_within(m, prefix);
        assert(docs.last() == docs[docs.len() - 1]);
        assert(added_all(docs) == added_all(prefix).insert(docs.last().id, docs.last()));
        assert forall|i: int| 0 <= i < docs.len() implies added_all(docs).contains_key((#[trigger] docs[i]).id) by {
            if i < docs.len() - 1 {
                assert(prefix[i] == docs[i]);
            }
        }
    }
}

/// Reloading a saved store gives the store back, in whatever order the
/// documents are read back: adding to an empty store (as `from_documents`
/// does) a list of documents in which each document of the store occurs, and
/// nothing else, yields exactly the store's contents.
pub proof fn law_store_reload_from_saved_documents(s: &DocumentStore, docs: Seq<DocumentView>)
    requires
        s.well_formed(),
        forall|i: int|
            0 <= i < docs.len() ==> s@.contains_key((#[trigger] docs[i]).id) && s@[docs[i].id] == docs[i],
        forall|k: Seq<char>|
            #[trigger] s@.contains_key(k) ==> exists|i: int| 0 <= i < docs.len() && (#[trigger] docs[i]).id == k,
    ensures
        added_all(docs) == s@,
{
    lemma_added_within(s@, docs);
    assert forall|k: Seq<char>| #[trigger] s@.contains_key(k) implies added_all(docs).contains_key(k) by {
        let i = choose|i: int| 0 <= i < docs.len() && (#[trigger] docs[i]).id == k;
    }
    assert(added_all(docs) =~= s@);
}

/// Loading entries that each agree with a map `m` of valid embeddings yields
/// a part of `m` that holds every key loaded.
proof fn lemma_loaded_within(m: Map<Seq<char>, (u64, Seq<u32>)>, es: Seq<CacheEntry>)
    requires
        forall|k: Seq<char>| #[trigger] m.contains_key(k) ==> is_valid_embedding(m[k].1),
        forall|i: int|
            0 <= i < es.len() ==> m.contains_key((#[trigger] es[i]).key@) && m[es[i].key@] == (
            es[i].content_hash,
            es[i].embedding@,
            ),
    ensures
        forall|k: Seq<char>| #[trigger] loaded_entries(es).contains_key(k) ==> m.contains_key(k) && loaded_entries(es)[k] == m[k],
        forall|i: int| 0 <= i < es.len() ==> loaded_entries(es).contains_key((#[trigger] es[i]).key@),
    decreases es.len(),
{
    if es.len() == 0 {
        assert(loaded_entries(es) == Map::<Seq<char>, (u64, Seq<u32>)>::empty());
    } else {
        let prefix = es.drop_last();
        assert forall|i: int| 0 <= i < prefix.len() implies m.contains_key((#[trigger] prefix[i]).key@) && m[prefix[i].key@]
            == (prefix[i].content_hash, prefix[i].embedding@) by {
            assert(prefix[i] == es[i]);
        }
        lemma_loaded_within(m, prefix);
        let e = es.last();
        assert(e == es[es.len() - 1]);
        assert(is_valid_embedding(e.embedding@));
        assert(loaded_entries(es) == loaded_entries(prefix).insert(e.key@, (e.content_hash, e.embedding@)));
        assert forall|i: int| 0 <= i < es.len() implies loaded_entries(es).contains_key((#[trigger] es[i]).key@) by {
            if i < es.len() - 1 {
                assert(prefix[i] == es[i]);
            }
        }
    }
}

/// Reloading a saved cache gives the cache back, in whatever order the
/// entries are read back: loading (as `from_entries` does) a list of entries
/// in which each entry of the cache occurs with its hash and embedding, and
/// nothing else, yields exactly the cache's contents.
pub proof fn law_cache_reload_from_saved_entries(c: &EmbeddingCache, es: Seq<CacheEntry>)
    requires
        c.well_formed(),
        forall|i: int|
            0 <= i < es.len() ==> c@.contains_key((#[trigger] es[i]).key@) && c@[es[i].key@] == (
            es[i].content_hash,
            es[i].embedding@,
            ),
        forall|k: Seq<char>|
            #[trigger] c@.contains_key(k) ==> exists|i: int| 0 <= i < es.len() && (#[trigger] es[i]).key@ == k,
    ensures
        loaded_entries(es) == c@,
{
    c.lemma_well_formed();
    lemma_loaded_within(c@, es);
    assert forall|k: Seq<char>| #[trigger] c@.contains_key(k) implies loaded_entries(es).contains_key(k) by {
        let i = choose|i: int| 0 <= i < es.len() && (#[trigger] es[i]).key@ == k;
    }
    assert(loaded_entries(es) =~= c@);
}

/// A second rebuild has nothing to do: when every document of a store is
/// fresh, restoring from any cache restores nothing, leaves nothing pending
/// and changes no document.
pub proof fn law_restore_on_fresh_store_changes_nothing(s: &DocumentStore, cache: Map<Seq<char>, (u64, Seq<u32>)>)
    requires
        s.well_formed(),
        forall|k: Seq<char>| #[trigger] s@.contains_key(k) ==> s@[k].is_fresh(),
    ensures
        s.docs_in_order().filter(|d: DocumentView| restorable(cache, d)).len() == 0,
        s.docs_in_order().filter(|d: DocumentView| needs_inference(cache, d)).len() == 0,
        forall|k: Seq<char>| #[trigger] s@.contains_key(k) ==> !restorable(cache, s@[k]),
{
    s.lemma_well_formed();
    let docs = s.docs_in_order();
    assert forall|i: int| 0 <= i < docs.len() implies (#[trigger] docs[i]).is_fresh() by {
        assert(s.key_order().contains(s.key_order()[i]));
        assert(s@.contains_key(s.key_order()[i]));
        assert(docs[i] == s@[s.key_order()[i]]);
    }
    crate::seq_facts::lemma_filter_none(docs, |d: DocumentView| restorable(cache, d));
    crate::seq_facts::lemma_filter_none(docs, |d: DocumentView| needs_inference(cache, d));
}

/// A float's bit pattern is its sign bit above its magnitude bits.
proof fn lemma_sign_magnitude(x: u32)
    ensures
        x & 0x8000_0000u32 == 0 ==> (x & 0x7fff_ffffu32 == x && x < 0x8000_0000u32),
        x & 0x8000_0000u32 != 0 ==> (x & 0x7fff_ffffu32) + 0x8000_0000u32 == x,
{
    assert(x & 0x8000_0000u32 == 0 ==> (x & 0x7fff_ffffu32 == x && x < 0x8000_0000u32)) by (bit_vector);
    assert(x & 0x8000_0000u32 != 0 ==> (x & 0x7fff_ffffu32) + 0x8000_0000u32 == x) by (bit_vector);
}

/// The order key orders floats as their values are ordered. Among floats
/// with the sign bit clear, a larger bit pattern is a larger value; among
/// floats with the sign bit set, a larger bit pattern is a smaller value; a
/// float with the sign bit set is below one with it clear unless both are
/// zeros; and two floats get the same key exactly when they are the same
/// float or both are zeros (+0.0 and -0.0 compare equal).
pub proof fn law_order_key_orders_float_values(a: u32, b: u32)
    requires
        !is_nan_bits(a),
        !is_nan_bits(b),
    ensures
        a & 0x8000_0000u32 == 0 && b & 0x8000_0000u32 == 0 ==> (order_key(a) < order_key(b) <==> a < b),
        a & 0x8000_0000u32 != 0 && b & 0x8000_0000u32 != 0 ==> (order_key(a) < order_key(b) <==> a > b),
        a & 0x8000_0000u32 != 0 && b & 0x8000_0000u32 == 0 ==> (order_key(a) < order_key(b) <==> !(
        is_zero_bits(a) && is_zero_bits(b))),
        order_key(a) == order_key(b) <==> (a == b || (is_zero_bits(a) && is_zero_bits(b))),
{
    lemma_sign_magnitude(a);
    lemma_sign_magnitude(b);
}

/// `float_ge` is `>=` on float values: false when either side is NaN;
/// otherwise, with both signs clear it compares the bit patterns upwards,
/// with both signs set downwards, a float with the sign clear is `>=` one
/// with it set, and one with the sign set is `>=` one with it clear only
/// when both are zeros.
pub proof fn law_float_ge_compares_values(a: u32, b: u32)
    ensures
        is_nan_bits(a) || is_nan_bits(b) ==> !float_ge(a, b),
        !is_nan_bits(a) && !is_nan_bits(b) ==> {
            &&& a & 0x8000_0000u32 == 0 && b & 0x8000_0000u32 == 0 ==> (float_ge(a, b) <==> a >= b)
            &&& a & 0x8000_0000u32 != 0 && b & 0x8000_0000u32 != 0 ==> (float_ge(a, b) <==> a <= b)
            &&& a & 0x8000_0000u32 == 0 && b & 0x8000_0000u32 != 0 ==> float_ge(a, b)
            &&& a & 0x8000_0000u32 != 0 && b & 0x8000_0000u32 == 0 ==> (float_ge(a, b) <==> is_zero_bits(a)
                && is_zero_bits(b))
        },
{
    lemma_sign_magnitude(a);
    lemma_sign_magnitude(b);
}

/// The best single-word score is one of the words' scores, and no matching
/// word scores higher; it is `None` exactly when no word matches.
proof fn lemma_best_word_match(words: Seq<Seq<char>>, pattern: Seq<char>)
    ensures
        best_word_match(words, pattern) is None <==> forall|i: int|
            0 <= i < words.len() ==> skim_fuzzy_match(#[trigger] words[i], pattern) is None,
        best_word_match(words, pattern) matches Some(best) ==> exists|i: int|
            0 <= i < words.len() && skim_fuzzy_match(#[trigger] words[i], pattern) == Some(best),
        best_word_match(words, pattern) matches Some(best) ==> forall|i: int|
            0 <= i < words.len() && (#[trigger] skim_fuzzy_match(words[i], pattern)) is Some
                ==> skim_fuzzy_match(words[i], pattern)->0 <= best,
    decreases words.len(),
{
    if words.len() > 0 {
        let prefix = words.drop_last();
        lemma_best_word_match(prefix, pattern);
        let last = words.len() - 1;
        assert(words.last() == words[last]);
        assert forall|i: int| 0 <= i < prefix.len() implies #[trigger] prefix[i] == words[i] by {}
        if best_word_match(prefix, pattern) is None {
            assert forall|i: int| 0 <= i < words.len() && i != last implies skim_fuzzy_match(
                #[trigger] words[i],
                pattern,
            ) is None by {
                assert(prefix[i] == words[i]);
            }
        }
        match best_word_match(prefix, pattern) {
            Some(p) => {
                let j = choose|j: int| 0 <= j < prefix.len() && skim_fuzzy_match(#[trigger] prefix[j], pattern) == Some(p);
                assert(words[j] == prefix[j]);
                assert forall|i: int|
                    0 <= i < words.len() && (#[trigger] skim_fuzzy_match(words[i], pattern)) is Some implies skim_fuzzy_match(
                    words[i],
                    pattern,
                )->0 <= best_word_match(words, pattern)->0 by {
                    if i < last {
                        assert(prefix[i] == words[i]);
                    }
                }
            },
            None => {},
        }
    }
}

/// Fuzzy matching tries the whole text first: when the skim matcher matches
/// the query against the whole (non-empty) text, the raw score is that
/// match's score.
pub proof fn law_whole_text_match_wins(query: Seq<char>, text: Seq<char>)
    requires
        query.len() > 0,
        text.len() > 0,
        skim_fuzzy_match(text, query) is Some,
    ensures
        raw_fuzzy_score(query, text) == skim_fuzzy_match(text, query)->0,
{
}

/// When the whole text does not match, the raw score falls back to single
/// words: it is the score of some matching word and no matching word scores
/// higher; when no word matches either, it is 0.
pub proof fn law_word_match_fallback(query: Seq<char>, text: Seq<char>)
    requires
        query.len() > 0,
        text.len() > 0,
        skim_fuzzy_match(text, query) is None,
    ensures
        (forall|i: int|
            0 <= i < whitespace_words(text).len() ==> skim_fuzzy_match(#[trigger] whitespace_words(text)[i], query) is None)
            ==> raw_fuzzy_score(query, text) == 0,
        forall|i: int|
            0 <= i < whitespace_words(text).len() && (#[trigger] skim_fuzzy_match(whitespace_words(text)[i], query)) is Some
                ==> skim_fuzzy_match(whitespace_words(text)[i], query)->0 <= raw_fuzzy_score(query, text),
        (exists|i: int|
            0 <= i < whitespace_words(text).len() && (#[trigger] skim_fuzzy_match(whitespace_words(text)[i], query)) is Some)
            ==> exists|i: int|
            0 <= i < whitespace_words(text).len() && skim_fuzzy_match(#[trigger] whitespace_words(text)[i], query) == Some(
                raw_fuzzy_score(query, text),
            ),
{
    lemma_best_word_match(whitespace_words(text), query);
}

/// The content hash is the `DefaultHasher` hash of the whole text: what a
/// fresh hasher reports after every write that hashing the full string
/// makes, so the freshness of an embedding is judged on its whole embed text.
pub proof fn law_content_hash_hashes_whole_text(text: Seq<char>, d: DocumentView)
    ensures
        content_hash_of(text) == DefaultHasher::spec_finish(str_hash_writes(text)),
        d.is_fresh() <==> d.holds_embedding() && d.content_hash == DefaultHasher::spec_finish(
            str_hash_writes(d.embed_view()),
        ),
{
}

/// The embed text holds the whole document text: without a title it is the
/// text itself; with title `t` it is `"title: "`, then `t`, then
/// `" | text: "`, then every character of the text.
pub proof fn law_embed_text_keeps_whole_text(title: Option<Seq<char>>, text: Seq<char>)
    ensures
        title is None ==> embed_text_of(title, text) == text,
        title matches Some(t) ==> {
            let e = embed_text_of(title, text);
            &&& e.len() == t.len() + text.len() + 16
            &&& e.subrange(0, 7) == "title: "@
            &&& e.subrange(7, 7 + t.len() as int) == t
            &&& e.subrange(7 + t.len() as int, 16 + t.len() as int) == " | text: "@
            &&& e.subrange(16 + t.len() as int, e.len() as int) == text
        },
{
    reveal_strlit("title: ");
    reveal_strlit(" | text: ");
    if let Some(t) = title {
        let e = embed_text_of(title, text);
        assert(e.subrange(0, 7) =~= "title: "@);
        assert(e.subrange(7, 7 + t.len() as int) =~= t);
        assert(e.subrange(7 + t.len() as int, 16 + t.len() as int) =~= " | text: "@);
        assert(e.subrange(16 + t.len() as int, e.len() as int) =~= text);
    }
}

/// The indexed file types are exactly these twelve extensions: txt, md, rs,
/// py, js, ts, toml, json, yaml, yml, csv and log.
pub proof fn law_supported_extensions_are_the_twelve(ext: Seq<char>)
    ensures
        supported_extensions().contains(ext) <==> (ext == "txt"@ || ext == "md"@ || ext == "rs"@ || ext == "py"@
            || ext == "js"@ || ext == "ts"@ || ext == "toml"@ || ext == "json"@ || ext == "yaml"@ || ext == "yml"@
            || ext == "csv"@ || ext == "log"@),
{
    let l = supported_extensions();
    assert(l.len() == 12);
    assert(l[0] == "txt"@ && l[1] == "md"@ && l[2] == "rs"@ && l[3] == "py"@ && l[4] == "js"@ && l[5] == "ts"@);
    assert(l[6] == "toml"@ && l[7] == "json"@ && l[8] == "yaml"@ && l[9] == "yml"@ && l[10] == "csv"@ && l[11]
        == "log"@);
    if l.contains(ext) {
        let i = choose|i: int| 0 <= i < l.len() && l[i] == ext;
        assert(0 <= i < 12);
    }
}

} // verus!
