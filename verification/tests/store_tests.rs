use std::collections::hash_map::DefaultHasher;
use std::hash::{Hash, Hasher};

use semantic_search_lite::store::content_hash::compute_content_hash;
use semantic_search_lite::store::document::Document;
use semantic_search_lite::store::document_store::DocumentStore;
use semantic_search_lite::store::embedding_cache::{CacheEntry, EmbeddingCache};
use semantic_search_lite::store::embedding_run::EmbeddingRun;

fn bits(values: &[f32]) -> Vec<u32> {
    values.iter().map(|v| v.to_bits()).collect()
}

fn doc(id: &str, text: &str) -> Document {
    Document::new(id.to_string(), text.to_string(), 1715990000)
}

#[test]
fn content_hash_matches_std_hash_of_str() {
    let text = "title: Notepad | text: editor";
    let mut hasher = DefaultHasher::new();
    text.hash(&mut hasher);
    assert_eq!(compute_content_hash(text), hasher.finish());
    assert_eq!(compute_content_hash(text), compute_content_hash(text));
    assert_ne!(compute_content_hash("a"), compute_content_hash("b"));
}

#[test]
fn document_new_keeps_its_creation_time() {
    let d = Document::new("id".to_string(), "text".to_string(), 1_700_000_123);
    assert_eq!(d.id, "id");
    assert_eq!(d.text, "text");
    assert_eq!(d.created_at, 1_700_000_123);
    assert!(d.title.is_none());
    assert!(d.source_path.is_none());
    assert!(d.embedding.is_empty());
    assert_eq!(d.content_hash, 0);
}

#[test]
fn embed_text_with_and_without_title() {
    let d = doc("x", "hello");
    assert_eq!(d.embed_text(), "hello");
    let d = d.with_title("Greeting".to_string());
    assert_eq!(d.embed_text(), "title: Greeting | text: hello");
    let d = d.with_source_path("/tmp/x".to_string());
    assert_eq!(d.source_path.as_deref(), Some("/tmp/x"));
}

#[test]
fn has_embedding_needs_a_nonzero_component() {
    let mut d = doc("x", "t");
    assert!(!d.has_embedding());
    d.embedding = bits(&[0.0, -0.0]);
    assert!(!d.has_embedding());
    d.embedding = bits(&[0.0, 0.5]);
    assert!(d.has_embedding());
    d.embedding = bits(&[f32::NAN]);
    assert!(d.has_embedding());
}

#[test]
fn freshness_follows_the_content_hash() {
    let mut d = doc("x", "t").with_title("T".to_string());
    d.embedding = bits(&[0.1, 0.2]);
    d.content_hash = compute_content_hash(&d.embed_text());
    assert!(d.embedding_is_fresh());
    d.text = "changed".to_string();
    assert!(!d.embedding_is_fresh());
}

#[test]
fn store_add_get_remove() {
    let mut store = DocumentStore::at_path("/data/documents.bin".to_string());
    assert_eq!(store.count(), 0);
    store.add(doc("a", "first"));
    store.add(doc("b", "second"));
    assert_eq!(store.count(), 2);
    assert_eq!(store.get("a").unwrap().text, "first");
    store.add(doc("a", "replaced"));
    assert_eq!(store.count(), 2);
    assert_eq!(store.get("a").unwrap().text, "replaced");
    let ids: Vec<String> = store.all_documents().iter().map(|d| d.id.clone()).collect();
    assert_eq!(ids, vec!["a".to_string(), "b".to_string()]);
    let removed = store.remove("a").unwrap();
    assert_eq!(removed.text, "replaced");
    assert!(store.get("a").is_none());
    assert!(store.remove("a").is_none());
    assert_eq!(store.count(), 1);
    assert_eq!(store.store_path(), "/data/documents.bin");
}

#[test]
fn add_then_remove_restores_the_store() {
    let mut store = DocumentStore::at_path("p".to_string());
    store.add(doc("a", "1"));
    store.add(doc("new", "2"));
    store.remove("new");
    let ids: Vec<String> = store.all_documents().iter().map(|d| d.id.clone()).collect();
    assert_eq!(ids, vec!["a".to_string()]);
}

#[test]
fn from_documents_later_duplicate_wins() {
    let store = DocumentStore::from_documents(
        "p".to_string(),
        vec![doc("a", "1"), doc("b", "2"), doc("a", "3")],
    );
    assert_eq!(store.count(), 2);
    assert_eq!(store.get("a").unwrap().text, "3");
}

#[test]
fn embedding_counts_partition_the_store() {
    let mut store = DocumentStore::at_path("p".to_string());
    let mut with = doc("with", "w");
    with.embedding = bits(&[0.3]);
    let mut stale = doc("stale", "s");
    stale.embedding = bits(&[0.4]);
    stale.content_hash = 12345;
    store.add(with);
    store.add(stale);
    store.add(doc("without", "n"));
    assert_eq!(store.count(), 3);
    assert_eq!(store.count_with_embeddings(), 2);
    assert_eq!(store.documents_without_embeddings().len(), 1);
    assert_eq!(
        store.count_with_embeddings() + store.documents_without_embeddings().len(),
        store.count()
    );
    assert_eq!(store.count_stale_embeddings(), 2);
}

#[test]
fn cache_read_after_write() {
    let mut cache = EmbeddingCache::from_entries("c".to_string(), Vec::new());
    assert!(cache.is_empty());
    assert!(!cache.is_dirty());
    cache.insert("k".to_string(), 7, bits(&[0.5, 0.25]));
    assert!(cache.is_dirty());
    assert_eq!(cache.get("k", 7).unwrap(), &bits(&[0.5, 0.25]));
    assert!(cache.get("k", 8).is_none());
    assert!(cache.get("other", 7).is_none());
    assert!(cache.contains_key("k"));
    assert_eq!(cache.len(), 1);
}

#[test]
fn cache_ignores_invalid_embeddings() {
    let mut cache = EmbeddingCache::from_entries("c".to_string(), Vec::new());
    cache.insert("zero".to_string(), 1, bits(&[0.0, 0.0]));
    cache.insert("empty".to_string(), 1, Vec::new());
    cache.insert("inf".to_string(), 1, bits(&[f32::INFINITY, 1.0]));
    cache.insert("nan".to_string(), 1, bits(&[f32::NAN]));
    assert!(cache.is_empty());
    assert!(!cache.is_dirty());
}

#[test]
fn cache_clear_and_save_bookkeeping() {
    let mut cache = EmbeddingCache::from_entries(
        "c".to_string(),
        vec![
            CacheEntry { key: "a".to_string(), content_hash: 1, embedding: bits(&[1.0]) },
            CacheEntry { key: "bad".to_string(), content_hash: 1, embedding: bits(&[0.0]) },
            CacheEntry { key: "a".to_string(), content_hash: 2, embedding: bits(&[2.0]) },
        ],
    );
    assert_eq!(cache.len(), 1);
    assert_eq!(cache.get("a", 2).unwrap(), &bits(&[2.0]));
    assert!(cache.entries_to_save().is_none());
    cache.insert("b".to_string(), 3, bits(&[3.0]));
    let entries = cache.entries_to_save().unwrap();
    assert_eq!(entries.len(), 2);
    assert_eq!(entries[0].key, "a");
    assert_eq!(entries[1].key, "b");
    assert_eq!(entries[1].embedding, bits(&[3.0]));
    cache.mark_saved();
    assert!(cache.entries_to_save().is_none());
    cache.clear();
    assert!(cache.is_empty());
    assert!(cache.is_dirty());
    assert!(cache.get("a", 2).is_none());
    assert_eq!(cache.cache_path(), "c");
}

#[test]
fn restore_then_record_makes_every_document_fresh() {
    let mut store = DocumentStore::at_path("p".to_string());
    store.add(doc("cached", "one"));
    store.add(doc("new", "two"));
    let mut fresh = doc("fresh", "three");
    fresh.embedding = bits(&[0.9]);
    fresh.content_hash = compute_content_hash(&fresh.embed_text());
    store.add(fresh);

    let mut cache = EmbeddingCache::from_entries("c".to_string(), Vec::new());
    cache.insert("cached".to_string(), compute_content_hash("one"), bits(&[0.1, 0.2]));

    let plan = store.restore_from_cache(&cache);
    assert_eq!(plan.restored, 1);
    assert_eq!(plan.pending.len(), 1);
    assert_eq!(plan.pending[0].id, "new");
    assert_eq!(plan.pending[0].embed_text, "two");
    assert_eq!(plan.pending[0].content_hash, compute_content_hash("two"));
    assert!(store.get("cached").unwrap().embedding_is_fresh());
    assert_eq!(store.get("cached").unwrap().embedding, bits(&[0.1, 0.2]));

    let recorded = store.record_embedding(&mut cache, &plan.pending[0], bits(&[0.7]));
    assert!(recorded);
    assert!(store.all_documents().iter().all(|d| d.embedding_is_fresh()));
    assert_eq!(cache.get("new", compute_content_hash("two")).unwrap(), &bits(&[0.7]));

    let again = store.restore_from_cache(&cache);
    assert_eq!(again.restored, 0);
    assert!(again.pending.is_empty());
}

#[test]
fn embedding_run_resets_and_reports() {
    let mut run = EmbeddingRun::new(5, 2);
    let a1 = run.record_inference();
    assert!(!a1.reset_session && !a1.report_progress);
    let a2 = run.record_inference();
    assert!(a2.reset_session);
    assert_eq!(run.since_reset, 0);
    run.record_inference();
    let a4 = run.record_inference();
    assert!(a4.reset_session);
    let a5 = run.record_inference();
    assert!(!a5.reset_session);
    assert!(a5.report_progress);
    assert_eq!(run.processed, 5);

    let mut never = EmbeddingRun::new(100, 0);
    for i in 1..=100 {
        let a = never.record_inference();
        assert!(!a.reset_session);
        assert_eq!(a.report_progress, i % 50 == 0);
    }
}

#[test]
fn cache_reload_from_saved_entries_gives_same_cache() {
    let mut cache = EmbeddingCache::from_entries("c".to_string(), Vec::new());
    cache.insert("a".to_string(), 1, bits(&[0.5]));
    cache.insert("b".to_string(), 2, bits(&[0.25, -1.0]));
    cache.insert("a".to_string(), 3, bits(&[0.75]));
    let entries = cache.entries_to_save().unwrap();
    let reloaded = EmbeddingCache::from_entries("c".to_string(), entries);
    assert!(!reloaded.is_dirty());
    assert_eq!(reloaded.len(), cache.len());
    assert_eq!(reloaded.get("a", 3).unwrap(), &bits(&[0.75]));
    assert!(reloaded.get("a", 1).is_none());
    assert_eq!(reloaded.get("b", 2).unwrap(), &bits(&[0.25, -1.0]));
}

#[test]
fn store_reload_from_saved_documents_gives_same_store() {
    let mut store = DocumentStore::at_path("p".to_string());
    let mut a = doc("a", "alpha").with_title("A".to_string());
    a.embedding = bits(&[0.5]);
    a.content_hash = 9;
    store.add(a);
    store.add(doc("b", "beta").with_source_path("/b".to_string()));
    let saved: Vec<Document> = store.all_documents().iter().map(|d| d.duplicate()).collect();
    let reloaded = DocumentStore::from_documents("p".to_string(), saved);
    assert_eq!(reloaded.count(), store.count());
    for d in store.all_documents() {
        let r = reloaded.get(&d.id).unwrap();
        assert_eq!(r.text, d.text);
        assert_eq!(r.title, d.title);
        assert_eq!(r.source_path, d.source_path);
        assert_eq!(r.embedding, d.embedding);
        assert_eq!(r.created_at, d.created_at);
        assert_eq!(r.content_hash, d.content_hash);
    }
}

#[test]
fn store_reload_in_reverse_order_gives_same_store() {
    let mut store = DocumentStore::at_path("p".to_string());
    let mut a = doc("a", "alpha").with_title("A".to_string());
    a.embedding = bits(&[0.5]);
    a.content_hash = 9;
    store.add(a);
    store.add(doc("b", "beta").with_source_path("/b".to_string()));
    store.add(doc("c", "gamma"));
    let mut saved: Vec<Document> = store.all_documents().iter().map(|d| d.duplicate()).collect();
    saved.reverse();
    let reloaded = DocumentStore::from_documents("p".to_string(), saved);
    assert_eq!(reloaded.count(), 3);
    for d in store.all_documents() {
        let r = reloaded.get(&d.id).unwrap();
        assert_eq!(r.text, d.text);
        assert_eq!(r.title, d.title);
        assert_eq!(r.source_path, d.source_path);
        assert_eq!(r.embedding, d.embedding);
        assert_eq!(r.created_at, d.created_at);
        assert_eq!(r.content_hash, d.content_hash);
    }
}

#[test]
fn cache_reload_in_reverse_order_gives_same_cache() {
    let mut cache = EmbeddingCache::from_entries("c".to_string(), Vec::new());
    cache.insert("a".to_string(), 1, bits(&[0.5]));
    cache.insert("b".to_string(), 2, bits(&[0.25, -1.0]));
    cache.insert("c".to_string(), 3, bits(&[0.75]));
    let mut entries = cache.entries_to_save().unwrap();
    entries.reverse();
    let reloaded = EmbeddingCache::from_entries("c".to_string(), entries);
    assert_eq!(reloaded.len(), 3);
    assert_eq!(reloaded.get("a", 1).unwrap(), &bits(&[0.5]));
    assert_eq!(reloaded.get("b", 2).unwrap(), &bits(&[0.25, -1.0]));
    assert_eq!(reloaded.get("c", 3).unwrap(), &bits(&[0.75]));
}

#[test]
fn restore_on_fresh_store_changes_nothing() {
    let mut store = DocumentStore::at_path("p".to_string());
    let mut d = doc("a", "alpha");
    d.embedding = bits(&[0.5]);
    d.content_hash = compute_content_hash("alpha");
    store.add(d);
    let mut cache = EmbeddingCache::from_entries("c".to_string(), Vec::new());
    cache.insert("a".to_string(), compute_content_hash("alpha"), bits(&[0.9]));
    let plan = store.restore_from_cache(&cache);
    assert_eq!(plan.restored, 0);
    assert!(plan.pending.is_empty());
    assert_eq!(store.get("a").unwrap().embedding, bits(&[0.5]));
}
