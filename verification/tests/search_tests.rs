use fuzzy_matcher::skim::SkimMatcherV2;
use fuzzy_matcher::FuzzyMatcher;
use semantic_search_lite::float_bits::{float_ge_bits, order_key_of};
use semantic_search_lite::search::fuzzy::FuzzyScorer;
use semantic_search_lite::search::ranking::{rank_order, rank_results, ScoredDocument};
use semantic_search_lite::search::types::{SearchQuery, SearchResult};

fn scored(id: &str, score: f32) -> ScoredDocument {
    ScoredDocument {
        document_id: id.to_string(),
        title: None,
        text: format!("text of {}", id),
        source_path: None,
        score_bits: score.to_bits(),
    }
}

#[test]
fn query_defaults_and_builders() {
    let q = SearchQuery::new("web browser".to_string());
    assert_eq!(q.top_k, 10);
    assert_eq!(f32::from_bits(q.threshold_bits), 30.0);
    let q = q.with_top_k(3).with_threshold(50.0f32.to_bits());
    assert_eq!(q.top_k, 3);
    assert_eq!(f32::from_bits(q.threshold_bits), 50.0);
    assert_eq!(q.embed_text(), "task: search result | query: web browser");
}

#[test]
fn display_text_with_and_without_title() {
    let mut r = SearchResult {
        document_id: "id".to_string(),
        title: Some("Firefox".to_string()),
        text: "browser".to_string(),
        source_path: None,
        score_bits: 1.0f32.to_bits(),
        rank: 1,
    };
    assert_eq!(r.display_text(), "[Firefox] browser");
    r.title = None;
    assert_eq!(r.display_text(), "browser");
}

#[test]
fn order_keys_follow_float_order() {
    let values = [-f32::INFINITY, -3.5, -1.0, -0.0, 0.0, 1e-30, 0.5, 30.0, 99.9, f32::INFINITY];
    for a in values {
        for b in values {
            let (ka, kb) = (order_key_of(a.to_bits()), order_key_of(b.to_bits()));
            assert_eq!(ka < kb, a < b, "{} {}", a, b);
            assert_eq!(ka == kb, a == b, "{} {}", a, b);
            assert_eq!(float_ge_bits(a.to_bits(), b.to_bits()), a >= b);
        }
        assert!(!float_ge_bits(f32::NAN.to_bits(), a.to_bits()));
        assert!(!float_ge_bits(a.to_bits(), f32::NAN.to_bits()));
    }
}

#[test]
fn ranking_is_best_first_and_stable() {
    let scores: Vec<u32> = [40.0f32, 90.0, 10.0, 90.0, 30.0, f32::NAN, 55.5]
        .iter()
        .map(|v| v.to_bits())
        .collect();
    let order = rank_order(&scores, 30.0f32.to_bits());
    assert_eq!(order, vec![1, 3, 6, 0, 4]);
}

#[test]
fn rank_results_filters_ranks_and_truncates() {
    let candidates = vec![scored("a", 35.0), scored("b", 80.0), scored("c", 20.0), scored("d", 80.0)];
    let query = SearchQuery::new("q".to_string()).with_top_k(2);
    let results = rank_results(&candidates, &query);
    assert_eq!(results.len(), 2);
    assert_eq!(results[0].document_id, "b");
    assert_eq!(results[0].rank, 1);
    assert_eq!(results[1].document_id, "d");
    assert_eq!(results[1].rank, 2);
    assert_eq!(f32::from_bits(results[1].score_bits), 80.0);

    let all = rank_results(&candidates, &SearchQuery::new("q".to_string()));
    let ids: Vec<&str> = all.iter().map(|r| r.document_id.as_str()).collect();
    assert_eq!(ids, vec!["b", "d", "a"]);
    assert!(all.iter().enumerate().all(|(i, r)| r.rank == i + 1));

    let none = rank_results(&candidates, &SearchQuery::new("q".to_string()).with_threshold(f32::NAN.to_bits()));
    assert!(none.is_empty());
}

#[test]
fn fuzzy_empty_inputs_score_zero() {
    let scorer = FuzzyScorer::new();
    assert_eq!(scorer.score("", "some text").raw, 0);
    assert_eq!(scorer.score("abc", "").raw, 0);
    let s = scorer.score("abc", "");
    assert_eq!(s.query_len, 3);
    assert_eq!(s.text_len, 0);
}

#[test]
fn fuzzy_full_match_and_word_fallback() {
    let matcher = SkimMatcherV2::default();
    let scorer = FuzzyScorer::new();

    let full = scorer.score("fire", "Firefox browser");
    assert_eq!(Some(full.raw), matcher.fuzzy_match("Firefox browser", "fire"));
    assert!(full.raw > 0);
    assert_eq!(full.text_len, "Firefox browser".len());

    let none = scorer.score("zzz", "Firefox browser");
    assert_eq!(none.raw, 0);
}

#[test]
fn ranking_is_deterministic() {
    let scores: Vec<u32> = [12.0f32, 50.0, 50.0, -1.0, 75.25, 50.0].iter().map(|v| v.to_bits()).collect();
    let first = rank_order(&scores, 0.0f32.to_bits());
    let second = rank_order(&scores, 0.0f32.to_bits());
    assert_eq!(first, second);
    assert_eq!(first, vec![4, 1, 2, 5, 0]);
}
