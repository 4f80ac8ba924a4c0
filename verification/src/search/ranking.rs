use vstd::prelude::*;

use crate::float_bits::{float_ge, float_ge_bits, order_key, order_key_of};
use crate::search::types::{SearchQuery, SearchResult};
use crate::store::document::{clone_opt_string, opt_view};

verus! {

/// Candidate `a` is listed before candidate `b`: it has the higher score, or
/// the same score and came first (the order of a stable sort by descending score).
pub open spec fn ranks_before(scores: Seq<u32>, a: int, b: int) -> bool {
    ||| order_key(scores[a]) > order_key(scores[b])
    ||| (order_key(scores[a]) == order_key(scores[b]) && a < b)
}

/// Candidate `i` reaches the threshold (`score >= threshold` as floats).
pub open spec fn passes(scores: Seq<u32>, threshold: u32, i: int) -> bool {
    float_ge(scores[i], threshold)
}

/// The candidates that reach the threshold, strictly ordered by `ranks_before`.
pub open spec fn is_ranking(scores: Seq<u32>, threshold: u32, order: Seq<usize>) -> bool {
    &&& forall|j: int| 0 <= j < order.len() ==> (#[trigger] order[j]) < scores.len()
    &&& forall|j: int| 0 <= j < order.len() ==> passes(scores, threshold, #[trigger] order[j] as int)
    &&& forall|i: int| 0 <= i < scores.len() && passes(scores, threshold, i) ==> order.contains(i as usize)
    &&& forall|a: int, b: int|
        0 <= a < b < order.len() ==> ranks_before(scores, #[trigger] order[a] as int, #[trigger] order[b] as int)
}

/// The ranking of a list of scores (there is exactly one; see `lemma_ranking_unique`).
pub open spec fn ranking_of(scores: Seq<u32>, threshold: u32) -> Seq<usize> {
    choose|order: Seq<usize>| is_ranking(scores, threshold, order)
}

/// A document scored for a query, ready to be ranked. `score_bits` is the bit
/// pattern of the `f32` combined score.
pub struct ScoredDocument {
    pub document_id: String,
    pub title: Option<String>,
    pub text: String,
    pub source_path: Option<String>,
    pub score_bits: u32,
}

/// The scores of a list of candidates.
pub open spec fn scores_of(candidates: Seq<ScoredDocument>) -> Seq<u32> {
    candidates.map_values(|c: ScoredDocument| c.score_bits)
}

/// `r` is the search result for candidate `c` at 0-based position `j`.
pub open spec fn result_for(r: SearchResult, c: ScoredDocument, j: int) -> bool {
    &&& r.document_id == c.document_id
    &&& r.title == c.title
    &&& r.text == c.text
    &&& r.source_path == c.source_path
    &&& r.score_bits == c.score_bits
    &&& r.rank == j + 1
}

/// Two strictly ordered sequences with the same elements are equal.
proof fn lemma_sorted_same_elements(scores: Seq<u32>, a: Seq<usize>, b: Seq<usize>)
    requires
        forall|x: int, y: int|
            0 <= x < y < a.len() ==> ranks_before(scores, #[trigger] a[x] as int, #[trigger] a[y] as int),
        forall|x: int, y: int|
            0 <= x < y < b.len() ==> ranks_before(scores, #[trigger] b[x] as int, #[trigger] b[y] as int),
        forall|v: usize| a.contains(v) <==> b.contains(v),
    ensures
        a == b,
    decreases a.len(),
{
    if a.len() == 0 {
        if b.len() > 0 {
            assert(b.contains(b[0]));
        }
        assert(a =~= b);
    } else {
        assert(a.contains(a[0]));
        assert(b.len() > 0);
        let a0 = a[0];
        let b0 = b[0];
        if a0 != b0 {
            let q = choose|q: int| 0 <= q < b.len() && b[q] == a0;
            let p = choose|p: int| 0 <= p < a.len() && a[p] == b0;
            assert(b.contains(b0));
            assert(q != 0);
            assert(p != 0);
            assert(ranks_before(scores, a0 as int, b0 as int));
            assert(ranks_before(scores, b0 as int, a0 as int));
            assert(false);
        }
        let ar = a.drop_first();
        let br = b.drop_first();
        assert forall|v: usize| ar.contains(v) <==> br.contains(v) by {
            if ar.contains(v) {
                let i = choose|i: int| 0 <= i < ar.len() && ar[i] == v;
                assert(a[i + 1] == v);
                assert(ranks_before(scores, a[0] as int, a[i + 1] as int));
                assert(v != a0);
                assert(a.contains(v));
                let j = choose|j: int| 0 <= j < b.len() && b[j] == v;
                assert(j != 0);
                assert(br[j - 1] == v);
            }
            if br.contains(v) {
                let i = choose|i: int| 0 <= i < br.len() && br[i] == v;
                assert(b[i + 1] == v);
                assert(ranks_before(scores, b[0] as int, b[i + 1] as int));
                assert(v != b0);
                assert(b.contains(v));
                let j = choose|j: int| 0 <= j < a.len() && a[j] == v;
                assert(j != 0);
                assert(ar[j - 1] == v);
            }
        }
        assert forall|x: int, y: int| 0 <= x < y < ar.len() implies ranks_before(
            scores,
            #[trigger] ar[x] as int,
            #[trigger] ar[y] as int,
        ) by {
            assert(ar[x] == a[x + 1] && ar[y] == a[y + 1]);
        }
        assert forall|x: int, y: int| 0 <= x < y < br.len() implies ranks_before(
            scores,
            #[trigger] br[x] as int,
            #[trigger] br[y] as int,
        ) by {
            assert(br[x] == b[x + 1] && br[y] == b[y + 1]);
        }
        lemma_sorted_same_elements(scores, ar, br);
        assert(a =~= seq![a0] + ar);
        assert(b =~= seq![b0] + br);
    }
}

/// A list of scores has at most one ranking.
pub proof fn lemma_ranking_unique(scores: Seq<u32>, threshold: u32, o1: Seq<usize>, o2: Seq<usize>)
    requires
        is_ranking(scores, threshold, o1),
        is_ranking(scores, threshold, o2),
    ensures
        o1 == o2,
{
    assert forall|v: usize| o1.contains(v) <==> o2.contains(v) by {
        if o1.contains(v) {
            let j = choose|j: int| 0 <= j < o1.len() && o1[j] == v;
            assert(passes(scores, threshold, o1[j] as int));
        }
        if o2.contains(v) {
            let j = choose|j: int| 0 <= j < o2.len() && o2[j] == v;
            assert(passes(scores, threshold, o2[j] as int));
        }
    }
    lemma_sorted_same_elements(scores, o1, o2);
}

/// The indices of the scores that reach `threshold_bits`, best first; equal
/// scores keep their input order.
pub fn rank_order(scores: &Vec<u32>, threshold_bits: u32) -> (order: Vec<usize>)
    ensures
        is_ranking(scores@, threshold_bits, order@),
        order@ == ranking_of(scores@, threshold_bits),
{
    let ghost s = scores@;
    let mut order: Vec<usize> = Vec::new();
    let n = scores.len();
    for i in 0..n
        invariant
            n == s.len(),
            s == scores@,
            forall|j: int| 0 <= j < order@.len() ==> (#[trigger] order@[j]) < i,
            forall|j: int| 0 <= j < order@.len() ==> passes(s, threshold_bits, #[trigger] order@[j] as int),
            forall|x: int| 0 <= x < i && passes(s, threshold_bits, x) ==> order@.contains(x as usize),
            forall|a: int, b: int|
                0 <= a < b < order@.len() ==> ranks_before(s, #[trigger] order@[a] as int, #[trigger] order@[b] as int),
    {
        if float_ge_bits(scores[i], threshold_bits) {
            let key = order_key_of(scores[i]);
            let mut pos: usize = 0;
            while pos < order.len() && !(key > order_key_of(scores[order[pos]]))
                invariant
                    pos <= order@.len(),
                    n == s.len(),
                    s == scores@,
                    i < n,
                    key == order_key(s[i as int]),
                    forall|j: int| 0 <= j < order@.len() ==> (#[trigger] order@[j]) < i,
                    forall|j: int| 0 <= j < pos ==> order_key(s[#[trigger] order@[j] as int]) >= key,
                decreases order@.len() - pos,
            {
                pos = pos + 1;
            }
            let ghost prev = order@;
            order.insert(pos, i);
            proof {
                assert(order@ == prev.insert(pos as int, i));
                assert forall|a: int, b: int| 0 <= a < b < order@.len() implies ranks_before(
                    s,
                    #[trigger] order@[a] as int,
                    #[trigger] order@[b] as int,
                ) by {
                    if b < pos {
                        assert(order@[a] == prev[a] && order@[b] == prev[b]);
                    } else if b == pos {
                        assert(order@[a] == prev[a]);
                        assert(order_key(s[prev[a] as int]) >= key);
                        assert(prev[a] < i);
                    } else if a == pos {
                        assert(order@[b] == prev[b - 1]);
                        assert(key > order_key(s[prev[pos as int] as int]));
                        if b - 1 > pos {
                            assert(ranks_before(s, prev[pos as int] as int, prev[b - 1] as int));
                        }
                    } else if a < pos {
                        assert(order@[a] == prev[a] && order@[b] == prev[b - 1]);
                    } else {
                        assert(order@[a] == prev[a - 1] && order@[b] == prev[b - 1]);
                    }
                }
                assert forall|x: int| 0 <= x < i + 1 && passes(s, threshold_bits, x) implies order@.contains(
                    x as usize,
                ) by {
                    if x == i {
                        assert(order@[pos as int] == i);
                    } else {
                        let j = choose|j: int| 0 <= j < prev.len() && prev[j] == x as usize;
                        if j < pos {
                            assert(order@[j] == x as usize);
                        } else {
                            assert(order@[j + 1] == x as usize);
                        }
                    }
                }
                assert forall|j: int| 0 <= j < order@.len() implies (#[trigger] order@[j]) < i + 1 && passes(
                    s,
                    threshold_bits,
                    order@[j] as int,
                ) by {
                    if j < pos {
                        assert(order@[j] == prev[j]);
                    } else if j > pos {
                        assert(order@[j] == prev[j - 1]);
                    }
                }
            }
        }
    }
    proof {
        assert(is_ranking(s, threshold_bits, order@));
        lemma_ranking_unique(s, threshold_bits, order@, ranking_of(s, threshold_bits));
    }
    order
}

/// Ranks scored documents for a query: those whose score reaches the
/// threshold, best first (equal scores keep their input order), numbered from
/// 1, and cut to the query's top-k.
pub fn rank_results(candidates: &Vec<ScoredDocument>, query: &SearchQuery) -> (results: Vec<SearchResult>)
    ensures
        is_ranking(scores_of(candidates@), query.threshold_bits, ranking_of(scores_of(candidates@), query.threshold_bits)),
        ({
            let order = ranking_of(scores_of(candidates@), query.threshold_bits);
            &&& results@.len() == (if order.len() < query.top_k { order.len() as int } else { query.top_k as int })
            &&& forall|j: int| 0 <= j < results@.len() ==> result_for(
                #[trigger] results@[j],
                candidates@[order[j] as int],
                j,
            )
        }),
{
    let mut scores: Vec<u32> = Vec::new();
    for i in 0..candidates.len()
        invariant
            scores@ == scores_of(candidates@).take(i as int),
    {
        scores.push(candidates[i].score_bits);
        proof {
            assert(scores@ =~= scores_of(candidates@).take(i + 1));
        }
    }
    proof {
        assert(scores@ =~= scores_of(candidates@));
    }
    let order = rank_order(&scores, query.threshold_bits);
    let limit = if order.len() < query.top_k { order.len() } else { query.top_k };
    let mut results: Vec<SearchResult> = Vec::new();
    for j in 0..limit
        invariant
            limit <= order@.len(),
            is_ranking(scores@, query.threshold_bits, order@),
            scores@.len() == candidates@.len(),
            results@.len() == j,
            forall|m: int| 0 <= m < j ==> result_for(
                #[trigger] results@[m],
                candidates@[order@[m] as int],
                m,
            ),
    {
        let c = &candidates[order[j]];
        results.push(
            SearchResult {
                document_id: c.document_id.clone(),
                title: clone_opt_string(&c.title),
                text: c.text.clone(),
                source_path: clone_opt_string(&c.source_path),
                score_bits: c.score_bits,
                rank: j + 1,
            },
        );
    }
    results
}

} // verus!
