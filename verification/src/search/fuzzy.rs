use fuzzy_matcher::skim::SkimMatcherV2;
use fuzzy_matcher::FuzzyMatcher;
use vstd::prelude::*;

verus! {

/// `fuzzy_matcher::skim::SkimMatcherV2`, held opaquely.
#[verifier::external_type_specification]
#[verifier::external_body]
pub struct ExSkimMatcherV2(SkimMatcherV2);

/// The score that the skim V2 fuzzy matcher, in its default configuration
/// (smart case, no element limit), gives `pattern` against `choice`; `None`
/// when the pattern's characters do not occur in order in the choice.
pub uninterp spec fn skim_fuzzy_match(choice: Seq<char>, pattern: Seq<char>) -> Option<i64>;

/// The words of a text: its maximal runs of non-whitespace characters, as
/// `str::split_whitespace` yields them, in order.
pub uninterp spec fn whitespace_words(text: Seq<char>) -> Seq<Seq<char>>;

/// A matcher in its default configuration, from `SkimMatcherV2::default()`.
///
/// Trusted; nothing is stated of the (opaque) value.
#[verifier::external_body]
fn default_skim_matcher() -> SkimMatcherV2 {
    SkimMatcherV2::default()
}

/// The words of `text`, from `str::split_whitespace`.
///
/// Trusted: the contract names the result; it claims nothing more of it.
#[verifier::external_body]
fn split_words(text: &str) -> (words: Vec<&str>)
    ensures
        words@.map_values(|w: &str| w@) == whitespace_words(text@),
{
    text.split_whitespace().collect()
}

/// The larger of two optional scores, ignoring a missing one.
pub open spec fn max_score(a: Option<i64>, b: Option<i64>) -> Option<i64> {
    match (a, b) {
        (Some(x), Some(y)) => Some(if x >= y { x } else { y }),
        (Some(x), None) => Some(x),
        (None, _) => b,
    }
}

/// The best score of `pattern` against any single word; `None` when no word matches.
pub open spec fn best_word_match(words: Seq<Seq<char>>, pattern: Seq<char>) -> Option<i64>
    decreases words.len(),
{
    if words.len() == 0 {
        None
    } else {
        max_score(best_word_match(words.drop_last(), pattern), skim_fuzzy_match(words.last(), pattern))
    }
}

/// The raw fuzzy score of `query` against `text`: 0 when either is empty;
/// otherwise the score against the whole text when it matches, else the best
/// score against a single word of the text, else 0.
pub open spec fn raw_fuzzy_score(query: Seq<char>, text: Seq<char>) -> i64 {
    if query.len() == 0 || text.len() == 0 {
        0
    } else {
        match skim_fuzzy_match(text, query) {
            Some(raw) => raw,
            None => match best_word_match(whitespace_words(text), query) {
                Some(best) => best,
                None => 0,
            },
        }
    }
}

/// The outcome of fuzzy matching: the raw matcher score and the byte lengths
/// of query and text, which together determine the normalized 0..100 score.
pub struct FuzzyScore {
    pub raw: i64,
    pub query_len: usize,
    pub text_len: usize,
}

/// Fuzzy text matching with the skim V2 algorithm.
pub struct FuzzyScorer {
    matcher: SkimMatcherV2,
}

impl FuzzyScorer {
    pub fn new() -> (s: FuzzyScorer) {
        FuzzyScorer { matcher: default_skim_matcher() }
    }

    /// `SkimMatcherV2::fuzzy_match(choice, pattern)` on this scorer's matcher.
    ///
    /// Trusted: the contract claims the result is `skim_fuzzy_match` of the
    /// characters of `choice` and `pattern`, which holds because the matcher
    /// is always built by `default_skim_matcher`.
    #[verifier::external_body]
    fn skim_match(&self, choice: &str, pattern: &str) -> (r: Option<i64>)
        ensures
            r == skim_fuzzy_match(choice@, pattern@),
    {
        self.matcher.fuzzy_match(choice, pattern)
    }

    /// Scores how well `query` matches `text`, trying the whole text first and
    /// then each of its words.
    pub fn score(&self, query: &str, text: &str) -> (s: FuzzyScore)
        ensures
            s.raw == raw_fuzzy_score(query@, text@),
            s.query_len == query.len(),
            s.text_len == text.len(),
    {
        let query_len = query.len();
        let text_len = text.len();
        if query.is_empty() || text.is_empty() {
            return FuzzyScore { raw: 0, query_len, text_len };
        }
        if let Some(raw) = self.skim_match(text, query) {
            return FuzzyScore { raw, query_len, text_len };
        }
        let words = split_words(text);
        let ghost ws = words@.map_values(|w: &str| w@);
        let mut best: Option<i64> = None;
        for i in 0..words.len()
            invariant
                ws == words@.map_values(|w: &str| w@),
                best == best_word_match(ws.take(i as int), query@),
        {
            let m = self.skim_match(words[i], query);
            proof {
                assert(ws.take(i + 1).drop_last() =~= ws.take(i as int));
                assert(ws.take(i + 1).last() == words@[i as int]@);
            }
            best = match (best, m) {
                (Some(x), Some(y)) => Some(if x >= y { x } else { y }),
                (Some(x), None) => Some(x),
                (None, _) => m,
            };
        }
        proof {
            assert(ws.take(words@.len() as int) =~= ws);
        }
        let raw = match best {
            Some(b) => b,
            None => 0,
        };
        FuzzyScore { raw, query_len, text_len }
    }
}

} // verus!
