use vstd::prelude::*;

verus! {

/// The bit pattern of the `f32` value 30.0, the default score threshold.
pub const DEFAULT_THRESHOLD_BITS: u32 = 0x41f0_0000u32;

/// The number of results a query asks for unless told otherwise.
pub const DEFAULT_TOP_K: usize = 10;

/// A search request. `threshold_bits` is the bit pattern of the `f32`
/// minimum combined score (0..100) a result must reach.
pub struct SearchQuery {
    pub text: String,
    pub top_k: usize,
    pub threshold_bits: u32,
}

/// The text that is embedded for a query.
pub open spec fn query_embed_text(text: Seq<char>) -> Seq<char> {
    "task: search result | query: "@ + text
}

impl SearchQuery {
    /// A query for `text` with the default top-k (10) and threshold (30.0).
    pub fn new(text: String) -> (q: SearchQuery)
        ensures
            q.text == text,
            q.top_k == DEFAULT_TOP_K,
            q.threshold_bits == DEFAULT_THRESHOLD_BITS,
    {
        SearchQuery { text, top_k: DEFAULT_TOP_K, threshold_bits: DEFAULT_THRESHOLD_BITS }
    }

    pub fn with_top_k(self, top_k: usize) -> (q: SearchQuery)
        ensures
            q == (SearchQuery { top_k, ..self }),
    {
        let mut q = self;
        q.top_k = top_k;
        q
    }

    pub fn with_threshold(self, threshold_bits: u32) -> (q: SearchQuery)
        ensures
            q == (SearchQuery { threshold_bits, ..self }),
    {
        let mut q = self;
        q.threshold_bits = threshold_bits;
        q
    }

    /// The task-aware text to embed: `"task: search result | query: {text}"`.
    pub fn embed_text(&self) -> (s: String)
        ensures
            s@ == query_embed_text(self.text@),
    {
        let mut s = "task: search result | query: ".to_owned();
        s.append(self.text.as_str());
        s
    }
}

/// One ranked search hit. `score_bits` is the bit pattern of the `f32`
/// combined score; `rank` counts from 1.
pub struct SearchResult {
    pub document_id: String,
    pub title: Option<String>,
    pub text: String,
    pub source_path: Option<String>,
    pub score_bits: u32,
    pub rank: usize,
}

/// The text shown for a result: `"[{title}] {text}"`, or the text alone.
pub open spec fn display_text_of(title: Option<Seq<char>>, text: Seq<char>) -> Seq<char> {
    match title {
        Some(t) => "["@ + t + "] "@ + text,
        None => text,
    }
}

impl SearchResult {
    pub fn display_text(&self) -> (s: String)
        ensures
            s@ == display_text_of(crate::store::document::opt_view(self.title), self.text@),
    {
        match &self.title {
            Some(title) => {
                let mut s = "[".to_owned();
                s.append(title.as_str());
                s.append("] ");
                s.append(self.text.as_str());
                s
            },
            None => self.text.clone(),
        }
    }
}

} // verus!
