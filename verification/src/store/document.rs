use vstd::prelude::*;

use crate::float_bits::{embedding_present, holds_embedding};
use crate::store::content_hash::{compute_content_hash, content_hash_of};

verus! {

/// A document of the knowledge base.
///
/// `embedding` holds the IEEE-754 bit patterns of the embedding's `f32`
/// components (empty when none has been computed).
pub struct Document {
    pub id: String,
    pub text: String,
    pub title: Option<String>,
    pub source_path: Option<String>,
    pub embedding: Vec<u32>,
    pub created_at: i64,
    /// Hash of the embed text at the time the embedding was computed.
    pub content_hash: u64,
}

/// The characters of an optional string.
pub open spec fn opt_view(s: Option<String>) -> Option<Seq<char>> {
    match s {
        Some(v) => Some(v@),
        None => None,
    }
}

/// The text that is embedded for a document with this title and text.
pub open spec fn embed_text_of(title: Option<Seq<char>>, text: Seq<char>) -> Seq<char> {
    match title {
        Some(t) => "title: "@ + t + " | text: "@ + text,
        None => text,
    }
}

/// A copy of an optional string.
pub fn clone_opt_string(s: &Option<String>) -> (r: Option<String>)
    ensures
        r == *s,
{
    match s {
        Some(v) => Some(v.clone()),
        None => None,
    }
}

/// The mathematical content of a document.
pub struct DocumentView {
    pub id: Seq<char>,
    pub text: Seq<char>,
    pub title: Option<Seq<char>>,
    pub source_path: Option<Seq<char>>,
    pub embedding: Seq<u32>,
    pub created_at: i64,
    pub content_hash: u64,
}

impl DocumentView {
    /// The text that is embedded for this document.
    pub open spec fn embed_view(self) -> Seq<char> {
        embed_text_of(self.title, self.text)
    }

    /// The document holds an embedding.
    pub open spec fn holds_embedding(self) -> bool {
        holds_embedding(self.embedding)
    }

    /// The embedding was computed from the document's current embed text.
    pub open spec fn is_fresh(self) -> bool {
        self.holds_embedding() && self.content_hash == content_hash_of(self.embed_view())
    }
}

impl View for Document {
    type V = DocumentView;

    open spec fn view(&self) -> DocumentView {
        DocumentView {
            id: self.id@,
            text: self.text@,
            title: opt_view(self.title),
            source_path: opt_view(self.source_path),
            embedding: self.embedding@,
            created_at: self.created_at,
            content_hash: self.content_hash,
        }
    }
}

impl Document {
    /// A new document created at the given Unix time (seconds), with no
    /// title, source path or embedding.
    ///
    /// The caller reads the clock and passes the time in, so that building a
    /// document is a function of its arguments.
    pub fn new(id: String, text: String, created_at: i64) -> (d: Document)
        ensures
            d@ == (DocumentView {
                id: id@,
                text: text@,
                title: None,
                source_path: None,
                embedding: Seq::empty(),
                created_at,
                content_hash: 0,
            }),
    {
        Document {
            id,
            text,
            title: None,
            source_path: None,
            embedding: Vec::new(),
            created_at,
            content_hash: 0,
        }
    }

    pub fn with_title(self, title: String) -> (d: Document)
        ensures
            d@ == (DocumentView { title: Some(title@), ..self@ }),
    {
        let mut d = self;
        d.title = Some(title);
        d
    }

    pub fn with_source_path(self, path: String) -> (d: Document)
        ensures
            d@ == (DocumentView { source_path: Some(path@), ..self@ }),
    {
        let mut d = self;
        d.source_path = Some(path);
        d
    }

    /// The embedding is non-empty and has a non-zero component.
    pub fn has_embedding(&self) -> (b: bool)
        ensures
            b == self@.holds_embedding(),
    {
        embedding_present(&self.embedding)
    }

    /// The text that is embedded: `"title: {title} | text: {text}"`, or the text alone.
    pub fn embed_text(&self) -> (s: String)
        ensures
            s@ == self@.embed_view(),
    {
        match &self.title {
            Some(title) => {
                let mut s = "title: ".to_owned();
                s.append(title.as_str());
                s.append(" | text: ");
                s.append(self.text.as_str());
                s
            },
            None => self.text.clone(),
        }
    }

    /// The embedding is present and its content hash matches the current embed text.
    pub fn embedding_is_fresh(&self) -> (b: bool)
        ensures
            b == self@.is_fresh(),
    {
        if !self.has_embedding() {
            return false;
        }
        let text = self.embed_text();
        self.content_hash == compute_content_hash(text.as_str())
    }

    /// This document with its embedding and content hash replaced.
    pub fn with_embedding(&self, embedding: Vec<u32>, content_hash: u64) -> (d: Document)
        ensures
            d@ == (DocumentView { embedding: embedding@, content_hash, ..self@ }),
    {
        Document {
            id: self.id.clone(),
            text: self.text.clone(),
            title: clone_opt_string(&self.title),
            source_path: clone_opt_string(&self.source_path),
            embedding,
            created_at: self.created_at,
            content_hash,
        }
    }

    /// A full copy of this document.
    pub fn duplicate(&self) -> (d: Document)
        ensures
            d@ == self@,
    {
        let e = crate::store::embedding_cache::copy_bits(&self.embedding);
        self.with_embedding(e, self.content_hash)
    }
}

} // verus!
