pub mod content_hash;

pub use content_hash::compute_content_hash;
pub mod keyed_map;
pub mod document;
pub mod embedding_cache;
pub mod document_store;
pub mod embedding_run;
