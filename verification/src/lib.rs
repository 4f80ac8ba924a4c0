//! A local semantic search library: document and embedding-cache bookkeeping,
//! hybrid ranking of scored documents, and the text handling around them.
//!
//! Embedding vectors and scores are single-precision floats in the running
//! program; inside this library each one is carried as its IEEE-754 bit
//! pattern (`u32`), which is exact and lets every decision that depends on them
//! be stated and proved over integers.

pub mod ai_core;
pub mod cli;
pub mod float_bits;
pub mod laws;
pub mod seq_facts;
pub mod search;
pub mod store;
