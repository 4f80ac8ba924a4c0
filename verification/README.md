# semantic-search-lite

A local semantic search engine: documents are embedded with an ONNX model,
stored with content-hash-tracked embeddings, and searched with a hybrid of
cosine similarity and fuzzy text matching.

## Layout

- `src/` — the verified library (Verus).
  - `store/` — documents (`document.rs`), the document store
    (`document_store.rs`), the embedding cache (`embedding_cache.rs`), the
    insertion-ordered string map both are built on (`keyed_map.rs`), content
    hashing (`content_hash.rs`) and the bookkeeping of an inference run
    (`embedding_run.rs`).
  - `search/` — queries and results (`types.rs`), skim fuzzy matching
    (`fuzzy.rs`) and threshold filtering, ordering and top-k selection of
    scored documents (`ranking.rs`).
  - `ai_core.rs` — model configuration, tokenizer configuration and the
    layout of token batches.
  - `cli.rs` — file selection, indexing of a read file, and display truncation.
  - `float_bits.rs` — predicates and ordering on `f32` bit patterns.
  - `laws.rs` — properties that relate several operations.
- `app/` — the command-line program: file and model I/O, ONNX inference,
  floating-point scoring, persistence formats.
- `tests/` — tests of the library.

Embeddings and scores are `f32` in the program; the library carries each as
its IEEE-754 bit pattern, so that all of its decisions are made, and proved,
over integers.
