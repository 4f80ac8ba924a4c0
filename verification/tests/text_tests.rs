use semantic_search_lite::ai_core::{create_model_config, flatten_token_rows, tokenizer_pad_token, OnnxModelConfig, TokenizerConfigError};
use semantic_search_lite::cli::{index_file, is_supported_extension, truncate};
use semantic_search_lite::store::document_store::DocumentStore;

#[test]
fn truncate_short_and_long() {
    assert_eq!(truncate("hello", 10), "hello");
    assert_eq!(truncate("hello", 5), "hello");
    assert_eq!(truncate("hello world", 5), "hello...");
    assert_eq!(truncate("héllo", 3), "hé...");
}

#[test]
fn supported_extensions() {
    for ext in ["txt", "md", "rs", "py", "js", "ts", "toml", "json", "yaml", "yml", "csv", "log"] {
        assert!(is_supported_extension(ext), "{}", ext);
    }
    for ext in ["", "exe", "TXT", "mdx", "pdf"] {
        assert!(!is_supported_extension(ext), "{}", ext);
    }
}

#[test]
fn index_file_adds_once() {
    let mut store = DocumentStore::at_path("p".to_string());
    assert!(index_file(&mut store, "/docs/readme.md".to_string(), "content".to_string(), Some("readme".to_string()), 1715990000));
    let d = store.get("/docs/readme.md").unwrap();
    assert_eq!(d.created_at, 1715990000);
    assert_eq!(d.text, "content");
    assert_eq!(d.title.as_deref(), Some("readme"));
    assert_eq!(d.source_path.as_deref(), Some("/docs/readme.md"));
    assert!(!index_file(&mut store, "/docs/readme.md".to_string(), "other".to_string(), None, 1715990500));
    assert_eq!(store.get("/docs/readme.md").unwrap().text, "content");
    assert_eq!(store.count(), 1);
}

#[test]
fn model_config_paths() {
    let c = create_model_config("models");
    assert_eq!(c.model_path, "models/model.onnx");
    assert_eq!(c.tokenizer_path, "models/tokenizer.json");
    assert_eq!(c.tokenizer_config_path, "models/tokenizer_config.json");
    let d = OnnxModelConfig::default();
    assert_eq!(d.model_path, "models/model.onnx");
    assert_eq!(d.tokenizer_path, "models/tokenizer.json");
    assert_eq!(d.tokenizer_config_path, "models/tokenizer_config.json");
}

#[test]
fn pad_token_from_tokenizer_config() {
    assert_eq!(tokenizer_pad_token(r#"{"pad_token": "<pad>", "x": 1}"#).unwrap(), Some("<pad>".to_string()));
    assert_eq!(tokenizer_pad_token(r#"{"bos_token": "<bos>"}"#).unwrap(), None);
    assert_eq!(tokenizer_pad_token(r#"{"pad_token": 5}"#).unwrap(), None);
    assert_eq!(tokenizer_pad_token("not json").unwrap_err(), TokenizerConfigError::InvalidJson);
}

#[test]
fn flatten_rows_row_major() {
    let rows = vec![vec![1u32, 2, 3], vec![4, 5, 0]];
    assert_eq!(flatten_token_rows(&rows), vec![1i64, 2, 3, 4, 5, 0]);
    assert_eq!(flatten_token_rows(&Vec::new()), Vec::<i64>::new());
}
