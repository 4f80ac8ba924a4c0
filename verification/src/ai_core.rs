use vstd::prelude::*;

use crate::store::document::opt_view;

verus! {

/// `serde_json::Error`, held opaquely.
#[verifier::external_type_specification]
#[verifier::external_body]
pub struct ExJsonError(serde_json::Error);

/// Paths of the ONNX model, its tokenizer and the tokenizer configuration.
pub struct OnnxModelConfig {
    pub model_path: String,
    pub tokenizer_path: String,
    pub tokenizer_config_path: String,
}

/// The embedding models the library knows.
#[derive(Debug, Clone, Copy, PartialEq, Eq, Hash, Structural)]
pub enum EmbeddingModelType {
    EmbeddingGemma,
}

impl Default for OnnxModelConfig {
    /// The model files under `models/` in the working directory.
    fn default() -> (c: OnnxModelConfig)
        ensures
            c.model_path@ == "models/model.onnx"@,
            c.tokenizer_path@ == "models/tokenizer.json"@,
            c.tokenizer_config_path@ == "models/tokenizer_config.json"@,
    {
        OnnxModelConfig {
            model_path: "models/model.onnx".to_owned(),
            tokenizer_path: "models/tokenizer.json".to_owned(),
            tokenizer_config_path: "models/tokenizer_config.json".to_owned(),
        }
    }
}

/// `dir` followed by `/` and `file`.
pub open spec fn path_in_dir(dir: Seq<char>, file: Seq<char>) -> Seq<char> {
    dir + "/"@ + file
}

fn join_dir(dir: &str, file: &str) -> (s: String)
    ensures
        s@ == path_in_dir(dir@, file@),
{
    let mut s = dir.to_owned();
    s.append("/");
    s.append(file);
    s
}

/// The configuration for the model files in `model_dir`:
/// `{model_dir}/model.onnx`, `{model_dir}/tokenizer.json` and
/// `{model_dir}/tokenizer_config.json`.
pub fn create_model_config(model_dir: &str) -> (c: OnnxModelConfig)
    ensures
        c.model_path@ == path_in_dir(model_dir@, "model.onnx"@),
        c.tokenizer_path@ == path_in_dir(model_dir@, "tokenizer.json"@),
        c.tokenizer_config_path@ == path_in_dir(model_dir@, "tokenizer_config.json"@),
{
    OnnxModelConfig {
        model_path: join_dir(model_dir, "model.onnx"),
        tokenizer_path: join_dir(model_dir, "tokenizer.json"),
        tokenizer_config_path: join_dir(model_dir, "tokenizer_config.json"),
    }
}

/// What reading member `key` of a JSON document as a string gives: `None`
/// when the text is not JSON; otherwise `Some` of the member's text when the
/// document is an object whose `key` member holds a string, and `Some(None)`
/// in every other case.
pub uninterp spec fn json_string_member(text: Seq<char>, key: Seq<char>) -> Option<Option<Seq<char>>>;

/// Parses `text` with `serde_json::from_str` into a `serde_json::Value`,
/// indexes it with `key` and reads the member with `Value::as_str`.
///
/// Trusted: the contract names the outcome and ties it to the text and the key.
#[verifier::external_body]
fn json_string_member_of(text: &str, key: &str) -> (r: Result<Option<String>, serde_json::Error>)
    ensures
        match r {
            Ok(t) => json_string_member(text@, key@) == Some(opt_view(t)),
            Err(_) => json_string_member(text@, key@) is None,
        },
{
    let value: serde_json::Value = serde_json::from_str(text)?;
    Ok(value[key].as_str().map(|s| s.to_owned()))
}

/// The member of a tokenizer configuration that names its padding token.
pub open spec fn pad_token_key() -> Seq<char> {
    "pad_token"@
}

/// Why a tokenizer configuration could not be read.
#[derive(Debug, Clone, Copy, PartialEq, Eq, Structural)]
pub enum TokenizerConfigError {
    InvalidJson,
}

/// The padding token named by a tokenizer configuration (`tokenizer_config.json`),
/// if it names one; when it does, inputs are padded to the longest in the batch.
pub fn tokenizer_pad_token(config_text: &str) -> (r: Result<Option<String>, TokenizerConfigError>)
    ensures
        match r {
            Ok(t) => json_string_member(config_text@, pad_token_key()) == Some(opt_view(t)),
            Err(e) => json_string_member(config_text@, pad_token_key()) is None && e
                == TokenizerConfigError::InvalidJson,
        },
{
    match json_string_member_of(config_text, "pad_token") {
        Ok(t) => Ok(t),
        Err(_) => Err(TokenizerConfigError::InvalidJson),
    }
}

/// The rows laid end to end, each token id widened to `i64`.
pub open spec fn flattened_rows(rows: Seq<Seq<u32>>) -> Seq<i64>
    decreases rows.len(),
{
    if rows.len() == 0 {
        Seq::empty()
    } else {
        flattened_rows(rows.drop_last()) + rows.last().map_values(|t: u32| t as i64)
    }
}

/// The views of a list of rows.
pub open spec fn row_views(rows: Seq<Vec<u32>>) -> Seq<Seq<u32>> {
    rows.map_values(|r: Vec<u32>| r@)
}

/// Lays a batch of token rows (ids or attention masks) out row after row as
/// the `i64` tensor data the model takes.
pub fn flatten_token_rows(rows: &Vec<Vec<u32>>) -> (flat: Vec<i64>)
    ensures
        flat@ == flattened_rows(row_views(rows@)),
{
    let ghost all = row_views(rows@);
    let mut flat: Vec<i64> = Vec::new();
    for i in 0..rows.len()
        invariant
            all == row_views(rows@),
            flat@ == flattened_rows(all.take(i as int)),
    {
        let row = &rows[i];
        let ghost before = flat@;
        for j in 0..row.len()
            invariant
                flat@ == before + row@.take(j as int).map_values(|t: u32| t as i64),
        {
            flat.push(row[j] as i64);
            proof {
                assert(row@.take(j + 1).map_values(|t: u32| t as i64) =~= row@.take(j as int).map_values(
                    |t: u32| t as i64,
                ).push(row[j as int] as i64));
            }
        }
        proof {
            assert(row@.take(row@.len() as int) =~= row@);
            assert(all.take(i + 1).drop_last() =~= all.take(i as int));
            assert(all.take(i + 1).last() == row@);
        }
    }
    proof {
        assert(all.take(rows@.len() as int) =~= all);
    }
    flat
}

} // verus!
