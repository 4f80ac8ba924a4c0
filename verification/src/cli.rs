use vstd::prelude::*;
use vstd::string::StringSliceAdditionalSpecFns;
use vstd::utf8::{encode_utf8, is_char_boundary};

use crate::store::document::{opt_view, Document, DocumentView};
use crate::store::document_store::DocumentStore;

verus! {

/// Shortens `s` for display: unchanged when it is at most `max_len` bytes
/// long, else its first `max_len` bytes followed by `"..."`.
pub fn truncate(s: &str, max_len: usize) -> (r: String)
    requires
        s.spec_bytes().len() <= usize::MAX,
        s.spec_bytes().len() <= max_len || is_char_boundary(s.spec_bytes(), max_len as int),
    ensures
        s.spec_bytes().len() <= max_len ==> r@ == s@,
        s.spec_bytes().len() > max_len ==> {
            &&& r@.len() >= 3
            &&& r@.subrange(r@.len() - 3, r@.len() as int) == "..."@
            &&& encode_utf8(r@.subrange(0, r@.len() - 3)) == s.spec_bytes().subrange(0, max_len as int)
        },
{
    if s.len() <= max_len {
        return s.to_owned();
    }
    let (head, _tail) = s.split_at(max_len);
    let mut r = head.to_owned();
    r.append("...");
    proof {
        reveal_strlit("...");
        assert(r@.subrange(0, r@.len() - 3) =~= head@);
        assert(r@.subrange(r@.len() - 3, r@.len() as int) =~= "..."@);
    }
    r
}

/// The file extensions whose files can be indexed.
pub open spec fn supported_extensions() -> Seq<Seq<char>> {
    seq![
        "txt"@, "md"@, "rs"@, "py"@, "js"@, "ts"@, "toml"@, "json"@, "yaml"@, "yml"@, "csv"@,
        "log"@,
    ]
}

fn supported_extension_list() -> (l: Vec<&'static str>)
    ensures
        l@.map_values(|e: &str| e@) == supported_extensions(),
{
    let l = vec!["txt", "md", "rs", "py", "js", "ts", "toml", "json", "yaml", "yml", "csv", "log"];
    proof {
        assert(l@.map_values(|e: &str| e@) =~= supported_extensions());
    }
    l
}

/// Whether a file with extension `ext` (without the dot; empty when it has
/// none) is indexed.
pub fn is_supported_extension(ext: &str) -> (b: bool)
    ensures
        b == supported_extensions().contains(ext@),
{
    let list = supported_extension_list();
    let e = ext.to_owned();
    let ghost exts = supported_extensions();
    for i in 0..list.len()
        invariant
            list@.map_values(|x: &str| x@) == exts,
            exts == supported_extensions(),
            e@ == ext@,
            forall|j: int| 0 <= j < i ==> exts[j] != ext@,
    {
        let candidate = list[i].to_owned();
        proof {
            assert(exts[i as int] == list@[i as int]@);
        }
        if candidate == e {
            return true;
        }
    }
    false
}

/// Indexes one file read from disk: unless a document with id `path` is
/// already stored, stores its `content` under that id, created at
/// `created_at`, with `path` as source path and `title` (the file stem) when
/// there is one. Returns whether a document was added.
pub fn index_file(
    store: &mut DocumentStore,
    path: String,
    content: String,
    title: Option<String>,
    created_at: i64,
) -> (added: bool)
    requires
        old(store).well_formed(),
    ensures
        final(store).well_formed(),
        final(store).path() == old(store).path(),
        added == !old(store)@.contains_key(path@),
        !added ==> final(store)@ == old(store)@ && final(store).key_order() == old(store).key_order(),
        added ==> final(store).key_order() == old(store).key_order().push(path@),
        added ==> final(store)@ == old(store)@.insert(
                path@,
                DocumentView {
                    id: path@,
                    text: content@,
                    title: opt_view(title),
                    source_path: Some(path@),
                    embedding: Seq::empty(),
                    created_at,
                    content_hash: 0,
                },
            ),
{
    if store.get(path.as_str()).is_some() {
        return false;
    }
    let source = path.clone();
    let doc = Document::new(path, content, created_at).with_source_path(source);
    let doc = match title {
        Some(t) => doc.with_title(t),
        None => doc,
    };
    store.add(doc);
    true
}

} // verus!
