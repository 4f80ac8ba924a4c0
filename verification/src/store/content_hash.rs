use std::collections::hash_map::DefaultHasher;
use std::hash::{Hash, Hasher};
use vstd::prelude::*;
use vstd::std_specs::hash::DefaultHasherAdditionalSpecFns;

verus! {

/// The sequence of byte writes that hashing a string slice with `Hash::hash`
/// feeds into a hasher.
pub uninterp spec fn str_hash_writes(text: Seq<char>) -> Seq<Seq<u8>>;

/// The content hash of a text: what a fresh `DefaultHasher` reports after the
/// text has been hashed into it.
pub open spec fn content_hash_of(text: Seq<char>) -> u64 {
    DefaultHasher::spec_finish(str_hash_writes(text))
}

/// Feeds `text` into `state` through `<str as Hash>::hash`.
///
/// Trusted: the contract claims that the writes made depend only on the
/// characters of `text` (they are appended to whatever the hasher had seen).
#[verifier::external_body]
fn hash_str_into(text: &str, state: &mut DefaultHasher)
    ensures
        final(state)@ == old(state)@ + str_hash_writes(text@),
{
    text.hash(state);
}

/// Computes the content hash of an embed text; equal texts always get equal hashes.
pub fn compute_content_hash(text: &str) -> (hash: u64)
    ensures
        hash == content_hash_of(text@),
{
    let mut hasher = DefaultHasher::new();
    hash_str_into(text, &mut hasher);
    proof {
        assert(Seq::<Seq<u8>>::empty() + str_hash_writes(text@) =~= str_hash_writes(text@));
    }
    hasher.finish()
}

} // verus!
