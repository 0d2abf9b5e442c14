//! How records are named in Redis: a record of a model with prefix `p` and
//! key `k` lives in the hash `p:k`; the hashes of a model are found with the
//! pattern `p:*`, and the key is recovered from a hash name by removing `p:`.
use crate::text::{concat, contains_spec, occurs_at, replace_all, replace_spec};
use vstd::prelude::*;

verus! {

/// What stands before the key in the name of a record's hash: the prefix and
/// a colon.
pub open spec fn key_prefix_spec(prefix: Seq<char>) -> Seq<char> {
    prefix + ":"@
}

/// The name of the hash that holds the record with key `key`.
pub open spec fn hash_key_spec(prefix: Seq<char>, key: Seq<char>) -> Seq<char> {
    key_prefix_spec(prefix) + key
}

/// The pattern that the names of a model's hashes are scanned for.
pub open spec fn scan_pattern_spec(prefix: Seq<char>) -> Seq<char> {
    prefix + ":*"@
}

/// The key that a hash name gives back: every occurrence of the key prefix
/// removed.
pub open spec fn key_from_hash_key_spec(prefix: Seq<char>, hash_key: Seq<char>) -> Seq<char> {
    replace_spec(hash_key, key_prefix_spec(prefix), Seq::empty())
}

/// The key prefix is never empty.
pub proof fn lemma_key_prefix_len(prefix: Seq<char>)
    ensures
        key_prefix_spec(prefix).len() == prefix.len() + 1,
{
    reveal_strlit(":");
}

/// The name of the hash that holds the record with key `key`: `prefix:key`.
pub fn hash_key(prefix: &str, key: &str) -> (r: String)
    ensures
        r@ == hash_key_spec(prefix@, key@),
{
    let head = concat(prefix, ":");
    concat(head.as_str(), key)
}

/// The pattern that the names of a model's hashes are scanned for: `prefix:*`.
pub fn scan_pattern(prefix: &str) -> (r: String)
    ensures
        r@ == scan_pattern_spec(prefix@),
{
    concat(prefix, ":*")
}

/// The key that a scanned hash name stands for: the name with every
/// occurrence of `prefix:` removed.
pub fn key_from_hash_key(prefix: &str, hash_key: &str) -> (r: String)
    ensures
        r@ == key_from_hash_key_spec(prefix@, hash_key@),
{
    let pat = concat(prefix, ":");
    proof {
        lemma_key_prefix_len(prefix@);
    }
    let empty = "";
    proof {
        reveal_strlit("");
        assert(empty@ =~= Seq::<char>::empty());
    }
    replace_all(hash_key, pat.as_str(), empty)
}

/// Replacing a pattern that does not occur leaves a text as it is.
pub proof fn lemma_replace_absent(s: Seq<char>, pat: Seq<char>, rep: Seq<char>)
    requires
        pat.len() > 0,
        !contains_spec(s, pat),
    ensures
        replace_spec(s, pat, rep) == s,
    decreases s.len(),
{
    if s.len() > 0 {
        if pat.len() <= s.len() && s.subrange(0, pat.len() as int) == pat {
            assert(occurs_at(s, pat, 0));
        }
        let t = s.drop_first();
        assert(!contains_spec(t, pat)) by {
            if exists|i: int| occurs_at(t, pat, i) {
                let i = choose|i: int| occurs_at(t, pat, i);
                assert(s.subrange(i + 1, i + 1 + pat.len()) =~= t.subrange(i, i + pat.len()));
                assert(occurs_at(s, pat, i + 1));
            }
        }
        lemma_replace_absent(t, pat, rep);
        assert(seq![s[0]] + t =~= s);
    }
}

/// A key is recovered from the name of its hash, provided the key does not
/// itself contain `prefix:`.
pub proof fn lemma_key_roundtrip(prefix: Seq<char>, key: Seq<char>)
    requires
        !contains_spec(key, key_prefix_spec(prefix)),
    ensures
        key_from_hash_key_spec(prefix, hash_key_spec(prefix, key)) == key,
{
    let pat = key_prefix_spec(prefix);
    let s = hash_key_spec(prefix, key);
    lemma_key_prefix_len(prefix);
    assert(s.subrange(0, pat.len() as int) =~= pat);
    assert(s.subrange(pat.len() as int, s.len() as int) =~= key);
    lemma_replace_absent(key, pat, Seq::empty());
    assert(Seq::<char>::empty() + key =~= key);
}

} // verus!
