use vstd::prelude::*;

use crate::text::text_eq;

verus! {

/// The registry document of one package, as the resolver reads it: its
/// published versions (each version's text with its metadata), its
/// dist-tags (tag name to version text) and the publish time of each
/// version (version text to an ISO-8601 UTC time stamp). Each list is read
/// as a map from its keys; where a key occurs twice, the first entry is the
/// one that counts, and the versions are walked in the order of the list.
pub struct Packument<M> {
    pub versions: Vec<(String, M)>,
    pub dist_tags: Vec<(String, String)>,
    pub time: Vec<(String, String)>,
}

/// `i` is the first entry of `entries` whose key is `key`.
pub open spec fn is_first_key<X>(entries: Seq<(String, X)>, key: Seq<char>, i: int) -> bool {
    &&& 0 <= i < entries.len()
    &&& entries[i].0@ == key
    &&& forall|j: int| 0 <= j < i ==> #[trigger] entries[j].0@ != key
}

/// The position of the entry for `key`, if there is one.
pub open spec fn key_index<X>(entries: Seq<(String, X)>, key: Seq<char>) -> Option<int> {
    if exists|i: int| is_first_key(entries, key, i) {
        Some(choose|i: int| is_first_key(entries, key, i))
    } else {
        None
    }
}

/// The value stored under `key`, if any.
pub open spec fn value_at<X>(entries: Seq<(String, X)>, key: Seq<char>) -> Option<X> {
    match key_index(entries, key) {
        Some(i) => Some(entries[i].1),
        None => None,
    }
}

/// There is at most one first entry for a key.
pub proof fn lemma_first_key_unique<X>(entries: Seq<(String, X)>, key: Seq<char>, i: int, j: int)
    requires
        is_first_key(entries, key, i),
        is_first_key(entries, key, j),
    ensures
        i == j,
{
    if i < j {
        assert(entries[i].0@ != key);
    } else if j < i {
        assert(entries[j].0@ != key);
    }
}

/// The position of the entry stored under `key`.
pub fn find_key<X>(entries: &Vec<(String, X)>, key: &str) -> (found: Option<usize>)
    ensures
        found matches Some(i) ==> key_index(entries@, key@) == Some(i as int) && i < entries@.len(),
        found is None ==> key_index(entries@, key@) is None,
{
    let n = entries.len();
    for i in 0..n
        invariant
            n == entries@.len(),
            forall|j: int| 0 <= j < i ==> #[trigger] entries@[j].0@ != key@,
    {
        if text_eq(entries[i].0.as_str(), key) {
            assert(is_first_key(entries@, key@, i as int));
            proof {
                let k = choose|k: int| is_first_key(entries@, key@, k);
                lemma_first_key_unique(entries@, key@, i as int, k);
            }
            return Some(i);
        }
    }
    assert forall|i: int| !is_first_key(entries@, key@, i) by {}
    None
}

/// The value stored under `key`.
pub fn lookup<'a, X>(entries: &'a Vec<(String, X)>, key: &str) -> (found: Option<&'a X>)
    ensures
        match key_index(entries@, key@) {
            Some(i) => found == Some(&entries@[i].1),
            None => found is None,
        },
{
    match find_key(entries, key) {
        Some(i) => {
            Some(&entries[i].1)
        },
        None => None,
    }
}

} // verus!
