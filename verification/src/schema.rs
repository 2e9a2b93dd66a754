//! Caller-supplied argument schemas.

use crate::segments::str_eq;
use vstd::prelude::*;
use vstd::slice::slice_index_get;

verus! {

/// Helper structure to assist with argument parsing.
#[derive(Debug, Copy, Clone)]
pub struct ArgumentSchema<'a> {
    /// Describes which keys are valid.
    pub valid_keys: &'a [&'a str],
    /// List of keys which do not require a value.
    pub solo_keys: &'a [&'a str],
}

/// `keys` holds `k`, compared exactly (case-sensitively).
pub open spec fn keys_contain(keys: Seq<Seq<char>>, k: Seq<char>) -> bool {
    exists|i: int| 0 <= i < keys.len() && keys[i] == k
}

/// Decides membership of `key` in a key list by exact comparison.
pub fn contains_key_str(keys: &[&str], key: &str) -> (r: bool)
    ensures
        r == keys_contain(keys.deep_view(), key@),
{
    let n = keys.len();
    let mut i: usize = 0;
    while i < n
        invariant
            i <= n,
            n == keys@.len(),
            forall|j: int| 0 <= j < i ==> keys.deep_view()[j] != key@,
        decreases n - i,
    {
        let k = *slice_index_get(keys, i);
        if str_eq(k, key) {
            proof {
                assert(keys.deep_view()[i as int] == key@);
            }
            return true;
        }
        i += 1;
    }
    false
}

} // verus!
