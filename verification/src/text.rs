//! Small verified helpers over strings: equality of `&str` values and
//! building `"object_action"` permission keys.

use vstd::prelude::*;
use vstd::string::StrSliceExecFns;
use vstd::string::StringExecFns;

verus! {

/// Character-wise equality of two string slices.
pub fn str_eq(a: &str, b: &str) -> (r: bool)
    ensures
        r == (a@ == b@),
{
    let alen = a.unicode_len();
    let blen = b.unicode_len();
    if alen != blen {
        return false;
    }
    let mut i: usize = 0;
    while i < alen
        invariant
            0 <= i <= alen,
            alen == a@.len(),
            alen == b@.len(),
            forall|j: int| 0 <= j < i ==> a@[j] == b@[j],
        decreases alen - i,
    {
        if a.get_char(i) != b.get_char(i) {
            return false;
        }
        i = i + 1;
    }
    proof {
        assert(a@ =~= b@);
    }
    true
}

/// The `"object_action"` key that denotes a permission pair.
pub open spec fn key_of(object: Seq<char>, action: Seq<char>) -> Seq<char> {
    object + "_"@ + action
}

/// Builds the `"object_action"` key for a permission pair.
pub fn make_key(object: &str, action: &str) -> (k: String)
    ensures
        k@ == key_of(object@, action@),
{
    let mut k = object.to_owned();
    k.append("_");
    k.append(action);
    k
}

} // verus!
