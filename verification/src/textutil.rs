//! Small verified helpers on strings.

use vstd::prelude::*;

verus! {

/// Whether two string slices hold the same characters.
pub fn str_eq(a: &str, b: &str) -> (r: bool)
    ensures
        r == (a@ == b@),
{
    let alen = a.unicode_len();
    let blen = b.unicode_len();
    if alen != blen {
        proof {
            assert(a@.len() != b@.len());
        }
        return false;
    }
    let mut i: usize = 0;
    while i < alen
        invariant
            0 <= i <= alen,
            alen == a@.len(),
            alen == b@.len(),
            forall|j: int| 0 <= j < i ==> a@[j] == b@[j],
        decreases alen - i,
    {
        if a.get_char(i) != b.get_char(i) {
            return false;
        }
        i += 1;
    }
    proof {
        assert(a@ =~= b@);
    }
    true
}

/// Builds `dir` + `mid` + `name` + `suffix`.
pub fn compose_path(dir: &String, mid: &str, name: &str, suffix: &str) -> (r: String)
    ensures
        r@ == dir@ + mid@ + name@ + suffix@,
{
    let mut r = dir.clone();
    r.append(mid);
    r.append(name);
    r.append(suffix);
    r
}

} // verus!
