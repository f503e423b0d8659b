//! Byte strings that end at their first NUL.

use vstd::prelude::*;

verus! {

/// Whether the bytes hold a NUL, which no path and no environment name may.
pub fn contains_nul(v: &[u8]) -> (found: bool)
    ensures
        found == v@.contains(0u8),
{
    let mut i: usize = 0;
    while i < v.len()
        invariant
            i <= v.len(),
            forall|k: int| 0 <= k < i ==> v@[k] != 0,
        decreases v.len() - i,
    {
        if v[i] == 0 {
            return true;
        }
        i += 1;
    }
    false
}

/// The length of the string that starts at the first byte and ends before
/// the first NUL; the length of the whole where there is no NUL.
pub fn strlen(s: &[u8]) -> (n: usize)
    ensures
        n <= s@.len(),
        forall|k: int| 0 <= k < n ==> s@[k] != 0,
        n < s@.len() ==> s@[n as int] == 0,
{
    let mut i: usize = 0;
    while i < s.len()
        invariant
            i <= s.len(),
            forall|k: int| 0 <= k < i ==> s@[k] != 0,
        decreases s.len() - i,
    {
        if s[i] == 0 {
            return i;
        }
        i += 1;
    }
    i
}

} // verus!
