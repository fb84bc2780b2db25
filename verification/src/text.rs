//! Small verified utilities over `&str` and `String`, shared by the matcher,
//! the rule store and the hook-settings builder.

use vstd::prelude::*;
use vstd::string::StrSliceExecFns;

verus! {

/// Index of the first occurrence of `c` in `s` at or after position `i`,
/// or `s.len()` if there is none.
pub open spec fn find_char_from(s: Seq<char>, c: char, i: nat) -> nat
    decreases s.len() - i,
{
    if i >= s.len() {
        s.len()
    } else if s[i as int] == c {
        i
    } else {
        find_char_from(s, c, i + 1)
    }
}

pub proof fn lemma_find_char_from_bounds(s: Seq<char>, c: char, i: nat)
    requires
        i <= s.len(),
    ensures
        i <= find_char_from(s, c, i) <= s.len(),
        find_char_from(s, c, i) < s.len() ==> s[find_char_from(s, c, i) as int] == c,
        forall|k: int| i <= k < find_char_from(s, c, i) ==> s[k] != c,
    decreases s.len() - i,
{
    if i >= s.len() {
    } else if s[i as int] == c {
    } else {
        lemma_find_char_from_bounds(s, c, i + 1);
    }
}

/// Number of occurrences of `c` in `s` at or after position `i`.
pub open spec fn count_char_from(s: Seq<char>, c: char, i: nat) -> nat
    decreases s.len() - i,
{
    if i >= s.len() {
        0
    } else {
        (if s[i as int] == c {
            1nat
        } else {
            0nat
        }) + count_char_from(s, c, i + 1)
    }
}

/// First index of `c` in `s`, or `s.len()` when `c` does not occur.
pub fn find_char(s: &str, c: char) -> (r: usize)
    ensures
        r as nat == find_char_from(s@, c, 0),
        r <= s@.len(),
{
    let n = s.unicode_len();
    let mut i: usize = 0;
    while i < n
        invariant
            n == s@.len(),
            i <= n,
            find_char_from(s@, c, 0) == find_char_from(s@, c, i as nat),
        decreases n - i,
    {
        if s.get_char(i) == c {
            proof {
                lemma_find_char_from_bounds(s@, c, i as nat);
            }
            return i;
        }
        i = i + 1;
    }
    i
}

/// Whether `c` occurs anywhere in `s`.
pub fn contains_char(s: &str, c: char) -> (r: bool)
    ensures
        r == (find_char_from(s@, c, 0) < s@.len()),
{
    let n = s.unicode_len();
    let i = find_char(s, c);
    i < n
}

/// Character-for-character equality of two string slices.
pub fn str_eq(a: &str, b: &str) -> (r: bool)
    ensures
        r == (a@ == b@),
{
    let na = a.unicode_len();
    let nb = b.unicode_len();
    if na != nb {
        return false;
    }
    let mut i: usize = 0;
    while i < na
        invariant
            i <= na,
            na == a@.len(),
            nb == b@.len(),
            na == nb,
            forall|k: int| 0 <= k < i ==> a@[k] == b@[k],
        decreases na - i,
    {
        if a.get_char(i) != b.get_char(i) {
            return false;
        }
        i = i + 1;
    }
    proof {
        assert(a@ =~= b@);
    }
    true
}

/// Relies on `String::push`: appends one character at the end of the string.
#[verifier::external_body]
pub fn push_char(s: &mut String, c: char)
    ensures
        final(s)@ == old(s)@.push(c),
{
    s.push(c);
}

} // verus!
