//! Validity of environment-variable names.

use vstd::prelude::*;

verus! {

/// A character that may start a variable name: an ASCII letter or `_`.
pub open spec fn is_name_start(c: char) -> bool {
    ('a' as u32 <= c as u32 && c as u32 <= 'z' as u32) || ('A' as u32 <= c as u32 && c as u32
        <= 'Z' as u32) || c as u32 == '_' as u32
}

/// A character that may appear anywhere in a variable name: an ASCII letter,
/// an ASCII digit, or `_`.
pub open spec fn is_name_char(c: char) -> bool {
    is_name_start(c) || ('0' as u32 <= c as u32 && c as u32 <= '9' as u32)
}

/// A legal variable name: non-empty, starting with an ASCII letter or `_`,
/// and made of ASCII letters, digits and `_` only.
pub open spec fn valid_name(s: Seq<char>) -> bool {
    &&& s.len() > 0
    &&& is_name_start(s[0])
    &&& forall|i: int| 0 <= i < s.len() ==> is_name_char(#[trigger] s[i])
}

/// Decides whether `name` is a legal environment-variable identifier.
pub fn is_valid_var_name(name: &str) -> (r: bool)
    ensures
        r == valid_name(name@),
{
    let n = name.unicode_len();
    if n == 0 {
        return false;
    }
    let first = name.get_char(0) as u32;
    if !(('a' as u32 <= first && first <= 'z' as u32) || ('A' as u32 <= first && first
        <= 'Z' as u32) || first == '_' as u32) {
        return false;
    }
    let mut i: usize = 0;
    while i < n
        invariant
            n == name@.len(),
            i <= n,
            forall|j: int| 0 <= j < i ==> is_name_char(#[trigger] name@[j]),
        decreases n - i,
    {
        let c = name.get_char(i) as u32;
        if !(('a' as u32 <= c && c <= 'z' as u32) || ('A' as u32 <= c && c <= 'Z' as u32) || (
        '0' as u32 <= c && c <= '9' as u32) || c == '_' as u32) {
            return false;
        }
        i += 1;
    }
    true
}

} // verus!
