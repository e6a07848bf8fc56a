//! Small bridges between `String`/`&str` and `Vec<char>`.
//!
//! The JSON codec works on sequences of characters.  These helpers move
//! between owned strings and character vectors.

use vstd::prelude::*;
use vstd::string::StrSliceExecFns;

verus! {

/// The character whose Unicode scalar value is `n` (meaningful only when
/// `valid_scalar(n)` holds, where such a character exists).
pub open spec fn char_of(n: u32) -> char {
    choose|c: char| (#[trigger] (c as u32)) == n
}

/// `n` is a Unicode scalar value: in range and not a surrogate.
pub open spec fn valid_scalar(n: u32) -> bool {
    n < 0xD800 || (0xE000 <= n && n <= 0x10FFFF)
}

/// Relies on `char::from_u32`: returns the character with scalar value `n`
/// exactly when `n` is a Unicode scalar value (documented behaviour).
#[verifier::external_body]
pub(crate) fn char_from_u32(n: u32) -> (r: Option<char>)
    ensures
        r is Some <==> valid_scalar(n),
        r matches Some(c) ==> c as u32 == n && c == char_of(n),
{
    char::from_u32(n)
}

/// Relies on `FromIterator for String` (`collect` on a character iterator):
/// the result consists of exactly the collected characters, in order.
#[verifier::external_body]
pub(crate) fn string_from_chars(v: &Vec<char>) -> (r: String)
    ensures
        r@ == v@,
{
    v.iter().collect()
}

/// The characters of `s`, in order, as a vector.
pub fn chars_of_str(s: &str) -> (r: Vec<char>)
    ensures
        r@ == s@,
{
    let n = s.unicode_len();
    let mut r: Vec<char> = Vec::new();
    let mut i: usize = 0;
    while i < n
        invariant
            n == s@.len(),
            i <= n,
            r@ == s@.subrange(0, i as int),
        decreases n - i,
    {
        r.push(s.get_char(i));
        i = i + 1;
        proof {
            assert(r@ =~= s@.subrange(0, i as int));
        }
    }
    proof {
        assert(r@ =~= s@);
    }
    r
}

} // verus!
