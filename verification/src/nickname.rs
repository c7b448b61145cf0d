//! The shape of an acceptable nickname.

use vstd::prelude::*;
use vstd::std_specs::iter::IteratorSpec;

verus! {

broadcast use vstd::string::group_string_axioms;

/// An ASCII letter or digit.
pub open spec fn is_alphanumeric(c: char) -> bool {
    ||| 'a' <= c <= 'z'
    ||| 'A' <= c <= 'Z'
    ||| '0' <= c <= '9'
}

/// A nickname is acceptable when it is not empty and holds nothing but ASCII
/// letters and digits.
pub open spec fn valid_nickname(nickname: Seq<char>) -> bool {
    &&& nickname.len() > 0
    &&& forall|i: int| 0 <= i < nickname.len() ==> is_alphanumeric(#[trigger] nickname[i])
}

/// Decides whether `nickname` is acceptable.
pub fn is_valid_nickname(nickname: &str) -> (valid: bool)
    ensures
        valid == valid_nickname(nickname@),
{
    let mut seen: bool = false;
    let mut clean: bool = true;
    for c in letters: nickname.chars()
        invariant
            letters.seq() == nickname@,
            seen == (letters.index() > 0),
            clean == (forall|i: int|
                0 <= i < letters.index() ==> is_alphanumeric(#[trigger] nickname@[i])),
    {
        seen = true;
        if (c < 'a' || c > 'z') && (c < 'A' || c > 'Z') && (c < '0' || c > '9') {
            clean = false;
        }
    }
    seen && clean
}

} // verus!
