//! Why a nickname was turned away.

use vstd::prelude::*;
use vstd::string::*;

verus! {

/// The reason a participant could not join. Either one ends that attempt
/// only: the room goes on as before.
#[derive(Debug, Clone, Copy, PartialEq, Eq, Structural)]
pub enum JoinError {
    /// Somebody in the room already goes by that nickname.
    DuplicateNickname,
    /// The nickname is empty or holds something else than ASCII letters and
    /// digits.
    InvalidNickname,
}

impl JoinError {
    /// The sentence shown to the person who was turned away.
    pub open spec fn explanation(self) -> Seq<char> {
        match self {
            JoinError::DuplicateNickname => "Nickname already used."@,
            JoinError::InvalidNickname => "Nickname can only alphanumerical characters."@,
        }
    }

    /// The sentence shown to the person who was turned away.
    pub fn render(&self) -> (line: String)
        ensures
            line@ == self.explanation(),
    {
        match self {
            JoinError::DuplicateNickname => String::from_str("Nickname already used."),
            JoinError::InvalidNickname => String::from_str(
                "Nickname can only alphanumerical characters.",
            ),
        }
    }
}

} // verus!
