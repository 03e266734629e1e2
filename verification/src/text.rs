//! Universes as text, one character for each cell.

use vstd::prelude::*;

verus! {

/// The character for a live cell: a filled square.
pub const ALIVE: char = '\u{25FC}';

/// The character for a dead cell: an empty square.
pub const DEAD: char = '\u{25FB}';

/// The character for a cell.
pub open spec fn symbol(alive: bool) -> char {
    if alive {
        ALIVE
    } else {
        DEAD
    }
}

/// The character for a cell.
pub fn symbol_of(alive: bool) -> (c: char)
    ensures
        c == symbol(alive),
{
    if alive {
        ALIVE
    } else {
        DEAD
    }
}

/// Makes a string of `chars` with `String::from_iter`: the string holds the
/// same characters in the same order.
#[verifier::external_body]
pub(crate) fn text_of(chars: Vec<char>) -> (text: String)
    ensures
        text@ == chars@,
{
    String::from_iter(chars)
}

} // verus!
