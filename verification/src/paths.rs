//! Paths as the command line gives them: what a shell would have expanded, had
//! the path not stood inside quotes.

use crate::text::{contains_text, occurs_in};
use vstd::prelude::*;

verus! {

/// What a shell expands into the user's home directory.
pub const HOME_CHARACTER: &'static str = "~";

/// What a shell expands into the value of a variable.
pub const VARIABLE_CHARACTER: &'static str = "$";

/// The special characters that a path holds, in the order in which its user is
/// warned of them: `~` if the path holds it, then `$` if the path holds it.
pub open spec fn special_characters(path: Seq<char>) -> Seq<Seq<char>> {
    let home = if occurs_in(HOME_CHARACTER@, path) {
        seq![HOME_CHARACTER@]
    } else {
        Seq::empty()
    };
    let variable = if occurs_in(VARIABLE_CHARACTER@, path) {
        seq![VARIABLE_CHARACTER@]
    } else {
        Seq::empty()
    };
    home + variable
}

/// Whether `text` holds `special`, a piece of text that a shell would have
/// expanded, such as `~` or `$`.
pub fn special_character_check(special: &str, text: &str) -> (found: bool)
    ensures
        found == occurs_in(special@, text@),
{
    contains_text(text, special)
}

/// The special characters that a path holds, and that its user is warned of.
pub fn special_characters_in(path: &str) -> (found: Vec<&'static str>)
    ensures
        found.deep_view() == special_characters(path@),
{
    let mut found: Vec<&'static str> = Vec::new();
    if special_character_check(HOME_CHARACTER, path) {
        found.push(HOME_CHARACTER);
    }
    if special_character_check(VARIABLE_CHARACTER, path) {
        found.push(VARIABLE_CHARACTER);
    }
    found
}

} // verus!
