//! The rule by which the text of a row meets the text that is already there.

use vstd::prelude::*;

verus! {

/// What the rule decides for one text: the text to store, `None` where the entry
/// stays as it is, and whether storing it replaces an earlier text.
///
/// A first text is stored whatever it holds. Where there is a text already, an
/// empty one changes nothing, and any other replaces it.
pub open spec fn merged(existing: bool, incoming: Seq<char>) -> (Option<Seq<char>>, bool) {
    if !existing {
        (Some(incoming), false)
    } else if incoming.len() == 0 {
        (None, false)
    } else {
        (Some(incoming), true)
    }
}

/// A language's entries after a row's text for `id` has met them.
pub open spec fn absorb_entry(
    entries: Map<Seq<char>, Seq<char>>,
    id: Seq<char>,
    text: Seq<char>,
) -> Map<Seq<char>, Seq<char>> {
    match merged(entries.contains_key(id), text).0 {
        Some(stored) => entries.insert(id, stored),
        None => entries,
    }
}

/// Whether a row's text for `id` replaces one that the entries hold.
pub open spec fn entry_overwrites(
    entries: Map<Seq<char>, Seq<char>>,
    id: Seq<char>,
    text: Seq<char>,
) -> bool {
    merged(entries.contains_key(id), text).1
}

/// The rule for one text, given what the map holds for the identifier so far:
/// the text to store, if any, and whether it replaces the earlier one.
pub fn merge_value<'a, T>(existing: Option<T>, incoming: &'a str) -> (decision: (
    Option<&'a str>,
    bool,
))
    ensures
        decision.1 == merged(existing is Some, incoming@).1,
        match decision.0 {
            Some(stored) => merged(existing is Some, incoming@).0 == Some(stored@),
            None => merged(existing is Some, incoming@).0 is None,
        },
{
    match existing {
        None => (Some(incoming), false),
        Some(_) => {
            if incoming.is_empty() {
                (None, false)
            } else {
                (Some(incoming), true)
            }
        },
    }
}

} // verus!
