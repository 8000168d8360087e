//! The texts of one language.

use crate::json::{
    all_text, json_entries, json_get, json_insert, json_object, json_pretty, pretty_json, texts,
};
use crate::merge::{absorb_entry, entry_overwrites, merge_value};
use vstd::prelude::*;

verus! {

/// A language's texts could not be written as JSON.
#[derive(Clone, Copy, Debug, PartialEq, Eq)]
pub struct RenderError {}

/// The texts of one language, by record identifier.
pub struct LanguageMap {
    object: serde_json::Map<String, serde_json::Value>,
}

impl View for LanguageMap {
    type V = Map<Seq<char>, Seq<char>>;

    closed spec fn view(&self) -> Map<Seq<char>, Seq<char>> {
        texts(json_entries(self.object))
    }
}

impl LanguageMap {
    /// Every member of the object is a text: so it is for every map that this
    /// module hands out.
    pub closed spec fn wf(&self) -> bool {
        all_text(json_entries(self.object))
    }

    /// A map without entries, with room for `capacity` of them.
    pub fn new(capacity: usize) -> (map: LanguageMap)
        ensures
            map.wf(),
            map@ =~= Map::empty(),
    {
        LanguageMap { object: json_object(capacity) }
    }

    /// Whether the map has a text for `id`.
    pub fn contains(&self, id: &str) -> (found: bool)
        ensures
            found == self@.contains_key(id@),
    {
        json_get(&self.object, id).is_some()
    }

    /// Takes in the text that a row has for `id`: a first text is stored, a later
    /// one replaces the earlier unless it is empty. Tells whether it replaced one.
    pub fn merge(&mut self, id: &str, text: &str) -> (overwrote: bool)
        requires
            old(self).wf(),
        ensures
            final(self).wf(),
            final(self)@ == absorb_entry(old(self)@, id@, text@),
            overwrote == entry_overwrites(old(self)@, id@, text@),
    {
        let existing = json_get(&self.object, id);
        let decision = merge_value(existing, text);
        if let Some(value) = decision.0 {
            json_insert(&mut self.object, String::from_str(id), String::from_str(value));
        }
        decision.1
    }

    /// The map as pretty-printed JSON.
    pub fn render(&self) -> (written: Result<String, RenderError>)
        requires
            self.wf(),
        ensures
            match written {
                Ok(text) => pretty_json(self@) == Some(text@),
                Err(_) => pretty_json(self@) is None,
            },
    {
        match json_pretty(&self.object) {
            Ok(text) => Ok(text),
            Err(_) => Err(RenderError {  }),
        }
    }
}

} // verus!
