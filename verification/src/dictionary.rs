//! The dictionary: one map of texts for each language.

use crate::json::pretty_json;
use crate::language_map::{LanguageMap, RenderError};
use crate::merge::{absorb_entry, entry_overwrites};
use crate::text::same_text;
use vstd::prelude::*;

verus! {

/// What a dictionary holds: the languages in the order in which they were first
/// met, and for each of them its texts by record identifier.
pub struct DictionaryView {
    pub languages: Seq<Seq<char>>,
    pub entries: Map<Seq<char>, Map<Seq<char>, Seq<char>>>,
}

impl DictionaryView {
    /// The dictionary of a run that has seen no row.
    pub open spec fn empty() -> DictionaryView {
        DictionaryView { languages: Seq::empty(), entries: Map::empty() }
    }

    /// No language is listed twice, and the listed languages are those with entries.
    pub open spec fn wf(self) -> bool {
        &&& self.languages.no_duplicates()
        &&& forall|language: Seq<char>|
            self.entries.contains_key(language) <==> self.languages.contains(language)
    }

    /// The texts of `language`; none where the dictionary has not met it.
    pub open spec fn texts_of(self, language: Seq<char>) -> Map<Seq<char>, Seq<char>> {
        if self.entries.contains_key(language) {
            self.entries[language]
        } else {
            Map::empty()
        }
    }

    /// The dictionary after one text. A language met for the first time gets a
    /// map of its own, at the end of the list.
    pub open spec fn absorb(self, language: Seq<char>, id: Seq<char>, text: Seq<char>)
        -> DictionaryView {
        DictionaryView {
            languages: if self.entries.contains_key(language) {
                self.languages
            } else {
                self.languages.push(language)
            },
            entries: self.entries.insert(language, absorb_entry(self.texts_of(language), id, text)),
        }
    }

    /// Whether that text replaces one that the dictionary holds.
    pub open spec fn overwrites(self, language: Seq<char>, id: Seq<char>, text: Seq<char>)
        -> bool {
        entry_overwrites(self.texts_of(language), id, text)
    }
}

/// A text taken in keeps a dictionary well formed.
pub proof fn lemma_absorb_wf(
    dictionary: DictionaryView,
    language: Seq<char>,
    id: Seq<char>,
    text: Seq<char>,
)
    requires
        dictionary.wf(),
    ensures
        dictionary.absorb(language, id, text).wf(),
{
    let after = dictionary.absorb(language, id, text);
    let before = dictionary.languages;
    if !dictionary.entries.contains_key(language) {
        assert(!before.contains(language));
        assert forall|other: Seq<char>| #[trigger]
            after.languages.contains(other) <==> (other == language || before.contains(
                other,
            )) by {
            if after.languages.contains(other) {
                let i = choose|i: int| 0 <= i < after.languages.len() && after.languages[i] == other;
                if i < before.len() {
                    assert(before[i] == other);
                }
            }
            if before.contains(other) {
                let i = choose|i: int| 0 <= i < before.len() && before[i] == other;
                assert(after.languages[i] == other);
            }
            if other == language {
                assert(after.languages[before.len() as int] == other);
            }
        }
        assert forall|i: int, j: int|
            0 <= i < after.languages.len() && 0 <= j < after.languages.len() && i != j implies
            after.languages[i] != after.languages[j] by {
            if i < before.len() {
                assert(before.contains(before[i]));
            }
            if j < before.len() {
                assert(before.contains(before[j]));
            }
        }
    }
    assert forall|other: Seq<char>|
        after.entries.contains_key(other) <==> after.languages.contains(other) by {
        assert(dictionary.entries.contains_key(other) <==> before.contains(other));
        assert(dictionary.entries.contains_key(language) <==> before.contains(language));
    }
}

/// Every language's map of texts, filled as the rows come.
pub struct Dictionary {
    names: Vec<String>,
    maps: Vec<LanguageMap>,
    capacity: usize,
}

impl View for Dictionary {
    type V = DictionaryView;

    closed spec fn view(&self) -> DictionaryView {
        let languages = self.names.deep_view();
        DictionaryView {
            languages,
            entries: Map::new(
                |language: Seq<char>| languages.contains(language),
                |language: Seq<char>| self.maps[languages.index_of(language)]@,
            ),
        }
    }
}

impl Dictionary {
    /// Each language has its map, and no language stands twice.
    pub closed spec fn wf(&self) -> bool {
        &&& self.names.len() == self.maps.len()
        &&& self.names.deep_view().no_duplicates()
        &&& forall|i: int| 0 <= i < self.maps.len() ==> (#[trigger] self.maps[i]).wf()
    }

    /// A dictionary without languages, whose maps will have room for `capacity`
    /// texts each.
    pub fn new(capacity: usize) -> (dictionary: Dictionary)
        ensures
            dictionary.wf(),
            dictionary@ == DictionaryView::empty(),
    {
        let dictionary = Dictionary { names: Vec::new(), maps: Vec::new(), capacity };
        assert(dictionary.names.deep_view() =~= Seq::<Seq<char>>::empty());
        assert(dictionary@.entries =~= Map::<Seq<char>, Map<Seq<char>, Seq<char>>>::empty());
        dictionary
    }

    /// How many languages the dictionary has met.
    pub fn len(&self) -> (n: usize)
        requires
            self.wf(),
        ensures
            n == self@.languages.len(),
    {
        self.names.len()
    }

    /// The language at `index`, in the order in which the languages were met.
    pub fn language(&self, index: usize) -> (name: &str)
        requires
            self.wf(),
            index < self@.languages.len(),
        ensures
            name@ == self@.languages[index as int],
    {
        self.names[index].as_str()
    }

    /// The texts of the language at `index`, as pretty-printed JSON.
    pub fn render(&self, index: usize) -> (written: Result<String, RenderError>)
        requires
            self.wf(),
            index < self@.languages.len(),
        ensures
            match written {
                Ok(text) => pretty(self@, index as int) == Some(text@),
                Err(_) => pretty(self@, index as int) is None,
            },
    {
        proof {
            self.lemma_at(index as int);
        }
        self.maps[index].render()
    }

    /// Where `language` stands in the list, if the dictionary has met it.
    fn position(&self, language: &str) -> (found: Option<usize>)
        requires
            self.wf(),
        ensures
            match found {
                Some(i) => i < self.names.len() && self.names[i as int]@ == language@,
                None => !self@.languages.contains(language@),
            },
    {
        let mut i: usize = 0;
        while i < self.names.len()
            invariant
                i <= self.names.len(),
                forall|j: int| 0 <= j < i ==> self.names[j]@ != language@,
            decreases self.names.len() - i,
        {
            if same_text(self.names[i].as_str(), language) {
                return Some(i);
            }
            i = i + 1;
        }
        None
    }

    /// The view's entry for the language at `i` is the view of the map at `i`.
    proof fn lemma_at(&self, i: int)
        requires
            self.wf(),
            0 <= i < self.names.len(),
        ensures
            self@.languages[i] == self.names[i]@,
            self@.entries.contains_key(self.names[i]@),
            self@.entries[self.names[i]@] == self.maps[i]@,
            self.maps[i].wf(),
    {
        let languages = self.names.deep_view();
        assert(languages[i] == self.names[i]@);
        assert(languages.contains(self.names[i]@));
        let j = languages.index_of(self.names[i]@);
        assert(languages[j] == languages[i]);
    }

    /// Takes in the text that a row has for `id` in `language`, and tells whether
    /// it replaced an earlier text.
    pub fn record(&mut self, language: &str, id: &str, text: &str) -> (overwrote: bool)
        requires
            old(self).wf(),
        ensures
            final(self).wf(),
            final(self)@ == old(self)@.absorb(language@, id@, text@),
            overwrote == old(self)@.overwrites(language@, id@, text@),
    {
        let ghost before = *self;
        match self.position(language) {
            Some(i) => {
                proof {
                    before.lemma_at(i as int);
                }
                let overwrote = self.maps[i].merge(id, text);
                proof {
                    assert(self.names == before.names);
                    let languages = self.names.deep_view();
                    let want = before@.absorb(language@, id@, text@);
                    assert(self@.languages == want.languages);
                    assert forall|other: Seq<char>| #[trigger]
                        self@.entries.contains_key(other) implies self@.entries[other]
                        == want.entries[other] by {
                        let j = languages.index_of(other);
                        assert(languages[j] == other);
                        if j != i {
                            assert(self.maps[j] == before.maps[j]);
                        }
                    }
                    assert(self@.entries =~= want.entries);
                }
                overwrote
            },
            None => {
                let mut map = LanguageMap::new(self.capacity);
                let overwrote = map.merge(id, text);
                self.names.push(String::from_str(language));
                self.maps.push(map);
                proof {
                    let languages = self.names.deep_view();
                    let earlier = before.names.deep_view();
                    let want = before@.absorb(language@, id@, text@);
                    assert(languages =~= earlier.push(language@));
                    assert(!before@.entries.contains_key(language@));
                    assert(self@.languages == want.languages);
                    assert forall|a: int, b: int|
                        0 <= a < languages.len() && 0 <= b < languages.len() && a
                            != b implies languages[a] != languages[b] by {
                        if a < earlier.len() {
                            assert(earlier.contains(earlier[a]));
                        }
                        if b < earlier.len() {
                            assert(earlier.contains(earlier[b]));
                        }
                    }
                    assert forall|other: Seq<char>|
                        self@.entries.contains_key(other) <==> want.entries.contains_key(
                            other,
                        ) by {
                        if languages.contains(other) {
                            let j = choose|j: int| 0 <= j < languages.len() && languages[j] == other;
                            if j < earlier.len() {
                                assert(earlier[j] == other);
                            }
                        }
                        if earlier.contains(other) {
                            let j = choose|j: int| 0 <= j < earlier.len() && earlier[j] == other;
                            assert(languages[j] == other);
                        }
                        if other == language@ {
                            assert(languages[earlier.len() as int] == other);
                        }
                    }
                    assert forall|other: Seq<char>| #[trigger]
                        self@.entries.contains_key(other) implies self@.entries[other]
                        == want.entries[other] by {
                        let j = languages.index_of(other);
                        assert(languages[j] == other);
                        if j < earlier.len() {
                            assert(earlier[j] == other);
                            assert(earlier.contains(other));
                            let k = earlier.index_of(other);
                            assert(languages[k] == other);
                            assert(self.maps[j] == before.maps[j]);
                        }
                    }
                    assert(self@.entries =~= want.entries);
                }
                overwrote
            },
        }
    }
}

/// The JSON text of the language at `index`; `None` where it cannot be written.
pub open spec fn pretty(dictionary: DictionaryView, index: int) -> Option<Seq<char>> {
    pretty_json(dictionary.entries[dictionary.languages[index]])
}

} // verus!
