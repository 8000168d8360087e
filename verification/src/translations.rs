//! Rows whose cells carry a type: a whole number, a number with a fraction, or a
//! text. For the output every cell is a text.

use crate::text::same_text;
use vstd::prelude::*;

verus! {

/// The character that writes the digit `d`.
pub open spec fn digit_char(d: int) -> char {
    if d == 0 {
        '0'
    } else if d == 1 {
        '1'
    } else if d == 2 {
        '2'
    } else if d == 3 {
        '3'
    } else if d == 4 {
        '4'
    } else if d == 5 {
        '5'
    } else if d == 6 {
        '6'
    } else if d == 7 {
        '7'
    } else if d == 8 {
        '8'
    } else {
        '9'
    }
}

/// The decimal digits of `n`, without leading zeros; `0` for zero.
pub open spec fn digits_of(n: nat) -> Seq<char>
    decreases n,
{
    if n < 10 {
        seq![digit_char(n as int)]
    } else {
        digits_of(n / 10).push(digit_char((n % 10) as int))
    }
}

/// A whole number in decimal: its digits, after a `-` where it is negative.
pub open spec fn decimal_text(v: int) -> Seq<char> {
    if v < 0 {
        seq!['-'] + digits_of((-v) as nat)
    } else {
        digits_of(v as nat)
    }
}

/// The type that a cell of the table was read with.
#[derive(Debug, PartialEq, Eq)]
pub enum LangData {
    /// A whole number.
    Integer(i64),
    /// A number with a fraction, held as the text that writes it in decimal.
    Float(String),
    /// Any other text.
    String(String),
}

impl LangData {
    /// The cell as the text that goes to the output.
    pub open spec fn text(&self) -> Seq<char> {
        match self {
            LangData::Integer(v) => decimal_text(*v as int),
            LangData::Float(written) => written@,
            LangData::String(text) => text@,
        }
    }

    /// The cell as a text: a number in decimal, a text as it is.
    pub fn to_text(&self) -> (text: String)
        ensures
            text@ == self.text(),
    {
        match self {
            LangData::Integer(v) => integer_text(*v),
            LangData::Float(written) => written.clone(),
            LangData::String(text) => text.clone(),
        }
    }
}

/// The digit `d` as a text.
fn digit_text(d: u64) -> (text: &'static str)
    requires
        d < 10,
    ensures
        text@ == seq![digit_char(d as int)],
{
    proof {
        reveal_strlit("0");
        reveal_strlit("1");
        reveal_strlit("2");
        reveal_strlit("3");
        reveal_strlit("4");
        reveal_strlit("5");
        reveal_strlit("6");
        reveal_strlit("7");
        reveal_strlit("8");
        reveal_strlit("9");
    }
    if d == 0 {
        "0"
    } else if d == 1 {
        "1"
    } else if d == 2 {
        "2"
    } else if d == 3 {
        "3"
    } else if d == 4 {
        "4"
    } else if d == 5 {
        "5"
    } else if d == 6 {
        "6"
    } else if d == 7 {
        "7"
    } else if d == 8 {
        "8"
    } else {
        "9"
    }
}

/// Puts the decimal digits of `n` behind `out`.
fn push_digits(out: &mut String, n: u64)
    ensures
        final(out)@ == old(out)@ + digits_of(n as nat),
    decreases n,
{
    if n >= 10 {
        push_digits(out, n / 10);
    }
    out.append(digit_text(n % 10));
    proof {
        if n >= 10 {
            assert(out@ =~= old(out)@ + digits_of((n / 10) as nat).push(
                digit_char((n % 10) as int),
            ));
        }
    }
}

/// A whole number written in decimal.
pub fn integer_text(v: i64) -> (text: String)
    ensures
        text@ == decimal_text(v as int),
{
    let mut out = String::new();
    if v < 0 {
        proof {
            reveal_strlit("-");
        }
        out.append("-");
        let magnitude: u64 = ((0 - (v + 1)) as u64) + 1;
        push_digits(&mut out, magnitude);
    } else {
        push_digits(&mut out, v as u64);
    }
    out
}

/// A row read with typed cells: its record identifier, and its cells by the
/// name of their column.
#[derive(Debug, PartialEq, Eq)]
pub struct Translations {
    id: String,
    languages: Vec<(String, LangData)>,
}

/// What a typed row holds: its record identifier, and for each cell the name
/// of its column and its text.
pub struct TranslationsView {
    pub id: Seq<char>,
    pub cells: Seq<(Seq<char>, Seq<char>)>,
}

impl TranslationsView {
    /// Whether `i` is where the first cell named `lang` stands.
    pub open spec fn first_at(self, lang: Seq<char>, i: int) -> bool {
        &&& 0 <= i < self.cells.len()
        &&& self.cells[i].0 == lang
        &&& forall|j: int| 0 <= j < i ==> (#[trigger] self.cells[j]).0 != lang
    }

    /// Whether the row has a cell named `lang`.
    pub open spec fn knows(self, lang: Seq<char>) -> bool {
        exists|i: int| self.first_at(lang, i)
    }

    /// The text of the first cell named `lang`; the empty text where there is none.
    pub open spec fn text_of(self, lang: Seq<char>) -> Seq<char> {
        if self.knows(lang) {
            self.cells[choose|i: int| self.first_at(lang, i)].1
        } else {
            Seq::empty()
        }
    }

    /// The row as a table with these headers has it: the record identifier
    /// first, then under each header the text of the cell of that name.
    pub open spec fn row(self, headers: Seq<Seq<char>>) -> Seq<Seq<char>> {
        Seq::new(
            headers.len(),
            |i: int|
                if i == 0 {
                    self.id
                } else {
                    self.text_of(headers[i])
                },
        )
    }
}

impl View for Translations {
    type V = TranslationsView;

    closed spec fn view(&self) -> TranslationsView {
        TranslationsView {
            id: self.id@,
            cells: Seq::new(
                self.languages.len() as nat,
                |i: int| (self.languages[i].0@, self.languages[i].1.text()),
            ),
        }
    }
}

/// Gives a row's record identifier and its cell for a language.
pub trait FormatTranslation {
    /// What the row holds.
    spec fn held(&self) -> TranslationsView;

    /// The record identifier, and the first cell named `lang`.
    fn format_lang(&self, lang: &str) -> (pair: (&str, &LangData))
        requires
            self.held().knows(lang@),
        ensures
            pair.0@ == self.held().id,
            pair.1.text() == self.held().text_of(lang@),
    ;
}

impl Translations {
    /// A row with this record identifier and these cells, each with the name
    /// of its column.
    pub fn new(id: String, languages: Vec<(String, LangData)>) -> (record: Translations)
        ensures
            record@.id == id@,
            record@.cells.len() == languages.len(),
            forall|i: int|
                0 <= i < languages.len() ==> #[trigger] record@.cells[i] == (
                    languages[i].0@,
                    languages[i].1.text(),
                ),
    {
        Translations { id, languages }
    }

    /// Where the first cell named `lang` stands, if there is one.
    fn position(&self, lang: &str) -> (found: Option<usize>)
        ensures
            match found {
                Some(i) => i < self.languages.len() && self@.first_at(lang@, i as int),
                None => !self@.knows(lang@),
            },
    {
        let mut i: usize = 0;
        while i < self.languages.len()
            invariant
                i <= self.languages.len(),
                forall|j: int| 0 <= j < i ==> (#[trigger] self@.cells[j]).0 != lang@,
            decreases self.languages.len() - i,
        {
            if same_text(self.languages[i].0.as_str(), lang) {
                return Some(i);
            }
            i = i + 1;
        }
        None
    }

    /// Whether the row has a cell named `lang`.
    pub fn has_language(&self, lang: &str) -> (known: bool)
        ensures
            known == self@.knows(lang@),
    {
        self.position(lang).is_some()
    }

    /// The row as a table with these headers has it.
    pub fn to_row(&self, headers: &[String]) -> (row: Vec<String>)
        ensures
            row.deep_view() == self@.row(headers.deep_view()),
    {
        let ghost names = headers.deep_view();
        let mut row: Vec<String> = Vec::new();
        let mut i: usize = 0;
        while i < headers.len()
            invariant
                names == headers.deep_view(),
                i <= headers.len(),
                row.len() == i,
                forall|j: int| 0 <= j < i ==> (#[trigger] row[j])@ == self@.row(names)[j],
            decreases headers.len() - i,
        {
            let text = if i == 0 {
                self.id.clone()
            } else if self.has_language(headers[i].as_str()) {
                self.format_lang(headers[i].as_str()).1.to_text()
            } else {
                String::new()
            };
            row.push(text);
            i = i + 1;
        }
        row
    }
}

impl FormatTranslation for Translations {
    open spec fn held(&self) -> TranslationsView {
        self@
    }

    fn format_lang(&self, lang: &str) -> (pair: (&str, &LangData)) {
        let found = self.position(lang);
        let at: usize = found.unwrap();
        proof {
            let chosen = choose|k: int| self@.first_at(lang@, k);
            assert(self@.first_at(lang@, at as int));
            assert(chosen == at);
        }
        (self.id.as_str(), &self.languages[at].1)
    }
}

} // verus!
