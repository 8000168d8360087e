//! What holds of every conversion, whatever the table.
//!
//! The laws speak of the dictionary as [`absorb_rows`] fills it and of the
//! outcome that [`generated`] makes of it: the models that the contracts of the
//! engine and of the generators are stated over.

use crate::aggregator::{absorb_columns, absorb_rows, cell, columns_overwrite};
use crate::classifier::{language_column, reserved, ID_COLUMN, METADATA_COLUMN};
use crate::dictionary::{lemma_absorb_wf, pretty, DictionaryView};
use crate::generators::{generated, output_file, typed_rows, GeneratedView, JSON_SUFFIX};
use crate::json::pretty_json;
use crate::translations::Translations;
use crate::text::blank;
use vstd::prelude::*;

verus! {

/// Whether one of the first `n` columns holds a language of this name.
pub open spec fn names_language(headers: Seq<Seq<char>>, language: Seq<char>, n: int) -> bool {
    exists|i: int| 0 <= i < n && #[trigger] language_column(headers, i) && headers[i] == language
}

/// Whether a row has no text in the language columns of this name that stand at
/// `from` or further right and before `to`.
pub open spec fn silent(
    headers: Seq<Seq<char>>,
    row: Seq<Seq<char>>,
    language: Seq<char>,
    from: int,
    to: int,
) -> bool {
    forall|i: int|
        from <= i < to && #[trigger] language_column(headers, i) && headers[i] == language
            ==> cell(row, i).len() == 0
}

/// A row gives a language a map of texts exactly where a language column has
/// that name, and takes none away.
pub proof fn lemma_columns_languages(
    dictionary: DictionaryView,
    headers: Seq<Seq<char>>,
    row: Seq<Seq<char>>,
    n: nat,
    language: Seq<char>,
)
    ensures
        absorb_columns(dictionary, headers, row, n).entries.contains_key(language) <==> (
        dictionary.entries.contains_key(language) || names_language(headers, language, n as int)),
    decreases n,
{
    if n > 0 {
        lemma_columns_languages(dictionary, headers, row, (n - 1) as nat, language);
        if names_language(headers, language, n as int) {
            let i = choose|i: int|
                0 <= i < n && #[trigger] language_column(headers, i) && headers[i] == language;
            if i < n - 1 {
                assert(names_language(headers, language, n - 1));
            }
        }
        if names_language(headers, language, n - 1) {
            let i = choose|i: int|
                0 <= i < n - 1 && #[trigger] language_column(headers, i) && headers[i] == language;
            assert(0 <= i < n && language_column(headers, i) && headers[i] == language);
        }
        if language_column(headers, n - 1) && headers[n - 1] == language {
            assert(names_language(headers, language, n as int));
        }
    }
}

/// A row keeps the dictionary well formed.
pub proof fn lemma_columns_wf(
    dictionary: DictionaryView,
    headers: Seq<Seq<char>>,
    row: Seq<Seq<char>>,
    n: nat,
)
    requires
        dictionary.wf(),
    ensures
        absorb_columns(dictionary, headers, row, n).wf(),
    decreases n,
{
    if n > 0 {
        lemma_columns_wf(dictionary, headers, row, (n - 1) as nat);
        if language_column(headers, n - 1) {
            lemma_absorb_wf(
                absorb_columns(dictionary, headers, row, (n - 1) as nat),
                headers[n - 1],
                cell(row, 0),
                cell(row, n - 1),
            );
        }
    }
}

/// Whatever the rows, the dictionary is well formed: no language has two maps.
pub proof fn lemma_rows_wf(headers: Seq<Seq<char>>, rows: Seq<Seq<Seq<char>>>, n: nat)
    ensures
        absorb_rows(headers, rows, n).dictionary.wf(),
    decreases n,
{
    if n > 0 {
        lemma_rows_wf(headers, rows, (n - 1) as nat);
        lemma_columns_wf(
            absorb_rows(headers, rows, (n - 1) as nat).dictionary,
            headers,
            rows[n - 1],
            headers.len(),
        );
    }
}

/// The languages of the dictionary are the names of the language columns, as
/// soon as one row has come; before that there are none.
pub proof fn lemma_rows_languages(
    headers: Seq<Seq<char>>,
    rows: Seq<Seq<Seq<char>>>,
    n: nat,
    language: Seq<char>,
)
    ensures
        absorb_rows(headers, rows, n).dictionary.entries.contains_key(language) <==> (n > 0
            && names_language(headers, language, headers.len() as int)),
    decreases n,
{
    if n > 0 {
        lemma_rows_languages(headers, rows, (n - 1) as nat, language);
        lemma_columns_languages(
            absorb_rows(headers, rows, (n - 1) as nat).dictionary,
            headers,
            rows[n - 1],
            headers.len(),
            language,
        );
    }
}

/// The identifier column and the metadata column never become a language, nor
/// does a column with a blank name: every language of the dictionary is the
/// name of a column that is not the first and whose name is not reserved.
pub proof fn lemma_reserved_columns_stay_out(
    headers: Seq<Seq<char>>,
    rows: Seq<Seq<Seq<char>>>,
    language: Seq<char>,
)
    requires
        absorb_rows(headers, rows, rows.len()).dictionary.entries.contains_key(language),
    ensures
        language != ID_COLUMN@,
        language != METADATA_COLUMN@,
        !blank(language),
        exists|i: int| 0 < i < headers.len() && #[trigger] headers[i] == language,
{
    lemma_rows_languages(headers, rows, rows.len(), language);
    let i = choose|i: int|
        0 <= i < headers.len() && #[trigger] language_column(headers, i) && headers[i] == language;
    assert(!reserved(headers[i]));
    assert(0 < i < headers.len() && headers[i] == language);
}

/// The outcome holds one document for each language of the dictionary, in the
/// dictionary's order, written from that language's texts.
pub proof fn lemma_documents_follow_dictionary(
    headers: Seq<Seq<char>>,
    rows: Seq<Seq<Seq<char>>>,
    shared_name: Option<Seq<char>>,
    made: GeneratedView,
    k: int,
)
    requires
        generated(headers, rows, shared_name) == Some(made),
        0 <= k < made.files.len(),
    ensures
        made.files.len() == absorb_rows(headers, rows, rows.len()).dictionary.languages.len(),
        made.files[k].language == absorb_rows(headers, rows, rows.len()).dictionary.languages[k],
        absorb_rows(headers, rows, rows.len()).dictionary.entries.contains_key(
            made.files[k].language,
        ),
        pretty_json(
            absorb_rows(headers, rows, rows.len()).dictionary.entries[made.files[k].language],
        ) == Some(made.files[k].contents),
{
    let dictionary = absorb_rows(headers, rows, rows.len()).dictionary;
    lemma_rows_wf(headers, rows, rows.len());
    assert(pretty(dictionary, k) is Some);
    assert(dictionary.languages.contains(dictionary.languages[k]));
}

/// No document is made for the identifier column, the metadata column or a
/// column with a blank name: none is for such a language, and so none is named
/// after one or goes to a directory named after one.
pub proof fn lemma_no_document_for_reserved_columns(
    headers: Seq<Seq<char>>,
    rows: Seq<Seq<Seq<char>>>,
    shared_name: Option<Seq<char>>,
    made: GeneratedView,
    k: int,
)
    requires
        generated(headers, rows, shared_name) == Some(made),
        0 <= k < made.files.len(),
    ensures
        made.files[k].language != ID_COLUMN@,
        made.files[k].language != METADATA_COLUMN@,
        !blank(made.files[k].language),
        exists|i: int| 0 < i < headers.len() && #[trigger] headers[i] == made.files[k].language,
        match shared_name {
            Some(_) => {
                &&& made.files[k].directory != Some(ID_COLUMN@)
                &&& made.files[k].directory != Some(METADATA_COLUMN@)
            },
            None => {
                &&& made.files[k].file_name != ID_COLUMN@ + JSON_SUFFIX@
                &&& made.files[k].file_name != METADATA_COLUMN@ + JSON_SUFFIX@
            },
        },
{
    lemma_documents_follow_dictionary(headers, rows, shared_name, made, k);
    lemma_reserved_columns_stay_out(headers, rows, made.files[k].language);
    let language = made.files[k].language;
    assert(made.files[k] == output_file(language, made.files[k].contents, shared_name));
    if language + JSON_SUFFIX@ == ID_COLUMN@ + JSON_SUFFIX@ {
        lemma_same_suffix(language, ID_COLUMN@, JSON_SUFFIX@);
    }
    if language + JSON_SUFFIX@ == METADATA_COLUMN@ + JSON_SUFFIX@ {
        lemma_same_suffix(language, METADATA_COLUMN@, JSON_SUFFIX@);
    }
}

/// Two texts that are the same once the same ending is put behind them are the
/// same.
pub proof fn lemma_same_suffix(a: Seq<char>, b: Seq<char>, ending: Seq<char>)
    requires
        a + ending == b + ending,
    ensures
        a == b,
{
    assert((a + ending).len() == a.len() + ending.len());
    assert((b + ending).len() == b.len() + ending.len());
    assert forall|i: int| 0 <= i < a.len() implies a[i] == b[i] by {
        assert((a + ending)[i] == a[i]);
        assert((b + ending)[i] == b[i]);
    }
    assert(a =~= b);
}

/// A row leaves every text alone that belongs to another record identifier.
pub proof fn lemma_other_identifiers_untouched(
    dictionary: DictionaryView,
    headers: Seq<Seq<char>>,
    row: Seq<Seq<char>>,
    n: nat,
    language: Seq<char>,
    id: Seq<char>,
)
    requires
        id != cell(row, 0),
    ensures
        absorb_columns(dictionary, headers, row, n).texts_of(language).contains_key(id)
            == dictionary.texts_of(language).contains_key(id),
        dictionary.texts_of(language).contains_key(id) ==> absorb_columns(
            dictionary,
            headers,
            row,
            n,
        ).texts_of(language)[id] == dictionary.texts_of(language)[id],
    decreases n,
{
    if n > 0 {
        lemma_other_identifiers_untouched(dictionary, headers, row, (n - 1) as nat, language, id);
    }
}

/// A text, once held, is never dropped: a row may replace it, not remove it.
pub proof fn lemma_entries_stay(
    dictionary: DictionaryView,
    headers: Seq<Seq<char>>,
    row: Seq<Seq<char>>,
    n: nat,
    language: Seq<char>,
    id: Seq<char>,
)
    requires
        dictionary.texts_of(language).contains_key(id),
    ensures
        absorb_columns(dictionary, headers, row, n).texts_of(language).contains_key(id),
    decreases n,
{
    if n > 0 {
        lemma_entries_stay(dictionary, headers, row, (n - 1) as nat, language, id);
    }
}

/// A row that has no text for a language replaces none of that language's
/// texts: the map stays as it is, but for the row's record identifier, which
/// gets an empty text where the map did not hold it and a column of that
/// language was met.
pub proof fn lemma_empty_text_never_overwrites(
    dictionary: DictionaryView,
    headers: Seq<Seq<char>>,
    row: Seq<Seq<char>>,
    n: nat,
    language: Seq<char>,
)
    requires
        silent(headers, row, language, 0, n as int),
    ensures
        absorb_columns(dictionary, headers, row, n).texts_of(language) == if names_language(
            headers,
            language,
            n as int,
        ) && !dictionary.texts_of(language).contains_key(cell(row, 0)) {
            dictionary.texts_of(language).insert(cell(row, 0), Seq::empty())
        } else {
            dictionary.texts_of(language)
        },
    decreases n,
{
    if n > 0 {
        let shorter = (n - 1) as nat;
        lemma_empty_text_never_overwrites(dictionary, headers, row, shorter, language);
        if names_language(headers, language, shorter as int) {
            let i = choose|i: int|
                0 <= i < shorter && #[trigger] language_column(headers, i) && headers[i]
                    == language;
            assert(0 <= i < n && language_column(headers, i) && headers[i] == language);
        }
        if language_column(headers, n - 1) && headers[n - 1] == language {
            assert(names_language(headers, language, n as int));
            assert(cell(row, n - 1) =~= Seq::<char>::empty());
        } else if names_language(headers, language, n as int) {
            let i = choose|i: int|
                0 <= i < n && #[trigger] language_column(headers, i) && headers[i] == language;
            assert(names_language(headers, language, shorter as int));
        }
        let before = absorb_columns(dictionary, headers, row, shorter);
        let after = absorb_columns(dictionary, headers, row, n);
        let earlier = dictionary.texts_of(language);
        assert(after.texts_of(language) =~= if names_language(headers, language, n as int)
            && !earlier.contains_key(cell(row, 0)) {
            earlier.insert(cell(row, 0), Seq::empty())
        } else {
            earlier
        });
    }
}

/// A row's text for a language takes the place of whatever the map held for the
/// row's record identifier, an empty text or not: after the row the map is what
/// it was when the column was reached, with that text under the identifier.
/// Where a language has several columns, the last of them with a text counts.
pub proof fn lemma_text_always_overwrites(
    dictionary: DictionaryView,
    headers: Seq<Seq<char>>,
    row: Seq<Seq<char>>,
    n: nat,
    column: int,
)
    requires
        language_column(headers, column),
        column < n,
        cell(row, column).len() > 0,
        silent(headers, row, headers[column], column + 1, n as int),
    ensures
        absorb_columns(dictionary, headers, row, n).texts_of(headers[column]) == absorb_columns(
            dictionary,
            headers,
            row,
            column as nat,
        ).texts_of(headers[column]).insert(cell(row, 0), cell(row, column)),
        dictionary.texts_of(headers[column]).contains_key(cell(row, 0)) ==> columns_overwrite(
            dictionary,
            headers,
            row,
            n,
        ),
    decreases n,
{
    let language = headers[column];
    let id = cell(row, 0);
    let reached = absorb_columns(dictionary, headers, row, column as nat);
    let wanted = reached.texts_of(language).insert(id, cell(row, column));
    if n == column + 1 {
        assert(absorb_columns(dictionary, headers, row, n).texts_of(language) =~= wanted);
        if dictionary.texts_of(language).contains_key(id) {
            lemma_entries_stay(dictionary, headers, row, column as nat, language, id);
        }
    } else {
        let shorter = (n - 1) as nat;
        lemma_text_always_overwrites(dictionary, headers, row, shorter, column);
        if language_column(headers, n - 1) && headers[n - 1] == language {
            assert(cell(row, n - 1) =~= Seq::<char>::empty());
        }
        assert(absorb_columns(dictionary, headers, row, n).texts_of(language) =~= wanted);
    }
}

/// Every text of the table that no later text replaces stands in the
/// dictionary as it was read: the text of a row for a language, where neither
/// the same row, further right, nor a later row with the same record identifier
/// has another text for that language.
pub proof fn lemma_last_text_is_kept(
    headers: Seq<Seq<char>>,
    rows: Seq<Seq<Seq<char>>>,
    n: nat,
    r: int,
    column: int,
)
    requires
        0 <= r < n <= rows.len(),
        language_column(headers, column),
        cell(rows[r], column).len() > 0,
        silent(headers, rows[r], headers[column], column + 1, headers.len() as int),
        forall|s: int|
            r < s < n && cell(#[trigger] rows[s], 0) == cell(rows[r], 0) ==> silent(
                headers,
                rows[s],
                headers[column],
                0,
                headers.len() as int,
            ),
    ensures
        absorb_rows(headers, rows, n).dictionary.entries.contains_key(headers[column]),
        absorb_rows(headers, rows, n).dictionary.entries[headers[column]].contains_key(
            cell(rows[r], 0),
        ),
        absorb_rows(headers, rows, n).dictionary.entries[headers[column]][cell(rows[r], 0)]
            == cell(rows[r], column),
    decreases n,
{
    let language = headers[column];
    let id = cell(rows[r], 0);
    let before = absorb_rows(headers, rows, (n - 1) as nat).dictionary;
    let after = absorb_rows(headers, rows, n).dictionary;
    let row = rows[n - 1];
    assert(after == absorb_columns(before, headers, row, headers.len()));
    assert(names_language(headers, language, headers.len() as int));
    lemma_rows_languages(headers, rows, n, language);
    if r == n - 1 {
        lemma_text_always_overwrites(before, headers, row, headers.len(), column);
    } else {
        lemma_last_text_is_kept(headers, rows, (n - 1) as nat, r, column);
        if cell(row, 0) == id {
            lemma_empty_text_never_overwrites(before, headers, row, headers.len(), language);
        } else {
            lemma_other_identifiers_untouched(before, headers, row, headers.len(), language, id);
        }
    }
}

/// The same, of the documents: the language has a document, and it is written
/// from texts that hold this one, as it was read, under its record identifier.
pub proof fn lemma_round_trip(
    headers: Seq<Seq<char>>,
    rows: Seq<Seq<Seq<char>>>,
    shared_name: Option<Seq<char>>,
    made: GeneratedView,
    r: int,
    column: int,
)
    requires
        generated(headers, rows, shared_name) == Some(made),
        0 <= r < rows.len(),
        language_column(headers, column),
        cell(rows[r], column).len() > 0,
        silent(headers, rows[r], headers[column], column + 1, headers.len() as int),
        forall|s: int|
            r < s < rows.len() && cell(#[trigger] rows[s], 0) == cell(rows[r], 0) ==> silent(
                headers,
                rows[s],
                headers[column],
                0,
                headers.len() as int,
            ),
    ensures
        exists|k: int|
            {
                &&& 0 <= k < made.files.len()
                &&& (#[trigger] made.files[k]).language == headers[column]
                &&& pretty_json(
                    absorb_rows(headers, rows, rows.len()).dictionary.entries[headers[column]],
                ) == Some(made.files[k].contents)
            },
        absorb_rows(headers, rows, rows.len()).dictionary.entries[headers[column]].contains_key(
            cell(rows[r], 0),
        ),
        absorb_rows(headers, rows, rows.len()).dictionary.entries[headers[column]][cell(rows[r], 0)]
            == cell(rows[r], column),
{
    let dictionary = absorb_rows(headers, rows, rows.len()).dictionary;
    let language = headers[column];
    lemma_last_text_is_kept(headers, rows, rows.len(), r, column);
    lemma_rows_wf(headers, rows, rows.len());
    assert(dictionary.languages.contains(language));
    let k = choose|k: int| 0 <= k < dictionary.languages.len() && dictionary.languages[k] == language;
    lemma_documents_follow_dictionary(headers, rows, shared_name, made, k);
    assert(made.files[k].language == language);
}

/// A row gives its record identifier a text in every language that has a
/// column, and gives no other identifier one.
pub proof fn lemma_columns_identifiers(
    dictionary: DictionaryView,
    headers: Seq<Seq<char>>,
    row: Seq<Seq<char>>,
    n: nat,
    language: Seq<char>,
    id: Seq<char>,
)
    ensures
        absorb_columns(dictionary, headers, row, n).texts_of(language).contains_key(id) <==> (
        dictionary.texts_of(language).contains_key(id) || (id == cell(row, 0) && names_language(
            headers,
            language,
            n as int,
        ))),
    decreases n,
{
    if n > 0 {
        let shorter = (n - 1) as nat;
        lemma_columns_identifiers(dictionary, headers, row, shorter, language, id);
        if names_language(headers, language, shorter as int) {
            let i = choose|i: int|
                0 <= i < shorter && #[trigger] language_column(headers, i) && headers[i]
                    == language;
            assert(0 <= i < n && language_column(headers, i) && headers[i] == language);
        }
        if language_column(headers, n - 1) && headers[n - 1] == language {
            assert(names_language(headers, language, n as int));
        } else if names_language(headers, language, n as int) {
            let i = choose|i: int|
                0 <= i < n && #[trigger] language_column(headers, i) && headers[i] == language;
            assert(names_language(headers, language, shorter as int));
        }
    }
}

/// The record identifiers of a language of the dictionary are those of the
/// rows: every row's identifier has a text, and nothing else has.
pub proof fn lemma_identifiers_are_those_of_the_rows(
    headers: Seq<Seq<char>>,
    rows: Seq<Seq<Seq<char>>>,
    n: nat,
    language: Seq<char>,
    id: Seq<char>,
)
    requires
        names_language(headers, language, headers.len() as int),
    ensures
        absorb_rows(headers, rows, n).dictionary.texts_of(language).contains_key(id) <==> (
        exists|r: int| 0 <= r < n && cell(#[trigger] rows[r], 0) == id),
    decreases n,
{
    if n > 0 {
        let shorter = (n - 1) as nat;
        lemma_identifiers_are_those_of_the_rows(headers, rows, shorter, language, id);
        lemma_columns_identifiers(
            absorb_rows(headers, rows, shorter).dictionary,
            headers,
            rows[n - 1],
            headers.len(),
            language,
            id,
        );
        if exists|r: int| 0 <= r < shorter && cell(#[trigger] rows[r], 0) == id {
            let r = choose|r: int| 0 <= r < shorter && cell(#[trigger] rows[r], 0) == id;
            assert(0 <= r < n && cell(rows[r], 0) == id);
        }
        if cell(rows[n - 1], 0) == id {
            assert(0 <= n - 1 < n && cell(rows[n - 1], 0) == id);
        } else if exists|r: int| 0 <= r < n && cell(#[trigger] rows[r], 0) == id {
            let r = choose|r: int| 0 <= r < n && cell(#[trigger] rows[r], 0) == id;
            assert(0 <= r < shorter && cell(rows[r], 0) == id);
        }
    }
}

/// A record identifier for which no row has a text in a language stands in that
/// language's map with an empty text.
pub proof fn lemma_no_text_gives_an_empty_text(
    headers: Seq<Seq<char>>,
    rows: Seq<Seq<Seq<char>>>,
    n: nat,
    r: int,
    language: Seq<char>,
)
    requires
        0 <= r < n <= rows.len(),
        names_language(headers, language, headers.len() as int),
        forall|s: int|
            0 <= s < n && cell(#[trigger] rows[s], 0) == cell(rows[r], 0) ==> silent(
                headers,
                rows[s],
                language,
                0,
                headers.len() as int,
            ),
    ensures
        absorb_rows(headers, rows, n).dictionary.texts_of(language).contains_key(cell(rows[r], 0)),
        absorb_rows(headers, rows, n).dictionary.texts_of(language)[cell(rows[r], 0)]
            == Seq::<char>::empty(),
    decreases n,
{
    let id = cell(rows[r], 0);
    let shorter = (n - 1) as nat;
    let before = absorb_rows(headers, rows, shorter).dictionary;
    let row = rows[n - 1];
    if cell(row, 0) == id {
        lemma_empty_text_never_overwrites(before, headers, row, headers.len(), language);
        if before.texts_of(language).contains_key(id) {
            lemma_identifiers_are_those_of_the_rows(headers, rows, shorter, language, id);
            let s = choose|s: int| 0 <= s < shorter && cell(#[trigger] rows[s], 0) == id;
            lemma_no_text_gives_an_empty_text(headers, rows, shorter, s, language);
        }
    } else {
        lemma_no_text_gives_an_empty_text(headers, rows, shorter, r, language);
        lemma_other_identifiers_untouched(before, headers, row, headers.len(), language, id);
    }
}

/// A row that has no text in any language column replaces nothing, and is not
/// counted.
pub proof fn lemma_row_without_texts_counts_nothing(
    dictionary: DictionaryView,
    headers: Seq<Seq<char>>,
    row: Seq<Seq<char>>,
    n: nat,
)
    requires
        forall|i: int| 0 <= i < n && #[trigger] language_column(headers, i) ==> cell(row, i).len() == 0,
    ensures
        !columns_overwrite(dictionary, headers, row, n),
    decreases n,
{
    if n > 0 {
        lemma_row_without_texts_counts_nothing(dictionary, headers, row, (n - 1) as nat);
    }
}

/// Whether a row has a text that meets an earlier one: a text in a language
/// column, for a record identifier that the dictionary holds in that language
/// or that the same row has under an earlier column of that language.
pub open spec fn meets_earlier_text(
    dictionary: DictionaryView,
    headers: Seq<Seq<char>>,
    row: Seq<Seq<char>>,
    n: int,
) -> bool {
    exists|c: int|
        0 <= c < n && #[trigger] language_column(headers, c) && cell(row, c).len() > 0 && (
        dictionary.texts_of(headers[c]).contains_key(cell(row, 0)) || names_language(
            headers,
            headers[c],
            c,
        ))
}

/// A row replaces a text exactly where one of its texts meets an earlier one.
pub proof fn lemma_columns_overwrite(
    dictionary: DictionaryView,
    headers: Seq<Seq<char>>,
    row: Seq<Seq<char>>,
    n: nat,
)
    ensures
        columns_overwrite(dictionary, headers, row, n) <==> meets_earlier_text(
            dictionary,
            headers,
            row,
            n as int,
        ),
    decreases n,
{
    if n > 0 {
        let shorter = (n - 1) as nat;
        let id = cell(row, 0);
        lemma_columns_overwrite(dictionary, headers, row, shorter);
        if language_column(headers, n - 1) {
            lemma_columns_identifiers(dictionary, headers, row, shorter, headers[n - 1], id);
        }
        if meets_earlier_text(dictionary, headers, row, shorter as int) {
            let c = choose|c: int|
                0 <= c < shorter && #[trigger] language_column(headers, c) && cell(row, c).len() > 0
                    && (dictionary.texts_of(headers[c]).contains_key(id) || names_language(
                    headers,
                    headers[c],
                    c,
                ));
            assert(0 <= c < n && language_column(headers, c));
        }
        if meets_earlier_text(dictionary, headers, row, n as int) {
            let c = choose|c: int|
                0 <= c < n && #[trigger] language_column(headers, c) && cell(row, c).len() > 0 && (
                dictionary.texts_of(headers[c]).contains_key(id) || names_language(
                    headers,
                    headers[c],
                    c,
                ));
            if c < shorter {
                assert(meets_earlier_text(dictionary, headers, row, shorter as int));
            }
        }
        if columns_overwrite(dictionary, headers, row, n) && !columns_overwrite(
            dictionary,
            headers,
            row,
            shorter,
        ) {
            assert(0 <= n - 1 < n && language_column(headers, n - 1));
        }
    }
}

/// Whether the row at `r` replaces a text: it has a text in a language column,
/// and its record identifier came before, in an earlier row or in the same row
/// under an earlier column of the same language.
pub open spec fn replaces(headers: Seq<Seq<char>>, rows: Seq<Seq<Seq<char>>>, r: int) -> bool {
    exists|c: int| #[trigger]
        language_column(headers, c) && cell(rows[r], c).len() > 0 && ((exists|s: int|
            0 <= s < r && cell(#[trigger] rows[s], 0) == cell(rows[r], 0)) || names_language(
            headers,
            headers[c],
            c,
        ))
}

/// The rows that are counted are those that replace a text.
pub proof fn lemma_counted_rows_replace(headers: Seq<Seq<char>>, rows: Seq<Seq<Seq<char>>>, r: int)
    requires
        0 <= r,
    ensures
        columns_overwrite(
            absorb_rows(headers, rows, r as nat).dictionary,
            headers,
            rows[r],
            headers.len(),
        ) <==> replaces(headers, rows, r),
{
    let before = absorb_rows(headers, rows, r as nat).dictionary;
    let row = rows[r];
    let id = cell(row, 0);
    lemma_columns_overwrite(before, headers, row, headers.len());
    assert forall|c: int| #[trigger] language_column(headers, c) implies (before.texts_of(
        headers[c],
    ).contains_key(id) <==> exists|s: int| 0 <= s < r && cell(#[trigger] rows[s], 0) == id) by {
        assert(names_language(headers, headers[c], headers.len() as int));
        lemma_identifiers_are_those_of_the_rows(headers, rows, r as nat, headers[c], id);
    }
    if meets_earlier_text(before, headers, row, headers.len() as int) {
        let c = choose|c: int|
            0 <= c < headers.len() && #[trigger] language_column(headers, c) && cell(row, c).len()
                > 0 && (before.texts_of(headers[c]).contains_key(id) || names_language(
                headers,
                headers[c],
                c,
            ));
        assert(language_column(headers, c));
    }
    if replaces(headers, rows, r) {
        let c = choose|c: int| #[trigger]
            language_column(headers, c) && cell(row, c).len() > 0 && ((exists|s: int|
                0 <= s < r && cell(#[trigger] rows[s], 0) == id) || names_language(
                headers,
                headers[c],
                c,
            ));
        assert(0 <= c < headers.len() && language_column(headers, c));
    }
}

/// There is a report for a row exactly where the row replaces a text, and it
/// holds the row's record identifier.
pub proof fn lemma_reports_are_of_the_replacing_rows(
    headers: Seq<Seq<char>>,
    rows: Seq<Seq<Seq<char>>>,
    n: nat,
)
    ensures
        forall|r: int|
            0 <= r < n ==> (#[trigger] replaces(headers, rows, r) <==> exists|k: int|
                0 <= k < absorb_rows(headers, rows, n).notices.len() && (#[trigger] absorb_rows(
                    headers,
                    rows,
                    n,
                ).notices[k]).row == r + 1),
        forall|k: int|
            0 <= k < absorb_rows(headers, rows, n).notices.len() ==> (#[trigger] absorb_rows(
                headers,
                rows,
                n,
            ).notices[k]).key == cell(rows[absorb_rows(headers, rows, n).notices[k].row - 1], 0),
    decreases n,
{
    if n > 0 {
        let shorter = (n - 1) as nat;
        let before = absorb_rows(headers, rows, shorter).notices;
        let after = absorb_rows(headers, rows, n).notices;
        lemma_reports_are_of_the_replacing_rows(headers, rows, shorter);
        lemma_counted_rows_replace(headers, rows, n - 1);
        lemma_one_report_per_row(headers, rows, shorter);
        assert forall|r: int| 0 <= r < n implies (#[trigger] replaces(headers, rows, r)
            <==> exists|k: int| 0 <= k < after.len() && (#[trigger] after[k]).row == r + 1) by {
            if r < shorter {
                if replaces(headers, rows, r) {
                    let k = choose|k: int| 0 <= k < before.len() && (#[trigger] before[k]).row == r + 1;
                    assert(after[k].row == r + 1);
                }
                if exists|k: int| 0 <= k < after.len() && (#[trigger] after[k]).row == r + 1 {
                    let k = choose|k: int| 0 <= k < after.len() && (#[trigger] after[k]).row == r + 1;
                    assert(before[k].row == r + 1);
                }
            } else {
                if replaces(headers, rows, r) {
                    assert(after[before.len() as int].row == r + 1);
                }
                if exists|k: int| 0 <= k < after.len() && (#[trigger] after[k]).row == r + 1 {
                    let k = choose|k: int| 0 <= k < after.len() && (#[trigger] after[k]).row == r + 1;
                    if k < before.len() {
                        assert(before[k].row <= shorter);
                    }
                }
            }
        }
    }
}

/// The tally counts rows, not texts: a row that replaced a text has one report,
/// whatever the number of texts it replaced, and the reports stand in the order
/// of the rows. So there are never more of them than rows.
pub proof fn lemma_one_report_per_row(headers: Seq<Seq<char>>, rows: Seq<Seq<Seq<char>>>, n: nat)
    ensures
        absorb_rows(headers, rows, n).times_overwritten == absorb_rows(headers, rows, n).notices.len(),
        absorb_rows(headers, rows, n).times_overwritten <= n,
        forall|k: int|
            0 <= k < absorb_rows(headers, rows, n).notices.len() ==> 1 <= (#[trigger] absorb_rows(
                headers,
                rows,
                n,
            ).notices[k]).row <= n,
        forall|a: int, b: int|
            0 <= a < b < absorb_rows(headers, rows, n).notices.len() ==> (#[trigger] absorb_rows(
                headers,
                rows,
                n,
            ).notices[a]).row < (#[trigger] absorb_rows(headers, rows, n).notices[b]).row,
    decreases n,
{
    if n > 0 {
        lemma_one_report_per_row(headers, rows, (n - 1) as nat);
    }
}

/// Typed records and plain rows are converted alike: records whose rows under
/// the headers are the plain rows give the same outcome.
pub proof fn lemma_typed_and_plain_agree(
    headers: Seq<Seq<char>>,
    rows: Seq<Seq<Seq<char>>>,
    records: Seq<Translations>,
    shared_name: Option<Seq<char>>,
)
    requires
        records.len() == rows.len(),
        forall|i: int| 0 <= i < rows.len() ==> (#[trigger] records[i])@.row(headers) == rows[i],
    ensures
        generated(headers, typed_rows(records, headers), shared_name) == generated(
            headers,
            rows,
            shared_name,
        ),
{
    assert(typed_rows(records, headers) =~= rows);
}

/// Converting twice gives the same: the outcome is made of the headers, the rows
/// and the shared file name, and of nothing else.
pub proof fn lemma_conversion_repeats(
    headers: Seq<Seq<char>>,
    rows: Seq<Seq<Seq<char>>>,
    shared_name: Option<Seq<char>>,
    first: Option<GeneratedView>,
    second: Option<GeneratedView>,
)
    requires
        first == generated(headers, rows, shared_name),
        second == generated(headers, rows, shared_name),
    ensures
        first == second,
{
}

} // verus!
