//! From the rows of a table to the JSON documents, one for each language.

use crate::aggregator::{absorb_rows, Aggregator, Notice, NoticeView, TallyView};
use crate::config::Config;
use crate::dictionary::{pretty, Dictionary, DictionaryView};
use crate::language_map::RenderError;
use crate::translations::Translations;
use vstd::prelude::*;

verus! {

/// What follows the name of every document.
pub const JSON_SUFFIX: &'static str = ".json";

/// One document to write: the language it is for, the directory below the
/// output directory that it goes to, if any, its file name, and its JSON text.
#[derive(Debug, PartialEq, Eq)]
pub struct OutputFile {
    pub language: String,
    pub directory: Option<String>,
    pub file_name: String,
    pub contents: String,
}

/// What a document to write holds.
pub struct OutputFileView {
    pub language: Seq<char>,
    pub directory: Option<Seq<char>>,
    pub file_name: Seq<char>,
    pub contents: Seq<char>,
}

impl View for OutputFile {
    type V = OutputFileView;

    open spec fn view(&self) -> OutputFileView {
        OutputFileView {
            language: self.language@,
            directory: self.directory.deep_view(),
            file_name: self.file_name@,
            contents: self.contents@,
        }
    }
}

/// The document of a language. With a shared file name it goes to a directory
/// named after the language; without one it is named after the language itself.
pub open spec fn output_file(
    language: Seq<char>,
    contents: Seq<char>,
    shared_name: Option<Seq<char>>,
) -> OutputFileView {
    match shared_name {
        Some(name) => OutputFileView {
            language,
            directory: Some(language),
            file_name: name + JSON_SUFFIX@,
            contents,
        },
        None => OutputFileView {
            language,
            directory: None,
            file_name: language + JSON_SUFFIX@,
            contents,
        },
    }
}

/// Whether the first `n` languages of a dictionary can be written as JSON.
pub open spec fn renders(dictionary: DictionaryView, n: int) -> bool {
    forall|i: int| 0 <= i < n ==> (#[trigger] pretty(dictionary, i)) is Some
}

/// The documents of a dictionary, one for each language in the order in which
/// the languages were met; `None` where one of them cannot be written.
pub open spec fn rendered(dictionary: DictionaryView, shared_name: Option<Seq<char>>) -> Option<
    Seq<OutputFileView>,
> {
    if renders(dictionary, dictionary.languages.len() as int) {
        Some(
            Seq::new(
                dictionary.languages.len(),
                |i: int|
                    output_file(dictionary.languages[i], pretty(dictionary, i).unwrap(), shared_name),
            ),
        )
    } else {
        None
    }
}

/// The outcome of a conversion: the documents to write, how many rows replaced
/// a text, and a report for each of those rows.
#[derive(Debug, PartialEq, Eq)]
pub struct Generated {
    pub files: Vec<OutputFile>,
    pub times_overwritten: usize,
    pub notices: Vec<Notice>,
}

/// What the outcome of a conversion holds.
pub struct GeneratedView {
    pub files: Seq<OutputFileView>,
    pub times_overwritten: nat,
    pub notices: Seq<NoticeView>,
}

impl View for Generated {
    type V = GeneratedView;

    open spec fn view(&self) -> GeneratedView {
        GeneratedView {
            files: self.files@.map_values(|file: OutputFile| file@),
            times_overwritten: self.times_overwritten as nat,
            notices: self.notices@.map_values(|notice: Notice| notice@),
        }
    }
}

/// The outcome that a tally leads to.
pub open spec fn outcome(tally: TallyView, shared_name: Option<Seq<char>>) -> Option<
    GeneratedView,
> {
    match rendered(tally.dictionary, shared_name) {
        Some(files) => Some(
            GeneratedView {
                files,
                times_overwritten: tally.times_overwritten,
                notices: tally.notices,
            },
        ),
        None => None,
    }
}

/// The outcome of converting a table: its rows are taken in from first to last,
/// then every language is written.
pub open spec fn generated(
    headers: Seq<Seq<char>>,
    rows: Seq<Seq<Seq<char>>>,
    shared_name: Option<Seq<char>>,
) -> Option<GeneratedView> {
    outcome(absorb_rows(headers, rows, rows.len()), shared_name)
}

/// The rows of a table whose records were read with typed cells.
pub open spec fn typed_rows(records: Seq<Translations>, headers: Seq<Seq<char>>) -> Seq<
    Seq<Seq<char>>,
> {
    Seq::new(records.len(), |i: int| records[i]@.row(headers))
}

impl OutputFile {
    /// The document of `language` with this JSON text.
    pub fn new(language: &str, contents: String, shared_name: Option<&str>) -> (file: OutputFile)
        ensures
            file@ == output_file(language@, contents@, shared_name.deep_view()),
    {
        match shared_name {
            Some(name) => OutputFile {
                language: String::from_str(language),
                directory: Some(String::from_str(language)),
                file_name: String::from_str(name).concat(JSON_SUFFIX),
                contents,
            },
            None => OutputFile {
                language: String::from_str(language),
                directory: None,
                file_name: String::from_str(language).concat(JSON_SUFFIX),
                contents,
            },
        }
    }
}

/// The document of one language of a dictionary.
fn render_file(dictionary: &Dictionary, index: usize, shared_name: Option<&str>) -> (file: Result<
    OutputFile,
    RenderError,
>)
    requires
        dictionary.wf(),
        index < dictionary@.languages.len(),
    ensures
        match file {
            Ok(file) => pretty(dictionary@, index as int) is Some && file@ == output_file(
                dictionary@.languages[index as int],
                pretty(dictionary@, index as int).unwrap(),
                shared_name.deep_view(),
            ),
            Err(_) => pretty(dictionary@, index as int) is None,
        },
{
    match dictionary.render(index) {
        Ok(contents) => Ok(
            OutputFile::new(dictionary.language(index), contents, shared_name),
        ),
        Err(error) => Err(error),
    }
}

/// The documents of a dictionary, one for each language.
pub fn render_files(dictionary: &Dictionary, shared_name: Option<&str>) -> (files: Result<
    Vec<OutputFile>,
    RenderError,
>)
    requires
        dictionary.wf(),
    ensures
        match files {
            Ok(files) => rendered(dictionary@, shared_name.deep_view()) == Some(
                files@.map_values(|file: OutputFile| file@),
            ),
            Err(_) => rendered(dictionary@, shared_name.deep_view()) is None,
        },
{
    let mut files: Vec<OutputFile> = Vec::new();
    let n: usize = dictionary.len();
    let mut i: usize = 0;
    while i < n
        invariant
            dictionary.wf(),
            n == dictionary@.languages.len(),
            i <= n,
            files.len() == i,
            renders(dictionary@, i as int),
            forall|j: int|
                0 <= j < i ==> (#[trigger] files[j])@ == output_file(
                    dictionary@.languages[j],
                    pretty(dictionary@, j).unwrap(),
                    shared_name.deep_view(),
                ),
        decreases n - i,
    {
        match render_file(dictionary, i, shared_name) {
            Ok(file) => {
                files.push(file);
            },
            Err(error) => {
                return Err(error);
            },
        }
        i = i + 1;
    }
    proof {
        assert(files@.map_values(|file: OutputFile| file@) =~= rendered(
            dictionary@,
            shared_name.deep_view(),
        ).unwrap());
    }
    Ok(files)
}

/// Ends a run: writes every language of the engine's dictionary.
fn finish(engine: Aggregator<'_>, shared_name: Option<&str>) -> (made: Result<
    Generated,
    RenderError,
>)
    requires
        engine.wf(),
    ensures
        match made {
            Ok(made) => outcome(engine@, shared_name.deep_view()) == Some(made@),
            Err(_) => outcome(engine@, shared_name.deep_view()) is None,
        },
{
    let files = match render_files(engine.dictionary(), shared_name) {
        Ok(files) => files,
        Err(error) => {
            return Err(error);
        },
    };
    let times_overwritten: usize = engine.times_overwritten();
    let notices = engine.into_notices();
    Ok(Generated { files, times_overwritten, notices })
}

/// Converts a table whose rows were read as plain texts. Each row holds its
/// record identifier first and then its texts, column by column; a row that is
/// shorter than the headers has empty texts where it ends.
///
/// The outcome holds one document for each language column, unless the table
/// has no row: then it holds none.
pub fn generate_json_fast(headings: &[String], rows: &[Vec<String>], config: &Config) -> (made:
    Result<Generated, RenderError>)
    ensures
        match made {
            Ok(made) => generated(
                headings.deep_view(),
                rows.deep_view(),
                config.output_filename.deep_view(),
            ) == Some(made@),
            Err(_) => generated(
                headings.deep_view(),
                rows.deep_view(),
                config.output_filename.deep_view(),
            ) is None,
        },
{
    let ghost names = headings.deep_view();
    let ghost table = rows.deep_view();
    let mut engine = Aggregator::new(headings, rows.len());
    let mut i: usize = 0;
    while i < rows.len()
        invariant
            names == headings.deep_view(),
            table == rows.deep_view(),
            i <= rows.len(),
            engine.wf(),
            engine.headers() == names,
            engine.rows() == i,
            engine@ == absorb_rows(names, table, i as nat),
        decreases rows.len() - i,
    {
        engine.add_row(&rows[i]);
        i = i + 1;
    }
    finish(engine, config.output_filename)
}

/// Converts a table whose records were read with typed cells. Each record is
/// laid out as a row under the headers, every cell as its text, and taken in as
/// [`generate_json_fast`] takes in a row.
pub fn generate_json(headings: &[String], records: &[Translations], config: &Config) -> (made:
    Result<Generated, RenderError>)
    ensures
        match made {
            Ok(made) => generated(
                headings.deep_view(),
                typed_rows(records@, headings.deep_view()),
                config.output_filename.deep_view(),
            ) == Some(made@),
            Err(_) => generated(
                headings.deep_view(),
                typed_rows(records@, headings.deep_view()),
                config.output_filename.deep_view(),
            ) is None,
        },
{
    let ghost names = headings.deep_view();
    let ghost table = typed_rows(records@, names);
    let mut engine = Aggregator::new(headings, records.len());
    let mut i: usize = 0;
    while i < records.len()
        invariant
            names == headings.deep_view(),
            table == typed_rows(records@, names),
            i <= records.len(),
            engine.wf(),
            engine.headers() == names,
            engine.rows() == i,
            engine@ == absorb_rows(names, table, i as nat),
        decreases records.len() - i,
    {
        let row = records[i].to_row(headings);
        engine.add_row(&row);
        i = i + 1;
    }
    finish(engine, config.output_filename)
}

} // verus!
