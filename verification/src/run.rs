//! A whole run: plain rows first, typed records as the fallback.

use crate::config::Config;
use crate::generators::{
    generate_json, generate_json_fast, generated, typed_rows, Generated, GeneratedView,
};
use crate::translations::Translations;
use vstd::prelude::*;

verus! {

/// Why a run gave no documents.
#[derive(Clone, Copy, Debug, PartialEq, Eq, Structural)]
pub enum RunError {
    /// The table could be read neither as plain rows nor as typed records.
    Unreadable,
    /// A language's texts could not be written as JSON.
    Unrenderable,
}

/// The rows that a run converts: the plain rows where the table could be read
/// as such, else the typed records laid out under the headers, where the table
/// could be read as those.
pub open spec fn table_of(
    headers: Seq<Seq<char>>,
    rows: Option<Seq<Seq<Seq<char>>>>,
    records: Option<Seq<Translations>>,
) -> Option<Seq<Seq<Seq<char>>>> {
    match rows {
        Some(rows) => Some(rows),
        None => match records {
            Some(records) => Some(typed_rows(records, headers)),
            None => None,
        },
    }
}

/// The outcome of a run.
pub open spec fn ran(
    headers: Seq<Seq<char>>,
    rows: Option<Seq<Seq<Seq<char>>>>,
    records: Option<Seq<Translations>>,
    shared_name: Option<Seq<char>>,
) -> Result<GeneratedView, RunError> {
    match table_of(headers, rows, records) {
        Some(table) => match generated(headers, table, shared_name) {
            Some(made) => Ok(made),
            None => Err(RunError::Unrenderable),
        },
        None => Err(RunError::Unreadable),
    }
}

/// The records that a run was handed, as a value of the model.
pub open spec fn handed(records: Option<&[Translations]>) -> Option<Seq<Translations>> {
    match records {
        Some(records) => Some(records@),
        None => None,
    }
}

/// Converts a table, given what reading it gave: `rows` as plain texts, or
/// `None` where that failed, and `records` with typed cells, or `None` where
/// that failed too or was not tried. The typed records are the fallback: they
/// are looked at only where there are no plain rows.
pub fn run(
    headings: &[String],
    rows: Option<&[Vec<String>]>,
    records: Option<&[Translations]>,
    config: &Config,
) -> (made: Result<Generated, RunError>)
    ensures
        match made {
            Ok(made) => ran(
                headings.deep_view(),
                rows.deep_view(),
                handed(records),
                config.output_filename.deep_view(),
            ) matches Ok(outcome) && outcome == made@,
            Err(error) => ran(
                headings.deep_view(),
                rows.deep_view(),
                handed(records),
                config.output_filename.deep_view(),
            ) matches Err(reason) && reason == error,
        },
{
    let made = match rows {
        Some(rows) => generate_json_fast(headings, rows, config),
        None => match records {
            Some(records) => generate_json(headings, records, config),
            None => {
                return Err(RunError::Unreadable);
            },
        },
    };
    match made {
        Ok(made) => Ok(made),
        Err(_) => Err(RunError::Unrenderable),
    }
}

} // verus!
