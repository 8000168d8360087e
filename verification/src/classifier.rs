//! Which columns of a table hold the texts of a language.
//!
//! The first column holds the record identifiers. A column named like the
//! identifier column or like the metadata column, or with a blank name, holds no
//! language either. Every other column does.

use crate::text::{blank, is_blank, same_text};
use vstd::prelude::*;

verus! {

/// The name of the column of record identifiers.
pub const ID_COLUMN: &'static str = "id";

/// The name of the metadata column, which is never converted.
pub const METADATA_COLUMN: &'static str = "TextDomain";

/// Whether no column of that name is ever converted.
pub open spec fn reserved(name: Seq<char>) -> bool {
    name == ID_COLUMN@ || name == METADATA_COLUMN@ || blank(name)
}

/// Whether column `i` of a table with these headers holds a language.
pub open spec fn language_column(headers: Seq<Seq<char>>, i: int) -> bool {
    0 < i < headers.len() && !reserved(headers[i])
}

/// Whether `columns` lists the language columns of `headers`: each of them,
/// nothing else, from left to right.
pub open spec fn lists_language_columns(columns: Seq<usize>, headers: Seq<Seq<char>>) -> bool {
    &&& forall|a: int, b: int| 0 <= a < b < columns.len() ==> columns[a] < columns[b]
    &&& forall|k: int|
        0 <= k < columns.len() ==> language_column(headers, #[trigger] columns[k] as int)
    &&& forall|i: int| #[trigger]
        language_column(headers, i) ==> exists|k: int|
            0 <= k < columns.len() && #[trigger] columns[k] == i
}

/// Where the next listed column stands, or the end of the headers after the last.
pub open spec fn next_listed(columns: Seq<usize>, headers: Seq<Seq<char>>, k: int) -> int {
    if 0 <= k < columns.len() {
        columns[k] as int
    } else {
        headers.len() as int
    }
}

/// Between one listed column and the next there is no language column, nor
/// before the first or after the last.
pub proof fn lemma_between_listed(columns: Seq<usize>, headers: Seq<Seq<char>>, k: int, i: int)
    requires
        lists_language_columns(columns, headers),
        0 <= k <= columns.len(),
        if k == 0 {
            0 <= i
        } else {
            columns[k - 1] < i
        },
        i < next_listed(columns, headers, k),
    ensures
        !language_column(headers, i),
{
    if language_column(headers, i) {
        let j = choose|j: int| 0 <= j < columns.len() && columns[j] == i;
        if j < k {
            if j < k - 1 {
                assert(columns[j] < columns[k - 1]);
            }
        } else if j > k {
            assert(columns[k] < columns[j]);
        }
    }
}

/// Two lists of the language columns of the same headers are the same list.
pub proof fn lemma_listing_unique(first: Seq<usize>, second: Seq<usize>, headers: Seq<Seq<char>>)
    requires
        lists_language_columns(first, headers),
        lists_language_columns(second, headers),
    ensures
        first == second,
    decreases first.len(),
{
    if first.len() == 0 {
        if second.len() > 0 {
            assert(language_column(headers, second[0] as int));
        }
        assert(first =~= second);
    } else {
        let last = first.last() as int;
        assert(language_column(headers, last));
        let at = choose|k: int| 0 <= k < second.len() && second[k] == last;
        if at < second.len() - 1 {
            let beyond = second.last() as int;
            assert(language_column(headers, beyond));
            let back = choose|k: int| 0 <= k < first.len() && first[k] == beyond;
            assert(second[at] < second[second.len() - 1]);
            if back < first.len() - 1 {
                assert(first[back] < first[first.len() - 1]);
            }
        }
        let headless = headers.take(last);
        let shorter = first.drop_last();
        let other = second.drop_last();
        assert forall|i: int| #[trigger] language_column(headless, i) <==> (language_column(
            headers,
            i,
        ) && i < last) by {
            if 0 < i < last {
                assert(headless[i] == headers[i]);
            }
        }
        assert(lists_language_columns(shorter, headless)) by {
            assert forall|k: int| 0 <= k < shorter.len() implies language_column(
                headless,
                #[trigger] shorter[k] as int,
            ) by {
                assert(first[k] < first[first.len() - 1]);
                assert(language_column(headers, first[k] as int));
            }
            assert forall|i: int| #[trigger] language_column(headless, i) implies exists|k: int|
                0 <= k < shorter.len() && #[trigger] shorter[k] == i by {
                assert(language_column(headers, i));
                let k = choose|k: int| 0 <= k < first.len() && first[k] == i;
                assert(shorter[k] == i);
            }
        }
        assert(lists_language_columns(other, headless)) by {
            assert forall|k: int| 0 <= k < other.len() implies language_column(
                headless,
                #[trigger] other[k] as int,
            ) by {
                assert(second[k] < second[second.len() - 1]);
                assert(language_column(headers, second[k] as int));
            }
            assert forall|i: int| #[trigger] language_column(headless, i) implies exists|k: int|
                0 <= k < other.len() && #[trigger] other[k] == i by {
                assert(language_column(headers, i));
                let k = choose|k: int| 0 <= k < second.len() && second[k] == i;
                assert(other[k] == i);
            }
        }
        lemma_listing_unique(shorter, other, headless);
        assert(first =~= shorter.push(first.last()));
        assert(second =~= other.push(second.last()));
    }
}

/// Whether no column of that name is ever converted.
pub fn is_reserved(name: &str) -> (r: bool)
    ensures
        r == reserved(name@),
{
    same_text(name, ID_COLUMN) || same_text(name, METADATA_COLUMN) || is_blank(name)
}

/// Whether column `i` holds a language.
pub fn is_language_column(headers: &[String], i: usize) -> (r: bool)
    ensures
        r == language_column(headers.deep_view(), i as int),
{
    0 < i && i < headers.len() && !is_reserved(headers[i].as_str())
}

/// The language columns of a table with these headers, from left to right.
pub fn language_columns(headers: &[String]) -> (columns: Vec<usize>)
    ensures
        lists_language_columns(columns@, headers.deep_view()),
{
    let ghost names = headers.deep_view();
    let mut columns: Vec<usize> = Vec::new();
    let mut i: usize = 0;
    while i < headers.len()
        invariant
            names == headers.deep_view(),
            i <= headers.len(),
            forall|a: int, b: int| 0 <= a < b < columns.len() ==> columns[a] < columns[b],
            forall|k: int|
                0 <= k < columns.len() ==> columns[k] < i && language_column(
                    names,
                    #[trigger] columns[k] as int,
                ),
            forall|j: int|
                0 <= j < i && #[trigger] language_column(names, j) ==> exists|k: int|
                    0 <= k < columns.len() && #[trigger] columns[k] == j,
        decreases headers.len() - i,
    {
        if is_language_column(headers, i) {
            let ghost before = columns@;
            columns.push(i);
            proof {
                assert forall|j: int| 0 <= j < i + 1 && #[trigger] language_column(
                    names,
                    j,
                ) implies exists|k: int| 0 <= k < columns.len() && #[trigger] columns[k] == j by {
                    if j < i {
                        let k = choose|k: int| 0 <= k < before.len() && before[k] == j;
                        assert(columns[k] == j);
                    } else {
                        assert(columns[before.len() as int] == j);
                    }
                }
            }
        }
        i = i + 1;
    }
    columns
}

} // verus!
