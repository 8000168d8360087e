//! The aggregation engine: it takes the rows of a table one by one and fills the
//! dictionary, counting the rows that replaced a text.

use crate::classifier::{
    language_column, language_columns, lemma_between_listed, lists_language_columns, next_listed,
};
use crate::dictionary::{Dictionary, DictionaryView};
use vstd::prelude::*;

verus! {

/// The text that a row has in a column; the empty text where the row is too short.
pub open spec fn cell(row: Seq<Seq<char>>, column: int) -> Seq<char> {
    if 0 <= column < row.len() {
        row[column]
    } else {
        Seq::empty()
    }
}

/// The dictionary after the first `n` columns of a row have been taken in, from
/// left to right. Only language columns count; the row's first text is its
/// record identifier.
pub open spec fn absorb_columns(
    dictionary: DictionaryView,
    headers: Seq<Seq<char>>,
    row: Seq<Seq<char>>,
    n: nat,
) -> DictionaryView
    decreases n,
{
    if n == 0 {
        dictionary
    } else {
        let before = absorb_columns(dictionary, headers, row, (n - 1) as nat);
        if language_column(headers, n - 1) {
            before.absorb(headers[n - 1], cell(row, 0), cell(row, n - 1))
        } else {
            before
        }
    }
}

/// Whether one of the first `n` columns of a row replaced a text.
pub open spec fn columns_overwrite(
    dictionary: DictionaryView,
    headers: Seq<Seq<char>>,
    row: Seq<Seq<char>>,
    n: nat,
) -> bool
    decreases n,
{
    if n == 0 {
        false
    } else {
        let before = absorb_columns(dictionary, headers, row, (n - 1) as nat);
        columns_overwrite(dictionary, headers, row, (n - 1) as nat) || (language_column(
            headers,
            n - 1,
        ) && before.overwrites(headers[n - 1], cell(row, 0), cell(row, n - 1)))
    }
}

/// The report of one row that replaced a text: the row's number, counted from 1,
/// and its record identifier.
pub struct NoticeView {
    pub row: nat,
    pub key: Seq<char>,
}

/// What a run has gathered: the dictionary, the number of rows that replaced a
/// text, and a report for each of them.
pub struct TallyView {
    pub dictionary: DictionaryView,
    pub times_overwritten: nat,
    pub notices: Seq<NoticeView>,
}

impl TallyView {
    /// What a run has gathered before its first row.
    pub open spec fn empty() -> TallyView {
        TallyView {
            dictionary: DictionaryView::empty(),
            times_overwritten: 0,
            notices: Seq::empty(),
        }
    }

    /// The tally after the row with this number. A row counts once, however
    /// many texts it replaced.
    pub open spec fn absorb_row(self, headers: Seq<Seq<char>>, row: Seq<Seq<char>>, number: nat)
        -> TallyView {
        let overwrote = columns_overwrite(self.dictionary, headers, row, headers.len());
        TallyView {
            dictionary: absorb_columns(self.dictionary, headers, row, headers.len()),
            times_overwritten: if overwrote {
                self.times_overwritten + 1
            } else {
                self.times_overwritten
            },
            notices: if overwrote {
                self.notices.push(NoticeView { row: number, key: cell(row, 0) })
            } else {
                self.notices
            },
        }
    }
}

/// The tally after the first `n` rows of a table.
pub open spec fn absorb_rows(headers: Seq<Seq<char>>, rows: Seq<Seq<Seq<char>>>, n: nat)
    -> TallyView
    decreases n,
{
    if n == 0 {
        TallyView::empty()
    } else {
        absorb_rows(headers, rows, (n - 1) as nat).absorb_row(headers, rows[n - 1], n)
    }
}

/// Columns that hold no language change nothing.
pub proof fn lemma_skip_columns(
    dictionary: DictionaryView,
    headers: Seq<Seq<char>>,
    row: Seq<Seq<char>>,
    from: nat,
    to: nat,
)
    requires
        from <= to,
        forall|i: int| from <= i < to ==> !language_column(headers, i),
    ensures
        absorb_columns(dictionary, headers, row, to) == absorb_columns(
            dictionary,
            headers,
            row,
            from,
        ),
        columns_overwrite(dictionary, headers, row, to) == columns_overwrite(
            dictionary,
            headers,
            row,
            from,
        ),
    decreases to - from,
{
    if from < to {
        lemma_skip_columns(dictionary, headers, row, from, (to - 1) as nat);
    }
}

/// The report of one row that replaced a text.
#[derive(Debug, PartialEq, Eq)]
pub struct Notice {
    /// The row's number, counted from 1.
    pub row: usize,
    /// The row's record identifier.
    pub key: String,
}

impl View for Notice {
    type V = NoticeView;

    open spec fn view(&self) -> NoticeView {
        NoticeView { row: self.row as nat, key: self.key@ }
    }
}

/// The engine's state between two rows.
pub struct Aggregator<'a> {
    headers: &'a [String],
    columns: Vec<usize>,
    dictionary: Dictionary,
    rows: usize,
    times_overwritten: usize,
    notices: Vec<Notice>,
}

impl<'a> View for Aggregator<'a> {
    type V = TallyView;

    closed spec fn view(&self) -> TallyView {
        TallyView {
            dictionary: self.dictionary@,
            times_overwritten: self.times_overwritten as nat,
            notices: self.notices@.map_values(|notice: Notice| notice@),
        }
    }
}

impl<'a> Aggregator<'a> {
    /// The columns are classified, and no more rows replaced a text than came.
    pub closed spec fn wf(&self) -> bool {
        &&& self.dictionary.wf()
        &&& lists_language_columns(self.columns@, self.headers.deep_view())
        &&& self.times_overwritten <= self.rows
    }

    /// The headers of the table.
    pub closed spec fn headers(&self) -> Seq<Seq<char>> {
        self.headers.deep_view()
    }

    /// How many rows have come.
    pub closed spec fn rows(&self) -> nat {
        self.rows as nat
    }

    /// An engine for a table with these headers, before its first row. Each
    /// language's map gets room for `capacity` texts.
    pub fn new(headers: &'a [String], capacity: usize) -> (engine: Aggregator<'a>)
        ensures
            engine.wf(),
            engine.headers() == headers.deep_view(),
            engine.rows() == 0,
            engine@ == TallyView::empty(),
    {
        let engine = Aggregator {
            headers,
            columns: language_columns(headers),
            dictionary: Dictionary::new(capacity),
            rows: 0,
            times_overwritten: 0,
            notices: Vec::new(),
        };
        assert(engine@.notices =~= Seq::<NoticeView>::empty());
        engine
    }

    /// Takes in the next row: each language column's text meets the dictionary,
    /// from left to right.
    pub fn add_row(&mut self, row: &[String])
        requires
            old(self).wf(),
            old(self).rows() < usize::MAX,
        ensures
            final(self).wf(),
            final(self).headers() == old(self).headers(),
            final(self).rows() == old(self).rows() + 1,
            final(self)@ == old(self)@.absorb_row(
                old(self).headers(),
                row.deep_view(),
                old(self).rows() + 1,
            ),
    {
        let ghost start = self.dictionary@;
        let ghost names = self.headers.deep_view();
        let ghost texts = row.deep_view();
        let ghost earlier = self@;
        proof {
            reveal_strlit("");
            assert(""@ =~= Seq::<char>::empty());
        }
        let id: &str = if row.len() > 0 {
            row[0].as_str()
        } else {
            ""
        };
        let mut overwrote: bool = false;
        let mut k: usize = 0;
        proof {
            assert forall|i: int| 0 <= i < next_listed(self.columns@, names, 0)
                implies !language_column(names, i) by {
                lemma_between_listed(self.columns@, names, 0, i);
            }
            lemma_skip_columns(start, names, texts, 0, next_listed(self.columns@, names, 0) as nat);
        }
        while k < self.columns.len()
            invariant
                k <= self.columns.len(),
                self.dictionary.wf(),
                lists_language_columns(self.columns@, names),
                names == self.headers.deep_view(),
                texts == row.deep_view(),
                id@ == cell(texts, 0),
                ""@ == Seq::<char>::empty(),
                self.dictionary@ == absorb_columns(
                    start,
                    names,
                    texts,
                    next_listed(self.columns@, names, k as int) as nat,
                ),
                overwrote == columns_overwrite(
                    start,
                    names,
                    texts,
                    next_listed(self.columns@, names, k as int) as nat,
                ),
                self.rows == old(self).rows,
                self.times_overwritten == old(self).times_overwritten,
                self.notices == old(self).notices,
                self.headers == old(self).headers,
            decreases self.columns.len() - k,
        {
            let column: usize = self.columns[k];
            assert(language_column(names, column as int));
            let text: &str = if column < row.len() {
                row[column].as_str()
            } else {
                ""
            };
            let replaced = self.dictionary.record(self.headers[column].as_str(), id, text);
            overwrote = replaced || overwrote;
            proof {
                let next = next_listed(self.columns@, names, k + 1);
                if k + 1 < self.columns.len() {
                    assert(self.columns[k as int] < self.columns[k + 1]);
                }
                assert forall|i: int| column + 1 <= i < next implies !language_column(names, i) by {
                    lemma_between_listed(self.columns@, names, k + 1, i);
                }
                lemma_skip_columns(start, names, texts, (column + 1) as nat, next as nat);
            }
            k = k + 1;
        }
        self.rows = self.rows + 1;
        if overwrote {
            self.times_overwritten = self.times_overwritten + 1;
            self.notices.push(Notice { row: self.rows, key: String::from_str(id) });
        }
        proof {
            let want = earlier.absorb_row(names, texts, self.rows as nat);
            assert(self@.notices =~= want.notices);
        }
    }

    /// How many rows have replaced a text.
    pub fn times_overwritten(&self) -> (n: usize)
        ensures
            n == self@.times_overwritten,
    {
        self.times_overwritten
    }

    /// The dictionary as the rows so far have filled it.
    pub fn dictionary(&self) -> (dictionary: &Dictionary)
        requires
            self.wf(),
        ensures
            dictionary.wf(),
            dictionary@ == self@.dictionary,
    {
        &self.dictionary
    }

    /// Ends the run: the reports of the rows that replaced a text.
    pub fn into_notices(self) -> (notices: Vec<Notice>)
        ensures
            notices@.map_values(|notice: Notice| notice@) == self@.notices,
    {
        self.notices
    }
}

} // verus!
