//! The ledger as delimited text: a header line, then one line per record
//! with the fields identifier, date, description and amount.
//!
//! The amount travels as text here. Turning that text into a number, and
//! back, is floating-point work that the callers of this module do.

use crate::date::Date;
use crate::expense::Expense;
use chrono::Datelike;
use vstd::prelude::*;
use vstd::string::StringSliceAdditionalSpecFns;

verus! {

/// The byte that separates the fields of a line: a semicolon, so that a
/// decimal comma in an amount is never taken for a separator.
pub const DELIMITER: u8 = 59;

/// One line of the persisted ledger, the amount still as text.
#[derive(Clone, Debug, PartialEq, Eq)]
pub struct Row {
    pub id: u32,
    pub date: Date,
    pub description: String,
    pub amount: String,
}

/// What a row holds, its texts as sequences of characters.
pub ghost struct RowView {
    pub id: u32,
    pub date: Date,
    pub description: Seq<char>,
    pub amount: Seq<char>,
}

impl View for Row {
    type V = RowView;

    open spec fn view(&self) -> RowView {
        RowView {
            id: self.id,
            date: self.date,
            description: self.description@,
            amount: self.amount@,
        }
    }
}

/// Why a ledger could not be read or written.
#[derive(Clone, Copy, Debug, PartialEq, Eq, Structural)]
pub enum StoreError {
    /// A line after the header is no record.
    MalformedRow,
    /// A row cannot be written: its date does not exist, or the writer
    /// turned it down.
    Unwritable,
}

/// The error type of the csv crate, carried through and never looked into.
#[verifier::external_type_specification]
#[verifier::external_body]
pub struct ExCsvError(csv::Error);

/// What the csv crate reads from `data` after the header line, line by
/// line: the row a line holds, or nothing where the line is no record.
pub uninterp spec fn csv_rows(data: Seq<u8>, delimiter: u8) -> Seq<Option<RowView>>;

/// The line that the csv crate writes for a row, if it writes one.
pub uninterp spec fn csv_line(row: RowView, delimiter: u8) -> Option<Seq<u8>>;

/// The outcomes of reading, each row by its view.
pub open spec fn outcome_views(outcomes: Seq<Option<Row>>) -> Seq<Option<RowView>> {
    Seq::new(
        outcomes.len(),
        |i: int|
            match outcomes[i] {
                Some(row) => Some(row@),
                None => None,
            },
    )
}

/// The rows among the outcomes of reading, in their order.
pub open spec fn present(outcomes: Seq<Option<Row>>) -> Seq<Row>
    decreases outcomes.len(),
{
    if outcomes.len() == 0 {
        Seq::empty()
    } else {
        let front = present(outcomes.drop_last());
        match outcomes.last() {
            Some(row) => front.push(row),
            None => front,
        }
    }
}

/// The rows among the outcomes of reading, over views.
pub open spec fn present_views(outcomes: Seq<Option<RowView>>) -> Seq<RowView>
    decreases outcomes.len(),
{
    if outcomes.len() == 0 {
        Seq::empty()
    } else {
        let front = present_views(outcomes.drop_last());
        match outcomes.last() {
            Some(row) => front.push(row),
            None => front,
        }
    }
}

/// The rows, each by its view.
pub open spec fn row_views(rows: Seq<Row>) -> Seq<RowView> {
    Seq::new(rows.len(), |i: int| rows[i]@)
}

/// Dropping the lines that are no records and taking views can be done in
/// either order.
pub proof fn lemma_present_views(outcomes: Seq<Option<Row>>)
    ensures
        row_views(present(outcomes)) == present_views(outcome_views(outcomes)),
    decreases outcomes.len(),
{
    if outcomes.len() == 0 {
        assert(row_views(present(outcomes)) =~= present_views(outcome_views(outcomes)));
    } else {
        let front = outcomes.drop_last();
        lemma_present_views(front);
        assert(outcome_views(outcomes).drop_last() =~= outcome_views(front));
        match outcomes.last() {
            Some(row) => {
                assert(row_views(present(front).push(row)) =~= row_views(present(front)).push(row@));
            },
            None => {},
        }
    }
}

/// Where every line read is a record, reading drops nothing and reorders
/// nothing: a ledger whose written lines the csv crate reads back as the
/// rows they were written for loads as it was saved.
pub proof fn lemma_full_read_is_kept_whole(rows: Seq<RowView>)
    ensures
        present_views(Seq::new(rows.len(), |i: int| Some(rows[i]))) == rows,
    decreases rows.len(),
{
    let read = Seq::new(rows.len(), |i: int| Some(rows[i]));
    if rows.len() == 0 {
        assert(present_views(read) =~= rows);
    } else {
        let front = rows.drop_last();
        lemma_full_read_is_kept_whole(front);
        assert(read.drop_last() =~= Seq::new(front.len(), |i: int| Some(front[i])));
        assert(read.last() == Some(rows.last()));
        assert(front.push(rows.last()) =~= rows);
    }
}

/// Whether every line read was a record.
pub open spec fn all_present(outcomes: Seq<Option<Row>>) -> bool {
    forall|i: int| 0 <= i < outcomes.len() ==> (#[trigger] outcomes[i]).is_some()
}

/// The first line of every persisted ledger.
pub open spec fn header_line() -> Seq<u8> {
    "id;date;description;amount\n".spec_bytes()
}

/// The line of one row: none where its date does not exist or the csv
/// crate writes none.
pub open spec fn row_line(row: Row) -> Option<Seq<u8>> {
    if row.date.wf() {
        csv_line(row@, DELIMITER)
    } else {
        None
    }
}

/// The lines of the rows one after the other: none where one row has none.
pub open spec fn row_lines(rows: Seq<Row>) -> Option<Seq<u8>>
    decreases rows.len(),
{
    if rows.len() == 0 {
        Some(Seq::empty())
    } else {
        match (row_lines(rows.drop_last()), row_line(rows.last())) {
            (Some(front), Some(line)) => Some(front + line),
            _ => None,
        }
    }
}

/// Reads delimited text with the csv crate: `ReaderBuilder` with the given
/// delimiter over the bytes, then `Reader::deserialize` into identifier,
/// chrono date, description and amount text, the first line taken as the
/// header. Trusted: the outcomes are a function of the bytes and the
/// delimiter alone, and a date that chrono parsed names an existing day.
#[verifier::external_body]
fn csv_read(data: &[u8], delimiter: u8) -> (r: Vec<Option<Row>>)
    ensures
        outcome_views(r@) == csv_rows(data@, delimiter),
        forall|i: int| 0 <= i < r@.len() && (#[trigger] r@[i]).is_some() ==> r@[i].unwrap().date.wf(),
{
    let mut reader = csv::ReaderBuilder::new().delimiter(delimiter).from_reader(data);
    reader
        .deserialize::<(u32, chrono::NaiveDate, String, String)>()
        .map(|item| item.ok().map(|(id, day, description, amount)| Row {
            id,
            date: Date { year: day.year(), month: day.month(), day: day.day() },
            description,
            amount,
        }))
        .collect()
}

/// Writes one row with the csv crate: `WriterBuilder` with the given
/// delimiter over an empty buffer, `Writer::serialize` of identifier,
/// chrono date (from `NaiveDate::from_ymd_opt`), description and amount
/// text, then `Writer::into_inner`. Trusted: whether a line comes out, and
/// which, is a function of the row and the delimiter alone.
#[verifier::external_body]
fn csv_write(row: &Row, delimiter: u8) -> (r: Result<Vec<u8>, csv::Error>)
    requires
        row.date.wf(),
    ensures
        r.is_ok() == csv_line(row@, delimiter).is_some(),
        r matches Ok(bytes) ==> csv_line(row@, delimiter) == Some(bytes@),
{
    let day = chrono::NaiveDate::from_ymd_opt(row.date.year, row.date.month, row.date.day).unwrap();
    let mut writer = csv::WriterBuilder::new().delimiter(delimiter).from_writer(Vec::new());
    writer.serialize((row.id, day, &row.description, &row.amount))?;
    writer.into_inner().map_err(|e| csv::Error::from(e.into_error()))
}

impl Row {
    /// The row that persists a record, given the text of its amount.
    pub fn from_expense(e: &Expense, amount: String) -> (r: Row)
        ensures
            r == (Row { id: e.id, date: e.date, description: e.description, amount }),
    {
        Row { id: e.id, date: e.date, description: e.description.clone(), amount }
    }

    /// The record that a row persists, given the number its amount text
    /// stands for.
    pub fn into_expense(self, amount: u32) -> (r: Expense)
        ensures
            r == (Expense { id: self.id, amount, description: self.description, date: self.date }),
    {
        Expense { id: self.id, amount, description: self.description, date: self.date }
    }

    /// A copy of the row.
    pub fn duplicate(&self) -> (r: Row)
        ensures
            r == *self,
    {
        Row {
            id: self.id,
            date: self.date,
            description: self.description.clone(),
            amount: self.amount.clone(),
        }
    }
}

/// The rows among the outcomes of reading, in their order: lines that are
/// no records are dropped without a word.
pub fn keep_present(outcomes: &Vec<Option<Row>>) -> (r: Vec<Row>)
    ensures
        r@ == present(outcomes@),
{
    let mut rows: Vec<Row> = Vec::new();
    let mut i: usize = 0;
    while i < outcomes.len()
        invariant
            i <= outcomes.len(),
            rows@ == present(outcomes@.take(i as int)),
        decreases outcomes.len() - i,
    {
        proof {
            assert(outcomes@.take(i + 1).drop_last() =~= outcomes@.take(i as int));
        }
        match &outcomes[i] {
            Some(row) => {
                rows.push(row.duplicate());
            },
            None => {},
        }
        i += 1;
    }
    proof {
        assert(outcomes@.take(i as int) =~= outcomes@);
    }
    rows
}

/// The rows among the outcomes of reading, where every line was a record;
/// an error where one was not.
pub fn require_present(outcomes: &Vec<Option<Row>>) -> (r: Result<Vec<Row>, StoreError>)
    ensures
        r.is_ok() == all_present(outcomes@),
        r matches Ok(rows) ==> rows@ == present(outcomes@),
        r matches Err(e) ==> e == StoreError::MalformedRow,
{
    let mut i: usize = 0;
    while i < outcomes.len()
        invariant
            i <= outcomes.len(),
            forall|j: int| 0 <= j < i ==> (#[trigger] outcomes@[j]).is_some(),
        decreases outcomes.len() - i,
    {
        if outcomes[i].is_none() {
            return Err(StoreError::MalformedRow);
        }
        i += 1;
    }
    Ok(keep_present(outcomes))
}

/// Reads a persisted ledger. The first line is the header and is not
/// looked at; of the others, those that are no records are dropped.
pub fn load_rows(data: &[u8]) -> (r: Vec<Row>)
    ensures
        row_views(r@) == present_views(csv_rows(data@, DELIMITER)),
        forall|i: int| 0 <= i < r@.len() ==> (#[trigger] r@[i]).date.wf(),
{
    let outcomes = csv_read(data, DELIMITER);
    let rows = keep_present(&outcomes);
    proof {
        lemma_present_comes_from(outcomes@);
        lemma_present_views(outcomes@);
    }
    rows
}

/// Reads a persisted ledger and insists that every line after the header
/// is a record.
pub fn load_rows_strict(data: &[u8]) -> (r: Result<Vec<Row>, StoreError>)
    ensures
        r.is_ok() == (forall|i: int|
            0 <= i < csv_rows(data@, DELIMITER).len() ==> (#[trigger] csv_rows(
                data@,
                DELIMITER,
            )[i]).is_some()),
        r matches Err(e) ==> e == StoreError::MalformedRow,
        r matches Ok(rows) ==> row_views(rows@) == present_views(csv_rows(data@, DELIMITER)),
{
    let outcomes = csv_read(data, DELIMITER);
    proof {
        lemma_present_views(outcomes@);
        let views = outcome_views(outcomes@);
        assert forall|i: int| 0 <= i < outcomes@.len() implies (#[trigger] outcomes@[i]).is_some()
            == views[i].is_some() by {}
        if all_present(outcomes@) {
            assert forall|i: int| 0 <= i < views.len() implies (#[trigger] views[i]).is_some() by {
                assert(outcomes@[i].is_some());
            }
        }
    }
    require_present(&outcomes)
}

/// Every row kept stood among the outcomes.
pub proof fn lemma_present_comes_from(outcomes: Seq<Option<Row>>)
    ensures
        present(outcomes).len() <= outcomes.len(),
        forall|i: int|
            0 <= i < present(outcomes).len() ==> outcomes.contains(
                Some(#[trigger] present(outcomes)[i]),
            ),
    decreases outcomes.len(),
{
    if outcomes.len() > 0 {
        let front = outcomes.drop_last();
        lemma_present_comes_from(front);
        assert forall|i: int| 0 <= i < present(outcomes).len() implies outcomes.contains(
            Some(#[trigger] present(outcomes)[i]),
        ) by {
            if i < present(front).len() {
                let k = choose|k: int| 0 <= k < front.len() && front[k] == Some(present(front)[i]);
                assert(outcomes[k] == front[k]);
            } else {
                assert(outcomes[outcomes.len() - 1] == Some(present(outcomes)[i]));
            }
        }
    }
}

/// The rows that persist the records, each with the text given for its
/// amount.
pub open spec fn rows_of(records: Seq<Expense>, amounts: Seq<String>) -> Seq<Row>
    recommends
        records.len() == amounts.len(),
{
    Seq::new(
        records.len(),
        |i: int|
            Row {
                id: records[i].id,
                date: records[i].date,
                description: records[i].description,
                amount: amounts[i],
            },
    )
}

/// The records that the rows persist, each with the number given for its
/// amount; a row for whose amount no number is given is dropped.
pub open spec fn expenses_of(rows: Seq<Row>, amounts: Seq<Option<u32>>) -> Seq<Expense>
    recommends
        rows.len() == amounts.len(),
    decreases rows.len(),
{
    if rows.len() == 0 || amounts.len() != rows.len() {
        Seq::empty()
    } else {
        let front = expenses_of(rows.drop_last(), amounts.drop_last());
        match amounts.last() {
            Some(a) => front.push(
                Expense {
                    id: rows.last().id,
                    amount: a,
                    description: rows.last().description,
                    date: rows.last().date,
                },
            ),
            None => front,
        }
    }
}

/// The rows that persist a ledger, given the text of each amount in order;
/// nothing where the texts are not as many as the records.
pub fn to_rows(records: &Vec<Expense>, amounts: &Vec<String>) -> (r: Option<Vec<Row>>)
    ensures
        r.is_some() == (records@.len() == amounts@.len()),
        r matches Some(rows) ==> rows@ == rows_of(records@, amounts@),
{
    if records.len() != amounts.len() {
        return None;
    }
    let mut rows: Vec<Row> = Vec::new();
    let mut i: usize = 0;
    while i < records.len()
        invariant
            i <= records.len(),
            records@.len() == amounts@.len(),
            rows@.len() == i,
            forall|j: int| 0 <= j < i ==> (#[trigger] rows@[j]) == rows_of(records@, amounts@)[j],
        decreases records.len() - i,
    {
        rows.push(Row::from_expense(&records[i], amounts[i].clone()));
        i += 1;
    }
    proof {
        assert(rows@ =~= rows_of(records@, amounts@));
    }
    Some(rows)
}

/// The ledger that the rows persist, given for each row in order the
/// number its amount text stands for, or nothing where the text is no
/// number: such a row is dropped. Nothing comes back where the amounts are
/// not as many as the rows.
pub fn to_expenses(rows: &Vec<Row>, amounts: &Vec<Option<u32>>) -> (r: Option<Vec<Expense>>)
    ensures
        r.is_some() == (rows@.len() == amounts@.len()),
        r matches Some(records) ==> records@ == expenses_of(rows@, amounts@),
{
    if rows.len() != amounts.len() {
        return None;
    }
    let mut records: Vec<Expense> = Vec::new();
    let mut i: usize = 0;
    while i < rows.len()
        invariant
            i <= rows.len(),
            rows@.len() == amounts@.len(),
            records@ == expenses_of(rows@.take(i as int), amounts@.take(i as int)),
        decreases rows.len() - i,
    {
        proof {
            assert(rows@.take(i + 1).drop_last() =~= rows@.take(i as int));
            assert(amounts@.take(i + 1).drop_last() =~= amounts@.take(i as int));
        }
        match amounts[i] {
            Some(a) => {
                records.push(rows[i].duplicate().into_expense(a));
            },
            None => {},
        }
        i += 1;
    }
    proof {
        assert(rows@.take(i as int) =~= rows@);
        assert(amounts@.take(i as int) =~= amounts@);
    }
    Some(records)
}

/// Rows made from a ledger and read back with the ledger's own amounts are
/// the ledger again, record for record and in order, whatever the texts of
/// the amounts were.
pub proof fn lemma_rows_read_back(records: Seq<Expense>, texts: Seq<String>)
    requires
        records.len() == texts.len(),
    ensures
        expenses_of(
            rows_of(records, texts),
            Seq::new(records.len(), |i: int| Some(records[i].amount)),
        ) == records,
    decreases records.len(),
{
    let rows = rows_of(records, texts);
    let amounts = Seq::new(records.len(), |i: int| Some(records[i].amount));
    if records.len() == 0 {
        assert(expenses_of(rows, amounts) =~= records);
    } else {
        let front = records.drop_last();
        lemma_rows_read_back(front, texts.drop_last());
        assert(rows.drop_last() =~= rows_of(front, texts.drop_last()));
        assert(amounts.drop_last() =~= Seq::new(front.len(), |i: int| Some(front[i].amount)));
        assert(amounts.last() == Some(records.last().amount));
        assert(front.push(records.last()) =~= records);
    }
}

/// The text of a ledger without records: the header line alone.
pub fn empty_ledger_text() -> (r: Vec<u8>)
    ensures
        r@ == header_line(),
{
    let mut out: Vec<u8> = Vec::new();
    out.extend_from_slice("id;date;description;amount\n".as_bytes());
    out
}

/// The full text of a ledger: the header line, then the line of each row
/// in order. Nothing is written where a row has no line.
pub fn save_rows(rows: &Vec<Row>) -> (r: Result<Vec<u8>, StoreError>)
    ensures
        r.is_ok() == row_lines(rows@).is_some(),
        r matches Ok(bytes) ==> bytes@ == header_line() + row_lines(rows@).unwrap(),
        r matches Err(e) ==> e == StoreError::Unwritable,
        rows@.len() == 0 ==> r.is_ok(),
{
    let mut out = empty_ledger_text();
    let mut i: usize = 0;
    while i < rows.len()
        invariant
            i <= rows.len(),
            row_lines(rows@.take(i as int)).is_some(),
            out@ == header_line() + row_lines(rows@.take(i as int)).unwrap(),
        decreases rows.len() - i,
    {
        proof {
            assert(rows@.take(i + 1).drop_last() =~= rows@.take(i as int));
            assert(rows@.take(i + 1).last() == rows@[i as int]);
        }
        if !rows[i].date.is_valid() {
            proof {
                lemma_row_lines_fail(rows@, i as int);
            }
            return Err(StoreError::Unwritable);
        }
        match csv_write(&rows[i], DELIMITER) {
            Ok(line) => {
                            out.extend_from_slice(line.as_slice());
                proof {
                    let front = row_lines(rows@.take(i as int)).unwrap();
                    assert(out@ =~= header_line() + (front + line@));
                }
            },
            Err(_) => {
                proof {
                    lemma_row_lines_fail(rows@, i as int);
                }
                return Err(StoreError::Unwritable);
            },
        }
        i += 1;
    }
    proof {
        assert(rows@.take(i as int) =~= rows@);
    }
    Ok(out)
}

/// One row without a line leaves the whole ledger without text.
pub proof fn lemma_row_lines_fail(rows: Seq<Row>, i: int)
    requires
        0 <= i < rows.len(),
        row_line(rows[i]).is_none(),
    ensures
        row_lines(rows).is_none(),
    decreases rows.len(),
{
    if i < rows.len() - 1 {
        let front = rows.drop_last();
        assert(front[i] == rows[i]);
        lemma_row_lines_fail(front, i);
    }
}

} // verus!
