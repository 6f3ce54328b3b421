//! From CSV text to a table, and from a table to CSV text.

use crate::csv_text::{
    csv_finish, csv_header, csv_header_row, csv_line, csv_next, csv_open, csv_pending,
    csv_records, csv_sink, csv_width, csv_width_error, csv_write, csv_written, record_model,
    RecordModel,
};
use crate::error::{ErrorModel, TableError};
use crate::ingest::outcome_view;
use crate::table::{FileData, FileType, TableModel};
use crate::text::{copy_strings, grid, lemma_grid_push, texts};
use vstd::prelude::*;

verus! {

/// The rows of the first `count` records, or the failure of the first
/// record that has one.
pub open spec fn record_rows(records: Seq<RecordModel>, count: nat) -> Result<
    Seq<Seq<Seq<char>>>,
    ErrorModel,
>
    decreases count,
{
    if count == 0 || count > records.len() {
        Ok(Seq::empty())
    } else {
        match record_rows(records, (count - 1) as nat) {
            Err(error) => Err(error),
            Ok(rows) => match records[count - 1] {
                Err(detail) => Err(ErrorModel::CsvRecord(detail)),
                Ok(fields) => Ok(rows.push(fields)),
            },
        }
    }
}

/// The table of a header row and the records after it, or why there is
/// none: the header row must have been read and must not be empty, and
/// every record must have been read.
pub open spec fn records_table(
    header: RecordModel,
    records: Seq<RecordModel>,
    file_name: Seq<char>,
) -> Result<TableModel, ErrorModel> {
    match header {
        Err(detail) => Err(ErrorModel::CsvHeaders(detail)),
        Ok(headers) => if headers.len() == 0 {
            Err(ErrorModel::CsvEmpty)
        } else {
            match record_rows(records, records.len()) {
                Err(error) => Err(error),
                Ok(rows) => Ok(
                    TableModel {
                        headers,
                        rows,
                        row_count: rows.len(),
                        file_name,
                        file_type: FileType::Csv,
                    },
                ),
            }
        },
    }
}

/// The table of a CSV text, or why it has none.
pub open spec fn csv_table(content: Seq<char>, file_name: Seq<char>) -> Result<
    TableModel,
    ErrorModel,
> {
    records_table(csv_header(content), csv_records(content), file_name)
}

/// The failure of a record is the failure of all the records after it.
pub proof fn lemma_record_rows_fail(records: Seq<RecordModel>, count: nat, more: nat)
    requires
        count <= more <= records.len(),
        record_rows(records, count) is Err,
    ensures
        record_rows(records, more) == record_rows(records, count),
    decreases more,
{
    if more > count {
        lemma_record_rows_fail(records, count, (more - 1) as nat);
    }
}

/// The rows of the first records do not depend on the later ones.
pub proof fn lemma_record_rows_prefix(
    records: Seq<RecordModel>,
    shorter: Seq<RecordModel>,
    count: nat,
)
    requires
        count <= shorter.len() <= records.len(),
        forall|i: int| 0 <= i < shorter.len() ==> shorter[i] == records[i],
    ensures
        record_rows(shorter, count) == record_rows(records, count),
    decreases count,
{
    if count > 0 {
        lemma_record_rows_prefix(records, shorter, (count - 1) as nat);
    }
}

/// Records that stop at the first one that could not be read give the
/// table of all the records.
pub proof fn lemma_records_cut(
    header: RecordModel,
    records: Seq<RecordModel>,
    shorter: Seq<RecordModel>,
    file_name: Seq<char>,
)
    requires
        shorter.len() <= records.len(),
        forall|i: int| 0 <= i < shorter.len() ==> shorter[i] == records[i],
        shorter.len() < records.len() ==> shorter.len() > 0 && shorter.last() is Err,
    ensures
        records_table(header, shorter, file_name) == records_table(header, records, file_name),
{
    if shorter.len() < records.len() {
        let last = (shorter.len() - 1) as nat;
        lemma_record_rows_prefix(records, shorter, shorter.len());
        assert(record_rows(shorter, shorter.len()) is Err) by {
            assert(shorter[last as int] is Err);
        }
        lemma_record_rows_fail(records, shorter.len(), records.len());
    } else {
        assert(shorter =~= records);
    }
}

/// The models of the records that were read.
pub open spec fn record_models(records: Seq<Result<Vec<String>, String>>) -> Seq<RecordModel> {
    Seq::new(records.len(), |i: int| record_model(records[i]))
}

/// Every record that was read has as many fields as the header row.
pub open spec fn fitting(header: RecordModel, records: Seq<RecordModel>) -> bool {
    forall|i: int|
        0 <= i < records.len() ==> (#[trigger] records[i] matches Ok(fields) ==> header matches Ok(
            headers,
        ) && fields.len() == headers.len())
}

/// Makes the table of a header row and the records after it, as a reader
/// gave them.
///
/// The header row names the columns and every record is a row. The header
/// row must have been read and must not be empty; the first record that
/// could not be read is refused, and the records after it do not matter.
pub fn table_of_records(
    file_name: &str,
    header: &Result<Vec<String>, String>,
    records: &Vec<Result<Vec<String>, String>>,
) -> (outcome: Result<FileData, TableError>)
    ensures
        outcome_view(outcome) == records_table(
            record_model(*header),
            record_models(records@),
            file_name@,
        ),
        outcome matches Ok(table) ==> (fitting(record_model(*header), record_models(records@))
            ==> table@.well_formed()),
{
    let ghost all = record_models(records@);
    let headers = match header {
        Ok(headers) => copy_strings(headers),
        Err(detail) => {
            return Err(TableError::CsvHeaders(detail.clone()));
        },
    };
    if headers.len() == 0 {
        return Err(TableError::CsvEmpty);
    }
    let mut rows: Vec<Vec<String>> = Vec::new();
    proof {
        assert(grid(rows@) =~= Seq::empty());
    }
    let mut i: usize = 0;
    while i < records.len()
        invariant
            i <= records.len(),
            all == record_models(records@),
            record_model(*header) == Ok::<Seq<Seq<char>>, Seq<char>>(texts(headers@)),
            headers@.len() > 0,
            rows@.len() == i,
            record_rows(all, i as nat) == Ok::<Seq<Seq<Seq<char>>>, ErrorModel>(grid(rows@)),
            forall|k: int| 0 <= k < i ==> all[k] == Ok::<Seq<Seq<char>>, Seq<char>>(
                texts((#[trigger] rows@[k])@),
            ),
        decreases records.len() - i,
    {
        match &records[i] {
            Err(detail) => {
                proof {
                    assert(all[i as int] == Err::<Seq<Seq<char>>, Seq<char>>(detail@));
                    assert(record_rows(all, (i + 1) as nat) == Err::<
                        Seq<Seq<Seq<char>>>,
                        ErrorModel,
                    >(ErrorModel::CsvRecord(detail@)));
                    lemma_record_rows_fail(all, (i + 1) as nat, all.len());
                }
                return Err(TableError::CsvRecord(detail.clone()));
            },
            Ok(fields) => {
                let row = copy_strings(fields);
                proof {
                    assert(all[i as int] == Ok::<Seq<Seq<char>>, Seq<char>>(texts(fields@)));
                    lemma_grid_push(rows@, row);
                }
                rows.push(row);
            },
        }
        i += 1;
    }
    let row_count: usize = rows.len();
    let table = FileData {
        headers,
        rows,
        row_count,
        file_name: file_name.to_owned(),
        file_type: FileType::Csv,
    };
    proof {
        if fitting(record_model(*header), all) {
            assert forall|k: int| 0 <= k < table@.rows.len() implies (#[trigger] table@.rows[k]).len()
                == table@.headers.len() by {
                assert(all[k] == Ok::<Seq<Seq<char>>, Seq<char>>(texts(table.rows@[k]@)));
            }
        }
    }
    Ok(table)
}

/// Reads the records of a CSV text, one after the other, up to the first
/// one that cannot be read.
pub fn read_records(content: &str) -> (records: Vec<Result<Vec<String>, String>>)
    ensures
        records@.len() <= csv_records(content@).len(),
        forall|i: int|
            0 <= i < records@.len() ==> record_model(#[trigger] records@[i]) == csv_records(
                content@,
            )[i],
        records@.len() < csv_records(content@).len() ==> records@.len() > 0
            && records@.last() is Err,
        forall|i: int| 0 <= i < records@.len() - 1 ==> #[trigger] records@[i] is Ok,
        fitting(csv_header(content@), csv_records(content@)),
{
    let mut reader = csv_open(content);
    let ghost all = csv_records(content@);
    let mut records: Vec<Result<Vec<String>, String>> = Vec::new();
    proof {
        assert(all.skip(0) =~= all);
    }
    let mut done = false;
    while !done
        invariant
            records@.len() <= all.len(),
            all == csv_records(content@),
            csv_pending(reader) == all.skip(records@.len() as int),
            forall|i: int| 0 <= i < records@.len() ==> record_model(#[trigger] records@[i]) == all[i],
            forall|i: int| 0 <= i < records@.len() - 1 ==> #[trigger] records@[i] is Ok,
            !done ==> forall|i: int| 0 <= i < records@.len() ==> #[trigger] records@[i] is Ok,
            done ==> records@.len() == all.len() || (records@.len() > 0 && records@.last() is Err),
        decreases all.len() - records@.len() + if done { 0int } else { 1int },
    {
        let ghost at = records@.len() as int;
        match csv_next(&mut reader) {
            None => {
                proof {
                    assert(all.skip(at).len() == 0);
                }
                done = true;
            },
            Some(record) => {
                proof {
                    assert(all.skip(at)[0] == all[at]);
                    assert(all.skip(at).drop_first() =~= all.skip(at + 1));
                }
                done = record.is_err();
                records.push(record);
            },
        }
    }
    records
}

/// Reads a CSV text and makes its table.
///
/// The first row names the columns and every record after it is a row.
/// The text is refused where it holds no header row, and at the first
/// record that cannot be read; a record that has not as many fields as the
/// header row is such a record.
pub fn parse_csv(file_name: &str, content: &str) -> (outcome: Result<FileData, TableError>)
    ensures
        outcome_view(outcome) == csv_table(content@, file_name@),
        outcome matches Ok(table) ==> table@.well_formed(),
{
    let header = csv_header_row(content);
    let records = read_records(content);
    proof {
        let all = csv_records(content@);
        let cut = record_models(records@);
        lemma_records_cut(csv_header(content@), all, cut, file_name@);
        assert forall|i: int| 0 <= i < cut.len() implies (#[trigger] cut[i] matches Ok(fields)
            ==> csv_header(content@) matches Ok(headers) && fields.len() == headers.len()) by {
            assert(cut[i] == all[i]);
        }
    }
    table_of_records(file_name, &header, &records)
}

/// The bytes of the header row and of the first `count` rows.
pub open spec fn csv_bytes(headers: Seq<Seq<char>>, rows: Seq<Seq<Seq<char>>>, count: nat) -> Seq<
    u8,
>
    decreases count,
{
    if count == 0 || count > rows.len() {
        csv_line(headers)
    } else {
        csv_bytes(headers, rows, (count - 1) as nat) + csv_line(rows[count - 1])
    }
}

/// The first of the first `count` rows that has not `width` cells, or
/// `count` where all of them have.
pub open spec fn first_misfit(rows: Seq<Seq<Seq<char>>>, width: nat, count: nat) -> nat
    decreases count,
{
    if count == 0 || count > rows.len() {
        count
    } else {
        let earlier = first_misfit(rows, width, (count - 1) as nat);
        if earlier < count - 1 {
            earlier
        } else if rows[count - 1].len() != width {
            (count - 1) as nat
        } else {
            count
        }
    }
}

/// A misfit that is found among the first `count` rows is the first misfit
/// among any more of them.
pub proof fn lemma_first_misfit_stable(
    rows: Seq<Seq<Seq<char>>>,
    width: nat,
    count: nat,
    more: nat,
)
    requires
        count <= more <= rows.len(),
        first_misfit(rows, width, count) < count,
    ensures
        first_misfit(rows, width, more) == first_misfit(rows, width, count),
    decreases more,
{
    if more > count {
        lemma_first_misfit_stable(rows, width, count, (more - 1) as nat);
    }
}

/// Writes the headers and the rows as CSV: the header row first, then one
/// record for every row, as they are.
///
/// Every row must have as many cells as there are headers: the first row
/// that has not is refused, with the writer's message. Where all rows fit,
/// the export succeeds, and the bytes are those that the writer made of the
/// records, one after the other.
pub fn export_csv(headers: &Vec<String>, rows: &Vec<Vec<String>>) -> (outcome: Result<
    Vec<u8>,
    TableError,
>)
    ensures
        ({
            let misfit = first_misfit(grid(rows@), headers@.len() as nat, rows@.len());
            if misfit < rows@.len() {
                outcome matches Err(error) && error@ == ErrorModel::CsvWriteRow(
                    csv_width_error(headers@.len() as nat, grid(rows@)[misfit as int].len()),
                )
            } else {
                outcome matches Ok(bytes) && bytes@ == csv_bytes(
                    texts(headers@),
                    grid(rows@),
                    rows@.len(),
                )
            }
        }),
{
    let mut sink = match csv_write(csv_sink(), headers) {
        Ok(sink) => sink,
        Err(detail) => {
            return Err(TableError::CsvWriteHeaders(detail));
        },
    };
    let ghost all = grid(rows@);
    let ghost width = headers@.len() as nat;
    let mut i: usize = 0;
    while i < rows.len()
        invariant
            i <= rows.len(),
            all == grid(rows@),
            width == headers@.len(),
            csv_width(sink) == Some(width),
            csv_written(sink) == csv_bytes(texts(headers@), all, i as nat),
            first_misfit(all, width, i as nat) == i,
        decreases rows.len() - i,
    {
        sink = match csv_write(sink, &rows[i]) {
            Ok(sink) => sink,
            Err(detail) => {
                proof {
                    lemma_first_misfit_stable(all, width, (i + 1) as nat, all.len());
                }
                return Err(TableError::CsvWriteRow(detail));
            },
        };
        i += 1;
    }
    match csv_finish(sink) {
        Ok(bytes) => Ok(bytes),
        Err(detail) => Err(TableError::CsvSave(detail)),
    }
}

} // verus!
