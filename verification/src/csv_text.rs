//! The boundary to the `csv` crate: a reader over a text and a writer into
//! memory. The contracts of the functions in this file are not proved: they
//! are taken from the `csv` crate on trust.

use crate::text::texts;
use vstd::prelude::*;

verus! {

/// `csv`'s reader.
#[verifier::external_type_specification]
#[verifier::external_body]
#[verifier::reject_recursive_types(R)]
pub struct ExReader<R>(csv::Reader<R>);

/// A `csv::Writer` that writes into memory.
#[verifier::external_body]
pub struct CsvSink {
    writer: csv::Writer<Vec<u8>>,
}

/// What one step of reading gives: the fields of a record, or the message
/// of an error.
pub type RecordModel = Result<Seq<Seq<char>>, Seq<char>>;

/// The header row that a reader with headers finds in a text.
pub uninterp spec fn csv_header(content: Seq<char>) -> RecordModel;

/// The records that a reader with headers finds in a text after the header
/// row, each with its fields or with the message of its error.
pub uninterp spec fn csv_records(content: Seq<char>) -> Seq<RecordModel>;

/// The records that a reader has still to give.
pub uninterp spec fn csv_pending(reader: csv::Reader<&[u8]>) -> Seq<RecordModel>;

/// The model of a record that was read.
pub open spec fn record_model(record: Result<Vec<String>, String>) -> RecordModel {
    match record {
        Ok(fields) => Ok(texts(fields@)),
        Err(message) => Err(message@),
    }
}

/// Builds a reader with `csv::ReaderBuilder`, headers switched on, over the
/// bytes of the text, and calls `csv::Reader::headers`.
#[verifier::external_body]
pub(crate) fn csv_header_row(content: &str) -> (header: Result<Vec<String>, String>)
    ensures
        record_model(header) == csv_header(content@),
{
    let mut reader = csv::ReaderBuilder::new().has_headers(true).from_reader(content.as_bytes());
    match reader.headers() {
        Ok(record) => Ok(record.iter().map(|field| field.to_string()).collect()),
        Err(error) => Err(error.to_string()),
    }
}

/// Builds a reader with `csv::ReaderBuilder`, headers switched on, over the
/// bytes of the text. The reader is not flexible: as the documentation of
/// `ReaderBuilder::flexible` says, a record that has not as many fields as
/// the first row of the text is an error.
#[verifier::external_body]
pub(crate) fn csv_open<'a>(content: &'a str) -> (reader: csv::Reader<&'a [u8]>)
    ensures
        csv_pending(reader) == csv_records(content@),
        forall|i: int|
            0 <= i < csv_pending(reader).len() ==> (#[trigger] csv_pending(reader)[i] matches Ok(
                fields,
            ) ==> csv_header(content@) matches Ok(header) && fields.len() == header.len()),
{
    csv::ReaderBuilder::new().has_headers(true).from_reader(content.as_bytes())
}

/// Calls `next` on `csv::Reader::records`: the next record with its fields
/// as strings, the message of its error, or nothing at the end.
#[verifier::external_body]
pub(crate) fn csv_next<'a>(reader: &mut csv::Reader<&'a [u8]>) -> (record: Option<
    Result<Vec<String>, String>,
>)
    ensures
        match record {
            None => csv_pending(*old(reader)).len() == 0 && csv_pending(*final(reader)).len() == 0,
            Some(found) => csv_pending(*old(reader)).len() > 0 && record_model(found)
                == csv_pending(*old(reader))[0] && csv_pending(*final(reader)) == csv_pending(
                *old(reader),
            ).drop_first(),
        },
{
    match reader.records().next() {
        None => None,
        Some(Ok(record)) => Some(Ok(record.iter().map(|field| field.to_string()).collect())),
        Some(Err(error)) => Some(Err(error.to_string())),
    }
}

/// The bytes that a writer has taken so far. Every writer has taken whole
/// records only.
pub uninterp spec fn csv_written(sink: CsvSink) -> Seq<u8>;

/// The number of fields of the first record that a writer has taken, if it
/// has taken one.
pub uninterp spec fn csv_width(sink: CsvSink) -> Option<nat>;

/// The bytes that a writer makes of one record, its line ending included.
pub uninterp spec fn csv_line(fields: Seq<Seq<char>>) -> Seq<u8>;

/// The message of the error for a record of `found` fields after a first
/// record of `expected` fields.
pub uninterp spec fn csv_width_error(expected: nat, found: nat) -> Seq<char>;

/// Calls `csv::Writer::from_writer` on an empty vector of bytes.
#[verifier::external_body]
pub(crate) fn csv_sink() -> (sink: CsvSink)
    ensures
        csv_written(sink) == Seq::<u8>::empty(),
        csv_width(sink) is None,
{
    CsvSink { writer: csv::Writer::from_writer(Vec::new()) }
}

/// Calls `csv::Writer::write_record`. The writer is not flexible: as the
/// documentation of `WriterBuilder::flexible` says, a record that has not as
/// many fields as the first one is an error. Writing into memory cannot
/// fail, so this is the only error, and its message holds only the two
/// numbers of fields. The writer is taken over and handed back only where
/// it has written the record: one that has refused a record still holds
/// that record's fields, and is dropped. So every writer that there is has
/// written whole records only.
#[verifier::external_body]
pub(crate) fn csv_write(sink: CsvSink, fields: &Vec<String>) -> (done: Result<CsvSink, String>)
    ensures
        match done {
            Ok(after) => {
                &&& csv_width(sink) matches Some(width) ==> width == fields@.len()
                &&& csv_width(after) == Some(fields@.len())
                &&& csv_written(after) == csv_written(sink) + csv_line(texts(fields@))
            },
            Err(message) => {
                &&& csv_width(sink) matches Some(width)
                &&& width != fields@.len()
                &&& message@ == csv_width_error(width, fields@.len())
            },
        },
{
    let mut sink = sink;
    match sink.writer.write_record(fields) {
        Ok(()) => Ok(sink),
        Err(error) => Err(error.to_string()),
    }
}

/// Calls `csv::Writer::into_inner`, which flushes the writer and hands over
/// the bytes. It fails only where the flush fails, and writing into memory
/// and flushing it cannot fail, so the bytes are always handed over.
#[verifier::external_body]
pub(crate) fn csv_finish(sink: CsvSink) -> (bytes: Result<Vec<u8>, String>)
    ensures
        bytes is Ok,
        bytes matches Ok(written) ==> written@ == csv_written(sink),
{
    sink.writer.into_inner().map_err(|error| error.to_string())
}

} // verus!
