use vstd::prelude::*;

use crate::text::texts;

verus! {

/// The reader of CSV rows from `csv`.
#[verifier::external_type_specification]
#[verifier::external_body]
#[verifier::reject_recursive_types(R)]
pub struct ExCsvReader<R>(csv::Reader<R>);

/// An in-memory reader of bytes from `std::io`.
#[verifier::external_type_specification]
#[verifier::external_body]
#[verifier::reject_recursive_types(T)]
pub struct ExCursor<T>(std::io::Cursor<T>);

/// The header row that a CSV reader built over the bytes `input`, trimming
/// every field, reads: its fields, or the text of the error reading it.
pub uninterp spec fn csv_header(input: Seq<u8>) -> Result<Seq<Seq<char>>, Seq<char>>;

/// The data rows that a CSV reader built over the bytes `input`, trimming
/// every field, hands out in order: each as its fields and the line it starts
/// on, or as the text of the error reading it.
pub uninterp spec fn csv_rows(input: Seq<u8>) -> Seq<Result<(Seq<Seq<char>>, u64), Seq<char>>>;

/// The header row of a CSV reader.
pub uninterp spec fn reader_header(reader: csv::Reader<std::io::Cursor<Vec<u8>>>) -> Result<
    Seq<Seq<char>>,
    Seq<char>,
>;

/// The data rows that a CSV reader has yet to hand out, in order.
pub uninterp spec fn reader_pending(reader: csv::Reader<std::io::Cursor<Vec<u8>>>) -> Seq<
    Result<(Seq<Seq<char>>, u64), Seq<char>>,
>;

/// Calls `csv::ReaderBuilder::from_reader` on a builder set to trim the
/// whitespace around every field, over the bytes `input`; the first row is
/// read as headers. What the reader holds is named over the bytes.
#[verifier::external_body]
pub(crate) fn csv_reader(input: Vec<u8>) -> (r: csv::Reader<std::io::Cursor<Vec<u8>>>)
    ensures
        reader_header(r) == csv_header(input@),
        reader_pending(r) == csv_rows(input@),
{
    csv::ReaderBuilder::new().trim(csv::Trim::All).from_reader(std::io::Cursor::new(input))
}

/// Calls `csv::Reader::headers` and hands out the fields of the header row,
/// or the text of the reader's error; the data rows yet to be read stay as
/// they are.
#[verifier::external_body]
pub(crate) fn csv_headers(reader: &mut csv::Reader<std::io::Cursor<Vec<u8>>>) -> (r: Result<
    Vec<String>,
    String,
>)
    ensures
        reader_header(*final(reader)) == reader_header(*old(reader)),
        reader_pending(*final(reader)) == reader_pending(*old(reader)),
        match reader_header(*old(reader)) {
            Ok(h) => r matches Ok(v) && texts(v@) == h,
            Err(m) => r matches Err(t) && t@ == m,
        },
{
    match reader.headers() {
        Ok(record) => Ok(record.iter().map(String::from).collect()),
        Err(error) => Err(error.to_string()),
    }
}

/// Calls `csv::Reader::read_record`; hands out the fields of the next data
/// row and the line it starts on, or nothing at the end of the input, or the
/// text of the reader's error. A row read without error leaves the rows after
/// it to be read; what the reader holds after an error is not stated.
#[verifier::external_body]
pub(crate) fn csv_read_record(reader: &mut csv::Reader<std::io::Cursor<Vec<u8>>>) -> (r: Result<
    Option<(Vec<String>, Option<u64>)>,
    String,
>)
    ensures
        reader_header(*final(reader)) == reader_header(*old(reader)),
        reader_pending(*old(reader)).len() == 0 ==> (r matches Ok(None) && reader_pending(
            *final(reader),
        ).len() == 0),
        reader_pending(*old(reader)).len() > 0 ==> match reader_pending(*old(reader))[0] {
            Ok(row) => r matches Ok(Some(x)) && texts(x.0@) == row.0 && x.1 == Some(row.1)
                && reader_pending(*final(reader)) == reader_pending(*old(reader)).drop_first(),
            Err(m) => r matches Err(t) && t@ == m,
        },
{
    let mut record = csv::StringRecord::new();
    match reader.read_record(&mut record) {
        Ok(true) => Ok(Some((
            record.iter().map(String::from).collect(),
            record.position().map(csv::Position::line),
        ))),
        Ok(false) => Ok(None),
        Err(error) => Err(error.to_string()),
    }
}

} // verus!
