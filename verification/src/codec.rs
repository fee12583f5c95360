//! Decoding of delimited text and encoding to Parquet. Both are the work of
//! polars; this module hands it plain columns and takes plain columns back.
//!
//! A table holds text and nothing else. Delimited text is read with the
//! inference of column types switched off, so that a cell holds the words of
//! the source as they stand, and a table is written with every column as a
//! column of text. Whoever reads the artifacts finds no typed columns in
//! them.

use vstd::prelude::*;
use polars::prelude::{Column, CsvReadOptions, DataFrame, ParquetWriter, PolarsError, SerReader};
use crate::record_set::{columns_aligned, columns_of_table, RecordSet, TableView};

verus! {

/// The error type of polars.
#[verifier::external_type_specification]
#[verifier::external_body]
pub struct ExPolarsError(PolarsError);

/// The Parquet file polars writes for the given text columns; `None` where
/// polars reports an error.
pub uninterp spec fn parquet_encoding(cols: Seq<(Seq<char>, Seq<Option<Seq<char>>>)>) -> Option<
    Seq<u8>,
>;

/// The Parquet file of a table, if it can be written.
pub open spec fn parquet_of(table: TableView) -> Option<Seq<u8>> {
    parquet_encoding(columns_of_table(table))
}

/// Reads delimited text into columns of text.
///
/// Wraps `CsvReadOptions::into_reader_with_file_handle` and
/// `CsvReader::finish`, with the header line and the number of rows for the
/// inference of types as the caller says and every other option at its
/// default, then hands out each column of the frame with its name through
/// `Column::str`. How polars cuts the text into chunks depends on the
/// machine it runs on, and with it, for text that is quoted loosely, whether
/// the text is read at all; so nothing is claimed of what is read but that
/// all columns of a frame have the same length.
#[verifier::external_body]
fn read_csv_columns(bytes: &[u8], has_header: bool, typed_rows: usize) -> (r: Result<
    Vec<(String, Vec<Option<String>>)>,
    PolarsError,
>)
    ensures
        r matches Ok(cols) ==> columns_aligned(cols.deep_view()),
{
    let frame = CsvReadOptions::default().with_has_header(has_header).with_infer_schema_length(
        Some(typed_rows),
    ).into_reader_with_file_handle(std::io::Cursor::new(bytes)).finish()?;
    frame.columns().iter().map(
        |c| Ok((c.name().to_string(), c.str()?.iter().map(|v| v.map(str::to_owned)).collect())),
    ).collect()
}

/// Writes columns of text as one Parquet file in memory.
///
/// Wraps `Column::new`, `DataFrame::new_infer_height` and
/// `ParquetWriter::finish` with the writer's default options. The outcome is
/// a function of the columns alone and is only named.
#[verifier::external_body]
fn write_parquet_columns(cols: &Vec<(String, Vec<Option<String>>)>) -> (r: Result<
    Vec<u8>,
    PolarsError,
>)
    ensures
        r is Ok <==> parquet_encoding(cols.deep_view()) is Some,
        r matches Ok(bytes) ==> Some(bytes@) == parquet_encoding(cols.deep_view()),
{
    let columns = cols.iter().map(|c| Column::new(c.0.as_str().into(), c.1.as_slice())).collect();
    let mut frame = DataFrame::new_infer_height(columns)?;
    let mut buffer = Vec::new();
    ParquetWriter::new(&mut buffer).finish(&mut frame)?;
    Ok(buffer)
}

/// The message of a polars error.
///
/// Wraps the `Display` implementation of `PolarsError`; nothing is claimed
/// of the text.
#[verifier::external_body]
fn polars_error_text(e: &PolarsError) -> (text: String) {
    e.to_string()
}

/// Reads delimited text with a header line into a record set; on failure
/// the message of the reader. Every column is read as text: the cells hold
/// the words of the source, and no types are inferred from them. Whether a
/// text can be read, and what is read from it, is for the reader to say.
pub fn read_record_set(bytes: &[u8]) -> (r: Result<RecordSet, String>)
    ensures
        r matches Ok(t) ==> t@.rectangular(),
{
    match read_csv_columns(bytes, true, 0) {
        Ok(cols) => Ok(RecordSet::from_aligned_columns(&cols)),
        Err(e) => Err(polars_error_text(&e)),
    }
}

/// Encodes a record set as a Parquet file in memory; on failure the message
/// of the writer.
pub fn write_parquet(table: &RecordSet) -> (r: Result<Vec<u8>, String>)
    ensures
        r is Ok <==> parquet_of(table@) is Some,
        r matches Ok(bytes) ==> Some(bytes@) == parquet_of(table@),
{
    let cols = table.to_columns();
    match write_parquet_columns(&cols) {
        Ok(bytes) => Ok(bytes),
        Err(e) => Err(polars_error_text(&e)),
    }
}

} // verus!
