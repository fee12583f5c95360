//! Filtering of one source file to the allow-list, encoding of the surviving
//! rows, and the decisions around publishing the result.

use vstd::prelude::*;
use vstd::string::StringExecFns;
use crate::category::{category_key, sanitize};
use crate::codec::{parquet_of, read_record_set, write_parquet};
use crate::record_set::{RecordSet, TableView};
use crate::text::{decimal, decimal_digits};

verus! {

/// Name of the column that holds the category of each row.
pub const CATEGORY_COLUMN: &'static str = "platform_name";

/// Extension of the files that are published.
pub const ARTIFACT_SUFFIX: &'static str = ".parquet";

/// Failure while one source file is read, filtered or encoded.
#[derive(Debug, PartialEq, Eq)]
pub enum CsvProcessingError {
    /// The table could not be read, or lacks the category column.
    PolarsError(String),
    /// Reading or writing a file failed.
    IoError(String),
    /// A path does not lead to a usable source.
    InvalidPath(String),
    /// A category has no rows to offer.
    EmptyDataFrame(String),
    /// The columnar writer failed.
    ParquetWriteError(String),
    /// Tables that belong together do not share one header.
    SchemaMismatch(String),
}

/// Failure while one file is processed and published.
#[derive(Debug, PartialEq, Eq)]
pub enum UploadError {
    /// Reading, filtering or encoding failed.
    CsvProcessing(CsvProcessingError),
    /// The worker that processed the file ended abnormally.
    TaskJoin(String),
    /// The object store refused or never received the artifact.
    S3Upload(String),
    /// No file name can be taken from the path.
    InvalidFilePath(String),
}

impl CsvProcessingError {
    /// The text carried by the error.
    pub open spec fn detail(self) -> Seq<char> {
        match self {
            CsvProcessingError::PolarsError(m) => m@,
            CsvProcessingError::IoError(m) => m@,
            CsvProcessingError::InvalidPath(m) => m@,
            CsvProcessingError::EmptyDataFrame(m) => m@,
            CsvProcessingError::ParquetWriteError(m) => m@,
            CsvProcessingError::SchemaMismatch(m) => m@,
        }
    }

    /// The words each kind of error starts with.
    pub open spec fn heading(self) -> Seq<char> {
        match self {
            CsvProcessingError::PolarsError(_) => "Polars operation failed: "@,
            CsvProcessingError::IoError(_) => "I/O operation failed: "@,
            CsvProcessingError::InvalidPath(_) => "Invalid file path: "@,
            CsvProcessingError::EmptyDataFrame(_) => "Empty DataFrame: "@,
            CsvProcessingError::ParquetWriteError(_) => "Parquet write failed: "@,
            CsvProcessingError::SchemaMismatch(_) => "Schema mismatch: "@,
        }
    }

    /// The error in words: its heading, then its detail.
    pub fn message(&self) -> (text: String)
        ensures
            text@ == self.heading() + self.detail(),
    {
        match self {
            CsvProcessingError::PolarsError(m) => String::from_str(
                "Polars operation failed: ",
            ).concat(m.as_str()),
            CsvProcessingError::IoError(m) => String::from_str("I/O operation failed: ").concat(
                m.as_str(),
            ),
            CsvProcessingError::InvalidPath(m) => String::from_str("Invalid file path: ").concat(
                m.as_str(),
            ),
            CsvProcessingError::EmptyDataFrame(m) => String::from_str("Empty DataFrame: ").concat(
                m.as_str(),
            ),
            CsvProcessingError::ParquetWriteError(m) => String::from_str(
                "Parquet write failed: ",
            ).concat(m.as_str()),
            CsvProcessingError::SchemaMismatch(m) => String::from_str("Schema mismatch: ").concat(
                m.as_str(),
            ),
        }
    }
}

impl UploadError {
    /// The error in words.
    pub open spec fn message_text(self) -> Seq<char> {
        match self {
            UploadError::CsvProcessing(e) => "CSV processing error: "@ + e.heading() + e.detail(),
            UploadError::TaskJoin(m) => "Task join error: "@ + m@,
            UploadError::S3Upload(m) => "S3 upload error: "@ + m@,
            UploadError::InvalidFilePath(m) => "Invalid file path: "@ + m@,
        }
    }

    /// The error in words.
    pub fn message(&self) -> (text: String)
        ensures
            text@ == self.message_text(),
    {
        match self {
            UploadError::CsvProcessing(e) => {
                let inner = e.message();
                let text = String::from_str("CSV processing error: ").concat(inner.as_str());
                text
            },
            UploadError::TaskJoin(m) => String::from_str("Task join error: ").concat(m.as_str()),
            UploadError::S3Upload(m) => String::from_str("S3 upload error: ").concat(m.as_str()),
            UploadError::InvalidFilePath(m) => String::from_str("Invalid file path: ").concat(
                m.as_str(),
            ),
        }
    }
}

/// The categories that are let through when the caller names no others.
pub fn default_allowed_platforms() -> (allowed: Vec<String>)
    ensures
        allowed.deep_view() == seq![
            "Facebook"@,
            "Discord Netherlands B.V."@,
            "Google Maps"@,
            "Instagram"@,
            "Kleinanzeigen"@,
            "Leboncoin"@,
            "LinkedIn"@,
            "Reddit"@,
            "Telegram"@,
            "TikTok"@,
            "X"@,
        ],
{
    let mut allowed: Vec<String> = Vec::new();
    allowed.push(String::from_str("Facebook"));
    allowed.push(String::from_str("Discord Netherlands B.V."));
    allowed.push(String::from_str("Google Maps"));
    allowed.push(String::from_str("Instagram"));
    allowed.push(String::from_str("Kleinanzeigen"));
    allowed.push(String::from_str("Leboncoin"));
    allowed.push(String::from_str("LinkedIn"));
    allowed.push(String::from_str("Reddit"));
    allowed.push(String::from_str("Telegram"));
    allowed.push(String::from_str("TikTok"));
    allowed.push(String::from_str("X"));
    allowed
}

/// The rows of `table` whose category is one of `allowed`, in source order
/// and under the same header; `None` when the table has no category column.
pub fn filter_by_allow_list(table: &RecordSet, allowed: &Vec<String>) -> (kept: Option<RecordSet>)
    ensures
        kept is Some <==> table@.columns.contains(CATEGORY_COLUMN@),
        kept matches Some(t) ==> (t@ == table@.restricted_to(
            CATEGORY_COLUMN@,
            allowed.deep_view(),
        ) && t@.rectangular()),
{
    match table.column_index(CATEGORY_COLUMN) {
        None => None,
        Some(column) => Some(table.filter_allowed(column, allowed)),
    }
}

/// What is said when a source has no category column.
pub open spec fn missing_column_text(source: Seq<char>) -> Seq<char> {
    "Column 'platform_name' not found in file: "@ + source
}

/// What is said when the rows of a source could not be encoded.
pub open spec fn encoding_failure_text(source: Seq<char>, rows: nat, cause: Seq<char>) -> Seq<
    char,
> {
    "Failed to write parquet for "@ + source + " (expected rows: "@ + decimal_digits(rows)
        + "): "@ + cause
}

/// `text` reports a failed encoding of `rows` rows of `source`, whatever
/// the cause.
pub open spec fn reports_encoding_failure(text: Seq<char>, source: Seq<char>, rows: nat) -> bool {
    exists|cause: Seq<char>| text == #[trigger] encoding_failure_text(source, rows, cause)
}

/// The error for a source with no category column.
pub fn missing_column(source: &str) -> (e: CsvProcessingError)
    ensures
        e matches CsvProcessingError::PolarsError(m) && m@ == missing_column_text(source@),
{
    CsvProcessingError::PolarsError(
        String::from_str("Column 'platform_name' not found in file: ").concat(source),
    )
}

/// The error for rows that could not be encoded: it names the source and
/// the number of rows that were to be written.
pub fn encoding_failed(source: &str, rows: u64, cause: &str) -> (e: CsvProcessingError)
    ensures
        e matches CsvProcessingError::ParquetWriteError(m) && m@ == encoding_failure_text(
            source@,
            rows as nat,
            cause@,
        ) && reports_encoding_failure(m@, source@, rows as nat),
{
    let mut text = String::from_str("Failed to write parquet for ");
    text.append(source);
    text.append(" (expected rows: ");
    text.append(decimal(rows).as_str());
    text.append("): ");
    text.append(cause);
    assert(reports_encoding_failure(text@, source@, rows as nat)) by {
        assert(text@ == encoding_failure_text(source@, rows as nat, cause@));
    }
    CsvProcessingError::ParquetWriteError(text)
}

/// The outcome of the encoding step for a table of `rows` rows: the bytes
/// with the row count, or the writer's failure with the source and the
/// expected row count.
pub fn encoded_outcome(encoded: Result<Vec<u8>, String>, rows: u64, source: &str) -> (r: Result<
    Option<(Vec<u8>, u64)>,
    CsvProcessingError,
>)
    ensures
        encoded matches Ok(bytes) ==> r == Ok::<Option<(Vec<u8>, u64)>, CsvProcessingError>(
            Some((bytes, rows)),
        ),
        encoded matches Err(cause) ==> (r matches Err(CsvProcessingError::ParquetWriteError(m))
            && m@ == encoding_failure_text(source@, rows as nat, cause@)
            && reports_encoding_failure(m@, source@, rows as nat)),
{
    match encoded {
        Ok(bytes) => Ok(Some((bytes, rows))),
        Err(cause) => Err(encoding_failed(source, rows, cause.as_str())),
    }
}

/// `r` is what filtering `table` to `allowed` and encoding the rest gives.
/// A table without the category column is an error; a table of which no row
/// is left yields `None`; otherwise the artifact comes with the number of
/// rows it holds, or the writer's failure with the number of rows expected.
pub open spec fn is_processed(
    table: TableView,
    source: Seq<char>,
    allowed: Seq<Seq<char>>,
    r: Result<Option<(Vec<u8>, u64)>, CsvProcessingError>,
) -> bool {
    if !table.columns.contains(CATEGORY_COLUMN@) {
        r matches Err(CsvProcessingError::PolarsError(m)) && m@ == missing_column_text(source)
    } else {
        let kept = table.restricted_to(CATEGORY_COLUMN@, allowed);
        if kept.rows.len() == 0 {
            r == Ok::<Option<(Vec<u8>, u64)>, CsvProcessingError>(None)
        } else {
            match parquet_of(kept) {
                Some(bytes) => (r matches Ok(Some(artifact)) && artifact.0@ == bytes && artifact.1
                    == kept.rows.len()),
                None => (r matches Err(CsvProcessingError::ParquetWriteError(m))
                    && reports_encoding_failure(m@, source, kept.rows.len())),
            }
        }
    }
}

/// Filters a table to the allow-list and encodes what is left.
///
/// The number of rows is counted before the encoding, so that a failure of
/// the writer can be held against it.
pub fn process_record_set(table: &RecordSet, source: &str, allowed: &Vec<String>) -> (r: Result<
    Option<(Vec<u8>, u64)>,
    CsvProcessingError,
>)
    ensures
        is_processed(table@, source@, allowed.deep_view(), r),
{
    let kept = match filter_by_allow_list(table, allowed) {
        Some(kept) => kept,
        None => {
            return Err(missing_column(source));
        },
    };
    if kept.height() == 0 {
        return Ok(None);
    }
    let rows = kept.height() as u64;
    encoded_outcome(write_parquet(&kept), rows, source)
}

/// Reads one delimited source with a header line, keeps the rows whose
/// category is allowed and encodes them.
///
/// Whether the text can be read is for the reader to say. Either it cannot,
/// and the error says so; or a table was read from it, and the result is
/// what [`process_record_set`] gives for that table.
pub fn process_csv_to_parquet_bytes(csv: &[u8], source: &str, allowed: &Vec<String>) -> (r: Result<
    Option<(Vec<u8>, u64)>,
    CsvProcessingError,
>)
    ensures
        (r matches Err(CsvProcessingError::PolarsError(_))) || (exists|table: TableView|
            table.rectangular() && #[trigger] is_processed(
                table,
                source@,
                allowed.deep_view(),
                r,
            )),
{
    match read_record_set(csv) {
        Err(cause) => Err(CsvProcessingError::PolarsError(cause)),
        Ok(table) => {
            let r = process_record_set(&table, source, allowed);
            assert(table@.rectangular() && is_processed(table@, source@, allowed.deep_view(), r));
            r
        },
    }
}

/// How a write to the object store failed, as its client reports it.
#[derive(Debug, PartialEq, Eq)]
pub enum S3Failure {
    /// The store answered with an error status.
    Service { status: u16, error: String },
    /// The request timed out.
    Timeout,
    /// The answer could not be received or understood.
    Response(String),
    /// The request could not be sent.
    Dispatch(String),
    /// The request could not be built.
    Construction(String),
    /// Any other failure.
    Other(String),
}

/// The kinds of failed transmission that are told apart in messages.
#[derive(Debug, Clone, Copy, PartialEq, Eq, Structural)]
pub enum TransmissionKind {
    Auth,
    Location,
    NotFound,
    Malformed,
    TransientServer,
    Timeout,
    Response,
    Dispatch,
    Other,
}

/// The kind an error status of the store stands for.
pub open spec fn kind_of_status(status: u16) -> TransmissionKind {
    if status == 301 {
        TransmissionKind::Location
    } else if status == 403 {
        TransmissionKind::Auth
    } else if status == 404 {
        TransmissionKind::NotFound
    } else if status == 400 {
        TransmissionKind::Malformed
    } else if 500 <= status <= 599 {
        TransmissionKind::TransientServer
    } else {
        TransmissionKind::Other
    }
}

impl S3Failure {
    /// The kind of this failure.
    pub open spec fn kind(self) -> TransmissionKind {
        match self {
            S3Failure::Service { status, .. } => kind_of_status(status),
            S3Failure::Timeout => TransmissionKind::Timeout,
            S3Failure::Response(_) => TransmissionKind::Response,
            S3Failure::Dispatch(_) => TransmissionKind::Dispatch,
            S3Failure::Construction(_) => TransmissionKind::Malformed,
            S3Failure::Other(_) => TransmissionKind::Other,
        }
    }

    /// The failure in words, with a hint at the remedy.
    pub open spec fn description(self, bucket: Seq<char>) -> Seq<char> {
        match self {
            S3Failure::Service { status, error } => "S3 Service Error: "@ + error@ + " (HTTP "@
                + decimal_digits(status as nat) + ")"@ + status_hint(kind_of_status(status), bucket),
            S3Failure::Timeout => "S3 request timed out - check network connectivity"@,
            S3Failure::Response(d) => "S3 Response Error: "@ + d@
                + " - check network connectivity"@,
            S3Failure::Dispatch(d) => "S3 Dispatch Failure: "@ + d@
                + " - check AWS configuration"@,
            S3Failure::Construction(d) => "S3 Construction Failure: "@ + d@
                + " - check request parameters"@,
            S3Failure::Other(d) => "Unknown S3 Error: "@ + d@
                + " - check AWS configuration and connectivity"@,
        }
    }
}

/// The hint that follows the message of an error status.
pub open spec fn status_hint(kind: TransmissionKind, bucket: Seq<char>) -> Seq<char> {
    match kind {
        TransmissionKind::Location => " - REGION MISMATCH: Bucket '"@ + bucket
            + "' exists in a different AWS region. Check S3_REGION environment variable"@,
        TransmissionKind::Auth =>
            " - ACCESS DENIED: Check 1) AWS credentials are configured, 2) IAM user/role has s3:PutObject permission for bucket '"@
            + bucket + "', 3) Bucket policy allows your AWS account"@,
        TransmissionKind::NotFound => " - Bucket '"@ + bucket + "' may not exist or be accessible"@,
        TransmissionKind::Malformed => " - Invalid request parameters"@,
        TransmissionKind::TransientServer => " - AWS server error, retry may help"@,
        _ => Seq::empty(),
    }
}

/// Classifies an error status of the store.
pub fn classify_status(status: u16) -> (kind: TransmissionKind)
    ensures
        kind == kind_of_status(status),
{
    if status == 301 {
        TransmissionKind::Location
    } else if status == 403 {
        TransmissionKind::Auth
    } else if status == 404 {
        TransmissionKind::NotFound
    } else if status == 400 {
        TransmissionKind::Malformed
    } else if 500 <= status && status <= 599 {
        TransmissionKind::TransientServer
    } else {
        TransmissionKind::Other
    }
}

/// Classifies a failed write.
pub fn classify(failure: &S3Failure) -> (kind: TransmissionKind)
    ensures
        kind == failure.kind(),
{
    match failure {
        S3Failure::Service { status, .. } => classify_status(*status),
        S3Failure::Timeout => TransmissionKind::Timeout,
        S3Failure::Response(_) => TransmissionKind::Response,
        S3Failure::Dispatch(_) => TransmissionKind::Dispatch,
        S3Failure::Construction(_) => TransmissionKind::Malformed,
        S3Failure::Other(_) => TransmissionKind::Other,
    }
}

fn append_status_hint(text: &mut String, kind: TransmissionKind, bucket: &str)
    ensures
        final(text)@ == old(text)@ + status_hint(kind, bucket@),
{
    match kind {
        TransmissionKind::Location => {
            let mut hint = String::from_str(" - REGION MISMATCH: Bucket '");
            hint.append(bucket);
            hint.append(
                "' exists in a different AWS region. Check S3_REGION environment variable",
            );
            text.append(hint.as_str());
        },
        TransmissionKind::Auth => {
            let mut hint = String::from_str(
                " - ACCESS DENIED: Check 1) AWS credentials are configured, 2) IAM user/role has s3:PutObject permission for bucket '",
            );
            hint.append(bucket);
            hint.append("', 3) Bucket policy allows your AWS account");
            text.append(hint.as_str());
        },
        TransmissionKind::NotFound => {
            let mut hint = String::from_str(" - Bucket '");
            hint.append(bucket);
            hint.append("' may not exist or be accessible");
            text.append(hint.as_str());
        },
        TransmissionKind::Malformed => {
            text.append(" - Invalid request parameters");
        },
        TransmissionKind::TransientServer => {
            text.append(" - AWS server error, retry may help");
        },
        _ => {
        },
    }
}

fn framed(before: &str, detail: &str, after: &str) -> (text: String)
    ensures
        text@ == before@ + detail@ + after@,
{
    let mut text = String::from_str(before);
    text.append(detail);
    text.append(after);
    text
}

/// Describes a failed write, with a hint at the remedy.
pub fn describe_failure(failure: &S3Failure, bucket: &str) -> (text: String)
    ensures
        text@ == failure.description(bucket@),
{
    match failure {
        S3Failure::Service { status, error } => {
            let mut text = String::from_str("S3 Service Error: ");
            text.append(error.as_str());
            text.append(" (HTTP ");
            text.append(decimal(*status as u64).as_str());
            text.append(")");
            append_status_hint(&mut text, classify_status(*status), bucket);
            text
        },
        S3Failure::Timeout => String::from_str("S3 request timed out - check network connectivity"),
        S3Failure::Response(d) => framed(
            "S3 Response Error: ",
            d.as_str(),
            " - check network connectivity",
        ),
        S3Failure::Dispatch(d) => framed(
            "S3 Dispatch Failure: ",
            d.as_str(),
            " - check AWS configuration",
        ),
        S3Failure::Construction(d) => framed(
            "S3 Construction Failure: ",
            d.as_str(),
            " - check request parameters",
        ),
        S3Failure::Other(d) => framed(
            "Unknown S3 Error: ",
            d.as_str(),
            " - check AWS configuration and connectivity",
        ),
    }
}

/// The key an artifact is stored under: the prefix, the sanitized name and
/// the extension of the format.
pub open spec fn object_key(prefix: Seq<char>, name: Seq<char>) -> Seq<char> {
    prefix + name + ARTIFACT_SUFFIX@
}

/// Derives the key an artifact is stored under.
pub fn s3_key(prefix: &str, name: &str) -> (key: String)
    ensures
        key@ == object_key(prefix@, name@),
{
    framed(prefix, name, ARTIFACT_SUFFIX)
}

/// One write to the object store that is due.
#[derive(Debug, PartialEq, Eq)]
pub struct UploadRequest {
    /// The key to write under.
    pub key: String,
    /// The full content of the artifact.
    pub body: Vec<u8>,
    /// The number of rows the artifact holds.
    pub row_count: u64,
}

/// What is said when a path has no file name.
pub open spec fn no_file_name_text(path: Seq<char>) -> Seq<char> {
    "Cannot extract file name from path: "@ + path
}

/// What is said when the artifact of `file_name` did not reach the store.
pub open spec fn upload_failure_text(
    file_name: Seq<char>,
    bucket: Seq<char>,
    key: Seq<char>,
    detail: Seq<char>,
) -> Seq<char> {
    "Failed to upload "@ + file_name + " to s3://"@ + bucket + "/"@ + key + ": "@ + detail
}

/// Decides what to send for one processed file: nothing when no row was
/// left, else the artifact under the key made of the prefix and the
/// sanitized stem of the file's name. A path without a stem is an error once
/// there is something to send.
pub fn plan_upload(
    processed: Option<(Vec<u8>, u64)>,
    file_stem: Option<&str>,
    path: &str,
    prefix: &str,
) -> (r: Result<Option<UploadRequest>, UploadError>)
    ensures
        processed is None ==> r == Ok::<Option<UploadRequest>, UploadError>(None),
        processed is Some && file_stem is None ==> (r matches Err(UploadError::InvalidFilePath(m))
            && m@ == no_file_name_text(path@)),
        processed is Some && file_stem is Some ==> ({
            let artifact = processed->0;
            r matches Ok(Some(request)) && request.key@ == object_key(
                prefix@,
                category_key(file_stem->0@),
            ) && request.body == artifact.0 && request.row_count == artifact.1
        }),
{
    match processed {
        None => Ok(None),
        Some((body, row_count)) => match file_stem {
            None => Err(
                UploadError::InvalidFilePath(
                    String::from_str("Cannot extract file name from path: ").concat(path),
                ),
            ),
            Some(stem) => Ok(
                Some(
                    UploadRequest {
                        key: s3_key(prefix, sanitize(stem).as_str()),
                        body,
                        row_count,
                    },
                ),
            ),
        },
    }
}

/// Concludes one write: the number of rows published, or the failure with
/// the file, the destination and the classified cause.
pub fn conclude_upload(
    row_count: u64,
    sent: Result<(), S3Failure>,
    file_name: &str,
    bucket: &str,
    key: &str,
) -> (r: Result<Option<u64>, UploadError>)
    ensures
        sent is Ok ==> r == Ok::<Option<u64>, UploadError>(Some(row_count)),
        sent matches Err(failure) ==> (r matches Err(UploadError::S3Upload(m)) && m@
            == upload_failure_text(file_name@, bucket@, key@, failure.description(bucket@))),
{
    match sent {
        Ok(()) => Ok(Some(row_count)),
        Err(failure) => {
            let mut text = String::from_str("Failed to upload ");
            text.append(file_name);
            text.append(" to s3://");
            text.append(bucket);
            text.append("/");
            text.append(key);
            text.append(": ");
            text.append(describe_failure(&failure, bucket).as_str());
            Err(UploadError::S3Upload(text))
        },
    }
}

/// The error for a worker that ended abnormally while it processed `path`.
pub fn task_failed(path: &str, cause: &str) -> (e: UploadError)
    ensures
        e matches UploadError::TaskJoin(m) && m@ == "Failed to join CSV processing task for "@
            + path@ + ": "@ + cause@,
{
    UploadError::TaskJoin(framed("Failed to join CSV processing task for ", path, ": ").concat(cause))
}

/// The error for a source file that does not exist.
pub fn missing_source(path: &str) -> (e: CsvProcessingError)
    ensures
        e matches CsvProcessingError::InvalidPath(m) && m@ == "CSV file does not exist: "@ + path@,
{
    CsvProcessingError::InvalidPath(String::from_str("CSV file does not exist: ").concat(path))
}

} // verus!
