use data_lander::codec::{read_record_set, write_parquet};
use data_lander::converter_uploader::{
    classify, classify_status, conclude_upload, default_allowed_platforms, describe_failure,
    encoded_outcome, filter_by_allow_list, missing_source, plan_upload,
    process_csv_to_parquet_bytes, process_record_set, s3_key, task_failed, CsvProcessingError,
    S3Failure, TransmissionKind, UploadError, UploadRequest,
};
use data_lander::record_set::RecordSet;
use data_lander::unzipper::streamed_unzip;
use polars::prelude::{ParquetReader, SerReader};
use std::io::Write;
use zip::write::SimpleFileOptions;

fn strings(list: &[&str]) -> Vec<String> {
    list.iter().map(|s| s.to_string()).collect()
}

fn one_entry_container(name: &str, data: &[u8]) -> Vec<u8> {
    let mut writer = zip::ZipWriter::new(std::io::Cursor::new(Vec::new()));
    writer.start_file(name, SimpleFileOptions::default()).unwrap();
    writer.write_all(data).unwrap();
    writer.finish().unwrap().into_inner()
}

const SOURCE: &[u8] = b"platform_name,x\nFacebook,1\nUnknown,2\n";

#[test]
fn one_allowed_row_is_published_as_one_artifact() {
    let archive = one_entry_container("a.csv", SOURCE);
    let done = streamed_unzip(&archive, "work", 4).unwrap();
    assert_eq!(done.files.len(), 1);
    assert_eq!(done.files[0].path, "work/a.csv");

    let table = read_record_set(&done.files[0].data).unwrap();
    let kept = filter_by_allow_list(&table, &strings(&["Facebook"])).unwrap();
    assert_eq!(kept.height(), 1);
    assert_eq!(kept.rows(), &vec![vec![Some("Facebook".to_string()), Some("1".to_string())]]);

    let processed =
        process_csv_to_parquet_bytes(&done.files[0].data, "work/a.csv", &strings(&["Facebook"]))
            .unwrap();
    let (bytes, rows) = processed.clone().unwrap();
    assert_eq!(rows, 1);

    let frame = ParquetReader::new(std::io::Cursor::new(bytes.clone())).finish().unwrap();
    assert_eq!(frame.height(), 1);
    assert_eq!(frame.width(), 2);
    let names: Vec<String> = frame.get_column_names().iter().map(|n| n.to_string()).collect();
    assert_eq!(names, strings(&["platform_name", "x"]));
    assert_eq!(frame.column("platform_name").unwrap().str().unwrap().get(0), Some("Facebook"));
    assert_eq!(frame.column("x").unwrap().str().unwrap().get(0), Some("1"));

    let request = plan_upload(processed, Some("a"), "work/a.csv", "global-full/2024-01-02/")
        .unwrap()
        .unwrap();
    assert_eq!(
        request,
        UploadRequest { key: "global-full/2024-01-02/a.parquet".to_string(), body: bytes, row_count: 1 }
    );
    assert_eq!(conclude_upload(request.row_count, Ok(()), "a", "bucket", &request.key), Ok(Some(1)));
}

#[test]
fn nothing_is_published_when_no_row_is_allowed() {
    let archive = one_entry_container("a.csv", SOURCE);
    let done = streamed_unzip(&archive, "work", 4).unwrap();
    let processed =
        process_csv_to_parquet_bytes(&done.files[0].data, "work/a.csv", &strings(&["Nope"]));
    assert_eq!(processed, Ok(None));
    assert_eq!(plan_upload(None, Some("a"), "work/a.csv", "p/"), Ok(None));
    assert_eq!(plan_upload(None, None, "work/a.csv", "p/"), Ok(None));
}

#[test]
fn the_filter_keeps_allowed_rows_in_their_order() {
    let table = read_record_set(
        b"id,platform_name\n1,TikTok\n2,Other\n3,X\n4,tiktok\n5,TikTok\n6,\n7,X\n",
    )
    .unwrap();
    let kept = filter_by_allow_list(&table, &strings(&["X", "TikTok"])).unwrap();
    let ids: Vec<&str> = kept.rows().iter().map(|r| r[0].as_deref().unwrap()).collect();
    assert_eq!(ids, vec!["1", "3", "5", "7"]);
    assert_eq!(kept.column_names(), table.column_names());
    let expected = table
        .rows()
        .iter()
        .filter(|r| matches!(r[1].as_deref(), Some("X") | Some("TikTok")))
        .count();
    assert_eq!(kept.height(), expected);
}

#[test]
fn the_category_column_is_required() {
    let r = process_csv_to_parquet_bytes(b"platform,x\nFacebook,1\n", "b.csv", &strings(&["Facebook"]));
    assert_eq!(
        r,
        Err(CsvProcessingError::PolarsError(
            "Column 'platform_name' not found in file: b.csv".to_string()
        ))
    );
    let table = read_record_set(b"platform,x\nFacebook,1\n").unwrap();
    assert!(filter_by_allow_list(&table, &strings(&["Facebook"])).is_none());
}

#[test]
fn text_that_cannot_be_read_is_an_error() {
    let r = process_csv_to_parquet_bytes(b"platform_name,x\na,1,2,3\n", "c.csv", &strings(&["a"]));
    assert!(matches!(r, Err(CsvProcessingError::PolarsError(_))));
}

#[test]
fn a_table_that_cannot_be_encoded_is_an_error() {
    let twice = RecordSet::new(
        strings(&["platform_name", "platform_name"]),
        vec![vec![Some("Facebook".to_string()), Some("x".to_string())]],
    )
    .unwrap();
    assert!(write_parquet(&twice).is_err());
    let r = process_record_set(&twice, "d.csv", &strings(&["Facebook"]));
    match r {
        Err(CsvProcessingError::ParquetWriteError(text)) => {
            assert!(text.starts_with("Failed to write parquet for d.csv (expected rows: 1): "));
        }
        other => panic!("unexpected outcome {:?}", other),
    }
}

#[test]
fn the_outcome_of_the_encoder_is_passed_on() {
    assert_eq!(encoded_outcome(Ok(vec![1, 2, 3]), 12, "e.csv"), Ok(Some((vec![1, 2, 3], 12))));
    assert_eq!(
        encoded_outcome(Err("disk on fire".to_string()), 12, "e.csv"),
        Err(CsvProcessingError::ParquetWriteError(
            "Failed to write parquet for e.csv (expected rows: 12): disk on fire".to_string()
        ))
    );
}

#[test]
fn encoding_is_repeatable() {
    let table = read_record_set(SOURCE).unwrap();
    assert_eq!(write_parquet(&table).unwrap(), write_parquet(&table).unwrap());
}

#[test]
fn the_default_allow_list_has_eleven_categories() {
    assert_eq!(
        default_allowed_platforms(),
        strings(&[
            "Facebook",
            "Discord Netherlands B.V.",
            "Google Maps",
            "Instagram",
            "Kleinanzeigen",
            "Leboncoin",
            "LinkedIn",
            "Reddit",
            "Telegram",
            "TikTok",
            "X",
        ])
    );
}

#[test]
fn keys_are_prefix_name_and_extension() {
    assert_eq!(s3_key("global-light/2024-03-07/", "part-1"), "global-light/2024-03-07/part-1.parquet");
    assert_eq!(s3_key("", "google-maps"), "google-maps.parquet");
}

#[test]
fn an_artifact_needs_a_file_name() {
    assert_eq!(
        plan_upload(Some((vec![1], 1)), None, "work/..", "p/"),
        Err(UploadError::InvalidFilePath("Cannot extract file name from path: work/..".to_string()))
    );
}

#[test]
fn statuses_are_classified() {
    assert_eq!(classify_status(301), TransmissionKind::Location);
    assert_eq!(classify_status(403), TransmissionKind::Auth);
    assert_eq!(classify_status(404), TransmissionKind::NotFound);
    assert_eq!(classify_status(400), TransmissionKind::Malformed);
    assert_eq!(classify_status(500), TransmissionKind::TransientServer);
    assert_eq!(classify_status(599), TransmissionKind::TransientServer);
    assert_eq!(classify_status(600), TransmissionKind::Other);
    assert_eq!(classify_status(499), TransmissionKind::Other);
    assert_eq!(classify_status(200), TransmissionKind::Other);
    assert_eq!(classify(&S3Failure::Timeout), TransmissionKind::Timeout);
    assert_eq!(classify(&S3Failure::Response("r".to_string())), TransmissionKind::Response);
    assert_eq!(classify(&S3Failure::Dispatch("d".to_string())), TransmissionKind::Dispatch);
    assert_eq!(classify(&S3Failure::Construction("c".to_string())), TransmissionKind::Malformed);
    assert_eq!(classify(&S3Failure::Other("o".to_string())), TransmissionKind::Other);
    assert_eq!(
        classify(&S3Failure::Service { status: 403, error: "denied".to_string() }),
        TransmissionKind::Auth
    );
}

#[test]
fn failures_are_described_with_a_hint() {
    let service = |status: u16| S3Failure::Service { status, error: "E".to_string() };
    assert_eq!(
        describe_failure(&service(301), "b"),
        "S3 Service Error: E (HTTP 301) - REGION MISMATCH: Bucket 'b' exists in a different AWS region. Check S3_REGION environment variable"
    );
    assert_eq!(
        describe_failure(&service(403), "b"),
        "S3 Service Error: E (HTTP 403) - ACCESS DENIED: Check 1) AWS credentials are configured, 2) IAM user/role has s3:PutObject permission for bucket 'b', 3) Bucket policy allows your AWS account"
    );
    assert_eq!(
        describe_failure(&service(404), "b"),
        "S3 Service Error: E (HTTP 404) - Bucket 'b' may not exist or be accessible"
    );
    assert_eq!(
        describe_failure(&service(400), "b"),
        "S3 Service Error: E (HTTP 400) - Invalid request parameters"
    );
    assert_eq!(
        describe_failure(&service(503), "b"),
        "S3 Service Error: E (HTTP 503) - AWS server error, retry may help"
    );
    assert_eq!(describe_failure(&service(418), "b"), "S3 Service Error: E (HTTP 418)");
    assert_eq!(
        describe_failure(&S3Failure::Timeout, "b"),
        "S3 request timed out - check network connectivity"
    );
    assert_eq!(
        describe_failure(&S3Failure::Response("R".to_string()), "b"),
        "S3 Response Error: R - check network connectivity"
    );
    assert_eq!(
        describe_failure(&S3Failure::Dispatch("D".to_string()), "b"),
        "S3 Dispatch Failure: D - check AWS configuration"
    );
    assert_eq!(
        describe_failure(&S3Failure::Construction("C".to_string()), "b"),
        "S3 Construction Failure: C - check request parameters"
    );
    assert_eq!(
        describe_failure(&S3Failure::Other("O".to_string()), "b"),
        "Unknown S3 Error: O - check AWS configuration and connectivity"
    );
}

#[test]
fn a_failed_write_is_reported_with_its_destination() {
    assert_eq!(
        conclude_upload(9, Err(S3Failure::Timeout), "a", "bucket", "p/a.parquet"),
        Err(UploadError::S3Upload(
            "Failed to upload a to s3://bucket/p/a.parquet: S3 request timed out - check network connectivity"
                .to_string()
        ))
    );
}

#[test]
fn errors_are_put_into_words() {
    assert_eq!(
        CsvProcessingError::PolarsError("p".to_string()).message(),
        "Polars operation failed: p"
    );
    assert_eq!(CsvProcessingError::IoError("i".to_string()).message(), "I/O operation failed: i");
    assert_eq!(CsvProcessingError::InvalidPath("x".to_string()).message(), "Invalid file path: x");
    assert_eq!(CsvProcessingError::EmptyDataFrame("e".to_string()).message(), "Empty DataFrame: e");
    assert_eq!(
        CsvProcessingError::ParquetWriteError("w".to_string()).message(),
        "Parquet write failed: w"
    );
    assert_eq!(CsvProcessingError::SchemaMismatch("s".to_string()).message(), "Schema mismatch: s");
    assert_eq!(
        UploadError::CsvProcessing(missing_source("gone.csv")).message(),
        "CSV processing error: Invalid file path: CSV file does not exist: gone.csv"
    );
    assert_eq!(
        task_failed("a.csv", "panicked").message(),
        "Task join error: Failed to join CSV processing task for a.csv: panicked"
    );
    assert_eq!(UploadError::S3Upload("u".to_string()).message(), "S3 upload error: u");
    assert_eq!(UploadError::InvalidFilePath("f".to_string()).message(), "Invalid file path: f");
}

#[test]
fn cells_keep_the_text_of_the_source() {
    let table = read_record_set(
        b"platform_name,n,f,b,q\nX,007,1.50,true,\"a,b\"\nX,+3,1e3,FALSE,\"say \"\"hi\"\"\"\nX,,,,\n",
    )
    .unwrap();
    let text = |r: usize, c: usize| table.rows()[r][c].clone();
    assert_eq!(text(0, 1), Some("007".to_string()));
    assert_eq!(text(0, 2), Some("1.50".to_string()));
    assert_eq!(text(0, 3), Some("true".to_string()));
    assert_eq!(text(0, 4), Some("a,b".to_string()));
    assert_eq!(text(1, 1), Some("+3".to_string()));
    assert_eq!(text(1, 2), Some("1e3".to_string()));
    assert_eq!(text(1, 3), Some("FALSE".to_string()));
    assert_eq!(text(1, 4), Some("say \"hi\"".to_string()));
    assert_eq!(table.rows()[2], vec![Some("X".to_string()), None, None, None, None]);
}

#[test]
fn the_stem_of_a_file_is_sanitized_for_its_key() {
    let request = plan_upload(Some((vec![7], 3)), Some("My File_1.v2"), "in/My File_1.v2.csv", "p/")
        .unwrap()
        .unwrap();
    assert_eq!(request.key, "p/my-file-1-v2.parquet");
    assert_eq!(request.body, vec![7]);
    assert_eq!(request.row_count, 3);
}
