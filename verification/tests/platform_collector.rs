use data_lander::converter_uploader::CsvProcessingError;
use data_lander::platform_collector::PlatformDataCollector;
use data_lander::record_set::RecordSet;

fn allow(list: &[&str]) -> Vec<String> {
    list.iter().map(|s| s.to_string()).collect()
}

fn table(header: &[&str], rows: &[&[Option<&str>]]) -> RecordSet {
    let rows = rows
        .iter()
        .map(|r| r.iter().map(|c| c.map(|s| s.to_string())).collect())
        .collect();
    RecordSet::new(allow(header), rows).unwrap()
}

#[test]
fn test_platform_name_sanitization() {
    let allowed_platforms = vec!["Facebook".to_string(), "Google".to_string()];
    let collector = PlatformDataCollector::new(allowed_platforms);

    assert_eq!(collector.sanitize_platform_name("Facebook"), "facebook");
    assert_eq!(collector.sanitize_platform_name("Google Maps"), "google-maps");
    assert_eq!(
        collector.sanitize_platform_name("Discord Netherlands B.V."),
        "discord-netherlands-b-v"
    );
    assert_eq!(collector.sanitize_platform_name("X"), "x");
    assert_eq!(collector.sanitize_platform_name("TikTok"), "tiktok");
    assert_eq!(collector.sanitize_platform_name(""), "unknown");
    assert_eq!(collector.sanitize_platform_name("!!!"), "unknown");
    assert_eq!(collector.sanitize_platform_name("Test-Platform_123"), "test-platform-123");
}

#[test]
fn test_new_collector() {
    let allowed_platforms = vec!["Facebook".to_string(), "Google".to_string()];
    let collector = PlatformDataCollector::new(allowed_platforms.clone());

    assert_eq!(*collector.allowed_platforms(), allowed_platforms);
    assert_eq!(collector.platform_count(), 0);
    assert_eq!(collector.total_dataframe_count(), 0);
}

#[test]
fn test_empty_csv_handling() {
    let allowed_platforms = vec!["Facebook".to_string()];
    let mut collector = PlatformDataCollector::new(allowed_platforms);

    let result = collector.add_csv_data(b"platform_name,data\n", "empty.csv");
    assert!(result.is_ok());
    assert_eq!(collector.platform_count(), 0);
}

#[test]
fn csv_rows_are_filed_under_their_keys() {
    let mut collector = PlatformDataCollector::new(allow(&["Facebook", "Google Maps"]));
    let csv = b"platform_name,x\nGoogle Maps,1\nFacebook,2\nOther,3\nGoogle Maps,4\n";
    assert_eq!(collector.add_csv_data(csv, "one.csv"), Ok(()));

    assert_eq!(collector.get_platforms(), allow(&["google-maps", "facebook"]));
    assert_eq!(collector.platform_count(), 2);
    assert_eq!(collector.total_dataframe_count(), 2);
    assert!(collector.has_platform_data("google-maps"));
    assert!(!collector.has_platform_data("Google Maps"));
    assert!(!collector.has_platform_data("other"));

    let maps = collector.get_platform_data("google-maps").unwrap();
    assert_eq!(maps.len(), 1);
    assert_eq!(
        maps[0].rows(),
        &vec![
            vec![Some("Google Maps".to_string()), Some("1".to_string())],
            vec![Some("Google Maps".to_string()), Some("4".to_string())],
        ]
    );
    assert!(collector.get_platform_data("other").is_none());
    assert_eq!(
        collector.get_summary(),
        vec![("google-maps".to_string(), 2), ("facebook".to_string(), 1)]
    );
}

#[test]
fn two_sources_contribute_to_one_key() {
    let mut collector = PlatformDataCollector::new(allow(&["Google Maps"]));
    collector
        .add_csv_data(b"platform_name,x\nGoogle Maps,a\nGoogle Maps,b\n", "first.csv")
        .unwrap();
    collector
        .add_csv_data(b"platform_name,x\nElsewhere,c\nGoogle Maps,d\n", "second.csv")
        .unwrap();

    assert_eq!(collector.get_platforms(), allow(&["google-maps"]));
    assert_eq!(collector.total_dataframe_count(), 2);
    let merged = collector.consolidate_platform_data("google-maps").unwrap();
    assert_eq!(merged.height(), 3);
    assert_eq!(
        merged.rows(),
        &vec![
            vec![Some("Google Maps".to_string()), Some("a".to_string())],
            vec![Some("Google Maps".to_string()), Some("b".to_string())],
            vec![Some("Google Maps".to_string()), Some("d".to_string())],
        ]
    );
    assert_eq!(collector.get_summary(), vec![("google-maps".to_string(), 3)]);
}

#[test]
fn raw_spellings_that_share_a_key_share_an_entry() {
    let mut collector = PlatformDataCollector::new(allow(&["Google Maps", "google_maps"]));
    let source = table(
        &["platform_name", "n"],
        &[
            &[Some("google_maps"), Some("1")],
            &[Some("Google Maps"), Some("2")],
            &[Some("google_maps"), Some("3")],
        ],
    );
    collector.add_record_set(&source, "mixed.csv").unwrap();

    assert_eq!(collector.get_platforms(), allow(&["google-maps"]));
    let tables = collector.get_platform_data("google-maps").unwrap();
    assert_eq!(tables.len(), 2);
    assert_eq!(tables[0].height(), 2);
    assert_eq!(tables[1].height(), 1);
    assert_eq!(tables[1].rows()[0][1], Some("2".to_string()));
}

#[test]
fn consolidating_one_table_returns_it_unchanged() {
    let mut collector = PlatformDataCollector::new(allow(&["Reddit"]));
    let source = table(
        &["platform_name", "n"],
        &[&[Some("Reddit"), Some("1")], &[Some("Reddit"), None], &[Some("Reddit"), Some("3")]],
    );
    collector.add_record_set(&source, "reddit.csv").unwrap();

    let merged = collector.consolidate_platform_data("reddit").unwrap();
    let only = &collector.get_platform_data("reddit").unwrap()[0];
    assert_eq!(merged.column_names(), only.column_names());
    assert_eq!(merged.rows(), only.rows());
    assert_eq!(merged.rows(), source.rows());
}

#[test]
fn consolidating_an_unknown_key_is_an_error() {
    let collector = PlatformDataCollector::new(allow(&["Reddit"]));
    assert_eq!(
        collector.consolidate_platform_data("reddit").unwrap_err(),
        CsvProcessingError::InvalidPath("No data found for platform: reddit".to_string())
    );
}

#[test]
fn consolidating_tables_of_different_headers_is_an_error() {
    let mut collector = PlatformDataCollector::new(allow(&["Reddit"]));
    collector
        .add_record_set(&table(&["platform_name", "n"], &[&[Some("Reddit"), Some("1")]]), "a.csv")
        .unwrap();
    collector
        .add_record_set(&table(&["platform_name", "m"], &[&[Some("Reddit"), Some("2")]]), "b.csv")
        .unwrap();

    assert_eq!(
        collector.consolidate_platform_data("reddit").unwrap_err(),
        CsvProcessingError::SchemaMismatch(
            "Tables of different headers collected for platform: reddit".to_string()
        )
    );
}

#[test]
fn a_table_without_the_category_column_is_refused() {
    let mut collector = PlatformDataCollector::new(allow(&["Reddit"]));
    let source = table(&["platform", "n"], &[&[Some("Reddit"), Some("1")]]);
    assert_eq!(
        collector.add_record_set(&source, "odd.csv"),
        Err(CsvProcessingError::InvalidPath(
            "Missing 'platform_name' column in file: odd.csv".to_string()
        ))
    );
    assert_eq!(collector.platform_count(), 0);

    assert_eq!(
        collector.group_dataframe_by_platform(&source, "odd.csv"),
        Err(CsvProcessingError::PolarsError(
            "Column 'platform_name' not found in file: odd.csv".to_string()
        ))
    );
    assert_eq!(
        collector.add_csv_data(b"platform,n\nReddit,1\n", "odd.csv"),
        Err(CsvProcessingError::InvalidPath(
            "Missing 'platform_name' column in file: odd.csv".to_string()
        ))
    );
}

#[test]
fn missing_and_disallowed_categories_are_passed_over() {
    let mut collector = PlatformDataCollector::new(allow(&["Reddit"]));
    let source = table(
        &["platform_name", "n"],
        &[&[None, Some("1")], &[Some("Nope"), Some("2")], &[Some("Reddit"), Some("3")]],
    );
    collector.group_dataframe_by_platform(&source, "gaps.csv").unwrap();
    assert_eq!(collector.get_platforms(), allow(&["reddit"]));
    assert_eq!(collector.get_summary(), vec![("reddit".to_string(), 1)]);
}

#[test]
fn text_that_is_no_table_is_an_error() {
    let mut collector = PlatformDataCollector::new(allow(&["Reddit"]));
    let r = collector.add_csv_data(b"platform_name,n\nReddit,1,2,3,4\n", "ragged.csv");
    assert!(matches!(r, Err(CsvProcessingError::PolarsError(_))));
    assert_eq!(collector.platform_count(), 0);
}

#[test]
fn a_category_is_prepared_for_publishing() {
    let mut collector = PlatformDataCollector::new(allow(&["Google Maps"]));
    collector.add_csv_data(b"platform_name,x\nGoogle Maps,a\n", "first.csv").unwrap();
    collector.add_csv_data(b"platform_name,x\nGoogle Maps,b\nGoogle Maps,c\n", "second.csv").unwrap();

    let request = collector.prepare_upload("google-maps", "global-full/2024-01-02/").unwrap();
    assert_eq!(request.key, "global-full/2024-01-02/google-maps.parquet");
    assert_eq!(request.row_count, 3);
    let merged = collector.consolidate_platform_data("google-maps").unwrap();
    assert_eq!(request.body, data_lander::codec::write_parquet(&merged).unwrap());

    assert_eq!(
        collector.prepare_upload("facebook", "p/").unwrap_err(),
        CsvProcessingError::InvalidPath("No data found for platform: facebook".to_string())
    );
}

#[test]
fn every_allowed_row_is_filed_exactly_once() {
    let mut collector = PlatformDataCollector::new(allow(&["A", "B", "a"]));
    let first = table(
        &["n", "platform_name"],
        &[
            &[Some("1"), Some("A")],
            &[Some("2"), Some("C")],
            &[Some("3"), Some("B")],
            &[Some("4"), None],
            &[Some("5"), Some("a")],
            &[Some("6"), Some("A")],
        ],
    );
    collector.add_record_set(&first, "first.csv").unwrap();
    let filed: usize = collector.get_summary().iter().map(|(_, rows)| rows).sum();
    assert_eq!(filed, 4);
    assert_eq!(collector.get_summary(), vec![("a".to_string(), 3), ("b".to_string(), 1)]);

    let held_before: Vec<Vec<Vec<Option<String>>>> = collector
        .get_platform_data("a")
        .unwrap()
        .iter()
        .map(|t| t.rows().clone())
        .collect();

    let second = table(&["n", "platform_name"], &[&[Some("7"), Some("a")], &[Some("8"), Some("Z")]]);
    collector.add_record_set(&second, "second.csv").unwrap();
    let filed: usize = collector.get_summary().iter().map(|(_, rows)| rows).sum();
    assert_eq!(filed, 5);

    let held_after: Vec<Vec<Vec<Option<String>>>> = collector
        .get_platform_data("a")
        .unwrap()
        .iter()
        .map(|t| t.rows().clone())
        .collect();
    assert_eq!(&held_after[..held_before.len()], held_before.as_slice());
    assert_eq!(held_after.len(), held_before.len() + 1);
}
