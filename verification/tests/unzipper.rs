use data_lander::unzipper::{
    join_path, leads_outside, names_container, names_directory, plan_entry, streamed_unzip,
    strip_extension, EntryPlan, ExtractError, ExtractedFile,
};
use std::io::Write;
use zip::write::SimpleFileOptions;

fn container(entries: &[(&str, &[u8])]) -> Vec<u8> {
    let mut writer = zip::ZipWriter::new(std::io::Cursor::new(Vec::new()));
    for (name, data) in entries {
        if name.ends_with('/') {
            writer.add_directory(*name, SimpleFileOptions::default()).unwrap();
        } else {
            writer.start_file(*name, SimpleFileOptions::default()).unwrap();
            writer.write_all(data).unwrap();
        }
    }
    writer.finish().unwrap().into_inner()
}

fn file(path: &str, data: &[u8]) -> ExtractedFile {
    ExtractedFile { path: path.to_string(), data: data.to_vec() }
}

#[test]
fn entries_come_out_in_the_order_of_the_container() {
    let bytes = container(&[("b.csv", b"2"), ("dir/", b""), ("dir/a.csv", b"1"), ("c.txt", b"")]);
    let done = streamed_unzip(&bytes, "out", 3).unwrap();
    assert_eq!(
        done.files,
        vec![file("out/b.csv", b"2"), file("out/dir/a.csv", b"1"), file("out/c.txt", b"")]
    );
    assert_eq!(done.directories, vec!["out/dir/".to_string()]);
}

#[test]
fn a_nested_container_is_listed_and_expanded() {
    let inner = container(&[("data.csv", b"platform_name,x\nFacebook,1\n")]);
    let outer = container(&[("inner.zip", inner.as_slice())]);
    let done = streamed_unzip(&outer, "out", 3).unwrap();
    assert_eq!(
        done.files,
        vec![
            file("out/inner.zip", &inner),
            file("out/inner/data.csv", b"platform_name,x\nFacebook,1\n"),
        ]
    );
    let csv_paths: Vec<&ExtractedFile> =
        done.files.iter().filter(|f| f.path.ends_with(".csv")).collect();
    assert_eq!(csv_paths.len(), 1);
    assert_eq!(csv_paths[0].path, "out/inner/data.csv");
}

#[test]
fn the_extension_of_a_container_is_found_in_any_case() {
    let inner = container(&[("x", b"1")]);
    let outer = container(&[("A.ZIP", inner.as_slice()), ("b.Zip", inner.as_slice())]);
    let done = streamed_unzip(&outer, "o/", 1).unwrap();
    let paths: Vec<&str> = done.files.iter().map(|f| f.path.as_str()).collect();
    assert_eq!(paths, vec!["o/A.ZIP", "o/A/x", "o/b.Zip", "o/b/x"]);
}

#[test]
fn nesting_beyond_the_depth_is_an_error_for_that_branch() {
    let level3 = container(&[("deep.txt", b"d")]);
    let level2 = container(&[("level3.zip", level3.as_slice())]);
    let level1 = container(&[("first.txt", b"f"), ("level2.zip", level2.as_slice()), ("last.txt", b"l")]);

    let all = streamed_unzip(&level1, "out", 2).unwrap();
    let paths: Vec<&str> = all.files.iter().map(|f| f.path.as_str()).collect();
    assert_eq!(
        paths,
        vec![
            "out/first.txt",
            "out/level2.zip",
            "out/level2/level3.zip",
            "out/level2/level3/deep.txt",
            "out/last.txt",
        ]
    );

    let failure = streamed_unzip(&level1, "out", 1).unwrap_err();
    assert_eq!(
        failure.error,
        ExtractError::DepthExceeded { path: "out/level2/level3.zip".to_string() }
    );
    let kept: Vec<&str> = failure.completed.files.iter().map(|f| f.path.as_str()).collect();
    assert_eq!(kept, vec!["out/first.txt", "out/level2.zip", "out/level2/level3.zip"]);

    let failure = streamed_unzip(&level1, "out", 0).unwrap_err();
    assert_eq!(failure.error, ExtractError::DepthExceeded { path: "out/level2.zip".to_string() });
    let kept: Vec<&str> = failure.completed.files.iter().map(|f| f.path.as_str()).collect();
    assert_eq!(kept, vec!["out/first.txt", "out/level2.zip"]);
}

#[test]
fn a_container_without_entries_yields_nothing() {
    let done = streamed_unzip(&container(&[]), "out", 3).unwrap();
    assert!(done.files.is_empty());
    assert!(done.directories.is_empty());
}

#[test]
fn no_bytes_at_all_yield_nothing() {
    let done = streamed_unzip(&[], "out", 0).unwrap();
    assert!(done.files.is_empty());
    assert!(done.directories.is_empty());
}

#[test]
fn bytes_that_are_no_container_are_an_error() {
    let failure = streamed_unzip(b"this is not an archive", "out", 3).unwrap_err();
    assert!(matches!(
        failure.error,
        ExtractError::MalformedContainer { ref directory, .. } if directory == "out"
    ));
    assert!(failure.completed.files.is_empty());
}

#[test]
fn a_nested_file_that_is_no_container_fails_its_branch() {
    let outer = container(&[("ok.txt", b"1"), ("bad.zip", b"junk"), ("never.txt", b"2")]);
    let failure = streamed_unzip(&outer, "out", 3).unwrap_err();
    assert!(matches!(
        failure.error,
        ExtractError::MalformedContainer { ref directory, .. } if directory == "out/bad"
    ));
    assert_eq!(failure.completed.files, vec![file("out/ok.txt", b"1"), file("out/bad.zip", b"junk")]);
}

#[test]
fn names_that_lead_outside_are_refused() {
    let outer = container(&[("fine.txt", b"1"), ("../evil.txt", b"2"), ("late.txt", b"3")]);
    let failure = streamed_unzip(&outer, "out", 3).unwrap_err();
    assert_eq!(
        failure.error,
        ExtractError::PathTraversal { directory: "out".to_string(), entry: "../evil.txt".to_string() }
    );
    assert_eq!(failure.completed.files, vec![file("out/fine.txt", b"1")]);

    let absolute = container(&[("/etc/passwd", b"x")]);
    let failure = streamed_unzip(&absolute, "out", 3).unwrap_err();
    assert_eq!(
        failure.error,
        ExtractError::PathTraversal { directory: "out".to_string(), entry: "/etc/passwd".to_string() }
    );
}

#[test]
fn names_are_judged_by_where_they_lead() {
    assert!(leads_outside(".."));
    assert!(leads_outside("../a"));
    assert!(leads_outside("a/../../b"));
    assert!(leads_outside("/a"));
    assert!(leads_outside("./../a"));
    assert!(!leads_outside("a/../b"));
    assert!(!leads_outside("a/b/../../c"));
    assert!(!leads_outside("a//b/./c"));
    assert!(!leads_outside("..a/b.."));
    assert!(!leads_outside(""));
}

#[test]
fn names_tell_directories_and_containers() {
    assert!(names_directory("a/"));
    assert!(!names_directory("a"));
    assert!(!names_directory(""));
    assert!(names_container("a.zip"));
    assert!(names_container("a.ZiP"));
    assert!(names_container(".zip"));
    assert!(!names_container("a.zip/"));
    assert!(!names_container("zip"));
    assert!(!names_container("a.zi"));
    assert!(!names_container("a.gz"));
}

#[test]
fn paths_are_joined_and_stripped() {
    assert_eq!(join_path("out", "a/b.csv"), "out/a/b.csv");
    assert_eq!(join_path("out/", "a"), "out/a");
    assert_eq!(join_path("", "a"), "a");
    assert_eq!(strip_extension("out/a.b.zip"), "out/a.b");
    assert_eq!(strip_extension("X.ZIP"), "X");
}

#[test]
fn each_entry_gets_its_plan() {
    assert_eq!(plan_entry("../x", "out", 3), EntryPlan::Refuse);
    assert_eq!(plan_entry("/x.zip", "out", 3), EntryPlan::Refuse);
    assert_eq!(plan_entry("d/", "out", 3), EntryPlan::Directory { path: "out/d/".to_string() });
    assert_eq!(plan_entry("d/a.csv", "out", 0), EntryPlan::File { path: "out/d/a.csv".to_string() });
    assert_eq!(
        plan_entry("d/in.zip", "out", 1),
        EntryPlan::Container { path: "out/d/in.zip".to_string(), directory: "out/d/in".to_string() }
    );
    assert_eq!(plan_entry("d/in.zip", "out", 0), EntryPlan::TooDeep { path: "out/d/in.zip".to_string() });
    assert_eq!(plan_entry("in.zip/", "out", 1), EntryPlan::Directory { path: "out/in.zip/".to_string() });
}

#[test]
fn an_entry_that_cannot_be_read_stops_the_expansion() {
    let mut writer = zip::ZipWriter::new(std::io::Cursor::new(Vec::new()));
    let stored = SimpleFileOptions::default().compression_method(zip::CompressionMethod::Stored);
    writer.start_file("good.txt", stored).unwrap();
    writer.write_all(b"fine").unwrap();
    writer.start_file("bad.txt", stored).unwrap();
    writer.write_all(b"ABCDEFGHIJ").unwrap();
    writer.start_file("after.txt", stored).unwrap();
    writer.write_all(b"late").unwrap();
    let mut bytes = writer.finish().unwrap().into_inner();

    let at = bytes.windows(10).position(|w| w == b"ABCDEFGHIJ").unwrap();
    bytes[at] = b'X';

    let failure = streamed_unzip(&bytes, "out", 3).unwrap_err();
    assert!(matches!(
        failure.error,
        ExtractError::UnreadableEntry { ref directory, index: 1, .. } if directory == "out"
    ));
    assert_eq!(failure.completed.files, vec![file("out/good.txt", b"fine")]);
}

#[test]
fn a_container_is_refused_when_its_own_directory_would_lead_outside() {
    let inner = container(&[("evil.txt", b"x")]);
    let outer = container(&[("ok.txt", b"1"), ("...zip", inner.as_slice())]);
    let failure = streamed_unzip(&outer, "out", 3).unwrap_err();
    assert_eq!(
        failure.error,
        ExtractError::PathTraversal { directory: "out".to_string(), entry: "...zip".to_string() }
    );
    assert_eq!(failure.completed.files, vec![file("out/ok.txt", b"1")]);
    assert_eq!(plan_entry("...zip", "out", 0), EntryPlan::Refuse);
    assert_eq!(plan_entry("a/../...zip", "out", 3), EntryPlan::Refuse);
}

#[test]
fn paths_never_lead_out_of_the_destination() {
    let deepest = container(&[("x/../y.txt", b"1"), ("./z/", b""), ("z/w.txt", b"2")]);
    let middle = container(&[("a/...zip", deepest.as_slice()), ("b/.zip", deepest.as_slice())]);
    let outer = container(&[("top/m.zip", middle.as_slice())]);
    let done = streamed_unzip(&outer, "out", 5).unwrap();
    let paths: Vec<&str> = done.files.iter().map(|f| f.path.as_str()).collect();
    assert_eq!(
        paths,
        vec![
            "out/top/m.zip",
            "out/top/m/a/...zip",
            "out/top/m/a/../x/../y.txt",
            "out/top/m/a/../z/w.txt",
            "out/top/m/b/.zip",
            "out/top/m/b/x/../y.txt",
            "out/top/m/b/z/w.txt",
        ]
    );
    for path in done.files.iter().map(|f| &f.path).chain(done.directories.iter()) {
        let rest = path.strip_prefix("out/").unwrap();
        let mut level = 0i64;
        for part in rest.split('/') {
            match part {
                ".." => level -= 1,
                "" | "." => {}
                _ => level += 1,
            }
            assert!(level >= 0, "{} leaves the destination", path);
        }
    }
}
