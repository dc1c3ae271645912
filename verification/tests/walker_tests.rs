use lps::Config;
use lps::FileEntry;
use lps::filename_matches;
use lps::find_files_by_name;

fn entry(path: &str, name: &str) -> FileEntry {
    FileEntry { path: String::from(path), name: String::from(name) }
}

fn request(pattern: Option<&str>, ignore_case: bool) -> Config {
    Config {
        verbose: false,
        filename: pattern.map(String::from),
        ignore_filename_case: ignore_case,
        content: None,
        ignore_content_case: false,
        dop: 1,
        root: String::from("/r"),
    }
}

fn sample_entries() -> Vec<FileEntry> {
    vec![
        entry("/r/a.txt", "a.txt"),
        entry("/r/b.log", "b.log"),
        entry("/r/sub/c.LOG", "c.LOG"),
    ]
}

#[test]
fn no_pattern_keeps_every_file() {
    let got = find_files_by_name(&request(None, false), sample_entries());
    assert_eq!(got.len(), 3);
}

#[test]
fn pattern_keeps_only_matching_names() {
    let got = find_files_by_name(&request(Some("log"), false), sample_entries());
    assert_eq!(got.len(), 1);
    assert_eq!(got[0].path, "/r/b.log");
    assert_eq!(got[0].name, "b.log");
}

#[test]
fn pattern_is_case_sensitive_by_default() {
    let got = find_files_by_name(&request(Some("LOG"), false), sample_entries());
    assert_eq!(got.len(), 1);
    assert_eq!(got[0].name, "c.LOG");
}

#[test]
fn ignore_case_widens_the_matches() {
    let sensitive = find_files_by_name(&request(Some("log"), false), sample_entries());
    let folded = find_files_by_name(&request(Some("log"), true), sample_entries());
    assert_eq!(sensitive.len(), 1);
    assert_eq!(folded.len(), 2);
    for kept in &sensitive {
        assert!(folded.iter().any(|e| e.path == kept.path));
    }
}

#[test]
fn no_matching_files_yields_an_empty_candidate_list() {
    let got = find_files_by_name(&request(Some("zzz"), false), sample_entries());
    assert!(got.is_empty());
}

#[test]
fn order_of_candidates_is_kept() {
    let got = find_files_by_name(&request(Some(".l"), true), sample_entries());
    assert_eq!(got.len(), 2);
    assert_eq!(got[0].name, "b.log");
    assert_eq!(got[1].name, "c.LOG");
}

#[test]
fn name_match_is_a_substring_match() {
    assert!(filename_matches("report.txt", &Some(String::from("port")), false));
    assert!(!filename_matches("report.txt", &Some(String::from("Port")), false));
    assert!(filename_matches("report.txt", &Some(String::from("Port")), true));
    assert!(filename_matches("anything", &None, false));
}
