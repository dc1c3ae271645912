use lps::Config;
use lps::FileEntry;
use lps::LineMatch;
use lps::SearchResult;
use lps::format_match;
use lps::format_result;
use lps::find_files_by_name;
use lps::listing_results;
use lps::partition;
use lps::scan_file;

#[test]
fn a_bare_listing_entry_prints_only_the_path() {
    let r = SearchResult::FileOnly { path: String::from("/r/a.txt") };
    assert_eq!(format_result(&r), vec![String::from("/r/a.txt")]);
}

#[test]
fn a_match_line_is_indented_line_colon_column_content() {
    let m = LineMatch { line: 2, column: 1, content: String::from("hello") };
    assert_eq!(format_match(&m), "  2:1 hello");
}

#[test]
fn match_numbers_print_in_full() {
    let m = LineMatch { line: 123, column: 45, content: String::from("x") };
    assert_eq!(format_match(&m), "  123:45 x");
}

#[test]
fn zero_prints_as_a_single_digit() {
    let m = LineMatch { line: 10, column: 0, content: String::from("") };
    assert_eq!(format_match(&m), "  10:0 ");
}

#[test]
fn a_content_result_prints_the_path_then_each_match() {
    let r = SearchResult::FileWithMatches {
        path: String::from("/r/b.log"),
        matches: vec![
            LineMatch { line: 2, column: 1, content: String::from("hello") },
            LineMatch { line: 5, column: 3, content: String::from("a hello") },
        ],
    };
    let got = format_result(&r);
    assert_eq!(
        got,
        vec![
            String::from("/r/b.log"),
            String::from("  2:1 hello"),
            String::from("  5:3 a hello"),
        ]
    );
}

fn whole_run_output(
    entries: Vec<FileEntry>,
    contents: &[(&str, &[&str])],
    config: &Config,
) -> Vec<String> {
    let candidates = find_files_by_name(config, entries);
    let mut printed = Vec::new();
    match &config.content {
        None => {
            for r in listing_results(candidates) {
                printed.extend(format_result(&r));
            }
        }
        Some(pattern) => {
            for chunk in partition(candidates, config.dop) {
                for c in chunk {
                    let lines: Vec<String> = contents
                        .iter()
                        .find(|(p, _)| *p == c.path)
                        .map(|(_, ls)| ls.iter().map(|l| String::from(*l)).collect())
                        .unwrap_or_default();
                    if let Some(r) =
                        scan_file(c.path, &lines, pattern, config.ignore_content_case)
                    {
                        printed.extend(format_result(&r));
                    }
                }
            }
        }
    }
    printed
}

#[test]
fn whole_search_reports_the_expected_blocks() {
    let entries = vec![
        FileEntry { path: String::from("a.txt"), name: String::from("a.txt") },
        FileEntry { path: String::from("b.log"), name: String::from("b.log") },
    ];
    let contents: &[(&str, &[&str])] =
        &[("a.txt", &["hello world"]), ("b.log", &["foo", "hello"])];
    let config = Config {
        verbose: false,
        filename: None,
        ignore_filename_case: false,
        content: Some(String::from("hello")),
        ignore_content_case: false,
        dop: 1,
        root: String::from("."),
    };
    let printed = whole_run_output(entries, contents, &config);
    assert_eq!(
        printed,
        vec![
            String::from("a.txt"),
            String::from("  1:1 hello world"),
            String::from("b.log"),
            String::from("  2:1 hello"),
        ]
    );
}

#[test]
fn listing_results_keep_paths_in_order() {
    let files = vec![
        FileEntry { path: String::from("a"), name: String::from("a") },
        FileEntry { path: String::from("b"), name: String::from("b") },
    ];
    let rs = listing_results(files);
    assert_eq!(
        rs,
        vec![
            SearchResult::FileOnly { path: String::from("a") },
            SearchResult::FileOnly { path: String::from("b") },
        ]
    );
}

#[test]
fn empty_root_without_content_pattern_prints_nothing() {
    let config = Config {
        verbose: false,
        filename: Some(String::from("zzz")),
        ignore_filename_case: false,
        content: None,
        ignore_content_case: false,
        dop: 1,
        root: String::from("."),
    };
    let entries = vec![
        FileEntry { path: String::from("a.txt"), name: String::from("a.txt") },
    ];
    let printed = whole_run_output(entries, &[], &config);
    assert!(printed.is_empty());
}
