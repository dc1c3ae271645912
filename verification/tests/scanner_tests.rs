use lps::SearchResult;
use lps::scan_file;
use lps::scan_lines;

fn lines(texts: &[&str]) -> Vec<String> {
    texts.iter().map(|t| String::from(*t)).collect()
}

#[test]
fn single_line_match_at_column_one() {
    let got = scan_lines(&lines(&["hello world"]), "hello", false);
    assert_eq!(got.len(), 1);
    assert_eq!(got[0].line, 1);
    assert_eq!(got[0].column, 1);
    assert_eq!(got[0].content, "hello world");
}

#[test]
fn match_on_the_second_line() {
    let got = scan_lines(&lines(&["foo", "hello"]), "hello", false);
    assert_eq!(got.len(), 1);
    assert_eq!(got[0].line, 2);
    assert_eq!(got[0].column, 1);
    assert_eq!(got[0].content, "hello");
}

#[test]
fn column_is_the_first_occurrence() {
    let got = scan_lines(&lines(&["say hello, then hello again"]), "hello", false);
    assert_eq!(got.len(), 1);
    assert_eq!(got[0].column, 5);
}

#[test]
fn matches_on_lines_two_and_five_come_in_order() {
    let text = lines(&["aaa", "the needle", "bbb", "ccc", "a needle too", "ddd"]);
    let got = scan_lines(&text, "needle", false);
    assert_eq!(got.len(), 2);
    assert_eq!(got[0].line, 2);
    assert_eq!(got[1].line, 5);
    assert!(got[0].line < got[1].line);
}

#[test]
fn content_case_fold_finds_upper_case_text() {
    let text = lines(&["HELLO World"]);
    assert_eq!(scan_lines(&text, "hello", false).len(), 0);
    let got = scan_lines(&text, "hello", true);
    assert_eq!(got.len(), 1);
    assert_eq!(got[0].column, 1);
    assert_eq!(got[0].content, "HELLO World");
}

#[test]
fn repeated_scans_give_identical_matches() {
    let text = lines(&["alpha", "beta needle", "needle gamma"]);
    let first = scan_lines(&text, "needle", false);
    let second = scan_lines(&text, "needle", false);
    assert_eq!(first, second);
}

#[test]
fn file_without_matches_produces_no_result() {
    let text = lines(&["nothing", "to see"]);
    let got = scan_file(String::from("/r/a.txt"), &text, "needle", false);
    assert!(got.is_none());
}

#[test]
fn file_with_matches_produces_one_result() {
    let text = lines(&["foo", "hello"]);
    let got = scan_file(String::from("/r/b.log"), &text, "hello", false);
    match got {
        Some(SearchResult::FileWithMatches { path, matches }) => {
            assert_eq!(path, "/r/b.log");
            assert_eq!(matches.len(), 1);
            assert_eq!(matches[0].line, 2);
            assert_eq!(matches[0].column, 1);
        }
        other => panic!("unexpected result: {:?}", other),
    }
}

#[test]
fn empty_pattern_matches_every_line_at_column_one() {
    let got = scan_lines(&lines(&["abc", "d"]), "", false);
    assert_eq!(got.len(), 2);
    assert_eq!(got[0].line, 1);
    assert_eq!(got[0].column, 1);
    assert_eq!(got[1].line, 2);
    assert_eq!(got[1].column, 1);
}

#[test]
fn empty_file_produces_no_result() {
    let got = scan_file(String::from("/r/empty"), &Vec::new(), "x", false);
    assert!(got.is_none());
}
