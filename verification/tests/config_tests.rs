use lps::Config;
use lps::ConfigError;

fn base_config(dop_arg: Option<String>, root_arg: Option<String>, root_is_dir: bool) -> Result<Config, ConfigError> {
    Config::new(
        false,
        None,
        false,
        None,
        false,
        dop_arg,
        root_arg,
        root_is_dir,
        String::from("/work"),
    )
}

#[test]
fn dop_given_is_parsed() {
    let c = base_config(Some(String::from("4")), None, false).unwrap();
    assert_eq!(c.dop, 4);
}

#[test]
fn dop_zero_is_rejected() {
    let r = base_config(Some(String::from("0")), None, false);
    assert_eq!(r.unwrap_err(), ConfigError::InvalidDop);
}

#[test]
fn dop_non_numeric_is_rejected() {
    let r = base_config(Some(String::from("abc")), None, false);
    assert_eq!(r.unwrap_err(), ConfigError::InvalidDop);
}

#[test]
fn dop_empty_is_rejected() {
    let r = base_config(Some(String::from("")), None, false);
    assert_eq!(r.unwrap_err(), ConfigError::InvalidDop);
}

#[test]
fn dop_overflowing_is_rejected() {
    let r = base_config(Some(String::from("99999999999999999999999999")), None, false);
    assert_eq!(r.unwrap_err(), ConfigError::InvalidDop);
}

#[test]
fn dop_default_is_at_least_one() {
    let c = base_config(None, None, false).unwrap();
    assert!(c.dop >= 1);
}

#[test]
fn root_that_is_no_directory_is_rejected() {
    let r = base_config(None, Some(String::from("/nowhere")), false);
    assert_eq!(r.unwrap_err(), ConfigError::InvalidRoot);
}

#[test]
fn root_that_is_a_directory_is_kept() {
    let c = base_config(None, Some(String::from("/somewhere")), true).unwrap();
    assert_eq!(c.root, "/somewhere");
}

#[test]
fn root_defaults_to_cwd() {
    let c = base_config(None, None, false).unwrap();
    assert_eq!(c.root, "/work");
}

#[test]
fn bad_dop_is_reported_before_bad_root() {
    let r = base_config(Some(String::from("x")), Some(String::from("/nowhere")), false);
    assert_eq!(r.unwrap_err(), ConfigError::InvalidDop);
}

#[test]
fn fields_are_copied_into_the_request() {
    let c = Config::new(
        true,
        Some(String::from("needle")),
        true,
        Some(String::from("body")),
        true,
        Some(String::from("2")),
        None,
        false,
        String::from("/cwd"),
    )
    .unwrap();
    assert!(c.verbose);
    assert_eq!(c.filename.as_deref(), Some("needle"));
    assert!(c.ignore_filename_case);
    assert_eq!(c.content.as_deref(), Some("body"));
    assert!(c.ignore_content_case);
    assert_eq!(c.dop, 2);
    assert_eq!(c.root, "/cwd");
}
