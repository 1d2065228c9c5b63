use website_status_checker::cli::{parse_args, ArgError, CliArgs, Flag, DEFAULT_TIMEOUT_SECS};
use website_status_checker::url_list::{select_url_lines, url_list_from_text};

fn strings(v: &[&str]) -> Vec<String> {
    v.iter().map(|s| s.to_string()).collect()
}

#[test]
fn no_arguments_is_refused() {
    assert_eq!(parse_args(&Vec::new(), 4), Err(ArgError::NoArguments));
}

#[test]
fn defaults_and_urls() {
    let got = parse_args(&strings(&["https://a.example", "https://b.example"]), 6).unwrap();
    assert_eq!(
        got,
        CliArgs {
            file: None,
            urls: strings(&["https://a.example", "https://b.example"]),
            workers: 6,
            timeout_secs: DEFAULT_TIMEOUT_SECS,
            retries: 0,
        }
    );
}

#[test]
fn options_take_their_values() {
    let got = parse_args(
        &strings(&["--workers", "8", "x", "--timeout", "+12", "--retries", "3", "--file", "s.txt", "y"]),
        2,
    )
    .unwrap();
    assert_eq!(got.workers, 8);
    assert_eq!(got.timeout_secs, 12);
    assert_eq!(got.retries, 3);
    assert_eq!(got.file, Some("s.txt".to_string()));
    assert_eq!(got.urls, strings(&["x", "y"]));
}

#[test]
fn later_option_wins() {
    let got = parse_args(&strings(&["--workers", "2", "--workers", "5"]), 1).unwrap();
    assert_eq!(got.workers, 5);
    assert!(got.urls.is_empty());
}

#[test]
fn option_without_value() {
    assert_eq!(parse_args(&strings(&["u", "--file"]), 1), Err(ArgError::MissingValue(Flag::File)));
    assert_eq!(parse_args(&strings(&["--retries"]), 1), Err(ArgError::MissingValue(Flag::Retries)));
}

#[test]
fn option_with_bad_number() {
    assert_eq!(parse_args(&strings(&["--workers", "many"]), 1), Err(ArgError::InvalidNumber(Flag::Workers)));
    assert_eq!(parse_args(&strings(&["--timeout", "-1"]), 1), Err(ArgError::InvalidNumber(Flag::Timeout)));
    assert_eq!(parse_args(&strings(&["--retries", "4294967296"]), 1), Err(ArgError::InvalidNumber(Flag::Retries)));
    assert_eq!(parse_args(&strings(&["--retries", "4294967295"]), 1).unwrap().retries, u32::MAX);
    assert_eq!(parse_args(&strings(&["--timeout", ""]), 1), Err(ArgError::InvalidNumber(Flag::Timeout)));
}

#[test]
fn url_file_lines_are_trimmed_and_filtered() {
    let text = "  https://a.example  \n# a comment\n\n\thttps://b.example\r\n   \nhttps://c.example";
    assert_eq!(
        url_list_from_text(text),
        strings(&["https://a.example", "https://b.example", "https://c.example"])
    );
    assert!(url_list_from_text("").is_empty());
    assert!(url_list_from_text("# only\n\n").is_empty());
}

#[test]
fn select_keeps_url_lines_in_order() {
    let lines = strings(&["b", "", "#x", "a", "#", "c#"]);
    assert_eq!(select_url_lines(&lines), strings(&["b", "a", "c#"]));
}
