use minigrep::Config;

#[test]
fn build_with_both_arguments() {
    let args = vec![
        String::from("minigrep"),
        String::from("Rust"),
        String::from("input.txt"),
    ];
    let config = Config::build(args, false).unwrap();
    assert_eq!(config.query, "Rust");
    assert_eq!(config.file_path, "input.txt");
    assert!(!config.ignore_case);
}

#[test]
fn build_keeps_the_case_flag() {
    let args = vec![
        String::from("minigrep"),
        String::from("Rust"),
        String::from("input.txt"),
    ];
    let config = Config::build(args, true).unwrap();
    assert!(config.ignore_case);
}

#[test]
fn build_without_any_positional_argument_is_an_error() {
    let result = Config::build(vec![String::from("minigrep")], false);
    assert_eq!(result.err().unwrap(), "Didn't get a query string");
}

#[test]
fn build_with_empty_argument_list_is_an_error() {
    let result = Config::build(Vec::new(), false);
    assert_eq!(result.err().unwrap(), "Didn't get a query string");
}

#[test]
fn build_with_one_positional_argument_is_an_error() {
    let args = vec![String::from("minigrep"), String::from("Rust")];
    let result = Config::build(args, false);
    assert_eq!(result.err().unwrap(), "Didn't get a file path");
}
