use minigrep::{search, search_case_insensitive, search_with_mode};

#[test]
fn one_result() {
    let query = "duct";
    let contents = "Rust:\nsafe, fast, productive.\nPick three.\nDuct tape.";
    assert_eq!(vec!["safe, fast, productive."], search(query, contents));
}

#[test]
fn case_insensitive_two_results() {
    let query = "rUsT";
    let contents = "Rust:\nsafe, fast, productive.\nPick three.\nTrust me.";
    assert_eq!(
        vec!["Rust:", "Trust me."],
        search_case_insensitive(query, contents)
    );
}

#[test]
fn no_match_in_either_mode() {
    assert_eq!(search("xyz", "abc\ndef"), Vec::<&str>::new());
    assert_eq!(search_case_insensitive("xyz", "abc\ndef"), Vec::<&str>::new());
}

#[test]
fn empty_query_matches_every_line() {
    let contents = "Rust:\nsafe, fast, productive.\nPick three.";
    assert_eq!(
        vec!["Rust:", "safe, fast, productive.", "Pick three."],
        search("", contents)
    );
}

#[test]
fn empty_query_matches_every_line_case_insensitive() {
    assert_eq!(vec!["Ab", "Cd"], search_case_insensitive("", "Ab\nCd"));
}

#[test]
fn empty_text_matches_nothing() {
    assert_eq!(search("Rust", ""), Vec::<&str>::new());
    assert_eq!(search_case_insensitive("Rust", ""), Vec::<&str>::new());
}

#[test]
fn case_insensitive_finds_at_least_as_much() {
    let query = "rUsT";
    let contents = "Rust:\nsafe, fast, productive.\nPick three.\nTrust me.";
    assert!(search(query, contents).len() <= search_case_insensitive(query, contents).len());
}

#[test]
fn trailing_newline_adds_no_extra_line() {
    assert_eq!(vec!["a", "b"], search("", "a\nb\n"));
}

#[test]
fn blank_lines_are_kept() {
    assert_eq!(vec!["a", "", "b"], search("", "a\n\nb"));
}

#[test]
fn matched_lines_keep_their_original_case() {
    assert_eq!(
        vec!["DUCT TAPE"],
        search_case_insensitive("duct", "DUCT TAPE\nnothing here")
    );
}

#[test]
fn non_ascii_query_is_folded() {
    assert_eq!(
        vec!["\u{c4}rger"],
        search_case_insensitive("\u{e4}RGER", "\u{c4}rger\nanger")
    );
}

#[test]
fn mode_flag_selects_the_operation() {
    let contents = "Rust:\nTrust me.";
    assert_eq!(search_with_mode("rUsT", contents, false), Vec::<&str>::new());
    assert_eq!(
        vec!["Rust:", "Trust me."],
        search_with_mode("rUsT", contents, true)
    );
}
