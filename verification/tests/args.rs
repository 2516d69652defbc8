use xmeans::args::{parse_args, Mode, ParseArgsError, ParsedArgs};

const USAGE: &str =
    "Usage: xmeans <data_file_path> [-k <number>] [--mink <number] [--delim <string>]";

fn line(words: &[&str]) -> Vec<String> {
    words.iter().map(|w| w.to_string()).collect()
}

fn parsed(words: &[&str]) -> ParsedArgs {
    match parse_args(line(words)) {
        Ok(found) => found,
        Err(e) => panic!("refused: {:?}", e),
    }
}

fn refused(words: &[&str]) -> ParseArgsError {
    match parse_args(line(words)) {
        Ok(found) => panic!("accepted: {:?}", found),
        Err(e) => e,
    }
}

#[test]
fn defaults_apply_when_only_a_file_is_named() {
    let found = parsed(&["xmeans", "points.csv"]);
    assert_eq!(found.k, 0);
    assert_eq!(found.min_k, 2);
    assert_eq!(found.delim, b',');
    assert_eq!(found.file_path, "points.csv");
}

#[test]
fn the_program_name_is_passed_over() {
    let found = parsed(&["-k", "points.csv"]);
    assert_eq!(found.k, 0);
    assert_eq!(found.file_path, "points.csv");
}

#[test]
fn both_spellings_of_k_set_the_fixed_count() {
    assert_eq!(parsed(&["xmeans", "a.csv", "-k", "7"]).k, 7);
    assert_eq!(parsed(&["xmeans", "--k", "12", "a.csv"]).k, 12);
}

#[test]
fn all_spellings_of_mink_set_the_starting_count() {
    assert_eq!(parsed(&["xmeans", "a.csv", "--mink", "3"]).min_k, 3);
    assert_eq!(parsed(&["xmeans", "a.csv", "-mink", "4"]).min_k, 4);
    assert_eq!(parsed(&["xmeans", "a.csv", "--mk", "5"]).min_k, 5);
    assert_eq!(parsed(&["xmeans", "a.csv", "-mk", "6"]).min_k, 6);
}

#[test]
fn delim_takes_one_byte() {
    let found = parsed(&["xmeans", "--delim", ";", "a.csv"]);
    assert_eq!(found.delim, b';');
    let tabbed = parsed(&["xmeans", "a.csv", "--delim", "\t"]);
    assert_eq!(tabbed.delim, b'\t');
}

#[test]
fn a_later_flag_overrides_an_earlier_one() {
    let found = parsed(&["xmeans", "-k", "3", "a.csv", "-k", "9", "--mink", "1", "--mink", "4"]);
    assert_eq!(found.k, 9);
    assert_eq!(found.min_k, 4);
}

#[test]
fn counts_may_carry_a_plus_sign_and_leading_zeros() {
    assert_eq!(parsed(&["xmeans", "a.csv", "-k", "+5"]).k, 5);
    assert_eq!(parsed(&["xmeans", "a.csv", "-k", "007"]).k, 7);
    assert_eq!(parsed(&["xmeans", "a.csv", "-k", "0"]).k, 0);
}

#[test]
fn the_largest_count_is_accepted_and_the_next_refused() {
    let largest = usize::MAX.to_string();
    assert_eq!(parsed(&["xmeans", "a.csv", "-k", &largest]).k, usize::MAX);
    let beyond = format!("{}0", largest);
    assert!(matches!(
        refused(&["xmeans", "a.csv", "-k", &beyond]),
        ParseArgsError::ParseIntError(_)
    ));
}

#[test]
fn missing_file_is_reported() {
    match refused(&["xmeans"]) {
        ParseArgsError::Missing(what) => assert_eq!(what, "file path"),
        other => panic!("unexpected error: {:?}", other),
    }
    match refused(&[]) {
        ParseArgsError::Missing(what) => assert_eq!(what, "file path"),
        other => panic!("unexpected error: {:?}", other),
    }
    match refused(&["xmeans", "-k", "3"]) {
        ParseArgsError::Missing(what) => assert_eq!(what, "file path"),
        other => panic!("unexpected error: {:?}", other),
    }
}

#[test]
fn a_flag_without_its_value_is_reported() {
    match refused(&["xmeans", "a.csv", "-k"]) {
        ParseArgsError::Missing(what) => assert_eq!(what, "k needs value"),
        other => panic!("unexpected error: {:?}", other),
    }
    match refused(&["xmeans", "a.csv", "--mink"]) {
        ParseArgsError::Missing(what) => assert_eq!(what, "mink needs value"),
        other => panic!("unexpected error: {:?}", other),
    }
    match refused(&["xmeans", "a.csv", "--delim"]) {
        ParseArgsError::Missing(what) => assert_eq!(what, "delim needs value"),
        other => panic!("unexpected error: {:?}", other),
    }
}

#[test]
fn a_value_that_is_no_count_is_reported() {
    for bad in ["abc", "", "-1", "1.5", " 3", "3 ", "1_000", "+", "++1"] {
        assert!(
            matches!(refused(&["xmeans", "a.csv", "-k", bad]), ParseArgsError::ParseIntError(_)),
            "{:?} was taken for a count",
            bad
        );
        assert!(
            matches!(refused(&["xmeans", "a.csv", "--mink", bad]), ParseArgsError::ParseIntError(_)),
            "{:?} was taken for a count",
            bad
        );
    }
}

#[test]
fn a_flag_takes_the_next_argument_whatever_it_is() {
    assert!(matches!(
        refused(&["xmeans", "-k", "a.csv"]),
        ParseArgsError::ParseIntError(_)
    ));
    let found = parsed(&["xmeans", "--delim", "-", "a.csv"]);
    assert_eq!(found.delim, b'-');
}

#[test]
fn a_delimiter_of_several_bytes_is_refused() {
    for bad in ["ab", ";;", "\u{e9}", ""] {
        match refused(&["xmeans", "a.csv", "--delim", bad]) {
            ParseArgsError::Bad(what) => assert_eq!(what, "delim must be a single character"),
            other => panic!("unexpected error: {:?}", other),
        }
    }
}

#[test]
fn a_second_file_is_an_unknown_argument() {
    match refused(&["xmeans", "a.csv", "b.csv"]) {
        ParseArgsError::Bad(what) => assert_eq!(what, "unknown argument b.csv"),
        other => panic!("unexpected error: {:?}", other),
    }
    match refused(&["xmeans", "a.csv", "--verbose"]) {
        ParseArgsError::Bad(what) => assert_eq!(what, "unknown argument --verbose"),
        other => panic!("unexpected error: {:?}", other),
    }
}

#[test]
fn an_empty_argument_names_no_file() {
    let found = parsed(&["xmeans", "", "a.csv"]);
    assert_eq!(found.file_path, "a.csv");
    match refused(&["xmeans", ""]) {
        ParseArgsError::Missing(what) => assert_eq!(what, "file path"),
        other => panic!("unexpected error: {:?}", other),
    }
}

#[test]
fn a_file_that_is_no_csv_is_refused() {
    for bad in ["points.txt", "csv", ".cs", "points.csv.bak", "points.CSV", "a.csv "] {
        match refused(&["xmeans", bad]) {
            ParseArgsError::Bad(what) => {
                assert_eq!(what, format!("file ({}) is not a csv file", bad))
            }
            other => panic!("unexpected error: {:?}", other),
        }
    }
    assert_eq!(parsed(&["xmeans", ".csv"]).file_path, ".csv");
    assert_eq!(parsed(&["xmeans", "d\u{e9}j\u{e0}.csv"]).file_path, "d\u{e9}j\u{e0}.csv");
}

#[test]
fn the_first_fault_is_the_one_reported() {
    match refused(&["xmeans", "a.txt", "b.txt"]) {
        ParseArgsError::Bad(what) => assert_eq!(what, "unknown argument b.txt"),
        other => panic!("unexpected error: {:?}", other),
    }
    assert!(matches!(
        refused(&["xmeans", "-k", "x", "--delim"]),
        ParseArgsError::ParseIntError(_)
    ));
}

#[test]
fn messages_name_the_fault_and_the_usage() {
    let missing = refused(&["xmeans"]);
    assert_eq!(missing.to_string(), format!("Missing argument: file path\n{}", USAGE));
    let bad = refused(&["xmeans", "a.csv", "b.csv"]);
    assert_eq!(bad.to_string(), format!("Bad argument: unknown argument b.csv\n{}", USAGE));
}

#[test]
fn the_message_of_a_failed_number_quotes_its_error() {
    let failed = refused(&["xmeans", "a.csv", "-k", "abc"]);
    let detail = "abc".parse::<usize>().unwrap_err().to_string();
    assert_eq!(failed.to_string(), format!("Error parsing integer: {}", detail));
    let empty = refused(&["xmeans", "a.csv", "-k", ""]);
    let detail = "".parse::<usize>().unwrap_err().to_string();
    assert_eq!(empty.to_string(), format!("Error parsing integer: {}", detail));
}

#[test]
fn a_fixed_count_selects_plain_clustering() {
    assert_eq!(parsed(&["xmeans", "a.csv", "-k", "4"]).mode(), Mode::FixedK(4));
    assert_eq!(parsed(&["xmeans", "a.csv", "-k", "4", "--mink", "3"]).mode(), Mode::FixedK(4));
}

#[test]
fn without_a_fixed_count_the_search_starts_from_mink() {
    assert_eq!(parsed(&["xmeans", "a.csv"]).mode(), Mode::Adaptive(2));
    assert_eq!(parsed(&["xmeans", "a.csv", "--mink", "1"]).mode(), Mode::Adaptive(1));
    assert_eq!(parsed(&["xmeans", "a.csv", "-k", "0", "--mink", "5"]).mode(), Mode::Adaptive(5));
}
