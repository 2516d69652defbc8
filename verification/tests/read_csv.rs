use xmeans::read_csv::{flatten_records, read_csv_data, ReadCsvError};

fn texts(words: &[&str]) -> Vec<String> {
    words.iter().map(|w| w.to_string()).collect()
}

#[test]
fn records_are_laid_out_one_after_the_other() {
    let (fields, width) = read_csv_data("1,2\n3,4\n5,6\n", b',').unwrap();
    assert_eq!(fields, texts(&["1", "2", "3", "4", "5", "6"]));
    assert_eq!(width, 2);
}

#[test]
fn the_first_line_is_data_too() {
    let (fields, width) = read_csv_data("x,y\n1,2\n", b',').unwrap();
    assert_eq!(fields, texts(&["x", "y", "1", "2"]));
    assert_eq!(width, 2);
}

#[test]
fn the_delimiter_is_the_one_asked_for() {
    let (fields, width) = read_csv_data("1.5;2.5;3.5\n4;5;6", b';').unwrap();
    assert_eq!(fields, texts(&["1.5", "2.5", "3.5", "4", "5", "6"]));
    assert_eq!(width, 3);
    let (whole, one) = read_csv_data("1.5;2.5;3.5\n4;5;6", b',').unwrap();
    assert_eq!(whole, texts(&["1.5;2.5;3.5", "4;5;6"]));
    assert_eq!(one, 1);
}

#[test]
fn quotes_and_blank_lines_are_the_parsers_business() {
    let (fields, width) = read_csv_data("\"1,5\",2\n\n3,\" 4\"\r\n", b',').unwrap();
    assert_eq!(fields, texts(&["1,5", "2", "3", " 4"]));
    assert_eq!(width, 2);
}

#[test]
fn empty_text_is_an_empty_table() {
    let (fields, width) = read_csv_data("", b',').unwrap();
    assert!(fields.is_empty());
    assert_eq!(width, 0);
}

#[test]
fn records_of_unequal_length_are_refused() {
    match read_csv_data("1,2\n3\n", b',') {
        Err(ReadCsvError::Malformed(cause)) => {
            assert!(matches!(cause.kind(), csv::ErrorKind::UnequalLengths { .. }))
        }
        Ok(table) => panic!("accepted: {:?}", table),
    }
    assert!(read_csv_data("1\n2,3\n", b',').is_err());
}

#[test]
fn a_delimiter_inside_a_character_is_refused() {
    match read_csv_data("d\u{e9}j\u{e0},1\n", 0xa9) {
        Err(ReadCsvError::Malformed(cause)) => {
            assert!(matches!(cause.kind(), csv::ErrorKind::Utf8 { .. }))
        }
        Ok(table) => panic!("accepted: {:?}", table),
    }
}

#[test]
fn the_table_holds_whole_records() {
    for (text, delim) in [("1,2,3\n4,5,6\n", b','), ("a\tb\nc\td\ne\tf\n", b'\t'), ("7\n", b',')] {
        let (fields, width) = read_csv_data(text, delim).unwrap();
        assert!(width > 0);
        assert_eq!(fields.len() % width, 0);
        assert_eq!(fields.len() / width, text.lines().count());
    }
}

#[test]
fn flattening_takes_the_width_of_the_first_record_that_has_fields() {
    let records = vec![texts(&[]), texts(&["a", "b"]), texts(&["c"]), texts(&[])];
    let (fields, width) = flatten_records(&records);
    assert_eq!(fields, texts(&["a", "b", "c"]));
    assert_eq!(width, 2);
    let (none, zero) = flatten_records(&vec![]);
    assert!(none.is_empty());
    assert_eq!(zero, 0);
    let (still_none, still_zero) = flatten_records(&vec![texts(&[]), texts(&[])]);
    assert!(still_none.is_empty());
    assert_eq!(still_zero, 0);
}
