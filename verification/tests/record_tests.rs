use omni_ingest::record::{parse_record, ParseError, Record, FIELD_COUNT};

const SAMPLE: &str = "1995 15 3 42 71 71 27 27 99 14 -99 2 1 1998 6.5 6.2 1.1 -0.3 1.0 -0.2 0.12 0.08 420 -410 -15 3 5.1 120000 1.8 900 -0.01 1.2 3.5 210 5 12 45 30 25 8 6 3 2 0.15 3.2";

fn numbered(n: usize) -> String {
    let parts: Vec<String> = (0..n).map(|i| i.to_string()).collect();
    parts.join(" ")
}

#[test]
fn field_count_is_44() {
    assert_eq!(FIELD_COUNT, 44);
}

#[test]
fn parse_drops_the_year_and_keeps_the_rest_in_order() {
    let record = parse_record(SAMPLE).unwrap();
    let expected: Vec<String> = SAMPLE.split(' ').skip(1).map(|t| t.to_string()).collect();
    assert_eq!(record.values(), &expected);
    assert_eq!(record.values().len(), 44);
    assert_eq!(record.day(), "15");
    assert_eq!(record.hour(), "3");
    assert_eq!(record.minute(), "42");
    assert_eq!(record.value(3), "71");
    assert_eq!(record.value(9), "-99");
    assert_eq!(record.value(43), "3.2");
}

#[test]
fn parse_accepts_any_whitespace_between_tokens() {
    let spaced = SAMPLE.replace(' ', " \t ");
    let record = parse_record(&format!("  {}\r", spaced)).unwrap();
    assert_eq!(record.values(), parse_record(SAMPLE).unwrap().values());
}

#[test]
fn parse_rejects_a_blank_line() {
    assert_eq!(parse_record("").unwrap_err(), ParseError::MissingYear);
    assert_eq!(parse_record("   \t").unwrap_err(), ParseError::MissingYear);
}

#[test]
fn parse_rejects_too_few_tokens() {
    assert_eq!(parse_record("1995").unwrap_err(), ParseError::FieldCount { found: 0 });
    assert_eq!(parse_record("1995 15 3 42").unwrap_err(), ParseError::FieldCount { found: 3 });
    assert_eq!(parse_record(&numbered(44)).unwrap_err(), ParseError::FieldCount { found: 43 });
}

#[test]
fn parse_rejects_too_many_tokens() {
    assert_eq!(parse_record(&numbered(46)).unwrap_err(), ParseError::FieldCount { found: 45 });
}

#[test]
fn parse_accepts_exactly_one_token_for_each_column() {
    let record = parse_record(&numbered(45)).unwrap();
    assert_eq!(record.day(), "1");
    assert_eq!(record.value(43), "44");
}

#[test]
fn from_tokens_is_parse_after_tokenizing() {
    let tokens: Vec<String> = SAMPLE.split(' ').map(|t| t.to_string()).collect();
    let record = Record::from_tokens(tokens).unwrap();
    assert_eq!(record.values(), parse_record(SAMPLE).unwrap().values());
    assert_eq!(Record::from_tokens(Vec::new()).unwrap_err(), ParseError::MissingYear);
    assert_eq!(
        Record::from_tokens(vec!["1995".to_string(), "1".to_string()]).unwrap_err(),
        ParseError::FieldCount { found: 1 }
    );
}

#[test]
fn written_line_is_read_back() {
    let values: Vec<String> = (1..=44).map(|i| format!("{}.5", i)).collect();
    let mut words = vec!["2024".to_string()];
    words.extend(values.iter().cloned());
    let record = parse_record(&words.join("\t ")).unwrap();
    assert_eq!(record.values(), &values);
}
