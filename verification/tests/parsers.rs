use log_parser::parsers::json_parser::{JsonParserError, LogLine};
use log_parser::{
    find_char, find_subsequence, CharParser, JsonParser, Parser, RegexParser, StringParser,
};

#[test]
fn char_parser_test_string_parse() {
    let line = b"{\"type\":\"some_complicated_TYPE123\",\"message\":\"Hello, world!\"}";
    let result = CharParser::parse(line).unwrap();
    println!("IM {}", String::from_utf8_lossy(result.name));
    assert_eq!(result.name, b"some_complicated_TYPE123");
    assert_eq!(result.bytes, line.len());
}

#[test]
fn char_parser_test_string_parse_no_type() {
    let line = b"{\"message\":\"Hello, world!\"}";
    let result = CharParser::parse(line);
    assert!(result.is_err());
}

#[test]
fn test_parse_line() {
    let line = b"{\"type\":\"test\",\"value\":\"test\"}";
    let metadata = JsonParser::parse(line).unwrap();
    assert_eq!(metadata.name, b"test");
    assert_eq!(metadata.bytes, line.len());
}

#[test]
fn test_parse_invalid_line() {
    let line = b"{\"typ\":\"test\",\"value\":\"test\"}";
    assert!(JsonParser::parse(line).is_err());
    let line = b"{\"type\":1,\"value\":\"test\"}";
    assert!(JsonParser::parse(line).is_err());
    let line = b"{\"type\":\"test\",\"value\":\"test\"";
    assert!(JsonParser::parse(line).is_err());
}

#[test]
fn test_regex_parse() {
    let line = b"{\"type\":\"some_complicated_TYPE123\",\"message\":\"Hello, world!\"}";
    let result = RegexParser::parse(line).unwrap();
    assert_eq!(result.name, b"some_complicated_TYPE123");
    assert_eq!(result.bytes, line.len());
}

#[test]
fn test_regex_parse_no_type() {
    let line = b"{\"message\":\"Hello, world!\"}";
    let result = RegexParser::parse(line);
    assert!(result.is_err());
}

#[test]
fn string_parser_test_string_parse() {
    let line = b"{\"type\":\"some_complicated_TYPE123\",\"message\":\"Hello, world!\"}";
    let result = StringParser::parse(line).unwrap();
    println!("IM {}", String::from_utf8_lossy(result.name));
    assert_eq!(result.name, b"some_complicated_TYPE123");
    assert_eq!(result.bytes, line.len());
}

#[test]
fn string_parser_test_string_parse_no_type() {
    let line = b"{\"message\":\"Hello, world!\"}";
    let result = StringParser::parse(line);
    assert!(result.is_err());
}

#[test]
fn json_errors_tell_the_cause() {
    assert_eq!(
        JsonParser::parse(b"{\"typ\":\"test\"}").unwrap_err(),
        JsonParserError::MissingType
    );
    assert_eq!(
        JsonParser::parse(b"{\"type\":1}").unwrap_err(),
        JsonParserError::InvalidType
    );
    assert_eq!(
        JsonParser::parse(b"{\"type\":\"a\\nb\"}").unwrap_err(),
        JsonParserError::InvalidType
    );
    assert_eq!(
        JsonParser::parse(b"{\"type\":\"test\"").unwrap_err(),
        JsonParserError::Malformed
    );
    assert_eq!(
        JsonParser::parse(b"[\"test\"]").unwrap_err(),
        JsonParserError::Malformed
    );
}

#[test]
fn json_reads_the_type_wherever_it_stands() {
    let line = b" { \"value\" : [1, {\"type\":\"inner\"}], \"type\" : \"outer\" }\n";
    let metadata = JsonParser::parse(line).unwrap();
    assert_eq!(metadata.name, b"outer");
    assert_eq!(metadata.bytes, line.len());
}

#[test]
fn log_line_from_member() {
    assert_eq!(LogLine::from_member(b"\"x\"").unwrap().typ, b"x");
    assert_eq!(LogLine::from_member(b"\"\"").unwrap().typ, b"");
    assert!(LogLine::from_member(b"\"").is_none());
    assert!(LogLine::from_member(b"12").is_none());
    assert!(LogLine::from_member(b"\"a\\\"b\"").is_none());
}

#[test]
fn a_name_that_no_quote_closes_is_no_name() {
    let line = b"{\"type\":\"unterminated";
    assert!(StringParser::parse(line).is_err());
    assert!(CharParser::parse(line).is_err());
    assert!(RegexParser::parse(line).is_err());
    assert!(JsonParser::parse(line).is_err());
    let line = b"{\"type\":";
    assert!(StringParser::parse(line).is_err());
    assert!(CharParser::parse(line).is_err());
    assert!(RegexParser::parse(line).is_err());
}

#[test]
fn blanks_before_the_name_are_passed_over() {
    let line = b"{\"type\": \t\"spaced\", \"v\": 1}\n";
    assert_eq!(StringParser::parse(line).unwrap().name, b"spaced");
    assert_eq!(CharParser::parse(line).unwrap().name, b"spaced");
    assert_eq!(RegexParser::parse(line).unwrap().name, b"spaced");
    assert_eq!(JsonParser::parse(line).unwrap().name, b"spaced");
    assert_eq!(RegexParser::parse(line).unwrap().bytes, line.len());
}

#[test]
fn the_first_key_counts() {
    let line = b"{\"a\":{\"type\":\"first\"},\"type\":\"second\"}";
    assert_eq!(StringParser::parse(line).unwrap().name, b"first");
    assert_eq!(CharParser::parse(line).unwrap().name, b"first");
    assert_eq!(RegexParser::parse(line).unwrap().name, b"first");
    assert_eq!(JsonParser::parse(line).unwrap().name, b"second");
}

#[test]
fn an_empty_name() {
    let line = b"{\"type\":\"\"}";
    assert_eq!(StringParser::parse(line).unwrap().name, b"");
    assert_eq!(CharParser::parse(line).unwrap().name, b"");
    assert_eq!(JsonParser::parse(line).unwrap().name, b"");
    assert!(RegexParser::parse(line).is_err());
}

#[test]
fn a_scan_takes_the_next_quoted_run() {
    let line = b"{\"type\":1,\"v\":\"y\"}";
    assert_eq!(StringParser::parse(line).unwrap().name, b"v");
    assert_eq!(CharParser::parse(line).unwrap().name, b"v");
    assert!(RegexParser::parse(line).is_err());
}

#[test]
fn find_subsequence_finds_the_first() {
    assert_eq!(find_subsequence(b"abcabc", b"bc"), Some(1));
    assert_eq!(find_subsequence(b"abcabc", b"abcabc"), Some(0));
    assert_eq!(find_subsequence(b"abcabc", b"cb"), None);
    assert_eq!(find_subsequence(b"ab", b"abc"), None);
    assert_eq!(find_subsequence(b"", b"a"), None);
    assert_eq!(find_char(b"abcabc", b'c'), Some(2));
    assert_eq!(find_char(b"abcabc", b'x'), None);
    assert_eq!(find_char(b"", b'x'), None);
}
