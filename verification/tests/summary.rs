use log_parser::{
    table_text, AsyncBatchReaderParserError, BufReaderParserError, ErrorSummary, JsonSummary,
    LogLineMetadata, Summary, TableRow,
};

fn size_of(snapshot: &JsonSummary, name: &str) -> Option<usize> {
    snapshot
        .type_size
        .iter()
        .find(|(key, _)| key == name)
        .map(|(_, bytes)| *bytes)
}

fn sorted_sizes(snapshot: &JsonSummary) -> Vec<(String, usize)> {
    let mut rows = snapshot.type_size.clone();
    rows.sort();
    rows
}

#[test]
fn a_new_summary_is_empty() {
    let summary = Summary::<AsyncBatchReaderParserError>::new();
    assert_eq!(summary.total_size(), 0);
    assert_eq!(summary.errors().total_errors(), 0);
    let snapshot = summary.to_json();
    assert_eq!(snapshot.total_size, 0);
    assert!(snapshot.type_size.is_empty());
    assert_eq!(snapshot.total_errors, 0);
    let summary = Summary::<BufReaderParserError>::default();
    assert_eq!(summary.total_size(), 0);
    assert_eq!(summary.errors().total_errors(), 0);
}

#[test]
fn accumulate_sums_per_name() {
    let mut summary = Summary::<BufReaderParserError>::new();
    summary.accumulate(&LogLineMetadata { name: b"a", bytes: 10 });
    summary.accumulate(&LogLineMetadata { name: b"b", bytes: 5 });
    summary.accumulate(&LogLineMetadata { name: b"a", bytes: 7 });
    let snapshot = summary.to_json();
    assert_eq!(snapshot.type_size.len(), 2);
    assert_eq!(size_of(&snapshot, "a"), Some(17));
    assert_eq!(size_of(&snapshot, "b"), Some(5));
    assert_eq!(snapshot.total_size, 22);
    assert_eq!(summary.total_size(), 22);
    assert_eq!(snapshot.total_errors, 0);
}

#[test]
fn register_error_keeps_the_index_or_the_number() {
    let mut indexed = Summary::<BufReaderParserError>::new();
    indexed.register_error(4);
    indexed.register_error(9);
    assert_eq!(indexed.errors().total_errors(), 2);
    assert_eq!(indexed.errors().error_lines(), &vec![4, 9]);
    assert_eq!(indexed.total_size(), 0);

    let mut counted = Summary::<AsyncBatchReaderParserError>::new();
    counted.register_error(1);
    counted.register_error(1);
    counted.register_error(3);
    assert_eq!(counted.errors().total_errors(), 5);
    assert_eq!(counted.to_json().total_errors, 5);
}

#[test]
fn combine_sums_key_by_key() {
    let mut first = Summary::<AsyncBatchReaderParserError>::new();
    first.accumulate(&LogLineMetadata { name: b"a", bytes: 10 });
    first.accumulate(&LogLineMetadata { name: b"b", bytes: 1 });
    first.register_error(1);
    let mut second = Summary::<AsyncBatchReaderParserError>::new();
    second.accumulate(&LogLineMetadata { name: b"b", bytes: 2 });
    second.accumulate(&LogLineMetadata { name: b"c", bytes: 3 });
    second.register_error(1);
    second.register_error(1);
    first.combine(second);
    let snapshot = first.to_json();
    assert_eq!(
        sorted_sizes(&snapshot),
        vec![
            ("a".to_string(), 10),
            ("b".to_string(), 3),
            ("c".to_string(), 3)
        ]
    );
    assert_eq!(snapshot.total_size, 16);
    assert_eq!(snapshot.total_errors, 3);
}

fn part(rows: &[(&[u8], usize)], errors: usize) -> Summary<AsyncBatchReaderParserError> {
    let mut summary = Summary::new();
    for (name, bytes) in rows {
        summary.accumulate(&LogLineMetadata { name, bytes: *bytes });
    }
    for _ in 0..errors {
        summary.register_error(1);
    }
    summary
}

#[test]
fn combine_is_commutative_and_associative() {
    let a: &[(&[u8], usize)] = &[(b"x", 1), (b"y", 2)];
    let b: &[(&[u8], usize)] = &[(b"y", 10), (b"z", 20)];
    let c: &[(&[u8], usize)] = &[(b"x", 100), (b"z", 200), (b"w", 300)];

    let mut left = part(a, 1);
    left.combine(part(b, 2));
    left.combine(part(c, 3));

    let mut inner = part(b, 2);
    inner.combine(part(c, 3));
    let mut right = part(a, 1);
    right.combine(inner);

    let mut swapped = part(c, 3);
    swapped.combine(part(a, 1));
    swapped.combine(part(b, 2));

    let expected = vec![
        ("w".to_string(), 300),
        ("x".to_string(), 101),
        ("y".to_string(), 12),
        ("z".to_string(), 220),
    ];
    for summary in [&left, &right, &swapped] {
        let snapshot = summary.to_json();
        assert_eq!(sorted_sizes(&snapshot), expected);
        assert_eq!(snapshot.total_size, 633);
        assert_eq!(snapshot.total_errors, 6);
    }
}

#[test]
fn combine_of_error_lines_appends() {
    let mut first = Summary::<BufReaderParserError>::new();
    first.register_error(7);
    let mut second = Summary::<BufReaderParserError>::new();
    second.register_error(2);
    second.register_error(5);
    first.combine(second);
    assert_eq!(first.errors().error_lines(), &vec![7, 2, 5]);
    assert_eq!(first.errors().total_errors(), 3);
}

#[test]
fn the_snapshot_survives_a_document() {
    let mut summary = Summary::<AsyncBatchReaderParserError>::new();
    summary.accumulate(&LogLineMetadata { name: b"alpha", bytes: 1_000_000_007 });
    summary.accumulate(&LogLineMetadata { name: "b\u{e9}ta".as_bytes(), bytes: 42 });
    summary.accumulate(&LogLineMetadata { name: b"", bytes: 1 });
    summary.register_error(1);
    let snapshot = summary.to_json();

    let mut sizes = serde_json::Map::new();
    for (name, bytes) in &snapshot.type_size {
        sizes.insert(name.clone(), serde_json::Value::from(*bytes as u64));
    }
    let mut document = serde_json::Map::new();
    document.insert("total_size".to_string(), serde_json::Value::from(snapshot.total_size as u64));
    document.insert("type_size".to_string(), serde_json::Value::Object(sizes));
    document.insert(
        "total_errors".to_string(),
        serde_json::Value::from(snapshot.total_errors as u64),
    );
    let text = serde_json::to_string_pretty(&serde_json::Value::Object(document)).unwrap();

    let read: serde_json::Value = serde_json::from_str(&text).unwrap();
    assert_eq!(read["total_size"].as_u64(), Some(1_000_000_050));
    assert_eq!(read["total_errors"].as_u64(), Some(1));
    let read_sizes = read["type_size"].as_object().unwrap();
    assert_eq!(read_sizes.len(), 3);
    assert_eq!(read_sizes["alpha"].as_u64(), Some(1_000_000_007));
    assert_eq!(read_sizes["b\u{e9}ta"].as_u64(), Some(42));
    assert_eq!(read_sizes[""].as_u64(), Some(1));
    assert_eq!(summary.total_size(), 1_000_000_050);
}

#[test]
fn names_that_are_no_text_are_replaced() {
    let mut summary = Summary::<AsyncBatchReaderParserError>::new();
    summary.accumulate(&LogLineMetadata { name: b"a\xffb", bytes: 3 });
    let snapshot = summary.to_json();
    assert_eq!(snapshot.type_size, vec![("a\u{fffd}b".to_string(), 3)]);
}

#[test]
fn the_table_lists_the_greatest_first() {
    let mut summary = Summary::<BufReaderParserError>::new();
    summary.accumulate(&LogLineMetadata { name: b"small", bytes: 20 });
    summary.accumulate(&LogLineMetadata { name: b"large", bytes: 1500 });
    summary.accumulate(&LogLineMetadata { name: b"mid", bytes: 999 });
    assert_eq!(
        summary.to_string(),
        "large   1.5 KB\nmid     999 B\nsmall   20 B\nTotal:  2.5 KB"
    );
}

#[test]
fn equal_sizes_keep_their_order() {
    let mut summary = Summary::<BufReaderParserError>::new();
    summary.accumulate(&LogLineMetadata { name: b"b", bytes: 5 });
    summary.accumulate(&LogLineMetadata { name: b"a", bytes: 5 });
    summary.accumulate(&LogLineMetadata { name: b"c", bytes: 6 });
    assert_eq!(summary.to_string(), "c       6 B\nb       5 B\na       5 B\nTotal:  16 B");
}

#[test]
fn the_table_of_an_empty_summary_is_its_total() {
    let summary = Summary::<BufReaderParserError>::new();
    assert_eq!(summary.to_string(), "Total:  0 B");
}

#[test]
fn table_text_parts_the_columns_by_tabs() {
    let rows = vec![
        TableRow { label: "X".to_string(), size: "20 B".to_string() },
        TableRow { label: "Y".to_string(), size: "1 B".to_string() },
    ];
    assert_eq!(table_text(&rows, "21 B"), "X\t20 B\nY\t1 B\nTotal:\t21 B");
    assert_eq!(table_text(&Vec::new(), "0 B"), "Total:\t0 B");
}

#[test]
fn diagnostics_of_error_lines() {
    let mut errors = BufReaderParserError::new();
    assert!(errors.diagnostics().is_empty());
    errors.accumulate(12);
    assert_eq!(errors.diagnostics(), vec!["Failed to parse line 12".to_string(), String::new()]);
    errors.accumulate(3);
    errors.accumulate(7);
    assert_eq!(
        errors.diagnostics(),
        vec![
            "Failed to parse the following lines:".to_string(),
            "3".to_string(),
            "7".to_string(),
            "12".to_string(),
            String::new()
        ]
    );
}

#[test]
fn diagnostics_of_an_error_count() {
    let mut errors = AsyncBatchReaderParserError::new();
    assert!(errors.diagnostics().is_empty());
    errors.accumulate(1);
    assert_eq!(errors.diagnostics(), vec!["1 line could not be parsed\n".to_string()]);
    errors.accumulate(1);
    assert_eq!(errors.diagnostics(), vec!["2 lines could not be parsed\n".to_string()]);
    let mut other = AsyncBatchReaderParserError::new();
    other.accumulate(40);
    errors.combine(other);
    assert_eq!(errors.total_errors(), 42);
}

#[test]
fn sizes_are_written_with_a_unit() {
    let mut summary = Summary::<BufReaderParserError>::new();
    summary.accumulate(&LogLineMetadata { name: b"tiny", bytes: 0 });
    summary.accumulate(&LogLineMetadata { name: b"most", bytes: 999 });
    summary.accumulate(&LogLineMetadata { name: b"kilo", bytes: 1000 });
    summary.accumulate(&LogLineMetadata { name: b"mega", bytes: 2_500_000 });
    assert_eq!(
        summary.to_string(),
        "mega    2.5 MB\nkilo    1.0 KB\nmost    999 B\ntiny    0 B\nTotal:  2.5 MB"
    );
}
