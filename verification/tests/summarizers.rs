use log_parser::{
    summarize_batch, summarize_record, AsyncBatchReader, AsyncBatchReaderParserError,
    AsyncBufReaderSummarizer, AsyncBufReaderSummarizerError, BufReaderParserError, BufReaderRun,
    BufReaderSummarizer, CharParser, ErrorSummary, JsonParser, JsonSummary, LogParserError,
    MainParser, Parser, RegexParser, StringParser, Summarizer, Summary, DEFAULT_BATCH_SIZE,
    DEFAULT_BUFFER_CAPACITY, DEFAULT_DELIMITER, DEFAULT_REDUCER_CHANNEL_SIZE,
};

const LOG: &[u8] = b"{\"type\":\"A\",\"v\":\"1\"}\n{\"message\":\"Hello, world!\"}\n{\"type\":\"B\",\"v\":\"22\"}\n{\"type\":\"A\",\"v\":\"333\"}\nnot json\n{\"type\":\"C\"}";

fn sorted_sizes(snapshot: &JsonSummary) -> Vec<(String, usize)> {
    let mut rows = snapshot.type_size.clone();
    rows.sort();
    rows
}

fn expected_sizes() -> Vec<(String, usize)> {
    vec![("A".to_string(), 44), ("B".to_string(), 22), ("C".to_string(), 12)]
}

fn sequential<P: Parser>(input: &[u8]) -> Summary<BufReaderParserError> {
    match BufReaderSummarizer::default().summarize::<P>(input) {
        Ok(summary) => summary,
        Err(never) => match never {},
    }
}

#[test]
fn the_defaults() {
    assert_eq!(DEFAULT_DELIMITER, b'\n');
    assert_eq!(DEFAULT_BUFFER_CAPACITY, 1024);
    assert_eq!(DEFAULT_BATCH_SIZE, 1_048_576);
    assert_eq!(DEFAULT_REDUCER_CHANNEL_SIZE, 1024);
    let sync = BufReaderSummarizer::default();
    assert_eq!(sync.capacity(), 1024);
    assert_eq!(sync.delim(), b'\n');
    let sync = BufReaderSummarizer::new(16, b';');
    assert_eq!(sync.capacity(), 16);
    assert_eq!(sync.delim(), b';');
    let batched = AsyncBufReaderSummarizer::default();
    assert_eq!(batched.reducer_channel_size(), 1024);
    assert_eq!(batched.batch_size(), 1_048_576);
    assert_eq!(batched.delim(), b'\n');
    let batched = AsyncBufReaderSummarizer::new(2, 64, b';');
    assert_eq!(batched.reducer_channel_size(), 2);
    assert_eq!(batched.batch_size(), 64);
    assert_eq!(batched.delim(), b';');
}

#[test]
fn sequential_run_with_the_main_parser() {
    let summary = sequential::<MainParser>(LOG);
    let snapshot = summary.to_json();
    assert_eq!(sorted_sizes(&snapshot), expected_sizes());
    assert_eq!(snapshot.total_size, 78);
    assert_eq!(snapshot.total_errors, 2);
    assert_eq!(summary.errors().error_lines(), &vec![1, 4]);
}

fn every_byte_is_accounted_for<P: Parser>() {
    let summary = sequential::<P>(LOG);
    let snapshot = summary.to_json();
    // six records, four of them with a type: 21, 22, 23 and 12 bytes
    let parsed: usize = 21 + 22 + 23 + 12;
    let counted: usize = snapshot.type_size.iter().map(|(_, bytes)| *bytes).sum();
    assert_eq!(counted, parsed);
    assert_eq!(snapshot.total_size, parsed);
    assert_eq!(snapshot.total_errors, 6 - 4);
    assert_eq!(sorted_sizes(&snapshot), expected_sizes());
}

#[test]
fn every_strategy_accounts_for_every_record() {
    every_byte_is_accounted_for::<StringParser>();
    every_byte_is_accounted_for::<CharParser>();
    every_byte_is_accounted_for::<RegexParser>();
    every_byte_is_accounted_for::<JsonParser>();
}

fn a_record_without_type_is_one_failure<P: Parser>() {
    let summary = sequential::<P>(b"{\"message\":\"Hello, world!\"}");
    let snapshot = summary.to_json();
    assert!(snapshot.type_size.is_empty());
    assert_eq!(snapshot.total_size, 0);
    assert_eq!(snapshot.total_errors, 1);
    assert_eq!(summary.errors().error_lines(), &vec![0]);
}

#[test]
fn no_strategy_reads_a_type_where_there_is_none() {
    a_record_without_type_is_one_failure::<StringParser>();
    a_record_without_type_is_one_failure::<CharParser>();
    a_record_without_type_is_one_failure::<RegexParser>();
    a_record_without_type_is_one_failure::<JsonParser>();
}

fn a_record_counts_with_its_delimiter<P: Parser>() {
    let record = b"{\"type\":\"X\",\"v\":\"y\"}\n";
    let summary = sequential::<P>(record);
    let snapshot = summary.to_json();
    assert_eq!(snapshot.type_size, vec![("X".to_string(), record.len())]);
    assert_eq!(snapshot.type_size[0].1, 21);
    assert_eq!(snapshot.total_errors, 0);
}

#[test]
fn a_record_counts_with_its_delimiter_under_every_strategy() {
    a_record_counts_with_its_delimiter::<StringParser>();
    a_record_counts_with_its_delimiter::<CharParser>();
    a_record_counts_with_its_delimiter::<RegexParser>();
    a_record_counts_with_its_delimiter::<JsonParser>();
}

#[test]
fn an_empty_input_gives_an_empty_summary() {
    let summary = sequential::<StringParser>(b"");
    assert_eq!(summary.total_size(), 0);
    assert_eq!(summary.errors().total_errors(), 0);
    let summary = AsyncBufReaderSummarizer::default().summarize::<StringParser>(b"").unwrap();
    assert_eq!(summary.total_size(), 0);
    assert_eq!(summary.errors().total_errors(), 0);
}

#[test]
fn another_delimiter() {
    let input = b"{\"type\":\"A\"};{\"type\":\"B\"};x";
    let summary = match BufReaderSummarizer::new(8, b';').summarize::<StringParser>(input) {
        Ok(summary) => summary,
        Err(never) => match never {},
    };
    let snapshot = summary.to_json();
    assert_eq!(sorted_sizes(&snapshot), vec![("A".to_string(), 13), ("B".to_string(), 13)]);
    assert_eq!(summary.errors().error_lines(), &vec![2]);
}

#[test]
fn batches_agree_with_the_sequential_run() {
    let sequential = sequential::<StringParser>(LOG).to_json();
    // the longest record holds 28 bytes, its delimiter included
    for batch_size in 28..LOG.len() + 3 {
        let summary = AsyncBufReaderSummarizer::new(4, batch_size, b'\n')
            .summarize::<StringParser>(LOG)
            .unwrap();
        let snapshot = summary.to_json();
        assert_eq!(sorted_sizes(&snapshot), sorted_sizes(&sequential));
        assert_eq!(snapshot.total_size, sequential.total_size);
        assert_eq!(snapshot.total_errors, sequential.total_errors);
    }
}

#[test]
fn batches_merged_in_another_order_give_the_same() {
    let batches: [&[u8]; 3] = [
        b"{\"type\":\"A\",\"v\":\"1\"}\n{\"message\":\"Hello, world!\"}\n",
        b"{\"type\":\"B\",\"v\":\"22\"}\n{\"type\":\"A\",\"v\":\"333\"}\n",
        b"not json\n{\"type\":\"C\"}",
    ];
    let sequential = sequential::<StringParser>(LOG).to_json();
    for order in [[0, 1, 2], [2, 1, 0], [1, 2, 0], [1, 0, 2]] {
        let mut merged = Summary::<AsyncBatchReaderParserError>::new();
        for at in order {
            merged.combine(summarize_batch::<StringParser>(batches[at], b'\n'));
        }
        let snapshot = merged.to_json();
        assert_eq!(sorted_sizes(&snapshot), sorted_sizes(&sequential));
        assert_eq!(snapshot.total_errors, sequential.total_errors);
    }
}

#[test]
fn a_record_longer_than_a_batch_is_an_error() {
    let run = AsyncBufReaderSummarizer::new(4, 27, b'\n').summarize::<StringParser>(LOG);
    assert_eq!(run.unwrap_err(), AsyncBufReaderSummarizerError::BoundaryNotFound);
    let input = b"{\"type\":\"A\"}\n0123456789abcdef";
    let run = AsyncBufReaderSummarizer::new(4, 13, b'\n').summarize::<StringParser>(input);
    assert_eq!(run.unwrap_err(), AsyncBufReaderSummarizerError::BoundaryNotFound);
    let error = LogParserError::from(AsyncBufReaderSummarizerError::BoundaryNotFound);
    assert_eq!(
        error,
        LogParserError::AsyncBufReaderSummarizer(AsyncBufReaderSummarizerError::BoundaryNotFound)
    );
}

#[test]
fn a_last_record_as_long_as_a_batch_is_handed_out() {
    let input = b"{\"type\":\"A\"}\n{\"type\":\"B\"}";
    let summary = AsyncBufReaderSummarizer::new(4, 13, b'\n')
        .summarize::<StringParser>(input)
        .unwrap();
    let snapshot = summary.to_json();
    assert_eq!(sorted_sizes(&snapshot), vec![("A".to_string(), 13), ("B".to_string(), 12)]);
    assert_eq!(snapshot.total_errors, 0);
}

#[test]
fn a_batch_size_of_zero_reads_nothing() {
    let summary = AsyncBufReaderSummarizer::new(4, 0, b'\n').summarize::<StringParser>(LOG).unwrap();
    assert_eq!(summary.total_size(), 0);
    assert_eq!(summary.errors().total_errors(), 0);
}

#[test]
fn summarize_batch_counts_failures() {
    let summary = summarize_batch::<StringParser>(b"a\n{\"type\":\"T\"}\nb\nc", b'\n');
    let snapshot = summary.to_json();
    assert_eq!(snapshot.type_size, vec![("T".to_string(), 13)]);
    assert_eq!(snapshot.total_errors, 3);
}

#[test]
fn summarize_record_takes_the_error_as_given() {
    let mut summary = Summary::<BufReaderParserError>::new();
    summarize_record::<StringParser, BufReaderParserError>(&mut summary, b"{\"type\":\"T\"}\n", 0);
    summarize_record::<StringParser, BufReaderParserError>(&mut summary, b"oops\n", 17);
    assert_eq!(summary.total_size(), 13);
    assert_eq!(summary.errors().error_lines(), &vec![17]);
}

#[test]
fn the_reader_cuts_behind_the_last_delimiter() {
    let mut reader = AsyncBatchReader::new(8, b'\n');
    assert_eq!(reader.wanted(), 8);
    let batch = reader.read_batch(b"ab\ncd\nef".to_vec(), false).unwrap();
    assert_eq!(batch, Some(b"ab\ncd\n".to_vec()));
    assert_eq!(reader.wanted(), 6);
    let batch = reader.read_batch(b"gh\nij".to_vec(), true).unwrap();
    assert_eq!(batch, Some(b"efgh\n".to_vec()));
    assert_eq!(reader.wanted(), 6);
    let batch = reader.read_batch(Vec::new(), true).unwrap();
    assert_eq!(batch, Some(b"ij".to_vec()));
    assert_eq!(reader.wanted(), 8);
    let batch = reader.read_batch(Vec::new(), true).unwrap();
    assert_eq!(batch, None);
}

#[test]
fn the_reader_fails_without_a_delimiter() {
    let mut reader = AsyncBatchReader::new(4, b'\n');
    let read = reader.read_batch(b"abcd".to_vec(), false);
    assert_eq!(read, Err(AsyncBufReaderSummarizerError::BoundaryNotFound));
    assert_eq!(reader.wanted(), 0);
}

#[test]
fn every_kind_of_error_is_wrapped() {
    for kind in [
        AsyncBufReaderSummarizerError::Io,
        AsyncBufReaderSummarizerError::TokioJoinError,
        AsyncBufReaderSummarizerError::TokioSendError,
        AsyncBufReaderSummarizerError::BoundaryNotFound,
    ] {
        assert_eq!(LogParserError::from(kind), LogParserError::AsyncBufReaderSummarizer(kind));
        assert_ne!(LogParserError::from(kind), LogParserError::Io);
    }
}

#[test]
fn a_run_keeps_the_index_of_each_record() {
    let mut run = BufReaderRun::<StringParser>::new();
    assert_eq!(run.line_number(), 0);
    assert_eq!(run.bytes_read(), 0);
    run.record(b"{\"type\":\"T\"}\n");
    run.record(b"oops\n");
    run.record(b"{\"type\":\"T\"}\n");
    run.record(b"again");
    assert_eq!(run.line_number(), 4);
    assert_eq!(run.bytes_read(), 36);
    let summary = run.finish();
    assert_eq!(summary.to_json().type_size, vec![("T".to_string(), 26)]);
    assert_eq!(summary.errors().error_lines(), &vec![1, 3]);
}

#[test]
fn a_run_record_by_record_is_the_run_over_the_input() {
    let mut run = BufReaderRun::<RegexParser>::new();
    for record in LOG.split_inclusive(|byte| *byte == b'\n') {
        run.record(record);
    }
    let stepped = run.finish();
    let whole = sequential::<RegexParser>(LOG);
    assert_eq!(sorted_sizes(&stepped.to_json()), sorted_sizes(&whole.to_json()));
    assert_eq!(stepped.errors().error_lines(), whole.errors().error_lines());
    assert_eq!(stepped.errors().error_lines(), &vec![1, 4]);
}
