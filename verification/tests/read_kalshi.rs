use backtest::read_data::read_kalshi::chunk_kalshi_records;
use backtest::read_data::record_chunks::RecordChunker;

#[test]
fn read_kalshi_test_read_mock() {}

#[test]
fn chunks_kalshi_dump_into_records() {
    let re = RecordChunker::new(r"\{.*?\}").unwrap();
    let text = r#"[{"ts": 1, "tte": 2.5, "bid": 40, "ask": 45},
{"ts": 2, "tte": 2.4, "bid": 41, "ask": 44}]"#;
    let chunks = chunk_kalshi_records(text, &re);
    assert_eq!(
        chunks,
        vec![
            r#"{"ts": 1, "tte": 2.5, "bid": 40, "ask": 45}"#.to_string(),
            r#"{"ts": 2, "tte": 2.4, "bid": 41, "ask": 44}"#.to_string(),
        ]
    );
}

#[test]
fn rejects_invalid_pattern() {
    assert!(RecordChunker::new("(").is_none());
}
