use backtest::read_data::read_underlying::chunk_coinbase_records;
use backtest::read_data::record_chunks::RecordChunker;

#[test]
fn read_underlying_test_read_mock() {}

#[test]
fn chunks_coinbase_dump_into_records() {
    let re = RecordChunker::new(r"\{.*?\}").unwrap();
    let text = r#"[{"ts":60,"price":1.0,"mu":0.0,"sigma":0.1},{"ts":120,"price":2.0,"mu":0.0,"sigma":0.1}]"#;
    let chunks = chunk_coinbase_records(text, &re);
    assert_eq!(chunks.len(), 2);
    assert_eq!(chunks[1], r#"{"ts":120,"price":2.0,"mu":0.0,"sigma":0.1}"#);
    assert!(chunk_coinbase_records("[]", &re).is_empty());
}
