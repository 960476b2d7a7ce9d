use backtest::read_data::data_types::{CoinbaseRecord, KalshiDataset, KalshiRecord};
use backtest::stream_data::market_stream::PairMarketStream;

fn create_mock_cb_records(ts_start: u64, ts_end: u64) -> Vec<CoinbaseRecord> {
    let mut mock = Vec::new();
    for ts in ts_start..ts_end {
        mock.push(CoinbaseRecord::new(ts, 0.0f64.to_bits(), 0.0f64.to_bits(), 0.0f64.to_bits()));
    }
    mock
}

fn create_mock_kalshi_ds(ts_start: u64, ts_end: u64) -> KalshiDataset {
    let mut mock_recs = Vec::new();
    for ts in ts_start..ts_end {
        mock_recs.push(KalshiRecord::new(ts, 0.0f64.to_bits(), 0, 0));
    }
    KalshiDataset::new(mock_recs, 100.0f64.to_bits(), ts_start, ts_end)
}

#[test]
fn market_stream_test_binary_underlying_records() {
    let mock_cb_records = create_mock_cb_records(10, 20);
    let mock_kalshi_ds = create_mock_kalshi_ds(10, 20);

    let _stream = PairMarketStream::new(&mock_cb_records[..], mock_kalshi_ds, 1);
}

#[test]
fn new_places_indices_at_start_time() {
    let under = create_mock_cb_records(10, 20);
    let deriv = create_mock_kalshi_ds(10, 20);
    let stream = PairMarketStream::new(&under[..], deriv, 1);
    assert_eq!(stream.get_time(), Some(10));
    assert_eq!(stream.get_indices(), (Some(0), Some(0)));
}

#[test]
fn cycle_moves_both_indices_to_the_new_time() {
    let under: Vec<CoinbaseRecord> = (0..10)
        .map(|i| CoinbaseRecord::new(100 + 10 * i, (i as f64).to_bits(), 0, 0))
        .collect();
    let quotes: Vec<KalshiRecord> = (0..20).map(|i| KalshiRecord::new(100 + 5 * i, 0, i as u8, 0)).collect();
    let deriv = KalshiDataset::new(quotes, 0, 100, 150);
    let mut stream = PairMarketStream::new(&under[..], deriv, 15);
    assert_eq!(stream.get_indices(), (Some(0), Some(0)));

    stream.cycle(); // time 115
    assert_eq!(stream.get_time(), Some(115));
    assert_eq!(stream.get_indices(), (Some(1), Some(3)));
    let (c, k) = stream.get_records().unwrap();
    assert_eq!(c.ts, 110);
    assert_eq!(f64::from_bits(c.price), 1.0);
    assert_eq!(k.ts, 115);
    assert_eq!(k.bid, 3);

    stream.cycle(); // time 130
    assert_eq!(stream.get_indices(), (Some(3), Some(6)));
    stream.cycle(); // time 145
    assert_eq!(stream.get_indices(), (Some(4), Some(9)));
    stream.cycle(); // time 160: the timer has run out, nothing moves
    assert_eq!(stream.get_time(), None);
    assert_eq!(stream.get_indices(), (Some(4), Some(9)));
    assert_eq!(stream.update_indices(), None);
}

#[test]
fn update_fails_when_a_time_is_past_the_data() {
    let under = create_mock_cb_records(10, 13); // 10, 11, 12
    let deriv = create_mock_kalshi_ds(10, 20);
    let mut stream = PairMarketStream::new(&under[..], deriv, 1);
    assert_eq!(stream.get_indices(), (Some(0), Some(0)));
    stream.cycle(); // 11
    assert_eq!(stream.get_indices(), (Some(1), Some(1)));
    stream.cycle(); // 12: no underlying interval holds 12, so neither index moves
    assert_eq!(stream.get_indices(), (Some(1), Some(1)));
    assert_eq!(stream.update_indices(), None);
}

#[test]
fn missing_index_gives_no_records() {
    let under = create_mock_cb_records(10, 20);
    let deriv = create_mock_kalshi_ds(10, 20);
    let mut stream = PairMarketStream::new(&under[..], deriv, 1);
    stream.deriv_current_index = None;
    assert!(stream.get_records().is_none());
    assert_eq!(stream.update_indices(), None);
    assert_eq!(stream.get_indices(), (Some(0), None));
}

#[test]
fn indices_stay_in_bounds_and_never_move_back_over_a_run() {
    let under: Vec<CoinbaseRecord> = (0..12).map(|i| CoinbaseRecord::new(100 + 7 * i, 0, 0, 0)).collect();
    let quotes: Vec<KalshiRecord> = (0..9).map(|i| KalshiRecord::new(100 + 11 * i, 0, 0, 0)).collect();
    let deriv = KalshiDataset::new(quotes, 0, 100, 200);
    let mut stream = PairMarketStream::new(&under[..], deriv, 6);
    let (mut last_u, mut last_d) = (0, 0);
    while stream.timer.cycle_in_range() && stream.get_time().is_some() {
        let (u, d) = stream.get_indices();
        let (u, d) = (u.unwrap(), d.unwrap());
        assert!(u < under.len() && d < 9);
        assert!(last_u <= u && last_d <= d);
        assert!(stream.get_records().is_some());
        last_u = u;
        last_d = d;
        stream.cycle();
    }
    assert_eq!(stream.get_time(), None);
    // from time 178 on no underlying interval holds the time, so neither moves
    assert_eq!(stream.get_indices(), (Some(10), Some(6)));
}
