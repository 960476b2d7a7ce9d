use backtest::data_models::coinbase::CoinbaseRecord;
use backtest::data_models::tick::Tick;

#[test]
fn coinbase_tick_timestamp() {
    let r = CoinbaseRecord::new(1700000000, 43000.5f64.to_bits());
    assert_eq!(r.ts(), 1700000000);
    assert_eq!(f64::from_bits(r.price), 43000.5);
}
