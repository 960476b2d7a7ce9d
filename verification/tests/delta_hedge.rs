use backtest::read_data::data_types::KalshiRecord;
use backtest::strats::delta_hedge::validate_data;

#[test]
fn validates_quotes() {
    assert!(validate_data(&KalshiRecord::new(0, 0, 40, 45)));
    assert!(!validate_data(&KalshiRecord::new(0, 0, 40, 46)));
    assert!(validate_data(&KalshiRecord::new(0, 0, 5, 10)));
    assert!(!validate_data(&KalshiRecord::new(0, 0, 4, 8)));
    assert!(validate_data(&KalshiRecord::new(0, 0, 90, 95)));
    assert!(!validate_data(&KalshiRecord::new(0, 0, 92, 96)));
    assert!(validate_data(&KalshiRecord::new(0, 0, 50, 50)));
}
