use backtest::data_models::tick::Tick;
use backtest::stream_data::tick_multi_stream_dynamic::TickMultiStream;
use backtest::stream_data::tick_stream::{DataStream, TickStream};
use backtest::stream_data::timers::{DeltaTimer, Timer};

struct MockTickA {
    ts: u64,
    _value: i32,
}

impl MockTickA {
    fn new(ts: u64, _value: i32) -> Self {
        MockTickA { ts, _value }
    }
}

impl Tick for MockTickA {
    fn ts(&self) -> u64 {
        self.ts
    }
}

struct MockTickB {
    ts: u64,
    _label: &'static str,
}

impl MockTickB {
    fn new(ts: u64, _label: &'static str) -> Self {
        MockTickB { ts, _label }
    }
}

impl Tick for MockTickB {
    fn ts(&self) -> u64 {
        self.ts
    }
}

#[test]
fn test_heterogeneous_streams() {
    let mut timer = DeltaTimer::new(5, 20, 5);

    let data_a = vec![
        MockTickA::new(1, 100),
        MockTickA::new(5, 200),
        MockTickA::new(10, 300),
    ];
    let data_b = vec![
        MockTickB::new(2, "first"),
        MockTickB::new(4, "second"),
        MockTickB::new(8, "third"),
    ];

    let stream_a = TickStream::new(&data_a);
    let stream_b = TickStream::new(&data_b);

    let mut multi: TickMultiStream<Box<dyn DataStream>> = TickMultiStream::new();
    multi.add_stream(Box::new(stream_a));
    multi.add_stream(Box::new(stream_b));

    // At time 5
    let results = multi.iter_all_new(&timer).unwrap();
    assert_eq!(results.len(), 2);
    assert_eq!(results[0].1.len(), 2); // stream_a: ts 1, 5
    assert_eq!(results[1].1.len(), 2); // stream_b: ts 2, 4

    // Cycle to time 10
    multi.cycle(&mut timer);
    let results = multi.iter_all_new(&timer).unwrap();
    assert_eq!(results[0].1.len(), 1); // stream_a: ts 10
    assert_eq!(results[1].1.len(), 1); // stream_b: ts 8
}

#[test]
fn test_shared_timer_across_multi_streams() {
    let mut timer = DeltaTimer::new(5, 20, 5);

    let data1 = vec![MockTickA::new(1, 1)];
    let data2 = vec![MockTickA::new(2, 2)];

    let stream1 = TickStream::new(&data1);
    let stream2 = TickStream::new(&data2);

    let mut multi1: TickMultiStream<Box<dyn DataStream>> = TickMultiStream::new();
    multi1.add_stream(Box::new(stream1));

    let mut multi2: TickMultiStream<Box<dyn DataStream>> = TickMultiStream::new();
    multi2.add_stream(Box::new(stream2));

    assert_eq!(multi1.get_time(&timer), Some(5));
    assert_eq!(multi2.get_time(&timer), Some(5));

    // Cycle via one multi stream
    multi1.cycle(&mut timer);

    // Both see updated time
    assert_eq!(multi1.get_time(&timer), Some(10));
    assert_eq!(multi2.get_time(&timer), Some(10));
}

#[test]
fn test_iter_new_for_stream() {
    let timer = DeltaTimer::new(5, 20, 5);
    let data = vec![MockTickA::new(1, 1), MockTickA::new(5, 2)];

    let stream = TickStream::new(&data);

    let mut multi: TickMultiStream<Box<dyn DataStream>> = TickMultiStream::new();
    multi.add_stream(Box::new(stream));

    let items = multi.iter_new_for_stream(0, &timer).unwrap();
    assert_eq!(items.len(), 2);

    // Out of bounds returns None
    assert!(multi.iter_new_for_stream(1, &timer).is_none());
}

#[test]
fn tick_multi_stream_dynamic_test_is_exhausted() {
    let timer = DeltaTimer::new(0, 10, 5);
    let data = vec![MockTickA::new(0, 1)];

    let stream = TickStream::new(&data);

    let mut multi: TickMultiStream<Box<dyn DataStream>> = TickMultiStream::new();
    multi.add_stream(Box::new(stream));

    assert!(!multi.all_exhausted());
    let _ = multi.iter_all_new(&timer);
    assert!(multi.all_exhausted());
}

#[test]
fn multi_stream_indices_and_exhaustion() {
    let timer = DeltaTimer::new(5, 20, 5);
    let data_a = vec![MockTickA::new(1, 1), MockTickA::new(9, 2)];
    let data_b = vec![MockTickB::new(3, "x")];

    let mut multi: TickMultiStream<Box<dyn DataStream>> = TickMultiStream::new();
    assert_eq!(multi.num_streams(), 0);
    assert!(multi.all_exhausted());
    assert!(multi.any_exhausted());
    assert_eq!(multi.add_stream(Box::new(TickStream::new(&data_a))), 0);
    assert_eq!(multi.add_stream(Box::new(TickStream::new(&data_b))), 1);
    assert_eq!(multi.num_streams(), 2);

    let results = multi.iter_all_new(&timer).unwrap();
    assert_eq!(results, vec![(0, vec![1]), (1, vec![3])]);
    assert_eq!(multi.current_index(0), Some(1));
    assert_eq!(multi.current_index(1), Some(1));
    assert_eq!(multi.current_index(2), None);
    assert!(!multi.is_stream_exhausted(0));
    assert!(multi.is_stream_exhausted(1));
    assert!(multi.is_stream_exhausted(7));
    assert!(!multi.any_exhausted());
    assert!(!multi.all_exhausted());

    // a stream that has run out is left out; one that has not answers,
    // here with nothing new
    let results = multi.iter_all_new(&timer).unwrap();
    assert_eq!(results, vec![(0, vec![])]);
    assert_eq!(multi.current_index(0), Some(1));
    assert_eq!(multi.current_index(1), Some(1));
}

#[test]
fn multi_stream_with_expired_timer() {
    let mut timer = DeltaTimer::new(0, 0, 1);
    let data = vec![MockTickA::new(0, 1)];
    let mut multi: TickMultiStream<Box<dyn DataStream>> = TickMultiStream::new();
    multi.add_stream(Box::new(TickStream::new(&data)));
    multi.cycle(&mut timer);
    assert_eq!(multi.get_time(&timer), None);
    assert!(multi.iter_all_new(&timer).is_none());
    assert!(multi.iter_new_for_stream(0, &timer).is_none());
    assert_eq!(multi.current_index(0), Some(0));
}

#[test]
fn multi_stream_of_one_item_type() {
    let timer = DeltaTimer::new(5, 20, 5);
    let data = vec![MockTickA::new(1, 1), MockTickA::new(6, 2)];
    let mut multi: TickMultiStream<TickStream<MockTickA>> = TickMultiStream::new();
    multi.add_stream(TickStream::new(&data));
    assert_eq!(multi.iter_new_for_stream(0, &timer), Some(vec![1]));
}

#[test]
fn adding_streams_numbers_them_in_order() {
    let data = vec![MockTickA::new(1, 1)];
    let mut multi: TickMultiStream<TickStream<MockTickA>> = TickMultiStream::new();
    for k in 0..6 {
        assert_eq!(multi.num_streams(), k);
        assert_eq!(multi.add_stream(TickStream::new(&data)), k);
    }
    assert_eq!(multi.num_streams(), 6);
}

#[test]
fn exhausted_streams_are_left_out() {
    let timer = DeltaTimer::new(5, 20, 5);
    let data_a = vec![MockTickA::new(1, 1)];
    let data_b = vec![MockTickA::new(2, 1), MockTickA::new(7, 2)];
    let empty: Vec<MockTickA> = vec![];
    let mut multi: TickMultiStream<TickStream<MockTickA>> = TickMultiStream::new();
    multi.add_stream(TickStream::new(&empty));
    multi.add_stream(TickStream::new(&data_a));
    multi.add_stream(TickStream::new(&data_b));
    // the empty stream has run out before any call
    assert_eq!(multi.iter_all_new(&timer), Some(vec![(1, vec![1]), (2, vec![2])]));
    assert_eq!(multi.iter_all_new(&timer), Some(vec![(2, vec![])]));
    let mut later = DeltaTimer::new(10, 20, 5);
    assert_eq!(multi.iter_all_new(&later), Some(vec![(2, vec![7])]));
    assert_eq!(multi.iter_all_new(&later), Some(vec![]));
    assert!(multi.all_exhausted());
    assert!(multi.any_exhausted());
    later.cycle();
    assert_eq!(multi.iter_all_new(&later), Some(vec![]));
}
