use backtest::data_models::tick::Tick;
use backtest::stream_data::tick_stream::{DataStream, TickStream};
use backtest::stream_data::timers::{DeltaTimer, Timer};

struct MockTick {
    ts: u64,
    value: i32,
}

impl MockTick {
    fn new(ts: u64, value: i32) -> Self {
        MockTick { ts, value }
    }
}

impl Tick for MockTick {
    fn ts(&self) -> u64 {
        self.ts
    }
}

#[test]
fn test_iter_new_typed_returns_ready_items() {
    let mut timer = DeltaTimer::new(5, 20, 5);
    let data = vec![
        MockTick::new(1, 1),
        MockTick::new(3, 2),
        MockTick::new(5, 3),
        MockTick::new(7, 4),
        MockTick::new(10, 5),
    ];

    let mut stream = TickStream::new(&data);

    // At time 5, items with ts <= 5 should be ready (indices 0, 1, 2)
    let items: Vec<_> = stream.iter_new_typed(&timer).unwrap().iter().collect();
    assert_eq!(items.len(), 3);
    assert_eq!(items[0].value, 1);
    assert_eq!(items[1].value, 2);
    assert_eq!(items[2].value, 3);

    // Calling iter_new again without cycling should return empty
    let items: Vec<_> = stream.iter_new_typed(&timer).unwrap().iter().collect();
    assert_eq!(items.len(), 0);

    // Cycle to time 10
    stream.cycle(&mut timer);
    let items: Vec<_> = stream.iter_new_typed(&timer).unwrap().iter().collect();
    assert_eq!(items.len(), 2);
    assert_eq!(items[0].value, 4);
    assert_eq!(items[1].value, 5);
}

#[test]
fn test_data_stream_trait() {
    let timer = DeltaTimer::new(5, 20, 5);
    let data = vec![MockTick::new(1, 1), MockTick::new(5, 2)];

    let stream = TickStream::new(&data);

    // Use via DataStream trait
    let mut boxed: Box<dyn DataStream> = Box::new(stream);

    assert!(!boxed.is_exhausted());
    assert_eq!(boxed.len(), 2);

    let items = boxed.iter_new(timer.get_time()).unwrap();
    assert_eq!(items.len(), 2);

    assert!(boxed.is_exhausted());
}

#[test]
fn test_timer_expiration_returns_none() {
    let mut timer = DeltaTimer::new(0, 2, 5);
    let data = vec![MockTick::new(1, 1)];

    let mut stream = TickStream::new(&data);

    assert!(stream.iter_new(timer.get_time()).is_some());

    stream.cycle(&mut timer);
    assert!(stream.iter_new(timer.get_time()).is_none());
}

#[test]
fn tick_stream_test_is_exhausted() {
    let mut timer = DeltaTimer::new(0, 10, 5);
    let data = vec![MockTick::new(0, 1), MockTick::new(1, 2)];

    let mut stream = TickStream::new(&data);
    assert!(!stream.is_exhausted());

    stream.cycle(&mut timer);

    let _: Vec<_> = stream.iter_new_typed(&timer).unwrap().iter().collect();
    assert!(stream.is_exhausted());
}

#[test]
fn expired_timer_hands_out_nothing() {
    let mut timer = DeltaTimer::new(0, 4, 5);
    let data = vec![MockTick::new(1, 1), MockTick::new(7, 2)];
    let mut stream = TickStream::new(&data);
    timer.cycle(); // time 5 > end 4
    assert!(stream.iter_new_typed(&timer).is_none());
    assert_eq!(stream.current_index(), 0);
    assert!(stream.iter_new(None).is_none());
    assert_eq!(stream.current_index(), 0);
}

#[test]
fn stops_at_the_first_item_that_is_not_ready() {
    // data out of time order: the stream stops at ts 9 even though ts 2 follows
    let timer = DeltaTimer::new(5, 20, 5);
    let data = vec![MockTick::new(1, 1), MockTick::new(9, 2), MockTick::new(2, 3)];
    let mut stream = TickStream::new(&data);
    let items = stream.iter_new(timer.get_time()).unwrap();
    assert_eq!(items, vec![1]);
    assert_eq!(stream.current_index(), 1);
    assert!(!stream.is_exhausted());
    assert_eq!(stream.iter_new(Some(9)).unwrap(), vec![9, 2]);
    assert!(stream.is_exhausted());
    assert_eq!(stream.iter_new(Some(100)).unwrap(), Vec::<u64>::new());
}

#[test]
fn handouts_cover_the_data_once_in_order() {
    let data: Vec<MockTick> = (0..10).map(|i| MockTick::new(3 * i, i as i32)).collect();
    let mut stream = TickStream::new(&data);
    let mut seen: Vec<u64> = Vec::new();
    for t in [2u64, 2, 8, 8, 15, 40] {
        seen.extend(stream.iter_new(Some(t)).unwrap());
    }
    let all: Vec<u64> = data.iter().map(|d| d.ts).collect();
    assert_eq!(seen, all);
    assert_eq!(stream.len(), 10);
}

#[test]
fn boxed_stream_reads_through() {
    let data = vec![MockTick::new(1, 1), MockTick::new(6, 2)];
    let mut boxed: Box<dyn DataStream> = Box::new(TickStream::new(&data));
    assert_eq!(boxed.current_index(), 0);
    assert_eq!(boxed.iter_new(Some(5)).unwrap(), vec![1]);
    assert_eq!(boxed.current_index(), 1);
    assert!(boxed.iter_new(None).is_none());
    assert_eq!(boxed.current_index(), 1);
}

#[test]
fn stream_forwards_time_of_the_timer() {
    let mut timer = DeltaTimer::new(3, 8, 5);
    let data = vec![MockTick::new(1, 1)];
    let stream = TickStream::new(&data);
    assert_eq!(stream.get_time(&timer), Some(3));
    stream.cycle(&mut timer);
    assert_eq!(stream.get_time(&timer), Some(8));
    stream.cycle(&mut timer);
    assert_eq!(stream.get_time(&timer), None);
}

#[test]
fn hand_outs_over_a_run_are_the_data_in_order() {
    let data = vec![
        MockTick::new(1, 1),
        MockTick::new(2, 2),
        MockTick::new(5, 3),
        MockTick::new(9, 4),
        MockTick::new(9, 5),
        MockTick::new(30, 6),
    ];
    let mut stream = TickStream::new(&data);
    let mut timer = DeltaTimer::new(0, 12, 3);
    let mut seen: Vec<i32> = Vec::new();
    loop {
        match stream.iter_new_typed(&timer) {
            Some(items) => seen.extend(items.iter().map(|d| d.value)),
            None => break,
        }
        // asking again at the same time hands out nothing
        assert_eq!(stream.iter_new(timer.get_time()), Some(vec![]));
        stream.cycle(&mut timer);
    }
    assert_eq!(seen, vec![1, 2, 3, 4, 5]);
    assert_eq!(stream.current_index(), 5);
    assert!(!stream.is_exhausted());
}

#[test]
fn mixed_typed_and_erased_hand_outs_tile_the_data() {
    let data = vec![
        MockTick::new(1, 1),
        MockTick::new(4, 2),
        MockTick::new(6, 3),
        MockTick::new(8, 4),
        MockTick::new(13, 5),
    ];
    let mut stream = TickStream::new(&data);
    let mut timer = DeltaTimer::new(2, 14, 3);
    let mut stamps: Vec<u64> = Vec::new();
    let mut typed = true;
    while timer.get_time().is_some() {
        if typed {
            let items = stream.iter_new_typed(&timer).unwrap();
            stamps.extend(items.iter().map(|d| d.ts));
        } else {
            stamps.extend(stream.iter_new(timer.get_time()).unwrap());
        }
        typed = !typed;
        stream.cycle(&mut timer);
    }
    assert_eq!(stamps, vec![1, 4, 6, 8, 13]);
    assert_eq!(stream.current_index(), 5);
    assert!(stream.is_exhausted());
}
