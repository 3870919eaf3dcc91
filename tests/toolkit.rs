use trading_toolkit::error::ToolkitError;
use trading_toolkit::macd::{macd_windows, LONG_SPAN, SHORT_SPAN, SIGNAL_SPAN};
use trading_toolkit::order::{series_order, time_order};
use trading_toolkit::stochastic::{into_slow_order, stamps, StochasticKind, StochasticStamp};
use trading_toolkit::time::Time;
use trading_toolkit::window::latest_window;

#[test]
fn time_spans_in_milliseconds() {
    assert_eq!(Time::from_days(2).inner(), 2 * 24 * 60 * 60 * 1000);
    assert_eq!(Time::from_hours(3).inner(), 3 * 60 * 60 * 1000);
    assert_eq!(Time::from_minutes(5).inner(), 5 * 60 * 1000);
    assert_eq!(Time::from_seconds(7).inner(), 7000);
    assert_eq!(Time::from_days(0).inner(), 0);
}

#[test]
fn time_largest_day_count_fits() {
    let t = Time::from_days(usize::MAX);
    assert_eq!(t.inner(), usize::MAX as u128 * 86_400_000);
}

#[test]
fn time_arithmetic() {
    let a = Time::from(10_000u128);
    let b = Time::from_seconds(3);
    assert_eq!((a + b).inner(), 13_000);
    assert_eq!((a - b).inner(), 7_000);
    let mut c = a;
    c.add_assign(b);
    assert_eq!(c.inner(), 13_000);
    c.sub_assign(Time::from_seconds(13));
    assert_eq!(c.inner(), 0);
    assert!(a == Time(10_000));
    assert!(b < a);
}

#[test]
fn time_now_reads_the_clock() {
    let now = Time::now().unwrap();
    // 2020-01-01T00:00:00Z, in milliseconds since the epoch.
    assert!(now.inner() > 1_577_836_800_000);
    let week_ago = now - Time::from_days(7);
    assert_eq!(now.inner() - week_ago.inner(), 7 * 86_400_000);
}

#[test]
fn error_messages() {
    assert_eq!(ToolkitError::EmptyData.message(), "Empty data");
    assert_eq!(ToolkitError::DataNotEnough.message(), "Data not enough");
    assert_eq!(ToolkitError::InvalidData.message(), "Data invalid");
}

#[test]
fn time_order_sorts_by_stamp() {
    let times: Vec<u128> = vec![50, 10, 40, 20, 30];
    assert_eq!(time_order(&times), vec![1, 3, 4, 2, 0]);
}

#[test]
fn time_order_keeps_ties_in_input_order() {
    let times: Vec<u128> = vec![7, 3, 7, 3, 7];
    assert_eq!(time_order(&times), vec![1, 3, 0, 2, 4]);
}

#[test]
fn time_order_of_empty_and_single() {
    assert_eq!(time_order(&vec![]), Vec::<usize>::new());
    assert_eq!(time_order(&vec![42]), vec![0]);
}

#[test]
fn time_order_ignores_caller_order() {
    let a: Vec<(u128, f64)> = vec![(3, 1200.0), (1, 1100.0), (2, 1000.0)];
    let b: Vec<(u128, f64)> = vec![(2, 1000.0), (3, 1200.0), (1, 1100.0)];
    let ta: Vec<u128> = a.iter().map(|e| e.0).collect();
    let tb: Vec<u128> = b.iter().map(|e| e.0).collect();
    let va: Vec<f64> = time_order(&ta).iter().map(|&i| a[i].1).collect();
    let vb: Vec<f64> = time_order(&tb).iter().map(|&i| b[i].1).collect();
    assert_eq!(va, vec![1100.0, 1000.0, 1200.0]);
    assert_eq!(va, vb);
}

#[test]
fn series_order_refuses_empty() {
    assert_eq!(series_order(&vec![]), Err(ToolkitError::EmptyData));
    assert_eq!(series_order(&vec![9, 4]), Ok(vec![1, 0]));
}

#[test]
fn latest_window_takes_most_recent() {
    let times: Vec<u128> = vec![5, 1, 4, 2, 3];
    assert_eq!(latest_window(&times, 2), Ok(vec![2, 0]));
    assert_eq!(latest_window(&times, 5), Ok(vec![1, 3, 4, 2, 0]));
    assert_eq!(latest_window(&times, 0), Ok(vec![]));
    assert_eq!(latest_window(&times, 6), Err(ToolkitError::DataNotEnough));
}

#[test]
fn macd_windows_need_enough_data() {
    for n in 0..LONG_SPAN {
        let times: Vec<u128> = (0..n as u128).collect();
        assert!(matches!(macd_windows(&times), Err(ToolkitError::DataNotEnough)));
    }
    let times: Vec<u128> = (0..LONG_SPAN as u128).collect();
    assert!(macd_windows(&times).is_ok());
}

#[test]
fn macd_windows_use_latest_elements() {
    // Thirty daily bars, listed newest first: stamp 30 - k for bar k.
    let times: Vec<u128> = (0..30u128).map(|k| (30 - k) * 86_400_000).collect();
    let w = macd_windows(&times).unwrap();
    assert_eq!(w.long.len(), LONG_SPAN);
    assert_eq!(w.short.len(), SHORT_SPAN);
    assert_eq!(w.signal.len(), SIGNAL_SPAN);
    let long_expected: Vec<usize> = (0..26usize).rev().collect();
    assert_eq!(w.long, long_expected);
    assert_eq!(w.short, (0..12usize).rev().collect::<Vec<usize>>());
    assert_eq!(w.signal, (0..9usize).rev().collect::<Vec<usize>>());
}

fn fast(t: u128) -> StochasticStamp {
    StochasticStamp { kind: StochasticKind::Fast, epoch_time: t }
}

fn slow(t: u128) -> StochasticStamp {
    StochasticStamp { kind: StochasticKind::Slow, epoch_time: t }
}

#[test]
fn into_slow_refuses_slow_readings() {
    assert_eq!(into_slow_order(&vec![slow(1)]), Err(ToolkitError::InvalidData));
    assert_eq!(into_slow_order(&vec![fast(1), fast(2), slow(3)]), Err(ToolkitError::InvalidData));
    assert_eq!(into_slow_order(&vec![slow(3), fast(1)]), Err(ToolkitError::InvalidData));
}

#[test]
fn into_slow_refuses_empty() {
    assert_eq!(into_slow_order(&vec![]), Err(ToolkitError::EmptyData));
}

#[test]
fn into_slow_orders_fast_readings() {
    let readings = vec![fast(30), fast(10), fast(20)];
    assert_eq!(stamps(&readings), vec![30, 10, 20]);
    assert_eq!(into_slow_order(&readings), Ok(vec![1, 2, 0]));
}

#[test]
fn time_order_matches_a_stable_sort() {
    let times: Vec<u128> = (0..1000u128).map(|k| (k * 7919) % 97).collect();
    let mut expected: Vec<usize> = (0..times.len()).collect();
    expected.sort_by_key(|&i| times[i]);
    assert_eq!(time_order(&times), expected);
}
