use flexicast::flexicast::congestion::stats::CongestionStats;
use flexicast::flexicast::congestion::window::MaxTimeWindow;
use flexicast::rate::Float64;
use flexicast::time::Duration;
use flexicast::time::Instant;

enum Action {
    Insert(u64, u64),
    TimePass(u64),
}

fn apply(window: &mut MaxTimeWindow, start: Instant, action: &Action) {
    match action {
        Action::Insert(delay, value) => {
            window.add_data(start.after(Duration::from_millis(*delay)), *value)
        },
        Action::TimePass(delay) => window.time_elapsed(start.after(Duration::from_millis(*delay))),
    }
}

fn assert_iterators(actions: Vec<(Action, Vec<u64>)>) {
    let mut window = MaxTimeWindow::new(Duration::from_millis(100));
    let start = Instant { nanos: 1_000_000_000 };
    for (action, expected) in actions {
        apply(&mut window, start, &action);
        assert_eq!(window.iter(), expected);
    }
}

fn assert_max(actions: Vec<(Action, Option<u64>)>) {
    let mut window = MaxTimeWindow::new(Duration::from_millis(100));
    let start = Instant { nanos: 1_000_000_000 };
    for (action, expected) in actions {
        apply(&mut window, start, &action);
        let time = match action {
            Action::Insert(delay, _) => delay,
            Action::TimePass(delay) => delay,
        };
        assert_eq!(window.max(), expected, "Maximums doesn't match at time {time}");
    }
}

#[test]
fn window_basic() {
    assert_iterators(vec![
        (Action::Insert(0, 1), vec![1]),
        (Action::Insert(50, 2), vec![1, 2]),
    ])
}

#[test]
fn remove() {
    assert_iterators(vec![
        (Action::Insert(0, 1), vec![1]),
        (Action::Insert(50, 2), vec![1, 2]),
        (Action::TimePass(200), vec![]),
    ]);
}

#[test]
fn edge() {
    assert_iterators(vec![
        (Action::Insert(0, 1), vec![1]),
        (Action::Insert(50, 2), vec![1, 2]),
        (Action::TimePass(100), vec![1, 2]),
        (Action::TimePass(150), vec![2]),
        (Action::TimePass(200), vec![]),
    ])
}

#[test]
fn max() {
    assert_max(vec![
        (Action::Insert(0, 1), Some(1)),
        (Action::Insert(50, 2), Some(2)),
        (Action::TimePass(100), Some(2)),
        (Action::TimePass(150), Some(2)),
        (Action::TimePass(200), None),
    ])
}

#[test]
fn multiple_occurences() {
    assert_max(vec![
        (Action::Insert(0, 3), Some(3)),
        (Action::Insert(50, 2), Some(3)),
        (Action::Insert(51, 3), Some(3)),
        (Action::Insert(70, 2), Some(3)),
        (Action::TimePass(100), Some(3)),
        (Action::TimePass(150), Some(3)),
        (Action::TimePass(152), Some(2)),
        (Action::Insert(153, 3), Some(3)),
        (Action::TimePass(200), Some(3)),
        (Action::TimePass(254), None),
    ])
}

#[test]
fn empty_window_has_no_maximum() {
    let mut window = MaxTimeWindow::new(Duration::from_millis(1));
    assert_eq!(window.max(), None);
    assert!(window.iter().is_empty());
    window.add_data(Instant { nanos: 3_000_000 }, 9);
    assert_eq!(window.max(), Some(9));
}

#[test]
fn same_instant_keeps_the_last_value() {
    let mut window = MaxTimeWindow::new(Duration::from_millis(100));
    let now = Instant { nanos: 1_000_000_000 };
    window.add_data(now, 4);
    window.add_data(now, 3);
    assert_eq!(window.iter(), vec![3]);
    // The count of the value that was replaced stays.
    assert_eq!(window.max(), Some(4));
}

#[test]
fn throughput_of_the_window_is_its_maximum() {
    let mut stats = CongestionStats::default();
    let start = Instant { nanos: 10_000_000_000 };
    stats.update_window(start, 40);
    assert_eq!(stats.max_throughput(), 40);
    stats.update_window(start.after(Duration::from_millis(1)), 30);
    assert_eq!(stats.max_throughput(), 40);
    assert_eq!(stats.throughput, 30);
    // The first value leaves the window of five seconds.
    let later = start.after(Duration::from_secs(5));
    stats.update_window(later, 10);
    assert_eq!(stats.max_throughput(), 40);
    stats.update_window(Instant { nanos: later.nanos + 1 }, 10);
    assert_eq!(stats.max_throughput(), 30);
}

#[test]
fn statistics_count_packets() {
    let mut stats = CongestionStats::default();
    assert_eq!(stats.rtt, Duration::from_millis(333));
    let rate = |x: f64| Float64 { bits: x.to_bits() };
    stats.on_received(rate(0.0));
    stats.on_loss(rate(0.05));
    stats.on_received(rate(0.0475));
    assert_eq!((stats.recv_count, stats.lost_count), (2, 1));
    assert_eq!(stats.loss_rate, rate(0.0475));
    stats.on_marked(rate(0.05));
    stats.on_not_marked(rate(0.0475));
    assert_eq!(stats.ecn_rate, rate(0.0475));
    stats.set_loss_rate(rate(0.25));
    assert_eq!(stats.loss_rate, rate(0.25));
    stats.on_rtt_measured(Duration::from_millis(20));
    assert_eq!(stats.rtt.nanos, 20_000_000);
}

#[test]
fn values_can_be_added_after_the_span() {
    let mut w = MaxTimeWindow::new(Duration::from_millis(100));
    let start = Instant { nanos: 0 };
    assert!(!w.can_add(start.after(Duration::from_millis(99)), 4));
    let now = start.after(Duration::from_millis(100));
    assert!(w.can_add(now, 4));
    w.add_data(now, 4);
    assert!(w.can_add(now.after(Duration::from_millis(1)), 4));
}

#[test]
fn replaced_value_still_counts() {
    let mut w = MaxTimeWindow::new(Duration::from_millis(100));
    let now = Instant { nanos: 1_000_000_000 };
    w.add_data(now, 9);
    w.add_data(now, 4);
    assert_eq!(w.iter(), vec![4]);
    assert_eq!(w.max(), Some(9));
}

#[test]
fn steps_of_time_are_one_step() {
    let start = Instant { nanos: 1_000_000_000 };
    let at = |ms| start.after(Duration::from_millis(ms));
    let filled = || {
        let mut w = MaxTimeWindow::new(Duration::from_millis(100));
        for (ms, v) in [(0, 8), (20, 3), (40, 5), (60, 5), (90, 1)] {
            w.add_data(at(ms), v);
        }
        w
    };
    for (first, second) in [(110, 150), (130, 130), (100, 170), (150, 300)] {
        let (mut a, mut b) = (filled(), filled());
        a.time_elapsed(at(first));
        a.time_elapsed(at(second));
        b.time_elapsed(at(second));
        assert_eq!(a.iter(), b.iter());
        assert_eq!(a.max(), b.max());
        assert_eq!(a.max(), a.iter().into_iter().max());
    }
}
