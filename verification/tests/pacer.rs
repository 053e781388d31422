use flexicast::fc_app::pacer::PacerType;
use flexicast::fc_app::pacer::ScaledRates;
use flexicast::fc_app::pacer::TokenPacer;
use flexicast::time::Duration;
use flexicast::time::Instant;

/// The tokens that a pacer has earned at `now`.
fn earned(pacer: &TokenPacer, now: Instant) -> usize {
    let elapsed = pacer.elapsed(now).nanos as f64 / 1e9;
    (elapsed * pacer.rate as f64) as usize
}

fn update_tokens(pacer: &mut TokenPacer, now: Instant) {
    let earned = earned(pacer, now);
    pacer.update_tokens(now, earned);
}

fn send(pacer: &mut TokenPacer, size: usize, now: Instant) -> bool {
    let earned = earned(pacer, now);
    pacer.send(size, now, earned)
}

#[test]
fn test_pacer() {
    let start = Instant { nanos: 5_000_000_000 };
    let rate = 800; // 800 bps
    let mut pacer = TokenPacer::new(rate, 50, start);

    assert_eq!(pacer.tokens, 0);

    // 0.1s passes, we should have increase tokens by 80 bits = 10 bytes
    update_tokens(&mut pacer, start.after(Duration::from_millis(100)));
    assert_eq!(pacer.tokens, 10);

    update_tokens(&mut pacer, start.after(Duration::from_millis(200)));
    assert_eq!(pacer.tokens, 20);

    update_tokens(&mut pacer, start.after(Duration::from_millis(500)));
    assert_eq!(pacer.tokens, 50);

    update_tokens(&mut pacer, start.after(Duration::from_millis(600)));
    assert_eq!(pacer.tokens, 50);

    let res = send(&mut pacer, 30, start.after(Duration::from_millis(600)));
    assert!(res);
    assert_eq!(pacer.tokens, 20);

    let res = send(&mut pacer, 30, start.after(Duration::from_millis(600)));
    assert!(!res);
    assert_eq!(pacer.tokens, 20);

    // 100ms have passed
    let res = send(&mut pacer, 30, start.after(Duration::from_millis(700)));
    assert!(res);
    assert_eq!(pacer.tokens, 0);
}

#[test]
fn tokens_stay_within_the_buffer() {
    let start = Instant { nanos: 0 };
    let mut pacer = TokenPacer::new(8000, 20, start);
    assert_eq!(pacer.rate, 1000);
    assert!(!pacer.send(21, start.after(Duration::from_secs(10)), 10_000));
    assert_eq!(pacer.tokens, 20);
    assert!(pacer.send(20, start.after(Duration::from_secs(10)), 0));
    assert_eq!(pacer.tokens, 0);
}

#[test]
fn pacer_never_overspends_on_a_run() {
    let start = Instant { nanos: 0 };
    let mut pacer = TokenPacer::new(80_000, 100, start);
    let mut sent = 0;
    for i in 1..50u64 {
        if send(&mut pacer, 30, start.after(Duration::from_millis(i))) {
            sent += 30;
        }
    }
    // 10 bytes each millisecond.
    assert!(sent <= 490);
    assert!(sent >= 390);
}

#[test]
fn pacer_types_scale_the_rate() {
    let now = Instant { nanos: 7 };
    let rates = ScaledRates { higher: 1500, optimal: 1133 };
    let p = PacerType::Higher.get_pacer(rates, 11_000, now);
    assert_eq!((p.rate, p.buffer, p.tokens), (187, 11_000, 0));
    let p = PacerType::Optimal.get_pacer(rates, 11_000, now);
    assert_eq!(p.rate, 141);
    assert_eq!(p.last_action_instant, now);
}

#[test]
fn pacer_types_are_parsed() {
    assert!(matches!(PacerType::parse("optimal"), Ok(PacerType::Optimal)));
    assert!(matches!("higher".parse::<PacerType>(), Ok(PacerType::Higher)));
    assert_eq!(PacerType::parse("Higher").unwrap_err(), "Invalid type");
    assert_eq!("".parse::<PacerType>().unwrap_err(), "Invalid type");
}

#[test]
fn pacer_keeps_the_rate_over_time() {
    let start = Instant { nanos: 0 };
    // 1000 bytes a second, in bursts of 200 bytes.
    let mut pacer = TokenPacer::new(8000, 200, start);
    let mut sent = Vec::new();
    for i in (0..5000u64).step_by(7) {
        let at = if (1000..3000).contains(&i) { 3000 } else { i };
        if send(&mut pacer, 50, start.after(Duration::from_millis(at))) {
            sent.push(at);
        }
        assert!(pacer.tokens <= 200);
        assert!(sent.len() as u64 * 50 <= at);
    }
    for (i, from) in sent.iter().enumerate() {
        for (j, to) in sent.iter().enumerate().skip(i) {
            assert!((j - i) as u64 * 50 <= 200 + (to - from));
        }
    }
    assert!(sent.len() > 40);
}
