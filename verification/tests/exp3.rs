use std::collections::HashMap;

use rand::seq::SliceRandom;

use flexicast::error::McClientStatus;
use flexicast::error::McRole;
use flexicast::flexicast::announce::FcQos;
use flexicast::flexicast::announce::McAnnounceData;
use flexicast::flexicast::congestion::config::EXP3Conf;
use flexicast::flexicast::congestion::exp3::decision::exp3_banned;
use flexicast::flexicast::congestion::exp3::decision::exp3_did_change_channel;
use flexicast::flexicast::congestion::exp3::decision::exp3_should_change_channel;
use flexicast::flexicast::congestion::exp3::decision::Exp3Outside;
use flexicast::flexicast::congestion::exp3::instance::allowed_probas;
use flexicast::flexicast::congestion::exp3::instance::EXP3Error;
use flexicast::flexicast::congestion::exp3::instance::EXP3;
use flexicast::flexicast::congestion::exp3::order_channels;
use flexicast::flexicast::congestion::exp3::Action;
use flexicast::flexicast::congestion::exp3::EXP3State;
use flexicast::flexicast::congestion::FcCongestionState;
use flexicast::flexicast::reliable::ReliableFc;
use flexicast::flexicast::FlexicastAttributes;
use flexicast::rate::Float64;
use flexicast::time::Duration;
use flexicast::time::Instant;

fn float(x: f64) -> Float64 {
    Float64 { bits: x.to_bits() }
}

fn value(x: &Float64) -> f64 {
    f64::from_bits(x.bits)
}

fn normalize(array: &[f64]) -> Vec<f64> {
    let sum: f64 = array.iter().sum();
    array.iter().map(|x| x / sum).collect()
}

fn probas(exp3: &EXP3) -> Vec<Float64> {
    let gamma = value(&exp3.gamma);
    let sum: f64 = exp3.weights.iter().map(value).sum();
    exp3.weights
        .iter()
        .map(|w| float((1.0 - gamma) * (value(w) / sum) + gamma * (1.0 / exp3.k as f64)))
        .collect()
}

/// An instance on which no action was taken.
fn instance(k: usize, gamma: Option<Float64>) -> EXP3 {
    let first = probas(&EXP3::new(k, gamma, vec![]));
    EXP3::new(k, gamma, first)
}

fn draw(probas: &Vec<Float64>, banned: &Vec<usize>) -> usize {
    let allowed: Vec<f64> = allowed_probas(probas, banned).iter().map(value).collect();
    let weighted: Vec<(usize, f64)> = normalize(&allowed).into_iter().enumerate().collect();
    weighted.choose_weighted(&mut rand::thread_rng(), |(_, p)| *p).unwrap().0
}

fn take_action(exp3: &mut EXP3, banned: Vec<usize>) -> Result<usize, EXP3Error> {
    let probas = probas(exp3);
    let drawn = draw(&probas, &banned);
    exp3.take_action(&banned, probas, drawn)
}

fn rewarded_weights(exp3: &EXP3, reward: f64) -> Vec<Float64> {
    let gamma = value(&exp3.gamma);
    let weights: Vec<f64> = (0..exp3.k)
        .map(|i| {
            let reward = if exp3.taken_action == Some(i) {
                reward / value(&exp3.probas[i])
            } else {
                0.0
            };
            let e = std::f64::consts::E;
            (value(&exp3.weights[i]) * e.powf(gamma * reward / exp3.k as f64)).clamp(1e-3, 1e3)
        })
        .collect();
    normalize(&weights).into_iter().map(float).collect()
}

#[test]
fn exp3_basic() {
    let mut exp3 = instance(2, None);

    let action = take_action(&mut exp3, vec![]);
    assert!(matches!(action, Ok(0 | 1)));

    let action = take_action(&mut exp3, vec![]);
    assert!(matches!(action, Err(EXP3Error::AlreadyTaken)));
}

#[test]
fn exp3_advanced() {
    let mut exp3 = instance(2, None);

    let mut counts = HashMap::new();
    for _ in 0..100 {
        let action = take_action(&mut exp3, vec![]).unwrap();

        *counts.entry(action).or_insert(0) += 1;

        let reward = action as f64;
        let weights = rewarded_weights(&exp3, reward);
        exp3.reward(float(reward), weights).unwrap();
    }

    assert!(*counts.get(&1).unwrap() > 65);
}

#[test]
fn rewards_are_checked() {
    let mut exp3 = instance(3, Some(float(0.2)));
    assert_eq!(exp3.gamma, float(0.2));
    assert_eq!(exp3.weights, vec![float(1.0); 3]);
    assert!(exp3.probas.iter().all(|p| (value(p) - 1.0 / 3.0).abs() < 1e-9));
    assert_eq!(exp3.probas.len(), 3);
    assert_eq!(instance(1, None).gamma, float(0.1));
    let w = vec![float(0.5); 3];
    assert!(matches!(exp3.reward(float(0.5), w.clone()), Err(EXP3Error::NotTaken)));
    assert!(matches!(exp3.reward(float(1.5), w.clone()), Err(EXP3Error::InvalidReward)));
    assert!(matches!(exp3.reward(float(-0.5), w.clone()), Err(EXP3Error::InvalidReward)));
    exp3.take_action(&vec![0], vec![float(0.25); 3], 2).unwrap();
    assert_eq!(exp3.taken_action, Some(2));
    exp3.reward(float(1.0), w.clone()).unwrap();
    assert_eq!(exp3.weights, w);
    assert_eq!(exp3.taken_action, None);
}

#[test]
fn banned_actions_are_never_drawn() {
    let p = vec![float(0.2), float(0.3), float(0.5)];
    assert_eq!(allowed_probas(&p, &vec![0, 2]), vec![float(0.0), float(0.3), float(0.0)]);
    for _ in 0..50 {
        assert_eq!(draw(&p, &vec![0, 2]), 1);
    }
}

#[test]
fn actions_have_numbers() {
    for (a, n) in [(Action::Increase, 0), (Action::Decrease, 1), (Action::Stay, 2)] {
        assert_eq!(usize::from(a), n);
        assert_eq!(Action::from_number(n), a);
    }
}

fn announce(id: u8, bitrate: Option<u64>) -> McAnnounceData {
    McAnnounceData {
        channel_id: vec![id],
        is_ipv6_addr: false,
        probe_path: false,
        reset_stream_on_join: true,
        source_ip: [127, 0, 0, 1],
        group_ip: [239, 0, 0, id],
        udp_port: 6000,
        public_key: None,
        expiration_timer: 600,
        is_processed: false,
        bitrate,
        fc_channel_algo: None,
        fc_channel_secret: None,
        qos: FcQos::throughput_and_delay(),
    }
}

#[test]
fn channels_are_ordered_by_bitrate() {
    let list = vec![
        announce(1, Some(500)),
        announce(2, None),
        announce(3, Some(100)),
        announce(4, Some(500)),
    ];
    assert_eq!(order_channels(&list), vec![vec![2], vec![3], vec![1], vec![4]]);
}

#[test]
fn bans_follow_the_losses() {
    let now = Instant { nanos: 0 };
    let conf = EXP3Conf::default();
    assert_eq!(conf.loss_threshold, float(0.05));
    assert_eq!(conf.hard_loss_threshold, float(0.1));
    assert_eq!(conf.k, float(25.0));
    assert_eq!(conf.gamma, Some(float(0.15)));
    let mut state = EXP3State::new(&conf, now);
    let list = vec![announce(1, Some(1)), announce(2, Some(2)), announce(3, Some(3))];
    state.update_instances(&list, &vec![float(0.25); 3]);
    assert_eq!(state.instances.len(), 3);
    assert!(state.instances.iter().all(|c| c.instance.probas == vec![float(0.25); 3]));
    // Few losses: no decrease.
    assert_eq!(state.get_banned(float(0.001), 1), vec![1]);
    // Some losses: all the actions.
    assert_eq!(state.get_banned(float(0.05), 1), Vec::<usize>::new());
    // Many losses: only a decrease.
    assert_eq!(state.get_banned(float(0.2), 1), vec![0, 2]);
    // At the ends.
    assert_eq!(state.get_banned(float(0.05), 0), vec![1]);
    assert_eq!(state.get_banned(float(0.05), 2), vec![0]);
    // No action would be left: stay.
    assert_eq!(state.get_banned(float(0.2), 0), vec![0, 1]);
}

#[test]
fn failed_increases_are_banned_longer_and_longer() {
    let mut state = EXP3State::new(&EXP3Conf::default(), Instant { nanos: 0 });
    state.last_taken_action = Some(Action::Increase);
    let mut rounds = Vec::new();
    for _ in 0..5 {
        state.update_trial_count(float(0.5));
        rounds.push(state.ban_increase_rounds);
    }
    assert_eq!(rounds, vec![1, 3, 7, 15, 15]);
    let list = vec![announce(1, Some(1)), announce(2, Some(2)), announce(3, Some(3))];
    state.update_instances(&list, &vec![float(0.25); 3]);
    assert_eq!(state.get_banned(float(0.05), 1), vec![0]);
    assert_eq!(state.ban_increase_rounds, 14);
    state.update_trial_count(float(0.01));
    assert_eq!((state.failed_increase_count, state.ban_increase_rounds), (0, 0));
}

fn attributes(active: usize) -> FlexicastAttributes {
    let mut f = FlexicastAttributes {
        mc_role: McRole::Client(McClientStatus::ListenMcPath(true)),
        fc_path_id: Some(1),
        fc_first_pn: None,
        fc_reliable: ReliableFc::Undefined,
        fc_chan_id: Some((vec![active as u8 + 1], active)),
        mc_announce_data: vec![
            announce(1, Some(3000)),
            announce(2, Some(1000)),
            announce(3, Some(2000)),
        ],
        congestion_state: FcCongestionState::with_defaults(Instant { nanos: 0 }),
    };
    exp3_did_change_channel(&mut f, Instant { nanos: 10_000_000_000 });
    f
}

fn outside(drawn: usize) -> Exp3Outside {
    Exp3Outside {
        throughput: 900,
        first_probas: vec![float(0.25); 3],
        reward: float(0.5),
        weights: vec![float(0.2), float(0.3), float(0.5)],
        probas: vec![float(0.3), float(0.3), float(0.4)],
        drawn,
    }
}

#[test]
fn heuristic_moves_to_the_neighbour() {
    let timeout = EXP3Conf::default().migration_timeout;
    let start = Instant { nanos: 10_000_000_000 };
    let due = Instant { nanos: start.nanos + timeout.nanos + 1 };
    // The channel at position 2 is the one in the middle.
    let mut f = attributes(2);
    f.congestion_state.statistics.set_loss_rate(float(0.05));
    // Too early.
    assert_eq!(exp3_banned(&f, start.after(timeout)), None);
    assert_eq!(exp3_should_change_channel(&mut f, start.after(timeout), outside(0)), None);
    assert_eq!(f.congestion_state.statistics.max_throughput(), 900);

    assert_eq!(exp3_banned(&f, due), Some(vec![]));
    assert_eq!(exp3_should_change_channel(&mut f, due, outside(0)), Some(vec![1]));
    assert_eq!(f.congestion_state.exp3_state.last_taken_action, Some(Action::Increase));
    // One action at a time.
    let later = due.after(timeout).after(timeout);
    assert_eq!(exp3_banned(&f, later), None);

    // The receiver is on the new channel, the highest one.
    f.fc_chan_id = Some((vec![1], 0));
    exp3_did_change_channel(&mut f, due);
    assert_eq!(exp3_banned(&f, later), Some(vec![0]));
    f.congestion_state.statistics.set_loss_rate(float(0.2));
    assert_eq!(exp3_banned(&f, later), Some(vec![0, 2]));
    assert_eq!(exp3_should_change_channel(&mut f, later, outside(1)), Some(vec![3]));
    // The increase failed, and the action before was rewarded.
    assert_eq!(f.congestion_state.exp3_state.ban_increase_rounds, 1);
    let middle = f.congestion_state.exp3_state.find(&vec![3]).unwrap();
    let instance = &f.congestion_state.exp3_state.instances[middle].instance;
    assert_eq!(instance.weights, vec![float(0.2), float(0.3), float(0.5)]);
    assert_eq!(instance.taken_action, None);
    // No action was taken on the lowest channel.
    let lowest = f.congestion_state.exp3_state.find(&vec![2]).unwrap();
    let instance = &f.congestion_state.exp3_state.instances[lowest].instance;
    assert_eq!(instance.probas, vec![float(0.25); 3]);
}

#[test]
fn heuristic_can_stay() {
    let start = Instant { nanos: 10_000_000_000 };
    let due = start.after(Duration::from_secs(60));
    let mut f = attributes(1);
    f.congestion_state.statistics.set_loss_rate(float(0.05));
    assert_eq!(exp3_banned(&f, due), Some(vec![1]));
    assert_eq!(exp3_should_change_channel(&mut f, due, outside(2)), Some(vec![2]));
}
