use goteira::config::default_config;
use goteira::sampler::{Sampler, SamplerAction};
use goteira::stats::{aggregate, summarize, ProbeSample, LOSS_ALL};
use goteira::error::ProbeError;

#[test]
fn seven_of_ten_received() {
    let rtts = vec![1000u32, 2000, 3000, 4000, 5000, 6000, 7000];
    let st = aggregate(10, &rtts);
    assert_eq!(st.sent, 10);
    assert_eq!(st.received, 7);
    assert_eq!(st.loss, 3000);
    assert_eq!(st.min_us, 1000);
    assert_eq!(st.avg_us, 4000);
    assert_eq!(st.max_us, 7000);
    assert_eq!(st.mdev_us, 2000);
}

#[test]
fn sampler_ten_probes_three_lost() {
    let mut s = Sampler::new(&default_config());
    let outcomes = [
        Some(1000u32), None, Some(2000), Some(3000), None, Some(4000), Some(5000), None,
        Some(6000), Some(7000),
    ];
    for (i, o) in outcomes.iter().enumerate() {
        assert_eq!(s.next_action(i as u64 * 500), SamplerAction::Send { seq: i as u16 });
        s.record(*o);
    }
    let st = s.finish().unwrap();
    assert_eq!(st.loss, 3000);
    assert_eq!(st.received, 7);
    assert_eq!((st.min_us, st.avg_us, st.max_us, st.mdev_us), (1000, 4000, 7000, 2000));
}

#[test]
fn all_lost_gives_zero_rtts() {
    let st = aggregate(5, &vec![]);
    assert_eq!(st.loss, LOSS_ALL);
    assert_eq!((st.min_us, st.avg_us, st.max_us, st.mdev_us), (0, 0, 0, 0));
    let none_sent = aggregate(0, &vec![]);
    assert_eq!(none_sent.loss, LOSS_ALL);
}

#[test]
fn average_lies_between_extremes() {
    let st = aggregate(4, &vec![10, 11, 11, 30]);
    assert!(st.min_us <= st.avg_us && st.avg_us <= st.max_us);
    assert_eq!((st.min_us, st.avg_us, st.max_us), (10, 15, 30));
    // deviations from 15: 25, 16, 16, 225 -> 282 / 4 = 70 -> sqrt 8
    assert_eq!(st.mdev_us, 8);
    assert_eq!(st.loss, 0);
}

#[test]
fn loss_rounds_down() {
    let st = aggregate(3, &vec![5]);
    assert_eq!(st.loss, 6666);
    assert_eq!(st.mdev_us, 0);
}

#[test]
fn large_round_trips_do_not_overflow() {
    let st = aggregate(2, &vec![u32::MAX, 0]);
    assert_eq!(st.avg_us, u32::MAX / 2);
    assert_eq!(st.max_us, u32::MAX);
    assert_eq!(st.mdev_us, u32::MAX / 2);
}

#[test]
fn summarize_without_samples_fails() {
    assert_eq!(summarize(&vec![]), Err(ProbeError::TransportUnavailable));
    let samples = vec![
        ProbeSample { seq: 0, received: true, rtt_us: 40 },
        ProbeSample { seq: 1, received: false, rtt_us: 0 },
    ];
    let st = summarize(&samples).unwrap();
    assert_eq!((st.sent, st.received, st.loss, st.avg_us), (2, 1, 5000, 40));
}

#[test]
fn sampler_window_and_cadence() {
    let s = Sampler::new(&default_config());
    assert_eq!(s.next_action(0), SamplerAction::Send { seq: 0 });
    assert_eq!(s.next_action(58_999), SamplerAction::Send { seq: 0 });
    assert_eq!(s.next_action(59_000), SamplerAction::Finish);
    assert_eq!(s.pause_ms(0), 500);
    assert_eq!(s.pause_ms(1_320), 180);
    assert_eq!(s.finish(), Err(ProbeError::TransportUnavailable));
}

#[test]
fn sampler_sequence_wraps() {
    let mut s = Sampler::new(&default_config());
    s.next_seq = u16::MAX;
    s.record(Some(1));
    assert_eq!(s.next_seq, 0);
    assert_eq!(s.samples[0].seq, u16::MAX);
    assert!(s.samples[0].received);
}

#[test]
fn default_parameters() {
    let c = default_config();
    assert_eq!(c.sampling_duration_seconds, 59);
    assert_eq!(c.send_interval_ms, 500);
    assert_eq!(c.reply_timeout_ms, 1000);
    assert_eq!(c.max_ttl, 30);
    assert_eq!(c.probes_per_hop, 3);
}
