use clipper_server::counter::{Counter, RatioCounter};
use clipper_server::meter::{Clock, ManualClock, MeterState, RealtimeClock, Timespec};
use clipper_server::report::registry_report;
use clipper_server::reservoir::{Histogram, ReservoirSampler};

#[test]
fn counter_counts() {
    let mut c = Counter::new("requests".to_string(), 5);
    assert_eq!(c.name, "requests");
    assert_eq!(c.value(), 5);
    c.incr(10);
    assert_eq!(c.value(), 15);
    c.decr(20);
    assert_eq!(c.value(), -5);
    c.clear();
    assert_eq!(c.value(), 0);
}

#[test]
fn counter_wraps_and_undoes() {
    let mut c = Counter::new("wrap".to_string(), isize::MAX);
    c.incr(1);
    assert_eq!(c.value(), isize::MIN);
    c.decr(1);
    assert_eq!(c.value(), isize::MAX);
    let mut d = Counter::new("undo".to_string(), -7);
    d.incr(isize::MAX);
    d.decr(isize::MAX);
    assert_eq!(d.value(), -7);
}

#[test]
fn ratio_counter_fraction() {
    let mut r = RatioCounter::new("hits".to_string(), 0, 0);
    assert_eq!(r.fraction(), None);
    r.incr(1, 4);
    assert_eq!(r.fraction(), Some((1, 4)));
    r.incr(2, 0);
    assert_eq!(r.fraction(), Some((3, 4)));
    r.clear();
    assert_eq!(r.fraction(), None);
    let mut w = RatioCounter::new("wrap".to_string(), usize::MAX, 1);
    w.incr(2, 1);
    assert_eq!(w.fraction(), Some((1, 2)));
}

#[test]
fn reservoir_keeps_first_values_until_full() {
    let mut s = ReservoirSampler::new(5);
    assert_eq!(s.snapshot(), Vec::<i64>::new());
    s.sample(3);
    s.sample(-1);
    s.sample(8);
    assert_eq!(s.snapshot(), vec![3, -1, 8]);
    s.clear();
    assert_eq!(s.snapshot(), Vec::<i64>::new());
    s.sample(4);
    assert_eq!(s.snapshot(), vec![4]);
}

#[test]
fn reservoir_stays_within_size_and_observations() {
    let mut s = ReservoirSampler::new(4);
    for v in 0..1000i64 {
        s.sample(v * 10);
    }
    let snap = s.snapshot();
    assert_eq!(snap.len(), 4);
    for (k, v) in snap.iter().enumerate() {
        assert!(*v % 10 == 0 && *v >= 0 && *v < 10000);
        for w in snap[k + 1..].iter() {
            assert_ne!(v, w);
        }
    }
}

#[test]
fn reservoir_of_size_zero_keeps_nothing() {
    let mut s = ReservoirSampler::new(0);
    s.sample(1);
    s.sample(2);
    assert_eq!(s.snapshot(), Vec::<i64>::new());
}

#[test]
fn histogram_summary_of_values() {
    let mut h = Histogram::new("latency".to_string(), 10);
    assert_eq!(h.name, "latency");
    h.insert(5);
    h.insert(-3);
    h.insert(10);
    h.insert(5);
    let s = h.summary();
    assert_eq!(s.size, 4);
    assert_eq!(s.sorted, vec![-3, 5, 5, 10]);
    assert_eq!(s.min, -3);
    assert_eq!(s.max, 10);
    assert_eq!(s.sum, 17);
}

#[test]
fn histogram_summary_of_nothing() {
    let mut h = Histogram::new("empty".to_string(), 3);
    let s = h.summary();
    assert_eq!((s.size, s.min, s.max, s.sum), (0, 0, 0, 0));
    assert!(s.sorted.is_empty());
    h.insert(1);
    h.clear();
    assert_eq!(h.summary().size, 0);
}

#[test]
fn histogram_sum_wraps_like_i64() {
    let mut h = Histogram::new("big".to_string(), 3);
    h.insert(i64::MAX);
    h.insert(i64::MAX);
    h.insert(i64::MIN);
    let s = h.summary();
    assert_eq!(s.sum, i64::MAX - 1);
    assert_eq!(s.min, i64::MIN);
    assert_eq!(s.max, i64::MAX);
    let mut w = Histogram::new("wrap".to_string(), 2);
    w.insert(i64::MAX);
    w.insert(1);
    assert_eq!(w.summary().sum, i64::MIN);
}

#[test]
fn manual_clock_reads_from_the_back() {
    let mut clock = ManualClock::new(vec![Timespec::new(5, 0), Timespec::new(0, 7)]);
    let first = clock.get_time();
    assert_eq!((first.sec, first.nsec), (0, 7));
    let second = clock.get_time();
    assert_eq!((second.sec, second.nsec), (5, 0));
}

#[test]
fn realtime_clock_reads_valid_nanoseconds() {
    let mut clock = RealtimeClock::new();
    let t = clock.get_time();
    assert!(t.nsec >= 0 && t.nsec < 1_000_000_000);
    assert!(t.sec > 1_500_000_000);
}

#[test]
fn manual_clock_meter_does_not_tick_within_interval() {
    let mut clock = ManualClock::new(vec![Timespec::new(5, 0), Timespec::new(0, 0)]);
    let mut meter = MeterState::new(clock.get_time());
    meter.mark(1);
    assert_eq!(meter.tick_if_necessary(clock.get_time()), (0, 0));
}

#[test]
fn meter_ticks_whole_intervals() {
    let mut meter = MeterState::new(Timespec::new(100, 0));
    meter.mark(3);
    meter.mark(4);
    assert_eq!(meter.tick_if_necessary(Timespec::new(104, 0)), (0, 0));
    // 12.5 s after the start: two whole intervals; the last tick moves to 110 s.
    assert_eq!(meter.tick_if_necessary(Timespec::new(112, 500_000_000)), (2, 7));
    // 4.5 s after the last tick: nothing due.
    assert_eq!(meter.tick_if_necessary(Timespec::new(114, 500_000_000)), (0, 0));
    meter.mark(1);
    // 5.000000001 s after the last tick: one tick, with the one new event.
    assert_eq!(meter.tick_if_necessary(Timespec::new(115, 1)), (1, 1));
}

#[test]
fn meter_rate_span() {
    let mut meter = MeterState::new(Timespec::new(10, 250_000_999));
    meter.mark(6);
    assert_eq!(meter.rate_span(Timespec::new(12, 750_000_000)), (6, 2_500_000));
    meter.clear(Timespec::new(20, 0));
    assert_eq!(meter.rate_span(Timespec::new(21, 0)), (0, 1_000_000));
}

#[test]
fn reservoir_replaces_at_the_drawn_position() {
    let mut s = ReservoirSampler::new(2);
    s.sample_at(10, 0);
    s.sample_at(20, 1);
    assert_eq!(s.snapshot(), vec![10, 20]);
    s.sample_at(30, 1);
    assert_eq!(s.snapshot(), vec![10, 30]);
    s.sample_at(40, 2);
    assert_eq!(s.snapshot(), vec![10, 30]);
    s.sample_at(50, 0);
    assert_eq!(s.snapshot(), vec![50, 30]);
    assert_eq!(s.observations(), 5);
}

#[test]
fn histogram_insert_at_drawn_position() {
    let mut h = Histogram::new("drawn".to_string(), 1);
    h.insert_at(7, 0);
    h.insert_at(8, 1);
    assert_eq!(h.summary().sorted, vec![7]);
    h.insert_at(9, 0);
    assert_eq!(h.summary().sorted, vec![9]);
}

#[test]
fn registry_report_sections() {
    let report = registry_report(
        &"server".to_string(),
        &vec!["c1".to_string(), "c2".to_string()],
        &Vec::new(),
        &vec!["h".to_string()],
        &Vec::new(),
    );
    assert_eq!(report, "\nserver Metrics\n\tCounters:\n\t\tc1\n\t\tc2\n\tHistograms:\n\t\th\n");
    let empty = registry_report(&"x".to_string(), &Vec::new(), &Vec::new(), &Vec::new(), &Vec::new());
    assert_eq!(empty, "\nx Metrics\n");
}
