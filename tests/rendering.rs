use std::cell::RefCell;
use std::rc::Rc;
use std::sync::Arc;

use timefn::{
    Backend, Const, NoChannels, Player, Sample, SampleSource, Seconds, StepAt, Time, TimeFn,
    DEFAULT_SAMPLE_RATE, TICKS_PER_SECOND,
};

type Channel = StepAt<Seconds, Const<Time>>;

// Within [-100 s, 100 s] the first is the time itself and the second is 9 s.
fn identity_and_nine() -> Vec<Channel> {
    vec![
        StepAt::new(Seconds, Time::seconds(100), Const::new(Time::seconds(9))),
        StepAt::new(Seconds, Time::seconds(-100), Const::new(Time::seconds(9))),
    ]
}

fn drain<T: TimeFn<Output = Sample>>(source: &mut SampleSource<T>) -> Vec<Sample> {
    let mut out = Vec::new();
    while let Some(s) = source.next() {
        out.push(s);
    }
    out
}

#[derive(Clone, Default)]
struct Recorder {
    events: Vec<String>,
    played: Vec<Vec<Sample>>,
}

impl Backend for Recorder {
    fn play<T: TimeFn<Output = Sample> + Send + Sync + 'static>(&mut self, mut source: SampleSource<T>) {
        self.events.push("play".to_string());
        self.played.push(drain(&mut source));
    }

    fn stop(&mut self) {
        self.events.push("stop".to_string());
    }

    fn wait(&mut self) {
        self.events.push("wait".to_string());
    }
}

#[test]
fn two_channels_interleaved() {
    let mut source = SampleSource::new(Arc::new(identity_and_nine()), 2, Time::seconds(0), Time::seconds(1));
    let half = Time::Ticks(TICKS_PER_SECOND / 2);
    let nine = Time::seconds(9);
    let expected = vec![Time::seconds(0), nine, half, nine, Time::seconds(1), nine];
    assert_eq!(drain(&mut source), expected);
    assert_eq!(source.next(), None);
}

#[test]
fn render_counts_inclusive_instants() {
    // 3 channels, 4 instants a second over 2 seconds: 9 instants.
    let chans = vec![
        StepAt::new(Seconds, Time::seconds(50), Const::new(Time::seconds(1))),
        StepAt::new(Seconds, Time::seconds(-50), Const::new(Time::seconds(2))),
        StepAt::new(Seconds, Time::seconds(50), Const::new(Time::seconds(3))),
    ];
    let mut source = SampleSource::new(Arc::new(chans), 4, Time::seconds(1), Time::seconds(3));
    let out = source.render(1000);
    assert_eq!(out.len(), 27);
    for j in 0..9i64 {
        let t = Time::Ticks(TICKS_PER_SECOND + j * TICKS_PER_SECOND / 4);
        assert_eq!(out[(3 * j) as usize], t);
        assert_eq!(out[(3 * j + 1) as usize], Time::seconds(2));
        assert_eq!(out[(3 * j + 2) as usize], t);
    }
}

#[test]
fn render_stops_at_max() {
    let mut source = SampleSource::new(Arc::new(identity_and_nine()), 2, Time::seconds(0), Time::seconds(1));
    let first = source.render(3);
    assert_eq!(first, vec![Time::seconds(0), Time::seconds(9), Time::Ticks(TICKS_PER_SECOND / 2)]);
    let rest = source.render(100);
    assert_eq!(rest, vec![Time::seconds(9), Time::seconds(1), Time::seconds(9)]);
}

#[test]
fn render_carries_across_seconds() {
    let chans = vec![Seconds];
    let mut source = SampleSource::new(Arc::new(chans), 3, Time::seconds(-1), Time::seconds(1));
    let out = source.render(100);
    let third = TICKS_PER_SECOND / 3;
    let expected: Vec<Time> = (0..7i64).map(|j| Time::Ticks(-TICKS_PER_SECOND + j * third)).collect();
    assert_eq!(out, expected);
}

#[test]
fn empty_and_inverted_windows() {
    let mut single = SampleSource::new(Arc::new(vec![Seconds]), 10, Time::seconds(2), Time::seconds(2));
    assert_eq!(single.render(100), vec![Time::seconds(2)]);
    let mut inverted = SampleSource::new(Arc::new(vec![Seconds]), 10, Time::seconds(2), Time::seconds(1));
    assert_eq!(inverted.render(100), Vec::<Time>::new());
    let mut zero_rate = SampleSource::new(Arc::new(vec![Seconds]), 0, Time::seconds(0), Time::seconds(1));
    assert_eq!(zero_rate.next(), None);
    let mut nan = SampleSource::new(Arc::new(vec![Seconds]), 10, Time::NaN, Time::seconds(1));
    assert_eq!(nan.next(), None);
}

#[test]
fn restart_resets_cursor() {
    let mut source = SampleSource::new(Arc::new(identity_and_nine()), 2, Time::seconds(0), Time::seconds(1));
    source.next();
    source.next();
    source.next();
    let mut again = source.restart();
    assert_eq!(again.channel_count(), 2);
    assert_eq!(again.sample_rate(), 2);
    assert_eq!(again.render(100).len(), 5);
}

#[test]
fn player_requires_channels() {
    let empty: Vec<Channel> = Vec::new();
    match Player::new(empty, Recorder::default()) {
        Err(e) => assert_eq!(e, NoChannels),
        Ok(_) => panic!("player without channels"),
    }
    assert!(!NoChannels.message().is_empty());
}

#[test]
fn player_sample_rate() {
    let mut p = Player::new(identity_and_nine(), Recorder::default()).unwrap();
    assert_eq!(p.sample_rate(), DEFAULT_SAMPLE_RATE);
    assert_eq!(p.sample_rate(), 48_000);
    p.set_sample_rate(2);
    assert_eq!(p.sample_rate(), 2);
}

#[derive(Clone, Default)]
struct SharedRecorder {
    log: Rc<RefCell<Recorder>>,
}

impl Backend for SharedRecorder {
    fn play<T: TimeFn<Output = Sample> + Send + Sync + 'static>(&mut self, source: SampleSource<T>) {
        self.log.borrow_mut().play(source);
    }

    fn stop(&mut self) {
        self.log.borrow_mut().stop();
    }

    fn wait(&mut self) {
        self.log.borrow_mut().wait();
    }
}

#[test]
fn stop_before_play_is_harmless() {
    let backend = SharedRecorder::default();
    let mut p = Player::new(identity_and_nine(), backend.clone()).unwrap();
    p.stop();
    p.set_sample_rate(2);
    p.play(Time::seconds(0), Time::seconds(1));
    p.wait();
    let log = backend.log.borrow();
    assert_eq!(log.events, vec!["stop", "stop", "play", "wait"]);
    let nine = Time::seconds(9);
    let half = Time::Ticks(TICKS_PER_SECOND / 2);
    assert_eq!(log.played, vec![vec![Time::seconds(0), nine, half, nine, Time::seconds(1), nine]]);
}

#[test]
fn player_source_uses_current_rate() {
    let mut p = Player::new(identity_and_nine(), Recorder::default()).unwrap();
    p.set_sample_rate(4);
    let mut src = p.source(Time::seconds(0), Time::seconds(1));
    assert_eq!(src.render(100).len(), 10);
}

#[test]
fn mixed_channel_types_through_boxes() {
    let chans: Vec<Box<dyn TimeFn<Output = Time> + Send + Sync>> =
        vec![Box::new(Seconds), Box::new(Const::new(Time::seconds(9)))];
    let mut source = SampleSource::new(Arc::new(chans), 2, Time::seconds(0), Time::seconds(1));
    let half = Time::Ticks(TICKS_PER_SECOND / 2);
    let nine = Time::seconds(9);
    assert_eq!(source.render(100), vec![Time::seconds(0), nine, half, nine, Time::seconds(1), nine]);
}

#[test]
fn shared_channel_functions() {
    let shared: Arc<Const<Time>> = Arc::new(Const::new(Time::seconds(3)));
    let local: Rc<Seconds> = Rc::new(Seconds);
    assert_eq!(shared.at(Time::seconds(1)), Time::seconds(3));
    assert_eq!(local.at(Time::seconds(1)), Time::seconds(1));
    assert_eq!((&Seconds).at(Time::seconds(2)), Time::seconds(2));
}

#[test]
fn cloned_source_starts_second_again() {
    let nine = Time::seconds(9);
    let half = Time::Ticks(TICKS_PER_SECOND / 2);
    let mut source = SampleSource::new(Arc::new(identity_and_nine()), 2, Time::seconds(0), Time::seconds(1));
    assert_eq!(source.render(3).len(), 3);
    // The clone keeps the channel (the second) and goes back to the start of the second.
    let mut copy = source.clone();
    assert_eq!(copy.render(100), vec![nine, half, nine, Time::seconds(1), nine]);
    // After a whole second has been carried, a clone starts from that second.
    let mut late = SampleSource::new(Arc::new(identity_and_nine()), 2, Time::seconds(0), Time::seconds(1));
    assert_eq!(late.render(4).len(), 4);
    let mut late_copy = late.clone();
    assert_eq!(late_copy.render(100), vec![Time::seconds(1), nine]);
}

#[test]
fn render_resumes_mid_stream() {
    let mut source = SampleSource::new(Arc::new(vec![Seconds]), 4, Time::seconds(0), Time::seconds(2));
    assert_eq!(source.render(6).len(), 6);
    let rest = source.render(100);
    let quarter = TICKS_PER_SECOND / 4;
    let expected: Vec<Time> = (6..9i64).map(|j| Time::Ticks(j * quarter)).collect();
    assert_eq!(rest, expected);
    assert_eq!(source.next(), None);
}

#[test]
fn restart_keeps_channel() {
    let mut source = SampleSource::new(Arc::new(identity_and_nine()), 2, Time::seconds(0), Time::seconds(1));
    source.next();
    let mut again = source.restart();
    assert_eq!(again.next(), Some(Time::seconds(9)));
}

#[test]
fn cloned_player_shares_channels() {
    let mut p = Player::new(identity_and_nine(), Recorder::default()).unwrap();
    p.set_sample_rate(2);
    let q = p.clone();
    assert_eq!(q.sample_rate(), 2);
    assert_eq!(p.sample_rate(), 2);
    let mut src = q.source(Time::seconds(0), Time::seconds(1));
    assert_eq!(src.render(100).len(), 6);
}
