use std::sync::Arc;

use vstd::arithmetic::div_mod::{
    lemma_fundamental_div_mod, lemma_fundamental_div_mod_converse, lemma_hoist_over_denominator,
    lemma_mod_bound,
};
use vstd::prelude::*;

use crate::time::{TICKS_PER_SECOND, Time, TimeFn};

verus! {

/// A sample: the value of a channel at one instant.
pub type Sample = Time;

/// Relies on `Arc::clone`: the new pointer shares the allocation of the old,
/// so both show the same channels.
#[verifier::external_body]
fn share<T>(a: &Arc<Vec<T>>) -> (r: Arc<Vec<T>>)
    ensures
        r@ == a@,
{
    Arc::clone(a)
}

/// Ticks from the start of the current second to its sample `second_sample`.
pub open spec fn sample_offset(second_sample: int, rate: int) -> int {
    (second_sample * TICKS_PER_SECOND) / rate
}

/// Number of instants `j >= 0`, `rate` a second, whose offset
/// `floor(j * TICKS_PER_SECOND / rate)` from the start is at most `span` ticks.
pub open spec fn window_instants(span: int, rate: int) -> int {
    if span < 0 || rate <= 0 {
        0
    } else {
        ((span + 1) * rate - 1) / (TICKS_PER_SECOND as int) + 1
    }
}

/// The first `instants` instants of `channels` rendered from tick `start` at
/// `rate`: item `i` is channel `i % N` at instant `i / N`, for `N` channels.
pub open spec fn rendered<T: TimeFn>(channels: Seq<T>, rate: int, start: int, instants: int) -> Seq<
    T::Output,
> {
    Seq::new(
        (channels.len() * instants) as nat,
        |i: int|
            channels[i % channels.len() as int].spec_at(
                Time::Ticks((start + (i / channels.len() as int) * TICKS_PER_SECOND / rate) as i64),
            ),
    )
}

/// Division with remainder by a positive divisor.
proof fn lemma_div_mod(x: int, d: int)
    requires
        d > 0,
    ensures
        x == d * (x / d) + x % d,
        0 <= x % d < d,
        x >= 0 ==> x / d >= 0,
{
    lemma_fundamental_div_mod(x, d);
    lemma_mod_bound(x, d);
    if x >= 0 {
        assert(x / d >= 0) by (nonlinear_arith)
            requires
                x == d * (x / d) + x % d,
                0 <= x % d < d,
                x >= 0,
        ;
    }
}

/// Moving one position on: the remainder grows by one, or wraps to zero as
/// the quotient grows by one.
proof fn lemma_succ_div_mod(p: int, n: int)
    requires
        p >= 0,
        n > 0,
    ensures
        p % n + 1 < n ==> (p + 1) % n == p % n + 1 && (p + 1) / n == p / n,
        p % n + 1 >= n ==> (p + 1) % n == 0 && (p + 1) / n == p / n + 1,
{
    lemma_div_mod(p, n);
    assert(p + 1 == (p / n) * n + (p % n + 1)) by (nonlinear_arith)
        requires
            p == n * (p / n) + p % n,
    ;
    if p % n + 1 < n {
        lemma_fundamental_div_mod_converse(p + 1, n, p / n, p % n + 1);
    } else {
        assert(p + 1 == (p / n + 1) * n + 0) by (nonlinear_arith)
            requires
                p == n * (p / n) + p % n,
                p % n + 1 >= n,
                p % n < n,
        ;
        lemma_fundamental_div_mod_converse(p + 1, n, p / n + 1, 0);
    }
}

/// Instant `j` lies `(j / rate)` whole seconds plus the offset of sample
/// `j % rate` after the start.
proof fn lemma_instant_offset(j: int, rate: int)
    requires
        j >= 0,
        rate > 0,
    ensures
        (j / rate) * TICKS_PER_SECOND + sample_offset(j % rate, rate) == j * TICKS_PER_SECOND / rate,
{
    lemma_fundamental_div_mod(j, rate);
    let q = j / rate;
    let r = j % rate;
    lemma_hoist_over_denominator(r * TICKS_PER_SECOND, q * TICKS_PER_SECOND, rate as nat);
    assert(r * TICKS_PER_SECOND + (q * TICKS_PER_SECOND) * rate == j * TICKS_PER_SECOND) by (nonlinear_arith)
        requires
            j == rate * q + r,
    ;
}

/// Instant `j` is in a window of `span` ticks exactly when `j` is below
/// `window_instants(span, rate)`; and up to that count, instants lie at most
/// `span + 1 + TICKS_PER_SECOND` ticks after the start.
proof fn lemma_window(j: int, span: int, rate: int)
    requires
        j >= 0,
        span >= 0,
        rate > 0,
    ensures
        j * TICKS_PER_SECOND / rate <= span <==> j < window_instants(span, rate),
        j <= window_instants(span, rate) ==> j * TICKS_PER_SECOND / rate <= span + 1 + TICKS_PER_SECOND,
        0 <= (j / rate) * TICKS_PER_SECOND <= j * TICKS_PER_SECOND / rate,
{
    let f = TICKS_PER_SECOND as int;
    let x = j * f;
    let y = (span + 1) * rate - 1;
    lemma_fundamental_div_mod(x, rate);
    lemma_fundamental_div_mod(y, f);
    lemma_fundamental_div_mod(j, rate);
    assert(x / rate <= span <==> x <= y) by (nonlinear_arith)
        requires
            x == rate * (x / rate) + x % rate,
            0 <= x % rate < rate,
            y == (span + 1) * rate - 1,
    ;
    assert(x <= y <==> j <= y / f) by (nonlinear_arith)
        requires
            x == j * f,
            y == f * (y / f) + y % f,
            0 <= y % f < f,
            f > 0,
    ;
    assert(j <= y / f + 1 ==> x / rate <= span + 1 + f) by (nonlinear_arith)
        requires
            x == j * f,
            y == f * (y / f) + y % f,
            0 <= y % f < f,
            f > 0,
            rate > 0,
            y == (span + 1) * rate - 1,
            x == rate * (x / rate) + x % rate,
            0 <= x % rate < rate,
    ;
    assert(0 <= (j / rate) * f <= x / rate) by (nonlinear_arith)
        requires
            x == j * f,
            j == rate * (j / rate) + j % rate,
            0 <= j % rate < rate,
            x == rate * (x / rate) + x % rate,
            0 <= x % rate < rate,
            f > 0,
            j >= 0,
    ;
}

/// A window whose length is a whole number `k` of sample periods holds
/// `k + 1` instants, both ends included (for rates up to one a tick).
pub proof fn lemma_exact_window(span: int, rate: int, k: int)
    requires
        span >= 0,
        0 < rate <= TICKS_PER_SECOND,
        span * rate == k * TICKS_PER_SECOND,
    ensures
        window_instants(span, rate) == k + 1,
{
    let f = TICKS_PER_SECOND as int;
    let y = (span + 1) * rate - 1;
    assert(y == k * f + (rate - 1)) by (nonlinear_arith)
        requires
            y == (span + 1) * rate - 1,
            span * rate == k * f,
    ;
    lemma_fundamental_div_mod_converse(y, f, k, rate - 1);
}

/// The samples of a set of channels over a closed window of time, at a given
/// rate: at each instant one sample per channel, in channel order.
#[derive(Debug)]
pub struct SampleSource<T> {
    channels: Arc<Vec<T>>,
    curr_channel: usize,
    sample_rate: u32,
    second_sample: u32,
    start: Time,
    end: Time,
}

impl<T> SampleSource<T> {
    #[verifier::type_invariant]
    spec fn inv(self) -> bool {
        &&& self.channels@.len() > 0
        &&& self.curr_channel < self.channels@.len()
        &&& (self.second_sample < self.sample_rate || self.second_sample == 0)
    }

    pub closed spec fn channels(self) -> Seq<T> {
        self.channels@
    }

    /// Index of the channel whose sample comes next.
    pub closed spec fn channel(self) -> int {
        self.curr_channel as int
    }

    pub closed spec fn rate(self) -> int {
        self.sample_rate as int
    }

    /// Index, within the current second, of the instant that comes next.
    pub closed spec fn second_sample(self) -> int {
        self.second_sample as int
    }

    /// Start of the current second.
    pub closed spec fn start(self) -> Time {
        self.start
    }

    /// Last instant of the window.
    pub closed spec fn end(self) -> Time {
        self.end
    }

    /// The instant whose samples come next.
    pub open spec fn current_time(self) -> Time {
        self.start().spec_add_ticks(sample_offset(self.second_sample(), self.rate()))
    }

    /// No sample is left: the rate is zero or the window is over.
    pub open spec fn exhausted(self) -> bool {
        self.rate() == 0 || !self.current_time().spec_le(self.end())
    }

    /// The samples of `channels` from `start` to `end` inclusive, `sample_rate`
    /// instants a second. `channels` must not be empty.
    pub fn new(channels: Arc<Vec<T>>, sample_rate: u32, start: Time, end: Time) -> (r: SampleSource<T>)
        requires
            channels@.len() > 0,
        ensures
            r.channels() == channels@,
            r.rate() == sample_rate,
            r.start() == start,
            r.end() == end,
            r.channel() == 0,
            r.second_sample() == 0,
    {
        SampleSource { channels, curr_channel: 0, sample_rate, second_sample: 0, start, end }
    }

    /// Number of channels.
    pub fn channel_count(&self) -> (r: usize)
        ensures
            r == self.channels().len(),
    {
        self.channels.len()
    }

    /// Instants per second.
    pub fn sample_rate(&self) -> (r: u32)
        ensures
            r == self.rate(),
    {
        self.sample_rate
    }

    /// A source over the same channels, rate and window, at the same channel,
    /// that starts again from the start of the current second: only the
    /// count of samples within the second goes back to zero.
    pub fn restart(&self) -> (r: SampleSource<T>)
        ensures
            r.channels() == self.channels(),
            r.rate() == self.rate(),
            r.start() == self.start(),
            r.end() == self.end(),
            r.channel() == self.channel(),
            r.second_sample() == 0,
    {
        proof {
            use_type_invariant(self);
        }
        SampleSource {
            channels: share(&self.channels),
            curr_channel: self.curr_channel,
            sample_rate: self.sample_rate,
            second_sample: 0,
            start: self.start,
            end: self.end,
        }
    }
}

impl<T> Clone for SampleSource<T> {
    /// Same as `restart`.
    fn clone(&self) -> (r: SampleSource<T>)
        ensures
            r.channels() == self.channels(),
            r.rate() == self.rate(),
            r.start() == self.start(),
            r.end() == self.end(),
            r.channel() == self.channel(),
            r.second_sample() == 0,
    {
        self.restart()
    }
}

impl<T: TimeFn<Output = Sample>> SampleSource<T> {
    /// Up to `max` further samples, in order: over a window of whole ticks
    /// whose end leaves a second of headroom, the rest of the window's
    /// instants from the current one, each channel in turn, and the cursor
    /// left just after the last sample given.
    pub fn render(&mut self, max: usize) -> (r: Vec<Sample>)
        ensures
            r@.len() <= max,
            old(self).exhausted() ==> r@.len() == 0 && *final(self) == *old(self),
            ({
                let n = old(self).channels().len() as int;
                let rate = old(self).rate();
                let p0 = old(self).second_sample() * n + old(self).channel();
                let p = p0 + r@.len();
                match (old(self).start(), old(self).end()) {
                    (Time::Ticks(s0), Time::Ticks(e0)) => {
                        !old(self).exhausted() && e0 + 1 + TICKS_PER_SECOND <= i64::MAX ==> {
                            let count = window_instants(e0 - s0, rate);
                            &&& r@ == rendered(old(self).channels(), rate, s0 as int, count).subrange(
                                p0,
                                vstd::math::min(p0 + max, n * count),
                            )
                            &&& final(self).channels() == old(self).channels()
                            &&& final(self).rate() == rate
                            &&& final(self).end() == old(self).end()
                            &&& final(self).channel() == p % n
                            &&& final(self).second_sample() == (p / n) % rate
                            &&& final(self).start() == Time::Ticks(
                                (s0 + ((p / n) / rate) * TICKS_PER_SECOND) as i64,
                            )
                        }
                    },
                    _ => true,
                }
            }),
    {
        proof {
            use_type_invariant(&*self);
        }
        let ghost before = *self;
        let ghost chs = self.channels();
        let ghost n = chs.len() as int;
        let ghost rate = self.rate();
        let ghost end0 = self.end();
        let ghost exact_window = match (self.start(), self.end()) {
            (Time::Ticks(s0), Time::Ticks(e0)) => !self.exhausted() && e0 + 1 + TICKS_PER_SECOND
                <= i64::MAX,
            _ => false,
        };
        let ghost p0 = self.second_sample() * n + self.channel();
        let ghost s0: int = match self.start() {
            Time::Ticks(a) => a as int,
            _ => 0,
        };
        let ghost e0: int = match self.end() {
            Time::Ticks(a) => a as int,
            _ => 0,
        };
        let ghost count = window_instants(e0 - s0, rate);
        let ghost full = rendered(chs, rate, s0, count);
        let mut out: Vec<Sample> = Vec::new();
        proof {
            if exact_window {
                let c0 = self.channel();
                let j0 = self.second_sample();
                assert(rate > 0);
                assert(0 <= j0 < rate);
                lemma_fundamental_div_mod_converse(p0, n, j0, c0);
                lemma_fundamental_div_mod_converse(j0, rate, 0, j0);
                assert(0 * TICKS_PER_SECOND == 0);
                lemma_instant_offset(j0, rate);
                if e0 - s0 >= 0 {
                    lemma_window(j0, e0 - s0, rate);
                    assert(j0 < count);
                    assert(p0 < n * count) by (nonlinear_arith)
                        requires
                            p0 == j0 * n + c0,
                            0 <= c0 < n,
                            j0 < count,
                    ;
                } else {
                    lemma_div_mod(j0 * TICKS_PER_SECOND, rate);
                    assert(j0 * TICKS_PER_SECOND >= 0) by (nonlinear_arith)
                        requires
                            j0 >= 0,
                    ;
                    assert(false);
                }
                assert(out@ =~= full.subrange(p0, p0));
            }
        }
        while out.len() < max
            invariant
                out@.len() <= max,
                n > 0,
                n == chs.len(),
                count == window_instants(e0 - s0, rate),
                full == rendered(chs, rate, s0, count),
                before.exhausted() ==> out@.len() == 0 && *self == before,
                exact_window ==> {
                    let p = p0 + out@.len();
                    let j = p / n;
                    &&& self.channels() == chs
                    &&& self.rate() == rate
                    &&& self.end() == end0
                    &&& end0 == Time::Ticks(e0 as i64)
                    &&& rate > 0
                    &&& count >= 0
                    &&& e0 + 1 + TICKS_PER_SECOND <= i64::MAX
                    &&& p <= n * count
                    &&& self.channel() == p % n
                    &&& self.second_sample() == j % rate
                    &&& self.start() == Time::Ticks((s0 + (j / rate) * TICKS_PER_SECOND) as i64)
                    &&& i64::MIN <= s0 <= i64::MAX
                    &&& i64::MIN <= e0 <= i64::MAX
                    &&& p0 >= 0
                    &&& out@ == full.subrange(p0, p)
                },
            ensures
                exact_window ==> out@.len() == max || p0 + out@.len() >= n * count,
            decreases max - out@.len(),
        {
            let ghost p = p0 + out@.len();
            let ghost j = p / n;
            let ghost span = e0 - s0;
            proof {
                if exact_window {
                    lemma_div_mod(p, n);
                    lemma_div_mod(j, rate);
                    assert(j <= count) by (nonlinear_arith)
                        requires
                            p == n * j + p % n,
                            0 <= p % n,
                            p <= n * count,
                            n > 0,
                    ;
                    lemma_instant_offset(j, rate);
                    if span >= 0 {
                        lemma_window(j, span, rate);
                        assert(0 <= (j / rate) * TICKS_PER_SECOND <= span + 1 + TICKS_PER_SECOND);
                        assert(self.start() == Time::Ticks((s0 + (j / rate) * TICKS_PER_SECOND) as i64));
                    } else {
                        assert(j == 0) by (nonlinear_arith)
                            requires
                                p == n * j + p % n,
                                0 <= p % n,
                                p <= n * count,
                                count == 0,
                                j >= 0,
                                n > 0,
                        ;
                        assert(0int / rate == 0);
                        assert(0int % rate == 0);
                        assert(0 * TICKS_PER_SECOND == 0);
                    }
                    assert(self.current_time() == Time::Ticks(
                        (s0 + j * TICKS_PER_SECOND / rate) as i64,
                    ));
                }
            }
            match self.next() {
                None => {
                    proof {
                        if exact_window {
                            if span >= 0 {
                                assert(j >= count);
                                assert(p >= n * count) by (nonlinear_arith)
                                    requires
                                        p == n * j + p % n,
                                        0 <= p % n,
                                        j >= count,
                                        n > 0,
                                ;
                            }
                        }
                    }
                    break ;
                },
                Some(v) => {
                    out.push(v);
                    proof {
                        if exact_window {
                            assert(j < count);
                            assert(p + 1 <= n * count) by (nonlinear_arith)
                                requires
                                    p == n * j + p % n,
                                    0 <= p % n < n,
                                    j < count,
                                    n > 0,
                            ;
                            lemma_succ_div_mod(p, n);
                            lemma_succ_div_mod(j, rate);
                            if p % n + 1 >= n {
                                lemma_div_mod(j + 1, rate);
                                lemma_window(j + 1, span, rate);
                                if j % rate + 1 >= rate {
                                    assert((j + 1) / rate == j / rate + 1);
                                    assert(((j + 1) / rate) * TICKS_PER_SECOND == (j / rate)
                                        * TICKS_PER_SECOND + TICKS_PER_SECOND) by (nonlinear_arith)
                                        requires
                                            (j + 1) / rate == j / rate + 1,
                                    ;
                                }
                            }
                            assert(out@ =~= full.subrange(p0, p + 1));
                        }
                    }
                },
            }
        }
        proof {
            if exact_window {
                assert(out@ =~= full.subrange(p0, vstd::math::min(p0 + max, n * count)));
            }
        }
        out
    }

    /// The next sample, or `None` once the window is over.
    pub fn next(&mut self) -> (r: Option<Sample>)
        ensures
            old(self).exhausted() ==> r is None && *final(self) == *old(self),
            !old(self).exhausted() ==> {
                &&& r == Some(old(self).channels()[old(self).channel()].spec_at(old(self).current_time()))
                &&& final(self).channels() == old(self).channels()
                &&& final(self).rate() == old(self).rate()
                &&& final(self).end() == old(self).end()
                &&& if old(self).channel() + 1 < old(self).channels().len() {
                    &&& final(self).channel() == old(self).channel() + 1
                    &&& final(self).second_sample() == old(self).second_sample()
                    &&& final(self).start() == old(self).start()
                } else if old(self).second_sample() + 1 < old(self).rate() {
                    &&& final(self).channel() == 0
                    &&& final(self).second_sample() == old(self).second_sample() + 1
                    &&& final(self).start() == old(self).start()
                } else {
                    &&& final(self).channel() == 0
                    &&& final(self).second_sample() == 0
                    &&& final(self).start() == old(self).start().spec_add_ticks(TICKS_PER_SECOND as int)
                }
            },
    {
        proof {
            use_type_invariant(&*self);
        }
        if self.sample_rate == 0 {
            return None;
        }
        assert(self.second_sample as int * TICKS_PER_SECOND <= u32::MAX as int * TICKS_PER_SECOND)
            by (nonlinear_arith)
            requires
                self.second_sample <= u32::MAX,
        ;
        let offset: u64 = (self.second_sample as u64 * TICKS_PER_SECOND as u64) / self.sample_rate as u64;
        let curr_time = self.start.add_ticks(offset as i64);
        if curr_time.le(&self.end) {
            let data = self.channels[self.curr_channel].at(curr_time);
            if self.curr_channel < self.channels.len() - 1 {
                self.curr_channel = self.curr_channel + 1;
            } else {
                self.curr_channel = 0;
                if self.second_sample + 1 < self.sample_rate {
                    self.second_sample = self.second_sample + 1;
                } else {
                    self.second_sample = 0;
                    self.start = self.start.add_ticks(TICKS_PER_SECOND);
                }
            }
            Some(data)
        } else {
            None
        }
    }
}

/// A player needs at least one channel.
#[derive(Clone, Copy, Debug, PartialEq, Eq, Structural)]
pub struct NoChannels;

impl NoChannels {
    /// A description of the error.
    pub fn message(&self) -> (r: &'static str) {
        "channel multiplexer requires at least a time function"
    }
}

/// Where samples go: something that plays a `SampleSource`.
pub trait Backend {
    /// Plays `source`, in place of whatever was playing.
    fn play<T: TimeFn<Output = Sample> + Send + Sync + 'static>(&mut self, source: SampleSource<T>);

    /// Stops what is playing; does nothing when idle.
    fn stop(&mut self);

    /// Returns once what is playing has ended; at once when idle.
    fn wait(&mut self);
}

/// A call that a player makes on its backend.
#[derive(Clone, Copy, Debug, PartialEq, Eq, Structural)]
pub enum BackendCall {
    Stop,
    /// `play` of a fresh source of the player's channels over `[start, end]`
    /// at `rate`.
    Play { start: Time, end: Time, rate: u32 },
    Wait,
}

/// Sample rate of a new player.
pub const DEFAULT_SAMPLE_RATE: u32 = 48_000;

/// Plays a fixed, non-empty set of channels through a backend.
pub struct Player<T, B> {
    channels: Arc<Vec<T>>,
    backend: B,
    sample_rate: u32,
    calls: Ghost<Seq<BackendCall>>,
}

impl<T, B> Player<T, B> {
    /// The player has at least one channel.
    pub closed spec fn wf(self) -> bool {
        self.channels@.len() > 0
    }

    pub closed spec fn channels(self) -> Seq<T> {
        self.channels@
    }

    pub closed spec fn backend(self) -> B {
        self.backend
    }

    pub closed spec fn rate(self) -> int {
        self.sample_rate as int
    }

    /// The calls made on the backend so far, oldest first.
    pub closed spec fn calls(self) -> Seq<BackendCall> {
        self.calls@
    }
}

impl<T, B: Clone> Clone for Player<T, B> {
    /// A player of the same channels, sharing them, with a clone of the
    /// backend.
    fn clone(&self) -> (r: Player<T, B>)
        ensures
            r.wf() == self.wf(),
            r.channels() == self.channels(),
            r.rate() == self.rate(),
            cloned(self.backend(), r.backend()),
            r.calls() == self.calls(),
    {
        Player {
            channels: share(&self.channels),
            backend: self.backend.clone(),
            sample_rate: self.sample_rate,
            calls: Ghost(self.calls@),
        }
    }
}

impl<T: TimeFn<Output = Sample>, B: Backend> Player<T, B> {
    /// A player of `channels` through `backend`, at the default rate;
    /// refused where `channels` is empty.
    pub fn new(channels: Vec<T>, backend: B) -> (r: Result<Player<T, B>, NoChannels>)
        ensures
            channels@.len() == 0 <==> r is Err,
            r matches Ok(p) ==> p.wf() && p.channels() == channels@ && p.backend() == backend
                && p.rate() == DEFAULT_SAMPLE_RATE && p.calls() == Seq::<BackendCall>::empty(),
    {
        if channels.len() == 0 {
            Err(NoChannels)
        } else {
            Ok(
                Player {
                    channels: Arc::new(channels),
                    backend,
                    sample_rate: DEFAULT_SAMPLE_RATE,
                    calls: Ghost(Seq::empty()),
                },
            )
        }
    }

    pub fn sample_rate(&self) -> (r: u32)
        ensures
            r == self.rate(),
    {
        self.sample_rate
    }

    /// Sets the rate of the sources made from now on.
    pub fn set_sample_rate(&mut self, value: u32)
        ensures
            final(self).wf() == old(self).wf(),
            final(self).rate() == value,
            final(self).channels() == old(self).channels(),
            final(self).backend() == old(self).backend(),
            final(self).calls() == old(self).calls(),
    {
        self.sample_rate = value;
    }

    /// A fresh source of this player's channels at its current rate over
    /// `[start, end]`.
    pub fn source(&self, start: Time, end: Time) -> (r: SampleSource<T>)
        requires
            self.wf(),
        ensures
            r.channels() == self.channels(),
            r.rate() == self.rate(),
            r.start() == start,
            r.end() == end,
            r.channel() == 0,
            r.second_sample() == 0,
    {
        SampleSource::new(share(&self.channels), self.sample_rate, start, end)
    }

    /// Stops what is playing, then plays `self.source(start, end)`.
    pub fn play(&mut self, start: Time, end: Time)
        where T: Send + Sync + 'static
        requires
            old(self).wf(),
        ensures
            final(self).wf(),
            final(self).channels() == old(self).channels(),
            final(self).rate() == old(self).rate(),
            final(self).calls() == old(self).calls().push(BackendCall::Stop).push(
                BackendCall::Play { start, end, rate: old(self).rate() as u32 },
            ),
    {
        let source = self.source(start, end);
        self.backend.stop();
        self.backend.play(source);
        self.calls = Ghost(
            self.calls@.push(BackendCall::Stop).push(
                BackendCall::Play { start, end, rate: self.sample_rate },
            ),
        );
    }

    /// Stops what is playing; harmless when idle.
    pub fn stop(&mut self)
        ensures
            final(self).wf() == old(self).wf(),
            final(self).channels() == old(self).channels(),
            final(self).rate() == old(self).rate(),
            final(self).calls() == old(self).calls().push(BackendCall::Stop),
    {
        self.backend.stop();
        self.calls = Ghost(self.calls@.push(BackendCall::Stop));
    }

    /// Returns once what is playing has ended.
    pub fn wait(&mut self)
        ensures
            final(self).wf() == old(self).wf(),
            final(self).channels() == old(self).channels(),
            final(self).rate() == old(self).rate(),
            final(self).calls() == old(self).calls().push(BackendCall::Wait),
    {
        self.backend.wait();
        self.calls = Ghost(self.calls@.push(BackendCall::Wait));
    }
}

/// A stop before anything was played changes nothing that a later `play`
/// does: the player keeps its channels and rate, so the source it plays is
/// the same, and the backend sees the same calls after the stop.
pub proof fn lemma_stop_then_play<T, B>(p: Player<T, B>, q: Player<T, B>, r: Player<T, B>, start: Time, end: Time)
    requires
        q.channels() == p.channels() && q.rate() == p.rate() && q.calls() == p.calls().push(BackendCall::Stop),
        r.calls() == q.calls().push(BackendCall::Stop).push(
            BackendCall::Play { start, end, rate: q.rate() as u32 },
        ),
    ensures
        r.calls().subrange(p.calls().len() + 1 as int, r.calls().len() as int) == seq![
            BackendCall::Stop,
            BackendCall::Play { start, end, rate: p.rate() as u32 },
        ],
{
    assert(r.calls().subrange(p.calls().len() + 1 as int, r.calls().len() as int) =~= seq![
        BackendCall::Stop,
        BackendCall::Play { start, end, rate: p.rate() as u32 },
    ]);
}

} // verus!
