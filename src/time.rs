use std::marker::PhantomData;
use std::rc::Rc;
use std::sync::Arc;

use vstd::prelude::*;

verus! {

/// Number of ticks in one second: a multiple of every common audio sample rate
/// (8 kHz up to 192 kHz, including the 44.1 kHz family), so that their sample
/// instants fall on whole ticks.
pub const TICKS_PER_SECOND: i64 = 705_600_000;

/// A point in time, counted in ticks of `1 / TICKS_PER_SECOND` seconds, or the
/// undefined time `NaN`, which compares neither below nor above any time.
#[derive(Clone, Copy, Debug, PartialEq, Eq, Structural)]
pub enum Time {
    NaN,
    Ticks(i64),
}

/// Clamps an exact tick count into the representable range, as a float
/// overflows to an infinity rather than wrapping.
pub open spec fn clamp_ticks(v: int) -> i64 {
    if v > i64::MAX {
        i64::MAX
    } else if v < i64::MIN {
        i64::MIN
    } else {
        v as i64
    }
}

impl Time {
    /// `s` whole seconds.
    pub fn seconds(s: i32) -> (r: Time)
        ensures
            r == Time::Ticks((s * TICKS_PER_SECOND) as i64),
    {
        Time::Ticks(s as i64 * TICKS_PER_SECOND)
    }

    pub fn is_nan(&self) -> (r: bool)
        ensures
            r == (*self is NaN),
    {
        matches!(*self, Time::NaN)
    }

    /// `self <= other`; false as soon as one side is `NaN`.
    pub open spec fn spec_le(self, other: Time) -> bool {
        match (self, other) {
            (Time::Ticks(a), Time::Ticks(b)) => a <= b,
            _ => false,
        }
    }

    /// `self < other`; false as soon as one side is `NaN`.
    pub open spec fn spec_lt(self, other: Time) -> bool {
        match (self, other) {
            (Time::Ticks(a), Time::Ticks(b)) => a < b,
            _ => false,
        }
    }

    pub fn le(&self, other: &Time) -> (r: bool)
        ensures
            r == self.spec_le(*other),
    {
        match (*self, *other) {
            (Time::Ticks(a), Time::Ticks(b)) => a <= b,
            _ => false,
        }
    }

    pub fn lt(&self, other: &Time) -> (r: bool)
        ensures
            r == self.spec_lt(*other),
    {
        match (*self, *other) {
            (Time::Ticks(a), Time::Ticks(b)) => a < b,
            _ => false,
        }
    }

    /// `self` moved by `d` ticks, clamped to the representable range.
    pub open spec fn spec_add_ticks(self, d: int) -> Time {
        match self {
            Time::NaN => Time::NaN,
            Time::Ticks(a) => Time::Ticks(clamp_ticks(a + d)),
        }
    }

    pub fn add_ticks(self, d: i64) -> (r: Time)
        ensures
            r == self.spec_add_ticks(d as int),
    {
        match self {
            Time::NaN => Time::NaN,
            Time::Ticks(a) => {
                let v: i128 = a as i128 + d as i128;
                if v > i64::MAX as i128 {
                    Time::Ticks(i64::MAX)
                } else if v < i64::MIN as i128 {
                    Time::Ticks(i64::MIN)
                } else {
                    Time::Ticks(v as i64)
                }
            },
        }
    }

    /// `self` scaled by `speed`, rounded down to a whole tick and clamped.
    pub open spec fn spec_scale(self, speed: Speed) -> Time {
        match self {
            Time::NaN => Time::NaN,
            Time::Ticks(a) => Time::Ticks(clamp_ticks((a * speed.spec_num()) / speed.spec_den())),
        }
    }

    pub fn scale(self, speed: Speed) -> (r: Time)
        ensures
            r == self.spec_scale(speed),
    {
        proof {
            use_type_invariant(&speed);
        }
        match self {
            Time::NaN => Time::NaN,
            Time::Ticks(a) => {
                let n: i32 = speed.num;
                assert(-0x7fff_ffff_ffff_ffff_ffff_ffff <= (a as int) * (n as int) <= 0x7fff_ffff_ffff_ffff_ffff_ffff) by (nonlinear_arith)
                    requires
                        i64::MIN <= a <= i64::MAX,
                        i32::MIN <= n <= i32::MAX,
                ;
                let p: i128 = a as i128 * n as i128;
                let d: i128 = speed.den as i128;
                let q: i128 = if p >= 0 {
                    p / d
                } else {
                    let m: i128 = -p - 1;
                    let e: i128 = m / d;
                    assert(-e - 1 == p as int / d as int) by (nonlinear_arith)
                        requires
                            d > 0,
                            p < 0,
                            m == -p - 1,
                            e == m as int / d as int,
                    ;
                    -e - 1
                };
                if q > i64::MAX as i128 {
                    Time::Ticks(i64::MAX)
                } else if q < i64::MIN as i128 {
                    Time::Ticks(i64::MIN)
                } else {
                    Time::Ticks(q as i64)
                }
            },
        }
    }
}

/// A rate of time, `num / den`; `den` is positive.
#[derive(Clone, Copy, Debug)]
pub struct Speed {
    num: i32,
    den: u32,
}

impl Speed {
    #[verifier::type_invariant]
    spec fn inv(self) -> bool {
        self.den > 0
    }

    pub closed spec fn spec_num(self) -> int {
        self.num as int
    }

    pub closed spec fn spec_den(self) -> int {
        self.den as int
    }

    /// The speed `num / den`.
    pub fn ratio(num: i32, den: u32) -> (r: Speed)
        requires
            den > 0,
        ensures
            r.spec_num() == num,
            r.spec_den() == den,
    {
        Speed { num, den }
    }
}

/// A value that depends on time. Evaluation has no effect: the same time
/// always gives the same value.
pub trait TimeFn {
    type Output;

    /// The value of this function at time `t`.
    spec fn spec_at(&self, t: Time) -> Self::Output;

    fn at(&self, t: Time) -> (r: Self::Output)
        ensures
            r == self.spec_at(t),
    ;

    /// This function run at `speed`: `at(t)` becomes `at(t * speed)`.
    fn with_speed(self, speed: Speed) -> (r: WithSpeed<Self>)
        where Self: Sized
        ensures
            r.inner == self,
            r.speed == speed,
    {
        WithSpeed { inner: self, speed }
    }
}

/// The combinators as methods of every time function.
pub trait Combine: TimeFn + Sized {
    /// This function evaluated at the times that `inner` gives.
    fn compose<U: TimeFn<Output = Time>>(self, inner: U) -> (r: Compose<Self, U>)
        ensures
            r.outer == self,
            r.inner == inner,
    ;

    /// This function until `at_seconds`, `after` from then on.
    fn step_at<U: TimeFn<Output = Self::Output>>(self, at_seconds: Time, after: U) -> (r: StepAt<
        Self,
        U,
    >)
        ensures
            r.before == self,
            r.at_seconds == at_seconds,
            r.after == after,
    ;

    /// This function evaluated at the times that `time_proxy` makes of the
    /// given ones; `time_proxy` must accept every time and give one for each.
    fn proxy<P: Fn(Time) -> Time>(self, time_proxy: P) -> (r: Proxy<Self, P>)
        requires
            is_function(time_proxy),
        ensures
            r.inner() == self,
            r.time_proxy() == time_proxy,
    ;

    /// `mapper` applied to the values of this function; `mapper` must accept
    /// every value and give one result for each.
    fn map<M: Fn(Self::Output) -> A, A>(self, mapper: M) -> (r: Mapped<Self, M, A>)
        requires
            is_function(mapper),
        ensures
            r.inner() == self,
            r.mapper() == mapper,
    ;
}

impl<F: TimeFn> Combine for F {
    fn compose<U: TimeFn<Output = Time>>(self, inner: U) -> (r: Compose<F, U>) {
        Compose { outer: self, inner }
    }

    fn step_at<U: TimeFn<Output = F::Output>>(self, at_seconds: Time, after: U) -> (r: StepAt<F, U>) {
        StepAt { before: self, at_seconds, after }
    }

    fn proxy<P: Fn(Time) -> Time>(self, time_proxy: P) -> (r: Proxy<F, P>) {
        Proxy::new(self, time_proxy)
    }

    fn map<M: Fn(F::Output) -> A, A>(self, mapper: M) -> (r: Mapped<F, M, A>) {
        Mapped::new(self, mapper)
    }
}

/// `outer` evaluated at the time that `inner` gives.
#[derive(Clone, Copy, Debug)]
pub struct Compose<U, T> {
    pub outer: U,
    pub inner: T,
}

impl<U: TimeFn, T: TimeFn<Output = Time>> Compose<U, T> {
    /// `outer` evaluated at the times that `inner` gives.
    pub fn new(outer: U, inner: T) -> (r: Compose<U, T>)
        ensures
            r.outer == outer,
            r.inner == inner,
    {
        Compose { outer, inner }
    }
}

impl<U: TimeFn, T: TimeFn<Output = Time>> TimeFn for Compose<U, T> {
    type Output = U::Output;

    open spec fn spec_at(&self, t: Time) -> U::Output {
        self.outer.spec_at(self.inner.spec_at(t))
    }

    fn at(&self, t: Time) -> (r: U::Output) {
        self.outer.at(self.inner.at(t))
    }
}

impl<T: TimeFn + ?Sized> TimeFn for Box<T> {
    type Output = T::Output;

    open spec fn spec_at(&self, t: Time) -> T::Output {
        (**self).spec_at(t)
    }

    fn at(&self, t: Time) -> (r: T::Output) {
        (**self).at(t)
    }
}

impl<T: TimeFn + ?Sized> TimeFn for Rc<T> {
    type Output = T::Output;

    open spec fn spec_at(&self, t: Time) -> T::Output {
        (**self).spec_at(t)
    }

    fn at(&self, t: Time) -> (r: T::Output) {
        (**self).at(t)
    }
}

impl<'a, T: TimeFn + ?Sized> TimeFn for &'a T {
    type Output = T::Output;

    open spec fn spec_at(&self, t: Time) -> T::Output {
        (**self).spec_at(t)
    }

    fn at(&self, t: Time) -> (r: T::Output) {
        (**self).at(t)
    }
}

impl<'a, T: TimeFn + ?Sized> TimeFn for &'a mut T {
    type Output = T::Output;

    open spec fn spec_at(&self, t: Time) -> T::Output {
        (**self).spec_at(t)
    }

    fn at(&self, t: Time) -> (r: T::Output) {
        (**self).at(t)
    }
}

impl<T: TimeFn + ?Sized> TimeFn for Arc<T> {
    type Output = T::Output;

    open spec fn spec_at(&self, t: Time) -> T::Output {
        (**self).spec_at(t)
    }

    fn at(&self, t: Time) -> (r: T::Output) {
        (**self).at(t)
    }
}

/// `inner` evaluated at the time scaled by `speed`.
#[derive(Clone, Copy, Debug)]
pub struct WithSpeed<T> {
    pub inner: T,
    pub speed: Speed,
}

impl<T: TimeFn> TimeFn for WithSpeed<T> {
    type Output = T::Output;

    open spec fn spec_at(&self, t: Time) -> T::Output {
        self.inner.spec_at(t.spec_scale(self.speed))
    }

    fn at(&self, t: Time) -> (r: T::Output) {
        self.inner.at(t.scale(self.speed))
    }
}

/// `f` accepts every argument and gives one result for each.
pub open spec fn is_function<X, Y, F: Fn(X) -> Y>(f: F) -> bool {
    &&& forall|x: X| #[trigger] f.requires((x,))
    &&& forall|x: X, y1: Y, y2: Y| #[trigger] f.ensures((x,), y1) && #[trigger] f.ensures((x,), y2) ==> y1 == y2
}

/// The result of `f` on `x`.
pub open spec fn apply<X, Y, F: Fn(X) -> Y>(f: F, x: X) -> Y {
    choose|y: Y| f.ensures((x,), y)
}

/// Calls `f` on `x`: the result is `apply(f, x)`.
fn call<X, Y, F: Fn(X) -> Y>(f: &F, x: X) -> (r: Y)
    requires
        is_function(*f),
    ensures
        r == apply(*f, x),
{
    let r = f(x);
    assert(f.ensures((x,), apply(*f, x)));
    r
}

/// A time function given by a closure.
#[derive(Debug)]
#[verifier::reject_recursive_types(A)]
pub struct TimeClosureFn<F: Fn(Time) -> A, A> {
    closure: F,
    output: PhantomData<A>,
}

impl<F: Fn(Time) -> A, A> TimeClosureFn<F, A> {
    #[verifier::type_invariant]
    spec fn inv(self) -> bool {
        is_function(self.closure)
    }

    pub closed spec fn closure(self) -> F {
        self.closure
    }
}

impl<F: Fn(Time) -> A, A> TimeFn for TimeClosureFn<F, A> {
    type Output = A;

    open spec fn spec_at(&self, t: Time) -> A {
        apply(self.closure(), t)
    }

    fn at(&self, t: Time) -> (r: A) {
        proof {
            use_type_invariant(self);
        }
        call(&self.closure, t)
    }
}

/// The time function that `closure` gives; `closure` must accept every time
/// and give one value for each.
pub fn time_fn<F: Fn(Time) -> A, A>(closure: F) -> (r: TimeClosureFn<F, A>)
    requires
        is_function(closure),
    ensures
        r.closure() == closure,
{
    TimeClosureFn { closure, output: PhantomData }
}

/// `inner` evaluated at the time that `time_proxy` makes of the given one.
#[derive(Debug)]
#[verifier::reject_recursive_types(T)]
pub struct Proxy<T: TimeFn, F: Fn(Time) -> Time> {
    inner: T,
    time_proxy: F,
}

impl<T: TimeFn, F: Fn(Time) -> Time> Proxy<T, F> {
    #[verifier::type_invariant]
    spec fn inv(self) -> bool {
        is_function(self.time_proxy)
    }

    pub closed spec fn inner(self) -> T {
        self.inner
    }

    pub closed spec fn time_proxy(self) -> F {
        self.time_proxy
    }

    /// `time_proxy` must accept every time and give one time for each.
    pub fn new(inner: T, time_proxy: F) -> (r: Proxy<T, F>)
        requires
            is_function(time_proxy),
        ensures
            r.inner() == inner,
            r.time_proxy() == time_proxy,
    {
        Proxy { inner, time_proxy }
    }
}

impl<T: TimeFn, F: Fn(Time) -> Time> TimeFn for Proxy<T, F> {
    type Output = T::Output;

    open spec fn spec_at(&self, t: Time) -> T::Output {
        self.inner().spec_at(apply(self.time_proxy(), t))
    }

    fn at(&self, t: Time) -> (r: T::Output) {
        proof {
            use_type_invariant(self);
        }
        self.inner.at(call(&self.time_proxy, t))
    }
}

/// `mapper` applied to the values of `inner`.
#[derive(Debug)]
#[verifier::reject_recursive_types(T)]
#[verifier::reject_recursive_types(A)]
pub struct Mapped<T: TimeFn, F: Fn(T::Output) -> A, A> {
    inner: T,
    mapper: F,
    output: PhantomData<A>,
}

impl<T: TimeFn, F: Fn(T::Output) -> A, A> Mapped<T, F, A> {
    #[verifier::type_invariant]
    spec fn inv(self) -> bool {
        is_function(self.mapper)
    }

    pub closed spec fn inner(self) -> T {
        self.inner
    }

    pub closed spec fn mapper(self) -> F {
        self.mapper
    }

    /// `mapper` must accept every value and give one result for each.
    pub fn new(inner: T, mapper: F) -> (r: Mapped<T, F, A>)
        requires
            is_function(mapper),
        ensures
            r.inner() == inner,
            r.mapper() == mapper,
    {
        Mapped { inner, mapper, output: PhantomData }
    }
}

impl<T: TimeFn, F: Fn(T::Output) -> A, A> TimeFn for Mapped<T, F, A> {
    type Output = A;

    open spec fn spec_at(&self, t: Time) -> A {
        apply(self.mapper(), self.inner().spec_at(t))
    }

    fn at(&self, t: Time) -> (r: A) {
        proof {
            use_type_invariant(self);
        }
        call(&self.mapper, self.inner.at(t))
    }
}

/// `before` until `at_seconds`, `after` from `at_seconds` on (the instant
/// itself included).
#[derive(Clone, Copy, Debug)]
pub struct StepAt<T, U> {
    pub before: T,
    pub at_seconds: Time,
    pub after: U,
}

impl<T: TimeFn, U: TimeFn<Output = T::Output>> StepAt<T, U> {
    pub fn new(before: T, at_seconds: Time, after: U) -> (r: StepAt<T, U>)
        ensures
            r.before == before,
            r.at_seconds == at_seconds,
            r.after == after,
    {
        StepAt { before, at_seconds, after }
    }
}

impl<T: TimeFn, U: TimeFn<Output = T::Output>> TimeFn for StepAt<T, U> {
    type Output = T::Output;

    open spec fn spec_at(&self, t: Time) -> T::Output {
        if self.at_seconds.spec_le(t) {
            self.after.spec_at(t)
        } else {
            self.before.spec_at(t)
        }
    }

    fn at(&self, t: Time) -> (r: T::Output) {
        if self.at_seconds.le(&t) {
            self.after.at(t)
        } else {
            self.before.at(t)
        }
    }
}

/// The time itself.
#[derive(Clone, Copy, Debug, Default)]
pub struct Seconds;

impl TimeFn for Seconds {
    type Output = Time;

    open spec fn spec_at(&self, t: Time) -> Time {
        t
    }

    fn at(&self, t: Time) -> (r: Time) {
        t
    }
}

/// The same value at every time.
#[derive(Clone, Copy, Debug, Default)]
pub struct Const<A> {
    pub value: A,
}

impl<A: Copy> Const<A> {
    pub fn new(value: A) -> (r: Const<A>)
        ensures
            r.value == value,
    {
        Const { value }
    }
}

impl<A: Copy> TimeFn for Const<A> {
    type Output = A;

    open spec fn spec_at(&self, t: Time) -> A {
        self.value
    }

    fn at(&self, t: Time) -> (r: A) {
        self.value
    }
}

/// Composing evaluates the outer function at the inner function's value.
pub proof fn lemma_compose_at<F: TimeFn, G: TimeFn<Output = Time>>(f: F, g: G, t: Time)
    ensures
        (Compose::<F, G> { outer: f, inner: g }).spec_at(t) == f.spec_at(g.spec_at(t)),
{
}

/// Running a function at speed `s` evaluates it at the time scaled by `s`;
/// at speed one it is the function itself.
pub proof fn lemma_with_speed_at<F: TimeFn>(f: F, s: Speed, t: Time)
    requires
        s.spec_den() > 0,
    ensures
        (WithSpeed { inner: f, speed: s }).spec_at(t) == f.spec_at(t.spec_scale(s)),
        s.spec_num() == s.spec_den() ==> (WithSpeed { inner: f, speed: s }).spec_at(t) == f.spec_at(t),
{
    if s.spec_num() == s.spec_den() {
        if let Time::Ticks(a) = t {
            assert((a * s.spec_num()) / s.spec_den() == a) by (nonlinear_arith)
                requires
                    s.spec_num() == s.spec_den(),
                    s.spec_den() > 0,
            ;
        }
    }
}

} // verus!
