use vstd::prelude::*;

use crate::time::{Time, TimeFn};

verus! {

/// Why a step cannot be added to a `Switch`.
#[derive(Clone, Copy, Debug, PartialEq, Eq, Structural)]
pub enum BadSwitchStep {
    /// The step's time is `NaN`.
    Nan,
    /// A step at this time is already there.
    Duplicated(Time),
}

/// The step times are strictly increasing and none of them is `NaN`.
pub open spec fn steps_sorted<T>(steps: Seq<(Time, T)>) -> bool {
    &&& forall|i: int| 0 <= i < steps.len() ==> !(#[trigger] steps[i].0 is NaN)
    &&& forall|i: int, j: int| 0 <= i < j < steps.len() ==> (#[trigger] steps[i].0).spec_lt(#[trigger] steps[j].0)
}

/// Some step starts exactly at `t`.
pub open spec fn has_threshold<T>(steps: Seq<(Time, T)>, t: Time) -> bool {
    exists|i: int| 0 <= i < steps.len() && #[trigger] steps[i].0 == t
}

/// The steps before index `p` start before `t`, the others do not.
pub open spec fn splits_at<T>(steps: Seq<(Time, T)>, t: Time, p: int) -> bool {
    &&& 0 <= p <= steps.len()
    &&& forall|i: int| 0 <= i < p ==> (#[trigger] steps[i].0).spec_lt(t)
    &&& forall|i: int| p <= i < steps.len() ==> !(#[trigger] steps[i].0).spec_lt(t)
}

/// The segment in force at `t`: that of the last step starting at or before
/// `t`, or `initial` where there is none.
pub open spec fn active_segment<T>(initial: T, steps: Seq<(Time, T)>, t: Time) -> T
    decreases steps.len(),
{
    if steps.len() == 0 {
        initial
    } else if steps.last().0.spec_le(t) {
        steps.last().1
    } else {
        active_segment(initial, steps.drop_last(), t)
    }
}

/// Where the first `q` steps start at or before `t` and the others after it,
/// the segment in force is that of step `q - 1`, or `initial` for `q == 0`.
proof fn lemma_active_segment<T>(initial: T, steps: Seq<(Time, T)>, t: Time, q: int)
    requires
        0 <= q <= steps.len(),
        forall|i: int| 0 <= i < q ==> (#[trigger] steps[i].0).spec_le(t),
        forall|i: int| q <= i < steps.len() ==> !(#[trigger] steps[i].0).spec_le(t),
    ensures
        active_segment(initial, steps, t) == (if q == 0 {
            initial
        } else {
            steps[q - 1].1
        }),
    decreases steps.len(),
{
    if steps.len() > 0 && q < steps.len() {
        let rest = steps.drop_last();
        assert forall|i: int| 0 <= i < q implies (#[trigger] rest[i].0).spec_le(t) by {
            assert(rest[i] == steps[i]);
        }
        assert forall|i: int| q <= i < rest.len() implies !(#[trigger] rest[i].0).spec_le(t) by {
            assert(rest[i] == steps[i]);
        }
        lemma_active_segment(initial, rest, t, q);
    }
}

/// A function made of segments: `initial` until the first step, then the
/// segment of the latest step whose time has come.
#[derive(Debug)]
pub struct Switch<T> {
    initial_step: T,
    switching_steps: Vec<(Time, T)>,
}

impl<T> Switch<T> {
    #[verifier::type_invariant]
    spec fn inv(self) -> bool {
        steps_sorted(self.switching_steps@)
    }

    /// The segment in force before the first step.
    pub closed spec fn initial(self) -> T {
        self.initial_step
    }

    /// The steps, each a start time and a segment, in order of time.
    pub closed spec fn steps(self) -> Seq<(Time, T)> {
        self.switching_steps@
    }

    /// A switch that is `initial_step` at every time.
    pub fn new(initial_step: T) -> (r: Switch<T>)
        ensures
            r.initial() == initial_step,
            r.steps() == Seq::<(Time, T)>::empty(),
    {
        Switch { initial_step, switching_steps: Vec::new() }
    }

    /// As `new`, with room for `capacity` steps.
    pub fn new_with_capacity(initial_step: T, capacity: usize) -> (r: Switch<T>)
        ensures
            r.initial() == initial_step,
            r.steps() == Seq::<(Time, T)>::empty(),
    {
        Switch { initial_step, switching_steps: Vec::with_capacity(capacity) }
    }

    /// Looks `t` up among the step times: `Ok` with the step that starts at
    /// `t`, else `Err` with the number of steps that start before it.
    fn search(&self, t: Time) -> (r: Result<usize, usize>)
        ensures
            r matches Ok(i) ==> i < self.steps().len() && self.steps()[i as int].0 == t,
            r matches Err(p) ==> splits_at(self.steps(), t, p as int) && !has_threshold(self.steps(), t),
    {
        proof {
            use_type_invariant(self);
        }
        let ghost steps = self.steps();
        let mut lo: usize = 0;
        let mut hi: usize = self.switching_steps.len();
        while lo < hi
            invariant
                steps == self.steps(),
                steps_sorted(steps),
                0 <= lo <= hi <= steps.len(),
                forall|i: int| 0 <= i < lo ==> (#[trigger] steps[i].0).spec_lt(t),
                forall|i: int| hi <= i < steps.len() ==> !(#[trigger] steps[i].0).spec_lt(t) && steps[i].0 != t,
            decreases hi - lo,
        {
            let mid: usize = lo + (hi - lo) / 2;
            let step_time = self.switching_steps[mid].0;
            if step_time.lt(&t) {
                assert forall|i: int| 0 <= i <= mid implies (#[trigger] steps[i].0).spec_lt(t) by {
                    if i < mid {
                        assert(steps[i].0.spec_lt(steps[mid as int].0));
                    }
                }
                lo = mid + 1;
            } else if step_time == t {
                return Ok(mid);
            } else {
                assert forall|i: int| mid <= i < steps.len() implies !(#[trigger] steps[i].0).spec_lt(t)
                    && steps[i].0 != t by {
                    if i > mid {
                        assert(steps[mid as int].0.spec_lt(steps[i].0));
                    }
                }
                hi = mid;
            }
        }
        Err(lo)
    }

    /// Adds a step to `after` at `at_seconds`. Refused, with nothing changed,
    /// where `at_seconds` is `NaN` or a step already starts there.
    pub fn try_step_at(self, at_seconds: Time, after: T) -> (r: Result<Switch<T>, BadSwitchStep>)
        ensures
            at_seconds is NaN ==> r == Err::<Switch<T>, BadSwitchStep>(BadSwitchStep::Nan),
            !(at_seconds is NaN) && has_threshold(self.steps(), at_seconds) ==> r == Err::<
                Switch<T>,
                BadSwitchStep,
            >(BadSwitchStep::Duplicated(at_seconds)),
            !(at_seconds is NaN) && !has_threshold(self.steps(), at_seconds) ==> {
                &&& r is Ok
                &&& r->Ok_0.initial() == self.initial()
                &&& exists|p: int|
                    splits_at(self.steps(), at_seconds, p) && r->Ok_0.steps() == self.steps().insert(
                        p,
                        (at_seconds, after),
                    )
            },
    {
        proof {
            use_type_invariant(&self);
        }
        if at_seconds.is_nan() {
            Err(BadSwitchStep::Nan)
        } else {
            match self.search(at_seconds) {
                Ok(_) => Err(BadSwitchStep::Duplicated(at_seconds)),
                Err(p) => {
                    let ghost old_steps = self.steps();
                    let Switch { initial_step, mut switching_steps } = self;
                    switching_steps.insert(p, (at_seconds, after));
                    proof {
                        let s = switching_steps@;
                        assert forall|i: int, j: int| 0 <= i < j < s.len() implies (
                        #[trigger] s[i].0).spec_lt(#[trigger] s[j].0) by {
                            if j < p {
                                assert(old_steps[i].0.spec_lt(old_steps[j].0));
                            } else if j == p {
                                assert(old_steps[i].0.spec_lt(at_seconds));
                            } else if i < p {
                                assert(old_steps[i].0.spec_lt(old_steps[j - 1].0));
                            } else if i == p {
                                assert(!old_steps[j - 1].0.spec_lt(at_seconds));
                                assert(old_steps[j - 1].0 != at_seconds);
                            } else {
                                assert(old_steps[i - 1].0.spec_lt(old_steps[j - 1].0));
                            }
                        }
                        assert forall|i: int| 0 <= i < s.len() implies !(#[trigger] s[i].0 is NaN) by {
                            if i < p {
                                assert(old_steps[i].0 == s[i].0);
                            } else if i > p {
                                assert(old_steps[i - 1].0 == s[i].0);
                            }
                        }
                    }
                    Ok(Switch { initial_step, switching_steps })
                },
            }
        }
    }

    /// Adds a step to `after` at `at_seconds`, which must be neither `NaN`
    /// nor the time of a step already there.
    pub fn step_at(self, at_seconds: Time, after: T) -> (r: Switch<T>)
        requires
            !(at_seconds is NaN),
            !has_threshold(self.steps(), at_seconds),
        ensures
            r.initial() == self.initial(),
            exists|p: int|
                splits_at(self.steps(), at_seconds, p) && r.steps() == self.steps().insert(
                    p,
                    (at_seconds, after),
                ),
    {
        self.try_step_at(at_seconds, after).unwrap()
    }
}

impl<T: TimeFn> TimeFn for Switch<T> {
    type Output = T::Output;

    open spec fn spec_at(&self, t: Time) -> T::Output {
        active_segment(self.initial(), self.steps(), t).spec_at(t)
    }

    fn at(&self, t: Time) -> (r: T::Output) {
        proof {
            use_type_invariant(self);
        }
        let ghost steps = self.steps();
        match self.search(t) {
            Err(p) => {
                proof {
                    assert forall|i: int| p <= i < steps.len() implies !(#[trigger] steps[i].0).spec_le(t) by {
                        assert(steps[i].0 != t);
                    }
                    lemma_active_segment(self.initial(), steps, t, p as int);
                }
                if p == 0 {
                    self.initial_step.at(t)
                } else {
                    self.switching_steps[p - 1].1.at(t)
                }
            },
            Ok(i) => {
                proof {
                    assert forall|j: int| 0 <= j <= i implies (#[trigger] steps[j].0).spec_le(t) by {
                        if j < i {
                            assert(steps[j].0.spec_lt(steps[i as int].0));
                        }
                    }
                    assert forall|j: int| i < j < steps.len() implies !(#[trigger] steps[j].0).spec_le(t) by {
                        assert(steps[i as int].0.spec_lt(steps[j].0));
                    }
                    lemma_active_segment(self.initial(), steps, t, i + 1);
                }
                self.switching_steps[i].1.at(t)
            },
        }
    }
}

/// A switch from `x` to `y` at `a` and then to `z` at `b > a` is `x` before
/// `a`, `y` from `a` until `b`, and `z` from `b` on.
pub proof fn lemma_two_steps<T: TimeFn>(s: Switch<T>, x: T, a: Time, y: T, b: Time, z: T, t: Time)
    requires
        a.spec_lt(b),
        s.initial() == x,
        s.steps() == seq![(a, y), (b, z)],
    ensures
        t.spec_lt(a) ==> s.spec_at(t) == x.spec_at(t),
        a.spec_le(t) && t.spec_lt(b) ==> s.spec_at(t) == y.spec_at(t),
        b.spec_le(t) ==> s.spec_at(t) == z.spec_at(t),
{
    let steps = s.steps();
    if t.spec_lt(a) {
        lemma_active_segment(x, steps, t, 0);
    } else if a.spec_le(t) && t.spec_lt(b) {
        lemma_active_segment(x, steps, t, 1);
    } else if b.spec_le(t) {
        lemma_active_segment(x, steps, t, 2);
    }
}

/// A step time, once taken, stays taken whatever is inserted later, so a
/// second step at that time is refused; the time just inserted is taken.
pub proof fn lemma_threshold_stays_taken<T>(steps: Seq<(Time, T)>, a: Time, p: int, step: (Time, T))
    requires
        0 <= p <= steps.len(),
    ensures
        has_threshold(steps.insert(p, step), step.0),
        has_threshold(steps, a) ==> has_threshold(steps.insert(p, step), a),
{
    let s = steps.insert(p, step);
    assert(s[p].0 == step.0);
    if has_threshold(steps, a) {
        let i = choose|i: int| 0 <= i < steps.len() && #[trigger] steps[i].0 == a;
        if i < p {
            assert(s[i].0 == a);
        } else {
            assert(s[i + 1].0 == a);
        }
    }
}

} // verus!
