use timefn::{BadSwitchStep, Const, Switch, Time, TimeFn, TICKS_PER_SECOND};

fn secs_half(halves: i64) -> Time {
    Time::Ticks(halves * TICKS_PER_SECOND / 2)
}

fn c(v: i32) -> Const<Time> {
    Const::new(Time::seconds(v))
}

#[test]
fn switch_selects_latest_step() {
    let s = Switch::new(c(0))
        .try_step_at(Time::seconds(1), c(10))
        .unwrap()
        .try_step_at(Time::seconds(2), c(20))
        .unwrap();
    assert_eq!(s.at(secs_half(1)), Time::seconds(0));
    assert_eq!(s.at(Time::seconds(1)), Time::seconds(10));
    assert_eq!(s.at(secs_half(3)), Time::seconds(10));
    assert_eq!(s.at(Time::seconds(2)), Time::seconds(20));
    assert_eq!(s.at(Time::seconds(5)), Time::seconds(20));
}

#[test]
fn switch_steps_inserted_out_of_order() {
    let s = Switch::new_with_capacity(c(0), 3)
        .step_at(Time::seconds(2), c(20))
        .step_at(Time::seconds(1), c(10))
        .step_at(Time::seconds(-1), c(-10));
    assert_eq!(s.at(Time::seconds(-2)), Time::seconds(0));
    assert_eq!(s.at(Time::seconds(-1)), Time::seconds(-10));
    assert_eq!(s.at(Time::seconds(0)), Time::seconds(-10));
    assert_eq!(s.at(secs_half(3)), Time::seconds(10));
    assert_eq!(s.at(Time::seconds(7)), Time::seconds(20));
}

#[test]
fn switch_without_steps_is_initial() {
    let s = Switch::new(c(4));
    assert_eq!(s.at(Time::seconds(-100)), Time::seconds(4));
    assert_eq!(s.at(Time::seconds(100)), Time::seconds(4));
}

#[test]
fn switch_at_nan_is_initial() {
    let s = Switch::new(c(0)).step_at(Time::seconds(1), c(10));
    assert_eq!(s.at(Time::NaN), Time::seconds(0));
}

#[test]
fn duplicate_step_refused() {
    let s = Switch::new(c(0)).step_at(Time::seconds(1), c(10));
    match s.try_step_at(Time::seconds(1), c(11)) {
        Err(e) => assert_eq!(e, BadSwitchStep::Duplicated(Time::seconds(1))),
        Ok(_) => panic!("duplicate accepted"),
    }
}

#[test]
fn duplicate_step_refused_after_other_insertions() {
    let s = Switch::new(c(0))
        .step_at(Time::seconds(1), c(10))
        .step_at(Time::seconds(3), c(30))
        .step_at(Time::seconds(0), c(5));
    match s.try_step_at(Time::seconds(1), c(11)) {
        Err(e) => assert_eq!(e, BadSwitchStep::Duplicated(Time::seconds(1))),
        Ok(_) => panic!("duplicate accepted"),
    }
    let t = Switch::new(c(0))
        .step_at(Time::seconds(3), c(30))
        .step_at(Time::seconds(0), c(5))
        .step_at(Time::seconds(1), c(10));
    assert!(matches!(
        t.try_step_at(Time::seconds(3), c(31)),
        Err(BadSwitchStep::Duplicated(Time::Ticks(x))) if x == 3 * TICKS_PER_SECOND
    ));
}

#[test]
fn nan_step_refused() {
    let s = Switch::new(c(0)).step_at(Time::seconds(1), c(10));
    match s.try_step_at(Time::NaN, c(11)) {
        Err(e) => assert_eq!(e, BadSwitchStep::Nan),
        Ok(_) => panic!("NaN accepted"),
    }
    let empty = Switch::new(c(0));
    assert!(matches!(empty.try_step_at(Time::NaN, c(1)), Err(BadSwitchStep::Nan)));
}
