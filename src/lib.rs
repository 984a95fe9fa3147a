//! Time functions: values that vary with time, built from a few leaves and
//! combinators, and rendered into interleaved multichannel samples.

pub mod player;
pub mod switch;
pub mod time;

pub use player::{Backend, BackendCall, NoChannels, Player, Sample, SampleSource, DEFAULT_SAMPLE_RATE};
pub use switch::{BadSwitchStep, Switch};
pub use time::{
    time_fn, Combine, Compose, Const, Mapped, Proxy, Seconds, Speed, StepAt, Time, TimeClosureFn, TimeFn,
    WithSpeed, TICKS_PER_SECOND,
};
