//! The load: how many requests are in flight, averaged over time.
use vstd::prelude::*;

verus! {

/// One step of the average.
#[derive(Clone, Copy, Debug, PartialEq, Eq, Structural)]
pub enum Sample {
    /// The average starts at this value.
    First(u32),
    /// The average moves towards `value`, as far as `elapsed` nanoseconds since the
    /// step before allow.
    Blend { elapsed: u128, value: u32 },
}

/// A moving average, as the steps that it takes: an observation counts only if it is
/// later than all before it.
#[derive(Debug)]
pub struct Ewma {
    timestamp: u128,
    started: bool,
    samples: Vec<Sample>,
}

/// An [`Ewma`] in plain numbers.
pub struct EwmaState {
    /// When the last step was taken, in nanoseconds.
    pub timestamp: u128,
    /// Whether a step was ever taken.
    pub started: bool,
    /// The steps that were not yet handed out.
    pub samples: Seq<Sample>,
}

impl EwmaState {
    /// The average after `value` was observed at `ts`.
    pub open spec fn plus(self, value: u32, ts: u128) -> EwmaState {
        if ts <= self.timestamp {
            self
        } else if !self.started {
            EwmaState {
                timestamp: ts,
                started: true,
                samples: self.samples.push(Sample::First(value)),
            }
        } else {
            EwmaState {
                timestamp: ts,
                started: true,
                samples: self.samples.push(
                    Sample::Blend { elapsed: (ts - self.timestamp) as u128, value },
                ),
            }
        }
    }

    /// The average after several observations, each a value and its time.
    pub open spec fn plus_all(self, seen: Seq<(u32, u128)>) -> EwmaState
        decreases seen.len(),
    {
        if seen.len() == 0 {
            self
        } else {
            self.plus_all(seen.drop_last()).plus(seen.last().0, seen.last().1)
        }
    }
}

/// The time that the steps account for.
pub open spec fn time_in(samples: Seq<Sample>) -> int
    decreases samples.len(),
{
    if samples.len() == 0 {
        0
    } else {
        time_in(samples.drop_last()) + match samples.last() {
            Sample::First(_) => 0,
            Sample::Blend { elapsed, .. } => elapsed as int,
        }
    }
}

impl View for Ewma {
    type V = EwmaState;

    closed spec fn view(&self) -> EwmaState {
        EwmaState {
            timestamp: self.timestamp,
            started: self.started,
            samples: self.samples@,
        }
    }
}

impl Ewma {
    /// An average that has taken no step. Only what is later than `timestamp` counts.
    pub fn new(timestamp: u128) -> (avg: Ewma)
        ensures
            avg@ == (EwmaState { timestamp, started: false, samples: Seq::empty() }),
    {
        Ewma { timestamp, started: false, samples: Vec::new() }
    }

    /// Observes `value` at the time `ts`.
    pub fn add(&mut self, value: u32, ts: u128)
        ensures
            final(self)@ == old(self)@.plus(value, ts),
    {
        if ts <= self.timestamp {
            return;
        }
        if !self.started {
            self.samples.push(Sample::First(value));
            self.started = true;
        } else {
            self.samples.push(Sample::Blend { elapsed: ts - self.timestamp, value });
        }
        self.timestamp = ts;
    }

    /// Hands out the steps that were taken since they were last handed out.
    pub fn take_samples(&mut self) -> (samples: Vec<Sample>)
        ensures
            samples@ == old(self)@.samples,
            final(self)@ == (EwmaState { samples: Seq::empty(), ..old(self)@ }),
    {
        let mut samples: Vec<Sample> = Vec::new();
        std::mem::swap(&mut samples, &mut self.samples);
        samples
    }
}

/// Requests in flight, now and on average.
#[derive(Debug)]
pub struct LoadAvg {
    pub avg: Ewma,
    pub in_flight: u32,
}

/// A [`LoadAvg`] in plain numbers.
pub struct LoadState {
    pub avg: EwmaState,
    pub in_flight: int,
}

impl View for LoadAvg {
    type V = LoadState;

    open spec fn view(&self) -> LoadState {
        LoadState { avg: self.avg@, in_flight: self.in_flight as int }
    }
}

impl LoadAvg {
    /// Nothing in flight, and nothing observed.
    pub fn new(timestamp: u128) -> (load: LoadAvg)
        ensures
            load@.in_flight == 0,
            load.in_flight == 0,
            load@.avg == (EwmaState { timestamp, started: false, samples: Seq::empty() }),
    {
        LoadAvg { avg: Ewma::new(timestamp), in_flight: 0 }
    }
}

/// Time never runs back, and no step gets lost: once the average has started, the
/// steps account for all the time until the last of them.
pub proof fn steps_account_for_time(s: EwmaState, seen: Seq<(u32, u128)>)
    ensures
        s.timestamp <= s.plus_all(seen).timestamp,
        s.started ==> s.plus_all(seen).started,
        s.started ==> time_in(s.plus_all(seen).samples) - time_in(s.samples) == s.plus_all(
            seen,
        ).timestamp - s.timestamp,
    decreases seen.len(),
{
    if seen.len() > 0 {
        let before = s.plus_all(seen.drop_last());
        steps_account_for_time(s, seen.drop_last());
        let after = s.plus_all(seen);
        if after.samples != before.samples {
            assert(after.samples.drop_last() =~= before.samples);
        }
    }
}

/// An average starts once: the step that starts it is the first that it takes, and
/// every later one moves it by some time.
pub proof fn average_starts_once(timestamp: u128, seen: Seq<(u32, u128)>)
    ensures
        ({
            let s = EwmaState { timestamp, started: false, samples: Seq::empty() }.plus_all(seen);
            &&& s.started <==> s.samples.len() > 0
            &&& forall|i: int|
                0 <= i < s.samples.len() ==> (#[trigger] s.samples[i] is First <==> i == 0)
            &&& forall|i: int|
                0 < i < s.samples.len() ==> #[trigger] s.samples[i]->elapsed > 0
        }),
    decreases seen.len(),
{
    if seen.len() > 0 {
        average_starts_once(timestamp, seen.drop_last());
    }
}

/// A later observation is one more step behind those before it, at its time: the first one
/// ever starts the average at its value, and any other moves it towards its value by the
/// time that has passed since the last. One that is not later changes nothing.
pub proof fn later_observations_are_steps(s: EwmaState, value: u32, ts: u128)
    ensures
        ts <= s.timestamp ==> s.plus(value, ts) == s,
        ts > s.timestamp ==> {
            let after = s.plus(value, ts);
            let step = after.samples.last();
            &&& after.timestamp == ts
            &&& after.started
            &&& after.samples.len() == s.samples.len() + 1
            &&& after.samples.drop_last() == s.samples
            &&& !s.started ==> step == Sample::First(value)
            &&& s.started ==> step is Blend && step->elapsed == ts - s.timestamp
                && step->value == value
        },
{
    if ts > s.timestamp {
        assert(s.plus(value, ts).samples.drop_last() =~= s.samples);
    }
}

/// The load is the requests in flight and their average.
pub proof fn load_is_the_fields(load: LoadAvg)
    ensures
        load@.in_flight == load.in_flight,
        load@.avg == load.avg@,
{
}

} // verus!
