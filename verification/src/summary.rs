//! The summary that each side keeps of its traffic: requests and responses are
//! reported through a channel and counted window by window.
use crate::channel::{
    capacity, clone_sender, drained, fed, given, open_channel, try_recv, try_send, Attempt,
};
use crate::latency::{
    counted, is_percentile, latencies_are_counted_as_themselves, latencies_are_those_recorded,
    recorded, Latencies,
};
use crate::load::{LoadAvg, LoadState};
use crate::status::Status;
use tokio::sync::mpsc::{Receiver, Sender};
use vstd::multiset::Multiset;
use vstd::prelude::*;

verus! {

/// How many events the channel holds before it takes no more.
pub const CAPACITY: usize = 1_000_000;

/// What is reported of the traffic. Times are in nanoseconds.
#[derive(Clone, Copy, Debug, PartialEq, Eq, Structural)]
pub enum Event {
    /// A request was made at this time.
    Request(u128),
    /// A request was answered with `status`, or was given up where that is `None`.
    Response { status: Option<Status>, elapsed: u128, time: u128 },
}

/// What the channel had to give.
#[derive(Clone, Copy, Debug, PartialEq, Eq, Structural)]
pub enum Received {
    Event(Event),
    /// Nothing at the moment.
    Empty,
    /// Nothing, and nothing will come.
    Disconnected,
}

/// What a window amounts to. The percentiles are in milliseconds.
#[derive(Clone, Copy, Debug, PartialEq, Eq, Structural)]
pub struct Summary {
    /// The responses, and the requests that were given up.
    pub total: u64,
    /// The responses that succeeded.
    pub success: u64,
    /// The requests that were given up.
    pub cancel: u64,
    pub p50: u64,
    pub p90: u64,
    pub p99: u64,
}

/// Why there is no summary.
#[derive(Clone, Copy, Debug, PartialEq, Eq, Structural)]
pub enum SummaryError {
    /// Nobody reports any more.
    Disconnected,
    /// A response was reported with no request in flight, or a request with more of
    /// them in flight than can be counted.
    Unbalanced,
}

/// The counts of a window that is not over.
#[derive(Clone, Copy, Debug, PartialEq, Eq, Structural)]
pub struct Tally {
    pub total: u64,
    pub success: u64,
    pub cancel: u64,
}

/// All that events change.
pub struct Window {
    pub load: LoadState,
    pub total: int,
    pub success: int,
    pub cancel: int,
    pub latencies: Multiset<u64>,
}

/// The window that the three parts make up.
pub open spec fn window(tally: Tally, load: LoadAvg, latencies: Latencies) -> Window {
    Window {
        load: load@,
        total: tally.total as int,
        success: tally.success as int,
        cancel: tally.cancel as int,
        latencies: latencies@,
    }
}

/// Whole milliseconds, in 64 bits.
pub open spec fn millis(nanos: u128) -> u64 {
    ((nanos / 1_000_000) % 0x1_0000_0000_0000_0000) as u64
}

impl Event {
    pub open spec fn time(self) -> u128 {
        match self {
            Event::Request(time) => time,
            Event::Response { time, .. } => time,
        }
    }

    /// A response that succeeded.
    pub open spec fn succeeded(self) -> bool {
        self matches Event::Response { status: Some(s), .. } && s.succeeds()
    }

    /// A request that was given up.
    pub open spec fn cancelled(self) -> bool {
        self matches Event::Response { status: None, .. }
    }
}

/// The window after an event. `None` where the requests in flight cannot be counted
/// any more.
pub open spec fn after_event(w: Window, ev: Event) -> Option<Window> {
    let avg = w.load.avg.plus(w.load.in_flight as u32, ev.time());
    match ev {
        Event::Request(_) => if w.load.in_flight < u32::MAX {
            Some(Window { load: LoadState { avg, in_flight: w.load.in_flight + 1 }, ..w })
        } else {
            None
        },
        Event::Response { elapsed, .. } => if w.load.in_flight > 0 {
            Some(
                Window {
                    load: LoadState { avg, in_flight: w.load.in_flight - 1 },
                    total: w.total + 1,
                    success: if ev.succeeded() {
                        w.success + 1
                    } else {
                        w.success
                    },
                    cancel: if ev.cancelled() {
                        w.cancel + 1
                    } else {
                        w.cancel
                    },
                    latencies: counted(w.latencies, Latencies::slot(millis(elapsed))),
                },
            )
        } else {
            None
        },
    }
}

/// The window after the events of `log`, in their order.
pub open spec fn after_all(w: Window, log: Seq<Event>) -> Option<Window>
    decreases log.len(),
{
    if log.len() == 0 {
        Some(w)
    } else {
        match after_all(w, log.drop_last()) {
            Some(w) => after_event(w, log.last()),
            None => None,
        }
    }
}

impl Summary {
    /// The percentiles are those of `latencies`, of which there are not more than
    /// 2^40.
    pub open spec fn measures(self, latencies: Multiset<u64>) -> bool {
        latencies.len() <= 0x100_0000_0000 ==> {
            &&& is_percentile(latencies, 50, self.p50)
            &&& is_percentile(latencies, 90, self.p90)
            &&& is_percentile(latencies, 99, self.p99)
        }
    }

    /// The summary of the window `w`.
    pub open spec fn sums_up(self, w: Window) -> bool {
        &&& self.total == w.total
        &&& self.success == w.success
        &&& self.cancel == w.cancel
        &&& self.measures(w.latencies)
    }
}

fn to_millis(nanos: u128) -> (ms: u64)
    ensures
        ms == millis(nanos),
{
    let whole = nanos / 1_000_000;
    assert(whole as u64 == whole % 0x1_0000_0000_0000_0000) by (bit_vector);
    #[verifier::truncate]
    let ms = whole as u64;
    ms
}

/// Counts one event. Says whether the requests in flight could still be counted;
/// where they could not, nothing is changed.
pub fn apply_event(
    tally: &mut Tally,
    load: &mut LoadAvg,
    latencies: &mut Latencies,
    ev: Event,
) -> (ok: bool)
    requires
        old(latencies).wf(),
        old(tally).total < u64::MAX,
        old(tally).success <= old(tally).total,
        old(tally).cancel <= old(tally).total,
    ensures
        final(latencies).wf(),
        ({
            let after = after_event(window(*old(tally), *old(load), *old(latencies)), ev);
            &&& ok <==> after is Some
            &&& ok ==> after == Some(window(*final(tally), *final(load), *final(latencies)))
            &&& !ok ==> *final(tally) == *old(tally) && *final(load) == *old(load)
                && *final(latencies) == *old(latencies)
        }),
        final(tally).success <= final(tally).total,
        final(tally).cancel <= final(tally).total,
        final(tally).total <= old(tally).total + 1,
        ev matches Event::Request(_) ==> {
            &&& ok <==> old(load).in_flight < u32::MAX
            &&& ok ==> final(load).in_flight == old(load).in_flight + 1
            &&& *final(tally) == *old(tally)
            &&& final(latencies)@ == old(latencies)@
        },
        ev matches Event::Response { status, elapsed, .. } ==> {
            let ms = (elapsed / 1_000_000) as int;
            &&& ok <==> old(load).in_flight > 0
            &&& ok ==> {
                &&& final(load).in_flight == old(load).in_flight - 1
                &&& final(tally).total == old(tally).total + 1
                &&& final(tally).success == old(tally).success + (match status {
                    Some(s) => if 200 <= s.number() <= 299 {
                        1int
                    } else {
                        0
                    },
                    None => 0,
                })
                &&& final(tally).cancel == old(tally).cancel + if status is None {
                    1int
                } else {
                    0
                }
                &&& ms < 2048 && old(latencies)@.count(ms as u64) < u64::MAX ==> (final(latencies)@
                    == old(latencies)@.insert(ms as u64))
            }
        },
{
    match ev {
        Event::Request(time) => {
            if load.in_flight == u32::MAX {
                return false;
            }
            load.avg.add(load.in_flight, time);
            load.in_flight += 1;
        },
        Event::Response { status, elapsed, time } => {
            if load.in_flight == 0 {
                return false;
            }
            load.avg.add(load.in_flight, time);
            load.in_flight -= 1;
            latencies.record(to_millis(elapsed));
            match status {
                Some(s) => if s.is_success() {
                    tally.success += 1;
                },
                None => {
                    tally.cancel += 1;
                },
            }
            tally.total += 1;
        },
    }
    true
}

/// Sums up a window and forgets its latencies.
pub fn finish(tally: &Tally, latencies: &mut Latencies) -> (summary: Summary)
    requires
        old(latencies).wf(),
    ensures
        final(latencies).wf(),
        final(latencies)@ == Multiset::<u64>::empty(),
        summary.total == tally.total,
        summary.success == tally.success,
        summary.cancel == tally.cancel,
        summary.measures(old(latencies)@),
{
    let (p50, p90, p99) = latencies.percentiles();
    latencies.clear();
    Summary {
        total: tally.total,
        success: tally.success,
        cancel: tally.cancel,
        p50,
        p90,
        p99,
    }
}

/// Where requests are reported.
pub struct SummaryTx {
    tx: Sender<Event>,
}

/// Where the response to one request is reported. What becomes of the request is
/// reported at most once, and only if the request was.
pub struct SummaryTxRsp {
    start: u128,
    announced: Attempt,
    tx: Option<Sender<Event>>,
}

/// A channel for reports, with room for [`CAPACITY`] of them, and its receiver.
pub fn channel() -> (ends: (SummaryTx, Receiver<Event>))
    ensures
        ends.0.capacity() == CAPACITY,
        ends.0.capacity() == 1_000_000,
        ends.0.feeds() == drained(ends.1),
        given(ends.1) == Seq::<Received>::empty(),
{
    let (tx, rx) = open_channel(CAPACITY);
    (SummaryTx { tx }, rx)
}

/// What it means that `rsp` was given for a request that was made at `start`: the
/// request was handed to the channel, and the handle is open exactly where the channel
/// took it.
pub open spec fn requested(tx: SummaryTx, start: u128, rsp: SummaryTxRsp) -> bool {
    &&& rsp.announced().what() == Event::Request(start)
    &&& rsp.announced().to() == tx.feeds()
    &&& rsp.start() == start
    &&& rsp.is_open() <==> rsp.announced().succeeded()
    &&& rsp.is_open() ==> rsp.feeds() == tx.feeds() && rsp.capacity() == tx.capacity()
}

/// What it means that `sent` was handed to the channel for the handle `rsp`: the report,
/// exactly where the handle was open.
pub open spec fn reported(
    rsp: SummaryTxRsp,
    status: Option<Status>,
    end: u128,
    sent: Option<Attempt>,
) -> bool {
    &&& sent is Some <==> rsp.is_open()
    &&& sent matches Some(attempt) ==> attempt.what() == rsp.report(status, end) && attempt.to()
        == rsp.feeds()
}

/// What it means that the handle `rsp` was used, and became `after`.
pub open spec fn responded(
    rsp: SummaryTxRsp,
    after: SummaryTxRsp,
    status: Option<Status>,
    end: u128,
    sent: Option<Attempt>,
) -> bool {
    &&& reported(rsp, status, end, sent)
    &&& !after.is_open()
    &&& after.start() == rsp.start()
    &&& after.announced() == rsp.announced()
}

impl Clone for SummaryTx {
    /// One more place to report to the same channel.
    fn clone(&self) -> (copy: SummaryTx)
        ensures
            copy.capacity() == self.capacity(),
            copy.feeds() == self.feeds(),
    {
        SummaryTx { tx: clone_sender(&self.tx) }
    }
}

impl SummaryTx {
    /// How many events the channel was made to hold.
    pub closed spec fn capacity(self) -> nat {
        capacity(self.tx)
    }

    /// The channel to which reports go.
    pub closed spec fn feeds(self) -> int {
        fed(self.tx)
    }

    /// Where to report the response to a request that was made at `start`, once the
    /// request was handed to the channel.
    pub fn opened(&self, start: u128, attempt: Attempt) -> (rsp: SummaryTxRsp)
        ensures
            rsp.start() == start,
            rsp.announced() == attempt,
            rsp.is_open() <==> attempt.succeeded(),
            rsp.is_open() ==> rsp.feeds() == self.feeds() && rsp.capacity() == self.capacity(),
    {
        let tx = if attempt.taken() {
            Some(clone_sender(&self.tx))
        } else {
            None
        };
        SummaryTxRsp { start, announced: attempt, tx }
    }

    /// Reports a request that was made at `start`. Where the channel does not take the
    /// report, the response is not reported either. That nothing else is handed to the
    /// channel is left unsaid: a sender shows no trace of what went through it.
    pub fn request(&self, start: u128) -> (rsp: SummaryTxRsp)
        ensures
            requested(*self, start, rsp),
    {
        let attempt = try_send(&self.tx, Event::Request(start));
        self.opened(start, attempt)
    }
}

impl SummaryTxRsp {
    /// When the request was made.
    pub closed spec fn start(self) -> u128 {
        self.start
    }

    /// How the request was reported.
    pub closed spec fn announced(self) -> Attempt {
        self.announced
    }

    /// Whether the response is still to be reported.
    pub closed spec fn is_open(self) -> bool {
        self.tx is Some
    }

    /// How many events the channel was made to hold.
    pub closed spec fn capacity(self) -> nat {
        capacity(self.tx->0)
    }

    /// The channel to which the report goes.
    pub closed spec fn feeds(self) -> int {
        fed(self.tx->0)
    }

    /// What is reported of a request that was answered, or given up, at `end`.
    pub open spec fn report(self, status: Option<Status>, end: u128) -> Event {
        Event::Response {
            status,
            elapsed: if end < self.start() {
                0
            } else {
                (end - self.start()) as u128
            },
            time: end,
        }
    }

    /// How the request was reported.
    pub fn announcement(&self) -> (attempt: Attempt)
        ensures
            attempt == self.announced(),
    {
        self.announced
    }

    /// Whether the response is still to be reported.
    pub fn open(&self) -> (yes: bool)
        ensures
            yes == self.is_open(),
    {
        self.tx.is_some()
    }

    /// Closes the handle, and gives what is to be reported, and where, if it was open.
    pub fn take_report(&mut self, status: Option<Status>, end: u128) -> (report: Option<
        (SummaryTx, Event),
    >)
        ensures
            !final(self).is_open(),
            final(self).start() == old(self).start(),
            final(self).announced() == old(self).announced(),
            report is Some <==> old(self).is_open(),
            report matches Some((tx, ev)) ==> {
                &&& ev == old(self).report(status, end)
                &&& ev == Event::Response {
                    status,
                    elapsed: if end < old(self).start() {
                        0
                    } else {
                        (end - old(self).start()) as u128
                    },
                    time: end,
                }
                &&& tx.capacity() == old(self).capacity()
                &&& tx.feeds() == old(self).feeds()
            },
    {
        let elapsed = end.saturating_sub(self.start);
        match self.tx.take() {
            Some(tx) => Some((SummaryTx { tx }, Event::Response { status, elapsed, time: end })),
            None => None,
        }
    }

    /// Reports what became of the request, unless that was done. That nothing else is
    /// handed to the channel is left unsaid: a sender shows no trace of what went through
    /// it.
    pub fn respond(&mut self, status: Option<Status>, end: u128) -> (sent: Option<Attempt>)
        ensures
            responded(*old(self), *final(self), status, end, sent),
    {
        match self.take_report(status, end) {
            Some((to, ev)) => Some(try_send(&to.tx, ev)),
            None => None,
        }
    }

    /// Reports that the request was answered. What [`Self::respond`] leaves unsaid is
    /// left unsaid here too.
    pub fn response(self, status: Status, end: u128) -> (sent: Option<Attempt>)
        ensures
            reported(self, Some(status), end, sent),
    {
        let mut rsp = self;
        rsp.respond(Some(status), end)
    }
}

/// How the counting goes on.
#[derive(Clone, Copy, Debug, PartialEq, Eq, Structural)]
pub enum Progress {
    /// There may be more events.
    More,
    /// The window is over.
    Done,
    /// There is no summary.
    Failed(SummaryError),
}

/// How the counting goes on from the window `w` with what the channel gave.
pub open spec fn progress(w: Window, received: Received) -> Progress {
    match received {
        Received::Event(ev) => if after_event(w, ev) is Some {
            Progress::More
        } else {
            Progress::Failed(SummaryError::Unbalanced)
        },
        Received::Disconnected => if w.total == 0 {
            Progress::Failed(SummaryError::Disconnected)
        } else {
            Progress::Done
        },
        Received::Empty => Progress::Done,
    }
}

/// Counts what the channel gave, and says how to go on.
pub fn on_received(
    tally: &mut Tally,
    load: &mut LoadAvg,
    latencies: &mut Latencies,
    received: Received,
) -> (next: Progress)
    requires
        old(latencies).wf(),
        old(tally).total < u64::MAX,
        old(tally).success <= old(tally).total,
        old(tally).cancel <= old(tally).total,
    ensures
        final(latencies).wf(),
        ({
            let before = window(*old(tally), *old(load), *old(latencies));
            &&& next == progress(before, received)
            &&& next is More ==> after_event(before, received->Event_0) == Some(
                window(*final(tally), *final(load), *final(latencies)),
            )
            &&& next !is More ==> *final(tally) == *old(tally) && *final(load) == *old(load)
                && *final(latencies) == *old(latencies)
        }),
        final(tally).success <= final(tally).total,
        final(tally).cancel <= final(tally).total,
        final(tally).total <= old(tally).total + 1,
{
    match received {
        Received::Event(ev) => if apply_event(tally, load, latencies, ev) {
            Progress::More
        } else {
            Progress::Failed(SummaryError::Unbalanced)
        },
        Received::Disconnected => if tally.total == 0 {
            Progress::Failed(SummaryError::Disconnected)
        } else {
            Progress::Done
        },
        Received::Empty => Progress::Done,
    }
}

/// The window after what the channel gave was counted, and how the counting then goes
/// on. What comes after its end does not count.
pub open spec fn after_given(w: Window, items: Seq<Received>) -> (Window, Progress)
    decreases items.len(),
{
    if items.len() == 0 {
        (w, Progress::More)
    } else {
        let (before, so_far) = after_given(w, items.drop_last());
        if so_far is More {
            let after = match items.last() {
                Received::Event(ev) => after_event(before, ev),
                _ => None,
            };
            (
                match after {
                    Some(w) => w,
                    None => before,
                },
                progress(before, items.last()),
            )
        } else {
            (before, so_far)
        }
    }
}

/// What was disconnected has nothing more to give.
pub open spec fn is_over(items: Seq<Received>) -> bool {
    items.len() > 0 && items.last() == Received::Disconnected
}

/// One round of counting: what the channel had given before it, what it gave in it, the
/// window before and after it, and what came of it.
pub struct Round {
    pub given: Seq<Received>,
    pub taken: Seq<Received>,
    pub before: Window,
    pub load: LoadState,
    pub latencies: Multiset<u64>,
    pub summary: Result<Summary, SummaryError>,
}

/// What holds of a round: the summary is that of what the channel gave, or there is none
/// where it was disconnected before a response was counted or where an event cannot be
/// counted. Nothing is taken once that is known, or once the channel is empty.
pub open spec fn is_round(r: Round) -> bool {
    let (w, next) = after_given(r.before, r.taken);
    &&& r.taken.len() > 0
    &&& after_given(r.before, r.taken.drop_last()).1 is More
    &&& is_over(r.given) ==> r.taken == seq![Received::Disconnected]
    &&& r.load == w.load
    &&& match r.summary {
        Ok(s) => {
            &&& next is Done || (next is More && r.taken.len() == u64::MAX)
            &&& s.sums_up(w)
            &&& r.latencies == Multiset::<u64>::empty()
        },
        Err(error) => next == Progress::Failed(error) && r.latencies == w.latencies,
    }
}

/// A window in which nothing was counted.
pub open spec fn fresh(load: LoadState, latencies: Multiset<u64>) -> Window {
    Window { load, total: 0, success: 0, cancel: 0, latencies }
}

/// Takes all events out of the channel, counts them and sums them up.
pub fn summarize(
    rx: &mut Receiver<Event>,
    latencies: &mut Latencies,
    load: &mut LoadAvg,
) -> (summary: Result<Summary, SummaryError>)
    requires
        old(latencies).wf(),
    ensures
        final(latencies).wf(),
        drained(*final(rx)) == drained(*old(rx)),
        ({
            let taken = given(*final(rx)).skip(given(*old(rx)).len() as int);
            &&& given(*final(rx)) == given(*old(rx)) + taken
            &&& is_round(
                (Round {
                    given: given(*old(rx)),
                    taken,
                    before: fresh(old(load)@, old(latencies)@),
                    load: final(load)@,
                    latencies: final(latencies)@,
                    summary,
                }),
            )
        }),
{
    let mut tally = Tally { total: 0, success: 0, cancel: 0 };
    let mut left: u64 = u64::MAX;
    let ghost before = window(tally, *load, *latencies);
    let ghost mut taken: Seq<Received> = Seq::empty();
    while left > 0
        invariant_except_break
            after_given(before, taken) == (window(tally, *load, *latencies), Progress::More),
            taken.len() + left == u64::MAX,
            is_over(given(*old(rx))) ==> taken.len() == 0,
        invariant
            latencies.wf(),
            before == fresh(old(load)@, old(latencies)@),
            drained(*rx) == drained(*old(rx)),
            given(*rx) == given(*old(rx)) + taken,
            taken.len() > 0 ==> after_given(before, taken.drop_last()).1 is More,
            tally.total + left <= u64::MAX,
            tally.success <= tally.total,
            tally.cancel <= tally.total,
        ensures
            after_given(before, taken).0 == window(tally, *load, *latencies),
            taken.len() > 0,
            !is_over(given(*old(rx))),
            after_given(before, taken).1 is Done || (after_given(before, taken).1 is More
                && taken.len() == u64::MAX),
        decreases left,
    {
        let received = try_recv(rx);
        proof {
            let next = taken.push(received);
            assert(next.drop_last() =~= taken);
            taken = next;
        }
        match on_received(&mut tally, load, latencies, received) {
            Progress::More => {},
            Progress::Done => {
                break ;
            },
            Progress::Failed(error) => {
                assert(given(*rx).skip(given(*old(rx)).len() as int) =~= taken);
                assert(is_over(given(*old(rx))) ==> taken =~= seq![Received::Disconnected]);
                return Err(error);
            },
        }
        left -= 1;
    }
    assert(given(*rx).skip(given(*old(rx)).len() as int) =~= taken);
    Ok(finish(&tally, latencies))
}

/// How many requests `log` reports.
pub open spec fn requests(log: Seq<Event>) -> int
    decreases log.len(),
{
    if log.len() == 0 {
        0
    } else {
        requests(log.drop_last()) + if log.last() is Request {
            1int
        } else {
            0
        }
    }
}

/// How many responses, and requests that were given up, `log` reports.
pub open spec fn responses(log: Seq<Event>) -> int
    decreases log.len(),
{
    if log.len() == 0 {
        0
    } else {
        responses(log.drop_last()) + if log.last() is Response {
            1int
        } else {
            0
        }
    }
}

/// How many responses that succeeded `log` reports.
pub open spec fn successes(log: Seq<Event>) -> int
    decreases log.len(),
{
    if log.len() == 0 {
        0
    } else {
        successes(log.drop_last()) + if log.last().succeeded() {
            1int
        } else {
            0
        }
    }
}

/// How many requests that were given up `log` reports.
pub open spec fn cancels(log: Seq<Event>) -> int
    decreases log.len(),
{
    if log.len() == 0 {
        0
    } else {
        cancels(log.drop_last()) + if log.last().cancelled() {
            1int
        } else {
            0
        }
    }
}

/// At every point of `log` the requests in flight, `in_flight` at its start, can be
/// counted.
pub open spec fn balanced(in_flight: int, log: Seq<Event>) -> bool {
    forall|i: int|
        #![trigger log.take(i)]
        0 <= i <= log.len() ==> 0 <= in_flight + requests(log.take(i)) - responses(log.take(i))
            <= u32::MAX
}

/// What the channel gives where it gives the events of `log`.
pub open spec fn gave(log: Seq<Event>) -> Seq<Received> {
    log.map_values(|ev: Event| Received::Event(ev))
}

/// Events are counted in the order in which the channel gives them, and none of them is
/// passed over: the counting stands where they lead, and fails exactly where one of them
/// cannot be counted.
pub proof fn given_events_are_counted(w: Window, log: Seq<Event>)
    ensures
        after_all(w, log) matches Some(v) ==> after_given(w, gave(log)) == (v, Progress::More),
        after_all(w, log) is None ==> after_given(w, gave(log)).1 == Progress::Failed(
            SummaryError::Unbalanced,
        ),
    decreases log.len(),
{
    if log.len() > 0 {
        given_events_are_counted(w, log.drop_last());
        assert(gave(log).drop_last() =~= gave(log.drop_last()));
    }
}

/// What a window counts is what was reported: each response once, whether it
/// succeeded or was given up, and as in flight what was requested and not answered.
pub proof fn counts_are_those_of_the_log(w: Window, log: Seq<Event>)
    requires
        after_all(w, log) is Some,
    ensures
        ({
            let after = after_all(w, log)->0;
            &&& after.total == w.total + responses(log)
            &&& after.success == w.success + successes(log)
            &&& after.cancel == w.cancel + cancels(log)
            &&& after.load.in_flight == w.load.in_flight + requests(log) - responses(log)
            &&& w.latencies.len() + responses(log) <= u64::MAX ==> after.latencies.len()
                == w.latencies.len() + responses(log)
        }),
    decreases log.len(),
{
    broadcast use vstd::multiset::group_multiset_axioms;

    if log.len() > 0 {
        counts_are_those_of_the_log(w, log.drop_last());
    }
}

/// No response counts as a success and as given up at once, so the two together are
/// not more than the total.
pub proof fn outcomes_are_within_total(log: Seq<Event>)
    ensures
        0 <= successes(log),
        0 <= cancels(log),
        successes(log) + cancels(log) <= responses(log),
        responses(log) + requests(log) == log.len(),
    decreases log.len(),
{
    if log.len() > 0 {
        outcomes_are_within_total(log.drop_last());
    }
}

/// The events of a log can be counted exactly when it is balanced.
pub proof fn balanced_is_countable(w: Window, log: Seq<Event>)
    requires
        0 <= w.load.in_flight <= u32::MAX,
    ensures
        after_all(w, log) is Some <==> balanced(w.load.in_flight, log),
    decreases log.len(),
{
    let n = w.load.in_flight;
    if log.len() == 0 {
        assert forall|i: int| #![trigger log.take(i)] 0 <= i <= log.len() implies 0 <= n + requests(
            log.take(i),
        ) - responses(log.take(i)) <= u32::MAX by {
            assert(log.take(i) =~= log);
        }
    } else {
        let init = log.drop_last();
        balanced_is_countable(w, init);
        assert(log.take(log.len() as int) =~= log);
        assert forall|i: int| 0 <= i <= init.len() implies init.take(i) == #[trigger] log.take(
            i,
        ) by {
            assert(init.take(i) =~= log.take(i));
        }
        if after_all(w, init) is Some {
            counts_are_those_of_the_log(w, init);
        }
        if balanced(n, log) {
            assert forall|i: int| #![trigger init.take(i)] 0 <= i <= init.len() implies 0 <= n
                + requests(init.take(i)) - responses(init.take(i)) <= u32::MAX by {
                assert(init.take(i) == log.take(i));
            }
        }
        if balanced(n, init) && 0 <= n + requests(log) - responses(log) <= u32::MAX {
            assert forall|i: int| #![trigger log.take(i)] 0 <= i <= log.len() implies 0 <= n
                + requests(log.take(i)) - responses(log.take(i)) <= u32::MAX by {
                if i < log.len() {
                    assert(init.take(i) == log.take(i));
                }
            }
        }
    }
}

/// Cutting the traffic into windows does not change the load: a window that starts
/// with the load at which the one before it ended goes on as if there had been one.
pub proof fn load_spans_windows(w: Window, first: Seq<Event>, next: Window, second: Seq<Event>)
    requires
        after_all(w, first) is Some,
        next.load == (after_all(w, first)->0).load,
    ensures
        after_all(w, first + second) is Some <==> after_all(next, second) is Some,
        after_all(next, second) is Some ==> (after_all(w, first + second)->0).load == (after_all(
            next,
            second,
        )->0).load,
    decreases second.len(),
{
    let all = first + second;
    if second.len() == 0 {
        assert(all =~= first);
    } else {
        assert(all.drop_last() =~= first + second.drop_last());
        assert(all.last() == second.last());
        load_spans_windows(w, first, next, second.drop_last());
    }
}

/// A window is made up of its counts, its load and what the histogram counts.
pub proof fn windows_are_their_parts(tally: Tally, load: LoadAvg, latencies: Latencies)
    ensures
        ({
            let w = window(tally, load, latencies);
            &&& w.total == tally.total
            &&& w.success == tally.success
            &&& w.cancel == tally.cancel
            &&& w.load.in_flight == load.in_flight
            &&& w.load.avg == load.avg@
            &&& w.latencies == recorded(latencies)
        }),
{
    latencies_are_those_recorded(latencies);
}

/// In a window in which nothing was counted all counts are zero.
pub proof fn fresh_windows_count_from_zero(load: LoadState, latencies: Multiset<u64>)
    ensures
        fresh(load, latencies).total == 0,
        fresh(load, latencies).success == 0,
        fresh(load, latencies).cancel == 0,
        fresh(load, latencies).load == load,
        fresh(load, latencies).latencies == latencies,
{
}

/// A request is one more in flight from its time on, and is otherwise not counted. There
/// is no counting more than a `u32` of them.
pub proof fn requests_are_in_flight(w: Window, time: u128)
    requires
        0 <= w.load.in_flight <= 0xffff_ffff,
    ensures
        after_event(w, Event::Request(time)) is Some <==> w.load.in_flight < 0xffff_ffff,
        after_event(w, Event::Request(time)) matches Some(after) ==> {
            &&& after.load.in_flight == w.load.in_flight + 1
            &&& after.load.avg == w.load.avg.plus(w.load.in_flight as u32, time)
            &&& after.total == w.total
            &&& after.success == w.success
            &&& after.cancel == w.cancel
            &&& after.latencies == w.latencies
        },
{
}

/// A response is one less in flight from its time on. It counts to the total, and to the
/// successes exactly where its status is from 200 to 299, and to those given up exactly
/// where it has none. Its latency in whole milliseconds, if there are fewer than 2048 of
/// them, is counted once more than before, and so is nothing else; a longer one is counted
/// as two. There is no response without a request in flight.
pub proof fn responses_are_counted_with_their_latency(
    w: Window,
    status: Option<Status>,
    elapsed: u128,
    time: u128,
    other: u64,
)
    requires
        0 <= w.load.in_flight <= 0xffff_ffff,
        w.latencies.len() < u64::MAX,
        elapsed / 1_000_000 <= u64::MAX,
    ensures
        ({
            let ev = Event::Response { status, elapsed, time };
            &&& after_event(w, ev) is Some <==> w.load.in_flight > 0
            &&& after_event(w, ev) matches Some(after) ==> {
                &&& after.load.in_flight == w.load.in_flight - 1
                &&& after.load.avg == w.load.avg.plus(w.load.in_flight as u32, time)
                &&& after.total == w.total + 1
                &&& after.success == w.success + if status is Some && 200 <= (
                status->0).number() <= 299 {
                    1int
                } else {
                    0
                }
                &&& after.cancel == w.cancel + if status is None {
                    1int
                } else {
                    0
                }
                &&& after.latencies.len() == w.latencies.len() + 1
                &&& after.latencies.count(other) == w.latencies.count(other) + if elapsed
                    / 1_000_000 < 2048 && other == elapsed / 1_000_000 {
                    1int
                } else if elapsed / 1_000_000 >= 2048 && other == 2 {
                    1
                } else {
                    0
                }
            }
        }),
{
    latencies_are_counted_as_themselves(w.latencies, millis(elapsed), other);
}

/// Milliseconds are whole, and there are a million nanoseconds in each.
pub proof fn milliseconds_are_whole(nanos: u128)
    requires
        nanos / 1_000_000 <= u64::MAX,
    ensures
        millis(nanos) * 1_000_000 <= nanos < (millis(nanos) + 1) * 1_000_000,
{
}

/// Events are counted one after the other, from the first: nothing is counted where there
/// is none, and behind the first the others are counted from where it leads.
pub proof fn events_are_counted_in_turn(w: Window, ev: Event, log: Seq<Event>)
    ensures
        after_all(w, Seq::empty()) == Some(w),
        after_all(w, seq![ev] + log) == (match after_event(w, ev) {
            Some(v) => after_all(v, log),
            None => None,
        }),
    decreases log.len(),
{
    let all = seq![ev] + log;
    reveal_with_fuel(after_all, 2);
    if log.len() == 0 {
        assert(all =~= seq![ev]);
        assert(all.drop_last() =~= Seq::empty());
    } else {
        events_are_counted_in_turn(w, ev, log.drop_last());
        assert(all.drop_last() =~= seq![ev] + log.drop_last());
        assert(all.last() == log.last());
    }
}

/// How often `log` reports a response that took `ms` whole milliseconds.
pub open spec fn responses_taking(log: Seq<Event>, ms: int) -> int
    decreases log.len(),
{
    if log.len() == 0 {
        0
    } else {
        responses_taking(log.drop_last(), ms) + match log.last() {
            Event::Response { elapsed, .. } => if elapsed / 1_000_000 == ms {
                1int
            } else {
                0
            },
            Event::Request(_) => 0,
        }
    }
}

/// A window counts each latency below 2048 milliseconds, except for the two milliseconds
/// that longer ones are counted as, as often as the log reports it.
pub proof fn latencies_are_those_of_the_log(w: Window, log: Seq<Event>, ms: u64)
    requires
        after_all(w, log) is Some,
        0 <= w.load.in_flight <= 0xffff_ffff,
        w.latencies.len() + log.len() < u64::MAX,
        forall|i: int|
            0 <= i < log.len() ==> (#[trigger] log[i] matches Event::Response { elapsed, .. }
                ==> elapsed / 1_000_000 <= u64::MAX),
        ms < 2048,
        ms != 2,
    ensures
        (after_all(w, log)->0).latencies.count(ms) == w.latencies.count(ms) + responses_taking(
            log,
            ms as int,
        ),
        (after_all(w, log)->0).latencies.len() <= w.latencies.len() + log.len(),
        0 <= (after_all(w, log)->0).load.in_flight <= 0xffff_ffff,
    decreases log.len(),
{
    if log.len() > 0 {
        let init = log.drop_last();
        assert forall|i: int| 0 <= i < init.len() implies (#[trigger] init[i] matches Event::Response {
            elapsed,
            ..
        } ==> elapsed / 1_000_000 <= u64::MAX) by {
            assert(init[i] == log[i]);
        }
        latencies_are_those_of_the_log(w, init, ms);
        let before = after_all(w, init)->0;
        match log.last() {
            Event::Request(time) => requests_are_in_flight(before, time),
            Event::Response { status, elapsed, time } => {
                assert(log[log.len() - 1] == log.last());
                responses_are_counted_with_their_latency(before, status, elapsed, time, ms)
            },
        }
    }
}

/// The counting goes on with every event that can be counted, fails with one that cannot,
/// and ends where the channel is empty. Where it is disconnected, it ends if a response
/// was counted and fails if none was.
pub proof fn counting_ends_where_the_channel_does(w: Window, received: Received)
    ensures
        received matches Received::Event(ev) ==> progress(w, received) == if after_event(
            w,
            ev,
        ) is Some {
            Progress::More
        } else {
            Progress::Failed(SummaryError::Unbalanced)
        },
        progress(w, Received::Empty) == Progress::Done,
        w.total == 0 ==> progress(w, Received::Disconnected) == Progress::Failed(
            SummaryError::Disconnected,
        ),
        w.total != 0 ==> progress(w, Received::Disconnected) == Progress::Done,
{
}

/// What the channel gives is counted from the first to the last, until the counting ends;
/// what is no event changes nothing.
pub proof fn items_are_counted_in_turn(w: Window, items: Seq<Received>, item: Received)
    ensures
        after_given(w, Seq::empty()) == (w, Progress::More),
        after_given(w, items).1 !is More ==> after_given(w, items.push(item)) == after_given(
            w,
            items,
        ),
        after_given(w, items).1 is More ==> {
            let before = after_given(w, items).0;
            let (after, next) = after_given(w, items.push(item));
            &&& next == progress(before, item)
            &&& item matches Received::Event(ev) ==> after == (match after_event(before, ev) {
                Some(v) => v,
                None => before,
            })
            &&& item !is Event ==> after == before
        },
{
    assert(items.push(item).drop_last() =~= items);
}

/// A summary gives the counts of its window, and the median, the 90th and the 99th
/// percentile of its latencies.
pub proof fn summaries_give_the_window(s: Summary, w: Window)
    requires
        w.latencies.len() <= 0x100_0000_0000,
    ensures
        s.sums_up(w) <==> {
            &&& s.total == w.total
            &&& s.success == w.success
            &&& s.cancel == w.cancel
            &&& is_percentile(w.latencies, 50, s.p50)
            &&& is_percentile(w.latencies, 90, s.p90)
            &&& is_percentile(w.latencies, 99, s.p99)
        },
{
}

} // verus!
