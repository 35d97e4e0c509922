//! The client: what it asks for, where it sends it, and what it does with the answer.
use crate::double::{number, Double};
use crate::number::{
    all_digits, decimal, decimal_reads_back, is_digit, lemma_decimal, parse_u32, parsed_u32, IntError,
};
use crate::params::{DataParams, SleepParams};
use crate::status::Status;
use crate::text::{find_byte, join, join_undoes_split, lemma_find, split, split_undoes_join};
use vstd::arithmetic::power2::{lemma2_to64_rest, lemma_pow2_adds, lemma_pow2_unfold, pow2};
use vstd::prelude::*;
use vstd::slice::slice_subrange;
use vstd::string::StringSliceAdditionalSpecFns;

verus! {

/// The percentiles of a time, as texts of numbers of seconds.
#[derive(Clone, Copy, Debug)]
pub struct Durations<'a> {
    pub p50: &'a [u8],
    pub p90: &'a [u8],
    pub p99: &'a [u8],
}

/// The percentiles of a size in bytes.
#[derive(Clone, Copy, Debug, PartialEq, Eq, Structural)]
pub struct Data {
    pub p50: u32,
    pub p90: u32,
    pub p99: u32,
}

/// Why a text does not give percentiles.
#[derive(Clone, Copy, Debug, PartialEq, Eq, Structural)]
pub enum PercentilesError {
    /// There are not three numbers between commas.
    Shape,
    /// One of them is no number.
    Number(IntError),
}

/// Splits a text into its three pieces, if it has three.
fn split_triple(text: &[u8]) -> (pieces: Option<(&[u8], &[u8], &[u8])>)
    ensures
        pieces is Some <==> split(text@, 44).len() == 3,
        pieces matches Some((a, b, c)) ==> split(text@, 44) == seq![a@, b@, c@],
{
    let i = find_byte(text, 44);
    proof {
        lemma_find(text@, 44);
    }
    if i == text.len() {
        return None;
    }
    let first = slice_subrange(text, 0, i);
    let rest = slice_subrange(text, i + 1, text.len());
    let j = find_byte(rest, 44);
    proof {
        lemma_find(rest@, 44);
        assert(rest@ =~= text@.skip(i + 1));
        assert(first@ =~= text@.take(i as int));
    }
    if j == rest.len() {
        assert(split(rest@, 44) == seq![rest@]);
        assert(split(text@, 44) =~= seq![first@, rest@]);
        return None;
    }
    let second = slice_subrange(rest, 0, j);
    let third = slice_subrange(rest, j + 1, rest.len());
    let k = find_byte(third, 44);
    proof {
        lemma_find(third@, 44);
        assert(third@ =~= rest@.skip(j + 1));
        assert(second@ =~= rest@.take(j as int));
        assert(split(rest@, 44) == seq![second@] + split(third@, 44));
        assert(split(text@, 44) == seq![first@] + split(rest@, 44));
        if k < third@.len() {
            join_undoes_split(third@.skip(k + 1), 44);
        }
    }
    if k < third.len() {
        return None;
    }
    assert(split(text@, 44) =~= seq![first@, second@, third@]);
    Some((first, second, third))
}

impl<'a> Durations<'a> {
    /// Reads three texts between commas.
    pub fn from_str(text: &'a str) -> (d: Result<Durations<'a>, PercentilesError>)
        ensures
            d is Ok <==> split(text.spec_bytes(), 44).len() == 3,
            d matches Ok(d) ==> split(text.spec_bytes(), 44) == seq![d.p50@, d.p90@, d.p99@],
            d matches Err(e) ==> e == PercentilesError::Shape,
    {
        match split_triple(text.as_bytes()) {
            Some((p50, p90, p99)) => Ok(Durations { p50, p90, p99 }),
            None => Err(PercentilesError::Shape),
        }
    }
}

/// What a text of sizes reads as. Of several pieces that are no number the last is
/// reported.
pub open spec fn parsed_data(text: Seq<u8>) -> Result<Data, PercentilesError> {
    let pieces = split(text, 44);
    if pieces.len() != 3 {
        Err(PercentilesError::Shape)
    } else {
        match (parsed_u32(pieces[0]), parsed_u32(pieces[1]), parsed_u32(pieces[2])) {
            (_, _, Err(e)) => Err(PercentilesError::Number(e)),
            (_, Err(e), _) => Err(PercentilesError::Number(e)),
            (Err(e), _, _) => Err(PercentilesError::Number(e)),
            (Ok(p50), Ok(p90), Ok(p99)) => Ok(Data { p50, p90, p99 }),
        }
    }
}

impl Data {
    /// Reads three sizes between commas.
    pub fn from_str(text: &str) -> (d: Result<Data, PercentilesError>)
        ensures
            d == parsed_data(text.spec_bytes()),
    {
        match split_triple(text.as_bytes()) {
            None => Err(PercentilesError::Shape),
            Some((a, b, c)) => {
                let p99 = match parse_u32(c) {
                    Ok(n) => n,
                    Err(e) => return Err(PercentilesError::Number(e)),
                };
                let p90 = match parse_u32(b) {
                    Ok(n) => n,
                    Err(e) => return Err(PercentilesError::Number(e)),
                };
                let p50 = match parse_u32(a) {
                    Ok(n) => n,
                    Err(e) => return Err(PercentilesError::Number(e)),
                };
                Ok(Data { p50, p90, p99 })
            },
        }
    }
}

/// How requests are sent.
#[derive(Clone, Copy, Debug, PartialEq, Eq, Structural)]
pub enum Mode {
    /// As HTTP requests.
    Http,
    /// As gRPC calls.
    Grpc,
    /// In gRPC calls that stream them.
    Sink,
}

impl Mode {
    /// The mode that the options ask for. Streaming is for gRPC only.
    pub fn new(grpc: bool, sink: bool) -> (mode: Mode)
        ensures
            mode == if !grpc {
                Mode::Http
            } else if sink {
                Mode::Sink
            } else {
                Mode::Grpc
            },
    {
        if !grpc {
            Mode::Http
        } else if sink {
            Mode::Sink
        } else {
            Mode::Grpc
        }
    }
}

/// How many seconds the client waits before it connects again.
pub const RETRY_SECS: u64 = 1;

/// What the client is about.
#[derive(Clone, Copy, Debug, PartialEq, Eq, Structural)]
pub enum Activity {
    /// It connects.
    Connect,
    /// It sends requests.
    Dispatch(Mode),
    /// It waits for so many seconds.
    Wait(u64),
}

/// What became of what the client was about.
#[derive(Clone, Copy, Debug, PartialEq, Eq, Structural)]
pub enum Outcome {
    /// It is connected, or it has waited.
    Done,
    /// It could not connect, or it could not go on sending requests.
    Failed,
}

/// A client.
#[derive(Clone, Copy, Debug, PartialEq, Eq, Structural)]
pub struct Client {
    pub mode: Mode,
    pub activity: Activity,
}

impl Client {
    /// What the client is about next: whatever ends makes it wait, and then connect
    /// again.
    pub open spec fn next(self, outcome: Outcome) -> Activity {
        match (self.activity, outcome) {
            (Activity::Connect, Outcome::Done) => Activity::Dispatch(self.mode),
            (Activity::Connect, Outcome::Failed) => Activity::Wait(RETRY_SECS),
            (Activity::Dispatch(_), _) => Activity::Wait(RETRY_SECS),
            (Activity::Wait(_), _) => Activity::Connect,
        }
    }

    /// A client that sends requests at this rate, which must be greater than zero.
    pub fn start(rate: Double, mode: Mode) -> (client: Option<Client>)
        ensures
            client is Some <==> rate.is_positive(),
            client matches Some(c) ==> c == (Client { mode, activity: Activity::Connect }),
    {
        if rate.positive() {
            Some(Client { mode, activity: Activity::Connect })
        } else {
            None
        }
    }

    /// Goes on to what the client is about next.
    pub fn advance(&self, outcome: Outcome) -> (client: Client)
        ensures
            client == (Client { mode: self.mode, activity: self.next(outcome) }),
    {
        let activity = match (self.activity, outcome) {
            (Activity::Connect, Outcome::Done) => Activity::Dispatch(self.mode),
            (Activity::Connect, Outcome::Failed) => Activity::Wait(RETRY_SECS),
            (Activity::Dispatch(_), _) => Activity::Wait(RETRY_SECS),
            (Activity::Wait(_), _) => Activity::Connect,
        };
        Client { mode: self.mode, activity }
    }

    /// The client after a run of outcomes.
    pub open spec fn after(self, outcomes: Seq<Outcome>) -> Client
        decreases outcomes.len(),
    {
        if outcomes.len() == 0 {
            self
        } else {
            let before = self.after(outcomes.drop_last());
            Client { mode: before.mode, activity: before.next(outcomes.last()) }
        }
    }
}

/// A part of the body of a response.
#[derive(Clone, Copy, Debug, PartialEq, Eq, Structural)]
pub enum Frame {
    /// It arrived.
    Arrived,
    /// It did not arrive.
    Broken,
    /// There is none: the body is complete.
    End,
}

/// The status of a response whose body is being read, once it is settled: that of its
/// head if the body is complete, and a failure if part of it did not arrive.
pub fn drain(head: Status, frame: Frame) -> (status: Option<Status>)
    ensures
        status is None <==> frame == Frame::Arrived,
        frame == Frame::End ==> status == Some(head),
        frame == Frame::Broken ==> (status matches Some(s) && s.number() == 500),
{
    match frame {
        Frame::Arrived => None,
        Frame::Broken => Some(Status::internal_server_error()),
        Frame::End => Some(head),
    }
}

/// The status of a request that was sent: that of its response, and a failure if there
/// is none.
pub fn call_status(response: Option<Status>) -> (status: Status)
    ensures
        response matches Some(s) ==> status == s,
        response is None ==> status.number() == 500,
{
    match response {
        Some(status) => status,
        None => Status::internal_server_error(),
    }
}

/// How much data a streamed request carries at most.
pub const SINK_DATA_MAX: u32 = 4194000;

/// The sizes of streamed requests.
pub fn sink_data(data: &Data) -> (sizes: DataParams)
    ensures
        sizes == (DataParams {
            min: 0,
            p50: data.p50,
            p90: data.p90,
            p99: data.p99,
            max: SINK_DATA_MAX,
        }),
{
    DataParams { min: 0, p50: data.p50, p90: data.p90, p99: data.p99, max: SINK_DATA_MAX }
}

/// The bits of 86400, the seconds of a day: how long a call that streams requests lasts
/// at most.
pub const SINK_LIFETIME_MAX_BITS: u64 = 0x40f5_1800_0000_0000;

/// The bits of 43200, the seconds of half a day: how long such a call pauses at most.
pub const SINK_PAUSE_MAX_BITS: u64 = 0x40e5_1800_0000_0000;

/// How long calls that stream requests last.
pub fn sink_lifetime(p50: Double, p90: Double, p99: Double) -> (times: SleepParams)
    ensures
        times == (SleepParams {
            min: Double { bits: 0 },
            p50,
            p90,
            p99,
            max: Double { bits: SINK_LIFETIME_MAX_BITS },
        }),
{
    SleepParams {
        min: Double::zero(),
        p50,
        p90,
        p99,
        max: Double { bits: SINK_LIFETIME_MAX_BITS },
    }
}

/// How long such a call pauses between two requests.
pub fn sink_pause(p50: Double, p90: Double, p99: Double) -> (times: SleepParams)
    ensures
        times == (SleepParams {
            min: Double { bits: 0 },
            p50,
            p90,
            p99,
            max: Double { bits: SINK_PAUSE_MAX_BITS },
        }),
{
    SleepParams {
        min: Double::zero(),
        p50,
        p90,
        p99,
        max: Double { bits: SINK_PAUSE_MAX_BITS },
    }
}

/// A call that streams requests.
#[derive(Clone, Copy, Debug, PartialEq, Eq, Structural)]
pub enum Sink {
    /// It waits until a request can be sent.
    Reserving,
    /// It pauses between requests.
    Pausing,
    /// It is over.
    Over,
}

/// What happens to a call that streams requests.
#[derive(Clone, Copy, Debug, PartialEq, Eq, Structural)]
pub enum SinkEvent {
    /// Its time is up.
    Expired,
    /// A request can be sent.
    Granted,
    /// No request can be sent any more.
    Refused,
    /// The pause is over.
    Rested,
}

/// What a call that streams requests does.
#[derive(Clone, Copy, Debug, PartialEq, Eq, Structural)]
pub enum SinkAction {
    /// It waits until a request can be sent.
    Reserve,
    /// It sends a request, counts it, and pauses.
    Send,
    /// It stops.
    Stop,
}

impl Sink {
    /// What follows on an event; `None` where it does not belong there.
    pub open spec fn moved(self, event: SinkEvent) -> Option<(Sink, SinkAction)> {
        match (self, event) {
            (Sink::Over, _) => None,
            (_, SinkEvent::Expired) => Some((Sink::Over, SinkAction::Stop)),
            (Sink::Reserving, SinkEvent::Granted) => Some((Sink::Pausing, SinkAction::Send)),
            (Sink::Reserving, SinkEvent::Refused) => Some((Sink::Over, SinkAction::Stop)),
            (Sink::Pausing, SinkEvent::Rested) => Some((Sink::Reserving, SinkAction::Reserve)),
            _ => None,
        }
    }

    /// Starts a call.
    pub fn start() -> (step: (Sink, SinkAction))
        ensures
            step == (Sink::Reserving, SinkAction::Reserve),
    {
        (Sink::Reserving, SinkAction::Reserve)
    }

    /// Says what to do on an event; `None` where it does not belong there.
    pub fn on_event(&self, event: SinkEvent) -> (step: Option<(Sink, SinkAction)>)
        ensures
            step == self.moved(event),
    {
        match (*self, event) {
            (Sink::Over, _) => None,
            (_, SinkEvent::Expired) => Some((Sink::Over, SinkAction::Stop)),
            (Sink::Reserving, SinkEvent::Granted) => Some((Sink::Pausing, SinkAction::Send)),
            (Sink::Reserving, SinkEvent::Refused) => Some((Sink::Over, SinkAction::Stop)),
            (Sink::Pausing, SinkEvent::Rested) => Some((Sink::Reserving, SinkAction::Reserve)),
            _ => None,
        }
    }
}

/// Sizes read back as they are written: the decimal digits of three of them, with
/// commas between them, read as these sizes.
pub proof fn data_reads_back(d: Data)
    ensures
        parsed_data(
            join(
                seq![decimal(d.p50 as nat), decimal(d.p90 as nat), decimal(d.p99 as nat)],
                44,
            ),
        ) == Ok::<Data, PercentilesError>(d),
{
    let pieces = seq![decimal(d.p50 as nat), decimal(d.p90 as nat), decimal(d.p99 as nat)];
    decimal_reads_back(d.p50);
    decimal_reads_back(d.p90);
    decimal_reads_back(d.p99);
    lemma_decimal(d.p50 as nat);
    lemma_decimal(d.p90 as nat);
    lemma_decimal(d.p99 as nat);
    assert forall|i: int| 0 <= i < pieces.len() implies !(#[trigger] pieces[i]).contains(44) by {
        assert(all_digits(pieces[i]));
        assert forall|j: int| 0 <= j < pieces[i].len() implies pieces[i][j] != 44 by {
            assert(is_digit(pieces[i][j]));
        }
    }
    split_undoes_join(pieces, 44);
}

/// The client never gives up, and it never connects twice without a wait between: it
/// goes on in its mode, requests are sent only right after it connected, and it
/// connects only at the start or right after a wait.
pub proof fn client_waits_before_it_connects_again(
    mode: Mode,
    outcomes: Seq<Outcome>,
    outcome: Outcome,
)
    ensures
        ({
            let before = Client { mode, activity: Activity::Connect }.after(outcomes);
            let after = before.next(outcome);
            &&& before.mode == mode
            &&& after == Activity::Connect <==> before.activity is Wait
            &&& after is Dispatch <==> before.activity == Activity::Connect && outcome
                == Outcome::Done
            &&& after is Dispatch ==> after == Activity::Dispatch(mode)
            &&& after is Wait ==> after == Activity::Wait(RETRY_SECS)
            &&& after is Wait ==> after == Activity::Wait(1)
        }),
    decreases outcomes.len(),
{
    if outcomes.len() > 0 {
        client_waits_before_it_connects_again(mode, outcomes.drop_last(), outcomes.last());
    }
}

/// A call that streams requests ends when its time is up, wherever it stands, and
/// does nothing after its end; between two requests it always pauses.
pub proof fn sink_ends_and_pauses(sink: Sink, event: SinkEvent)
    ensures
        sink != Sink::Over ==> sink.moved(SinkEvent::Expired) == Some((Sink::Over, SinkAction::Stop)),
        Sink::Over.moved(event) is None,
        sink.moved(event) matches Some((next, SinkAction::Send)) ==> next == Sink::Pausing,
        sink == Sink::Pausing ==> !(sink.moved(event) matches Some((_, SinkAction::Send))),
{
}

/// What a text of sizes reads as: its three pieces between commas, in the order median,
/// 90th and 99th percentile. Another number of pieces is an error of its own, and of
/// several that are no number the last is reported.
pub proof fn sizes_are_read_piece_by_piece(text: Seq<u8>)
    ensures
        ({
            let pieces = split(text, ',' as u8);
            &&& pieces.len() != 3 <==> parsed_data(text) == Err::<Data, PercentilesError>(
                PercentilesError::Shape,
            )
            &&& pieces.len() == 3 ==> {
                let (a, b, c) = (
                    parsed_u32(pieces[0]),
                    parsed_u32(pieces[1]),
                    parsed_u32(pieces[2]),
                );
                &&& parsed_data(text) is Ok <==> a is Ok && b is Ok && c is Ok
                &&& parsed_data(text) matches Ok(d) ==> a == Ok::<u32, IntError>(d.p50) && b == Ok::<
                    u32,
                    IntError,
                >(d.p90) && c == Ok::<u32, IntError>(d.p99)
                &&& c matches Err(e) ==> parsed_data(text) == Err::<Data, PercentilesError>(
                    PercentilesError::Number(e),
                )
                &&& c is Ok ==> (b matches Err(e) ==> parsed_data(text) == Err::<
                    Data,
                    PercentilesError,
                >(PercentilesError::Number(e)))
                &&& c is Ok && b is Ok ==> (a matches Err(e) ==> parsed_data(text) == Err::<
                    Data,
                    PercentilesError,
                >(PercentilesError::Number(e)))
            }
        }),
{
}

/// A call that streams requests sends one exactly where it may and was not sending or
/// pausing, asks again exactly where its pause is over, and stops where its time is up or
/// it may send no more; nothing else happens to it.
pub proof fn sink_follows_its_events(sink: Sink, event: SinkEvent)
    ensures
        ({
            let step = sink.moved(event);
            let sends = sink == Sink::Reserving && event == SinkEvent::Granted;
            let asks = sink == Sink::Pausing && event == SinkEvent::Rested;
            let stops = sink != Sink::Over && event == SinkEvent::Expired || sink
                == Sink::Reserving && event == SinkEvent::Refused;
            &&& sends <==> step == Some((Sink::Pausing, SinkAction::Send))
            &&& asks <==> step == Some((Sink::Reserving, SinkAction::Reserve))
            &&& stops <==> step == Some((Sink::Over, SinkAction::Stop))
            &&& step is None <==> !sends && !asks && !stops
        }),
{
}

/// A call that streams requests lasts at most 86400 seconds, pauses at most 43200, and a
/// request in it carries at most 4194000 bytes; the client waits for one second.
pub proof fn limits_are_these()
    ensures
        number(Double { bits: SINK_LIFETIME_MAX_BITS }) == 86400 * pow2(1074),
        number(Double { bits: SINK_PAUSE_MAX_BITS }) == 43200 * pow2(1074),
        SINK_DATA_MAX == 4194000,
        RETRY_SECS == 1,
{
    lemma2_to64_rest();
    lemma_pow2_adds(53, 1021);
    let p = pow2(1021) as int;
    assert(pow2(1074) == 0x20_0000_0000_0000 * p);
    lemma_pow2_adds(16, 1021);
    lemma_pow2_adds(17, 1021);
    vstd::arithmetic::power2::lemma2_to64();
    assert(number(Double { bits: SINK_PAUSE_MAX_BITS }) == 0x15_1800_0000_0000 * pow2(1037));
    assert(number(Double { bits: SINK_LIFETIME_MAX_BITS }) == 0x15_1800_0000_0000 * pow2(1038));
}

/// A response counts with its own status exactly where all of its body arrived, and
/// otherwise, or where there is no response, as a failure.
pub proof fn broken_responses_fail(
    head: Status,
    frame: Frame,
    settled: Option<Status>,
    counted: Status,
)
    requires
        frame != Frame::Arrived,
        call_ensures(drain, (head, frame), settled),
        call_ensures(call_status, (settled,), counted),
    ensures
        frame == Frame::End ==> counted == head,
        frame == Frame::Broken ==> counted.number() == 500,
        forall|status: Status|
            #[trigger] call_ensures(call_status, (None::<Status>,), status) ==> status.number()
                == 500,
        forall|status: Option<Status>|
            #[trigger] call_ensures(drain, (head, Frame::Arrived), status) ==> status is None,
{
}

/// Requests are streamed exactly where both options ask for it, and sent as HTTP requests
/// exactly where gRPC is not asked for.
pub proof fn options_choose_the_mode(grpc: bool, sink: bool, mode: Mode)
    requires
        call_ensures(Mode::new, (grpc, sink), mode),
    ensures
        mode == Mode::Http <==> !grpc,
        mode == Mode::Sink <==> grpc && sink,
        mode == Mode::Grpc <==> grpc && !sink,
{
}

/// What is streamed goes from nothing up to its limit, by the percentiles that were asked
/// for.
pub proof fn streams_keep_their_percentiles(
    data: &Data,
    sizes: DataParams,
    p50: Double,
    p90: Double,
    p99: Double,
    lifetime: SleepParams,
    pause: SleepParams,
)
    requires
        call_ensures(sink_data, (data,), sizes),
        call_ensures(sink_lifetime, (p50, p90, p99), lifetime),
        call_ensures(sink_pause, (p50, p90, p99), pause),
    ensures
        sizes.min == 0 && sizes.max == 4194000,
        sizes.p50 == data.p50 && sizes.p90 == data.p90 && sizes.p99 == data.p99,
        number(lifetime.min) == 0 && number(lifetime.max) == 86400 * pow2(1074),
        lifetime.p50 == p50 && lifetime.p90 == p90 && lifetime.p99 == p99,
        number(pause.min) == 0 && number(pause.max) == 43200 * pow2(1074),
        pause.p50 == p50 && pause.p90 == p90 && pause.p99 == p99,
{
    limits_are_these();
}

} // verus!
