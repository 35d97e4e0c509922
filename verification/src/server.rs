//! The server: which service answers a request, how an answer comes about, and when
//! a configuration takes effect.
use crate::double::{doubles_compare_as_numbers, number, Double, ONE_BITS};
use crate::params::{one_number, same_parameters_agree_in_all, Params};
use crate::status::Status;
use crate::text::{ascii, ascii_bytes};
use vstd::prelude::*;

verus! {

/// How many bytes of a content type tell a gRPC call.
pub const GRPC_PREFIX_LEN: usize = 16;

/// Which service answers.
#[derive(Clone, Copy, Debug, PartialEq, Eq, Structural)]
pub enum Route {
    Grpc,
    Http,
}

/// A content type that starts as that of gRPC calls.
pub open spec fn is_grpc_type(content_type: Seq<u8>) -> bool {
    content_type.take(GRPC_PREFIX_LEN as int) == ascii("application/grpc"@)
}

/// The service that answers a request with this content type, of which there must be
/// enough to tell.
pub fn route(content_type: Option<&[u8]>) -> (r: Route)
    requires
        content_type matches Some(ct) ==> ct@.len() >= GRPC_PREFIX_LEN,
    ensures
        r == Route::Grpc <==> (content_type matches Some(ct) && is_grpc_type(ct@)),
{
    match content_type {
        None => Route::Http,
        Some(ct) => {
            proof {
                reveal_strlit("application/grpc");
            }
            let prefix = ascii_bytes("application/grpc");
            let mut i: usize = 0;
            while i < GRPC_PREFIX_LEN
                invariant
                    i <= GRPC_PREFIX_LEN <= ct@.len(),
                    prefix@ == ascii("application/grpc"@),
                    prefix@.len() == GRPC_PREFIX_LEN,
                    content_type == Some(ct),
                    forall|j: int| 0 <= j < i ==> ct@[j] == prefix@[j],
                decreases GRPC_PREFIX_LEN - i,
            {
                if ct[i] != prefix[i] {
                    assert(ct@.take(GRPC_PREFIX_LEN as int)[i as int] != prefix@[i as int]);
                    return Route::Http;
                }
                i += 1;
            }
            assert(ct@.take(GRPC_PREFIX_LEN as int) =~= prefix@);
            Route::Grpc
        },
    }
}

/// Where an exchange stands.
#[derive(Clone, Copy, Debug, PartialEq, Eq, Structural)]
pub enum Stage {
    /// The server sleeps.
    Asleep,
    /// Chance is to decide whether the request fails.
    Drawing,
    /// It is decided what becomes of the request.
    Decided,
}

/// What is to be done next.
#[derive(Clone, Copy, Debug, PartialEq, Eq, Structural)]
pub enum Next {
    /// Sleep.
    Sleep,
    /// Draw a number from zero up to one.
    Draw,
    /// Answer with data.
    Answer,
    /// Answer with a failure.
    Fail,
}

/// What was done.
#[derive(Clone, Copy, Debug)]
pub enum Input {
    /// The sleep is over.
    Woke,
    /// The number was drawn.
    Drew(Double),
}

/// The treatment of one request.
#[derive(Clone, Copy, Debug)]
pub struct Exchange {
    pub fail_rate: Double,
    pub stage: Stage,
}

/// Whether a request fails at this rate with this draw.
pub open spec fn fails(fail_rate: Double, draw: Double) -> bool {
    fail_rate.is_positive() && draw.is_less(fail_rate)
}

impl Exchange {
    /// After the sleep: chance is asked only where there is a rate of failure.
    pub open spec fn awake(fail_rate: Double) -> (Exchange, Next) {
        if fail_rate.is_positive() {
            (Exchange { fail_rate, stage: Stage::Drawing }, Next::Draw)
        } else {
            (Exchange { fail_rate, stage: Stage::Decided }, Next::Answer)
        }
    }

    /// At the start: there is a sleep only if it takes time.
    pub open spec fn begun(fail_rate: Double, sleep: u128) -> (Exchange, Next) {
        if sleep > 0 {
            (Exchange { fail_rate, stage: Stage::Asleep }, Next::Sleep)
        } else {
            Exchange::awake(fail_rate)
        }
    }

    /// What follows on `input`; `None` where it does not belong to the stage.
    pub open spec fn moved(self, input: Input) -> Option<(Exchange, Next)> {
        match (self.stage, input) {
            (Stage::Asleep, Input::Woke) => Some(Exchange::awake(self.fail_rate)),
            (Stage::Drawing, Input::Drew(r)) => Some(
                (
                    Exchange { stage: Stage::Decided, ..self },
                    if r.is_less(self.fail_rate) {
                        Next::Fail
                    } else {
                        Next::Answer
                    },
                ),
            ),
            _ => None,
        }
    }

    fn wake(fail_rate: Double) -> (step: (Exchange, Next))
        ensures
            step == Exchange::awake(fail_rate),
    {
        if fail_rate.positive() {
            (Exchange { fail_rate, stage: Stage::Drawing }, Next::Draw)
        } else {
            (Exchange { fail_rate, stage: Stage::Decided }, Next::Answer)
        }
    }

    /// Takes up a request that fails at a rate of `fail_rate`, after a sleep of so many
    /// nanoseconds.
    pub fn begin(fail_rate: Double, sleep: u128) -> (step: (Exchange, Next))
        ensures
            step == Exchange::begun(fail_rate, sleep),
            step.1 == Next::Sleep <==> sleep > 0,
            step.0.stage == Stage::Asleep <==> sleep > 0,
    {
        if sleep > 0 {
            (Exchange { fail_rate, stage: Stage::Asleep }, Next::Sleep)
        } else {
            Exchange::wake(fail_rate)
        }
    }

    /// Goes on with what was done; `None` where that was not asked for.
    pub fn advance(&self, input: Input) -> (step: Option<(Exchange, Next)>)
        ensures
            step == self.moved(input),
    {
        match (self.stage, input) {
            (Stage::Asleep, Input::Woke) => Some(Exchange::wake(self.fail_rate)),
            (Stage::Drawing, Input::Drew(r)) => {
                let next = if r.less(&self.fail_rate) {
                    Next::Fail
                } else {
                    Next::Answer
                };
                Some((Exchange { fail_rate: self.fail_rate, stage: Stage::Decided }, next))
            },
            _ => None,
        }
    }
}

/// An answer to an HTTP request.
#[derive(Debug)]
pub struct HttpReply {
    pub status: Status,
    /// What its header says of the kind of its body.
    pub content_type: &'static str,
    pub body: Vec<u8>,
}

/// The answer to an HTTP request that carries `body`, or that fails where there is
/// none. An answer without data says so. Every answer is plain text.
pub fn http_reply(body: Option<Vec<u8>>) -> (reply: HttpReply)
    ensures
        reply.content_type@ == "text/plain"@,
        body is None ==> reply.status.number() == 500 && reply.body@.len() == 0,
        body matches Some(b) ==> reply.body@ == b@,
        body matches Some(b) ==> reply.status.number() == if b@.len() == 0 {
            204int
        } else {
            200
        },
        reply.status.succeeds() <==> body is Some,
{
    let content_type = "text/plain";
    match body {
        None => HttpReply {
            status: Status::internal_server_error(),
            content_type,
            body: Vec::new(),
        },
        Some(body) => {
            let status = if body.len() == 0 {
                Status::no_content()
            } else {
                Status::ok()
            };
            HttpReply { status, content_type, body }
        },
    }
}

/// The configuration that is in force, and how it is replaced by what is read anew.
#[derive(Clone, Copy, Debug)]
pub struct Reload {
    /// What is in force.
    pub current: Params,
    /// What was published and is to be in force once it was taken.
    pub pending: Option<Params>,
}

/// What happens to a configuration.
#[derive(Clone, Copy, Debug)]
pub enum ReloadEvent {
    /// It was read.
    Read(Params),
    /// It could not be read.
    Unreadable,
    /// What was published was taken.
    Taken,
    /// Nobody takes it any more.
    Closed,
}

/// What is to be done about a configuration.
#[derive(Clone, Copy, Debug)]
pub enum ReloadAction {
    /// Wait until it is time to read it again.
    Wait,
    /// Publish it.
    Publish(Params),
    /// Stop.
    Stop,
}

impl Reload {
    /// What follows on an event: only a configuration that differs from the one in
    /// force is published, and it is in force once it was taken.
    pub open spec fn moved(self, event: ReloadEvent) -> (Reload, ReloadAction) {
        match event {
            ReloadEvent::Read(p) => if p.is_same(self.current) {
                (self, ReloadAction::Wait)
            } else {
                (Reload { pending: Some(p), ..self }, ReloadAction::Publish(p))
            },
            ReloadEvent::Unreadable => (self, ReloadAction::Wait),
            ReloadEvent::Taken => match self.pending {
                Some(p) => (Reload { current: p, pending: None }, ReloadAction::Wait),
                None => (self, ReloadAction::Wait),
            },
            ReloadEvent::Closed => (self, ReloadAction::Stop),
        }
    }

    /// What is in force after the first reading: what was read, and the defaults where
    /// that failed.
    pub fn start(read: Option<Params>) -> (r: Reload)
        ensures
            r.pending is None,
            r.current == match read {
                Some(p) => p,
                None => Params::none(),
            },
            read is None ==> {
                let p = r.current;
                &&& p.fail_rate.bits == 0
                &&& p.sleep.min.bits == 0 && p.sleep.p50.bits == 0 && p.sleep.p90.bits == 0
                &&& p.sleep.p99.bits == 0 && p.sleep.max.bits == 0
                &&& p.data.min == 0 && p.data.p50 == 0 && p.data.p90 == 0 && p.data.p99 == 0
                &&& p.data.max == 0
            },
    {
        let current = match read {
            Some(p) => p,
            None => Params::default(),
        };
        Reload { current, pending: None }
    }

    /// Says what to do on an event.
    pub fn on_event(&self, event: ReloadEvent) -> (step: (Reload, ReloadAction))
        ensures
            step == self.moved(event),
    {
        match event {
            ReloadEvent::Read(p) => if p.same(&self.current) {
                (*self, ReloadAction::Wait)
            } else {
                (Reload { current: self.current, pending: Some(p) }, ReloadAction::Publish(p))
            },
            ReloadEvent::Unreadable => (*self, ReloadAction::Wait),
            ReloadEvent::Taken => match self.pending {
                Some(p) => (Reload { current: p, pending: None }, ReloadAction::Wait),
                None => (*self, ReloadAction::Wait),
            },
            ReloadEvent::Closed => (*self, ReloadAction::Stop),
        }
    }
}

/// A request fails never where the rate is not positive, and always where it is at
/// least one, whatever number below one is drawn.
pub proof fn extreme_rates_are_certain(fail_rate: Double, draw: Double)
    requires
        draw.is_less(Double { bits: ONE_BITS }),
    ensures
        !fail_rate.is_positive() ==> !fails(fail_rate, draw),
        !fail_rate.is_nan() && !fail_rate.is_less(Double { bits: ONE_BITS }) ==> fails(
            fail_rate,
            draw,
        ),
{
}

/// Every exchange comes to a decision: after a sleep, if it takes time, and after a
/// draw, if there is a rate of failure, the request fails exactly where the draw is
/// below the rate.
pub proof fn exchange_decides(fail_rate: Double, sleep: u128, draw: Double)
    ensures
        ({
            let (first, asked) = Exchange::begun(fail_rate, sleep);
            let (awake, asked) = if asked == Next::Sleep {
                first.moved(Input::Woke)->0
            } else {
                (first, asked)
            };
            let (last, decision) = if asked == Next::Draw {
                awake.moved(Input::Drew(draw))->0
            } else {
                (awake, asked)
            };
            &&& last.stage == Stage::Decided
            &&& decision == if fails(fail_rate, draw) {
                Next::Fail
            } else {
                Next::Answer
            }
        }),
{
}

/// A configuration that could not be read, or that is the one in force, changes
/// nothing; any other one is in force once it was taken, and reading it again then
/// changes nothing, unless it holds what is no number.
pub proof fn reload_takes_effect_once(r: Reload, p: Params)
    ensures
        r.moved(ReloadEvent::Unreadable) == (r, ReloadAction::Wait),
        p.is_same(r.current) ==> r.moved(ReloadEvent::Read(p)) == (r, ReloadAction::Wait),
        !p.is_same(r.current) ==> {
            let (published, action) = r.moved(ReloadEvent::Read(p));
            let (taken, _) = published.moved(ReloadEvent::Taken);
            &&& action == ReloadAction::Publish(p)
            &&& published.current == r.current
            &&& taken.current == p
            &&& p.is_same(p) ==> taken.moved(ReloadEvent::Read(p)) == (taken, ReloadAction::Wait)
        },
{
}

/// A call is taken for gRPC exactly where its content type starts with these bytes, those
/// of `application/grpc`.
pub proof fn grpc_is_told_by_its_prefix(content_type: Seq<u8>)
    requires
        content_type.len() >= 16,
    ensures
        is_grpc_type(content_type) <==> content_type.subrange(0, 16) == seq![
            97u8,
            112,
            112,
            108,
            105,
            99,
            97,
            116,
            105,
            111,
            110,
            47,
            103,
            114,
            112,
            99,
        ],
{
    reveal_strlit("application/grpc");
    let prefix = seq![
        97u8,
        112,
        112,
        108,
        105,
        99,
        97,
        116,
        105,
        111,
        110,
        47,
        103,
        114,
        112,
        99,
    ];
    assert(ascii("application/grpc"@) =~= prefix);
}

/// What is asked for in an exchange: a sleep at the start exactly where it takes time, and
/// before the decision a draw exactly where the rate of failure is above zero. A request
/// fails exactly where the draw is below the rate, and only what was asked for is taken.
pub proof fn exchange_asks_for_what_it_needs(fail_rate: Double, sleep: u128, draw: Double)
    ensures
        ({
            let risky = !fail_rate.is_nan() && number(fail_rate) > 0;
            let below = !draw.is_nan() && !fail_rate.is_nan() && number(draw) < number(fail_rate);
            let asleep = Exchange { fail_rate, stage: Stage::Asleep };
            let drawing = Exchange { fail_rate, stage: Stage::Drawing };
            let decided = Exchange { fail_rate, stage: Stage::Decided };
            let awake = if risky {
                (drawing, Next::Draw)
            } else {
                (decided, Next::Answer)
            };
            &&& sleep > 0 ==> Exchange::begun(fail_rate, sleep) == (asleep, Next::Sleep)
            &&& sleep == 0 ==> Exchange::begun(fail_rate, sleep) == awake
            &&& asleep.moved(Input::Woke) == Some(awake)
            &&& below ==> drawing.moved(Input::Drew(draw)) == Some((decided, Next::Fail))
            &&& !below ==> drawing.moved(Input::Drew(draw)) == Some((decided, Next::Answer))
            &&& asleep.moved(Input::Drew(draw)) is None
            &&& drawing.moved(Input::Woke) is None
            &&& decided.moved(Input::Woke) is None
            &&& decided.moved(Input::Drew(draw)) is None
            &&& fails(fail_rate, draw) <==> risky && below
        }),
{
    doubles_compare_as_numbers(fail_rate, fail_rate);
    doubles_compare_as_numbers(draw, fail_rate);
}

/// A configuration that was read is published exactly where it differs from the one in
/// force in one of its eleven numbers, and then that one is. Whatever else happens,
/// nothing is published.
pub proof fn any_change_is_published(r: Reload, p: Params, event: ReloadEvent)
    ensures
        ({
            let agree = {
                &&& one_number(p.fail_rate, r.current.fail_rate)
                &&& one_number(p.sleep.min, r.current.sleep.min)
                &&& one_number(p.sleep.p50, r.current.sleep.p50)
                &&& one_number(p.sleep.p90, r.current.sleep.p90)
                &&& one_number(p.sleep.p99, r.current.sleep.p99)
                &&& one_number(p.sleep.max, r.current.sleep.max)
                &&& p.data.min == r.current.data.min
                &&& p.data.p50 == r.current.data.p50
                &&& p.data.p90 == r.current.data.p90
                &&& p.data.p99 == r.current.data.p99
                &&& p.data.max == r.current.data.max
            };
            let (next, action) = r.moved(ReloadEvent::Read(p));
            &&& next.current == r.current
            &&& agree ==> action == ReloadAction::Wait && next.pending == r.pending
            &&& !agree ==> action == ReloadAction::Publish(p) && next.pending == Some(p)
            &&& event !is Read ==> r.moved(event).1 !is Publish
        }),
{
    same_parameters_agree_in_all(p, r.current);
}

/// What was published is in force once it was taken, and nothing else ever is; the end is
/// reached exactly where nobody takes it any more.
pub proof fn only_what_was_taken_is_in_force(r: Reload, event: ReloadEvent)
    ensures
        ({
            let (next, action) = r.moved(event);
            &&& event is Taken ==> next.current == (match r.pending {
                Some(p) => p,
                None => r.current,
            }) && next.pending is None && action == ReloadAction::Wait
            &&& event !is Taken ==> next.current == r.current
            &&& event is Unreadable || event is Closed ==> next == r
            &&& action == ReloadAction::Stop <==> event is Closed
        }),
{
}

/// An answer succeeds exactly where there is data for it, if only an empty one, and carries
/// that data and nothing else; its status tells whether it carries any.
pub proof fn answers_carry_their_data(body: Option<Vec<u8>>, reply: HttpReply)
    requires
        call_ensures(http_reply, (body,), reply),
    ensures
        200 <= reply.status.number() <= 299 <==> body is Some,
        reply.status.number() == 500 <==> body is None,
        reply.status.number() == 200 <==> reply.body@.len() > 0,
        reply.body@ == (match body {
            Some(b) => b@,
            None => Seq::empty(),
        }),
        reply.content_type@ == "text/plain"@,
{
    if body is None {
        assert(reply.body@ =~= Seq::empty());
    }
}

} // verus!
