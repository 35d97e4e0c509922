//! What is reported through a channel, by all who report to it.
use crate::channel::Attempt;
use crate::report::{
    all_reported, all_taken, balanced_rounds_are_counted, events_of, follow_each_other, keep_count,
    reports_cover_the_traffic_once,
};
use crate::status::Status;
use crate::summary::{
    after_all, balanced, balanced_is_countable, fresh, is_round, requested, requests, responded,
    responses, Event, Round, Summary, SummaryError, SummaryTx, SummaryTxRsp, Window,
};
use vstd::multiset::Multiset;
use vstd::prelude::*;

verus! {

/// What those who report can do.
pub enum Move {
    /// A request is reported, and `rsp` is given for its response.
    Request { tx: SummaryTx, start: u128, rsp: SummaryTxRsp },
    /// The handle number `handle` is used and becomes `after`; `sent` is handed to the
    /// channel.
    Respond {
        handle: int,
        after: SummaryTxRsp,
        status: Option<Status>,
        end: u128,
        sent: Option<Attempt>,
    },
}

/// The handles that were given out, and the events that the channel took.
pub struct Traffic {
    pub handles: Seq<SummaryTxRsp>,
    pub log: Seq<Event>,
}

/// `log` with what the channel took of an attempt.
pub open spec fn logged(log: Seq<Event>, attempt: Attempt) -> Seq<Event> {
    if attempt.succeeded() {
        log.push(attempt.what())
    } else {
        log
    }
}

/// The traffic of `channel` after one move; `None` where there is no such move.
pub open spec fn after_move(channel: int, t: Traffic, m: Move) -> Option<Traffic> {
    match m {
        Move::Request { tx, start, rsp } => if tx.feeds() == channel && requested(tx, start, rsp) {
            Some(
                Traffic {
                    handles: t.handles.push(rsp),
                    log: logged(t.log, rsp.announced()),
                },
            )
        } else {
            None
        },
        Move::Respond { handle, after, status, end, sent } => if 0 <= handle < t.handles.len()
            && responded(t.handles[handle], after, status, end, sent) {
            Some(
                Traffic {
                    handles: t.handles.update(handle, after),
                    log: match sent {
                        Some(attempt) => logged(t.log, attempt),
                        None => t.log,
                    },
                },
            )
        } else {
            None
        },
    }
}

/// The traffic of `channel` that `moves` make, from none.
pub open spec fn after_moves(channel: int, moves: Seq<Move>) -> Option<Traffic>
    decreases moves.len(),
{
    if moves.len() == 0 {
        Some(Traffic { handles: Seq::empty(), log: Seq::empty() })
    } else {
        match after_moves(channel, moves.drop_last()) {
            Some(t) => after_move(channel, t, moves.last()),
            None => None,
        }
    }
}

/// How many handles are open.
pub open spec fn open_handles(handles: Seq<SummaryTxRsp>) -> int
    decreases handles.len(),
{
    if handles.len() == 0 {
        0
    } else {
        open_handles(handles.drop_last()) + if handles.last().is_open() {
            1int
        } else {
            0
        }
    }
}

proof fn lemma_open_handles_update(handles: Seq<SummaryTxRsp>, i: int, closed: SummaryTxRsp)
    requires
        0 <= i < handles.len(),
        !closed.is_open(),
    ensures
        0 <= open_handles(handles),
        open_handles(handles.update(i, closed)) == open_handles(handles) - if handles[i].is_open() {
            1int
        } else {
            0
        },
    decreases handles.len(),
{
    let next = handles.update(i, closed);
    if i == handles.len() - 1 {
        assert(next.drop_last() =~= handles.drop_last());
        lemma_open_handles_positive(handles.drop_last());
    } else {
        assert(next.drop_last() =~= handles.drop_last().update(i, closed));
        lemma_open_handles_update(handles.drop_last(), i, closed);
    }
}

proof fn lemma_open_handles_positive(handles: Seq<SummaryTxRsp>)
    ensures
        0 <= open_handles(handles),
    decreases handles.len(),
{
    if handles.len() > 0 {
        lemma_open_handles_positive(handles.drop_last());
    }
}

proof fn lemma_log_grows(log: Seq<Event>, ev: Event)
    requires
        forall|i: int|
            #![trigger log.take(i)]
            0 <= i <= log.len() ==> 0 <= requests(log.take(i)) - responses(log.take(i)),
        ev is Request || requests(log) > responses(log),
    ensures
        requests(log.push(ev)) == requests(log) + if ev is Request {
            1int
        } else {
            0
        },
        responses(log.push(ev)) == responses(log) + if ev is Response {
            1int
        } else {
            0
        },
        forall|i: int|
            #![trigger log.push(ev).take(i)]
            0 <= i <= log.push(ev).len() ==> 0 <= requests(log.push(ev).take(i)) - responses(
                log.push(ev).take(i),
            ),
{
    let next = log.push(ev);
    assert(next.drop_last() =~= log);
    assert(log.take(log.len() as int) =~= log);
    assert forall|i: int| #![trigger next.take(i)] 0 <= i <= next.len() implies 0 <= requests(
        next.take(i),
    ) - responses(next.take(i)) by {
        if i <= log.len() {
            assert(next.take(i) =~= log.take(i));
        } else {
            assert(next.take(i) =~= next);
        }
    }
}

proof fn lemma_no_response_without_request(channel: int, moves: Seq<Move>)
    requires
        after_moves(channel, moves) is Some,
    ensures
        ({
            let t = after_moves(channel, moves)->0;
            &&& 0 <= open_handles(t.handles)
            &&& responses(t.log) + open_handles(t.handles) <= requests(t.log)
            &&& forall|i: int|
                #![trigger t.log.take(i)]
                0 <= i <= t.log.len() ==> 0 <= requests(t.log.take(i)) - responses(t.log.take(i))
        }),
    decreases moves.len(),
{
    if moves.len() > 0 {
        let before = after_moves(channel, moves.drop_last())->0;
        let t = after_moves(channel, moves)->0;
        lemma_no_response_without_request(channel, moves.drop_last());
        match moves.last() {
            Move::Request { tx, start, rsp } => {
                assert(t.handles.drop_last() =~= before.handles);
                if rsp.is_open() {
                    lemma_log_grows(before.log, Event::Request(start));
                }
            },
            Move::Respond { handle, after, status, end, sent } => {
                lemma_open_handles_update(before.handles, handle, after);
                lemma_open_handles_positive(t.handles);
                if sent matches Some(attempt) && attempt.succeeded() {
                    lemma_log_grows(before.log, before.handles[handle].report(status, end));
                }
            },
        }
    } else {
        let log = Seq::<Event>::empty();
        assert forall|i: int| #![trigger log.take(i)] 0 <= i <= log.len() implies 0 <= requests(
            log.take(i),
        ) - responses(log.take(i)) by {
            assert(log.take(i) =~= log);
        }
    }
}

/// There are never more requests in flight than a `u32` counts.
pub open spec fn stays_countable(log: Seq<Event>) -> bool {
    forall|i: int|
        #![trigger log.take(i)]
        0 <= i <= log.len() ==> requests(log.take(i)) - responses(log.take(i)) <= u32::MAX
}

/// Whatever is reported, and whatever the channel does not take, a response is never
/// counted without a request in flight: what the channel took can always be counted,
/// if there are never too many requests in flight.
pub proof fn traffic_is_countable(channel: int, moves: Seq<Move>, w: Window)
    requires
        after_moves(channel, moves) is Some,
        stays_countable((after_moves(channel, moves)->0).log),
        w.load.in_flight == 0,
    ensures
        responses((after_moves(channel, moves)->0).log) <= requests((after_moves(channel, moves)->0).log),
        balanced(0, (after_moves(channel, moves)->0).log),
        after_all(w, (after_moves(channel, moves)->0).log) is Some,
{
    let log = (after_moves(channel, moves)->0).log;
    lemma_no_response_without_request(channel, moves);
    assert(balanced(0, log));
    balanced_is_countable(w, log);
}

/// Reports on what goes through handles never end because an event cannot be counted,
/// if there are never too many requests in flight: where the channel gives what it took,
/// in that order and as far as the rounds have come, every round counts all that it is
/// given. So the responses of all reports together are all the responses that the channel
/// gave.
pub proof fn traffic_is_reported(channel: int, moves: Seq<Move>, rounds: Seq<Round>)
    requires
        after_moves(channel, moves) is Some,
        stays_countable((after_moves(channel, moves)->0).log),
        events_of(all_taken(rounds)).is_prefix_of((after_moves(channel, moves)->0).log),
        keep_count(rounds),
        follow_each_other(rounds),
        forall|i: int|
            0 <= i < rounds.len() ==> {
                let r = #[trigger] rounds[i];
                &&& is_round(r)
                &&& r.before == fresh(r.before.load, Multiset::empty())
            },
    ensures
        forall|i: int|
            0 <= i < rounds.len() ==> (#[trigger] rounds[i]).summary != Err::<Summary, SummaryError>(
                SummaryError::Unbalanced,
            ),
        all_reported(rounds) == responses(events_of(all_taken(rounds))),
{
    let log = (after_moves(channel, moves)->0).log;
    lemma_no_response_without_request(channel, moves);
    assert(balanced(0, log));
    balanced_rounds_are_counted(rounds, log);
    if rounds.len() > 0 {
        reports_cover_the_traffic_once(rounds);
    } else {
        assert(events_of(all_taken(rounds)) =~= Seq::empty());
    }
}

/// What is reported through one handle, however often it is used: the request, and, if
/// the channel took that, one response, which is that of the first use. If the channel
/// did not take the request, no response is ever reported.
pub proof fn handle_reports_once(
    tx: SummaryTx,
    start: u128,
    handles: Seq<SummaryTxRsp>,
    uses: Seq<(Option<Status>, u128, Option<Attempt>)>,
)
    requires
        handles.len() == uses.len() + 1,
        requested(tx, start, handles[0]),
        forall|i: int|
            0 <= i < uses.len() ==> responded(
                handles[i],
                #[trigger] handles[i + 1],
                uses[i].0,
                uses[i].1,
                uses[i].2,
            ),
    ensures
        handles[0].announced().what() == Event::Request(start),
        handles[0].announced().to() == tx.feeds(),
        forall|i: int|
            0 <= i < uses.len() ==> (#[trigger] uses[i].2 is Some <==> i == 0
                && handles[0].announced().succeeded()),
        uses.len() > 0 ==> (uses[0].2 matches Some(attempt) ==> {
            let (status, end, _) = uses[0];
            &&& attempt.to() == tx.feeds()
            &&& attempt.what() == Event::Response {
                status,
                elapsed: if end < start {
                    0
                } else {
                    (end - start) as u128
                },
                time: end,
            }
        }),
{
    assert forall|i: int| 0 <= i < uses.len() implies (#[trigger] uses[i].2 is Some <==> i == 0
        && handles[0].announced().succeeded()) by {
        assert(responded(handles[i], handles[i + 1], uses[i].0, uses[i].1, uses[i].2));
        if i > 0 {
            assert(responded(
                handles[i - 1],
                handles[(i - 1) + 1],
                uses[i - 1].0,
                uses[i - 1].1,
                uses[i - 1].2,
            ));
        }
    }
    if uses.len() > 0 {
        let first: int = 0;
        assert(responded(
            handles[first],
            handles[first + 1],
            uses[first].0,
            uses[first].1,
            uses[first].2,
        ));
    }
}

} // verus!
