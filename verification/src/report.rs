//! The reports that are made of the traffic, one after the other.
use crate::channel::{drained, given};
use crate::latency::{
    is_percentile, percentile_was_recorded, Latencies,
};
use crate::load::{LoadAvg, LoadState};
use crate::status::Status;
use crate::summary::{
    after_all, after_event, after_given, balanced, cancels, counts_are_those_of_the_log, fresh, is_over,
    is_round, requests, responses, responses_are_counted_with_their_latency, successes, summarize, Event, Received, Round, Summary, SummaryError, Window,
};
use tokio::sync::mpsc::Receiver;
use vstd::multiset::Multiset;
use vstd::prelude::*;

verus! {

/// Makes one report: what was counted before is forgotten, and the channel is summed up.
/// There is none any more where nobody reports.
pub fn report(rx: &mut Receiver<Event>, latencies: &mut Latencies, load: &mut LoadAvg) -> (summary:
    Result<Summary, SummaryError>)
    requires
        old(latencies).wf(),
    ensures
        final(latencies).wf(),
        drained(*final(rx)) == drained(*old(rx)),
        ({
            let taken = given(*final(rx)).skip(given(*old(rx)).len() as int);
            &&& given(*final(rx)) == given(*old(rx)) + taken
            &&& is_round(
                (Round {
                    given: given(*old(rx)),
                    taken,
                    before: fresh(old(load)@, Multiset::empty()),
                    load: final(load)@,
                    latencies: final(latencies)@,
                    summary,
                }),
            )
        }),
{
    latencies.clear();
    summarize(rx, latencies, load)
}

/// The events among what the channel gave.
pub open spec fn events_of(items: Seq<Received>) -> Seq<Event>
    decreases items.len(),
{
    if items.len() == 0 {
        Seq::empty()
    } else {
        match items.last() {
            Received::Event(ev) => events_of(items.drop_last()).push(ev),
            _ => events_of(items.drop_last()),
        }
    }
}

proof fn lemma_events_counted(w: Window, items: Seq<Received>)
    requires
        after_given(w, items).1 is More,
    ensures
        after_all(w, events_of(items)) == Some(after_given(w, items).0),
        events_of(items).len() == items.len(),
    decreases items.len(),
{
    if items.len() > 0 {
        lemma_events_counted(w, items.drop_last());
        let log = events_of(items);
        assert(log.drop_last() =~= events_of(items.drop_last()));
    }
}

proof fn lemma_only_events(w: Window, items: Seq<Received>)
    requires
        after_given(w, items).1 is More,
    ensures
        forall|i: int| 0 <= i < items.len() ==> #[trigger] items[i] is Event,
    decreases items.len(),
{
    if items.len() > 0 {
        let init = items.drop_last();
        lemma_only_events(w, init);
        assert forall|i: int| 0 <= i < items.len() implies #[trigger] items[i] is Event by {
            if i < init.len() {
                assert(items[i] == init[i]);
            }
        }
    }
}

/// A report covers what the channel gave in its round and nothing else: it counts the
/// responses among that, how many of them succeeded and how many were given up, and its
/// percentiles are theirs. There is none where the channel was disconnected and had no
/// response to give.
pub proof fn report_covers_its_round(r: Round, load: LoadState)
    requires
        is_round(r),
        r.before == fresh(load, Multiset::empty()),
    ensures
        r.summary matches Ok(s) ==> {
            let w = after_all(r.before, events_of(r.taken));
            &&& w is Some
            &&& s.total == responses(events_of(r.taken))
            &&& s.success == successes(events_of(r.taken))
            &&& s.cancel == cancels(events_of(r.taken))
            &&& s.measures((w->0).latencies)
            &&& (w->0).latencies.len() <= 0x100_0000_0000 ==> {
                &&& is_percentile((w->0).latencies, 50, s.p50)
                &&& is_percentile((w->0).latencies, 90, s.p90)
                &&& is_percentile((w->0).latencies, 99, s.p99)
            }
            &&& r.taken.last() is Event ==> r.taken.len() == u64::MAX
            &&& r.load == (w->0).load
            &&& r.latencies == Multiset::<u64>::empty()
        },
        r.summary is Err ==> {
            let w = after_all(r.before, events_of(r.taken.drop_last()));
            &&& w is Some
            &&& r.load == (w->0).load
        },
        r.taken.len() > 0,
        forall|i: int| 0 <= i < r.taken.len() - 1 ==> #[trigger] r.taken[i] is Event,
        r.summary matches Err(SummaryError::Unbalanced) ==> {
            let w = after_all(r.before, events_of(r.taken.drop_last()));
            &&& w is Some
            &&& r.taken.last() matches Received::Event(ev) && after_event(w->0, ev) is None
        },
        r.summary matches Err(SummaryError::Disconnected) ==> {
            &&& is_over(r.taken)
            &&& r.taken.last() == Received::Disconnected
            &&& responses(events_of(r.taken)) == 0
        },
        is_over(r.taken) && responses(events_of(r.taken)) == 0 ==> r.summary == Err::<
            Summary,
            SummaryError,
        >(SummaryError::Disconnected),
{
    let init = r.taken.drop_last();
    lemma_events_counted(r.before, init);
    lemma_only_events(r.before, init);
    counts_are_those_of_the_log(r.before, events_of(init));
    assert forall|i: int| 0 <= i < r.taken.len() - 1 implies #[trigger] r.taken[i] is Event by {
        assert(r.taken[i] == init[i]);
    }
    if r.summary is Ok && after_given(r.before, r.taken).1 is More {
        lemma_events_counted(r.before, r.taken);
        counts_are_those_of_the_log(r.before, events_of(r.taken));
    }
}

/// Rounds that follow each other, each on what the channel gives after the one before.
pub open spec fn follow_each_other(rounds: Seq<Round>) -> bool {
    forall|i: int|
        0 < i < rounds.len() ==> #[trigger] rounds[i].given == rounds[i - 1].given + rounds[i
            - 1].taken
}

/// All that the channel gave in the rounds.
pub open spec fn all_taken(rounds: Seq<Round>) -> Seq<Received>
    decreases rounds.len(),
{
    if rounds.len() == 0 {
        Seq::empty()
    } else {
        all_taken(rounds.drop_last()) + rounds.last().taken
    }
}

/// The sum of the responses that the rounds report.
pub open spec fn all_reported(rounds: Seq<Round>) -> int
    decreases rounds.len(),
{
    if rounds.len() == 0 {
        0
    } else {
        all_reported(rounds.drop_last()) + match rounds.last().summary {
            Ok(s) => s.total as int,
            Err(_) => 0,
        }
    }
}

proof fn lemma_events_both(first: Seq<Received>, second: Seq<Received>)
    ensures
        events_of(first + second) == events_of(first) + events_of(second),
    decreases second.len(),
{
    let all = first + second;
    if second.len() == 0 {
        assert(all =~= first);
        assert(events_of(first) + events_of(second) =~= events_of(first));
    } else {
        lemma_events_both(first, second.drop_last());
        assert(all.drop_last() =~= first + second.drop_last());
        assert(all.last() == second.last());
        assert(events_of(all) =~= events_of(first) + events_of(second));
    }
}

proof fn lemma_counts_both(first: Seq<Event>, second: Seq<Event>)
    ensures
        requests(first + second) == requests(first) + requests(second),
        responses(first + second) == responses(first) + responses(second),
    decreases second.len(),
{
    let all = first + second;
    if second.len() == 0 {
        assert(all =~= first);
    } else {
        lemma_counts_both(first, second.drop_last());
        assert(all.drop_last() =~= first + second.drop_last());
        assert(all.last() == second.last());
    }
}

/// Reports cover the traffic without a gap and without counting twice: what the channel
/// gave before the first round and in all rounds is what it has given after the last, and
/// the responses of all reports together are all the responses that it gave.
pub proof fn reports_cover_the_traffic_once(rounds: Seq<Round>)
    requires
        rounds.len() > 0,
        follow_each_other(rounds),
        forall|i: int|
            0 <= i < rounds.len() ==> {
                let r = #[trigger] rounds[i];
                &&& is_round(r)
                &&& r.before == fresh(r.before.load, Multiset::empty())
                &&& r.summary != Err::<Summary, SummaryError>(SummaryError::Unbalanced)
            },
    ensures
        rounds.last().given + rounds.last().taken == rounds[0].given + all_taken(rounds),
        all_reported(rounds) == responses(events_of(all_taken(rounds))),
    decreases rounds.len(),
{
    let init = rounds.drop_last();
    let last = rounds.last();
    assert(rounds[rounds.len() - 1] == last);
    report_covers_its_round(last, last.before.load);
    if init.len() == 0 {
        assert(all_reported(init) == 0);
        assert(all_taken(init) =~= Seq::empty());
        assert(all_taken(rounds) =~= last.taken);
    } else {
        assert forall|i: int| 0 < i < init.len() implies #[trigger] init[i].given == init[i
            - 1].given + init[i - 1].taken by {
            assert(rounds[i].given == rounds[i - 1].given + rounds[i - 1].taken);
        }
        assert forall|i: int| 0 <= i < init.len() implies {
            let r = #[trigger] init[i];
            &&& is_round(r)
            &&& r.before == fresh(r.before.load, Multiset::empty())
            &&& r.summary != Err::<Summary, SummaryError>(SummaryError::Unbalanced)
        } by {
            assert(init[i] == rounds[i]);
        }
        reports_cover_the_traffic_once(init);
        assert(last.given == init.last().given + init.last().taken);
        lemma_events_both(all_taken(init), last.taken);
        lemma_counts_both(events_of(all_taken(init)), events_of(last.taken));
        assert(rounds[0].given + all_taken(rounds) =~= (rounds[0].given + all_taken(init))
            + last.taken);
    }
}

/// Reports stop for good: once the channel was found disconnected, with a last report or
/// without one, there is none in any later round.
pub proof fn reports_stop_for_good(first: Round, next: Round)
    requires
        is_round(first),
        is_round(next),
        next.given == first.given + first.taken,
        next.before.total == 0,
        is_over(first.taken),
    ensures
        next.summary == Err::<Summary, SummaryError>(SummaryError::Disconnected),
        is_over(next.taken),
{
    assert(next.given.last() == first.taken.last());
    assert(next.taken.drop_last() =~= Seq::empty());
}

/// Rounds that keep count of the requests in flight: there are none before the first, and
/// each starts with those with which the one before ended.
pub open spec fn keep_count(rounds: Seq<Round>) -> bool {
    forall|i: int|
        0 <= i < rounds.len() ==> #[trigger] rounds[i].before.load.in_flight == if i == 0 {
            0
        } else {
            rounds[i - 1].load.in_flight
        }
}

/// Where the events of a round keep the requests in flight countable, the round counts
/// them all.
proof fn lemma_balanced_round(r: Round, earlier: Seq<Event>)
    requires
        is_round(r),
        r.before.load.in_flight == requests(earlier) - responses(earlier),
        0 <= requests(earlier + events_of(r.taken)) - responses(earlier + events_of(r.taken))
            <= u32::MAX,
    ensures
        r.summary != Err::<Summary, SummaryError>(SummaryError::Unbalanced),
        r.load.in_flight == requests(earlier + events_of(r.taken)) - responses(
            earlier + events_of(r.taken),
        ),
{
    let init = r.taken.drop_last();
    let log = events_of(r.taken);
    lemma_events_counted(r.before, init);
    counts_are_those_of_the_log(r.before, events_of(init));
    lemma_counts_both(earlier, log);
    if r.taken.last() is Event {
        assert(log.drop_last() =~= events_of(init));
    }
}

/// Rounds on a log that keeps the requests in flight countable count all of it: none of
/// them ends because an event cannot be counted.
pub proof fn balanced_rounds_are_counted(rounds: Seq<Round>, log: Seq<Event>)
    requires
        balanced(0, log),
        events_of(all_taken(rounds)).is_prefix_of(log),
        keep_count(rounds),
        forall|i: int| 0 <= i < rounds.len() ==> is_round(#[trigger] rounds[i]),
    ensures
        forall|i: int|
            0 <= i < rounds.len() ==> (#[trigger] rounds[i]).summary != Err::<Summary, SummaryError>(
                SummaryError::Unbalanced,
            ),
        rounds.len() > 0 ==> rounds.last().load.in_flight == requests(
            events_of(all_taken(rounds)),
        ) - responses(events_of(all_taken(rounds))),
    decreases rounds.len(),
{
    if rounds.len() > 0 {
        let init = rounds.drop_last();
        let last = rounds[rounds.len() - 1];
        let earlier = events_of(all_taken(init));
        let all = events_of(all_taken(rounds));
        lemma_events_both(all_taken(init), last.taken);
        assert(all == earlier + events_of(last.taken));
        assert(log.take(all.len() as int) =~= all);
        assert(earlier.is_prefix_of(log)) by {
            assert(earlier =~= log.subrange(0, earlier.len() as int));
        }
        assert forall|i: int| 0 <= i < init.len() implies #[trigger] init[i].before.load.in_flight
            == if i == 0 {
            0
        } else {
            init[i - 1].load.in_flight
        } by {
            assert(rounds[i].before.load.in_flight == if i == 0 {
                0
            } else {
                rounds[i - 1].load.in_flight
            });
        }
        assert forall|i: int| 0 <= i < init.len() implies is_round(#[trigger] init[i]) by {
            assert(init[i] == rounds[i]);
        }
        balanced_rounds_are_counted(init, log);
        if init.len() == 0 {
            assert(all_taken(init) =~= Seq::empty());
            assert(earlier =~= Seq::empty());
        }
        lemma_balanced_round(last, earlier);
        assert forall|i: int| 0 <= i < rounds.len() implies (#[trigger] rounds[i]).summary != Err::<
            Summary,
            SummaryError,
        >(SummaryError::Unbalanced) by {
            if i < init.len() {
                assert(init[i] == rounds[i]);
            }
        }
    }
}

/// A window with one response, which took fewer than 2048 whole milliseconds, has that many
/// as its median and as its other percentiles, counts one response, and counts it as a
/// success or as given up by its status.
pub proof fn one_response_is_its_own_percentile(
    r: Round,
    load: LoadState,
    start: u128,
    status: Option<Status>,
    elapsed: u128,
    time: u128,
)
    requires
        is_round(r),
        r.before == fresh(load, Multiset::empty()),
        0 <= load.in_flight < 0xffff_ffff,
        r.taken == seq![
            Received::Event(Event::Request(start)),
            Received::Event(Event::Response { status, elapsed, time }),
            Received::Empty,
        ],
        elapsed / 1_000_000 < 2048,
    ensures
        r.summary is Ok,
        r.summary matches Ok(s) ==> {
            &&& s.p50 == elapsed / 1_000_000
            &&& s.p90 == elapsed / 1_000_000
            &&& s.p99 == elapsed / 1_000_000
            &&& s.total == 1
            &&& s.success == if status is Some && 200 <= (status->0).number() <= 299 {
                1int
            } else {
                0
            }
            &&& s.cancel == if status is None {
                1int
            } else {
                0
            }
        },
        r.load.in_flight == load.in_flight,
{
    broadcast use vstd::multiset::group_multiset_axioms;

    reveal_with_fuel(after_given, 4);
    let request = Event::Request(start);
    let response = Event::Response { status, elapsed, time };
    let ms = (elapsed / 1_000_000) as u64;
    assert(r.taken.drop_last() =~= seq![Received::Event(request), Received::Event(response)]);
    assert(r.taken.drop_last().drop_last() =~= seq![Received::Event(request)]);
    assert(r.taken.drop_last().drop_last().drop_last() =~= Seq::empty());
    let first = after_event(r.before, request)->0;
    let w = after_event(first, response)->0;
    responses_are_counted_with_their_latency(first, status, elapsed, time, ms);
    assert(after_given(r.before, r.taken).0 == w);
    if let Ok(s) = r.summary {
        percentile_was_recorded(w.latencies, 50, s.p50);
        percentile_was_recorded(w.latencies, 90, s.p90);
        percentile_was_recorded(w.latencies, 99, s.p99);
        responses_are_counted_with_their_latency(first, status, elapsed, time, s.p50);
        responses_are_counted_with_their_latency(first, status, elapsed, time, s.p90);
        responses_are_counted_with_their_latency(first, status, elapsed, time, s.p99);
    }
}

} // verus!
