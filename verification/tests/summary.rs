use schlep::channel::Attempt;
use schlep::latency::Latencies;
use schlep::load::{Ewma, LoadAvg, Sample};
use schlep::report::report;
use schlep::status::Status;
use schlep::summary::{
    apply_event, channel, finish, on_received, summarize, Event, Progress, Received, Summary,
    SummaryError, Tally,
};

const MS: u128 = 1_000_000;

fn nothing() -> Tally {
    Tally { total: 0, success: 0, cancel: 0 }
}

fn response(status: Option<Status>, elapsed: u128, time: u128) -> Event {
    Event::Response { status, elapsed, time }
}

/// The event of an attempt that was made and that the channel took.
fn taken(sent: Option<Attempt>) -> Event {
    let attempt = sent.unwrap();
    assert!(attempt.taken());
    attempt.event()
}

#[test]
fn percentiles_of_latencies() {
    let mut latencies = Latencies::new();
    assert_eq!(latencies.percentiles(), (0, 0, 0));
    for ms in 1..=100 {
        latencies.record(ms);
    }
    assert_eq!(latencies.percentiles(), (50, 90, 99));
    latencies.clear();
    assert_eq!(latencies.percentiles(), (0, 0, 0));
    for ms in [5, 1, 4, 2, 3] {
        latencies.record(ms);
    }
    assert_eq!(latencies.percentiles(), (3, 5, 5));
}

#[test]
fn latencies_that_have_no_slot_count_as_two() {
    let mut latencies = Latencies::new();
    latencies.record(2047);
    assert_eq!(latencies.percentiles(), (2047, 2047, 2047));
    latencies.clear();
    latencies.record(2048);
    assert_eq!(latencies.percentiles(), (2, 2, 2));
    latencies.record(u64::MAX);
    latencies.record(1000);
    assert_eq!(latencies.percentiles(), (2, 1000, 1000));
}

#[test]
fn an_average_takes_only_later_observations() {
    let mut avg = Ewma::new(100);
    avg.add(7, 100);
    avg.add(7, 50);
    assert_eq!(avg.take_samples(), vec![]);
    avg.add(3, 110);
    avg.add(4, 110);
    avg.add(5, 125);
    assert_eq!(
        avg.take_samples(),
        vec![Sample::First(3), Sample::Blend { elapsed: 15, value: 5 }]
    );
    avg.add(6, 130);
    assert_eq!(avg.take_samples(), vec![Sample::Blend { elapsed: 5, value: 6 }]);
    assert_eq!(avg.take_samples(), vec![]);
}

#[test]
fn events_are_counted() {
    let (mut tally, mut load, mut latencies) = (nothing(), LoadAvg::new(0), Latencies::new());
    let events = [
        Event::Request(1),
        Event::Request(2),
        Event::Request(3),
        response(Some(Status::ok()), 5 * MS, 4),
        response(Some(Status::internal_server_error()), 6 * MS + 999_999, 5),
        response(None, 7 * MS, 6),
        Event::Request(7),
    ];
    for ev in events {
        assert!(apply_event(&mut tally, &mut load, &mut latencies, ev));
    }
    assert_eq!(tally, Tally { total: 3, success: 1, cancel: 1 });
    assert_eq!(load.in_flight, 1);
    assert_eq!(
        load.avg.take_samples(),
        vec![
            Sample::First(0),
            Sample::Blend { elapsed: 1, value: 1 },
            Sample::Blend { elapsed: 1, value: 2 },
            Sample::Blend { elapsed: 1, value: 3 },
            Sample::Blend { elapsed: 1, value: 2 },
            Sample::Blend { elapsed: 1, value: 1 },
            Sample::Blend { elapsed: 1, value: 0 },
        ]
    );
    let summary = finish(&tally, &mut latencies);
    assert_eq!(summary, Summary { total: 3, success: 1, cancel: 1, p50: 6, p90: 7, p99: 7 });
    assert_eq!(latencies.percentiles(), (0, 0, 0));
}

#[test]
fn milliseconds_are_cut_to_64_bits() {
    let (mut tally, mut load, mut latencies) = (nothing(), LoadAvg::new(0), Latencies::new());
    assert!(apply_event(&mut tally, &mut load, &mut latencies, Event::Request(1)));
    let elapsed = ((1u128 << 64) + 9) * MS;
    assert!(apply_event(&mut tally, &mut load, &mut latencies, response(None, elapsed, 2)));
    assert_eq!(latencies.percentiles(), (9, 9, 9));
}

#[test]
fn what_cannot_be_counted_is_reported() {
    let (mut tally, mut load, mut latencies) = (nothing(), LoadAvg::new(0), Latencies::new());
    let early = Received::Event(response(None, MS, 1));
    assert_eq!(
        on_received(&mut tally, &mut load, &mut latencies, early),
        Progress::Failed(SummaryError::Unbalanced)
    );
    assert_eq!(tally, nothing());
    load.in_flight = u32::MAX;
    let late = Received::Event(Event::Request(1));
    assert_eq!(
        on_received(&mut tally, &mut load, &mut latencies, late),
        Progress::Failed(SummaryError::Unbalanced)
    );
    assert_eq!(load.in_flight, u32::MAX);
    assert_eq!(load.avg.take_samples(), vec![]);
}

#[test]
fn a_disconnected_channel_ends_the_window_or_all() {
    let (mut tally, mut load, mut latencies) = (nothing(), LoadAvg::new(0), Latencies::new());
    let gone = Received::Disconnected;
    assert_eq!(
        on_received(&mut tally, &mut load, &mut latencies, gone),
        Progress::Failed(SummaryError::Disconnected)
    );
    assert_eq!(on_received(&mut tally, &mut load, &mut latencies, Received::Empty), Progress::Done);
    tally.total = 1;
    assert_eq!(on_received(&mut tally, &mut load, &mut latencies, gone), Progress::Done);
}

#[test]
fn traffic_is_summed_up() {
    let (tx, mut rx) = channel();
    let (mut load, mut latencies) = (LoadAvg::new(0), Latencies::new());
    let first = tx.request(10 * MS);
    let second = tx.clone().request(20 * MS);
    let mut third = tx.request(30 * MS);
    assert!(first.open());
    assert!(first.announcement().taken());
    assert_eq!(first.announcement().event(), Event::Request(10 * MS));
    assert_eq!(
        taken(first.response(Status::ok(), 14 * MS)),
        response(Some(Status::ok()), 4 * MS, 14 * MS)
    );
    assert_eq!(
        taken(second.response(Status::no_content(), 15 * MS)),
        response(Some(Status::no_content()), 0, 15 * MS)
    );
    assert_eq!(taken(third.respond(None, 39 * MS)), response(None, 9 * MS, 39 * MS));
    assert!(third.respond(None, 40 * MS).is_none());
    assert!(!third.open());
    let summary = summarize(&mut rx, &mut latencies, &mut load).unwrap();
    assert_eq!(summary, Summary { total: 3, success: 2, cancel: 1, p50: 4, p90: 9, p99: 9 });
    assert_eq!(load.in_flight, 0);
    let summary = summarize(&mut rx, &mut latencies, &mut load).unwrap();
    assert_eq!(summary, Summary { total: 0, success: 0, cancel: 0, p50: 0, p90: 0, p99: 0 });
}

#[test]
fn the_load_spans_windows() {
    let (tx, mut rx) = channel();
    let (mut load, mut latencies) = (LoadAvg::new(0), Latencies::new());
    let one = tx.request(1);
    let two = tx.request(2);
    taken(one.response(Status::ok(), 3));
    assert_eq!(summarize(&mut rx, &mut latencies, &mut load).unwrap().total, 1);
    assert_eq!(load.in_flight, 1);
    taken(two.response(Status::internal_server_error(), 4));
    let summary = summarize(&mut rx, &mut latencies, &mut load).unwrap();
    assert_eq!((summary.total, summary.success), (1, 0));
    assert_eq!(load.in_flight, 0);
}

#[test]
fn reports_cover_the_traffic_once_and_stop_for_good() {
    let (tx, mut rx) = channel();
    let (mut load, mut latencies) = (LoadAvg::new(0), Latencies::new());
    latencies.record(1000);
    let one = tx.request(0);
    let two = tx.request(0);
    let mut three = tx.request(0);
    taken(one.response(Status::ok(), 5 * MS));
    taken(two.response(Status::internal_server_error(), 6 * MS));
    let first = report(&mut rx, &mut latencies, &mut load).unwrap();
    assert_eq!(first, Summary { total: 2, success: 1, cancel: 0, p50: 5, p90: 6, p99: 6 });
    drop(tx);
    taken(three.respond(None, 7 * MS));
    drop(three);
    let last = report(&mut rx, &mut latencies, &mut load).unwrap();
    assert_eq!(last, Summary { total: 1, success: 0, cancel: 1, p50: 7, p90: 7, p99: 7 });
    for _ in 0..3 {
        assert_eq!(
            report(&mut rx, &mut latencies, &mut load),
            Err(SummaryError::Disconnected)
        );
    }
}

#[test]
fn requests_without_a_response_make_no_last_report() {
    let (tx, mut rx) = channel();
    let (mut load, mut latencies) = (LoadAvg::new(0), Latencies::new());
    drop(tx.request(1));
    drop(tx);
    assert_eq!(
        report(&mut rx, &mut latencies, &mut load),
        Err(SummaryError::Disconnected)
    );
    assert_eq!(load.in_flight, 1);
}

#[test]
fn a_report_that_is_not_taken_is_lost() {
    let (tx, rx) = channel();
    let open = tx.request(1);
    drop(rx);
    let mut closed = tx.request(2);
    assert!(!closed.open());
    assert!(!closed.announcement().taken());
    assert_eq!(closed.announcement().event(), Event::Request(2));
    assert!(closed.respond(None, 3).is_none());
    let lost = open.response(Status::ok(), 3).unwrap();
    assert!(!lost.taken());
    assert_eq!(lost.event(), response(Some(Status::ok()), 2, 3));
}

#[test]
fn a_handle_goes_by_what_became_of_the_request() {
    let (tx, rx) = channel();
    let accepted = tx.request(1).announcement();
    assert!(tx.opened(1, accepted).open());
    drop(rx);
    let refused = tx.request(1).announcement();
    assert!(!tx.opened(1, refused).open());
}

#[test]
fn the_channel_has_room_for_a_million_events() {
    let (tx, _rx) = channel();
    for i in 0..1_000_000 {
        assert!(tx.request(i).open());
    }
    assert!(!tx.request(0).open());
}

#[test]
fn a_report_is_given_once() {
    let (tx, _rx) = channel();
    let mut rsp = tx.request(10);
    let (_, ev) = rsp.take_report(Some(Status::ok()), 25).unwrap();
    assert_eq!(ev, response(Some(Status::ok()), 15, 25));
    assert!(rsp.take_report(None, 30).is_none());
    let mut rsp = tx.request(10);
    let (_, ev) = rsp.take_report(None, 4).unwrap();
    assert_eq!(ev, response(None, 0, 4));
}

#[test]
fn nothing_is_taken_after_an_event_that_cannot_be_counted() {
    let (tx, mut rx) = channel();
    let (mut load, mut latencies) = (LoadAvg::new(0), Latencies::new());
    let stray = tx.request(1);
    assert_eq!(summarize(&mut rx, &mut latencies, &mut load).unwrap().total, 0);
    load.in_flight = 0;
    taken(stray.response(Status::ok(), 2));
    let one = tx.request(3);
    taken(one.response(Status::ok(), 4));
    assert_eq!(
        summarize(&mut rx, &mut latencies, &mut load),
        Err(SummaryError::Unbalanced)
    );
    assert_eq!(summarize(&mut rx, &mut latencies, &mut load).unwrap().total, 1);
}

#[test]
fn traffic_through_handles_is_always_reported() {
    let (tx, mut rx) = channel();
    let (mut load, mut latencies) = (LoadAvg::new(0), Latencies::new());
    let mut handles = Vec::new();
    let mut total = 0;
    for round in 0..20u128 {
        for i in 0..=round {
            handles.push(tx.request(round * MS + i));
        }
        for _ in 0..round / 2 {
            let mut handle = handles.remove(0);
            taken(handle.respond(None, round * MS));
            assert!(handle.respond(Some(Status::ok()), round * MS).is_none());
        }
        let summary = report(&mut rx, &mut latencies, &mut load).unwrap();
        assert_eq!(summary.total, (round / 2) as u64);
        assert_eq!(load.in_flight as usize, handles.len());
        total += summary.total;
    }
    assert_eq!(total as usize + handles.len(), 210);
}
