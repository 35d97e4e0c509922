use schlep::client::{
    call_status, drain, sink_data, sink_lifetime, sink_pause, Activity, Client, Data, Durations,
    Frame, Mode, Outcome, PercentilesError, Sink, SinkAction, SinkEvent, RETRY_SECS,
};
use schlep::double::Double;
use schlep::number::IntError;
use schlep::params::DataParams;
use schlep::status::Status;

fn double(x: f64) -> Double {
    Double { bits: x.to_bits() }
}

#[test]
fn reads_sizes() {
    assert_eq!(Data::from_str("0,0,0"), Ok(Data { p50: 0, p90: 0, p99: 0 }));
    assert_eq!(Data::from_str("1,20,+300"), Ok(Data { p50: 1, p90: 20, p99: 300 }));
    assert_eq!(Data::from_str("4294967295,0,1"), Ok(Data { p50: u32::MAX, p90: 0, p99: 1 }));
}

#[test]
fn sizes_must_be_three() {
    for text in ["", "1", "1,2", "1,2,3,4", "1,2,3,", "1:2:3"] {
        assert_eq!(Data::from_str(text), Err(PercentilesError::Shape), "{text:?}");
    }
}

#[test]
fn the_last_size_is_read_first() {
    assert_eq!(Data::from_str(",x,4294967296"), Err(PercentilesError::Number(IntError::PosOverflow)));
    assert_eq!(Data::from_str(",x,1"), Err(PercentilesError::Number(IntError::InvalidDigit)));
    assert_eq!(Data::from_str(",1,1"), Err(PercentilesError::Number(IntError::Empty)));
}

#[test]
fn sizes_read_back_as_written() {
    let data = Data { p50: 7, p90: 1234567890, p99: u32::MAX };
    let text = format!("{},{},{}", data.p50, data.p90, data.p99);
    assert_eq!(Data::from_str(&text), Ok(data));
}

#[test]
fn splits_durations() {
    let durations = Durations::from_str("0.0,1.5,x").unwrap();
    assert_eq!(durations.p50, b"0.0");
    assert_eq!(durations.p90, b"1.5");
    assert_eq!(durations.p99, b"x");
    assert!(matches!(Durations::from_str("0.0,1.5"), Err(PercentilesError::Shape)));
    assert!(matches!(Durations::from_str("0,1,2,3"), Err(PercentilesError::Shape)));
}

#[test]
fn modes() {
    assert_eq!(Mode::new(false, false), Mode::Http);
    assert_eq!(Mode::new(false, true), Mode::Http);
    assert_eq!(Mode::new(true, false), Mode::Grpc);
    assert_eq!(Mode::new(true, true), Mode::Sink);
}

#[test]
fn the_rate_must_be_positive() {
    for rate in [0.0, -0.0, -1.0, f64::NAN, f64::NEG_INFINITY] {
        assert_eq!(Client::start(double(rate), Mode::Http), None);
    }
    for rate in [1.0, 0.001, f64::MIN_POSITIVE, f64::INFINITY, 5e-324] {
        assert!(Client::start(double(rate), Mode::Http).is_some());
    }
}

#[test]
fn connects_again_after_a_wait() {
    let client = Client::start(double(1.0), Mode::Grpc).unwrap();
    assert_eq!(client.activity, Activity::Connect);
    let client = client.advance(Outcome::Failed);
    assert_eq!(client.activity, Activity::Wait(RETRY_SECS));
    assert_eq!(RETRY_SECS, 1);
    let client = client.advance(Outcome::Done);
    assert_eq!(client.activity, Activity::Connect);
    let client = client.advance(Outcome::Done);
    assert_eq!(client.activity, Activity::Dispatch(Mode::Grpc));
    let client = client.advance(Outcome::Failed);
    assert_eq!(client.activity, Activity::Wait(1));
    let client = client.advance(Outcome::Done);
    assert_eq!(client.activity, Activity::Connect);
}

#[test]
fn a_body_that_breaks_off_is_a_failure() {
    let head = Status::ok();
    assert_eq!(drain(head, Frame::Arrived), None);
    assert_eq!(drain(head, Frame::End), Some(head));
    assert_eq!(drain(head, Frame::Broken).unwrap().code(), 500);
    assert_eq!(call_status(None).code(), 500);
    assert_eq!(call_status(Some(Status::no_content())).code(), 204);
}

#[test]
fn streamed_requests_are_bounded() {
    let data = Data { p50: 1, p90: 2, p99: 3 };
    assert_eq!(sink_data(&data), DataParams { min: 0, p50: 1, p90: 2, p99: 3, max: 4194000 });
}

#[test]
fn streams_last_at_most_a_day_and_pause_at_most_half_a_day() {
    let (p50, p90, p99) = (double(1.5), double(2.5), double(3.5));
    for (times, max) in [
        (sink_lifetime(p50, p90, p99), 24.0 * 60.0 * 60.0),
        (sink_pause(p50, p90, p99), 12.0 * 60.0 * 60.0),
    ] {
        assert_eq!(times.min.bits, 0.0f64.to_bits());
        assert_eq!(times.p50.bits, p50.bits);
        assert_eq!(times.p90.bits, p90.bits);
        assert_eq!(times.p99.bits, p99.bits);
        assert_eq!(f64::from_bits(times.max.bits), max);
    }
}

#[test]
fn streams_until_its_time_is_up() {
    let (sink, action) = Sink::start();
    assert_eq!((sink, action), (Sink::Reserving, SinkAction::Reserve));
    let (sink, action) = sink.on_event(SinkEvent::Granted).unwrap();
    assert_eq!((sink, action), (Sink::Pausing, SinkAction::Send));
    assert_eq!(sink.on_event(SinkEvent::Granted), None);
    let (sink, action) = sink.on_event(SinkEvent::Rested).unwrap();
    assert_eq!((sink, action), (Sink::Reserving, SinkAction::Reserve));
    assert_eq!(sink.on_event(SinkEvent::Refused), Some((Sink::Over, SinkAction::Stop)));
    assert_eq!(Sink::Pausing.on_event(SinkEvent::Expired), Some((Sink::Over, SinkAction::Stop)));
    assert_eq!(sink.on_event(SinkEvent::Expired), Some((Sink::Over, SinkAction::Stop)));
    assert_eq!(Sink::Over.on_event(SinkEvent::Granted), None);
}
