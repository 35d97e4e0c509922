use schlep::double::Double;
use schlep::params::{DataParams, Params, SleepParams};
use schlep::server::{
    http_reply, route, Exchange, Input, Next, Reload, ReloadAction, ReloadEvent, Route, Stage,
};
use schlep::status::Status;

fn double(x: f64) -> Double {
    Double { bits: x.to_bits() }
}

fn params(fail_rate: f64, sleep: f64, data: u32) -> Params {
    let s = double(sleep);
    Params {
        fail_rate: double(fail_rate),
        sleep: SleepParams { min: s, p50: s, p90: s, p99: s, max: s },
        data: DataParams { min: data, p50: data, p90: data, p99: data, max: data },
    }
}

/// Runs an exchange to its decision, and says what was asked for on the way.
fn run(fail_rate: f64, sleep: u128, draw: f64) -> Vec<Next> {
    let (mut exchange, next) = Exchange::begin(double(fail_rate), sleep);
    let mut asked = vec![next];
    while exchange.stage != Stage::Decided {
        let input = match asked[asked.len() - 1] {
            Next::Sleep => Input::Woke,
            _ => Input::Drew(double(draw)),
        };
        let (after, next) = exchange.advance(input).unwrap();
        exchange = after;
        asked.push(next);
    }
    asked
}

#[test]
fn numbers_compare_as_numbers_do() {
    let all = [
        0.0, -0.0, 1.0, -1.0, 0.5, 0.9, 5e-324, -5e-324, f64::MAX, f64::MIN, f64::INFINITY,
        f64::NEG_INFINITY, f64::NAN, -f64::NAN,
    ];
    for x in all {
        assert_eq!(double(x).positive(), x > 0.0);
        for y in all {
            assert_eq!(double(x).less(&double(y)), x < y, "{x} < {y}");
            assert_eq!(double(x).same(&double(y)), x == y, "{x} == {y}");
        }
    }
    assert!(Double::zero().same(&double(0.0)));
}

#[test]
fn content_types_tell_grpc() {
    assert_eq!(route(None), Route::Http);
    assert_eq!(route(Some(b"application/grpc")), Route::Grpc);
    assert_eq!(route(Some(b"application/grpc+proto")), Route::Grpc);
    assert_eq!(route(Some(b"application/json; charset=utf-8")), Route::Http);
    assert_eq!(route(Some(b"Application/grpc")), Route::Http);
}

#[test]
fn without_a_rate_nothing_is_drawn() {
    assert_eq!(run(0.0, 0, 0.0), vec![Next::Answer]);
    assert_eq!(run(-1.0, 0, 0.0), vec![Next::Answer]);
    assert_eq!(run(f64::NAN, 0, 0.0), vec![Next::Answer]);
    assert_eq!(run(0.0, 1, 0.0), vec![Next::Sleep, Next::Answer]);
}

#[test]
fn chance_decides_at_a_rate() {
    assert_eq!(run(0.5, 0, 0.49), vec![Next::Draw, Next::Fail]);
    assert_eq!(run(0.5, 0, 0.5), vec![Next::Draw, Next::Answer]);
    assert_eq!(run(0.5, 7, 0.0), vec![Next::Sleep, Next::Draw, Next::Fail]);
    assert_eq!(run(0.5, 7, 0.75), vec![Next::Sleep, Next::Draw, Next::Answer]);
}

#[test]
fn at_a_rate_of_one_everything_fails() {
    for draw in [0.0, 0.25, 0.9999999999999999] {
        assert_eq!(run(1.0, 0, draw), vec![Next::Draw, Next::Fail]);
        assert_eq!(run(f64::INFINITY, 0, draw), vec![Next::Draw, Next::Fail]);
    }
}

#[test]
fn what_was_not_asked_for_is_refused() {
    let (exchange, _) = Exchange::begin(double(0.5), 1);
    assert!(exchange.advance(Input::Drew(double(0.1))).is_none());
    let (exchange, _) = Exchange::begin(double(0.5), 0);
    assert!(exchange.advance(Input::Woke).is_none());
    let (exchange, _) = Exchange::begin(double(0.0), 0);
    assert!(exchange.advance(Input::Woke).is_none());
}

#[test]
fn replies() {
    let failed = http_reply(None);
    assert_eq!((failed.status.code(), failed.body.len()), (500, 0));
    assert!(!failed.status.is_success());
    let empty = http_reply(Some(Vec::new()));
    assert_eq!((empty.status.code(), empty.body.len()), (204, 0));
    assert!(empty.status.is_success());
    let full = http_reply(Some(b"abc".to_vec()));
    for reply in [&failed, &empty, &full] {
        assert_eq!(reply.content_type, "text/plain");
    }
    assert_eq!((full.status.code(), full.body), (200, b"abc".to_vec()));
    assert!(full.status.is_success());
}

#[test]
fn statuses() {
    assert_eq!(Status::new(99), None);
    assert_eq!(Status::new(1000), None);
    for (code, success) in
        [(100, false), (199, false), (200, true), (204, true), (299, true), (300, false), (500, false), (999, false)]
    {
        let status = Status::new(code).unwrap();
        assert_eq!(status.code(), code);
        assert_eq!(status.is_success(), success);
    }
}

#[test]
fn what_cannot_be_read_at_first_is_the_default() {
    let reload = Reload::start(None);
    assert!(reload.current.same(&Params::default()));
    assert!(reload.current.same(&params(0.0, 0.0, 0)));
    let reload = Reload::start(Some(params(0.5, 0.0, 0)));
    assert!(reload.current.same(&params(0.5, 0.0, 0)));
}

#[test]
fn only_changes_are_published() {
    let first = params(0.5, 1.0, 2);
    let second = params(0.5, 1.0, 3);
    let reload = Reload::start(Some(first));
    let (reload, action) = reload.on_event(ReloadEvent::Read(first));
    assert!(matches!(action, ReloadAction::Wait));
    let (reload, action) = reload.on_event(ReloadEvent::Unreadable);
    assert!(matches!(action, ReloadAction::Wait));
    let (reload, action) = reload.on_event(ReloadEvent::Read(second));
    assert!(matches!(action, ReloadAction::Publish(p) if p.same(&second)));
    assert!(reload.current.same(&first));
    let (reload, action) = reload.on_event(ReloadEvent::Taken);
    assert!(matches!(action, ReloadAction::Wait));
    assert!(reload.current.same(&second));
    let (reload, action) = reload.on_event(ReloadEvent::Read(second));
    assert!(matches!(action, ReloadAction::Wait));
    let (_, action) = reload.on_event(ReloadEvent::Closed);
    assert!(matches!(action, ReloadAction::Stop));
}

#[test]
fn both_zeros_are_one_configuration_and_no_number_is_none() {
    let reload = Reload::start(Some(params(0.0, 0.0, 0)));
    let (_, action) = reload.on_event(ReloadEvent::Read(params(-0.0, -0.0, 0)));
    assert!(matches!(action, ReloadAction::Wait));
    let odd = params(f64::NAN, 0.0, 0);
    let reload = Reload::start(Some(odd));
    let (_, action) = reload.on_event(ReloadEvent::Read(odd));
    assert!(matches!(action, ReloadAction::Publish(_)));
}
