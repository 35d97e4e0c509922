use schlep::client::{Data, Durations};
use schlep::params::DataParams;
use schlep::query::{apply_query, NumberField};
use schlep::target::{origin, target, write_target, TargetError};

const SLEEP: Durations<'static> = Durations { p50: b"0.1", p90: b"0.25", p99: b"1" };
const DATA: Data = Data { p50: 10, p90: 200, p99: 4294967295 };
const QUERY: &str =
    "fail-rate=0.5&sleep.p50=0.1&sleep.p90=0.25&sleep.p99=1&data.p50=10&data.p90=200&data.p99=4294967295";

#[test]
fn writes_the_target() {
    let text = write_target(b"localhost:8080", b"0.5", &SLEEP, &DATA);
    assert_eq!(String::from_utf8(text).unwrap(), format!("http://localhost:8080/?{QUERY}"));
}

#[test]
fn the_target_is_a_uri() {
    let uri = target(b"localhost:8080", b"0.5", &SLEEP, &DATA).unwrap();
    assert_eq!(uri.scheme_str(), Some("http"));
    assert_eq!(uri.authority().unwrap().as_str(), "localhost:8080");
    assert_eq!(uri.path(), "/");
    assert_eq!(uri.query(), Some(QUERY));
}

#[test]
fn an_address_that_is_none_is_refused() {
    let refused = |address: &[u8]| match target(address, b"0", &SLEEP, &DATA) {
        Err(TargetError::Text(error)) => error.to_string(),
        other => panic!("{other:?}"),
    };
    assert_eq!(refused(b""), "invalid format");
    assert_eq!(refused(b"not an address"), "invalid uri character");
    match origin(b"not an address") {
        Err(TargetError::Parts(error)) => assert_eq!(error.to_string(), "invalid uri character"),
        other => panic!("{other:?}"),
    }
}

#[test]
fn the_origin_has_no_query() {
    let uri = origin(b"localhost:8080").unwrap();
    assert_eq!(uri.scheme_str(), Some("http"));
    assert_eq!(uri.authority().unwrap().as_str(), "localhost:8080");
    assert_eq!(uri.query(), None);
}

#[test]
fn the_server_reads_what_the_client_writes() {
    let uri = target(b"localhost:8080", b"0.5", &SLEEP, &DATA).unwrap();
    let data = DataParams { min: 1, p50: 2, p90: 3, p99: 0, max: 5 };
    let update = apply_query(&data, uri.query().unwrap().as_bytes()).unwrap();
    assert_eq!(update.data, DataParams { min: 1, p50: 12, p90: 203, p99: 4294967295, max: 5 });
    let terms: Vec<(NumberField, &[u8])> =
        update.terms.iter().map(|t| (t.field, t.text.as_slice())).collect();
    assert_eq!(
        terms,
        vec![
            (NumberField::FailRate, &b"0.5"[..]),
            (NumberField::SleepP50, &b"0.1"[..]),
            (NumberField::SleepP90, &b"0.25"[..]),
            (NumberField::SleepP99, &b"1"[..]),
        ]
    );
}
