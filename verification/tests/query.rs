use schlep::params::{DataField, DataParams};
use schlep::query::{apply_query, key_of, Key, NumberField, QueryUpdate};

fn sizes(min: u32, p50: u32, p90: u32, p99: u32, max: u32) -> DataParams {
    DataParams { min, p50, p90, p99, max }
}

fn terms(update: &QueryUpdate) -> Vec<(NumberField, String)> {
    update
        .terms
        .iter()
        .map(|t| (t.field, String::from_utf8(t.text.clone()).unwrap()))
        .collect()
}

fn apply(data: DataParams, query: &str) -> QueryUpdate {
    apply_query(&data, query.as_bytes()).unwrap()
}

#[test]
fn every_name_is_known() {
    let names = [
        ("fail-rate", Key::Number(NumberField::FailRate)),
        ("sleep.min", Key::Number(NumberField::SleepMin)),
        ("sleep.p50", Key::Number(NumberField::SleepP50)),
        ("sleep.p90", Key::Number(NumberField::SleepP90)),
        ("sleep.p99", Key::Number(NumberField::SleepP99)),
        ("sleep.max", Key::Number(NumberField::SleepMax)),
        ("data.min", Key::Size(DataField::Min)),
        ("data.p50", Key::Size(DataField::P50)),
        ("data.p90", Key::Size(DataField::P90)),
        ("data.p99", Key::Size(DataField::P99)),
        ("data.max", Key::Size(DataField::Max)),
    ];
    for (name, key) in names {
        assert_eq!(key_of(name.as_bytes()), Some(key));
        assert_eq!(key_of(name.to_uppercase().as_bytes()), Some(key));
    }
    assert_eq!(key_of(b""), None);
    assert_eq!(key_of(b"data.p95"), None);
    assert_eq!(key_of(b"fail_rate"), None);
}

#[test]
fn sizes_are_added() {
    let update = apply(sizes(1, 2, 3, 4, 5), "data.min=10&data.p50=20&data.p90=30&data.p99=40&data.max=50");
    assert_eq!(update.data, sizes(11, 22, 33, 44, 55));
    assert!(update.terms.is_empty());
}

#[test]
fn a_size_that_is_named_twice_is_added_twice() {
    let update = apply(sizes(0, 0, 0, 0, 0), "data.p50=20&DATA.P50=+3");
    assert_eq!(update.data, sizes(0, 23, 0, 0, 0));
}

#[test]
fn numbers_are_handed_on_in_order() {
    let update = apply(sizes(0, 0, 0, 0, 0), "sleep.p50=0.5&fail-rate=1e-3&sleep.p50=x=y&Sleep.Max=");
    assert_eq!(
        terms(&update),
        vec![
            (NumberField::SleepP50, "0.5".to_string()),
            (NumberField::FailRate, "1e-3".to_string()),
            (NumberField::SleepP50, "x=y".to_string()),
            (NumberField::SleepMax, "".to_string()),
        ]
    );
}

#[test]
fn what_is_not_understood_does_nothing() {
    for query in ["", "&", "data.p50", "=3", "data.p50=", "data.p50=-1", "data.p50=1.5", "data.p95=3", "&&data.p50&"] {
        let update = apply(sizes(1, 2, 3, 4, 5), query);
        assert_eq!(update.data, sizes(1, 2, 3, 4, 5), "{query:?}");
        assert!(update.terms.is_empty(), "{query:?}");
    }
}

#[test]
fn a_size_too_large_for_a_number_does_nothing() {
    let update = apply(sizes(0, 1, 0, 0, 0), "data.p50=4294967296");
    assert_eq!(update.data, sizes(0, 1, 0, 0, 0));
}

#[test]
fn a_sum_that_does_not_fit_is_reported() {
    assert!(apply_query(&sizes(0, 1, 0, 0, 0), b"data.p50=4294967295&data.p90=1").is_none());
    assert!(apply_query(&sizes(0, 0, 0, 0, 1), b"data.max=4294967295").is_none());
    let update = apply(sizes(0, 1, 0, 0, 0), "data.p50=4294967294");
    assert_eq!(update.data, sizes(0, u32::MAX, 0, 0, 0));
}

#[test]
fn queries_add_up() {
    let first = "data.p50=1&sleep.min=0.1";
    let second = "data.p50=2&data.max=7&fail-rate=0.2";
    let both = apply(sizes(0, 0, 0, 0, 0), &format!("{first}&{second}"));
    let one = apply(sizes(0, 0, 0, 0, 0), first);
    let other = apply(one.data, second);
    assert_eq!(both.data, other.data);
    let mut expected = terms(&one);
    expected.extend(terms(&other));
    assert_eq!(terms(&both), expected);
}

#[test]
fn percentiles_are_added_to_a_call() {
    let data = sizes(1, 2, 3, 4, 5);
    assert_eq!(data.plus_percentiles(10, 20, 30), Some(sizes(1, 12, 23, 34, 5)));
    assert_eq!(data.plus_percentiles(0, u32::MAX, 0), None);
    assert_eq!(data.plus(DataField::Min, 4), Some(sizes(5, 2, 3, 4, 5)));
}

#[test]
fn sizes_may_be_reordered_and_merged() {
    let data = DataParams { min: 1, p50: 2, p90: 3, p99: 4, max: 5 };
    let expected = DataParams { min: 1, p50: 32, p90: 10, p99: 4, max: 5 };
    for query in [
        "data.p50=10&data.p50=20&data.p90=7",
        "data.p50=20&data.p50=10&data.p90=7",
        "data.p90=7&data.p50=10&data.p50=20",
        "data.p50=30&data.p90=7",
        "data.p90=7&DATA.P50=30",
    ] {
        let update = apply_query(&data, query.as_bytes()).unwrap();
        assert_eq!(update.data, expected);
        assert!(update.terms.is_empty());
    }
}
