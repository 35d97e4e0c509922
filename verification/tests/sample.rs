use schlep::double::Double;
use schlep::params::{DataParams, SleepParams};
use schlep::sample::{
    band, clamp, clamp_len, data_ends, gen_bytes, gen_text, sleep_ends, symbol, Band, BytesError,
};

fn double(x: f64) -> Double {
    Double { bits: x.to_bits() }
}

#[test]
fn draws_fall_into_bands() {
    for (r, expected) in [
        (0.0, Band::Low),
        (0.49999999999999994, Band::Low),
        (0.5, Band::Mid),
        (0.8999999999999999, Band::Mid),
        (0.9, Band::High),
        (0.9999999999999999, Band::High),
    ] {
        assert_eq!(band(double(r)), expected, "{r}");
    }
}

#[test]
fn bands_lie_between_percentiles() {
    let data = DataParams { min: 1, p50: 2, p90: 3, p99: 4, max: 5 };
    assert_eq!(data_ends(&data, Band::Low), (1, 2));
    assert_eq!(data_ends(&data, Band::Mid), (2, 3));
    assert_eq!(data_ends(&data, Band::High), (3, 4));
    let sleep = SleepParams {
        min: double(0.1),
        p50: double(0.2),
        p90: double(0.3),
        p99: double(0.4),
        max: double(0.5),
    };
    for (b, lo, hi) in [(Band::Low, 0.1, 0.2), (Band::Mid, 0.2, 0.3), (Band::High, 0.3, 0.4)] {
        let (l, h) = sleep_ends(&sleep, b);
        assert_eq!((l.bits, h.bits), (double(lo).bits, double(hi).bits));
    }
}

#[test]
fn times_are_moved_into_range() {
    let at = |x: f64, min: f64, max: f64| {
        clamp(double(x), double(min), double(max)).map(|y| f64::from_bits(y.bits))
    };
    assert_eq!(at(0.5, 0.0, 1.0), Some(0.5));
    assert_eq!(at(-0.5, 0.0, 1.0), Some(0.0));
    assert_eq!(at(1.5, 0.0, 1.0), Some(1.0));
    assert_eq!(at(1.5, 1.0, 1.0), Some(1.0));
    assert_eq!(at(0.5, 1.0, 0.0), None);
    assert_eq!(at(0.5, f64::NAN, 1.0), None);
    assert_eq!(at(0.5, 0.0, f64::NAN), None);
    assert!(at(f64::NAN, 0.0, 1.0).unwrap().is_nan());
}

#[test]
fn lengths_are_moved_into_range() {
    let data = DataParams { min: 10, p50: 0, p90: 0, p99: 0, max: 20 };
    assert_eq!(clamp_len(15, &data), Some(15));
    assert_eq!(clamp_len(9, &data), Some(10));
    assert_eq!(clamp_len(-1, &data), Some(10));
    assert_eq!(clamp_len(21, &data), Some(20));
    assert_eq!(clamp_len(15, &DataParams { min: 2, p50: 0, p90: 0, p99: 0, max: 1 }), None);
}

#[test]
fn words_stand_for_symbols() {
    assert_eq!(symbol(0), Some(b'a'));
    assert_eq!(symbol((1 << 26) - 1), Some(b'a'));
    assert_eq!(symbol(1 << 26), Some(b'b'));
    assert_eq!(symbol(25 << 26), Some(b'z'));
    assert_eq!(symbol(26 << 26), Some(b'0'));
    assert_eq!(symbol((36u32 << 26) - 1), Some(b'9'));
    assert_eq!(symbol(36 << 26), None);
    assert_eq!(symbol(u32::MAX), None);
}

#[test]
fn every_symbol_has_as_many_words() {
    let mut counts = [0u32; 256];
    for upper in 0..64u32 {
        if let Some(b) = symbol(upper << 26) {
            assert_eq!(symbol((upper << 26) | 0x3ff_ffff), Some(b));
            counts[b as usize] += 1;
        }
    }
    for b in 0..=255u8 {
        let expected = u32::from(b.is_ascii_lowercase() || b.is_ascii_digit());
        assert_eq!(counts[b as usize], expected);
    }
}

#[test]
fn texts_are_random() {
    let mut rng = rand::thread_rng();
    assert_eq!(gen_text(&mut rng, 0), Some(Vec::new()));
    let text = gen_text(&mut rng, 10_000).unwrap();
    assert_eq!(text.len(), 10_000);
    assert!(text.iter().all(|b| b.is_ascii_lowercase() || b.is_ascii_digit()));
    let mut seen = text.clone();
    seen.sort();
    seen.dedup();
    assert_eq!(seen.len(), 36);
    assert_ne!(gen_text(&mut rng, 100), gen_text(&mut rng, 100));
}

#[test]
fn data_has_a_size_in_its_range() {
    let mut rng = rand::thread_rng();
    let data = DataParams { min: 4, p50: 0, p90: 0, p99: 0, max: 10 };
    for (x, len) in [(-4, 4), (0, 4), (4, 4), (7, 7), (10, 10), (11, 10), (i64::MAX, 10)] {
        let bytes = gen_bytes(&mut rng, x, &data).unwrap();
        assert_eq!(bytes.len(), len);
        assert!(bytes.iter().all(|b| b.is_ascii_lowercase() || b.is_ascii_digit()));
    }
    let none = DataParams { min: 1, p50: 0, p90: 0, p99: 0, max: 0 };
    assert_eq!(gen_bytes(&mut rng, 0, &none), Err(BytesError::NoRange));
}
