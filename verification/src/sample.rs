//! What is drawn by chance: where a number falls between the percentiles, and the
//! text of an answer.
use crate::double::{doubles_compare_as_numbers, number, Double};
use crate::params::{DataParams, SleepParams};
use crate::text::{ascii, ascii_bytes};
use rand::rngs::ThreadRng;
use vstd::arithmetic::power2::{lemma2_to64_rest, lemma_pow2_adds, lemma_pow2_pos, pow2};
use vstd::prelude::*;

verus! {

/// The bits of one half.
pub const HALF_BITS: u64 = 0x3fe0_0000_0000_0000;

/// The bits of nine tenths.
pub const NINE_TENTHS_BITS: u64 = 0x3fec_cccc_cccc_cccd;

/// How many of the 64 numbers that the upper six bits of a word can form stand for a
/// symbol.
pub const SYMBOLS: u32 = 36;

/// Between which percentiles a draw falls.
#[derive(Clone, Copy, Debug, PartialEq, Eq, Structural)]
pub enum Band {
    /// From the minimum to the median.
    Low,
    /// From the median to the 90th percentile.
    Mid,
    /// From the 90th to the 99th percentile.
    High,
}

/// The half of the draws below one half are low, those up to nine tenths are in the
/// middle, and the others are high.
pub open spec fn band_of(r: Double) -> Band {
    if r.is_less(Double { bits: HALF_BITS }) {
        Band::Low
    } else if r.is_less(Double { bits: NINE_TENTHS_BITS }) {
        Band::Mid
    } else {
        Band::High
    }
}

/// Where the draw `r` falls.
pub fn band(r: Double) -> (b: Band)
    ensures
        b == band_of(r),
{
    if r.less(&Double { bits: HALF_BITS }) {
        Band::Low
    } else if r.less(&Double { bits: NINE_TENTHS_BITS }) {
        Band::Mid
    } else {
        Band::High
    }
}

/// The times between which a draw in this band lies.
pub fn sleep_ends(sleep: &SleepParams, band: Band) -> (ends: (Double, Double))
    ensures
        ends == match band {
            Band::Low => (sleep.min, sleep.p50),
            Band::Mid => (sleep.p50, sleep.p90),
            Band::High => (sleep.p90, sleep.p99),
        },
{
    match band {
        Band::Low => (sleep.min, sleep.p50),
        Band::Mid => (sleep.p50, sleep.p90),
        Band::High => (sleep.p90, sleep.p99),
    }
}

/// The sizes between which a draw in this band lies.
pub fn data_ends(data: &DataParams, band: Band) -> (ends: (u32, u32))
    ensures
        ends == match band {
            Band::Low => (data.min, data.p50),
            Band::Mid => (data.p50, data.p90),
            Band::High => (data.p90, data.p99),
        },
{
    match band {
        Band::Low => (data.min, data.p50),
        Band::Mid => (data.p50, data.p90),
        Band::High => (data.p90, data.p99),
    }
}

/// `x` moved into the range from `min` to `max`. What is no number stays as it is.
pub open spec fn clamped(x: Double, min: Double, max: Double) -> Double {
    if x.is_less(min) {
        min
    } else if max.is_less(x) {
        max
    } else {
        x
    }
}

/// Moves `x` into the range from `min` to `max`; `None` where there is no such range.
pub fn clamp(x: Double, min: Double, max: Double) -> (y: Option<Double>)
    ensures
        y is Some <==> min.is_less(max) || min.is_same(max),
        y matches Some(y) ==> y == clamped(x, min, max),
{
    if !min.less(&max) && !min.same(&max) {
        None
    } else if x.less(&min) {
        Some(min)
    } else if max.less(&x) {
        Some(max)
    } else {
        Some(x)
    }
}

/// `x` moved into the range of sizes.
pub open spec fn clamped_len(x: int, data: DataParams) -> int {
    if x < data.min {
        data.min as int
    } else if x > data.max {
        data.max as int
    } else {
        x
    }
}

/// The length of an answer: `x` moved into the range of sizes; `None` where there is
/// no such range.
pub fn clamp_len(x: i64, data: &DataParams) -> (len: Option<usize>)
    ensures
        len is Some <==> data.min <= data.max,
        len matches Some(n) ==> n == clamped_len(x as int, *data),
{
    if data.min > data.max {
        None
    } else if x < data.min as i64 {
        Some(data.min as usize)
    } else if x > data.max as i64 {
        Some(data.max as usize)
    } else {
        Some(x as usize)
    }
}

/// The bytes of which an answer is made.
pub open spec fn charset() -> Seq<u8> {
    ascii("abcdefghijklmnopqrstuvwxyz0123456789"@)
}

/// The symbol that a random word stands for, by its upper six bits; `None` where they
/// stand for none.
pub open spec fn symbol_of(word: u32) -> Option<u8> {
    if word / 0x400_0000 < SYMBOLS {
        Some(charset()[(word / 0x400_0000) as int])
    } else {
        None
    }
}

/// The symbols that a run of words stands for.
pub open spec fn symbols_of(words: Seq<u32>) -> Seq<u8>
    decreases words.len(),
{
    if words.len() == 0 {
        Seq::empty()
    } else {
        match symbol_of(words.last()) {
            Some(b) => symbols_of(words.drop_last()).push(b),
            None => symbols_of(words.drop_last()),
        }
    }
}

/// The symbol that a random word stands for.
pub fn symbol(word: u32) -> (b: Option<u8>)
    ensures
        b == symbol_of(word),
{
    proof {
        reveal_strlit("abcdefghijklmnopqrstuvwxyz0123456789");
        assert(word >> 26 == word / 0x400_0000) by (bit_vector);
    }
    let set = ascii_bytes("abcdefghijklmnopqrstuvwxyz0123456789");
    let i = word >> 26;
    if i < SYMBOLS {
        Some(set[i as usize])
    } else {
        None
    }
}

/// The thread's source of random words.
#[verifier::external_type_specification]
#[verifier::external_body]
pub struct ExThreadRng(rand::rngs::ThreadRng);

/// The words that were drawn from `rng` so far, in their order.
pub uninterp spec fn drawn(rng: ThreadRng) -> Seq<u32>;

/// `rand::RngCore::next_u32`: draws a random word; nothing is claimed of which one.
#[verifier::external_body]
fn next_word(rng: &mut ThreadRng) -> (word: u32)
    ensures
        drawn(*final(rng)) == drawn(*old(rng)).push(word),
{
    rand::RngCore::next_u32(rng)
}

/// What it means that `words` were drawn for a text of `len` symbols: no more than it
/// takes, and `None` only where as many as can be counted did not suffice.
pub open spec fn text_from(words: Seq<u32>, len: int, text: Option<Seq<u8>>) -> bool {
    &&& words.len() > 0 ==> symbols_of(words.drop_last()).len() < len
    &&& match text {
        Some(t) => t == symbols_of(words) && t.len() == len,
        None => words.len() == u64::MAX && symbols_of(words).len() < len,
    }
}

/// A random text of `len` symbols, each drawn until a word stands for one. `None` where
/// as many words as can be counted did not suffice.
pub fn gen_text(rng: &mut ThreadRng, len: usize) -> (text: Option<Vec<u8>>)
    ensures
        ({
            let words = drawn(*final(rng)).skip(drawn(*old(rng)).len() as int);
            &&& drawn(*final(rng)) == drawn(*old(rng)) + words
            &&& text_from(
                words,
                len as int,
                match text {
                    Some(t) => Some(t@),
                    None => None,
                },
            )
        }),
{
    let mut text: Vec<u8> = Vec::new();
    let mut left: u64 = u64::MAX;
    let ghost mut words: Seq<u32> = Seq::empty();
    while text.len() < len && left > 0
        invariant
            drawn(*rng) == drawn(*old(rng)) + words,
            words.len() + left == u64::MAX,
            words.len() > 0 ==> symbols_of(words.drop_last()).len() < len,
            text@.len() <= len,
            text@ == symbols_of(words),
        decreases left,
    {
        let word = next_word(rng);
        match symbol(word) {
            Some(b) => text.push(b),
            None => {},
        }
        proof {
            let next = words.push(word);
            assert(next.drop_last() =~= words);
            words = next;
        }
        left -= 1;
    }
    assert(drawn(*rng).skip(drawn(*old(rng)).len() as int) =~= words);
    if text.len() < len {
        None
    } else {
        Some(text)
    }
}

/// Why there is no data for an answer.
#[derive(Clone, Copy, Debug, PartialEq, Eq, Structural)]
pub enum BytesError {
    /// There is no range of sizes.
    NoRange,
    /// As many words as can be counted did not suffice.
    Exhausted,
}

/// The data of an answer: random symbols, `x` of them, moved into the range of sizes.
pub fn gen_bytes(rng: &mut ThreadRng, x: i64, data: &DataParams) -> (bytes: Result<
    Vec<u8>,
    BytesError,
>)
    ensures
        ({
            let words = drawn(*final(rng)).skip(drawn(*old(rng)).len() as int);
            let len = clamped_len(x as int, *data);
            &&& drawn(*final(rng)) == drawn(*old(rng)) + words
            &&& bytes == Err::<Vec<u8>, BytesError>(BytesError::NoRange) <==> data.min > data.max
            &&& data.min > data.max ==> words.len() == 0
            &&& bytes matches Ok(b) ==> {
                &&& text_from(words, len, Some(b@))
                &&& data.min <= b@.len() <= data.max
                &&& forall|i: int| 0 <= i < b@.len() ==> charset().contains(#[trigger] b@[i])
            }
            &&& bytes == Err::<Vec<u8>, BytesError>(BytesError::Exhausted) ==> text_from(
                words,
                len,
                None,
            )
        }),
{
    let len = match clamp_len(x, data) {
        Some(len) => len,
        None => {
            assert(drawn(*rng).skip(drawn(*old(rng)).len() as int) =~= Seq::empty());
            return Err(BytesError::NoRange);
        },
    };
    match gen_text(rng, len) {
        Some(text) => {
            proof {
                symbols_are_in_charset(drawn(*rng).skip(drawn(*old(rng)).len() as int));
            }
            Ok(text)
        },
        None => Err(BytesError::Exhausted),
    }
}

/// Each symbol is drawn as often as any other: there are 2^26 words that stand for
/// it, and they follow each other.
pub proof fn symbols_are_equally_likely(word: u32, i: int)
    requires
        0 <= i < SYMBOLS,
    ensures
        symbol_of(word) == Some(charset()[i]) <==> i * 0x400_0000 <= word < (i + 1) * 0x400_0000,
{
    reveal_strlit("abcdefghijklmnopqrstuvwxyz0123456789");
    let j = (word / 0x400_0000) as int;
    if j < SYMBOLS && j != i {
        assert(charset()[i] == if i < 26 {
            97 + i
        } else {
            22 + i
        });
        assert(charset()[j] == if j < 26 {
            97 + j
        } else {
            22 + j
        });
    }
}

/// Every byte of an answer is one of the symbols.
pub proof fn symbols_are_in_charset(words: Seq<u32>)
    ensures
        forall|i: int|
            0 <= i < symbols_of(words).len() ==> charset().contains(
                #[trigger] symbols_of(words)[i],
            ),
    decreases words.len(),
{
    reveal_strlit("abcdefghijklmnopqrstuvwxyz0123456789");
    if words.len() > 0 {
        let init = symbols_of(words.drop_last());
        symbols_are_in_charset(words.drop_last());
        assert forall|i: int| 0 <= i < symbols_of(words).len() implies charset().contains(
            #[trigger] symbols_of(words)[i],
        ) by {
            if i < init.len() {
                assert(symbols_of(words)[i] == init[i]);
            }
        }
    }
}

/// Every symbol is a small letter or a digit.
pub proof fn symbols_are_alphanumeric(b: u8)
    requires
        charset().contains(b),
    ensures
        97 <= b <= 122 || 48 <= b <= 57,
{
    reveal_strlit("abcdefghijklmnopqrstuvwxyz0123456789");
    let i = choose|i: int| 0 <= i < charset().len() && charset()[i] == b;
    assert(charset()[i] == if i < 26 {
        97 + i
    } else {
        22 + i
    });
}

/// A text comes of the words as soon as enough of them stand for a symbol: it fails only
/// where fewer than `len` of as many words as can be counted do.
pub proof fn text_comes_of_enough_symbols(words: Seq<u32>, len: int, text: Option<Seq<u8>>)
    requires
        text_from(words, len, text),
    ensures
        symbols_of(words).len() >= len ==> text == Some(symbols_of(words)),
        words.len() < u64::MAX ==> text == Some(symbols_of(words)),
        text is Some <==> symbols_of(words).len() >= len,
{
}

/// What was moved into a range lies in it, and a number that lies in it is not moved.
pub proof fn clamped_is_in_range(x: Double, min: Double, max: Double)
    requires
        min.is_less(max) || min.is_same(max),
    ensures
        !clamped(x, min, max).is_less(min),
        !max.is_less(clamped(x, min, max)),
        !x.is_less(min) && !max.is_less(x) ==> clamped(x, min, max) == x,
{
}

/// A draw is low exactly where its number is below one half, and high exactly where it is
/// nine tenths or more. So no band is lower for a greater draw.
pub proof fn bands_change_at_half_and_nine_tenths(r: Double)
    requires
        !r.is_nan(),
    ensures
        band_of(r) == Band::Low <==> 2 * number(r) < pow2(1074),
        band_of(r) == Band::Mid <==> pow2(1074) <= 2 * number(r) && 10 * number(r) < 9 * pow2(1074),
        band_of(r) == Band::High <==> 10 * number(r) >= 9 * pow2(1074),
{
    let half = Double { bits: 0x3fe0_0000_0000_0000 };
    let tenths = Double { bits: 0x3fec_cccc_cccc_cccd };
    let below = Double { bits: 0x3fec_cccc_cccc_cccc };
    let p = pow2(1021) as int;
    lemma_pow2_pos(1021);
    lemma_pow2_adds(53, 1021);
    lemma2_to64_rest();
    assert(pow2(1074) == 0x20_0000_0000_0000 * p);
    assert(number(half) == 0x10_0000_0000_0000 * p);
    assert(number(tenths) == 0x1c_cccc_cccc_cccd * p);
    assert(number(below) == 0x1c_cccc_cccc_cccc * p);
    doubles_compare_as_numbers(r, half);
    doubles_compare_as_numbers(r, tenths);
    doubles_compare_as_numbers(below, r);
    let n = number(r);
    assert(n < 0x1c_cccc_cccc_cccd * p ==> n <= 0x1c_cccc_cccc_cccc * p) by {
        if r.is_less(tenths) {
            assert(!below.is_less(r));
        }
    }
}

/// No band is lower for a greater draw.
pub proof fn bands_rise(r: Double, s: Double)
    requires
        !r.is_nan(),
        !s.is_nan(),
        number(r) <= number(s),
    ensures
        band_of(r) == Band::High ==> band_of(s) == Band::High,
        band_of(r) == Band::Mid ==> band_of(s) != Band::Low,
{
    bands_change_at_half_and_nine_tenths(r);
    bands_change_at_half_and_nine_tenths(s);
}

/// What is moved into a range is the number that lies nearest: the least where it was
/// below, the greatest where it was above, and otherwise itself.
pub proof fn clamping_moves_no_further_than_needed(x: Double, min: Double, max: Double)
    requires
        !min.is_nan(),
        !max.is_nan(),
        number(min) <= number(max),
    ensures
        x.is_nan() ==> clamped(x, min, max) == x,
        !x.is_nan() && number(x) < number(min) ==> clamped(x, min, max) == min,
        !x.is_nan() && number(x) > number(max) ==> clamped(x, min, max) == max,
        !x.is_nan() && number(min) <= number(x) <= number(max) ==> clamped(x, min, max) == x,
{
    doubles_compare_as_numbers(x, min);
    doubles_compare_as_numbers(max, x);
}

/// A length is moved into the range of sizes, and no further than needed.
pub proof fn lengths_are_moved_into_their_range(x: int, data: DataParams)
    requires
        data.min <= data.max,
    ensures
        data.min <= clamped_len(x, data) <= data.max,
        x <= data.min ==> clamped_len(x, data) == data.min,
        x >= data.max ==> clamped_len(x, data) == data.max,
        data.min <= x <= data.max ==> clamped_len(x, data) == x,
{
}

/// The symbols are the small letters and then the digits, each in its order, and a word
/// stands for the one whose number its upper six bits form.
pub proof fn words_stand_for_letters_and_digits(word: u32)
    ensures
        ({
            let k = (word / 0x400_0000) as int;
            &&& charset().len() == 36
            &&& k < 26 ==> symbol_of(word) == Some(('a' as u8 + k) as u8)
            &&& 26 <= k < 36 ==> symbol_of(word) == Some(('0' as u8 + (k - 26)) as u8)
            &&& k >= 36 ==> symbol_of(word) is None
        }),
{
    reveal_strlit("abcdefghijklmnopqrstuvwxyz0123456789");
    let k = (word / 0x400_0000) as int;
    if k < 36 {
        assert(charset()[k] == if k < 26 {
            97 + k
        } else {
            22 + k
        });
    }
}

/// Words stand for their symbols one after the other: those of two runs are those of the
/// first and then those of the second, and one word gives at most one.
pub proof fn symbols_follow_the_words(first: Seq<u32>, second: Seq<u32>)
    ensures
        symbols_of(first + second) == symbols_of(first) + symbols_of(second),
        second.len() == 0 ==> symbols_of(second).len() == 0,
        second.len() == 1 ==> symbols_of(second) == (match symbol_of(second[0]) {
            Some(b) => seq![b],
            None => Seq::empty(),
        }),
    decreases second.len(),
{
    reveal_with_fuel(symbols_of, 2);
    let all = first + second;
    if second.len() == 0 {
        assert(all =~= first);
        assert(symbols_of(first) + symbols_of(second) =~= symbols_of(first));
    } else {
        symbols_follow_the_words(first, second.drop_last());
        assert(all.drop_last() =~= first + second.drop_last());
        assert(all.last() == second.last());
        assert(symbols_of(all) =~= symbols_of(first) + symbols_of(second));
        if second.len() == 1 {
            assert(symbols_of(second.drop_last()) =~= Seq::empty());
        }
    }
}

/// A text has the length that was asked for and is made of the words that were drawn, of
/// which all but the last gave fewer symbols; there is none only after as many words as a
/// `u64` counts.
pub proof fn texts_have_their_length(words: Seq<u32>, len: int, text: Option<Seq<u8>>)
    requires
        text_from(words, len, text),
    ensures
        text matches Some(t) ==> t.len() == len && t == symbols_of(words),
        text is None ==> words.len() == 0xffff_ffff_ffff_ffff,
        words.len() > 0 ==> symbols_of(words.drop_last()).len() < len,
{
}

/// The bands meet at the percentiles: each starts where the one below it ends, the lowest
/// at the minimum, and the highest ends at the 99th percentile.
pub proof fn bands_meet_at_the_percentiles(
    sleep: &SleepParams,
    times: spec_fn(Band) -> (Double, Double),
    data: &DataParams,
    sizes: spec_fn(Band) -> (u32, u32),
)
    requires
        forall|b: Band| call_ensures(sleep_ends, (sleep, b), #[trigger] times(b)),
        forall|b: Band| call_ensures(data_ends, (data, b), #[trigger] sizes(b)),
    ensures
        times(Band::Low) == (sleep.min, sleep.p50),
        times(Band::Mid) == (sleep.p50, sleep.p90),
        times(Band::High) == (sleep.p90, sleep.p99),
        sizes(Band::Low) == (data.min, data.p50),
        sizes(Band::Mid) == (data.p50, data.p90),
        sizes(Band::High) == (data.p90, data.p99),
{
    assert(call_ensures(sleep_ends, (sleep, Band::Low), times(Band::Low)));
    assert(call_ensures(sleep_ends, (sleep, Band::Mid), times(Band::Mid)));
    assert(call_ensures(sleep_ends, (sleep, Band::High), times(Band::High)));
    assert(call_ensures(data_ends, (data, Band::Low), sizes(Band::Low)));
    assert(call_ensures(data_ends, (data, Band::Mid), sizes(Band::Mid)));
    assert(call_ensures(data_ends, (data, Band::High), sizes(Band::High)));
}

} // verus!
