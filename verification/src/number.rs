//! Unsigned decimal numbers: reading and writing them.
use vstd::arithmetic::power::{lemma_pow0, lemma_pow_adds, lemma_pow1, pow};
use vstd::prelude::*;

verus! {

/// Why a text is no `u32`.
#[derive(Clone, Copy, Debug, PartialEq, Eq, Structural)]
pub enum IntError {
    /// The text is empty.
    Empty,
    /// A byte that is no digit, or a sign alone.
    InvalidDigit,
    /// More than a `u32` can hold.
    PosOverflow,
}

pub open spec fn is_digit(b: u8) -> bool {
    48 <= b <= 57
}

pub open spec fn all_digits(s: Seq<u8>) -> bool {
    forall|i: int| 0 <= i < s.len() ==> is_digit(#[trigger] s[i])
}

/// The number that a run of digits writes.
pub open spec fn value(s: Seq<u8>) -> int
    decreases s.len(),
{
    if s.len() == 0 {
        0
    } else {
        value(s.drop_last()) * 10 + (s.last() - 48)
    }
}

/// The length of the run of digits at the start of `s`.
pub open spec fn digit_run(s: Seq<u8>) -> int
    decreases s.len(),
{
    if s.len() == 0 || !is_digit(s[0]) {
        0
    } else {
        1 + digit_run(s.skip(1))
    }
}

/// `s` without a plus sign at its start.
pub open spec fn unsigned_part(s: Seq<u8>) -> Seq<u8> {
    if s.len() > 0 && s[0] == 43 {
        s.skip(1)
    } else {
        s
    }
}

/// What `s` reads as: an optional plus sign and then digits only, read from the
/// left, so that a run of digits that is too large is reported before a byte
/// behind it that is no digit.
pub open spec fn parsed_u32(s: Seq<u8>) -> Result<u32, IntError> {
    let body = unsigned_part(s);
    let run = digit_run(body);
    if s.len() == 0 {
        Err(IntError::Empty)
    } else if body.len() == 0 {
        Err(IntError::InvalidDigit)
    } else if value(body.take(run)) > u32::MAX {
        Err(IntError::PosOverflow)
    } else if run < body.len() {
        Err(IntError::InvalidDigit)
    } else {
        Ok(value(body) as u32)
    }
}

/// The decimal digits of `n`, without leading zeros.
pub open spec fn decimal(n: nat) -> Seq<u8>
    decreases n,
{
    if n < 10 {
        seq![(48 + n) as u8]
    } else {
        decimal(n / 10).push((48 + n % 10) as u8)
    }
}

proof fn lemma_digit_run(s: Seq<u8>)
    ensures
        0 <= digit_run(s) <= s.len(),
        digit_run(s) < s.len() ==> !is_digit(s[digit_run(s)]),
        forall|j: int| 0 <= j < digit_run(s) ==> is_digit(s[j]),
    decreases s.len(),
{
    if s.len() > 0 && is_digit(s[0]) {
        lemma_digit_run(s.skip(1));
        assert forall|j: int| 0 <= j < digit_run(s) implies is_digit(s[j]) by {
            if j > 0 {
                assert(s.skip(1)[j - 1] == s[j]);
            }
        }
    }
}

/// A longer run of digits writes no smaller number.
proof fn lemma_value_grows(s: Seq<u8>, i: int, k: int)
    requires
        0 <= i <= k <= s.len(),
        forall|j: int| 0 <= j < k ==> is_digit(s[j]),
    ensures
        0 <= value(s.take(i)) <= value(s.take(k)),
    decreases k,
{
    if k > 0 {
        assert(s.take(k).drop_last() =~= s.take(k - 1));
        if i < k {
            lemma_value_grows(s, i, k - 1);
        } else {
            lemma_value_grows(s, k - 1, k - 1);
        }
    }
}

/// Reads an unsigned decimal number.
pub fn parse_u32(s: &[u8]) -> (n: Result<u32, IntError>)
    ensures
        n == parsed_u32(s@),
{
    if s.len() == 0 {
        return Err(IntError::Empty);
    }
    let first: usize = if s[0] == 43 { 1 } else { 0 };
    let ghost body = unsigned_part(s@);
    assert(body =~= s@.skip(first as int));
    if first == s.len() {
        return Err(IntError::InvalidDigit);
    }
    let mut acc: u32 = 0;
    let mut i: usize = first;
    assert(body.take(0).len() == 0);
    proof {
        lemma_digit_run(body);
    }
    while i < s.len()
        invariant
            0 <= first <= i <= s@.len(),
            body == s@.skip(first as int),
            body == unsigned_part(s@),
            body.len() > 0,
            forall|j: int| 0 <= j < i - first ==> is_digit(body[j]),
            acc == value(body.take(i - first)),
            0 <= digit_run(body) <= body.len(),
            digit_run(body) < body.len() ==> !is_digit(body[digit_run(body)]),
            forall|j: int| 0 <= j < digit_run(body) ==> is_digit(body[j]),
        decreases s@.len() - i,
    {
        let b = s[i];
        let ghost k = i - first;
        assert(body[k] == b);
        if b < 48 || b > 57 {
            proof {
                if digit_run(body) > k {
                    assert(is_digit(body[k]));
                }
                if digit_run(body) < k {
                    assert(is_digit(body[digit_run(body)]));
                }
                assert(digit_run(body) == k);
            }
            return Err(IntError::InvalidDigit);
        }
        let d: u32 = (b - 48) as u32;
        proof {
            assert(body.take(k + 1).drop_last() =~= body.take(k));
            assert(value(body.take(k + 1)) == acc * 10 + d);
        }
        let next: u64 = acc as u64 * 10 + d as u64;
        if next > u32::MAX as u64 {
            proof {
                if digit_run(body) <= k {
                    assert(is_digit(body[digit_run(body)]));
                }
                lemma_value_grows(body, k + 1, digit_run(body));
            }
            return Err(IntError::PosOverflow);
        }
        acc = next as u32;
        i += 1;
    }
    proof {
        if digit_run(body) < body.len() {
            assert(is_digit(body[digit_run(body)]));
        }
        assert(body.take(body.len() as int) =~= body);
    }
    Ok(acc)
}

/// Writes `n` in decimal behind what `out` holds.
pub fn push_decimal(out: &mut Vec<u8>, n: u32)
    ensures
        final(out)@ == old(out)@ + decimal(n as nat),
    decreases n,
{
    if n >= 10 {
        push_decimal(out, n / 10);
    }
    out.push((48 + n % 10) as u8);
    assert(out@ =~= old(out)@ + decimal(n as nat));
}

/// The decimal digits of a number are digits, and write that number.
pub proof fn lemma_decimal(n: nat)
    ensures
        decimal(n).len() > 0,
        all_digits(decimal(n)),
        value(decimal(n)) == n,
    decreases n,
{
    reveal_with_fuel(value, 2);
    if n < 10 {
        assert(decimal(n).drop_last() =~= Seq::<u8>::empty());
    } else {
        lemma_decimal(n / 10);
        assert(decimal(n).drop_last() =~= decimal(n / 10));
    }
}

/// Reading gives back what was written: the decimal digits of a `u32` read as that
/// number.
pub proof fn decimal_reads_back(n: u32)
    ensures
        parsed_u32(decimal(n as nat)) == Ok::<u32, IntError>(n),
{
    let s = decimal(n as nat);
    lemma_decimal(n as nat);
    lemma_digit_run(s);
    assert(is_digit(s[0]));
    if digit_run(s) < s.len() {
        assert(is_digit(s[digit_run(s)]));
    }
    assert(s.take(s.len() as int) =~= s);
}

/// A text reads as `n` exactly when it is an optional plus sign and at least one
/// digit, and the digits write `n`.
pub proof fn reads_as(s: Seq<u8>, n: u32)
    ensures
        parsed_u32(s) == Ok::<u32, IntError>(n) <==> {
            &&& unsigned_part(s).len() > 0
            &&& all_digits(unsigned_part(s))
            &&& value(unsigned_part(s)) == n
        },
{
    let body = unsigned_part(s);
    lemma_digit_run(body);
    assert(body.take(body.len() as int) =~= body);
    if all_digits(body) {
        if digit_run(body) < body.len() {
            assert(is_digit(body[digit_run(body)]));
        }
        lemma_value_grows(body, 0, body.len() as int);
    } else {
        let i = choose|i: int| 0 <= i < body.len() && !is_digit(#[trigger] body[i]);
        assert(digit_run(body) <= i);
    }
}

/// Digits count by their place: those of one text behind those of another make the number
/// of the first, times ten for each digit of the second, and the number of the second. One
/// digit stands for itself, and no digit for zero.
pub proof fn digits_count_by_place(first: Seq<u8>, second: Seq<u8>)
    ensures
        value(first + second) == value(first) * pow(10, second.len()) + value(second),
        second.len() == 0 ==> value(second) == 0,
        second.len() == 1 ==> value(second) == second[0] - ('0' as u8),
    decreases second.len(),
{
    let all = first + second;
    reveal_with_fuel(value, 2);
    if second.len() == 0 {
        assert(all =~= first);
        lemma_pow0(10);
    } else {
        let init = second.drop_last();
        digits_count_by_place(first, init);
        assert(all.drop_last() =~= first + init);
        assert(all.last() == second.last());
        lemma_pow_adds(10, init.len(), 1);
        lemma_pow1(10);
        let (a, p) = (value(first), pow(10, init.len()));
        assert((a * p) * 10 == a * (p * 10)) by (nonlinear_arith);
    }
}

/// The first `k` bytes of `s` are digits.
pub open spec fn digits_to(s: Seq<u8>, k: int) -> bool {
    forall|i: int| 0 <= i < k ==> '0' as u8 <= #[trigger] s[i] <= '9' as u8
}

/// Some digits at the start of `s` write more than a `u32` holds.
pub open spec fn too_large(s: Seq<u8>) -> bool {
    exists|k: int| 0 <= k <= s.len() && #[trigger] digits_to(s, k) && value(s.take(k)) > u32::MAX
}

/// What a text reads as, byte by byte. The empty text is an error of its own. Behind an
/// optional plus sign there must be digits: a run of them from there that is too large is
/// one error, and anything that is no digit, or nothing at all, is another. Otherwise the
/// text reads as the number that the digits write.
pub proof fn texts_read_digit_by_digit(s: Seq<u8>)
    ensures
        ({
            let digits = if s.len() > 0 && s[0] == '+' as u8 {
                s.skip(1)
            } else {
                s
            };
            let all = digits.len() > 0 && digits_to(digits, digits.len() as int);
            &&& parsed_u32(s) == Err::<u32, IntError>(IntError::Empty) <==> s.len() == 0
            &&& parsed_u32(s) == Err::<u32, IntError>(IntError::PosOverflow) <==> too_large(digits)
            &&& parsed_u32(s) == Err::<u32, IntError>(IntError::InvalidDigit) <==> s.len() > 0
                && !too_large(digits) && !all
            &&& parsed_u32(s) is Ok <==> !too_large(digits) && all
            &&& parsed_u32(s) matches Ok(n) ==> n == value(digits)
        }),
{
    let digits = if s.len() > 0 && s[0] == '+' as u8 {
        s.skip(1)
    } else {
        s
    };
    let run = digit_run(digits);
    let whole = digits.len() as int;
    assert(unsigned_part(s) == digits);
    lemma_digit_run(digits);
    assert(digits.take(whole) =~= digits);
    assert(digits_to(digits, run)) by {
        assert forall|i: int| 0 <= i < run implies '0' as u8 <= #[trigger] digits[i] <= '9' as u8 by {
            assert(is_digit(digits[i]));
        }
    }
    assert forall|k: int| 0 <= k <= whole && #[trigger] digits_to(digits, k) implies k <= run
        && value(digits.take(k)) <= value(digits.take(run)) by {
        if run < k {
            assert('0' as u8 <= digits[run] <= '9' as u8);
        }
        lemma_value_grows(digits, k, run);
    }
    lemma_value_grows(digits, 0, run);
    assert(digits.take(0).len() == 0);
    if run == 0 {
        assert(value(digits.take(run)) == 0);
    }
}

/// What is written for a number are digits without a leading zero, and they write it.
pub proof fn decimal_is_canonical(n: nat, i: int)
    requires
        0 <= i < decimal(n).len(),
    ensures
        '0' as u8 <= decimal(n)[i] <= '9' as u8,
        decimal(n)[0] == '0' as u8 ==> n == 0 && decimal(n).len() == 1,
        value(decimal(n)) == n,
    decreases n,
{
    lemma_decimal(n);
    assert(is_digit(decimal(n)[i]));
    if n >= 10 {
        lemma_decimal(n / 10);
        decimal_is_canonical(n / 10, 0);
    }
}

} // verus!
