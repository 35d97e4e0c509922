//! How long requests took: a histogram of milliseconds.
use vstd::multiset::Multiset;
use vstd::prelude::*;

verus! {

/// The latencies of a window, in milliseconds.
#[verifier::external_body]
pub struct Latencies {
    histogram: hdrhistogram::Histogram<u64>,
}

/// The values that the histogram counts, each as often as it counts it.
pub uninterp spec fn recorded(l: Latencies) -> Multiset<u64>;

/// The number of slots of the histogram, one for each of the values from zero,
/// while it still is as `hdrhistogram::Histogram::new` makes it. It then takes
/// values up to 2 to be in its range.
pub uninterp spec fn slots(l: Latencies) -> int;

/// How many slots a new histogram has for its number of significant digits: the
/// least power of two that is not less than twice that power of ten.
pub open spec fn slots_for(digits: u8) -> int {
    if digits == 1 {
        32
    } else if digits == 2 {
        256
    } else if digits == 3 {
        2048
    } else if digits == 4 {
        32768
    } else {
        262144
    }
}

/// `c` with one more `v`, where `c` counts no value more than `u64::MAX` times.
pub open spec fn counted(c: Multiset<u64>, v: u64) -> Multiset<u64> {
    if c.count(v) < u64::MAX {
        c.insert(v)
    } else {
        c
    }
}

/// How many of the values are at most `v`.
pub open spec fn at_most(c: Multiset<u64>, v: int) -> nat {
    c.filter(|x: u64| x <= v).len()
}

/// The place, counted from one, of the percentile among `n` sorted values.
pub open spec fn place(n: nat, percent: int) -> int {
    let k = (n * percent + 99) / 100;
    if k < 1 {
        1
    } else {
        k
    }
}

/// The least value that is not less than `percent` percent of the values, and zero
/// where there is no value.
pub open spec fn is_percentile(c: Multiset<u64>, percent: int, v: u64) -> bool {
    if c.len() == 0 {
        v == 0
    } else {
        &&& at_most(c, v as int) >= place(c.len(), percent)
        &&& v == 0 || at_most(c, v - 1) < place(c.len(), percent)
    }
}

/// `hdrhistogram::Histogram::new`: a histogram for one to five significant digits,
/// without values. More than five are an error; what it makes for none is left
/// unsaid.
#[verifier::external_body]
fn new_histogram(digits: u8) -> (l: Option<Latencies>)
    ensures
        digits >= 1 ==> (l is Some <==> digits <= 5),
        l matches Some(l) ==> recorded(l) == Multiset::<u64>::empty(),
        l matches Some(l) ==> digits >= 1 ==> slots(l) == slots_for(digits),
{
    match hdrhistogram::Histogram::new(digits) {
        Ok(histogram) => Some(Latencies { histogram }),
        Err(_) => None,
    }
}

/// `hdrhistogram::Histogram::saturating_record`: counts a value that has a slot.
/// One that has none is counted as the largest value in range, which is 2 as long as
/// the histogram is as it was made; recording in this way does not make it grow. A
/// count stops at `u64::MAX`.
#[verifier::external_body]
fn saturating_record(l: &mut Latencies, value: u64)
    requires
        slots(*old(l)) > 2,
    ensures
        slots(*final(l)) == slots(*old(l)),
        recorded(*final(l)) == counted(
            recorded(*old(l)),
            if value < slots(*old(l)) {
                value
            } else {
                2
            },
        ),
{
    l.histogram.saturating_record(value)
}

/// `hdrhistogram::Histogram::clear`: forgets the values and keeps the slots.
#[verifier::external_body]
fn clear_histogram(l: &mut Latencies)
    ensures
        slots(*final(l)) == slots(*old(l)),
        recorded(*final(l)) == Multiset::<u64>::empty(),
{
    l.histogram.clear()
}

/// `hdrhistogram::Histogram::value_at_percentile`. It takes the place of the
/// percentile from a rounded product. For 50, 90 and 99 percent of at most 2^40
/// values the rounding does not move the place; for others the value is left
/// unsaid.
#[verifier::external_body]
fn value_at_percentile(l: &Latencies, percent: u8) -> (v: u64)
    requires
        slots(*l) > 2,
    ensures
        (percent == 50 || percent == 90 || percent == 99) && recorded(*l).len() <= 0x100_0000_0000
            ==> is_percentile(recorded(*l), percent as int, v),
{
    l.histogram.value_at_percentile(percent.into())
}

impl View for Latencies {
    type V = Multiset<u64>;

    open spec fn view(&self) -> Multiset<u64> {
        recorded(*self)
    }
}

impl Latencies {
    /// The histogram has the slots that it was made with.
    pub open spec fn wf(self) -> bool {
        slots(self) == slots_for(3)
    }

    /// What a latency is counted as: itself below 2048 milliseconds, and 2 from there
    /// on.
    pub open spec fn slot(millis: u64) -> u64 {
        if millis < 2048 {
            millis
        } else {
            2
        }
    }

    /// No latency.
    pub fn new() -> (l: Latencies)
        ensures
            l.wf(),
            l@ == Multiset::<u64>::empty(),
    {
        new_histogram(3).unwrap()
    }

    /// Counts a latency.
    pub fn record(&mut self, millis: u64)
        requires
            old(self).wf(),
        ensures
            final(self).wf(),
            final(self)@ == counted(old(self)@, Self::slot(millis)),
            millis < 2048 && old(self)@.count(millis) < u64::MAX ==> final(self)@ == old(
                self,
            )@.insert(millis),
            millis >= 2048 && old(self)@.count(2) < u64::MAX ==> final(self)@ == old(
                self,
            )@.insert(2),
    {
        saturating_record(self, millis)
    }

    /// Forgets all latencies.
    pub fn clear(&mut self)
        requires
            old(self).wf(),
        ensures
            final(self).wf(),
            final(self)@ == Multiset::<u64>::empty(),
    {
        clear_histogram(self)
    }

    /// The median, the 90th and the 99th percentile.
    pub fn percentiles(&self) -> (p: (u64, u64, u64))
        requires
            self.wf(),
        ensures
            self@.len() <= 0x100_0000_0000 ==> {
                &&& is_percentile(self@, 50, p.0)
                &&& is_percentile(self@, 90, p.1)
                &&& is_percentile(self@, 99, p.2)
            },
    {
        let p50 = value_at_percentile(self, 50);
        let p90 = value_at_percentile(self, 90);
        let p99 = value_at_percentile(self, 99);
        (p50, p90, p99)
    }
}

proof fn lemma_at_most_grows(c: Multiset<u64>, v: int, w: int)
    requires
        v <= w,
    ensures
        at_most(c, v) <= at_most(c, w) <= c.len(),
{
    broadcast use vstd::multiset::group_multiset_axioms;

    let small = c.filter(|x: u64| x <= v);
    let large = c.filter(|x: u64| x <= w);
    assert(small.subset_of(large));
    assert(large.sub(small).len() == large.len() - small.len());
    assert(large.subset_of(c));
    assert(c.sub(large).len() == c.len() - large.len());
}

/// A higher percentile is no smaller value: the median is at most the 90th
/// percentile, and that is at most the 99th.
pub proof fn percentiles_are_ordered(
    c: Multiset<u64>,
    percent: int,
    v: u64,
    higher: int,
    w: u64,
)
    requires
        0 <= percent <= higher,
        is_percentile(c, percent, v),
        is_percentile(c, higher, w),
    ensures
        v <= w,
{
    if v > w {
        lemma_at_most_grows(c, w as int, v - 1);
        assert(c.len() * percent <= c.len() * higher) by (nonlinear_arith)
            requires
                0 <= percent <= higher,
        ;
    }
}

/// A percentile of some values is one of them.
pub proof fn percentile_was_recorded(c: Multiset<u64>, percent: int, v: u64)
    requires
        c.len() > 0,
        is_percentile(c, percent, v),
    ensures
        c.count(v) > 0,
{
    broadcast use vstd::multiset::group_multiset_axioms;

    if c.count(v) == 0 {
        let upto = c.filter(|x: u64| x <= v);
        let below = c.filter(|x: u64| x <= v - 1);
        assert(upto =~= below);
        if v == 0 {
            assert(upto =~= Multiset::<u64>::empty());
        }
    }
}

/// The latencies are the values that the histogram counts, which has 2048 slots.
pub proof fn latencies_are_those_recorded(l: Latencies)
    ensures
        l@ == recorded(l),
        l.wf() <==> slots(l) == 2048,
{
}

/// A latency below 2048 milliseconds is counted as itself, and once more than before; all
/// others are counted as often as before. A longer one is counted as one of two
/// milliseconds.
pub proof fn latencies_are_counted_as_themselves(c: Multiset<u64>, millis: u64, other: u64)
    requires
        c.len() < u64::MAX,
    ensures
        ({
            let after = counted(c, Latencies::slot(millis));
            &&& after.len() == c.len() + 1
            &&& after.count(other) == c.count(other) + if other == millis && millis < 2048 {
                1int
            } else if other == 2 && millis >= 2048 {
                1
            } else {
                0
            }
        }),
{
    broadcast use vstd::multiset::group_multiset_axioms;

    lemma_count_is_within(c, millis);
    lemma_count_is_within(c, 2);
}

proof fn lemma_count_is_within(c: Multiset<u64>, v: u64)
    ensures
        c.count(v) <= c.len(),
    decreases c.count(v),
{
    broadcast use vstd::multiset::group_multiset_axioms;

    if c.count(v) > 0 {
        let rest = c.remove(v);
        assert(rest.count(v) == c.count(v) - 1);
        lemma_count_is_within(rest, v);
    }
}

/// Among no values none is at most `v`, and one value more is one more of them exactly
/// where it is.
pub proof fn values_are_compared_one_by_one(c: Multiset<u64>, x: u64, v: int)
    ensures
        at_most(Multiset::empty(), v) == 0,
        at_most(c.insert(x), v) == at_most(c, v) + if x <= v {
            1int
        } else {
            0
        },
{
    broadcast use vstd::multiset::group_multiset_axioms;

    let below = |y: u64| y <= v;
    assert(Multiset::<u64>::empty().filter(below) =~= Multiset::empty());
    if x <= v {
        assert(c.insert(x).filter(below) =~= c.filter(below).insert(x));
    } else {
        assert(c.insert(x).filter(below) =~= c.filter(below));
    }
}

/// A percentile is the value up to which so many percent of the values lie, and below
/// which fewer do. Of no values it is zero.
pub proof fn percentiles_divide_the_values(c: Multiset<u64>, percent: int, v: u64)
    requires
        0 < percent <= 100,
    ensures
        c.len() == 0 ==> (is_percentile(c, percent, v) <==> v == 0),
        c.len() > 0 ==> (is_percentile(c, percent, v) <==> 100 * at_most(c, v as int) >= percent
            * c.len() && (v == 0 || 100 * at_most(c, v - 1) < percent * c.len())),
{
    let n = c.len() as int;
    if n > 0 {
        assert(n * percent == percent * n) by (nonlinear_arith);
        assert(percent * n > 0) by (nonlinear_arith)
            requires
                percent > 0,
                n > 0,
        ;
        let k = (n * percent + 99) / 100;
        assert(100 * k >= percent * n && 100 * (k - 1) < percent * n);
    }
}

} // verus!
