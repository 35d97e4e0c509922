//! The parameters by which the server treats a request.
use crate::double::{doubles_compare_as_numbers, number, Double};
use vstd::prelude::*;

verus! {

/// How long the server sleeps before it answers, in seconds.
#[derive(Clone, Copy, Debug)]
pub struct SleepParams {
    pub min: Double,
    pub p50: Double,
    pub p90: Double,
    pub p99: Double,
    pub max: Double,
}

/// How much data an answer carries, in bytes.
#[derive(Clone, Copy, Debug, PartialEq, Eq, Structural)]
pub struct DataParams {
    pub min: u32,
    pub p50: u32,
    pub p90: u32,
    pub p99: u32,
    pub max: u32,
}

/// The parameters of a request.
#[derive(Clone, Copy, Debug)]
pub struct Params {
    pub fail_rate: Double,
    pub sleep: SleepParams,
    pub data: DataParams,
}

/// The five sizes of a [`DataParams`] as plain numbers.
pub struct DataSizes {
    pub min: int,
    pub p50: int,
    pub p90: int,
    pub p99: int,
    pub max: int,
}

/// Which size of a [`DataParams`].
#[derive(Clone, Copy, Debug, PartialEq, Eq, Structural)]
pub enum DataField {
    Min,
    P50,
    P90,
    P99,
    Max,
}

impl DataSizes {
    /// The sizes with `n` added to one of them.
    pub open spec fn plus(self, field: DataField, n: int) -> DataSizes {
        match field {
            DataField::Min => DataSizes { min: self.min + n, ..self },
            DataField::P50 => DataSizes { p50: self.p50 + n, ..self },
            DataField::P90 => DataSizes { p90: self.p90 + n, ..self },
            DataField::P99 => DataSizes { p99: self.p99 + n, ..self },
            DataField::Max => DataSizes { max: self.max + n, ..self },
        }
    }

    /// Every size fits in a `u32`.
    pub open spec fn fits(self) -> bool {
        &&& self.min <= u32::MAX
        &&& self.p50 <= u32::MAX
        &&& self.p90 <= u32::MAX
        &&& self.p99 <= u32::MAX
        &&& self.max <= u32::MAX
    }

    /// No size of `self` is larger than that of `other`.
    pub open spec fn within(self, other: DataSizes) -> bool {
        &&& self.min <= other.min
        &&& self.p50 <= other.p50
        &&& self.p90 <= other.p90
        &&& self.p99 <= other.p99
        &&& self.max <= other.max
    }
}

impl View for DataParams {
    type V = DataSizes;

    open spec fn view(&self) -> DataSizes {
        DataSizes {
            min: self.min as int,
            p50: self.p50 as int,
            p90: self.p90 as int,
            p99: self.p99 as int,
            max: self.max as int,
        }
    }
}

impl DataParams {
    /// Adds `n` to one of the sizes; `None` where the sum does not fit in a `u32`.
    pub fn plus(&self, field: DataField, n: u32) -> (sum: Option<DataParams>)
        ensures
            sum is Some <==> self@.plus(field, n as int).fits(),
            sum matches Some(d) ==> d@ == self@.plus(field, n as int),
            sum is Some <==> match field {
                DataField::Min => self.min,
                DataField::P50 => self.p50,
                DataField::P90 => self.p90,
                DataField::P99 => self.p99,
                DataField::Max => self.max,
            } + n <= u32::MAX,
            sum matches Some(d) ==> {
                &&& d.min == self.min + if field == DataField::Min { n } else { 0 }
                &&& d.p50 == self.p50 + if field == DataField::P50 { n } else { 0 }
                &&& d.p90 == self.p90 + if field == DataField::P90 { n } else { 0 }
                &&& d.p99 == self.p99 + if field == DataField::P99 { n } else { 0 }
                &&& d.max == self.max + if field == DataField::Max { n } else { 0 }
            },
    {
        match field {
            DataField::Min => match self.min.checked_add(n) {
                Some(min) => Some(DataParams { min, ..*self }),
                None => None,
            },
            DataField::P50 => match self.p50.checked_add(n) {
                Some(p50) => Some(DataParams { p50, ..*self }),
                None => None,
            },
            DataField::P90 => match self.p90.checked_add(n) {
                Some(p90) => Some(DataParams { p90, ..*self }),
                None => None,
            },
            DataField::P99 => match self.p99.checked_add(n) {
                Some(p99) => Some(DataParams { p99, ..*self }),
                None => None,
            },
            DataField::Max => match self.max.checked_add(n) {
                Some(max) => Some(DataParams { max, ..*self }),
                None => None,
            },
        }
    }

    /// Adds to the three percentiles what a call asks for; `None` where a sum does
    /// not fit in a `u32`.
    pub fn plus_percentiles(&self, p50: u32, p90: u32, p99: u32) -> (sum: Option<DataParams>)
        ensures
            sum is Some <==> self@.plus(DataField::P50, p50 as int).plus(
                DataField::P90,
                p90 as int,
            ).plus(DataField::P99, p99 as int).fits(),
            sum matches Some(d) ==> d@ == self@.plus(DataField::P50, p50 as int).plus(
                DataField::P90,
                p90 as int,
            ).plus(DataField::P99, p99 as int),
            sum is Some <==> self.p50 + p50 <= u32::MAX && self.p90 + p90 <= u32::MAX && self.p99
                + p99 <= u32::MAX,
            sum matches Some(d) ==> {
                &&& d.min == self.min
                &&& d.p50 == self.p50 + p50
                &&& d.p90 == self.p90 + p90
                &&& d.p99 == self.p99 + p99
                &&& d.max == self.max
            },
    {
        match self.plus(DataField::P50, p50) {
            Some(d) => match d.plus(DataField::P90, p90) {
                Some(d) => d.plus(DataField::P99, p99),
                None => None,
            },
            None => None,
        }
    }
}

impl SleepParams {
    pub open spec fn is_same(self, other: SleepParams) -> bool {
        &&& self.min.is_same(other.min)
        &&& self.p50.is_same(other.p50)
        &&& self.p90.is_same(other.p90)
        &&& self.p99.is_same(other.p99)
        &&& self.max.is_same(other.max)
    }

    /// Whether the two agree in every number.
    pub fn same(&self, other: &SleepParams) -> (yes: bool)
        ensures
            yes == self.is_same(*other),
            yes <==> {
                &&& self.min.is_same(other.min)
                &&& self.p50.is_same(other.p50)
                &&& self.p90.is_same(other.p90)
                &&& self.p99.is_same(other.p99)
                &&& self.max.is_same(other.max)
            },
    {
        self.min.same(&other.min) && self.p50.same(&other.p50) && self.p90.same(&other.p90)
            && self.p99.same(&other.p99) && self.max.same(&other.max)
    }
}

impl Params {
    /// The parameters of which every number is zero.
    pub open spec fn none() -> Params {
        let zero = Double { bits: 0 };
        Params {
            fail_rate: zero,
            sleep: SleepParams { min: zero, p50: zero, p90: zero, p99: zero, max: zero },
            data: DataParams { min: 0, p50: 0, p90: 0, p99: 0, max: 0 },
        }
    }

    /// Numbers compare as numbers do, so parameters that hold what is no number
    /// equal nothing.
    pub open spec fn is_same(self, other: Params) -> bool {
        &&& self.fail_rate.is_same(other.fail_rate)
        &&& self.sleep.is_same(other.sleep)
        &&& self.data == other.data
    }

    /// Whether the two agree in every number.
    pub fn same(&self, other: &Params) -> (yes: bool)
        ensures
            yes == self.is_same(*other),
            yes <==> {
                &&& self.fail_rate.is_same(other.fail_rate)
                &&& self.sleep.min.is_same(other.sleep.min)
                &&& self.sleep.p50.is_same(other.sleep.p50)
                &&& self.sleep.p90.is_same(other.sleep.p90)
                &&& self.sleep.p99.is_same(other.sleep.p99)
                &&& self.sleep.max.is_same(other.sleep.max)
                &&& self.data.min == other.data.min
                &&& self.data.p50 == other.data.p50
                &&& self.data.p90 == other.data.p90
                &&& self.data.p99 == other.data.p99
                &&& self.data.max == other.data.max
            },
    {
        self.fail_rate.same(&other.fail_rate) && self.sleep.same(&other.sleep) && self.data
            == other.data
    }
}

impl Default for Params {
    /// The parameters that hold where nothing else is configured.
    fn default() -> (p: Params)
        ensures
            p == Params::none(),
            p.fail_rate.bits == 0,
            p.sleep.min.bits == 0 && p.sleep.p50.bits == 0 && p.sleep.p90.bits == 0
                && p.sleep.p99.bits == 0 && p.sleep.max.bits == 0,
            p.data.min == 0 && p.data.p50 == 0 && p.data.p90 == 0 && p.data.p99 == 0 && p.data.max
                == 0,
    {
        let zero = Double::zero();
        Params {
            fail_rate: zero,
            sleep: SleepParams { min: zero, p50: zero, p90: zero, p99: zero, max: zero },
            data: DataParams { min: 0, p50: 0, p90: 0, p99: 0, max: 0 },
        }
    }
}

/// The sizes are the numbers that the fields hold.
pub proof fn sizes_are_the_fields(d: DataParams)
    ensures
        d@.min == d.min,
        d@.p50 == d.p50,
        d@.p90 == d.p90,
        d@.p99 == d.p99,
        d@.max == d.max,
{
}

/// Adding to one size changes that one by what is added, and leaves the four others as
/// they were.
pub proof fn adding_changes_one_size(sizes: DataSizes, n: int)
    ensures
        ({
            let (min, p50, p90, p99, max) = (
                sizes.min,
                sizes.p50,
                sizes.p90,
                sizes.p99,
                sizes.max,
            );
            &&& sizes.plus(DataField::Min, n) == (DataSizes { min: min + n, p50, p90, p99, max })
            &&& sizes.plus(DataField::P50, n) == (DataSizes { min, p50: p50 + n, p90, p99, max })
            &&& sizes.plus(DataField::P90, n) == (DataSizes { min, p50, p90: p90 + n, p99, max })
            &&& sizes.plus(DataField::P99, n) == (DataSizes { min, p50, p90, p99: p99 + n, max })
            &&& sizes.plus(DataField::Max, n) == (DataSizes { min, p50, p90, p99, max: max + n })
        }),
{
}

/// Sizes fit exactly where each of the five is at most the largest `u32`, and are within
/// others exactly where each of the five is.
pub proof fn sizes_compare_one_by_one(a: DataSizes, b: DataSizes)
    ensures
        a.fits() <==> a.min <= 0xffff_ffff && a.p50 <= 0xffff_ffff && a.p90 <= 0xffff_ffff && a.p99
            <= 0xffff_ffff && a.max <= 0xffff_ffff,
        a.within(b) <==> a.min <= b.min && a.p50 <= b.p50 && a.p90 <= b.p90 && a.p99 <= b.p99
            && a.max <= b.max,
{
}

/// Two doubles that stand for one number.
pub open spec fn one_number(x: Double, y: Double) -> bool {
    !x.is_nan() && !y.is_nan() && number(x) == number(y)
}

/// Two sets of parameters are the same exactly where they agree in each of their eleven
/// numbers: the rate of failure, five times and five sizes.
pub proof fn same_parameters_agree_in_all(p: Params, q: Params)
    ensures
        p.is_same(q) <==> {
            &&& one_number(p.fail_rate, q.fail_rate)
            &&& one_number(p.sleep.min, q.sleep.min)
            &&& one_number(p.sleep.p50, q.sleep.p50)
            &&& one_number(p.sleep.p90, q.sleep.p90)
            &&& one_number(p.sleep.p99, q.sleep.p99)
            &&& one_number(p.sleep.max, q.sleep.max)
            &&& p.data.min == q.data.min
            &&& p.data.p50 == q.data.p50
            &&& p.data.p90 == q.data.p90
            &&& p.data.p99 == q.data.p99
            &&& p.data.max == q.data.max
        },
        p.sleep.is_same(q.sleep) <==> {
            &&& one_number(p.sleep.min, q.sleep.min)
            &&& one_number(p.sleep.p50, q.sleep.p50)
            &&& one_number(p.sleep.p90, q.sleep.p90)
            &&& one_number(p.sleep.p99, q.sleep.p99)
            &&& one_number(p.sleep.max, q.sleep.max)
        },
{
    doubles_compare_as_numbers(p.fail_rate, q.fail_rate);
    doubles_compare_as_numbers(p.sleep.min, q.sleep.min);
    doubles_compare_as_numbers(p.sleep.p50, q.sleep.p50);
    doubles_compare_as_numbers(p.sleep.p90, q.sleep.p90);
    doubles_compare_as_numbers(p.sleep.p99, q.sleep.p99);
    doubles_compare_as_numbers(p.sleep.max, q.sleep.max);
}

/// Where nothing is configured every number is zero.
pub proof fn no_parameters_are_zeros()
    ensures
        ({
            let p = Params::none();
            &&& number(p.fail_rate) == 0
            &&& number(p.sleep.min) == 0 && number(p.sleep.p50) == 0 && number(p.sleep.p90) == 0
            &&& number(p.sleep.p99) == 0 && number(p.sleep.max) == 0
            &&& p.data.min == 0 && p.data.p50 == 0 && p.data.p90 == 0 && p.data.p99 == 0
            &&& p.data.max == 0
            &&& p.is_same(p)
        }),
{
    let p = Params::none();
    same_parameters_agree_in_all(p, p);
}

} // verus!
