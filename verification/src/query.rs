//! The parameters that a request carries in its query.
use crate::number::{decimal, decimal_reads_back, parse_u32, parsed_u32};
use crate::params::{DataField, DataParams, DataSizes};
use crate::text::{
    ascii, ascii_bytes, eq_ignore_ascii_case, find, find_byte, lemma_find, lemma_find_is,
    lemma_split_alone, lemma_split_first, lower, lower_byte, same_ignoring_case, split, split_once,
};
use vstd::prelude::*;
use vstd::slice::{slice_subrange, slice_to_vec};
use vstd::utf8::is_ascii_chars;

verus! {

/// A parameter that is a number with a fraction.
#[derive(Clone, Copy, Debug, PartialEq, Eq, Structural)]
pub enum NumberField {
    FailRate,
    SleepMin,
    SleepP50,
    SleepP90,
    SleepP99,
    SleepMax,
}

/// A parameter that a query can name.
#[derive(Clone, Copy, Debug, PartialEq, Eq, Structural)]
pub enum Key {
    Number(NumberField),
    Size(DataField),
}

/// A text to be added, as a number, to a parameter.
#[derive(Debug)]
pub struct Term {
    pub field: NumberField,
    pub text: Vec<u8>,
}

/// What a query does to the parameters.
#[derive(Debug)]
pub struct QueryUpdate {
    /// The sizes, with those of the query added.
    pub data: DataParams,
    /// The texts of the numbers that the query adds, in its order.
    pub terms: Vec<Term>,
}

/// A [`QueryUpdate`] in plain numbers and texts.
pub struct Update {
    pub sizes: DataSizes,
    pub terms: Seq<(NumberField, Seq<u8>)>,
}

pub open spec fn term_texts(terms: Seq<Term>) -> Seq<(NumberField, Seq<u8>)> {
    terms.map_values(|t: Term| (t.field, t.text@))
}

impl View for QueryUpdate {
    type V = Update;

    open spec fn view(&self) -> Update {
        Update { sizes: self.data@, terms: term_texts(self.terms@) }
    }
}

/// The parameter that goes by `name`, in whatever case.
pub open spec fn key_named(name: Seq<u8>) -> Option<Key> {
    if same_ignoring_case(name, ascii("fail-rate"@)) {
        Some(Key::Number(NumberField::FailRate))
    } else if same_ignoring_case(name, ascii("sleep.min"@)) {
        Some(Key::Number(NumberField::SleepMin))
    } else if same_ignoring_case(name, ascii("sleep.p50"@)) {
        Some(Key::Number(NumberField::SleepP50))
    } else if same_ignoring_case(name, ascii("sleep.p90"@)) {
        Some(Key::Number(NumberField::SleepP90))
    } else if same_ignoring_case(name, ascii("sleep.p99"@)) {
        Some(Key::Number(NumberField::SleepP99))
    } else if same_ignoring_case(name, ascii("sleep.max"@)) {
        Some(Key::Number(NumberField::SleepMax))
    } else if same_ignoring_case(name, ascii("data.min"@)) {
        Some(Key::Size(DataField::Min))
    } else if same_ignoring_case(name, ascii("data.p50"@)) {
        Some(Key::Size(DataField::P50))
    } else if same_ignoring_case(name, ascii("data.p90"@)) {
        Some(Key::Size(DataField::P90))
    } else if same_ignoring_case(name, ascii("data.p99"@)) {
        Some(Key::Size(DataField::P99))
    } else if same_ignoring_case(name, ascii("data.max"@)) {
        Some(Key::Size(DataField::Max))
    } else {
        None
    }
}

/// What one parameter of a query, `param`, does. One that has no `=`, that names
/// nothing known, or of which the size does not read as a number, does nothing.
pub open spec fn absorb_param(u: Update, param: Seq<u8>) -> Update {
    let eq = find(param, 61);
    if eq >= param.len() {
        u
    } else {
        match key_named(param.take(eq)) {
            Some(Key::Number(field)) => Update {
                terms: u.terms.push((field, param.skip(eq + 1))),
                ..u
            },
            Some(Key::Size(field)) => match parsed_u32(param.skip(eq + 1)) {
                Ok(n) => Update { sizes: u.sizes.plus(field, n as int), ..u },
                Err(_) => u,
            },
            None => u,
        }
    }
}

/// What the parameters of a query do, one after the other.
pub open spec fn absorb(u: Update, params: Seq<Seq<u8>>) -> Update
    decreases params.len(),
{
    if params.len() == 0 {
        u
    } else {
        absorb(absorb_param(u, params[0]), params.skip(1))
    }
}

/// What `query` does: its parameters stand between ampersands.
pub open spec fn absorb_query(u: Update, query: Seq<u8>) -> Update {
    absorb(u, split(query, 38))
}

fn is_named(name: &[u8], key: &str) -> (yes: bool)
    requires
        is_ascii_chars(key@),
    ensures
        yes == same_ignoring_case(name@, ascii(key@)),
{
    eq_ignore_ascii_case(name, ascii_bytes(key))
}

/// The parameter that goes by `name`.
pub fn key_of(name: &[u8]) -> (key: Option<Key>)
    ensures
        key == key_named(name@),
{
    proof {
        reveal_strlit("fail-rate");
        reveal_strlit("sleep.min");
        reveal_strlit("sleep.p50");
        reveal_strlit("sleep.p90");
        reveal_strlit("sleep.p99");
        reveal_strlit("sleep.max");
        reveal_strlit("data.min");
        reveal_strlit("data.p50");
        reveal_strlit("data.p90");
        reveal_strlit("data.p99");
        reveal_strlit("data.max");
    }
    if is_named(name, "fail-rate") {
        Some(Key::Number(NumberField::FailRate))
    } else if is_named(name, "sleep.min") {
        Some(Key::Number(NumberField::SleepMin))
    } else if is_named(name, "sleep.p50") {
        Some(Key::Number(NumberField::SleepP50))
    } else if is_named(name, "sleep.p90") {
        Some(Key::Number(NumberField::SleepP90))
    } else if is_named(name, "sleep.p99") {
        Some(Key::Number(NumberField::SleepP99))
    } else if is_named(name, "sleep.max") {
        Some(Key::Number(NumberField::SleepMax))
    } else if is_named(name, "data.min") {
        Some(Key::Size(DataField::Min))
    } else if is_named(name, "data.p50") {
        Some(Key::Size(DataField::P50))
    } else if is_named(name, "data.p90") {
        Some(Key::Size(DataField::P90))
    } else if is_named(name, "data.p99") {
        Some(Key::Size(DataField::P99))
    } else if is_named(name, "data.max") {
        Some(Key::Size(DataField::Max))
    } else {
        None
    }
}

/// Parameters only add to the sizes.
pub proof fn sizes_only_grow(u: Update, params: Seq<Seq<u8>>)
    ensures
        u.sizes.within(absorb(u, params).sizes),
    decreases params.len(),
{
    if params.len() > 0 {
        sizes_only_grow(absorb_param(u, params[0]), params.skip(1));
    }
}

/// Applies one parameter of a query. Says whether every size still fits in a
/// `u32`; where one does not, nothing is changed.
fn apply_param(update: &mut QueryUpdate, param: &[u8]) -> (fits: bool)
    ensures
        fits == absorb_param(old(update)@, param@).sizes.fits(),
        fits ==> final(update)@ == absorb_param(old(update)@, param@),
        !fits ==> *final(update) == *old(update),
{
    proof {
        lemma_find(param@, 61);
    }
    match split_once(param, 61) {
        None => true,
        Some((name, val)) => match key_of(name) {
            Some(Key::Number(field)) => {
                update.terms.push(Term { field, text: slice_to_vec(val) });
                assert(update@.terms =~= old(update)@.terms.push((field, val@)));
                true
            },
            Some(Key::Size(field)) => match parse_u32(val) {
                Ok(n) => match update.data.plus(field, n) {
                    Some(data) => {
                        update.data = data;
                        true
                    },
                    None => false,
                },
                Err(_) => true,
            },
            None => true,
        },
    }
}

/// Applies the query of a request to the sizes in `data`, and collects the texts of
/// the numbers that it adds to the other parameters. `None` where a size outgrows a
/// `u32`.
pub fn apply_query(data: &DataParams, query: &[u8]) -> (update: Option<QueryUpdate>)
    ensures
        ({
            let all = absorb_query(Update { sizes: data@, terms: Seq::empty() }, query@);
            &&& update is Some <==> all.sizes.fits()
            &&& update matches Some(u) ==> u@ == all
        }),
        ({
            let sizes = DataSizes {
                min: data.min as int,
                p50: data.p50 as int,
                p90: data.p90 as int,
                p99: data.p99 as int,
                max: data.max as int,
            };
            let all = absorb_query(Update { sizes, terms: Seq::empty() }, query@);
            &&& update is Some <==> {
                &&& all.sizes.min <= u32::MAX
                &&& all.sizes.p50 <= u32::MAX
                &&& all.sizes.p90 <= u32::MAX
                &&& all.sizes.p99 <= u32::MAX
                &&& all.sizes.max <= u32::MAX
            }
            &&& update matches Some(u) ==> {
                &&& u.data.min == all.sizes.min
                &&& u.data.p50 == all.sizes.p50
                &&& u.data.p90 == all.sizes.p90
                &&& u.data.p99 == all.sizes.p99
                &&& u.data.max == all.sizes.max
                &&& u.terms@.len() == all.terms.len()
                &&& forall|i: int|
                    0 <= i < all.terms.len() ==> (#[trigger] u.terms@[i]).field == all.terms[i].0
                        && u.terms@[i].text@ == all.terms[i].1
            }
        }),
{
    let mut update = QueryUpdate { data: *data, terms: Vec::new() };
    let ghost all = absorb_query(Update { sizes: data@, terms: Seq::empty() }, query@);
    assert(update@.terms =~= Seq::empty());
    let mut rest: &[u8] = query;
    loop
        invariant
            all == absorb_query(Update { sizes: data@, terms: Seq::empty() }, query@),
            absorb(update@, split(rest@, 38)) == all,
        decreases rest@.len(),
    {
        let end = find_byte(rest, 38);
        let ghost params = split(rest@, 38);
        proof {
            lemma_find(rest@, 38);
            assert(rest@.take(end as int) =~= params[0]);
            if end < rest@.len() {
                assert(params.skip(1) =~= split(rest@.skip(end + 1), 38));
            } else {
                assert(params.skip(1) =~= Seq::empty());
            }
            sizes_only_grow(absorb_param(update@, params[0]), params.skip(1));
        }
        let param = slice_subrange(rest, 0, end);
        if !apply_param(&mut update, param) {
            return None;
        }
        if end == rest.len() {
            return Some(update);
        }
        rest = slice_subrange(rest, end + 1, rest.len());
    }
}

proof fn lemma_differ(a: Seq<u8>, b: Seq<u8>, k: int)
    requires
        a.len() != b.len() || (0 <= k < a.len() && lower_byte(a[k]) != lower_byte(b[k])),
    ensures
        !same_ignoring_case(a, b),
{
    if a.len() == b.len() {
        assert(lower(a)[k] != lower(b)[k]);
    } else {
        assert(lower(a).len() != lower(b).len());
    }
}

/// Every parameter goes by one name.
pub proof fn every_key_has_its_name()
    ensures
        key_named(ascii("fail-rate"@)) == Some(Key::Number(NumberField::FailRate)),
        key_named(ascii("sleep.min"@)) == Some(Key::Number(NumberField::SleepMin)),
        key_named(ascii("sleep.p50"@)) == Some(Key::Number(NumberField::SleepP50)),
        key_named(ascii("sleep.p90"@)) == Some(Key::Number(NumberField::SleepP90)),
        key_named(ascii("sleep.p99"@)) == Some(Key::Number(NumberField::SleepP99)),
        key_named(ascii("sleep.max"@)) == Some(Key::Number(NumberField::SleepMax)),
        key_named(ascii("data.min"@)) == Some(Key::Size(DataField::Min)),
        key_named(ascii("data.p50"@)) == Some(Key::Size(DataField::P50)),
        key_named(ascii("data.p90"@)) == Some(Key::Size(DataField::P90)),
        key_named(ascii("data.p99"@)) == Some(Key::Size(DataField::P99)),
        key_named(ascii("data.max"@)) == Some(Key::Size(DataField::Max)),
{
    reveal_strlit("fail-rate");
    reveal_strlit("sleep.min");
    reveal_strlit("sleep.p50");
    reveal_strlit("sleep.p90");
    reveal_strlit("sleep.p99");
    reveal_strlit("sleep.max");
    reveal_strlit("data.min");
    reveal_strlit("data.p50");
    reveal_strlit("data.p90");
    reveal_strlit("data.p99");
    reveal_strlit("data.max");
    let fail = ascii("fail-rate"@);
    let smin = ascii("sleep.min"@);
    let s50 = ascii("sleep.p50"@);
    let s90 = ascii("sleep.p90"@);
    let s99 = ascii("sleep.p99"@);
    let smax = ascii("sleep.max"@);
    let dmin = ascii("data.min"@);
    let d50 = ascii("data.p50"@);
    let d90 = ascii("data.p90"@);
    let d99 = ascii("data.p99"@);
    let dmax = ascii("data.max"@);
    lemma_differ(smin, fail, 0);
    lemma_differ(s50, fail, 0);
    lemma_differ(s90, fail, 0);
    lemma_differ(s99, fail, 0);
    lemma_differ(smax, fail, 0);
    lemma_differ(s50, smin, 6);
    lemma_differ(s90, smin, 6);
    lemma_differ(s99, smin, 6);
    lemma_differ(smax, smin, 7);
    lemma_differ(s90, s50, 7);
    lemma_differ(s99, s50, 7);
    lemma_differ(smax, s50, 6);
    lemma_differ(s99, s90, 8);
    lemma_differ(smax, s90, 6);
    lemma_differ(smax, s99, 6);
    lemma_size_name(dmin);
    lemma_size_name(d50);
    lemma_size_name(d90);
    lemma_size_name(d99);
    lemma_size_name(dmax);
    lemma_differ(d50, dmin, 5);
    lemma_differ(d90, dmin, 5);
    lemma_differ(d99, dmin, 5);
    lemma_differ(dmax, dmin, 6);
    lemma_differ(d90, d50, 6);
    lemma_differ(d99, d50, 6);
    lemma_differ(dmax, d50, 5);
    lemma_differ(d99, d90, 7);
    lemma_differ(dmax, d90, 5);
    lemma_differ(dmax, d99, 5);
}

/// The names of sizes have another length than those of numbers.
proof fn lemma_size_name(name: Seq<u8>)
    requires
        name.len() == 8,
    ensures
        !same_ignoring_case(name, ascii("fail-rate"@)),
        !same_ignoring_case(name, ascii("sleep.min"@)),
        !same_ignoring_case(name, ascii("sleep.p50"@)),
        !same_ignoring_case(name, ascii("sleep.p90"@)),
        !same_ignoring_case(name, ascii("sleep.p99"@)),
        !same_ignoring_case(name, ascii("sleep.max"@)),
{
    reveal_strlit("fail-rate");
    reveal_strlit("sleep.min");
    reveal_strlit("sleep.p50");
    reveal_strlit("sleep.p90");
    reveal_strlit("sleep.p99");
    reveal_strlit("sleep.max");
    lemma_differ(name, ascii("fail-rate"@), 0);
    lemma_differ(name, ascii("sleep.min"@), 0);
    lemma_differ(name, ascii("sleep.p50"@), 0);
    lemma_differ(name, ascii("sleep.p90"@), 0);
    lemma_differ(name, ascii("sleep.p99"@), 0);
    lemma_differ(name, ascii("sleep.max"@), 0);
}

/// A name means the same in whatever case it is written.
pub proof fn names_ignore_case(a: Seq<u8>, b: Seq<u8>)
    requires
        same_ignoring_case(a, b),
    ensures
        key_named(a) == key_named(b),
{
}

proof fn lemma_absorb_both(u: Update, first: Seq<Seq<u8>>, second: Seq<Seq<u8>>)
    ensures
        absorb(u, first + second) == absorb(absorb(u, first), second),
    decreases first.len(),
{
    let all = first + second;
    if first.len() == 0 {
        assert(all =~= second);
    } else {
        assert(all.skip(1) =~= first.skip(1) + second);
        assert(all[0] == first[0]);
        lemma_absorb_both(absorb_param(u, first[0]), first.skip(1), second);
    }
}

proof fn lemma_split_both(first: Seq<u8>, second: Seq<u8>, sep: u8)
    ensures
        split(first.push(sep) + second, sep) == split(first, sep) + split(second, sep),
    decreases first.len(),
{
    lemma_find(first, sep);
    let i = find(first, sep);
    let head = first.take(i);
    if i < first.len() {
        let rest = first.skip(i + 1);
        lemma_split_both(rest, second, sep);
        assert(first =~= head.push(sep) + rest);
        assert(first.push(sep) + second =~= head.push(sep) + (rest.push(sep) + second));
        lemma_split_first(head, sep, rest.push(sep) + second);
        lemma_split_first(head, sep, rest);
        assert(seq![head] + (split(rest, sep) + split(second, sep)) =~= (seq![head] + split(
            rest,
            sep,
        )) + split(second, sep));
    } else {
        assert(!first.contains(sep));
        lemma_split_first(first, sep, second);
    }
}

/// Two queries with an ampersand between them do what the one and then the other
/// does.
pub proof fn queries_add_up(u: Update, first: Seq<u8>, second: Seq<u8>)
    ensures
        absorb_query(u, first.push(38) + second) == absorb_query(absorb_query(u, first), second),
{
    lemma_split_both(first, second, 38);
    lemma_absorb_both(u, split(first, 38), split(second, 38));
}

/// What one parameter adds to a size, if it names one and reads as a number.
pub open spec fn size_in(param: Seq<u8>) -> Option<(DataField, u32)> {
    let eq = find(param, 61);
    if eq >= param.len() {
        None
    } else {
        match (key_named(param.take(eq)), parsed_u32(param.skip(eq + 1))) {
            (Some(Key::Size(field)), Ok(n)) => Some((field, n)),
            _ => None,
        }
    }
}

/// A parameter that is not one of the numbers with a fraction.
pub open spec fn leaves_numbers(param: Seq<u8>) -> bool {
    let eq = find(param, 61);
    eq < param.len() ==> !(key_named(param.take(eq)) matches Some(Key::Number(_)))
}

/// Two parameters that leave the numbers can change places.
proof fn lemma_swap(u: Update, a: Seq<u8>, b: Seq<u8>)
    requires
        leaves_numbers(a),
        leaves_numbers(b),
    ensures
        absorb_param(absorb_param(u, a), b) == absorb_param(absorb_param(u, b), a),
{
}

/// A parameter can be taken out of its place and put first.
proof fn lemma_to_front(u: Update, params: Seq<Seq<u8>>, k: int)
    requires
        0 <= k < params.len(),
        forall|i: int| 0 <= i < params.len() ==> leaves_numbers(#[trigger] params[i]),
    ensures
        absorb(u, params) == absorb(absorb_param(u, params[k]), params.remove(k)),
    decreases params.len(),
{
    if k == 0 {
        assert(params.remove(0) =~= params.skip(1));
    } else {
        let rest = params.skip(1);
        let first = absorb_param(u, params[0]);
        assert forall|i: int| 0 <= i < rest.len() implies leaves_numbers(#[trigger] rest[i]) by {
            assert(rest[i] == params[i + 1]);
        }
        lemma_to_front(first, rest, k - 1);
        lemma_swap(u, params[0], params[k]);
        let removed = params.remove(k);
        assert(removed[0] == params[0]);
        assert(removed.skip(1) =~= rest.remove(k - 1));
    }
}

proof fn lemma_reorder(u: Update, one: Seq<Seq<u8>>, other: Seq<Seq<u8>>)
    requires
        one.to_multiset() == other.to_multiset(),
        forall|i: int| 0 <= i < one.len() ==> leaves_numbers(#[trigger] one[i]),
        forall|i: int| 0 <= i < other.len() ==> leaves_numbers(#[trigger] other[i]),
    ensures
        absorb(u, one) == absorb(u, other),
    decreases one.len(),
{
    broadcast use vstd::seq_lib::group_to_multiset_ensures;

    assert(one.to_multiset().len() == one.len());
    assert(other.to_multiset().len() == other.len());
    if one.len() > 0 {
        let first = one[0];
        assert(one.contains(first));
        assert(other.to_multiset().count(first) > 0);
        assert(other.contains(first));
        let k = choose|k: int| 0 <= k < other.len() && other[k] == first;
        let rest = one.remove(0);
        let others = other.remove(k);
        assert(rest =~= one.skip(1));
        assert forall|i: int| 0 <= i < rest.len() implies leaves_numbers(#[trigger] rest[i]) by {
            assert(rest[i] == one[i + 1]);
        }
        assert forall|i: int| 0 <= i < others.len() implies leaves_numbers(
            #[trigger] others[i],
        ) by {
            assert(others[i] == other[if i < k {
                i
            } else {
                i + 1
            }]);
        }
        assert(rest.to_multiset() == others.to_multiset());
        lemma_to_front(u, other, k);
        lemma_reorder(absorb_param(u, first), rest, others);
    }
}

/// The order of the parameters does not matter where they are sizes: two queries with the
/// same parameters in any order do the same.
pub proof fn size_parameters_may_be_reordered(u: Update, one: Seq<u8>, other: Seq<u8>)
    requires
        split(one, 38).to_multiset() == split(other, 38).to_multiset(),
        forall|i: int|
            0 <= i < split(one, 38).len() ==> leaves_numbers(#[trigger] split(one, 38)[i]),
    ensures
        absorb_query(u, one) == absorb_query(u, other),
{
    broadcast use vstd::seq_lib::group_to_multiset_ensures;

    let params = split(one, 38);
    let others = split(other, 38);
    assert forall|i: int| 0 <= i < others.len() implies leaves_numbers(#[trigger] others[i]) by {
        assert(others.contains(others[i]));
        assert(params.to_multiset().count(others[i]) > 0);
        assert(params.contains(others[i]));
    }
    lemma_reorder(u, params, others);
}

/// The parameter `param` with `n` in place of what it says.
pub open spec fn with_size(param: Seq<u8>, n: nat) -> Seq<u8> {
    param.take(find(param, 61) + 1) + decimal(n)
}

/// A parameter says what is put into it.
proof fn lemma_with_size(param: Seq<u8>, field: DataField, a: u32, n: u32)
    requires
        size_in(param) == Some((field, a)),
    ensures
        size_in(with_size(param, n as nat)) == Some((field, n)),
{
    let eq = find(param, 61);
    let p = with_size(param, n as nat);
    lemma_find(param, 61);
    lemma_find_is(p, 61, eq);
    decimal_reads_back(n);
    assert(p.take(eq) =~= param.take(eq));
    assert(p.skip(eq + 1) =~= decimal(n as nat));
}

/// Two parameters for one size do what one with their sum does: a query that names a size
/// twice in a row, with `a` and with `b`, does what the query does that names it once
/// there, with the sum.
pub proof fn sizes_may_be_merged(
    u: Update,
    query: Seq<u8>,
    merged: Seq<u8>,
    before: Seq<Seq<u8>>,
    one: Seq<u8>,
    other: Seq<u8>,
    after: Seq<Seq<u8>>,
    field: DataField,
    a: u32,
    b: u32,
)
    requires
        size_in(one) == Some((field, a)),
        size_in(other) == Some((field, b)),
        a + b <= u32::MAX,
        split(query, 38) == before + seq![one, other] + after,
        split(merged, 38) == before + seq![with_size(one, (a + b) as nat)] + after,
    ensures
        absorb_query(u, query) == absorb_query(u, merged),
{
    let sum = (a + b) as u32;
    let both = with_size(one, sum as nat);
    lemma_with_size(one, field, a, sum);
    let v = absorb(u, before);
    lemma_absorb_both(u, before + seq![one, other], after);
    lemma_absorb_both(u, before, seq![one, other]);
    lemma_absorb_both(u, before + seq![both], after);
    lemma_absorb_both(u, before, seq![both]);
    reveal_with_fuel(absorb, 3);
    assert(seq![one, other].skip(1) =~= seq![other]);
    assert(absorb(v, seq![one, other]) == absorb_param(absorb_param(v, one), other));
    assert(absorb(v, seq![both]) == absorb_param(v, both));
    assert(absorb_param(absorb_param(v, one), other) == absorb_param(v, both));
}

/// Each parameter goes by its one name, in whatever case, and by no other.
pub proof fn names_mean_their_parameter(name: Seq<u8>)
    ensures
        key_named(name) == Some(Key::Number(NumberField::FailRate)) <==> same_ignoring_case(
            name,
            ascii("fail-rate"@),
        ),
        key_named(name) == Some(Key::Number(NumberField::SleepMin)) <==> same_ignoring_case(
            name,
            ascii("sleep.min"@),
        ),
        key_named(name) == Some(Key::Number(NumberField::SleepP50)) <==> same_ignoring_case(
            name,
            ascii("sleep.p50"@),
        ),
        key_named(name) == Some(Key::Number(NumberField::SleepP90)) <==> same_ignoring_case(
            name,
            ascii("sleep.p90"@),
        ),
        key_named(name) == Some(Key::Number(NumberField::SleepP99)) <==> same_ignoring_case(
            name,
            ascii("sleep.p99"@),
        ),
        key_named(name) == Some(Key::Number(NumberField::SleepMax)) <==> same_ignoring_case(
            name,
            ascii("sleep.max"@),
        ),
        key_named(name) == Some(Key::Size(DataField::Min)) <==> same_ignoring_case(
            name,
            ascii("data.min"@),
        ),
        key_named(name) == Some(Key::Size(DataField::P50)) <==> same_ignoring_case(
            name,
            ascii("data.p50"@),
        ),
        key_named(name) == Some(Key::Size(DataField::P90)) <==> same_ignoring_case(
            name,
            ascii("data.p90"@),
        ),
        key_named(name) == Some(Key::Size(DataField::P99)) <==> same_ignoring_case(
            name,
            ascii("data.p99"@),
        ),
        key_named(name) == Some(Key::Size(DataField::Max)) <==> same_ignoring_case(
            name,
            ascii("data.max"@),
        ),
{
    every_key_has_its_name();
}

/// What a parameter of a query does, by its name, which stands before the first equals
/// sign, and its value behind that. One for a size adds the number that the value reads as
/// to that size, and to no other; one for a number hands its value on; and any other, also
/// one without an equals sign or with a size that is no number, does nothing.
pub proof fn parameters_do_what_they_say(u: Update, name: Seq<u8>, val: Seq<u8>)
    requires
        !name.contains('=' as u8),
    ensures
        ({
            let after = absorb_param(u, name.push('=' as u8) + val);
            let added = |field: DataField|
                if key_named(name) == Some(Key::Size(field)) && parsed_u32(val) is Ok {
                    parsed_u32(val)->Ok_0 as int
                } else {
                    0
                };
            &&& after.sizes.min == u.sizes.min + added(DataField::Min)
            &&& after.sizes.p50 == u.sizes.p50 + added(DataField::P50)
            &&& after.sizes.p90 == u.sizes.p90 + added(DataField::P90)
            &&& after.sizes.p99 == u.sizes.p99 + added(DataField::P99)
            &&& after.sizes.max == u.sizes.max + added(DataField::Max)
            &&& after.terms == (match key_named(name) {
                Some(Key::Number(field)) => u.terms.push((field, val)),
                _ => u.terms,
            })
            &&& absorb_param(u, name) == u
        }),
{
    let param = name.push('=' as u8) + val;
    lemma_split_first(name, '=' as u8, val);
    lemma_split_alone(name, '=' as u8);
    assert(param.take(name.len() as int) =~= name);
    assert(param.skip(name.len() as int + 1) =~= val);
}

/// Parameters take effect one after the other: none do nothing, and one behind others
/// takes effect on what they did.
pub proof fn parameters_take_effect_in_turn(u: Update, params: Seq<Seq<u8>>, param: Seq<u8>)
    ensures
        absorb(u, Seq::empty()) == u,
        absorb(u, params.push(param)) == absorb_param(absorb(u, params), param),
{
    assert(params.push(param) =~= params + seq![param]);
    lemma_absorb_both(u, params, seq![param]);
    reveal_with_fuel(absorb, 2);
    assert(seq![param].skip(1) =~= Seq::empty());
}

/// A query without an ampersand is one parameter.
pub proof fn a_query_can_be_one_parameter(u: Update, query: Seq<u8>)
    requires
        !query.contains('&' as u8),
    ensures
        absorb_query(u, query) == absorb_param(u, query),
{
    lemma_split_alone(query, '&' as u8);
    parameters_take_effect_in_turn(u, Seq::empty(), query);
    assert(Seq::<Seq<u8>>::empty().push(query) =~= seq![query]);
}

/// An update is the sizes and the texts, each with its parameter and in their order.
pub proof fn updates_are_their_parts(u: QueryUpdate, i: int)
    requires
        0 <= i < u.terms@.len(),
    ensures
        u@.sizes == u.data@,
        u@.terms.len() == u.terms@.len(),
        u@.terms[i] == (u.terms@[i].field, u.terms@[i].text@),
{
}

} // verus!
