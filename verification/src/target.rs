//! Where the client sends its requests, and what it asks for there.
use crate::client::{Data, Durations};
use crate::number::{decimal, decimal_reads_back, is_digit, lemma_decimal, parsed_u32, push_decimal};
use crate::params::{adding_changes_one_size, DataSizes};
use crate::query::{
    absorb, absorb_param, absorb_query, every_key_has_its_name, key_named, Key, NumberField, Update,
};
use crate::text::{
    ascii, ascii_bytes, join, lemma_find_is, lemma_join_push, push_ascii, push_bytes,
    split_undoes_join,
};
use vstd::prelude::*;
use vstd::utf8::is_ascii_chars;

verus! {

/// A parameter of a query.
pub open spec fn param(name: Seq<char>, val: Seq<u8>) -> Seq<u8> {
    ascii(name).push(61) + val
}

/// The percentiles of a time, as texts.
pub struct DurationTexts {
    pub p50: Seq<u8>,
    pub p90: Seq<u8>,
    pub p99: Seq<u8>,
}

impl<'a> View for Durations<'a> {
    type V = DurationTexts;

    open spec fn view(&self) -> DurationTexts {
        DurationTexts { p50: self.p50@, p90: self.p90@, p99: self.p99@ }
    }
}

/// The parameters by which the client asks for what it wants.
pub open spec fn query_params(fail_rate: Seq<u8>, sleep: DurationTexts, data: Data) -> Seq<
    Seq<u8>,
> {
    seq![
        param("fail-rate"@, fail_rate),
        param("sleep.p50"@, sleep.p50),
        param("sleep.p90"@, sleep.p90),
        param("sleep.p99"@, sleep.p99),
        param("data.p50"@, decimal(data.p50 as nat)),
        param("data.p90"@, decimal(data.p90 as nat)),
        param("data.p99"@, decimal(data.p99 as nat)),
    ]
}

/// The query by which the client asks for what it wants.
pub open spec fn query_text(fail_rate: Seq<u8>, sleep: DurationTexts, data: Data) -> Seq<u8> {
    join(query_params(fail_rate, sleep, data), 38)
}

/// The address with that query.
pub open spec fn target_text(
    address: Seq<u8>,
    fail_rate: Seq<u8>,
    sleep: DurationTexts,
    data: Data,
) -> Seq<u8> {
    ascii("http://"@) + address + ascii("/?"@) + query_text(fail_rate, sleep, data)
}

fn push_name(out: &mut Vec<u8>, name: &str)
    requires
        is_ascii_chars(name@),
    ensures
        final(out)@ == old(out)@ + ascii(name@).push(61),
{
    push_ascii(out, name);
    out.push(61);
    assert(out@ =~= old(out)@ + ascii(name@).push(61));
}

/// Writes a parameter that is a text, `first` of the query or behind an ampersand.
fn push_text_param(
    out: &mut Vec<u8>,
    first: bool,
    name: &str,
    val: &[u8],
    Ghost(before): Ghost<Seq<u8>>,
    Ghost(params): Ghost<Seq<Seq<u8>>>,
)
    requires
        is_ascii_chars(name@),
        first <==> params.len() == 0,
        old(out)@ == before + join(params, 38),
    ensures
        final(out)@ == before + join(params.push(param(name@, val@)), 38),
{
    if !first {
        out.push(38);
    }
    push_name(out, name);
    push_bytes(out, val);
    proof {
        lemma_join_push(params, 38, param(name@, val@));
        assert(out@ =~= before + join(params.push(param(name@, val@)), 38));
    }
}

/// Writes a parameter that is a size, behind an ampersand.
fn push_size_param(
    out: &mut Vec<u8>,
    name: &str,
    val: u32,
    Ghost(before): Ghost<Seq<u8>>,
    Ghost(params): Ghost<Seq<Seq<u8>>>,
)
    requires
        is_ascii_chars(name@),
        params.len() > 0,
        old(out)@ == before + join(params, 38),
    ensures
        final(out)@ == before + join(params.push(param(name@, decimal(val as nat))), 38),
{
    out.push(38);
    push_name(out, name);
    push_decimal(out, val);
    proof {
        let piece = param(name@, decimal(val as nat));
        lemma_join_push(params, 38, piece);
        assert(out@ =~= before + join(params.push(piece), 38));
    }
}

/// The text of the URI that asks the server at `address` for what is wanted.
pub fn write_target(address: &[u8], fail_rate: &[u8], sleep: &Durations, data: &Data) -> (text: Vec<
    u8,
>)
    ensures
        text@ == target_text(address@, fail_rate@, sleep@, *data),
{
    proof {
        reveal_strlit("http://");
        reveal_strlit("/?");
        reveal_strlit("fail-rate");
        reveal_strlit("sleep.p50");
        reveal_strlit("sleep.p90");
        reveal_strlit("sleep.p99");
        reveal_strlit("data.p50");
        reveal_strlit("data.p90");
        reveal_strlit("data.p99");
    }
    let mut out: Vec<u8> = Vec::new();
    push_ascii(&mut out, "http://");
    push_bytes(&mut out, address);
    push_ascii(&mut out, "/?");
    let ghost b = out@;
    let ghost p0: Seq<Seq<u8>> = Seq::empty();
    assert(b =~= ascii("http://"@) + address@ + ascii("/?"@));
    assert(b =~= b + join(p0, 38));
    push_text_param(&mut out, true, "fail-rate", fail_rate, Ghost(b), Ghost(p0));
    let ghost p1 = p0.push(param("fail-rate"@, fail_rate@));
    push_text_param(&mut out, false, "sleep.p50", sleep.p50, Ghost(b), Ghost(p1));
    let ghost p2 = p1.push(param("sleep.p50"@, sleep.p50@));
    push_text_param(&mut out, false, "sleep.p90", sleep.p90, Ghost(b), Ghost(p2));
    let ghost p3 = p2.push(param("sleep.p90"@, sleep.p90@));
    push_text_param(&mut out, false, "sleep.p99", sleep.p99, Ghost(b), Ghost(p3));
    let ghost p4 = p3.push(param("sleep.p99"@, sleep.p99@));
    push_size_param(&mut out, "data.p50", data.p50, Ghost(b), Ghost(p4));
    let ghost p5 = p4.push(param("data.p50"@, decimal(data.p50 as nat)));
    push_size_param(&mut out, "data.p90", data.p90, Ghost(b), Ghost(p5));
    let ghost p6 = p5.push(param("data.p90"@, decimal(data.p90 as nat)));
    push_size_param(&mut out, "data.p99", data.p99, Ghost(b), Ghost(p6));
    assert(p6.push(param("data.p99"@, decimal(data.p99 as nat))) =~= query_params(
        fail_rate@,
        sleep@,
        *data,
    ));
    out
}

/// A parsed URI.
#[verifier::external_type_specification]
#[verifier::external_body]
pub struct ExUri(hyper::Uri);

/// Why a text is no URI.
#[verifier::external_type_specification]
#[verifier::external_body]
pub struct ExInvalidUri(hyper::http::uri::InvalidUri);

/// Why parts do not make up a URI.
#[verifier::external_type_specification]
#[verifier::external_body]
pub struct ExHttpError(hyper::http::Error);

/// The URI that a text stands for, or why it stands for none.
pub uninterp spec fn parsed_uri(text: Seq<u8>) -> Result<
    hyper::Uri,
    hyper::http::uri::InvalidUri,
>;

/// The URI that a scheme, an authority and a path make up, or why they make up none.
pub uninterp spec fn built_uri(scheme: Seq<u8>, authority: Seq<u8>, path: Seq<u8>) -> Result<
    hyper::Uri,
    hyper::http::Error,
>;

/// `hyper::Uri::try_from`: parses a text. What it gives depends on the text alone.
#[verifier::external_body]
fn parse_uri(text: &[u8]) -> (uri: Result<hyper::Uri, hyper::http::uri::InvalidUri>)
    ensures
        uri == parsed_uri(text@),
{
    hyper::Uri::try_from(text)
}

/// `hyper::Uri::builder`, with a scheme, an authority and a path. What it gives
/// depends on these alone.
#[verifier::external_body]
fn build_uri(scheme: &[u8], authority: &[u8], path: &[u8]) -> (uri: Result<
    hyper::Uri,
    hyper::http::Error,
>)
    ensures
        uri == built_uri(scheme@, authority@, path@),
{
    hyper::Uri::builder().scheme(scheme).authority(authority).path_and_query(path).build()
}

/// Why there is no URI to send requests to.
#[derive(Debug)]
pub enum TargetError {
    /// The text is none.
    Text(hyper::http::uri::InvalidUri),
    /// The parts do not make up one.
    Parts(hyper::http::Error),
}

/// The URI that asks the server at `address` for what is wanted.
pub fn target(address: &[u8], fail_rate: &[u8], sleep: &Durations, data: &Data) -> (uri: Result<
    hyper::Uri,
    TargetError,
>)
    ensures
        uri == match parsed_uri(target_text(address@, fail_rate@, sleep@, *data)) {
            Ok(u) => Ok::<hyper::Uri, TargetError>(u),
            Err(error) => Err(TargetError::Text(error)),
        },
{
    let text = write_target(address, fail_rate, sleep, data);
    match parse_uri(text.as_slice()) {
        Ok(u) => Ok(u),
        Err(error) => Err(TargetError::Text(error)),
    }
}

/// The URI of the server itself, for gRPC calls.
pub fn origin(address: &[u8]) -> (uri: Result<hyper::Uri, TargetError>)
    ensures
        uri == match built_uri(ascii("http"@), address@, ascii(""@)) {
            Ok(u) => Ok::<hyper::Uri, TargetError>(u),
            Err(error) => Err(TargetError::Parts(error)),
        },
{
    proof {
        reveal_strlit("http");
        reveal_strlit("");
    }
    match build_uri(ascii_bytes("http"), address, ascii_bytes("")) {
        Ok(u) => Ok(u),
        Err(error) => Err(TargetError::Parts(error)),
    }
}

/// What a parameter says is what was written into it.
proof fn lemma_param(u: Update, name: Seq<char>, val: Seq<u8>)
    requires
        !ascii(name).contains(61),
    ensures
        absorb_param(u, param(name, val)) == match key_named(ascii(name)) {
            Some(Key::Number(field)) => Update { terms: u.terms.push((field, val)), ..u },
            Some(Key::Size(field)) => match parsed_u32(val) {
                Ok(n) => Update { sizes: u.sizes.plus(field, n as int), ..u },
                Err(_) => u,
            },
            None => u,
        },
{
    let p = param(name, val);
    let eq = name.len() as int;
    assert forall|j: int| 0 <= j < eq implies p[j] != 61 by {
        assert(p[j] == ascii(name)[j]);
    }
    lemma_find_is(p, 61, eq);
    assert(p.take(eq) =~= ascii(name));
    assert(p.skip(eq + 1) =~= val);
}

proof fn lemma_no_amp(name: Seq<char>, val: Seq<u8>)
    requires
        !ascii(name).contains(38),
        !val.contains(38),
    ensures
        !param(name, val).contains(38),
{
    let p = param(name, val);
    assert forall|i: int| 0 <= i < p.len() implies p[i] != 38 by {
        if i < name.len() {
            assert(p[i] == ascii(name)[i]);
        } else if i > name.len() {
            assert(p[i] == val[i - name.len() - 1]);
        }
    }
}

proof fn lemma_decimal_no_amp(n: nat)
    ensures
        !decimal(n).contains(38),
{
    lemma_decimal(n);
    assert forall|i: int| 0 <= i < decimal(n).len() implies decimal(n)[i] != 38 by {
        assert(is_digit(decimal(n)[i]));
    }
}

/// The server reads out of a query what the client wrote into it: the sizes are
/// added, and the numbers are handed on as they were written.
pub proof fn server_reads_what_client_writes(
    u: Update,
    fail_rate: Seq<u8>,
    sleep: DurationTexts,
    data: Data,
)
    requires
        !fail_rate.contains(38),
        !sleep.p50.contains(38),
        !sleep.p90.contains(38),
        !sleep.p99.contains(38),
    ensures
        absorb_query(u, query_text(fail_rate, sleep, data)) == (Update {
            sizes: DataSizes {
                min: u.sizes.min,
                p50: u.sizes.p50 + data.p50,
                p90: u.sizes.p90 + data.p90,
                p99: u.sizes.p99 + data.p99,
                max: u.sizes.max,
            },
            terms: u.terms + seq![
                (NumberField::FailRate, fail_rate),
                (NumberField::SleepP50, sleep.p50),
                (NumberField::SleepP90, sleep.p90),
                (NumberField::SleepP99, sleep.p99),
            ],
        }),
{
    let ps = query_params(fail_rate, sleep, data);
    let d50 = decimal(data.p50 as nat);
    let d90 = decimal(data.p90 as nat);
    let d99 = decimal(data.p99 as nat);
    reveal_strlit("fail-rate");
    reveal_strlit("sleep.p50");
    reveal_strlit("sleep.p90");
    reveal_strlit("sleep.p99");
    reveal_strlit("data.p50");
    reveal_strlit("data.p90");
    reveal_strlit("data.p99");
    every_key_has_its_name();
    decimal_reads_back(data.p50);
    decimal_reads_back(data.p90);
    decimal_reads_back(data.p99);
    lemma_decimal_no_amp(data.p50 as nat);
    lemma_decimal_no_amp(data.p90 as nat);
    lemma_decimal_no_amp(data.p99 as nat);
    lemma_no_amp("fail-rate"@, fail_rate);
    lemma_no_amp("sleep.p50"@, sleep.p50);
    lemma_no_amp("sleep.p90"@, sleep.p90);
    lemma_no_amp("sleep.p99"@, sleep.p99);
    lemma_no_amp("data.p50"@, d50);
    lemma_no_amp("data.p90"@, d90);
    lemma_no_amp("data.p99"@, d99);
    split_undoes_join(ps, 38);
    let u1 = absorb_param(u, ps[0]);
    let u2 = absorb_param(u1, ps[1]);
    let u3 = absorb_param(u2, ps[2]);
    let u4 = absorb_param(u3, ps[3]);
    let u5 = absorb_param(u4, ps[4]);
    let u6 = absorb_param(u5, ps[5]);
    let u7 = absorb_param(u6, ps[6]);
    lemma_param(u, "fail-rate"@, fail_rate);
    lemma_param(u1, "sleep.p50"@, sleep.p50);
    lemma_param(u2, "sleep.p90"@, sleep.p90);
    lemma_param(u3, "sleep.p99"@, sleep.p99);
    lemma_param(u4, "data.p50"@, d50);
    lemma_param(u5, "data.p90"@, d90);
    lemma_param(u6, "data.p99"@, d99);
    lemma_absorb_seven(u, ps);
    adding_changes_one_size(u4.sizes, data.p50 as int);
    adding_changes_one_size(u5.sizes, data.p90 as int);
    adding_changes_one_size(u6.sizes, data.p99 as int);
    assert(u7.terms =~= u.terms + seq![
        (NumberField::FailRate, fail_rate),
        (NumberField::SleepP50, sleep.p50),
        (NumberField::SleepP90, sleep.p90),
        (NumberField::SleepP99, sleep.p99),
    ]);
}

proof fn lemma_absorb_seven(u: Update, ps: Seq<Seq<u8>>)
    requires
        ps.len() == 7,
    ensures
        absorb(u, ps) == absorb_param(
            absorb_param(
                absorb_param(
                    absorb_param(
                        absorb_param(absorb_param(absorb_param(u, ps[0]), ps[1]), ps[2]),
                        ps[3],
                    ),
                    ps[4],
                ),
                ps[5],
            ),
            ps[6],
        ),
{
    reveal_with_fuel(absorb, 8);
}

/// The texts of times are those that the fields hold.
pub proof fn texts_are_the_fields(d: Durations)
    ensures
        d@.p50 == d.p50@,
        d@.p90 == d.p90@,
        d@.p99 == d.p99@,
{
}

/// What the client writes behind the address: seven parameters and no more, each its name,
/// an equals sign and its value, in this order.
pub proof fn targets_name_seven_parameters(
    address: Seq<u8>,
    fail_rate: Seq<u8>,
    sleep: DurationTexts,
    data: Data,
)
    ensures
        target_text(address, fail_rate, sleep, data) == ascii("http://"@) + address + ascii(
            "/?fail-rate="@,
        ) + fail_rate + ascii("&sleep.p50="@) + sleep.p50 + ascii("&sleep.p90="@) + sleep.p90 + ascii(
            "&sleep.p99="@,
        ) + sleep.p99 + ascii("&data.p50="@) + decimal(data.p50 as nat) + ascii("&data.p90="@)
            + decimal(data.p90 as nat) + ascii("&data.p99="@) + decimal(data.p99 as nat),
{
    lemma_literals();
    let ps = query_params(fail_rate, sleep, data);
    let p1 = ps.take(1);
    let p2 = ps.take(2);
    let p3 = ps.take(3);
    let p4 = ps.take(4);
    let p5 = ps.take(5);
    let p6 = ps.take(6);
    assert(p1 =~= seq![ps[0]]);
    assert(p2 =~= p1.push(ps[1]));
    assert(p3 =~= p2.push(ps[2]));
    assert(p4 =~= p3.push(ps[3]));
    assert(p5 =~= p4.push(ps[4]));
    assert(p6 =~= p5.push(ps[5]));
    assert(ps =~= p6.push(ps[6]));
    let start = ascii("http://"@) + address;
    let base = start + ascii("/?"@);
    assert(base + ps[0] =~= start + ascii("/?fail-rate="@) + fail_rate);
    lemma_one_more(base, p1, "sleep.p50"@, sleep.p50, ascii("&sleep.p50="@));
    lemma_one_more(base, p2, "sleep.p90"@, sleep.p90, ascii("&sleep.p90="@));
    lemma_one_more(base, p3, "sleep.p99"@, sleep.p99, ascii("&sleep.p99="@));
    lemma_one_more(base, p4, "data.p50"@, decimal(data.p50 as nat), ascii("&data.p50="@));
    lemma_one_more(base, p5, "data.p90"@, decimal(data.p90 as nat), ascii("&data.p90="@));
    lemma_one_more(base, p6, "data.p99"@, decimal(data.p99 as nat), ascii("&data.p99="@));
}

/// One more parameter stands behind an ampersand.
proof fn lemma_one_more(
    base: Seq<u8>,
    params: Seq<Seq<u8>>,
    name: Seq<char>,
    val: Seq<u8>,
    label: Seq<u8>,
)
    requires
        params.len() > 0,
        label == seq![38u8] + ascii(name) + seq![61u8],
    ensures
        base + join(params.push(param(name, val)), 38) == base + join(params, 38) + label + val,
{
    lemma_join_push(params, 38, param(name, val));
    assert(base + (join(params, 38).push(38) + param(name, val)) =~= base + join(params, 38) + label
        + val);
}

/// What stands between two values is an ampersand, a name and an equals sign.
proof fn lemma_literals()
    ensures
        ascii("/?fail-rate="@) == ascii("/?"@) + ascii("fail-rate"@) + seq![61u8],
        ascii("&sleep.p50="@) == seq![38u8] + ascii("sleep.p50"@) + seq![61u8],
        ascii("&sleep.p90="@) == seq![38u8] + ascii("sleep.p90"@) + seq![61u8],
        ascii("&sleep.p99="@) == seq![38u8] + ascii("sleep.p99"@) + seq![61u8],
        ascii("&data.p50="@) == seq![38u8] + ascii("data.p50"@) + seq![61u8],
        ascii("&data.p90="@) == seq![38u8] + ascii("data.p90"@) + seq![61u8],
        ascii("&data.p99="@) == seq![38u8] + ascii("data.p99"@) + seq![61u8],
{
    assert(ascii("/?fail-rate="@) =~= ascii("/?"@) + ascii("fail-rate"@) + seq![61u8]) by {
        reveal_strlit("/?");
        reveal_strlit("fail-rate");
        reveal_strlit("/?fail-rate=");
    }
    assert(ascii("&sleep.p50="@) =~= seq![38u8] + ascii("sleep.p50"@) + seq![61u8]) by {
        reveal_strlit("sleep.p50");
        reveal_strlit("&sleep.p50=");
    }
    assert(ascii("&sleep.p90="@) =~= seq![38u8] + ascii("sleep.p90"@) + seq![61u8]) by {
        reveal_strlit("sleep.p90");
        reveal_strlit("&sleep.p90=");
    }
    assert(ascii("&sleep.p99="@) =~= seq![38u8] + ascii("sleep.p99"@) + seq![61u8]) by {
        reveal_strlit("sleep.p99");
        reveal_strlit("&sleep.p99=");
    }
    assert(ascii("&data.p50="@) =~= seq![38u8] + ascii("data.p50"@) + seq![61u8]) by {
        reveal_strlit("data.p50");
        reveal_strlit("&data.p50=");
    }
    assert(ascii("&data.p90="@) =~= seq![38u8] + ascii("data.p90"@) + seq![61u8]) by {
        reveal_strlit("data.p90");
        reveal_strlit("&data.p90=");
    }
    assert(ascii("&data.p99="@) =~= seq![38u8] + ascii("data.p99"@) + seq![61u8]) by {
        reveal_strlit("data.p99");
        reveal_strlit("&data.p99=");
    }
}

} // verus!
