//! The metrics that the client exposes.
use prometheus_client::metrics::counter::Counter;
use prometheus_client::metrics::gauge::Gauge;
use prometheus_client::registry::Registry;
use vstd::prelude::*;

verus! {

/// A value that goes up and down.
#[verifier::external_type_specification]
#[verifier::external_body]
#[verifier::reject_recursive_types(N)]
#[verifier::reject_recursive_types(A)]
pub struct ExGauge<N, A>(prometheus_client::metrics::gauge::Gauge<N, A>);

/// A value that only goes up.
#[verifier::external_type_specification]
#[verifier::external_body]
#[verifier::reject_recursive_types(N)]
#[verifier::reject_recursive_types(A)]
pub struct ExCounter<N, A>(prometheus_client::metrics::counter::Counter<N, A>);

/// The metrics that can be asked for.
#[verifier::external_type_specification]
#[verifier::external_body]
pub struct ExRegistry(prometheus_client::registry::Registry);

/// A metric that can be asked for.
pub enum Metric {
    Level(Gauge),
    Count(Counter),
}

/// The metrics that were registered with `reg` itself, in their order: each with its
/// name and its help.
pub uninterp spec fn registered(reg: Registry) -> Seq<(Seq<char>, Seq<char>, Metric)>;

/// `prometheus_client::metrics::gauge::Gauge::default`: a gauge of its own, at zero,
/// of which nothing is claimed.
#[verifier::external_body]
fn new_gauge() -> (gauge: Gauge) {
    Gauge::default()
}

/// `prometheus_client::metrics::counter::Counter::default`: a counter of its own, at
/// zero, of which nothing is claimed.
#[verifier::external_body]
fn new_counter() -> (counter: Counter) {
    Counter::default()
}

/// `prometheus_client::metrics::gauge::Gauge::clone`: the same gauge once more. What is
/// done to the one is done to the other.
pub assume_specification<N, A>[ <Gauge<N, A> as Clone>::clone ](gauge: &Gauge<N, A>) -> (same:
    Gauge<N, A>)
    ensures
        same == *gauge,
;

/// `prometheus_client::metrics::counter::Counter::clone`: the same counter once more.
/// What is done to the one is done to the other.
pub assume_specification<N, A>[ <Counter<N, A> as Clone>::clone ](counter: &Counter<N, A>) -> (same:
    Counter<N, A>)
    ensures
        same == *counter,
;

/// `prometheus_client::registry::Registry::register`, with a gauge: adds it under its
/// name, and puts a full stop behind the help.
#[verifier::external_body]
fn register_gauge(reg: &mut Registry, name: &str, help: &str, gauge: Gauge)
    ensures
        registered(*final(reg)) == registered(*old(reg)).push(
            (name@, help@.push('.'), Metric::Level(gauge)),
        ),
{
    reg.register(name, help, gauge)
}

/// `prometheus_client::registry::Registry::register`, with a counter: adds it under
/// its name, and puts a full stop behind the help.
#[verifier::external_body]
fn register_counter(reg: &mut Registry, name: &str, help: &str, counter: Counter)
    ensures
        registered(*final(reg)) == registered(*old(reg)).push(
            (name@, help@.push('.'), Metric::Count(counter)),
        ),
{
    reg.register(name, help, counter)
}

/// What is counted of the calls that stream requests.
#[derive(Debug)]
pub struct Metrics {
    /// The calls that are going on.
    pub grpc_sinks: Gauge,
    /// The requests that were sent in them.
    pub grpc_sink_events: Counter,
}

impl Clone for Metrics {
    /// The same metrics once more.
    fn clone(&self) -> (same: Metrics)
        ensures
            same == *self,
    {
        Metrics {
            grpc_sinks: self.grpc_sinks.clone(),
            grpc_sink_events: self.grpc_sink_events.clone(),
        }
    }
}

impl Metrics {
    /// Registers the metrics that it gives.
    pub fn register(reg: &mut Registry) -> (metrics: Metrics)
        ensures
            registered(*final(reg)) == registered(*old(reg)).push(
                (
                    "grpc_sinks"@,
                    "The number of active gRPC sinkc alls"@.push('.'),
                    Metric::Level(metrics.grpc_sinks),
                ),
            ).push(
                (
                    "grpc_sink_events"@,
                    "The number of gRPC sink events"@.push('.'),
                    Metric::Count(metrics.grpc_sink_events),
                ),
            ),
    {
        let grpc_sinks = new_gauge();
        register_gauge(reg, "grpc_sinks", "The number of active gRPC sinkc alls", grpc_sinks.clone());

        let grpc_sink_events = new_counter();
        register_counter(
            reg,
            "grpc_sink_events",
            "The number of gRPC sink events",
            grpc_sink_events.clone(),
        );

        Metrics { grpc_sinks, grpc_sink_events }
    }
}

} // verus!
