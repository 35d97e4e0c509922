use prometheus_client::encoding::text::encode;
use prometheus_client::registry::Registry;
use schlep::metrics::Metrics;

#[test]
fn metrics_are_registered() {
    let mut registry = Registry::default();
    let metrics = Metrics::register(registry.sub_registry_with_prefix("client"));
    metrics.grpc_sinks.inc();
    metrics.clone().grpc_sinks.inc();
    metrics.grpc_sinks.dec();
    metrics.grpc_sink_events.inc();
    metrics.grpc_sink_events.inc();
    let mut text = String::new();
    encode(&mut text, &registry).unwrap();
    assert_eq!(
        text,
        "# HELP client_grpc_sinks The number of active gRPC sinkc alls.\n\
         # TYPE client_grpc_sinks gauge\n\
         client_grpc_sinks 1\n\
         # HELP client_grpc_sink_events The number of gRPC sink events.\n\
         # TYPE client_grpc_sink_events counter\n\
         client_grpc_sink_events_total 2\n\
         # EOF\n"
    );
}
