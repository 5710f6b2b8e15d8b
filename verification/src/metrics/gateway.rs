//! The figures of a gateway.
use crate::metrics::host::{MemInfo, ProcessStatus};
use crate::metrics::sample::{
    labelled, plain, push_labelled, push_plain, push_written, render_samples, sample_views,
    samples_text, written, Label, MetricKind, Sample, SampleView,
};
use crate::native::flow_persistence::FlowPersistenceStatus;
use crate::net::{ip_text, push_ip, IpAddr};
use crate::redirect::stats::{NativeRedirectStats, ReturnRedirectStats};
use crate::text::{decimal, decimal_text, push_decimal};
use vstd::prelude::*;

verus! {

/// What the marking of packets counted.
#[derive(Clone, Copy, Debug, PartialEq, Eq, Structural)]
pub struct DscpStats {
    pub matched: u64,
    pub changed: u64,
}

/// What the datapath counted.
#[derive(Clone, Copy, Debug, PartialEq, Eq, Structural)]
pub struct NativeDatapathStats {
    pub listener_hit: u64,
    pub listener_miss: u64,
    pub target_miss: u64,
    pub return_miss: u64,
    pub rewritten: u64,
    pub checksum_error: u64,
    pub chash_bucket_hit: u64,
    pub chash_bucket_miss: u64,
    pub chash_bucket_unusable: u64,
    pub chash_fallback: u64,
    pub flow_event_lost: u64,
}

/// The bucket table of a listener.
#[derive(Clone, Debug)]
pub struct BucketDigest {
    pub listener_name: String,
    pub listener_id: u64,
    pub vip: String,
    pub port: u16,
    pub protocol: String,
    pub bucket_count: u64,
    pub digest: String,
}

/// What a process and its host show. Figures with a fraction are given as text; one
/// that is not there is left out.
#[derive(Clone, Debug)]
pub struct HostFigures {
    pub cpu_seconds: Option<String>,
    pub start_time_seconds: Option<String>,
    pub status: Option<ProcessStatus>,
    pub cpu_cores: Option<u64>,
    pub memory: Option<MemInfo>,
    pub load1: Option<String>,
    pub load5: Option<String>,
    pub load15: Option<String>,
}

/// What a gateway shows. A table that could not be read is `None`.
#[derive(Clone, Debug)]
pub struct GatewayState {
    pub dscp_attached: bool,
    pub native_attached: bool,
    pub flow_map_capacity: u64,
    pub flow_pair_capacity: u64,
    pub dscp: Option<DscpStats>,
    pub native: Option<NativeDatapathStats>,
    pub redirect: Option<NativeRedirectStats>,
    pub return_redirect: Option<ReturnRedirectStats>,
    pub digests: Option<Vec<BucketDigest>>,
    pub flows: FlowPersistenceStatus,
}

/// Who a node is.
#[derive(Clone, Debug)]
pub struct NodeIdentity {
    pub node_name: String,
    pub version: String,
    pub underlay_dev: String,
    pub underlay_ip: IpAddr,
}

/// A flag as a figure.
pub open spec fn flag_value(flag: bool) -> u64 {
    if flag {
        1
    } else {
        0
    }
}

fn bool_value(flag: bool) -> (value: u64)
    ensures
        value == flag_value(flag),
{
    if flag {
        1
    } else {
        0
    }
}

/// The memory that is taken.
pub open spec fn used_bytes(mem: MemInfo) -> u64 {
    if mem.total_bytes > mem.available_bytes {
        (mem.total_bytes - mem.available_bytes) as u64
    } else {
        0
    }
}

fn memory_used(mem: MemInfo) -> (bytes: u64)
    ensures
        bytes == used_bytes(mem),
{
    if mem.total_bytes > mem.available_bytes {
        mem.total_bytes - mem.available_bytes
    } else {
        0
    }
}

/// Milliseconds as seconds, with six digits behind the point.
pub open spec fn seconds(ms: u64) -> Seq<char> {
    let rest = (ms % 1000) as nat;
    decimal((ms / 1000) as nat) + seq!['.'] + decimal(rest / 100) + decimal((rest / 10) % 10)
        + decimal(rest % 10) + seq!['0', '0', '0']
}

fn seconds_text(ms: u64) -> (out: String)
    ensures
        out@ == seconds(ms),
{
    let mut out = decimal_text(ms / 1000);
    let rest: u64 = ms % 1000;
    out.push('.');
    push_decimal(&mut out, rest / 100);
    push_decimal(&mut out, (rest / 10) % 10);
    push_decimal(&mut out, rest % 10);
    out.push('0');
    out.push('0');
    out.push('0');
    assert(out@ =~= seconds(ms));
    out
}

/// A figure without labels, where there is one.
pub open spec fn optional(name: Seq<char>, value: Option<String>, kind: MetricKind) -> Seq<
    SampleView,
> {
    match value {
        Some(value) => seq![written(name, value@, kind)],
        None => Seq::empty(),
    }
}

fn push_optional(out: &mut Vec<Sample>, name: &'static str, value: &Option<String>, kind: MetricKind)
    ensures
        sample_views(final(out)@) == sample_views(old(out)@) + optional(name@, *value, kind),
{
    let ghost before = sample_views(out@);
    if let Some(value) = value {
        push_written(out, name, String::from_str(value.as_str()), kind);
    }
    assert(sample_views(out@) =~= before + optional(name@, *value, kind));
}

/// Who a node is.
pub open spec fn identity_samples(node: NodeIdentity) -> Seq<SampleView> {
    seq![
        SampleView {
            name: "edge_lb_node_info"@,
            labels: seq![("role"@, "gateway"@), ("node"@, node.node_name@)],
            value: decimal(1),
            kind: Some(MetricKind::Gauge),
        },
        labelled(
            "edge_lb_build_info"@,
            "version"@,
            node.version@,
            1,
            Some(MetricKind::Gauge),
        ),
        SampleView {
            name: "edge_lb_underlay_info"@,
            labels: seq![
                ("dev"@, node.underlay_dev@),
                ("underlay"@, ip_text(node.underlay_ip)),
            ],
            value: decimal(1),
            kind: Some(MetricKind::Gauge),
        },
    ]
}

fn label(key: &'static str, value: &str) -> (label: Label)
    ensures
        label.key@ == key@,
        label.value@ == value@,
{
    Label { key, value: String::from_str(value) }
}

fn push_info(out: &mut Vec<Sample>, name: &'static str, labels: Vec<Label>)
    ensures
        sample_views(final(out)@) == sample_views(old(out)@).push(
            (SampleView {
                name: name@,
                labels: crate::metrics::sample::label_views(labels@),
                value: decimal(1),
                kind: Some(MetricKind::Gauge),
            }),
        ),
{
    let sample = Sample { name, labels, value: decimal_text(1), kind: Some(MetricKind::Gauge) };
    let ghost view = sample@;
    let ghost before = out@;
    out.push(sample);
    assert(sample_views(out@) =~= sample_views(before).push(view));
}

fn push_identity(out: &mut Vec<Sample>, node: &NodeIdentity)
    ensures
        sample_views(final(out)@) == sample_views(old(out)@) + identity_samples(*node),
{
    let ghost before = sample_views(out@);
    let mut first: Vec<Label> = Vec::new();
    first.push(label("role", "gateway"));
    first.push(label("node", node.node_name.as_str()));
    assert(crate::metrics::sample::label_views(first@) =~= seq![
        ("role"@, "gateway"@),
        ("node"@, node.node_name@),
    ]);
    push_info(out, "edge_lb_node_info", first);
    push_labelled(
        out,
        "edge_lb_build_info",
        "version",
        node.version.as_str(),
        1,
        Some(MetricKind::Gauge),
    );
    let mut address = String::new();
    push_ip(&mut address, node.underlay_ip);
    assert(address@ =~= ip_text(node.underlay_ip));
    let mut third: Vec<Label> = Vec::new();
    third.push(label("dev", node.underlay_dev.as_str()));
    third.push(label("underlay", address.as_str()));
    assert(crate::metrics::sample::label_views(third@) =~= seq![
        ("dev"@, node.underlay_dev@),
        ("underlay"@, ip_text(node.underlay_ip)),
    ]);
    push_info(out, "edge_lb_underlay_info", third);
    assert(sample_views(out@) =~= before + identity_samples(*node));
}

/// What a process takes.
pub open spec fn status_samples(status: ProcessStatus) -> Seq<SampleView> {
    seq![
        plain("edge_lb_process_memory_rss_bytes"@, status.rss_bytes, MetricKind::Gauge),
        plain("edge_lb_process_memory_virtual_bytes"@, status.virtual_bytes, MetricKind::Gauge),
        plain("edge_lb_process_threads"@, status.threads, MetricKind::Gauge),
    ]
}

fn push_status(out: &mut Vec<Sample>, status: ProcessStatus)
    ensures
        sample_views(final(out)@) == sample_views(old(out)@) + status_samples(status),
{
    let ghost before = sample_views(out@);
    push_plain(out, "edge_lb_process_memory_rss_bytes", status.rss_bytes, MetricKind::Gauge);
    push_plain(out, "edge_lb_process_memory_virtual_bytes", status.virtual_bytes, MetricKind::Gauge);
    push_plain(out, "edge_lb_process_threads", status.threads, MetricKind::Gauge);
    assert(sample_views(out@) =~= before + status_samples(status));
}

/// The memory of a host.
pub open spec fn memory_samples(mem: MemInfo) -> Seq<SampleView> {
    seq![
        plain("edge_lb_host_memory_total_bytes"@, mem.total_bytes, MetricKind::Gauge),
        plain("edge_lb_host_memory_available_bytes"@, mem.available_bytes, MetricKind::Gauge),
        plain("edge_lb_host_memory_used_bytes"@, used_bytes(mem), MetricKind::Gauge),
    ]
}

fn push_memory(out: &mut Vec<Sample>, mem: MemInfo)
    ensures
        sample_views(final(out)@) == sample_views(old(out)@) + memory_samples(mem),
{
    let ghost before = sample_views(out@);
    push_plain(out, "edge_lb_host_memory_total_bytes", mem.total_bytes, MetricKind::Gauge);
    push_plain(out, "edge_lb_host_memory_available_bytes", mem.available_bytes, MetricKind::Gauge);
    push_plain(out, "edge_lb_host_memory_used_bytes", memory_used(mem), MetricKind::Gauge);
    assert(sample_views(out@) =~= before + memory_samples(mem));
}

/// Whether the datapath is there, and what it can hold.
pub open spec fn datapath_samples(gateway: &GatewayState) -> Seq<SampleView> {
    seq![
        plain("edge_lb_gateway_dscp_attached"@, flag_value(gateway.dscp_attached), MetricKind::Gauge),
        plain("edge_lb_gateway_native_datapath_attached"@, flag_value(gateway.native_attached), MetricKind::Gauge),
        plain("edge_lb_gateway_native_flow_map_capacity"@, gateway.flow_map_capacity, MetricKind::Gauge),
        plain("edge_lb_gateway_native_flow_pair_capacity"@, gateway.flow_pair_capacity, MetricKind::Gauge),
    ]
}

fn push_datapath(out: &mut Vec<Sample>, gateway: &GatewayState)
    ensures
        sample_views(final(out)@) == sample_views(old(out)@) + datapath_samples(gateway),
{
    let ghost before = sample_views(out@);
    push_plain(out, "edge_lb_gateway_dscp_attached", bool_value(gateway.dscp_attached), MetricKind::Gauge);
    push_plain(out, "edge_lb_gateway_native_datapath_attached", bool_value(gateway.native_attached), MetricKind::Gauge);
    push_plain(out, "edge_lb_gateway_native_flow_map_capacity", gateway.flow_map_capacity, MetricKind::Gauge);
    push_plain(out, "edge_lb_gateway_native_flow_pair_capacity", gateway.flow_pair_capacity, MetricKind::Gauge);
    assert(sample_views(out@) =~= before + datapath_samples(gateway));
}

/// What the marking of packets counted.
pub open spec fn dscp_samples(stats: DscpStats) -> Seq<SampleView> {
    seq![
        plain("edge_lb_gateway_dscp_packets_matched_total"@, stats.matched, MetricKind::Counter),
        plain("edge_lb_gateway_dscp_packets_changed_total"@, stats.changed, MetricKind::Counter),
    ]
}

fn push_dscp(out: &mut Vec<Sample>, stats: DscpStats)
    ensures
        sample_views(final(out)@) == sample_views(old(out)@) + dscp_samples(stats),
{
    let ghost before = sample_views(out@);
    push_plain(out, "edge_lb_gateway_dscp_packets_matched_total", stats.matched, MetricKind::Counter);
    push_plain(out, "edge_lb_gateway_dscp_packets_changed_total", stats.changed, MetricKind::Counter);
    assert(sample_views(out@) =~= before + dscp_samples(stats));
}

/// What the datapath counted.
pub open spec fn native_samples(stats: NativeDatapathStats) -> Seq<SampleView> {
    seq![
        plain("edge_lb_gateway_native_listener_hit_total"@, stats.listener_hit, MetricKind::Counter),
        plain("edge_lb_gateway_native_listener_miss_total"@, stats.listener_miss, MetricKind::Counter),
        plain("edge_lb_gateway_native_target_miss_total"@, stats.target_miss, MetricKind::Counter),
        plain("edge_lb_gateway_native_return_miss_total"@, stats.return_miss, MetricKind::Counter),
        plain("edge_lb_gateway_native_rewritten_total"@, stats.rewritten, MetricKind::Counter),
        plain("edge_lb_gateway_native_checksum_error_total"@, stats.checksum_error, MetricKind::Counter),
        plain("edge_lb_gateway_native_consistent_hash_bucket_hit_total"@, stats.chash_bucket_hit, MetricKind::Counter),
        plain("edge_lb_gateway_native_consistent_hash_bucket_miss_total"@, stats.chash_bucket_miss, MetricKind::Counter),
        plain("edge_lb_gateway_native_consistent_hash_bucket_unusable_total"@, stats.chash_bucket_unusable, MetricKind::Counter),
        plain("edge_lb_gateway_native_consistent_hash_fallback_total"@, stats.chash_fallback, MetricKind::Counter),
        plain("edge_lb_gateway_native_flow_event_lost_total"@, stats.flow_event_lost, MetricKind::Counter),
    ]
}

fn push_native(out: &mut Vec<Sample>, stats: NativeDatapathStats)
    ensures
        sample_views(final(out)@) == sample_views(old(out)@) + native_samples(stats),
{
    let ghost before = sample_views(out@);
    push_plain(out, "edge_lb_gateway_native_listener_hit_total", stats.listener_hit, MetricKind::Counter);
    push_plain(out, "edge_lb_gateway_native_listener_miss_total", stats.listener_miss, MetricKind::Counter);
    push_plain(out, "edge_lb_gateway_native_target_miss_total", stats.target_miss, MetricKind::Counter);
    push_plain(out, "edge_lb_gateway_native_return_miss_total", stats.return_miss, MetricKind::Counter);
    push_plain(out, "edge_lb_gateway_native_rewritten_total", stats.rewritten, MetricKind::Counter);
    push_plain(out, "edge_lb_gateway_native_checksum_error_total", stats.checksum_error, MetricKind::Counter);
    push_plain(out, "edge_lb_gateway_native_consistent_hash_bucket_hit_total", stats.chash_bucket_hit, MetricKind::Counter);
    push_plain(out, "edge_lb_gateway_native_consistent_hash_bucket_miss_total", stats.chash_bucket_miss, MetricKind::Counter);
    push_plain(out, "edge_lb_gateway_native_consistent_hash_bucket_unusable_total", stats.chash_bucket_unusable, MetricKind::Counter);
    push_plain(out, "edge_lb_gateway_native_consistent_hash_fallback_total", stats.chash_fallback, MetricKind::Counter);
    push_plain(out, "edge_lb_gateway_native_flow_event_lost_total", stats.flow_event_lost, MetricKind::Counter);
    assert(sample_views(out@) =~= before + native_samples(stats));
}

/// What the redirect counted.
pub open spec fn redirect_counters(stats: NativeRedirectStats) -> Seq<SampleView> {
    seq![
        plain("edge_lb_gateway_native_redirect_submitted_total"@, stats.submitted, MetricKind::Counter),
        plain("edge_lb_gateway_native_redirect_mutation_error_total"@, stats.mutation_error, MetricKind::Counter),
        labelled("edge_lb_gateway_native_redirect_fallback_total"@, "reason"@, "route_miss"@, stats.route_miss, Some(MetricKind::Counter)),
        labelled("edge_lb_gateway_native_redirect_fallback_total"@, "reason"@, "route_invalid"@, stats.route_invalid, None),
        labelled("edge_lb_gateway_native_redirect_fallback_total"@, "reason"@, "expired"@, stats.expired, None),
        labelled("edge_lb_gateway_native_redirect_fallback_total"@, "reason"@, "target_changed"@, stats.target_changed, None),
        labelled("edge_lb_gateway_native_redirect_fallback_total"@, "reason"@, "ttl"@, stats.ttl, None),
        labelled("edge_lb_gateway_native_redirect_fallback_total"@, "reason"@, "mtu"@, stats.mtu, None),
        labelled("edge_lb_gateway_native_redirect_fallback_total"@, "reason"@, "unsupported"@, stats.unsupported, None),
    ]
}

fn push_redirect_counters(out: &mut Vec<Sample>, stats: NativeRedirectStats)
    ensures
        sample_views(final(out)@) == sample_views(old(out)@) + redirect_counters(stats),
{
    let ghost before = sample_views(out@);
    push_plain(out, "edge_lb_gateway_native_redirect_submitted_total", stats.submitted, MetricKind::Counter);
    push_plain(out, "edge_lb_gateway_native_redirect_mutation_error_total", stats.mutation_error, MetricKind::Counter);
    push_labelled(out, "edge_lb_gateway_native_redirect_fallback_total", "reason", "route_miss", stats.route_miss, Some(MetricKind::Counter));
    push_labelled(out, "edge_lb_gateway_native_redirect_fallback_total", "reason", "route_invalid", stats.route_invalid, None);
    push_labelled(out, "edge_lb_gateway_native_redirect_fallback_total", "reason", "expired", stats.expired, None);
    push_labelled(out, "edge_lb_gateway_native_redirect_fallback_total", "reason", "target_changed", stats.target_changed, None);
    push_labelled(out, "edge_lb_gateway_native_redirect_fallback_total", "reason", "ttl", stats.ttl, None);
    push_labelled(out, "edge_lb_gateway_native_redirect_fallback_total", "reason", "mtu", stats.mtu, None);
    push_labelled(out, "edge_lb_gateway_native_redirect_fallback_total", "reason", "unsupported", stats.unsupported, None);
    assert(sample_views(out@) =~= before + redirect_counters(stats));
}

/// What the redirect of replies counted.
pub open spec fn return_counters(stats: ReturnRedirectStats) -> Seq<SampleView> {
    seq![
        plain("edge_lb_gateway_native_return_redirect_submitted_total"@, stats.submitted, MetricKind::Counter),
        plain("edge_lb_gateway_native_return_redirect_mutation_error_total"@, stats.mutation_error, MetricKind::Counter),
        labelled("edge_lb_gateway_native_return_redirect_fallback_total"@, "reason"@, "policy"@, stats.policy, Some(MetricKind::Counter)),
        labelled("edge_lb_gateway_native_return_redirect_fallback_total"@, "reason"@, "expired"@, stats.expired, None),
        labelled("edge_lb_gateway_native_return_redirect_fallback_total"@, "reason"@, "route"@, stats.route, None),
        labelled("edge_lb_gateway_native_return_redirect_fallback_total"@, "reason"@, "neighbor"@, stats.neighbor, None),
        labelled("edge_lb_gateway_native_return_redirect_fallback_total"@, "reason"@, "ttl"@, stats.ttl, None),
        labelled("edge_lb_gateway_native_return_redirect_fallback_total"@, "reason"@, "mtu"@, stats.mtu, None),
        labelled("edge_lb_gateway_native_return_redirect_fallback_total"@, "reason"@, "unsupported"@, stats.unsupported, None),
    ]
}

fn push_return_counters(out: &mut Vec<Sample>, stats: ReturnRedirectStats)
    ensures
        sample_views(final(out)@) == sample_views(old(out)@) + return_counters(stats),
{
    let ghost before = sample_views(out@);
    push_plain(out, "edge_lb_gateway_native_return_redirect_submitted_total", stats.submitted, MetricKind::Counter);
    push_plain(out, "edge_lb_gateway_native_return_redirect_mutation_error_total", stats.mutation_error, MetricKind::Counter);
    push_labelled(out, "edge_lb_gateway_native_return_redirect_fallback_total", "reason", "policy", stats.policy, Some(MetricKind::Counter));
    push_labelled(out, "edge_lb_gateway_native_return_redirect_fallback_total", "reason", "expired", stats.expired, None);
    push_labelled(out, "edge_lb_gateway_native_return_redirect_fallback_total", "reason", "route", stats.route, None);
    push_labelled(out, "edge_lb_gateway_native_return_redirect_fallback_total", "reason", "neighbor", stats.neighbor, None);
    push_labelled(out, "edge_lb_gateway_native_return_redirect_fallback_total", "reason", "ttl", stats.ttl, None);
    push_labelled(out, "edge_lb_gateway_native_return_redirect_fallback_total", "reason", "mtu", stats.mtu, None);
    push_labelled(out, "edge_lb_gateway_native_return_redirect_fallback_total", "reason", "unsupported", stats.unsupported, None);
    assert(sample_views(out@) =~= before + return_counters(stats));
}

/// How flows were saved and restored.
pub open spec fn flow_samples(status: &FlowPersistenceStatus) -> Seq<SampleView> {
    seq![
        plain("edge_lb_gateway_native_flow_persistence_enabled"@, flag_value(status.enabled), MetricKind::Gauge),
        plain("edge_lb_gateway_native_flow_snapshot_records"@, status.snapshot_records as u64, MetricKind::Gauge),
        plain("edge_lb_gateway_native_flow_snapshot_bytes"@, status.snapshot_bytes, MetricKind::Gauge),
        written("edge_lb_gateway_native_flow_snapshot_duration_seconds"@, seconds(status.snapshot_duration_ms), MetricKind::Gauge),
        plain("edge_lb_gateway_native_flow_snapshot_errors_total"@, status.snapshot_errors_total, MetricKind::Counter),
        plain("edge_lb_gateway_native_flow_restore_records_total"@, status.restore_records_total, MetricKind::Counter),
        labelled("edge_lb_gateway_native_flow_restore_skipped_total"@, "reason"@, "expired"@, status.restore_skipped_expired_total, Some(MetricKind::Counter)),
        labelled("edge_lb_gateway_native_flow_restore_skipped_total"@, "reason"@, "config"@, status.restore_skipped_config_total, None),
        labelled("edge_lb_gateway_native_flow_restore_skipped_total"@, "reason"@, "incomplete"@, status.restore_skipped_incomplete_total, None),
        written("edge_lb_gateway_native_flow_restore_duration_seconds"@, seconds(status.restore_duration_ms), MetricKind::Gauge),
        plain("edge_lb_gateway_native_flow_restore_errors_total"@, status.restore_errors_total, MetricKind::Counter),
    ]
}

fn push_flow(out: &mut Vec<Sample>, status: &FlowPersistenceStatus)
    ensures
        sample_views(final(out)@) == sample_views(old(out)@) + flow_samples(status),
{
    let ghost before = sample_views(out@);
    push_plain(out, "edge_lb_gateway_native_flow_persistence_enabled", bool_value(status.enabled), MetricKind::Gauge);
    push_plain(out, "edge_lb_gateway_native_flow_snapshot_records", status.snapshot_records as u64, MetricKind::Gauge);
    push_plain(out, "edge_lb_gateway_native_flow_snapshot_bytes", status.snapshot_bytes, MetricKind::Gauge);
    push_written(out, "edge_lb_gateway_native_flow_snapshot_duration_seconds", seconds_text(status.snapshot_duration_ms), MetricKind::Gauge);
    push_plain(out, "edge_lb_gateway_native_flow_snapshot_errors_total", status.snapshot_errors_total, MetricKind::Counter);
    push_plain(out, "edge_lb_gateway_native_flow_restore_records_total", status.restore_records_total, MetricKind::Counter);
    push_labelled(out, "edge_lb_gateway_native_flow_restore_skipped_total", "reason", "expired", status.restore_skipped_expired_total, Some(MetricKind::Counter));
    push_labelled(out, "edge_lb_gateway_native_flow_restore_skipped_total", "reason", "config", status.restore_skipped_config_total, None);
    push_labelled(out, "edge_lb_gateway_native_flow_restore_skipped_total", "reason", "incomplete", status.restore_skipped_incomplete_total, None);
    push_written(out, "edge_lb_gateway_native_flow_restore_duration_seconds", seconds_text(status.restore_duration_ms), MetricKind::Gauge);
    push_plain(out, "edge_lb_gateway_native_flow_restore_errors_total", status.restore_errors_total, MetricKind::Counter);
    assert(sample_views(out@) =~= before + flow_samples(status));
}

/// What a process shows.
pub open spec fn process_samples(host: HostFigures) -> Seq<SampleView> {
    optional("edge_lb_process_cpu_seconds_total"@, host.cpu_seconds, MetricKind::Counter)
        + optional(
        "edge_lb_process_start_time_seconds"@,
        host.start_time_seconds,
        MetricKind::Gauge,
    ) + (match host.status {
        Some(status) => status_samples(status),
        None => Seq::empty(),
    })
}

fn render_process_metrics(out: &mut Vec<Sample>, host: &HostFigures)
    ensures
        sample_views(final(out)@) == sample_views(old(out)@) + process_samples(*host),
{
    let ghost before = sample_views(out@);
    push_optional(
        out,
        "edge_lb_process_cpu_seconds_total",
        &host.cpu_seconds,
        MetricKind::Counter,
    );
    push_optional(
        out,
        "edge_lb_process_start_time_seconds",
        &host.start_time_seconds,
        MetricKind::Gauge,
    );
    if let Some(status) = host.status {
        push_status(out, status);
    }
    assert(sample_views(out@) =~= before + process_samples(*host));
}

/// What a host shows.
pub open spec fn host_samples(host: HostFigures) -> Seq<SampleView> {
    (match host.cpu_cores {
        Some(cores) => seq![plain("edge_lb_host_cpu_cores"@, cores, MetricKind::Gauge)],
        None => Seq::empty(),
    }) + (match host.memory {
        Some(mem) => memory_samples(mem),
        None => Seq::empty(),
    }) + optional("edge_lb_host_load1"@, host.load1, MetricKind::Gauge) + optional(
        "edge_lb_host_load5"@,
        host.load5,
        MetricKind::Gauge,
    ) + optional("edge_lb_host_load15"@, host.load15, MetricKind::Gauge)
}

fn render_host_metrics(out: &mut Vec<Sample>, host: &HostFigures)
    ensures
        sample_views(final(out)@) == sample_views(old(out)@) + host_samples(*host),
{
    let ghost before = sample_views(out@);
    if let Some(cores) = host.cpu_cores {
        push_plain(out, "edge_lb_host_cpu_cores", cores, MetricKind::Gauge);
    }
    if let Some(mem) = host.memory {
        push_memory(out, mem);
    }
    push_optional(out, "edge_lb_host_load1", &host.load1, MetricKind::Gauge);
    push_optional(out, "edge_lb_host_load5", &host.load5, MetricKind::Gauge);
    push_optional(out, "edge_lb_host_load15", &host.load15, MetricKind::Gauge);
    assert(sample_views(out@) =~= before + host_samples(*host));
}

/// The redirect: whether its counters could be read, and the counters.
pub open spec fn redirect_samples(stats: Option<NativeRedirectStats>) -> Seq<SampleView> {
    seq![
        plain(
            "edge_lb_gateway_native_redirect_stats_available"@,
            flag_value(stats is Some),
            MetricKind::Gauge,
        ),
    ] + (match stats {
        Some(stats) => redirect_counters(stats),
        None => Seq::empty(),
    })
}

fn push_redirect(out: &mut Vec<Sample>, stats: Option<NativeRedirectStats>)
    ensures
        sample_views(final(out)@) == sample_views(old(out)@) + redirect_samples(stats),
{
    let ghost before = sample_views(out@);
    push_plain(
        out,
        "edge_lb_gateway_native_redirect_stats_available",
        bool_value(stats.is_some()),
        MetricKind::Gauge,
    );
    if let Some(stats) = stats {
        push_redirect_counters(out, stats);
    }
    assert(sample_views(out@) =~= before + redirect_samples(stats));
}

/// The redirect of replies: whether its counters could be read, and the counters.
pub open spec fn return_samples(stats: Option<ReturnRedirectStats>) -> Seq<SampleView> {
    seq![
        plain(
            "edge_lb_gateway_native_return_redirect_stats_available"@,
            flag_value(stats is Some),
            MetricKind::Gauge,
        ),
    ] + (match stats {
        Some(stats) => return_counters(stats),
        None => Seq::empty(),
    })
}

fn push_return(out: &mut Vec<Sample>, stats: Option<ReturnRedirectStats>)
    ensures
        sample_views(final(out)@) == sample_views(old(out)@) + return_samples(stats),
{
    let ghost before = sample_views(out@);
    push_plain(
        out,
        "edge_lb_gateway_native_return_redirect_stats_available",
        bool_value(stats.is_some()),
        MetricKind::Gauge,
    );
    if let Some(stats) = stats {
        push_return_counters(out, stats);
    }
    assert(sample_views(out@) =~= before + return_samples(stats));
}

/// The bucket table of a listener.
pub open spec fn digest_sample(digest: BucketDigest) -> SampleView {
    SampleView {
        name: "edge_lb_gateway_native_consistent_hash_bucket_table_info"@,
        labels: seq![
            ("listener"@, digest.listener_name@),
            ("listener_id"@, decimal(digest.listener_id as nat)),
            ("vip"@, digest.vip@),
            ("port"@, decimal(digest.port as nat)),
            ("protocol"@, digest.protocol@),
            ("bucket_count"@, decimal(digest.bucket_count as nat)),
            ("digest"@, digest.digest@),
        ],
        value: decimal(1),
        kind: Some(MetricKind::Gauge),
    }
}

/// The bucket tables of listeners.
pub open spec fn digest_samples(digests: Seq<BucketDigest>) -> Seq<SampleView> {
    digests.map_values(|digest: BucketDigest| digest_sample(digest))
}

fn push_digest(out: &mut Vec<Sample>, digest: &BucketDigest)
    ensures
        sample_views(final(out)@) == sample_views(old(out)@).push(digest_sample(*digest)),
{
    let id = decimal_text(digest.listener_id);
    let port = decimal_text(digest.port as u64);
    let count = decimal_text(digest.bucket_count);
    let mut labels: Vec<Label> = Vec::new();
    labels.push(label("listener", digest.listener_name.as_str()));
    labels.push(label("listener_id", id.as_str()));
    labels.push(label("vip", digest.vip.as_str()));
    labels.push(label("port", port.as_str()));
    labels.push(label("protocol", digest.protocol.as_str()));
    labels.push(label("bucket_count", count.as_str()));
    labels.push(label("digest", digest.digest.as_str()));
    assert(crate::metrics::sample::label_views(labels@) =~= digest_sample(*digest).labels);
    push_info(out, "edge_lb_gateway_native_consistent_hash_bucket_table_info", labels);
}

fn push_digests(out: &mut Vec<Sample>, digests: &[BucketDigest])
    ensures
        sample_views(final(out)@) == sample_views(old(out)@) + digest_samples(digests@),
{
    let ghost before = sample_views(out@);
    let mut i: usize = 0;
    assert(sample_views(out@) =~= before + digest_samples(digests@.take(0)));
    while i < digests.len()
        invariant
            i <= digests.len(),
            sample_views(out@) == before + digest_samples(digests@.take(i as int)),
        decreases digests.len() - i,
    {
        push_digest(out, &digests[i]);
        assert(sample_views(out@) =~= before + digest_samples(digests@.take(i + 1)));
        i += 1;
    }
    assert(digests@.take(digests@.len() as int) =~= digests@);
}

/// What a gateway shows beyond what every node does.
pub open spec fn gateway_only(gateway: GatewayState) -> Seq<SampleView> {
    datapath_samples(&gateway) + (match gateway.dscp {
        Some(stats) => dscp_samples(stats),
        None => Seq::empty(),
    }) + (match gateway.native {
        Some(stats) => native_samples(stats),
        None => Seq::empty(),
    }) + redirect_samples(gateway.redirect) + return_samples(gateway.return_redirect) + (
    match gateway.digests {
        Some(digests) => digest_samples(digests@),
        None => Seq::empty(),
    }) + flow_samples(&gateway.flows)
}

fn push_gateway(out: &mut Vec<Sample>, gateway: &GatewayState)
    ensures
        sample_views(final(out)@) == sample_views(old(out)@) + gateway_only(*gateway),
{
    let ghost before = sample_views(out@);
    push_datapath(out, gateway);
    if let Some(stats) = gateway.dscp {
        push_dscp(out, stats);
    }
    if let Some(stats) = gateway.native {
        push_native(out, stats);
    }
    push_redirect(out, gateway.redirect);
    push_return(out, gateway.return_redirect);
    if let Some(digests) = &gateway.digests {
        push_digests(out, digests.as_slice());
    }
    push_flow(out, &gateway.flows);
    assert(sample_views(out@) =~= before + gateway_only(*gateway));
}

/// All figures of a node. `gateway` is `None` on a backend.
pub open spec fn node_samples(
    node: NodeIdentity,
    host: HostFigures,
    gateway: Option<GatewayState>,
) -> Seq<SampleView> {
    identity_samples(node) + process_samples(host) + host_samples(host) + (match gateway {
        Some(gateway) => gateway_only(gateway),
        None => Seq::empty(),
    })
}

/// All figures of a node, as text.
pub fn render_gateway(
    node: &NodeIdentity,
    host: &HostFigures,
    gateway: &Option<GatewayState>,
) -> (text: String)
    ensures
        text@ == samples_text(node_samples(*node, *host, *gateway)),
{
    let mut out: Vec<Sample> = Vec::new();
    push_identity(&mut out, node);
    render_process_metrics(&mut out, host);
    render_host_metrics(&mut out, host);
    if let Some(gateway) = gateway {
        push_gateway(&mut out, gateway);
    }
    assert(sample_views(out@) =~= node_samples(*node, *host, *gateway));
    render_samples(out.as_slice())
}

/// The figures of the redirect, as text.
pub fn render_redirect_metrics(stats: Option<NativeRedirectStats>) -> (text: String)
    ensures
        text@ == samples_text(redirect_samples(stats)),
{
    let mut out: Vec<Sample> = Vec::new();
    push_redirect(&mut out, stats);
    assert(sample_views(out@) =~= redirect_samples(stats));
    render_samples(out.as_slice())
}

/// The figures of the redirect of replies, as text.
pub fn render_return_redirect_metrics(stats: Option<ReturnRedirectStats>) -> (text: String)
    ensures
        text@ == samples_text(return_samples(stats)),
{
    let mut out: Vec<Sample> = Vec::new();
    push_return(&mut out, stats);
    assert(sample_views(out@) =~= return_samples(stats));
    render_samples(out.as_slice())
}

/// The figures of saved flows, as text.
pub fn render_flow_persistence_metrics(status: &FlowPersistenceStatus) -> (text: String)
    ensures
        text@ == samples_text(flow_samples(status)),
{
    let mut out: Vec<Sample> = Vec::new();
    push_flow(&mut out, status);
    assert(sample_views(out@) =~= flow_samples(status));
    render_samples(out.as_slice())
}

// ---------------------------------------------------------------------------
// Laws
// ---------------------------------------------------------------------------

/// Counters that could not be read are not made up: all that is shown is that they
/// are not there.
pub proof fn law_missing_counters_stay_out()
    ensures
        redirect_samples(None) == seq![
            plain("edge_lb_gateway_native_redirect_stats_available"@, 0, MetricKind::Gauge),
        ],
        return_samples(None) == seq![
            plain("edge_lb_gateway_native_return_redirect_stats_available"@, 0, MetricKind::Gauge),
        ],
{
    assert(redirect_samples(None) =~= seq![
        plain("edge_lb_gateway_native_redirect_stats_available"@, 0, MetricKind::Gauge),
    ]);
    assert(return_samples(None) =~= seq![
        plain("edge_lb_gateway_native_return_redirect_stats_available"@, 0, MetricKind::Gauge),
    ]);
}

/// Of the figures of one redirect under a common name, the first alone declares the
/// kind of the name.
pub proof fn law_kind_is_declared_once(stats: NativeRedirectStats, replies: ReturnRedirectStats)
    ensures
        forall|i: int, j: int|
            #![trigger redirect_counters(stats)[i], redirect_counters(stats)[j]]
            0 <= i < j < redirect_counters(stats).len() && redirect_counters(stats)[i].name
                == redirect_counters(stats)[j].name ==> redirect_counters(stats)[j].kind is None,
        forall|i: int, j: int|
            #![trigger return_counters(replies)[i], return_counters(replies)[j]]
            0 <= i < j < return_counters(replies).len() && return_counters(replies)[i].name
                == return_counters(replies)[j].name ==> return_counters(replies)[j].kind is None,
{
    reveal_strlit("edge_lb_gateway_native_redirect_submitted_total");
    reveal_strlit("edge_lb_gateway_native_redirect_mutation_error_total");
    reveal_strlit("edge_lb_gateway_native_redirect_fallback_total");
    reveal_strlit("edge_lb_gateway_native_return_redirect_submitted_total");
    reveal_strlit("edge_lb_gateway_native_return_redirect_mutation_error_total");
    reveal_strlit("edge_lb_gateway_native_return_redirect_fallback_total");
    assert("edge_lb_gateway_native_redirect_submitted_total"@.len()
        != "edge_lb_gateway_native_redirect_mutation_error_total"@.len());
    assert("edge_lb_gateway_native_redirect_submitted_total"@.len()
        != "edge_lb_gateway_native_redirect_fallback_total"@.len());
    assert("edge_lb_gateway_native_redirect_mutation_error_total"@.len()
        != "edge_lb_gateway_native_redirect_fallback_total"@.len());
    assert("edge_lb_gateway_native_return_redirect_submitted_total"@.len()
        != "edge_lb_gateway_native_return_redirect_mutation_error_total"@.len());
    assert("edge_lb_gateway_native_return_redirect_submitted_total"@.len()
        != "edge_lb_gateway_native_return_redirect_fallback_total"@.len());
    assert("edge_lb_gateway_native_return_redirect_mutation_error_total"@.len()
        != "edge_lb_gateway_native_return_redirect_fallback_total"@.len());
}

/// What a process takes is shown under the name of each figure.
pub proof fn law_process_figures_are_shown(status: ProcessStatus)
    ensures
        ({
            let shown = status_samples(status);
            &&& shown.len() == 3
            &&& shown[0].name == "edge_lb_process_memory_rss_bytes"@ && shown[0].labels.len() == 0
            &&& shown[0].value == decimal(status.rss_bytes as nat)
            &&& shown[0].kind == Some(MetricKind::Gauge)
            &&& shown[1].name == "edge_lb_process_memory_virtual_bytes"@ && shown[1].labels.len() == 0
            &&& shown[1].value == decimal(status.virtual_bytes as nat)
            &&& shown[1].kind == Some(MetricKind::Gauge)
            &&& shown[2].name == "edge_lb_process_threads"@ && shown[2].labels.len() == 0
            &&& shown[2].value == decimal(status.threads as nat)
            &&& shown[2].kind == Some(MetricKind::Gauge)
        }),
{
}

/// Whether the datapath is there and what it can hold is shown under the name of each figure.
pub proof fn law_datapath_figures_are_shown(gateway: GatewayState)
    ensures
        ({
            let shown = datapath_samples(&gateway);
            &&& shown.len() == 4
            &&& shown[0].name == "edge_lb_gateway_dscp_attached"@ && shown[0].labels.len() == 0
            &&& gateway.dscp_attached ==> shown[0].value == decimal(1)
            &&& !gateway.dscp_attached ==> shown[0].value == decimal(0)
            &&& shown[0].kind == Some(MetricKind::Gauge)
            &&& shown[1].name == "edge_lb_gateway_native_datapath_attached"@ && shown[1].labels.len() == 0
            &&& gateway.native_attached ==> shown[1].value == decimal(1)
            &&& !gateway.native_attached ==> shown[1].value == decimal(0)
            &&& shown[1].kind == Some(MetricKind::Gauge)
            &&& shown[2].name == "edge_lb_gateway_native_flow_map_capacity"@ && shown[2].labels.len() == 0
            &&& shown[2].value == decimal(gateway.flow_map_capacity as nat)
            &&& shown[2].kind == Some(MetricKind::Gauge)
            &&& shown[3].name == "edge_lb_gateway_native_flow_pair_capacity"@ && shown[3].labels.len() == 0
            &&& shown[3].value == decimal(gateway.flow_pair_capacity as nat)
            &&& shown[3].kind == Some(MetricKind::Gauge)
        }),
{
}

/// What the marking of packets counted is shown under the name of each counter.
pub proof fn law_marker_counters_are_shown(stats: DscpStats)
    ensures
        ({
            let shown = dscp_samples(stats);
            &&& shown.len() == 2
            &&& shown[0].name == "edge_lb_gateway_dscp_packets_matched_total"@ && shown[0].labels.len() == 0
            &&& shown[0].value == decimal(stats.matched as nat)
            &&& shown[0].kind == Some(MetricKind::Counter)
            &&& shown[1].name == "edge_lb_gateway_dscp_packets_changed_total"@ && shown[1].labels.len() == 0
            &&& shown[1].value == decimal(stats.changed as nat)
            &&& shown[1].kind == Some(MetricKind::Counter)
        }),
{
}

/// What the datapath counted is shown under the name of each counter.
pub proof fn law_datapath_counters_are_shown(stats: NativeDatapathStats)
    ensures
        ({
            let shown = native_samples(stats);
            &&& shown.len() == 11
            &&& shown[0].name == "edge_lb_gateway_native_listener_hit_total"@ && shown[0].labels.len() == 0
            &&& shown[0].value == decimal(stats.listener_hit as nat)
            &&& shown[0].kind == Some(MetricKind::Counter)
            &&& shown[1].name == "edge_lb_gateway_native_listener_miss_total"@ && shown[1].labels.len() == 0
            &&& shown[1].value == decimal(stats.listener_miss as nat)
            &&& shown[1].kind == Some(MetricKind::Counter)
            &&& shown[2].name == "edge_lb_gateway_native_target_miss_total"@ && shown[2].labels.len() == 0
            &&& shown[2].value == decimal(stats.target_miss as nat)
            &&& shown[2].kind == Some(MetricKind::Counter)
            &&& shown[3].name == "edge_lb_gateway_native_return_miss_total"@ && shown[3].labels.len() == 0
            &&& shown[3].value == decimal(stats.return_miss as nat)
            &&& shown[3].kind == Some(MetricKind::Counter)
            &&& shown[4].name == "edge_lb_gateway_native_rewritten_total"@ && shown[4].labels.len() == 0
            &&& shown[4].value == decimal(stats.rewritten as nat)
            &&& shown[4].kind == Some(MetricKind::Counter)
            &&& shown[5].name == "edge_lb_gateway_native_checksum_error_total"@ && shown[5].labels.len() == 0
            &&& shown[5].value == decimal(stats.checksum_error as nat)
            &&& shown[5].kind == Some(MetricKind::Counter)
            &&& shown[6].name == "edge_lb_gateway_native_consistent_hash_bucket_hit_total"@ && shown[6].labels.len() == 0
            &&& shown[6].value == decimal(stats.chash_bucket_hit as nat)
            &&& shown[6].kind == Some(MetricKind::Counter)
            &&& shown[7].name == "edge_lb_gateway_native_consistent_hash_bucket_miss_total"@ && shown[7].labels.len() == 0
            &&& shown[7].value == decimal(stats.chash_bucket_miss as nat)
            &&& shown[7].kind == Some(MetricKind::Counter)
            &&& shown[8].name == "edge_lb_gateway_native_consistent_hash_bucket_unusable_total"@ && shown[8].labels.len() == 0
            &&& shown[8].value == decimal(stats.chash_bucket_unusable as nat)
            &&& shown[8].kind == Some(MetricKind::Counter)
            &&& shown[9].name == "edge_lb_gateway_native_consistent_hash_fallback_total"@ && shown[9].labels.len() == 0
            &&& shown[9].value == decimal(stats.chash_fallback as nat)
            &&& shown[9].kind == Some(MetricKind::Counter)
            &&& shown[10].name == "edge_lb_gateway_native_flow_event_lost_total"@ && shown[10].labels.len() == 0
            &&& shown[10].value == decimal(stats.flow_event_lost as nat)
            &&& shown[10].kind == Some(MetricKind::Counter)
        }),
{
}

/// What the redirect counted is shown under the name of each counter, with its reason.
pub proof fn law_redirect_counters_are_shown(stats: NativeRedirectStats)
    ensures
        ({
            let shown = redirect_counters(stats);
            &&& shown.len() == 9
            &&& shown[0].name == "edge_lb_gateway_native_redirect_submitted_total"@ && shown[0].labels.len() == 0
            &&& shown[0].value == decimal(stats.submitted as nat)
            &&& shown[0].kind == Some(MetricKind::Counter)
            &&& shown[1].name == "edge_lb_gateway_native_redirect_mutation_error_total"@ && shown[1].labels.len() == 0
            &&& shown[1].value == decimal(stats.mutation_error as nat)
            &&& shown[1].kind == Some(MetricKind::Counter)
            &&& shown[2].name == "edge_lb_gateway_native_redirect_fallback_total"@ && shown[2].labels == seq![
                ("reason"@, "route_miss"@),
            ]
            &&& shown[2].value == decimal(stats.route_miss as nat)
            &&& shown[3].name == "edge_lb_gateway_native_redirect_fallback_total"@ && shown[3].labels == seq![
                ("reason"@, "route_invalid"@),
            ]
            &&& shown[3].value == decimal(stats.route_invalid as nat)
            &&& shown[4].name == "edge_lb_gateway_native_redirect_fallback_total"@ && shown[4].labels == seq![
                ("reason"@, "expired"@),
            ]
            &&& shown[4].value == decimal(stats.expired as nat)
            &&& shown[5].name == "edge_lb_gateway_native_redirect_fallback_total"@ && shown[5].labels == seq![
                ("reason"@, "target_changed"@),
            ]
            &&& shown[5].value == decimal(stats.target_changed as nat)
            &&& shown[6].name == "edge_lb_gateway_native_redirect_fallback_total"@ && shown[6].labels == seq![
                ("reason"@, "ttl"@),
            ]
            &&& shown[6].value == decimal(stats.ttl as nat)
            &&& shown[7].name == "edge_lb_gateway_native_redirect_fallback_total"@ && shown[7].labels == seq![
                ("reason"@, "mtu"@),
            ]
            &&& shown[7].value == decimal(stats.mtu as nat)
            &&& shown[8].name == "edge_lb_gateway_native_redirect_fallback_total"@ && shown[8].labels == seq![
                ("reason"@, "unsupported"@),
            ]
            &&& shown[8].value == decimal(stats.unsupported as nat)
        }),
{
}

/// What the redirect of replies counted is shown under the name of each counter, with its
/// reason.
pub proof fn law_return_counters_are_shown(stats: ReturnRedirectStats)
    ensures
        ({
            let shown = return_counters(stats);
            &&& shown.len() == 9
            &&& shown[0].name == "edge_lb_gateway_native_return_redirect_submitted_total"@ && shown[0].labels.len() == 0
            &&& shown[0].value == decimal(stats.submitted as nat)
            &&& shown[0].kind == Some(MetricKind::Counter)
            &&& shown[1].name == "edge_lb_gateway_native_return_redirect_mutation_error_total"@ && shown[1].labels.len() == 0
            &&& shown[1].value == decimal(stats.mutation_error as nat)
            &&& shown[1].kind == Some(MetricKind::Counter)
            &&& shown[2].name == "edge_lb_gateway_native_return_redirect_fallback_total"@ && shown[2].labels == seq![
                ("reason"@, "policy"@),
            ]
            &&& shown[2].value == decimal(stats.policy as nat)
            &&& shown[3].name == "edge_lb_gateway_native_return_redirect_fallback_total"@ && shown[3].labels == seq![
                ("reason"@, "expired"@),
            ]
            &&& shown[3].value == decimal(stats.expired as nat)
            &&& shown[4].name == "edge_lb_gateway_native_return_redirect_fallback_total"@ && shown[4].labels == seq![
                ("reason"@, "route"@),
            ]
            &&& shown[4].value == decimal(stats.route as nat)
            &&& shown[5].name == "edge_lb_gateway_native_return_redirect_fallback_total"@ && shown[5].labels == seq![
                ("reason"@, "neighbor"@),
            ]
            &&& shown[5].value == decimal(stats.neighbor as nat)
            &&& shown[6].name == "edge_lb_gateway_native_return_redirect_fallback_total"@ && shown[6].labels == seq![
                ("reason"@, "ttl"@),
            ]
            &&& shown[6].value == decimal(stats.ttl as nat)
            &&& shown[7].name == "edge_lb_gateway_native_return_redirect_fallback_total"@ && shown[7].labels == seq![
                ("reason"@, "mtu"@),
            ]
            &&& shown[7].value == decimal(stats.mtu as nat)
            &&& shown[8].name == "edge_lb_gateway_native_return_redirect_fallback_total"@ && shown[8].labels == seq![
                ("reason"@, "unsupported"@),
            ]
            &&& shown[8].value == decimal(stats.unsupported as nat)
        }),
{
}

/// How flows were saved and restored is shown under the name of each figure.
pub proof fn law_flow_figures_are_shown(status: FlowPersistenceStatus)
    ensures
        ({
            let shown = flow_samples(&status);
            &&& shown.len() == 11
            &&& shown[0].name == "edge_lb_gateway_native_flow_persistence_enabled"@ && shown[0].labels.len() == 0
            &&& status.enabled ==> shown[0].value == decimal(1)
            &&& !status.enabled ==> shown[0].value == decimal(0)
            &&& shown[0].kind == Some(MetricKind::Gauge)
            &&& shown[1].name == "edge_lb_gateway_native_flow_snapshot_records"@ && shown[1].labels.len() == 0
            &&& shown[1].value == decimal(status.snapshot_records as u64 as nat)
            &&& shown[1].kind == Some(MetricKind::Gauge)
            &&& shown[2].name == "edge_lb_gateway_native_flow_snapshot_bytes"@ && shown[2].labels.len() == 0
            &&& shown[2].value == decimal(status.snapshot_bytes as nat)
            &&& shown[2].kind == Some(MetricKind::Gauge)
            &&& shown[3].name == "edge_lb_gateway_native_flow_snapshot_duration_seconds"@ && shown[3].labels.len() == 0
            &&& shown[3].value == seconds(status.snapshot_duration_ms)
            &&& shown[4].name == "edge_lb_gateway_native_flow_snapshot_errors_total"@ && shown[4].labels.len() == 0
            &&& shown[4].value == decimal(status.snapshot_errors_total as nat)
            &&& shown[4].kind == Some(MetricKind::Counter)
            &&& shown[5].name == "edge_lb_gateway_native_flow_restore_records_total"@ && shown[5].labels.len() == 0
            &&& shown[5].value == decimal(status.restore_records_total as nat)
            &&& shown[5].kind == Some(MetricKind::Counter)
            &&& shown[6].name == "edge_lb_gateway_native_flow_restore_skipped_total"@ && shown[6].labels == seq![
                ("reason"@, "expired"@),
            ]
            &&& shown[6].value == decimal(status.restore_skipped_expired_total as nat)
            &&& shown[7].name == "edge_lb_gateway_native_flow_restore_skipped_total"@ && shown[7].labels == seq![
                ("reason"@, "config"@),
            ]
            &&& shown[7].value == decimal(status.restore_skipped_config_total as nat)
            &&& shown[8].name == "edge_lb_gateway_native_flow_restore_skipped_total"@ && shown[8].labels == seq![
                ("reason"@, "incomplete"@),
            ]
            &&& shown[8].value == decimal(status.restore_skipped_incomplete_total as nat)
            &&& shown[9].name == "edge_lb_gateway_native_flow_restore_duration_seconds"@ && shown[9].labels.len() == 0
            &&& shown[9].value == seconds(status.restore_duration_ms)
            &&& shown[10].name == "edge_lb_gateway_native_flow_restore_errors_total"@ && shown[10].labels.len() == 0
            &&& shown[10].value == decimal(status.restore_errors_total as nat)
            &&& shown[10].kind == Some(MetricKind::Counter)
        }),
{
}

/// The memory that is taken is what is not available; it is never shown below zero.
pub proof fn law_used_memory_is_the_rest(mem: MemInfo)
    ensures
        mem.available_bytes <= mem.total_bytes ==> used_bytes(mem) == mem.total_bytes
            - mem.available_bytes,
        mem.available_bytes > mem.total_bytes ==> used_bytes(mem) == 0,
        memory_samples(mem).len() == 3,
        memory_samples(mem)[0].name == "edge_lb_host_memory_total_bytes"@,
        memory_samples(mem)[0].value == decimal(mem.total_bytes as nat),
        memory_samples(mem)[1].name == "edge_lb_host_memory_available_bytes"@,
        memory_samples(mem)[1].value == decimal(mem.available_bytes as nat),
        memory_samples(mem)[2].name == "edge_lb_host_memory_used_bytes"@,
        memory_samples(mem)[2].value == decimal(used_bytes(mem) as nat),
{
}

/// Milliseconds are shown in seconds, with a digit for each of the three behind the point and
/// three zeros behind them.
pub proof fn law_milliseconds_are_shown_in_seconds(whole: nat, a: nat, b: nat, c: nat)
    requires
        a < 10,
        b < 10,
        c < 10,
        1000 * whole + 100 * a + 10 * b + c <= u64::MAX,
    ensures
        seconds((1000 * whole + 100 * a + 10 * b + c) as u64) == decimal(whole) + "."@ + decimal(a)
            + decimal(b) + decimal(c) + "000"@,
{
    reveal_strlit(".");
    reveal_strlit("000");
    let ms = (1000 * whole + 100 * a + 10 * b + c) as u64;
    assert("."@ =~= seq!['.']);
    assert("000"@ =~= seq!['0', '0', '0']);
    assert((ms / 1000) as nat == whole);
    let rest = (ms % 1000) as nat;
    assert(rest == 100 * a + 10 * b + c);
    assert(rest / 100 == a);
    assert((rest / 10) % 10 == b);
    assert(rest % 10 == c);
}

/// A node shows its role and name, its version, and its underlay device and address.
pub proof fn law_nodes_say_who_they_are(node: NodeIdentity)
    ensures
        ({
            let shown = identity_samples(node);
            &&& shown.len() == 3
            &&& shown[0].name == "edge_lb_node_info"@
            &&& shown[0].labels == seq![("role"@, "gateway"@), ("node"@, node.node_name@)]
            &&& shown[1].name == "edge_lb_build_info"@
            &&& shown[1].labels == seq![("version"@, node.version@)]
            &&& shown[2].name == "edge_lb_underlay_info"@
            &&& shown[2].labels == seq![
                ("dev"@, node.underlay_dev@),
                ("underlay"@, ip_text(node.underlay_ip)),
            ]
            &&& shown[0].value == decimal(1)
            &&& shown[1].value == decimal(1)
            &&& shown[2].value == decimal(1)
        }),
{
}

/// The bucket table of each listener is shown with its listener, its address, its size and
/// its digest.
pub proof fn law_bucket_tables_are_shown(digests: Seq<BucketDigest>, i: int)
    requires
        0 <= i < digests.len(),
    ensures
        ({
            let shown = digest_samples(digests);
            &&& shown.len() == digests.len()
            &&& shown[i].name == "edge_lb_gateway_native_consistent_hash_bucket_table_info"@
            &&& shown[i].labels.len() == 7
            &&& shown[i].labels[0] == ("listener"@, digests[i].listener_name@)
            &&& shown[i].labels[1] == ("listener_id"@, decimal(digests[i].listener_id as nat))
            &&& shown[i].labels[2] == ("vip"@, digests[i].vip@)
            &&& shown[i].labels[3] == ("port"@, decimal(digests[i].port as nat))
            &&& shown[i].labels[4] == ("protocol"@, digests[i].protocol@)
            &&& shown[i].labels[5] == ("bucket_count"@, decimal(digests[i].bucket_count as nat))
            &&& shown[i].labels[6] == ("digest"@, digests[i].digest@)
        }),
{
}

/// A gateway shows the figures of every node and its own behind them; a backend shows only
/// those of every node.
pub proof fn law_gateways_show_more(node: NodeIdentity, host: HostFigures, gateway: GatewayState)
    ensures
        node_samples(node, host, Some(gateway)) == node_samples(node, host, None) + gateway_only(
            gateway,
        ),
        node_samples(node, host, None) == identity_samples(node) + process_samples(host)
            + host_samples(host),
{
    assert(node_samples(node, host, Some(gateway)) =~= node_samples(node, host, None)
        + gateway_only(gateway));
    assert(node_samples(node, host, None) =~= identity_samples(node) + process_samples(host)
        + host_samples(host));
}

} // verus!
