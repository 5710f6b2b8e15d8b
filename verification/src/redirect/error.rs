//! Why a redirect was refused.
use vstd::prelude::*;

verus! {

#[derive(Clone, Copy, Debug, PartialEq, Eq, Structural)]
pub enum RedirectError {
    MissingIngress,
    LeaseOverflow,
    CacheCapacity,
    InvalidReturnContext,
    ReturnLeaseOverflow,
    ReturnCapacity,
    InvalidReturnOutput,
    RevisionExhausted,
    ConflictingDscp,
    IntegerRange,
    ObservationExceededLease,
    ReturnPriorityOverflow,
    ClockOverflow,
    IngressTopology,
    FibSelectors,
    RoutingRules,
    KernelPolicy,
    ForwardingDisabled,
    IngressForwardingDisabled,
    RpFilter,
    SecurityModule,
    AcceptLocal,
    ReturnOverlayMissing,
    ReturnIngressTopology,
    ReturnFib,
    ProtocolSelector,
    TcPriority,
    DuplicatePriority,
    ReturnTcSelector,
    MapIdsUnavailable,
    ForeignMap,
    ProgramDisappeared,
    EgressFilter,
    TcxProgram,
    TcxQuery,
    TcSummary,
    DuplicateSummary,
    ForeignFilters,
    SummaryMismatch,
    NonBpfFilter,
    TcChain,
    BpfOptions,
    TcAttributes,
    TcFlags,
    TcClass,
    TcAction,
    DirectAction,
    ProgramIdMissing,
    MonitorLost,
    DefaultPolicySize,
    DefaultPolicyMissing,
    ReplyAfterEnd,
    ReplyMalformed,
    ReplySequence,
    DumpInterrupted,
    ShortCompletion,
    DumpFailed,
    ShortError,
    QueryError(i32),
    UnexpectedReply,
    ReplyAlignment,
    ReplySender,
    DumpTooLarge,
    QueryTimeout,
    RouteMultiple,
    RouteUnexpected,
    RouteMissing,
    RouteQuery(i32),
    TcInterrupted,
    TcDumpFailed,
    TcQuery(i32),
    TcUnexpected,
}

/// The words for a refusal.
pub open spec fn error_text(error: RedirectError) -> Seq<char> {
    match error {
        RedirectError::MissingIngress => "missing ingress interface"@,
        RedirectError::LeaseOverflow => "route lease overflow"@,
        RedirectError::CacheCapacity => "redirect cache capacity exceeded"@,
        RedirectError::InvalidReturnContext => "invalid return lease context"@,
        RedirectError::ReturnLeaseOverflow => "return lease overflow"@,
        RedirectError::ReturnCapacity => "return lease capacity exceeded"@,
        RedirectError::InvalidReturnOutput => "invalid return output"@,
        RedirectError::RevisionExhausted => "redirect revision exhausted"@,
        RedirectError::ConflictingDscp => "listener ID has conflicting DSCP values"@,
        RedirectError::IntegerRange => "out of range integral type conversion attempted"@,
        RedirectError::ObservationExceededLease => "route observation exceeded lease"@,
        RedirectError::ReturnPriorityOverflow => "return priority overflow"@,
        RedirectError::ClockOverflow => "monotonic clock overflow"@,
        RedirectError::IngressTopology => "unsupported ingress device topology"@,
        RedirectError::FibSelectors => "source/TOS-specific FIB routes"@,
        RedirectError::RoutingRules => "nonstandard routing rules"@,
        RedirectError::KernelPolicy => "netfilter/XFRM policy present"@,
        RedirectError::ForwardingDisabled => "IPv4 forwarding disabled"@,
        RedirectError::IngressForwardingDisabled => "ingress IPv4 forwarding disabled"@,
        RedirectError::RpFilter => "rp_filter requires kernel path"@,
        RedirectError::SecurityModule => "unsupported network security module"@,
        RedirectError::AcceptLocal => "return source VIP requires accept_local on overlay"@,
        RedirectError::ReturnOverlayMissing => "return overlay missing"@,
        RedirectError::ReturnIngressTopology => "unsupported return ingress topology"@,
        RedirectError::ReturnFib => "unsupported return FIB context"@,
        RedirectError::ProtocolSelector => "TC protocol selector dependency"@,
        RedirectError::TcPriority => "unexpected TC priority"@,
        RedirectError::DuplicatePriority => "duplicate ingress priority"@,
        RedirectError::ReturnTcSelector => "unexpected return TC selector/priority"@,
        RedirectError::MapIdsUnavailable => "program map IDs unavailable"@,
        RedirectError::ForeignMap => "TC program does not own expected map"@,
        RedirectError::ProgramDisappeared => "TC program disappeared"@,
        RedirectError::EgressFilter => "egress TC dependency"@,
        RedirectError::TcxProgram => "TCX program dependency"@,
        RedirectError::TcxQuery => "querying TCX programs"@,
        RedirectError::TcSummary => "unexpected TC summary"@,
        RedirectError::DuplicateSummary => "duplicate TC summary"@,
        RedirectError::ForeignFilters => "foreign or missing ingress TC filters"@,
        RedirectError::SummaryMismatch => "TC summary/filter mismatch"@,
        RedirectError::NonBpfFilter => "non-BPF TC filter"@,
        RedirectError::TcChain => "TC chain dependency"@,
        RedirectError::BpfOptions => "unexpected BPF options"@,
        RedirectError::TcAttributes => "malformed TC attributes"@,
        RedirectError::TcFlags => "TC offload-only/unknown flags"@,
        RedirectError::TcClass => "TC class dependency"@,
        RedirectError::TcAction => "TC action/police dependency"@,
        RedirectError::DirectAction => "TC requires direct-action mode"@,
        RedirectError::ProgramIdMissing => "BPF program ID missing"@,
        RedirectError::MonitorLost => "redirect policy monitor lost notifications"@,
        RedirectError::DefaultPolicySize => "invalid XFRM default policy size"@,
        RedirectError::DefaultPolicyMissing => "missing XFRM default policy"@,
        RedirectError::ReplyAfterEnd => "messages after terminal policy reply"@,
        RedirectError::ReplyMalformed => "malformed kernel policy reply"@,
        RedirectError::ReplySequence => "foreign kernel policy sequence"@,
        RedirectError::DumpInterrupted => "kernel policy dump interrupted"@,
        RedirectError::ShortCompletion => "short policy dump completion"@,
        RedirectError::DumpFailed => "kernel policy dump failed"@,
        RedirectError::ShortError => "short kernel policy error"@,
        RedirectError::QueryError(_) => "kernel policy query error"@,
        RedirectError::UnexpectedReply => "unexpected kernel policy reply"@,
        RedirectError::ReplyAlignment => "truncated kernel policy alignment"@,
        RedirectError::ReplySender => "invalid/truncated kernel policy reply"@,
        RedirectError::DumpTooLarge => "kernel policy dump too large"@,
        RedirectError::QueryTimeout => "kernel policy query timed out"@,
        RedirectError::RouteMultiple => "multiple route lookup results"@,
        RedirectError::RouteUnexpected => "unexpected route lookup response"@,
        RedirectError::RouteMissing => "no route result"@,
        RedirectError::RouteQuery(_) => "route lookup"@,
        RedirectError::TcInterrupted => "TC dump interrupted"@,
        RedirectError::TcDumpFailed => "TC dump failed"@,
        RedirectError::TcQuery(_) => "TC query"@,
        RedirectError::TcUnexpected => "unexpected TC query reply"@,
    }
}

impl RedirectError {
    /// The words for this refusal.
    pub fn text(&self) -> (text: &'static str)
        ensures
            text@ == error_text(*self),
    {
        match self {
            RedirectError::MissingIngress => "missing ingress interface",
            RedirectError::LeaseOverflow => "route lease overflow",
            RedirectError::CacheCapacity => "redirect cache capacity exceeded",
            RedirectError::InvalidReturnContext => "invalid return lease context",
            RedirectError::ReturnLeaseOverflow => "return lease overflow",
            RedirectError::ReturnCapacity => "return lease capacity exceeded",
            RedirectError::InvalidReturnOutput => "invalid return output",
            RedirectError::RevisionExhausted => "redirect revision exhausted",
            RedirectError::ConflictingDscp => "listener ID has conflicting DSCP values",
            RedirectError::IntegerRange => "out of range integral type conversion attempted",
            RedirectError::ObservationExceededLease => "route observation exceeded lease",
            RedirectError::ReturnPriorityOverflow => "return priority overflow",
            RedirectError::ClockOverflow => "monotonic clock overflow",
            RedirectError::IngressTopology => "unsupported ingress device topology",
            RedirectError::FibSelectors => "source/TOS-specific FIB routes",
            RedirectError::RoutingRules => "nonstandard routing rules",
            RedirectError::KernelPolicy => "netfilter/XFRM policy present",
            RedirectError::ForwardingDisabled => "IPv4 forwarding disabled",
            RedirectError::IngressForwardingDisabled => "ingress IPv4 forwarding disabled",
            RedirectError::RpFilter => "rp_filter requires kernel path",
            RedirectError::SecurityModule => "unsupported network security module",
            RedirectError::AcceptLocal => "return source VIP requires accept_local on overlay",
            RedirectError::ReturnOverlayMissing => "return overlay missing",
            RedirectError::ReturnIngressTopology => "unsupported return ingress topology",
            RedirectError::ReturnFib => "unsupported return FIB context",
            RedirectError::ProtocolSelector => "TC protocol selector dependency",
            RedirectError::TcPriority => "unexpected TC priority",
            RedirectError::DuplicatePriority => "duplicate ingress priority",
            RedirectError::ReturnTcSelector => "unexpected return TC selector/priority",
            RedirectError::MapIdsUnavailable => "program map IDs unavailable",
            RedirectError::ForeignMap => "TC program does not own expected map",
            RedirectError::ProgramDisappeared => "TC program disappeared",
            RedirectError::EgressFilter => "egress TC dependency",
            RedirectError::TcxProgram => "TCX program dependency",
            RedirectError::TcxQuery => "querying TCX programs",
            RedirectError::TcSummary => "unexpected TC summary",
            RedirectError::DuplicateSummary => "duplicate TC summary",
            RedirectError::ForeignFilters => "foreign or missing ingress TC filters",
            RedirectError::SummaryMismatch => "TC summary/filter mismatch",
            RedirectError::NonBpfFilter => "non-BPF TC filter",
            RedirectError::TcChain => "TC chain dependency",
            RedirectError::BpfOptions => "unexpected BPF options",
            RedirectError::TcAttributes => "malformed TC attributes",
            RedirectError::TcFlags => "TC offload-only/unknown flags",
            RedirectError::TcClass => "TC class dependency",
            RedirectError::TcAction => "TC action/police dependency",
            RedirectError::DirectAction => "TC requires direct-action mode",
            RedirectError::ProgramIdMissing => "BPF program ID missing",
            RedirectError::MonitorLost => "redirect policy monitor lost notifications",
            RedirectError::DefaultPolicySize => "invalid XFRM default policy size",
            RedirectError::DefaultPolicyMissing => "missing XFRM default policy",
            RedirectError::ReplyAfterEnd => "messages after terminal policy reply",
            RedirectError::ReplyMalformed => "malformed kernel policy reply",
            RedirectError::ReplySequence => "foreign kernel policy sequence",
            RedirectError::DumpInterrupted => "kernel policy dump interrupted",
            RedirectError::ShortCompletion => "short policy dump completion",
            RedirectError::DumpFailed => "kernel policy dump failed",
            RedirectError::ShortError => "short kernel policy error",
            RedirectError::QueryError(_) => "kernel policy query error",
            RedirectError::UnexpectedReply => "unexpected kernel policy reply",
            RedirectError::ReplyAlignment => "truncated kernel policy alignment",
            RedirectError::ReplySender => "invalid/truncated kernel policy reply",
            RedirectError::DumpTooLarge => "kernel policy dump too large",
            RedirectError::QueryTimeout => "kernel policy query timed out",
            RedirectError::RouteMultiple => "multiple route lookup results",
            RedirectError::RouteUnexpected => "unexpected route lookup response",
            RedirectError::RouteMissing => "no route result",
            RedirectError::RouteQuery(_) => "route lookup",
            RedirectError::TcInterrupted => "TC dump interrupted",
            RedirectError::TcDumpFailed => "TC dump failed",
            RedirectError::TcQuery(_) => "TC query",
            RedirectError::TcUnexpected => "unexpected TC query reply",
        }
    }
}

} // verus!
