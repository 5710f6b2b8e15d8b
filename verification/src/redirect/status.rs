//! Bounded status of redirect admission and publication.
use crate::text::{chars_of, contains_text, find_text, lower, lower_chars};
use vstd::prelude::*;

verus! {

#[derive(Clone, Copy, Debug, PartialEq, Eq, Structural)]
pub enum AdmissionState {
    Unknown,
    Published,
    Blocked,
}

/// The reasons a status can name; there are no others.
#[derive(Clone, Copy, Debug, PartialEq, Eq, Structural)]
pub enum Reason {
    Startup,
    Unblocked,
    RpFilter,
    Forwarding,
    RoutingPolicy,
    KernelPolicy,
    Tc,
    Lease,
    Neighbor,
    Route,
    Cache,
    Other,
}

#[derive(Clone, Copy, Debug, PartialEq, Eq, Structural)]
pub struct RedirectAdmissionStatus {
    pub state: AdmissionState,
    pub reason: Reason,
    pub map_digest: u64,
    pub updated_unix_seconds: u64,
}

impl Default for RedirectAdmissionStatus {
    fn default() -> (status: Self)
        ensures
            status == (RedirectAdmissionStatus {
                state: AdmissionState::Unknown,
                reason: Reason::Startup,
                map_digest: 0,
                updated_unix_seconds: 0,
            }),
    {
        RedirectAdmissionStatus {
            state: AdmissionState::Unknown,
            reason: Reason::Startup,
            map_digest: 0,
            updated_unix_seconds: 0,
        }
    }
}

impl AdmissionState {
    pub open spec fn name(self) -> Seq<char> {
        match self {
            AdmissionState::Unknown => "unknown"@,
            AdmissionState::Published => "published"@,
            AdmissionState::Blocked => "blocked"@,
        }
    }

    pub fn text(&self) -> (text: &'static str)
        ensures
            text@ == self.name(),
    {
        match self {
            AdmissionState::Unknown => "unknown",
            AdmissionState::Published => "published",
            AdmissionState::Blocked => "blocked",
        }
    }
}

impl Reason {
    pub open spec fn name(self) -> Seq<char> {
        match self {
            Reason::Startup => "startup"@,
            Reason::Unblocked => "none"@,
            Reason::RpFilter => "rp_filter"@,
            Reason::Forwarding => "forwarding"@,
            Reason::RoutingPolicy => "routing_policy"@,
            Reason::KernelPolicy => "kernel_policy"@,
            Reason::Tc => "tc"@,
            Reason::Lease => "lease"@,
            Reason::Neighbor => "neighbor"@,
            Reason::Route => "route"@,
            Reason::Cache => "cache"@,
            Reason::Other => "other"@,
        }
    }

    pub fn text(&self) -> (text: &'static str)
        ensures
            text@ == self.name(),
    {
        match self {
            Reason::Startup => "startup",
            Reason::Unblocked => "none",
            Reason::RpFilter => "rp_filter",
            Reason::Forwarding => "forwarding",
            Reason::RoutingPolicy => "routing_policy",
            Reason::KernelPolicy => "kernel_policy",
            Reason::Tc => "tc",
            Reason::Lease => "lease",
            Reason::Neighbor => "neighbor",
            Reason::Route => "route",
            Reason::Cache => "cache",
            Reason::Other => "other",
        }
    }
}

/// The reason that an error's words come under, whatever their case.
pub open spec fn reason_of(error: Seq<char>) -> Reason {
    let e = lower(error);
    if contains_text(e, "rp_filter"@) {
        Reason::RpFilter
    } else if contains_text(e, "forwarding"@) {
        Reason::Forwarding
    } else if contains_text(e, "nonstandard routing"@) || contains_text(e, "fib"@) {
        Reason::RoutingPolicy
    } else if contains_text(e, "netfilter"@) || contains_text(e, "xfrm"@) || contains_text(
        e,
        "security module"@,
    ) || contains_text(e, "lsm"@) {
        Reason::KernelPolicy
    } else if contains_text(e, "tc"@) || contains_text(e, "tcx"@) {
        Reason::Tc
    } else if contains_text(e, "lease"@) {
        Reason::Lease
    } else if contains_text(e, "neighbor"@) {
        Reason::Neighbor
    } else if contains_text(e, "route"@) {
        Reason::Route
    } else if contains_text(e, "cache"@) || contains_text(e, "map"@) {
        Reason::Cache
    } else {
        Reason::Other
    }
}

fn mentions(error: &[char], word: &str) -> (b: bool)
    ensures
        b == contains_text(error@, word@),
{
    let word_chars = chars_of(word);
    find_text(error, word_chars.as_slice()).is_some()
}

/// Puts an error under one of the bounded reasons.
pub fn classify_error(error: &str) -> (reason: Reason)
    ensures
        reason == reason_of(error@),
{
    let chars = chars_of(error);
    let e = lower_chars(chars.as_slice());
    let e = e.as_slice();
    if mentions(e, "rp_filter") {
        Reason::RpFilter
    } else if mentions(e, "forwarding") {
        Reason::Forwarding
    } else if mentions(e, "nonstandard routing") || mentions(e, "fib") {
        Reason::RoutingPolicy
    } else if mentions(e, "netfilter") || mentions(e, "xfrm") || mentions(e, "security module")
        || mentions(e, "lsm") {
        Reason::KernelPolicy
    } else if mentions(e, "tc") || mentions(e, "tcx") {
        Reason::Tc
    } else if mentions(e, "lease") {
        Reason::Lease
    } else if mentions(e, "neighbor") {
        Reason::Neighbor
    } else if mentions(e, "route") {
        Reason::Route
    } else if mentions(e, "cache") || mentions(e, "map") {
        Reason::Cache
    } else {
        Reason::Other
    }
}

/// The status as it stands.
pub fn current(status: &RedirectAdmissionStatus) -> (now: RedirectAdmissionStatus)
    ensures
        now == *status,
{
    *status
}

/// Records that leases were published.
pub fn record_published(
    status: &mut RedirectAdmissionStatus,
    map_digest: u64,
    now_unix_seconds: u64,
)
    ensures
        *final(status) == (RedirectAdmissionStatus {
            state: AdmissionState::Published,
            reason: Reason::Unblocked,
            map_digest,
            updated_unix_seconds: now_unix_seconds,
        }),
{
    *status = RedirectAdmissionStatus {
        state: AdmissionState::Published,
        reason: Reason::Unblocked,
        map_digest,
        updated_unix_seconds: now_unix_seconds,
    };
}

/// Records why nothing was published; the last digest stays.
pub fn record_blocked(status: &mut RedirectAdmissionStatus, error: &str, now_unix_seconds: u64)
    ensures
        *final(status) == (RedirectAdmissionStatus {
            state: AdmissionState::Blocked,
            reason: reason_of(error@),
            map_digest: old(status).map_digest,
            updated_unix_seconds: now_unix_seconds,
        }),
{
    *status = RedirectAdmissionStatus {
        state: AdmissionState::Blocked,
        reason: classify_error(error),
        map_digest: status.map_digest,
        updated_unix_seconds: now_unix_seconds,
    };
}

// ---------------------------------------------------------------------------
// Laws
// ---------------------------------------------------------------------------

/// An error comes under the first of these words that it holds, and under none of them
/// where it holds none.
pub proof fn law_reasons_follow_the_words(error: Seq<char>)
    ensures
        ({
            let e = lower(error);
            let says = |word: Seq<char>| contains_text(e, word);
            let rp = says("rp_filter"@);
            let forwarding = says("forwarding"@);
            let routing = says("nonstandard routing"@) || says("fib"@);
            let kernel = says("netfilter"@) || says("xfrm"@) || says("security module"@) || says(
                "lsm"@,
            );
            let tc = says("tc"@) || says("tcx"@);
            &&& reason_of(error) == Reason::RpFilter <==> rp
            &&& reason_of(error) == Reason::Forwarding <==> !rp && forwarding
            &&& reason_of(error) == Reason::RoutingPolicy <==> !rp && !forwarding && routing
            &&& reason_of(error) == Reason::KernelPolicy <==> !rp && !forwarding && !routing
                && kernel
            &&& reason_of(error) == Reason::Tc <==> !rp && !forwarding && !routing && !kernel && tc
            &&& !rp && !forwarding && !routing && !kernel && !tc ==> {
                &&& reason_of(error) == Reason::Lease <==> says("lease"@)
                &&& reason_of(error) == Reason::Neighbor <==> !says("lease"@) && says("neighbor"@)
                &&& reason_of(error) == Reason::Route <==> !says("lease"@) && !says("neighbor"@)
                    && says("route"@)
                &&& reason_of(error) == Reason::Cache <==> !says("lease"@) && !says("neighbor"@)
                    && !says("route"@) && (says("cache"@) || says("map"@))
                &&& reason_of(error) == Reason::Other <==> !says("lease"@) && !says("neighbor"@)
                    && !says("route"@) && !says("cache"@) && !says("map"@)
            }
        }),
{
}

/// Capital letters make no difference to the reason.
pub proof fn law_reasons_ignore_capitals(error: Seq<char>)
    ensures
        reason_of(lower(error)) == reason_of(error),
{
    assert(lower(lower(error)) =~= lower(error));
}

/// What a status shows of its state and its reason.
pub proof fn law_statuses_are_named()
    ensures
        AdmissionState::Unknown.name() == "unknown"@,
        AdmissionState::Published.name() == "published"@,
        AdmissionState::Blocked.name() == "blocked"@,
        Reason::Startup.name() == "startup"@,
        Reason::Unblocked.name() == "none"@,
        Reason::RpFilter.name() == "rp_filter"@,
        Reason::Forwarding.name() == "forwarding"@,
        Reason::RoutingPolicy.name() == "routing_policy"@,
        Reason::KernelPolicy.name() == "kernel_policy"@,
        Reason::Tc.name() == "tc"@,
        Reason::Lease.name() == "lease"@,
        Reason::Neighbor.name() == "neighbor"@,
        Reason::Route.name() == "route"@,
        Reason::Cache.name() == "cache"@,
        Reason::Other.name() == "other"@,
{
}

} // verus!
