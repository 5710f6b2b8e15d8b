//! Totals of the per-CPU redirect counters.
use vstd::prelude::*;

verus! {

/// Counters of the forward redirect.
#[derive(Clone, Copy, Debug, PartialEq, Eq, Structural)]
pub struct NativeRedirectStats {
    pub submitted: u64,
    pub route_miss: u64,
    pub route_invalid: u64,
    pub expired: u64,
    pub target_changed: u64,
    pub ttl: u64,
    pub mtu: u64,
    pub unsupported: u64,
    pub mutation_error: u64,
}

/// Counters of the return redirect.
#[derive(Clone, Copy, Debug, PartialEq, Eq, Structural)]
pub struct ReturnRedirectStats {
    pub submitted: u64,
    pub policy: u64,
    pub expired: u64,
    pub route: u64,
    pub neighbor: u64,
    pub ttl: u64,
    pub mtu: u64,
    pub unsupported: u64,
    pub mutation_error: u64,
}

impl Default for NativeRedirectStats {
    fn default() -> (zero: Self)
        ensures
            zero == zero_stats(),
    {
        NativeRedirectStats {
            submitted: 0,
            route_miss: 0,
            route_invalid: 0,
            expired: 0,
            target_changed: 0,
            ttl: 0,
            mtu: 0,
            unsupported: 0,
            mutation_error: 0,
        }
    }
}

impl Default for ReturnRedirectStats {
    fn default() -> (zero: Self)
        ensures
            zero == zero_return_stats(),
    {
        ReturnRedirectStats {
            submitted: 0,
            policy: 0,
            expired: 0,
            route: 0,
            neighbor: 0,
            ttl: 0,
            mtu: 0,
            unsupported: 0,
            mutation_error: 0,
        }
    }
}

/// Counters that counted nothing.
pub open spec fn zero_stats() -> NativeRedirectStats {
    NativeRedirectStats {
        submitted: 0,
        route_miss: 0,
        route_invalid: 0,
        expired: 0,
        target_changed: 0,
        ttl: 0,
        mtu: 0,
        unsupported: 0,
        mutation_error: 0,
    }
}

/// Counters that counted nothing.
pub open spec fn zero_return_stats() -> ReturnRedirectStats {
    ReturnRedirectStats {
        submitted: 0,
        policy: 0,
        expired: 0,
        route: 0,
        neighbor: 0,
        ttl: 0,
        mtu: 0,
        unsupported: 0,
        mutation_error: 0,
    }
}

/// A count that stays at the largest number instead of wrapping.
pub open spec fn capped(n: nat) -> u64 {
    if n <= u64::MAX {
        n as u64
    } else {
        u64::MAX
    }
}

/// The sum of one counter over all processors.
pub open spec fn counter_sum<T>(values: Seq<T>, counter: spec_fn(T) -> u64) -> nat
    decreases values.len(),
{
    if values.len() == 0 {
        0
    } else {
        counter_sum(values.drop_last(), counter) + counter(values.last()) as nat
    }
}

/// The total of all processors' counters.
pub open spec fn total_stats(values: Seq<NativeRedirectStats>) -> NativeRedirectStats {
    NativeRedirectStats {
        submitted: capped(counter_sum(values, |v: NativeRedirectStats| v.submitted)),
        route_miss: capped(counter_sum(values, |v: NativeRedirectStats| v.route_miss)),
        route_invalid: capped(counter_sum(values, |v: NativeRedirectStats| v.route_invalid)),
        expired: capped(counter_sum(values, |v: NativeRedirectStats| v.expired)),
        target_changed: capped(counter_sum(values, |v: NativeRedirectStats| v.target_changed)),
        ttl: capped(counter_sum(values, |v: NativeRedirectStats| v.ttl)),
        mtu: capped(counter_sum(values, |v: NativeRedirectStats| v.mtu)),
        unsupported: capped(counter_sum(values, |v: NativeRedirectStats| v.unsupported)),
        mutation_error: capped(counter_sum(values, |v: NativeRedirectStats| v.mutation_error)),
    }
}

/// The total of all processors' counters.
pub open spec fn total_return_stats(values: Seq<ReturnRedirectStats>) -> ReturnRedirectStats {
    ReturnRedirectStats {
        submitted: capped(counter_sum(values, |v: ReturnRedirectStats| v.submitted)),
        policy: capped(counter_sum(values, |v: ReturnRedirectStats| v.policy)),
        expired: capped(counter_sum(values, |v: ReturnRedirectStats| v.expired)),
        route: capped(counter_sum(values, |v: ReturnRedirectStats| v.route)),
        neighbor: capped(counter_sum(values, |v: ReturnRedirectStats| v.neighbor)),
        ttl: capped(counter_sum(values, |v: ReturnRedirectStats| v.ttl)),
        mtu: capped(counter_sum(values, |v: ReturnRedirectStats| v.mtu)),
        unsupported: capped(counter_sum(values, |v: ReturnRedirectStats| v.unsupported)),
        mutation_error: capped(counter_sum(values, |v: ReturnRedirectStats| v.mutation_error)),
    }
}

/// Adds up the counters of the return redirect.
pub fn return_stats(values: &[ReturnRedirectStats]) -> (total: ReturnRedirectStats)
    ensures
        total == total_return_stats(values@),
{
    let mut total = ReturnRedirectStats::default();
    let mut i: usize = 0;
    while i < values.len()
        invariant
            i <= values.len(),
            total == total_return_stats(values@.take(i as int)),
        decreases values.len() - i,
    {
        let value = values[i];
        assert(values@.take(i + 1).drop_last() =~= values@.take(i as int));
        total.submitted = total.submitted.saturating_add(value.submitted);
        total.policy = total.policy.saturating_add(value.policy);
        total.expired = total.expired.saturating_add(value.expired);
        total.route = total.route.saturating_add(value.route);
        total.neighbor = total.neighbor.saturating_add(value.neighbor);
        total.ttl = total.ttl.saturating_add(value.ttl);
        total.mtu = total.mtu.saturating_add(value.mtu);
        total.unsupported = total.unsupported.saturating_add(value.unsupported);
        total.mutation_error = total.mutation_error.saturating_add(value.mutation_error);
        i += 1;
    }
    assert(values@.take(values@.len() as int) =~= values@);
    total
}

/// Adds up the counters of the forward redirect.
pub fn stats(values: &[NativeRedirectStats]) -> (total: NativeRedirectStats)
    ensures
        total == total_stats(values@),
{
    let mut total = NativeRedirectStats::default();
    let mut i: usize = 0;
    while i < values.len()
        invariant
            i <= values.len(),
            total == total_stats(values@.take(i as int)),
        decreases values.len() - i,
    {
        let value = values[i];
        assert(values@.take(i + 1).drop_last() =~= values@.take(i as int));
        total.submitted = total.submitted.saturating_add(value.submitted);
        total.route_miss = total.route_miss.saturating_add(value.route_miss);
        total.route_invalid = total.route_invalid.saturating_add(value.route_invalid);
        total.expired = total.expired.saturating_add(value.expired);
        total.target_changed = total.target_changed.saturating_add(value.target_changed);
        total.ttl = total.ttl.saturating_add(value.ttl);
        total.mtu = total.mtu.saturating_add(value.mtu);
        total.unsupported = total.unsupported.saturating_add(value.unsupported);
        total.mutation_error = total.mutation_error.saturating_add(value.mutation_error);
        i += 1;
    }
    assert(values@.take(values@.len() as int) =~= values@);
    total
}

// ---------------------------------------------------------------------------
// Laws
// ---------------------------------------------------------------------------

/// A total that stays at the largest number.
pub open spec fn plus(a: u64, b: u64) -> u64 {
    if a + b <= u64::MAX {
        (a + b) as u64
    } else {
        u64::MAX
    }
}

/// Each counter is added up on its own over the processors: one more processor adds each of
/// its counters to the same counter of the total, which stays at the largest number.
pub proof fn law_counters_add_up(values: Seq<NativeRedirectStats>, one: NativeRedirectStats)
    ensures
        ({
            let before = total_stats(values);
            let after = total_stats(values.push(one));
            &&& after.submitted == plus(before.submitted, one.submitted)
            &&& after.route_miss == plus(before.route_miss, one.route_miss)
            &&& after.route_invalid == plus(before.route_invalid, one.route_invalid)
            &&& after.expired == plus(before.expired, one.expired)
            &&& after.target_changed == plus(before.target_changed, one.target_changed)
            &&& after.ttl == plus(before.ttl, one.ttl)
            &&& after.mtu == plus(before.mtu, one.mtu)
            &&& after.unsupported == plus(before.unsupported, one.unsupported)
            &&& after.mutation_error == plus(before.mutation_error, one.mutation_error)
        }),
        total_stats(Seq::empty()) == zero_stats(),
        zero_stats().submitted == 0,
        zero_stats().route_miss == 0,
        zero_stats().expired == 0,
{
    let all = values.push(one);
    assert(all.drop_last() =~= values);
    assert(all.last() == one);
}

/// The counters of the return redirect are added up in the same way.
pub proof fn law_return_counters_add_up(values: Seq<ReturnRedirectStats>, one: ReturnRedirectStats)
    ensures
        ({
            let before = total_return_stats(values);
            let after = total_return_stats(values.push(one));
            &&& after.submitted == plus(before.submitted, one.submitted)
            &&& after.policy == plus(before.policy, one.policy)
            &&& after.expired == plus(before.expired, one.expired)
            &&& after.route == plus(before.route, one.route)
            &&& after.neighbor == plus(before.neighbor, one.neighbor)
            &&& after.ttl == plus(before.ttl, one.ttl)
            &&& after.mtu == plus(before.mtu, one.mtu)
            &&& after.unsupported == plus(before.unsupported, one.unsupported)
            &&& after.mutation_error == plus(before.mutation_error, one.mutation_error)
        }),
        total_return_stats(Seq::empty()) == zero_return_stats(),
        zero_return_stats().submitted == 0,
{
    let all = values.push(one);
    assert(all.drop_last() =~= values);
    assert(all.last() == one);
}

} // verus!
