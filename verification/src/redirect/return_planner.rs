//! Bounded leases for replies, by source address and device.
use crate::redirect::error::RedirectError;
use crate::redirect::model::ReturnContext;
use crate::redirect::planner::LEASE_NS;
use vstd::prelude::*;

verus! {

#[derive(Clone, Copy, Debug, PartialEq, Eq, Structural)]
pub struct ReturnLeaseKey {
    pub ingress_ifindex: u32,
    pub ifindex: u32,
    pub source: u32,
}

#[derive(Clone, Copy, Debug, PartialEq, Eq, Structural)]
pub struct ReturnLease {
    pub expires_ns: u64,
}

/// Whether replies may leave through a device.
pub open spec fn valid_output(ingress: u32, ifindex: u32) -> bool {
    ifindex != 0 && ifindex != ingress
}

/// The leases of one device: one for each source.
pub open spec fn output_leases(
    ingress: u32,
    ifindex: u32,
    sources: Seq<u32>,
    expires_ns: u64,
) -> Seq<(ReturnLeaseKey, ReturnLease)> {
    sources.map_values(
        |source: u32|
            (
                ReturnLeaseKey { ingress_ifindex: ingress, ifindex, source },
                ReturnLease { expires_ns },
            ),
    )
}

/// The leases of every device, one for each source.
pub open spec fn return_leases(
    ingress: u32,
    outputs: Seq<u32>,
    sources: Seq<u32>,
    expires_ns: u64,
) -> Seq<(ReturnLeaseKey, ReturnLease)>
    decreases outputs.len(),
{
    if outputs.len() == 0 {
        Seq::empty()
    } else {
        return_leases(ingress, outputs.drop_last(), sources, expires_ns) + output_leases(
            ingress,
            outputs.last(),
            sources,
            expires_ns,
        )
    }
}

/// What planning comes to.
pub open spec fn return_plan(
    context: ReturnContext,
    started: u64,
    capacity: usize,
) -> Result<Seq<(ReturnLeaseKey, ReturnLease)>, RedirectError> {
    if started == 0 || context.ingress == 0 {
        Err(RedirectError::InvalidReturnContext)
    } else if started + LEASE_NS > u64::MAX {
        Err(RedirectError::ReturnLeaseOverflow)
    } else if context.sources.len() * context.outputs.len() > capacity {
        Err(RedirectError::ReturnCapacity)
    } else if exists|i: int|
        0 <= i < context.outputs.len() && !valid_output(
            context.ingress,
            #[trigger] context.outputs[i],
        ) {
        Err(RedirectError::InvalidReturnOutput)
    } else {
        Ok(
            return_leases(
                context.ingress,
                context.outputs@,
                context.sources@,
                (started + LEASE_NS) as u64,
            ),
        )
    }
}

/// Plans the leases of a refresh that started at `started`.
pub fn plan(context: &ReturnContext, started: u64, capacity: usize) -> (planned: Result<
    Vec<(ReturnLeaseKey, ReturnLease)>,
    RedirectError,
>)
    ensures
        match (planned, return_plan(*context, started, capacity)) {
            (Ok(desired), Ok(leases)) => desired@ == leases,
            (Err(error), Err(refusal)) => error == refusal,
            _ => false,
        },
{
    if started == 0 || context.ingress == 0 {
        return Err(RedirectError::InvalidReturnContext);
    }
    let expires_ns: u64 = match started.checked_add(LEASE_NS) {
        Some(expires_ns) => expires_ns,
        None => {
            return Err(RedirectError::ReturnLeaseOverflow);
        },
    };
    let fits = match context.sources.len().checked_mul(context.outputs.len()) {
        Some(n) => n <= capacity,
        None => false,
    };
    if !fits {
        return Err(RedirectError::ReturnCapacity);
    }
    let mut desired: Vec<(ReturnLeaseKey, ReturnLease)> = Vec::new();
    let mut i: usize = 0;
    while i < context.outputs.len()
        invariant
            i <= context.outputs.len(),
            started != 0 && context.ingress != 0,
            expires_ns == started + LEASE_NS,
            context.sources.len() * context.outputs.len() <= capacity,
            forall|j: int|
                0 <= j < i ==> valid_output(context.ingress, #[trigger] context.outputs[j]),
            desired@ == return_leases(
                context.ingress,
                context.outputs@.take(i as int),
                context.sources@,
                expires_ns,
            ),
        decreases context.outputs.len() - i,
    {
        let ifindex: u32 = context.outputs[i];
        if ifindex == 0 || ifindex == context.ingress {
            assert(!valid_output(context.ingress, context.outputs[i as int]));
            return Err(RedirectError::InvalidReturnOutput);
        }
        let ghost before = desired@;
        let ghost all = output_leases(context.ingress, ifindex, context.sources@, expires_ns);
        let mut j: usize = 0;
        while j < context.sources.len()
            invariant
                j <= context.sources.len(),
                all == output_leases(context.ingress, ifindex, context.sources@, expires_ns),
                desired@ == before + all.take(j as int),
            decreases context.sources.len() - j,
        {
            desired.push(
                (
                    ReturnLeaseKey {
                        ingress_ifindex: context.ingress,
                        ifindex,
                        source: context.sources[j],
                    },
                    ReturnLease { expires_ns },
                ),
            );
            j += 1;
            assert(desired@ =~= before + all.take(j as int));
        }
        assert(all.take(j as int) =~= all);
        assert(context.outputs@.take(i + 1).drop_last() =~= context.outputs@.take(i as int));
        i += 1;
    }
    assert(context.outputs@.take(context.outputs@.len() as int) =~= context.outputs@);
    Ok(desired)
}

// ---------------------------------------------------------------------------
// Laws
// ---------------------------------------------------------------------------

/// A lease is planned for a device and a source exactly if both are in the
/// context; every lease enters at the overlay and ends when the plan says.
pub proof fn law_return_leases_are_the_product(
    ingress: u32,
    outputs: Seq<u32>,
    sources: Seq<u32>,
    expires_ns: u64,
    entry: (ReturnLeaseKey, ReturnLease),
)
    ensures
        return_leases(ingress, outputs, sources, expires_ns).contains(entry) <==> (
        entry.0.ingress_ifindex == ingress && outputs.contains(entry.0.ifindex)
            && sources.contains(entry.0.source) && entry.1.expires_ns == expires_ns),
        return_leases(ingress, outputs, sources, expires_ns).len() == outputs.len() * sources.len(),
    decreases outputs.len(),
{
    let all = return_leases(ingress, outputs, sources, expires_ns);
    if outputs.len() > 0 {
        let rest = return_leases(ingress, outputs.drop_last(), sources, expires_ns);
        let mine = output_leases(ingress, outputs.last(), sources, expires_ns);
        law_return_leases_are_the_product(
            ingress,
            outputs.drop_last(),
            sources,
            expires_ns,
            entry,
        );
        assert(all.len() == outputs.len() * sources.len()) by (nonlinear_arith)
            requires
                all.len() == rest.len() + sources.len(),
                rest.len() == (outputs.len() - 1) * sources.len(),
        ;
        if all.contains(entry) {
            let i = choose|i: int| 0 <= i < all.len() && all[i] == entry;
            if i < rest.len() {
                assert(rest[i] == entry);
                let k = choose|k: int|
                    0 <= k < outputs.len() - 1 && outputs.drop_last()[k] == entry.0.ifindex;
                assert(outputs[k] == entry.0.ifindex);
            } else {
                assert(mine[i - rest.len()] == entry);
                assert(sources[i - rest.len()] == entry.0.source);
                assert(outputs[outputs.len() - 1] == entry.0.ifindex);
            }
        }
        if entry.0.ingress_ifindex == ingress && outputs.contains(entry.0.ifindex)
            && sources.contains(entry.0.source) && entry.1.expires_ns == expires_ns {
            let k = choose|k: int| 0 <= k < outputs.len() && outputs[k] == entry.0.ifindex;
            let s = choose|s: int| 0 <= s < sources.len() && sources[s] == entry.0.source;
            if k < outputs.len() - 1 {
                assert(outputs.drop_last()[k] == entry.0.ifindex);
                let i = choose|i: int| 0 <= i < rest.len() && rest[i] == entry;
                assert(all[i] == entry);
            } else {
                assert(mine[s] == entry);
                assert(all[rest.len() + s] == entry);
            }
        }
    } else {
        assert(outputs.len() * sources.len() == 0) by (nonlinear_arith)
            requires
                outputs.len() == 0,
        ;
    }
}

/// Replies are leased for two seconds from the start of the refresh, from every source
/// through every device other than the one that they come in by; a context that names no
/// device to come in by, or such a device to leave by, is refused, and so is one with more
/// pairs than there is room for.
pub proof fn law_replies_are_leased_for_two_seconds(
    context: ReturnContext,
    started: u64,
    capacity: usize,
    k: int,
)
    ensures
        return_plan(context, started, capacity) is Ok <==> started != 0 && context.ingress != 0
            && started + 2_000_000_000 <= u64::MAX && context.sources@.len()
            * context.outputs@.len() <= capacity && forall|i: int|
            0 <= i < context.outputs@.len() ==> #[trigger] context.outputs@[i] != 0
                && context.outputs@[i] != context.ingress,
        return_plan(context, started, capacity) matches Ok(list) ==> {
            &&& list.len() == context.outputs@.len() * context.sources@.len()
            &&& 0 <= k < list.len() ==> {
                &&& list[k].0.ingress_ifindex == context.ingress
                &&& context.outputs@.contains(list[k].0.ifindex)
                &&& context.sources@.contains(list[k].0.source)
                &&& list[k].1.expires_ns - started == 2_000_000_000
            }
        },
{
    if let Ok(list) = return_plan(context, started, capacity) {
        let end = (started + LEASE_NS) as u64;
        law_return_leases_are_the_product(
            context.ingress,
            context.outputs@,
            context.sources@,
            end,
            list[k],
        );
        if 0 <= k < list.len() {
            assert(list.contains(list[k]));
        }
    }
    assert(forall|i: int|
        0 <= i < context.outputs@.len() ==> (valid_output(
            context.ingress,
            #[trigger] context.outputs@[i],
        ) <==> context.outputs@[i] != 0 && context.outputs@[i] != context.ingress));
}

} // verus!
