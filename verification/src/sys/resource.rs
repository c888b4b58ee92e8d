//! Descriptor budgets.

use vstd::prelude::*;

verus! {

/// Descriptors that the data plane needs besides those of its flows.
pub const DATAPLANE_FD_HEADROOM: u64 = 32;

#[derive(Clone, Copy, Debug, PartialEq, Eq, Structural)]
pub enum ResourceError {
    /// The budget does not fit in 64 bits.
    BudgetOverflow,
    /// The hard limit on descriptors is below what the data plane needs.
    HardLimit { available: u64, required: u64 },
}

/// A descriptor for each TCP and UDP flow, two for each UDP association, and
/// the headroom.
pub open spec fn budget(tcp_flows: int, udp_flows: int, udp_associations: int) -> int {
    tcp_flows + udp_flows + 2 * udp_associations + DATAPLANE_FD_HEADROOM
}

pub fn dataplane_nofile_limit(
    max_tcp_flows: usize,
    max_udp_flows: usize,
    max_udp_associations: usize,
) -> (result: Result<u64, ResourceError>)
    ensures
        ({
            let needed = budget(
                max_tcp_flows as int,
                max_udp_flows as int,
                max_udp_associations as int,
            );
            match result {
                Ok(limit) => limit == needed,
                Err(error) => needed > u64::MAX && error == ResourceError::BudgetOverflow,
            }
        }),
{
    let flows: u64 = match (max_tcp_flows as u64).checked_add(max_udp_flows as u64) {
        Some(flows) => flows,
        None => return Err(ResourceError::BudgetOverflow),
    };
    let pairs: u64 = match (max_udp_associations as u64).checked_mul(2) {
        Some(pairs) => pairs,
        None => return Err(ResourceError::BudgetOverflow),
    };
    let total: u64 = match flows.checked_add(pairs) {
        Some(total) => total,
        None => return Err(ResourceError::BudgetOverflow),
    };
    match total.checked_add(DATAPLANE_FD_HEADROOM) {
        Some(limit) => Ok(limit),
        None => Err(ResourceError::BudgetOverflow),
    }
}

/// Whether the hard limit on descriptors is enough.
pub fn ensure_nofile_capacity(required: u64, hard_limit: u64) -> (result: Result<
    (),
    ResourceError,
>)
    ensures
        match result {
            Ok(()) => hard_limit >= required,
            Err(error) => {
                &&& hard_limit < required
                &&& error == (ResourceError::HardLimit { available: hard_limit, required })
            },
        },
{
    if hard_limit < required {
        return Err(ResourceError::HardLimit { available: hard_limit, required });
    }
    Ok(())
}

/// Each TCP or UDP flow takes one descriptor and each association two, besides
/// the 32 that are always there.
pub proof fn law_every_flow_takes_a_descriptor(tcp: int, udp: int, associations: int)
    ensures
        budget(0, 0, 0) == 32,
        budget(tcp + 1, udp, associations) == budget(tcp, udp, associations) + 1,
        budget(tcp, udp + 1, associations) == budget(tcp, udp, associations) + 1,
        budget(tcp, udp, associations + 1) == budget(tcp, udp, associations) + 2,
        budget(tcp, udp, associations) == tcp + udp + 2 * associations + 32,
{
}

} // verus!
