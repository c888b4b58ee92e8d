//! TAP interfaces.

use vstd::prelude::*;

verus! {

pub const DEFAULT_TAP_MTU: u32 = 32_000;
pub const MIN_TAP_MTU: u32 = 1_280;
pub const MAX_TAP_MTU: u32 = 65_520;

/// The room for an interface name, with the octet that ends it.
pub const IFNAMSIZ: usize = 16;

pub const IFF_TAP: i32 = 0x0002;
pub const IFF_NO_PI: i32 = 0x1000;
pub const IFF_VNET_HDR: i32 = 0x4000;
pub const IFF_MULTI_QUEUE: i32 = 0x0100;

/// The offloads that are asked for: checksums and TCP segmentation.
pub const TUN_OFFLOADS: u64 = 0x07;

#[derive(Clone, Copy, Debug, PartialEq, Eq, Structural)]
pub enum TunError {
    /// The name holds a zero octet.
    NameContainsNul,
    /// The name has no room for the octet that ends it.
    NameTooLong,
}

/// The flags of a TAP queue.
pub open spec fn flags_of(offload: bool, multi_queue: bool) -> i32 {
    IFF_TAP | IFF_NO_PI | (if offload {
        IFF_VNET_HDR
    } else {
        0
    }) | (if multi_queue {
        IFF_MULTI_QUEUE
    } else {
        0
    })
}

#[must_use]
pub fn tap_flags(offload: bool, multi_queue: bool) -> (flags: i32)
    ensures
        flags == flags_of(offload, multi_queue),
{
    IFF_TAP | IFF_NO_PI | (if offload {
        IFF_VNET_HDR
    } else {
        0
    }) | (if multi_queue {
        IFF_MULTI_QUEUE
    } else {
        0
    })
}

/// Why a name cannot be given to an interface, if it cannot.
pub open spec fn name_error(name: Seq<u8>) -> Option<TunError> {
    if name.contains(0u8) {
        Some(TunError::NameContainsNul)
    } else if name.len() >= IFNAMSIZ {
        Some(TunError::NameTooLong)
    } else {
        None
    }
}

/// The name as the kernel takes it: sixteen octets, filled up with zeros.
pub fn interface_name(name: &[u8]) -> (result: Result<[u8; 16], TunError>)
    ensures
        match result {
            Ok(field) => {
                &&& name_error(name@) is None
                &&& field@ == name@ + Seq::new((IFNAMSIZ - name@.len()) as nat, |i: int| 0u8)
            },
            Err(error) => name_error(name@) == Some(error),
        },
{
    let mut i: usize = 0;
    while i < name.len()
        invariant
            i <= name@.len(),
            forall|j: int| 0 <= j < i ==> name@[j] != 0,
        decreases name@.len() - i,
    {
        if name[i] == 0 {
            assert(name@[i as int] == 0);
            return Err(TunError::NameContainsNul);
        }
        i = i + 1;
    }
    if name.len() >= IFNAMSIZ {
        return Err(TunError::NameTooLong);
    }
    let mut field = [0u8; 16];
    let mut at: usize = 0;
    while at < name.len()
        invariant
            at <= name@.len() < 16,
            forall|j: int| 0 <= j < 16 ==> #[trigger] field@[j] == if j < at {
                name@[j]
            } else {
                0
            },
        decreases name@.len() - at,
    {
        field[at] = name[at];
        at = at + 1;
    }
    assert(field@ =~= name@ + Seq::new((IFNAMSIZ - name@.len()) as nat, |i: int| 0u8));
    Ok(field)
}

/// A queue joins a multi-queue interface exactly when it is asked to.
pub proof fn law_multi_queue_is_opt_in(offload: bool, multi_queue: bool)
    ensures
        (flags_of(offload, multi_queue) & IFF_MULTI_QUEUE != 0) == multi_queue,
        (flags_of(offload, multi_queue) & IFF_VNET_HDR != 0) == offload,
{
    assert({
        let plain = IFF_TAP | IFF_NO_PI | 0 | 0;
        let queued = IFF_TAP | IFF_NO_PI | 0 | IFF_MULTI_QUEUE;
        let offloaded = IFF_TAP | IFF_NO_PI | IFF_VNET_HDR | 0;
        let both = IFF_TAP | IFF_NO_PI | IFF_VNET_HDR | IFF_MULTI_QUEUE;
        &&& plain & IFF_MULTI_QUEUE == 0 && plain & IFF_VNET_HDR == 0
        &&& queued & IFF_MULTI_QUEUE != 0 && queued & IFF_VNET_HDR == 0
        &&& offloaded & IFF_MULTI_QUEUE == 0 && offloaded & IFF_VNET_HDR != 0
        &&& both & IFF_MULTI_QUEUE != 0 && both & IFF_VNET_HDR != 0
    }) by (bit_vector);
}

/// A TAP queue carries whole frames without packet information, offload state
/// exactly when it is on, and shares its interface exactly when it is asked to.
pub proof fn law_flags_say_what_a_queue_is(offload: bool, multi_queue: bool)
    ensures
        flags_of(offload, multi_queue) == 0x1002 + (if offload {
            0x4000int
        } else {
            0
        }) + (if multi_queue {
            0x100int
        } else {
            0
        }),
{
    assert(0x2i32 | 0x1000i32 | 0x4000i32 | 0x100i32 == 0x5102i32 && 0x2i32 | 0x1000i32 | 0x4000i32
        | 0i32 == 0x5002i32 && 0x2i32 | 0x1000i32 | 0i32 | 0x100i32 == 0x1102i32 && 0x2i32
        | 0x1000i32 | 0i32 | 0i32 == 0x1002i32) by (bit_vector);
}

/// A name is given to an interface exactly when it has at most fifteen octets and
/// none of them is zero.
pub proof fn law_interface_names_are_short(name: Seq<u8>)
    ensures
        name_error(name) is None <==> name.len() <= 15 && forall|i: int|
            0 <= i < name.len() ==> #[trigger] name[i] != 0,
        name_error(name) == Some(TunError::NameTooLong) ==> name.len() >= 16,
{
    if name.contains(0u8) {
        let i = choose|i: int| 0 <= i < name.len() && name[i] == 0u8;
        assert(name[i] == 0);
    }
}

} // verus!
