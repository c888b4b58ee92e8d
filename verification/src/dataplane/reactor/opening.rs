//! How a namespace SYN becomes a flow.

use super::admission::{agreed, link_mss, negotiate};
use super::answer::{after_acquiring, carries, send_refusal, send_reset};
use super::config::Config;
use super::entry::{FlowEntry, MAX_PENDING_SOCKET_BYTES, initiating_side};
use super::flows::Flows;
use super::frame::{Error, Link};
use super::interest::interest;
use super::ledger::Ledger;
use super::metrics::{Metrics, counted};
use super::reply::reset_spec;
use super::tap::{Offer, TapOutput};
use crate::dataplane::flow_table::{EpollToken, FlowId, Resource, flow_token};
use crate::net::SocketAddress;
use crate::proxy_proto::Command;
use crate::proxy_proto::handshake::HandshakeModel;
use crate::tcp_adapter::flow::{ConstructionState, FlowInterface, FlowKey, FlowSide, FlowState};
use vstd::prelude::*;

verus! {

/// A SYN from the namespace, and the upstream socket that was made for it.
#[derive(Clone, Copy, Debug)]
pub struct Candidate {
    pub key: FlowKey,
    pub sequence: u32,
    pub mss: Option<u16>,
    pub window_scale: Option<u8>,
    pub logical_target: SocketAddress,
    pub interface: FlowInterface,
    pub transport_peer: SocketAddress,
    /// The local address of the upstream socket.
    pub local_endpoint: SocketAddress,
    pub receive_buffer_bytes: usize,
    pub send_buffer_bytes: usize,
    /// The first sequence number of the data plane's side.
    pub local_initial: u32,
}

impl Candidate {
    /// The upstream side of the flow.
    pub open spec fn target_side(self) -> FlowSide {
        FlowSide {
            interface: self.interface,
            local_endpoint: self.local_endpoint,
            logical_peer: self.logical_target,
            transport_peer: self.transport_peer,
        }
    }

    /// Whether `entry` is the flow that the SYN opens, before it is activated.
    pub open spec fn opens(self, config: Config, entry: FlowEntry) -> bool {
        let negotiated = agreed(
            config.tap_mtu,
            self.key.target.ip is V4,
            self.mss,
            self.window_scale,
        );
        &&& entry.wf()
        &&& entry.flow@ == FlowState::start(
            self.sequence,
            self.local_initial,
            negotiated.mss,
            negotiated.peer_window_shift,
            negotiated.local_window_shift,
        )
        &&& entry.construction@ == (
            ConstructionState::Typed,
            Some(initiating_side(self.key)),
            Some(self.target_side()),
        )
        &&& !entry.transport_connected
        &&& entry.armed_socket_interest == interest(true, false, false)
        &&& match config.upstream {
            super::config::Upstream::Direct { .. } => entry.handshake is None,
            super::config::Upstream::Proxy { protocol, credentials, .. } => {
                &&& entry.handshake is Some
                &&& entry.handshake.unwrap()@ == HandshakeModel::start(
                    protocol,
                    Command::Connect,
                    self.logical_target,
                    credentials,
                )
            },
        }
        &&& entry.pending_socket.waiting().len() == 0
        &&& entry.pending_socket.bound() == MAX_PENDING_SOCKET_BYTES
        &&& !entry.pending_shutdown
        &&& entry.sent_segments@.len() == 0
        &&& entry.upstream_window_clamp is None
        &&& entry.zero_window_probe is None
        &&& entry.last_namespace_byte is None
        &&& entry.socket_receive_buffer_bytes == self.receive_buffer_bytes
        &&& entry.socket_send_buffer_bytes == self.send_buffer_bytes
    }
}

/// What became of a SYN.
pub enum Opening {
    /// The flow is there; its socket is to be watched under `token`, and the
    /// flow activated once it is.
    Opened { id: FlowId, token: u64, interest: u32 },
    /// There is no room for another flow: the SYN is reset.
    Refused(Offer),
}

/// Opens the flow for a SYN whose upstream socket connects, or resets the SYN if
/// the table is full.
pub fn open_flow(
    flows: &mut Flows,
    ledger: &mut Ledger,
    output: &mut TapOutput,
    config: &Config,
    link: &Link,
    candidate: Candidate,
) -> (result: Result<Opening, Error>)
    requires
        old(flows).wf(),
        old(ledger).wf(),
        old(output).wf(),
        !old(flows).known(candidate.key),
        link_mss(config.tap_mtu, candidate.key.target.ip is V4) <= u16::MAX,
    ensures
        final(flows).wf(),
        final(ledger).wf(),
        final(output).wf(),
        ({
            let room = old(flows).table().free().len() > 0;
            let acknowledgment = ((candidate.sequence + 1) % 0x1_0000_0000) as u32;
            let spec = reset_spec(candidate.key, acknowledgment);
            match result {
                Ok(Opening::Opened { id, token, interest: events }) => {
                    &&& room
                    &&& id.slot == old(flows).table().free().last()
                    &&& token == flow_token(id, Resource::UpstreamSocket, true)
                    &&& events == interest(true, false, false)
                    &&& final(flows).keys() == old(flows).keys().push((candidate.key, id))
                    &&& final(flows).awaiting_refresh() == old(flows).awaiting_refresh()
                    &&& final(flows).table().free() == old(flows).table().free().drop_last()
                    &&& final(flows).table().deferred() == old(flows).table().deferred()
                    &&& final(flows).table().lookup(id) is Some
                    &&& candidate.opens(
                        *config,
                        final(flows).table().lookup(id).unwrap(),
                    )
                    &&& super::flows::others_kept(
                        old(flows).table().slots(),
                        final(flows).table().slots(),
                        id,
                    )
                    &&& *final(output) == *old(output)
                    &&& *final(ledger) == old(ledger).opened(
                        candidate.receive_buffer_bytes,
                        candidate.send_buffer_bytes,
                    )
                },
                Ok(Opening::Refused(offer)) => {
                    &&& !room
                    &&& send_refusal(*old(output), *link, spec) is None
                    &&& carries(
                        offer,
                        *old(output),
                        *final(output),
                        None,
                        None,
                        spec.frame(*link, Seq::empty()),
                    )
                    &&& final(output).pools().one_out(&old(output).pools())
                    &&& same_flows(*old(flows), *final(flows))
                    &&& *final(ledger) == (Ledger {
                        metrics: Metrics {
                            tcp_resets: counted(old(ledger).metrics.tcp_resets),
                            ..old(ledger).metrics
                        },
                        ..*old(ledger)
                    }).reserved(0)
                },
                Err(error) => {
                    &&& !room
                    &&& send_refusal(*old(output), *link, spec) == Some(error)
                    &&& same_flows(*old(flows), *final(flows))
                    &&& final(output).pools().none_out(&old(output).pools())
                    &&& final(output).queue() == old(output).queue()
                    &&& final(output).drops() == old(output).drops()
                    &&& *final(ledger) == after_acquiring(*old(ledger), *old(output))
                },
            }
        }),
{
    let v4 = candidate.key.target.is_ipv4();
    let negotiated = negotiate(config.tap_mtu, v4, candidate.mss, candidate.window_scale);
    let target_side = FlowSide {
        interface: candidate.interface,
        local_endpoint: candidate.local_endpoint,
        logical_peer: candidate.logical_target,
        transport_peer: candidate.transport_peer,
    };
    let handshake = super::admission::proxy_handshake(config, candidate.logical_target);
    let entry = FlowEntry::open(
        candidate.key,
        target_side,
        candidate.sequence,
        candidate.local_initial,
        negotiated,
        handshake,
        candidate.receive_buffer_bytes,
        candidate.send_buffer_bytes,
    );
    let armed: u32 = entry.armed_socket_interest;
    let ghost opened = entry;
    let ghost before = *flows;
    match flows.insert(candidate.key, entry, ledger) {
        Ok(id) => {
            proof {
                assert(before.table().free()[before.table().free().len() - 1]
                    < before.table().slots().len());
                assert(flows.table().slots()[id.slot as int].generation > 0);
            }
            let token = match EpollToken::flow(id, Resource::UpstreamSocket, true) {
                Some(token) => token,
                None => {
                    assert(false);
                    return Err(Error::Invariant("unable to encode flow token"));
                },
            };
            Ok(Opening::Opened { id, token: token.raw(), interest: armed })
        },
        Err(_) => {
            let offer = send_reset(
                output,
                ledger,
                link,
                candidate.key,
                candidate.sequence.wrapping_add(1),
            )?;
            Ok(Opening::Refused(offer))
        },
    }
}

/// Whether two states of the table hold the same flows.
pub open spec fn same_flows(before: Flows, after: Flows) -> bool {
    &&& after.keys() == before.keys()
    &&& after.awaiting_refresh() == before.awaiting_refresh()
    &&& after.table().slots() == before.table().slots()
    &&& after.table().free() == before.table().free()
    &&& after.table().deferred() == before.table().deferred()
}

/// A new flow is what its SYN asks for: it starts at the numbers of both sides, is
/// between the namespace and the target, goes to the peer that was chosen for it, and
/// has a handshake exactly where the upstream is a proxy, toward the logical target.
pub proof fn law_new_flow_is_what_the_syn_asks_for(
    candidate: Candidate,
    config: Config,
    entry: FlowEntry,
)
    requires
        candidate.opens(config, entry),
    ensures
        entry.flow@.namespace_initial == candidate.sequence,
        entry.flow@.local_initial == candidate.local_initial,
        entry.flow@.namespace_next == (candidate.sequence + 1) % 0x1_0000_0000,
        entry.construction@.0 == ConstructionState::Typed,
        entry.construction@.1 matches Some(side) && side.logical_peer == candidate.key.namespace
            && side.local_endpoint == candidate.key.target,
        entry.construction@.2 matches Some(side) && side.transport_peer == candidate.transport_peer
            && side.logical_peer == candidate.logical_target && side.interface
            == candidate.interface && side.local_endpoint == candidate.local_endpoint,
        config.upstream is Direct <==> entry.handshake is None,
        config.upstream is Proxy ==> entry.handshake.unwrap()@.target == candidate.logical_target
            && entry.handshake.unwrap()@.command == Command::Connect,
        !entry.transport_connected,
        entry.pending_socket.waiting().len() == 0,
        entry.pending_socket.bound() == 262_144,
        entry.sent_segments@.len() == 0,
        entry.socket_send_buffer_bytes == candidate.send_buffer_bytes,
        entry.socket_receive_buffer_bytes == candidate.receive_buffer_bytes,
{
}

} // verus!
