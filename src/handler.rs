//! The top-level dispatch of network events to state transitions.
use vstd::prelude::*;
use crate::action::{Action, actions_view};
use crate::event::{BitfieldDistributionMessage, NetworkBridgeEvent};
use crate::gossip::peer_interested;
use crate::primitives::{BitfieldGossipMessage, BlockHash, GossipMessageView};
use crate::state::{ProtocolState, peer_message_effect, view_change_messages};
use crate::view_change::RelayParentInfo;

verus! {

impl ProtocolState {
    /// Handles one event of the network bridge and returns the actions it
    /// calls for, in order. For a peer message, `signature_valid` tells
    /// whether its signature verifies against the validator its index names
    /// and the relay parent's signing context; for a change of our view,
    /// `fetched` holds what chain state says about relay parents entering it.
    /// Each is ignored for the other events.
    pub fn handle_network_msg(
        &mut self,
        event: NetworkBridgeEvent<BitfieldDistributionMessage>,
        signature_valid: bool,
        fetched: &Vec<RelayParentInfo>,
    ) -> (r: Vec<Action>)
        requires
            old(self).wf(),
        ensures
            final(self).wf(),
            match event {
                NetworkBridgeEvent::PeerConnected(p, _, _) => {
                    &&& r@.len() == 0
                    &&& final(self).has_peer(p)
                    &&& forall|h: BlockHash| !peer_interested(final(self).peer_views@, p, h)
                    &&& final(self).per_relay_parent == old(self).per_relay_parent
                    &&& final(self).gossip_peers == old(self).gossip_peers
                    &&& final(self).view == old(self).view
                },
                NetworkBridgeEvent::PeerDisconnected(p) => {
                    &&& r@.len() == 0
                    &&& !final(self).has_peer(p)
                    &&& final(self).gossip_peers == old(self).gossip_peers
                    &&& final(self).view == old(self).view
                },
                NetworkBridgeEvent::NewGossipTopology { our_neighbors_x, our_neighbors_y } => {
                    &&& r@.len() == 0
                    &&& final(self).gossip_peers@.to_set() == our_neighbors_x@.to_set().union(
                        our_neighbors_y@.to_set(),
                    )
                    &&& final(self).per_relay_parent == old(self).per_relay_parent
                    &&& final(self).peer_views == old(self).peer_views
                    &&& final(self).view == old(self).view
                },
                NetworkBridgeEvent::PeerMessage(p, BitfieldDistributionMessage::Bitfield(h, s)) => {
                    peer_message_effect(
                        *old(self),
                        *final(self),
                        p,
                        GossipMessageView { relay_parent: h, signed: s@ },
                        signature_valid,
                        actions_view(r@),
                    )
                },
                NetworkBridgeEvent::PeerViewChange(p, v) => {
                    &&& final(self).has_peer(p)
                    &&& forall|h: BlockHash|
                        #[trigger] peer_interested(final(self).peer_views@, p, h)
                            == v.heads_set().contains(h)
                    &&& actions_view(r@) == view_change_messages(
                        old(self).per_relay_parent@,
                        *old(self),
                        p,
                        v.heads_set(),
                    )
                    &&& final(self).gossip_peers == old(self).gossip_peers
                    &&& final(self).view == old(self).view
                },
                NetworkBridgeEvent::OurViewChange(v) => {
                    &&& r@.len() == 0
                    &&& final(self).view.heads@ == v.heads@
                    &&& forall|h: BlockHash|
                        #[trigger] final(self).has_rpd(h) == (v.heads_set().contains(h) && (old(
                            self,
                        ).has_rpd(h) || (!old(self).view.heads_set().contains(h)
                            && ProtocolState::fetched_has(fetched@, h))))
                    &&& final(self).peer_views == old(self).peer_views
                    &&& final(self).gossip_peers == old(self).gossip_peers
                },
            },
    {
        match event {
            NetworkBridgeEvent::PeerConnected(p, _, _) => {
                self.handle_peer_connected(p);
                Vec::new()
            },
            NetworkBridgeEvent::PeerDisconnected(p) => {
                self.handle_peer_disconnected(p);
                Vec::new()
            },
            NetworkBridgeEvent::NewGossipTopology { our_neighbors_x, our_neighbors_y } => {
                self.handle_gossip_topology(&our_neighbors_x, &our_neighbors_y);
                Vec::new()
            },
            NetworkBridgeEvent::PeerMessage(p, BitfieldDistributionMessage::Bitfield(h, s)) => {
                let message = BitfieldGossipMessage { relay_parent: h, signed_availability: s };
                self.handle_peer_message(p, message, signature_valid)
            },
            NetworkBridgeEvent::PeerViewChange(p, v) => self.handle_peer_view_change(p, v),
            NetworkBridgeEvent::OurViewChange(v) => {
                self.handle_our_view_change(v, fetched);
                Vec::new()
            },
        }
    }
}

} // verus!
