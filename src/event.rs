//! Events from the network bridge, and their projection onto the messages of
//! bitfield gossip.
use vstd::prelude::*;
use crate::primitives::{BlockHash, PeerId, RelayView, SignedBitfield, copy_ids};

verus! {

/// Identifier of an authority-discovery key.
pub type AuthorityDiscoveryId = u64;

/// The role a connected peer was observed to play.
#[derive(Clone, Copy, Debug, PartialEq, Eq, Structural)]
pub enum ObservedRole {
    Light,
    Full,
    Authority,
}

/// The messages of bitfield gossip on the wire.
#[derive(Debug, PartialEq, Eq)]
pub enum BitfieldDistributionMessage {
    /// A signed bitfield for a relay parent.
    Bitfield(BlockHash, SignedBitfield),
}

/// All messages of the validation peer set; those of other subsystems are
/// carried as their encoded bytes.
#[derive(Debug, PartialEq, Eq)]
pub enum ValidationProtocol {
    BitfieldDistribution(BitfieldDistributionMessage),
    StatementDistribution(Vec<u8>),
    ApprovalDistribution(Vec<u8>),
}

/// The marker returned when a message belongs to another subsystem.
#[derive(Clone, Copy, Debug, PartialEq, Eq, Structural)]
pub struct WrongVariant;

/// Events from the network.
#[derive(Debug, PartialEq, Eq)]
pub enum NetworkBridgeEvent<M> {
    /// A peer has connected.
    PeerConnected(PeerId, ObservedRole, Option<Vec<AuthorityDiscoveryId>>),
    /// A peer has disconnected.
    PeerDisconnected(PeerId),
    /// Our neighbours in the new gossip topology.
    NewGossipTopology { our_neighbors_x: Vec<PeerId>, our_neighbors_y: Vec<PeerId> },
    /// A peer has sent a message.
    PeerMessage(PeerId, M),
    /// A peer's view has changed.
    PeerViewChange(PeerId, RelayView),
    /// Our view has changed.
    OurViewChange(RelayView),
}

/// The contents of an optional list of authority identifiers.
pub open spec fn ids_view(ids: Option<Vec<AuthorityDiscoveryId>>) -> Option<Seq<AuthorityDiscoveryId>> {
    match ids {
        Some(v) => Some(v@),
        None => None,
    }
}

/// `r` is `e` focused onto bitfield gossip: the same event with the same
/// contents, or `WrongVariant` for a message of another subsystem.
pub open spec fn focused(
    e: NetworkBridgeEvent<ValidationProtocol>,
    r: Result<NetworkBridgeEvent<BitfieldDistributionMessage>, WrongVariant>,
) -> bool {
    match e {
        NetworkBridgeEvent::PeerMessage(p, m) => match m {
            ValidationProtocol::BitfieldDistribution(BitfieldDistributionMessage::Bitfield(h, s)) => {
                r matches Ok(
                    NetworkBridgeEvent::PeerMessage(p2, BitfieldDistributionMessage::Bitfield(h2, s2)),
                ) && p2 == p && h2 == h && s2@ == s@
            },
            _ => r is Err,
        },
        NetworkBridgeEvent::PeerConnected(p, role, ids) => r matches Ok(
            NetworkBridgeEvent::PeerConnected(p2, role2, ids2),
        ) && p2 == p && role2 == role && ids_view(ids2) == ids_view(ids),
        NetworkBridgeEvent::PeerDisconnected(p) => r matches Ok(
            NetworkBridgeEvent::PeerDisconnected(p2),
        ) && p2 == p,
        NetworkBridgeEvent::NewGossipTopology { our_neighbors_x, our_neighbors_y } => r matches Ok(
            NetworkBridgeEvent::NewGossipTopology { our_neighbors_x: x2, our_neighbors_y: y2 },
        ) && x2@ == our_neighbors_x@ && y2@ == our_neighbors_y@,
        NetworkBridgeEvent::PeerViewChange(p, v) => r matches Ok(
            NetworkBridgeEvent::PeerViewChange(p2, v2),
        ) && p2 == p && v2.heads@ == v.heads@,
        NetworkBridgeEvent::OurViewChange(v) => r matches Ok(NetworkBridgeEvent::OurViewChange(v2))
            && v2.heads@ == v.heads@,
    }
}

impl NetworkBridgeEvent<ValidationProtocol> {
    /// Projects an event of the validation peer set onto bitfield gossip:
    /// every event but a message of another subsystem carries over, copied.
    pub fn focus(&self) -> (r: Result<NetworkBridgeEvent<BitfieldDistributionMessage>, WrongVariant>)
        ensures
            focused(*self, r),
    {
        match self {
            NetworkBridgeEvent::PeerMessage(p, m) => match m {
                ValidationProtocol::BitfieldDistribution(
                    BitfieldDistributionMessage::Bitfield(h, s),
                ) => Ok(
                    NetworkBridgeEvent::PeerMessage(
                        *p,
                        BitfieldDistributionMessage::Bitfield(*h, s.duplicate()),
                    ),
                ),
                _ => Err(WrongVariant),
            },
            NetworkBridgeEvent::PeerConnected(p, role, ids) => {
                let ids2 = match ids {
                    Some(v) => Some(copy_ids(v)),
                    None => None,
                };
                Ok(NetworkBridgeEvent::PeerConnected(*p, *role, ids2))
            },
            NetworkBridgeEvent::PeerDisconnected(p) => Ok(NetworkBridgeEvent::PeerDisconnected(*p)),
            NetworkBridgeEvent::NewGossipTopology { our_neighbors_x, our_neighbors_y } => Ok(
                NetworkBridgeEvent::NewGossipTopology {
                    our_neighbors_x: copy_ids(our_neighbors_x),
                    our_neighbors_y: copy_ids(our_neighbors_y),
                },
            ),
            NetworkBridgeEvent::PeerViewChange(p, v) => Ok(
                NetworkBridgeEvent::PeerViewChange(*p, v.duplicate()),
            ),
            NetworkBridgeEvent::OurViewChange(v) => Ok(NetworkBridgeEvent::OurViewChange(v.duplicate())),
        }
    }
}

} // verus!
