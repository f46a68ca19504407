use bitfield_distribution::event::{
    BitfieldDistributionMessage, NetworkBridgeEvent, ObservedRole, ValidationProtocol,
    WrongVariant,
};
use bitfield_distribution::primitives::{RelayView, SignedBitfield};

fn bitfield() -> SignedBitfield {
    SignedBitfield { payload: vec![true, false, true], validator_index: 3, signature: vec![4; 64] }
}

#[test]
fn focus_keeps_bitfield_message() {
    let e = NetworkBridgeEvent::PeerMessage(
        5,
        ValidationProtocol::BitfieldDistribution(BitfieldDistributionMessage::Bitfield(9, bitfield())),
    );
    assert_eq!(
        e.focus(),
        Ok(NetworkBridgeEvent::PeerMessage(5, BitfieldDistributionMessage::Bitfield(9, bitfield())))
    );
}

#[test]
fn focus_rejects_other_protocols() {
    let e = NetworkBridgeEvent::PeerMessage(5, ValidationProtocol::StatementDistribution(vec![1, 2]));
    assert_eq!(e.focus(), Err(WrongVariant));
    let e = NetworkBridgeEvent::PeerMessage(5, ValidationProtocol::ApprovalDistribution(vec![]));
    assert_eq!(e.focus(), Err(WrongVariant));
}

#[test]
fn focus_copies_other_events() {
    let e: NetworkBridgeEvent<ValidationProtocol> =
        NetworkBridgeEvent::PeerConnected(1, ObservedRole::Authority, Some(vec![7, 8]));
    assert_eq!(e.focus(), Ok(NetworkBridgeEvent::PeerConnected(1, ObservedRole::Authority, Some(vec![7, 8]))));
    let e: NetworkBridgeEvent<ValidationProtocol> = NetworkBridgeEvent::PeerDisconnected(2);
    assert_eq!(e.focus(), Ok(NetworkBridgeEvent::PeerDisconnected(2)));
    let e: NetworkBridgeEvent<ValidationProtocol> =
        NetworkBridgeEvent::NewGossipTopology { our_neighbors_x: vec![1], our_neighbors_y: vec![2, 3] };
    assert_eq!(
        e.focus(),
        Ok(NetworkBridgeEvent::NewGossipTopology { our_neighbors_x: vec![1], our_neighbors_y: vec![2, 3] })
    );
    let e: NetworkBridgeEvent<ValidationProtocol> =
        NetworkBridgeEvent::PeerViewChange(3, RelayView::new(vec![10, 11]));
    assert_eq!(e.focus(), Ok(NetworkBridgeEvent::PeerViewChange(3, RelayView::new(vec![10, 11]))));
    let e: NetworkBridgeEvent<ValidationProtocol> = NetworkBridgeEvent::OurViewChange(RelayView::new(vec![12]));
    assert_eq!(e.focus(), Ok(NetworkBridgeEvent::OurViewChange(RelayView::new(vec![12]))));
}

#[test]
fn signed_bitfield_comparison() {
    let a = bitfield();
    assert!(a.same_as(&a.duplicate()));
    let mut b = bitfield();
    b.signature[0] = 5;
    assert!(!a.same_as(&b));
    let mut c = bitfield();
    c.payload.push(true);
    assert!(!a.same_as(&c));
}
