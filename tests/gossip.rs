use bitfield_distribution::action::Action;
use bitfield_distribution::event::{BitfieldDistributionMessage, NetworkBridgeEvent, ObservedRole};
use bitfield_distribution::gossip::relay_message;
use bitfield_distribution::primitives::{
    BitfieldGossipMessage, BlockHash, PeerId, RelayView, SignedBitfield, SigningContext,
    ValidatorId,
};
use bitfield_distribution::relay_parent::PerRelayParentData;
use bitfield_distribution::reputation::{
    BENEFIT_VALID_MESSAGE, BENEFIT_VALID_MESSAGE_FIRST, COST_MISSING_PEER_VIEW, COST_NOT_IN_VIEW,
    COST_PEER_DUPLICATE_MESSAGE, COST_SIGNATURE_INVALID, COST_VALIDATOR_INDEX_INVALID,
};
use bitfield_distribution::state::ProtocolState;
use bitfield_distribution::view_change::RelayParentInfo;

const HASH_A: BlockHash = 0;
const HASH_B: BlockHash = 1;
const PEER_A: PeerId = 100;
const PEER_B: PeerId = 200;
const VALIDATOR: ValidatorId = 7;

fn signed(index: u32, key: u8) -> SignedBitfield {
    SignedBitfield { payload: vec![true; 32], validator_index: index, signature: vec![key; 64] }
}

fn message(relay_parent: BlockHash, index: u32, key: u8) -> BitfieldGossipMessage {
    BitfieldGossipMessage { relay_parent, signed_availability: signed(index, key) }
}

fn context(parent_hash: BlockHash) -> SigningContext {
    SigningContext { session_index: 1, parent_hash }
}

/// A state tracking each of `heads`, each with the single validator `VALIDATOR`.
fn state_with_view(heads: Vec<BlockHash>, relay_parent: BlockHash) -> ProtocolState {
    let mut state = ProtocolState::new();
    for h in heads.iter() {
        state
            .per_relay_parent
            .push((*h, PerRelayParentData::new(context(relay_parent), vec![VALIDATOR])));
    }
    state.view = RelayView::new(heads);
    state
}

/// A state interested only in `known`'s relay parent, with `validators`,
/// `known` cached for `validator`, and `peers` as gossip peers interested in it.
fn prewarmed_state(
    validator: ValidatorId,
    validators: Vec<ValidatorId>,
    known: &BitfieldGossipMessage,
    peers: Vec<PeerId>,
) -> ProtocolState {
    let h = known.relay_parent;
    let mut rpd = PerRelayParentData::new(context(h), validators);
    rpd.one_per_validator.push((validator, known.signed_availability.duplicate()));
    let mut state = ProtocolState::new();
    state.per_relay_parent.push((h, rpd));
    for p in peers.iter() {
        state.peer_views.push((*p, RelayView::new(vec![h])));
    }
    state.gossip_peers = peers;
    state.view = RelayView::new(vec![h]);
    state
}

fn report(peer: PeerId, delta: i32) -> Action {
    Action::ReportPeer { peer, delta }
}

fn provision(relay_parent: BlockHash, s: SignedBitfield) -> Action {
    Action::Provision { relay_parent, signed: s }
}

fn sorted(mut v: Vec<PeerId>) -> Vec<PeerId> {
    v.sort();
    v
}

#[test]
fn receive_invalid_signature() {
    let valid = message(HASH_A, 0, 1);
    let mut state = prewarmed_state(10, vec![10, 11], &valid, vec![PEER_B]);

    // validator 0 already has a bitfield: the forged one is dropped unrated
    let out = state.handle_peer_message(PEER_B, message(HASH_A, 0, 99), false);
    assert!(out.is_empty());

    let out = state.handle_peer_message(PEER_B, message(HASH_A, 1, 99), false);
    assert_eq!(out, vec![report(PEER_B, COST_SIGNATURE_INVALID)]);
}

#[test]
fn receive_invalid_validator_index() {
    let mut state = state_with_view(vec![HASH_A, HASH_B], HASH_A);
    state.peer_views.push((PEER_B, RelayView::new(vec![HASH_A])));
    let out = state.handle_peer_message(PEER_B, message(HASH_A, 42, 1), true);
    assert_eq!(out, vec![report(PEER_B, COST_VALIDATOR_INDEX_INVALID)]);
}

#[test]
fn receive_duplicate_messages() {
    let mut state = state_with_view(vec![HASH_A, HASH_B], HASH_A);
    let msg = message(HASH_A, 0, 1);

    let out = state.handle_peer_message(PEER_B, msg.duplicate(), true);
    assert_eq!(
        out,
        vec![provision(HASH_A, signed(0, 1)), report(PEER_B, BENEFIT_VALID_MESSAGE_FIRST)]
    );

    let out = state.handle_peer_message(PEER_A, msg.duplicate(), true);
    assert_eq!(out, vec![report(PEER_A, BENEFIT_VALID_MESSAGE)]);

    let out = state.handle_peer_message(PEER_B, msg.duplicate(), true);
    assert_eq!(out, vec![report(PEER_B, COST_PEER_DUPLICATE_MESSAGE)]);
}

#[test]
fn do_not_relay_message_twice() {
    let hash: BlockHash = 0x5eed;
    let mut state = state_with_view(vec![hash], hash);
    state.peer_views.push((PEER_B, RelayView::new(vec![hash])));
    state.peer_views.push((PEER_A, RelayView::new(vec![hash])));
    let gossip_peers = vec![PEER_A, PEER_B];
    let msg = message(hash, 0, 1);

    let out = relay_message(
        &mut state.per_relay_parent[0].1,
        &gossip_peers,
        &state.peer_views,
        VALIDATOR,
        msg.duplicate(),
    );
    assert_eq!(out.len(), 2);
    assert_eq!(out[0], provision(hash, signed(0, 1)));
    match &out[1] {
        Action::SendValidation { peers, message } => {
            assert_eq!(2, peers.len());
            assert!(peers.contains(&PEER_A));
            assert!(peers.contains(&PEER_B));
            assert_eq!(message, &msg);
        },
        other => panic!("unexpected {:?}", other),
    }

    // relaying a second time reaches the provisioner but no peer
    let out = relay_message(
        &mut state.per_relay_parent[0].1,
        &gossip_peers,
        &state.peer_views,
        VALIDATOR,
        msg.duplicate(),
    );
    assert_eq!(out, vec![provision(hash, signed(0, 1))]);
}

#[test]
fn changing_view() {
    let mut state = state_with_view(vec![HASH_A, HASH_B], HASH_A);
    let msg = message(HASH_A, 0, 1);
    let none: Vec<RelayParentInfo> = Vec::new();
    let peer_message = |peer: PeerId| {
        NetworkBridgeEvent::PeerMessage(peer, BitfieldDistributionMessage::Bitfield(HASH_A, signed(0, 1)))
    };

    let out = state.handle_network_msg(NetworkBridgeEvent::PeerConnected(PEER_B, ObservedRole::Full, None), true, &none);
    assert!(out.is_empty());

    // make peer b interested
    let out = state.handle_network_msg(
        NetworkBridgeEvent::PeerViewChange(PEER_B, RelayView::new(vec![HASH_A, HASH_B])),
        true,
        &none,
    );
    assert!(out.is_empty());
    assert!(state.find_peer(PEER_B).is_some());

    let out = state.handle_network_msg(peer_message(PEER_B), true, &none);
    assert_eq!(
        out,
        vec![provision(HASH_A, msg.signed_availability.duplicate()), report(PEER_B, BENEFIT_VALID_MESSAGE_FIRST)]
    );

    let out = state.handle_network_msg(NetworkBridgeEvent::PeerViewChange(PEER_B, RelayView::new(vec![])), true, &none);
    assert!(out.is_empty());
    let j = state.find_peer(PEER_B).expect("Must contain value for peer B");
    assert_eq!(state.peer_views[j].1, RelayView::new(vec![]));

    let out = state.handle_network_msg(peer_message(PEER_B), true, &none);
    assert_eq!(out, vec![report(PEER_B, COST_PEER_DUPLICATE_MESSAGE)]);

    let out = state.handle_network_msg(NetworkBridgeEvent::PeerDisconnected(PEER_B), true, &none);
    assert!(out.is_empty());

    // we are not interested in any relay parent any more
    state.view = RelayView::new(vec![]);

    let out = state.handle_network_msg(peer_message(PEER_A), true, &none);
    assert_eq!(out, vec![report(PEER_A, COST_NOT_IN_VIEW)]);
}

#[test]
fn our_view_change_through_network_event() {
    let mut state = state_with_view(vec![HASH_A], HASH_A);
    let fetched = vec![RelayParentInfo {
        relay_parent: HASH_B,
        signing_context: context(HASH_B),
        validator_set: vec![VALIDATOR],
    }];
    let out = state.handle_network_msg(NetworkBridgeEvent::OurViewChange(RelayView::new(vec![HASH_B])), true, &fetched);
    assert!(out.is_empty());
    assert!(state.find_rpd(HASH_A).is_none());
    assert!(state.find_rpd(HASH_B).is_some());
    let out = state.handle_network_msg(
        NetworkBridgeEvent::NewGossipTopology { our_neighbors_x: vec![PEER_A], our_neighbors_y: vec![] },
        true,
        &fetched,
    );
    assert!(out.is_empty());
    assert_eq!(state.gossip_peers, vec![PEER_A]);
    let subject = state.signature_subject(HASH_B, 0);
    assert_eq!(subject, Some((context(HASH_B), VALIDATOR)));
    assert_eq!(state.signature_subject(HASH_B, 1), None);
    assert_eq!(state.signature_subject(HASH_A, 0), None);
}

#[test]
fn do_not_send_message_back_to_origin() {
    let hash: BlockHash = 0;
    let mut state = state_with_view(vec![hash], hash);
    state.peer_views.push((PEER_B, RelayView::new(vec![hash])));
    state.peer_views.push((PEER_A, RelayView::new(vec![hash])));
    state.gossip_peers = vec![PEER_A, PEER_B];
    let msg = message(hash, 0, 1);

    let out = state.handle_peer_message(PEER_B, msg.duplicate(), true);
    assert_eq!(out.len(), 3);
    assert_eq!(out[0], provision(hash, signed(0, 1)));
    assert_eq!(out[1], Action::SendValidation { peers: vec![PEER_A], message: msg.duplicate() });
    assert_eq!(out[2], report(PEER_B, BENEFIT_VALID_MESSAGE_FIRST));
}

#[test]
fn need_message_works() {
    let validator_set: Vec<ValidatorId> = vec![1, 2];
    let mut state = PerRelayParentData::new(context(0), validator_set.clone());

    let pretend_send = |state: &mut PerRelayParentData, dest: PeerId, by: ValidatorId| -> bool {
        if state.message_from_validator_needed_by_peer(dest, by) {
            state.mark_sent(dest, by);
            true
        } else {
            false
        }
    };

    assert!(pretend_send(&mut state, PEER_A, validator_set[0]));
    assert!(pretend_send(&mut state, PEER_B, validator_set[1]));
    // sending the same thing must not be allowed
    assert!(!pretend_send(&mut state, PEER_A, validator_set[0]));

    state.mark_received(PEER_A, validator_set[0]);
    assert!(!pretend_send(&mut state, PEER_A, validator_set[0]));
    assert!(!pretend_send(&mut state, PEER_B, validator_set[1]));

    state.mark_received(PEER_A, validator_set[0]);
    assert!(!pretend_send(&mut state, PEER_A, validator_set[0]));
    assert!(!pretend_send(&mut state, PEER_B, validator_set[1]));
}

#[test]
fn received_bitfield_is_not_needed_by_its_sender() {
    let mut rpd = PerRelayParentData::new(context(0), vec![1, 2]);
    assert!(rpd.message_from_validator_needed_by_peer(PEER_A, 1));
    rpd.mark_received(PEER_A, 1);
    assert!(!rpd.message_from_validator_needed_by_peer(PEER_A, 1));
    assert!(rpd.message_from_validator_needed_by_peer(PEER_A, 2));
    assert!(rpd.message_from_validator_needed_by_peer(PEER_B, 1));
}

#[test]
fn relay_to_gossip_peers_interested_in_relay_parent_only() {
    let mut state = state_with_view(vec![HASH_A, HASH_B], HASH_A);
    // A: gossip, interested; B: gossip, other relay parent; 300: interested, not gossip
    state.peer_views.push((PEER_A, RelayView::new(vec![HASH_A])));
    state.peer_views.push((PEER_B, RelayView::new(vec![HASH_B])));
    state.peer_views.push((300, RelayView::new(vec![HASH_A])));
    state.gossip_peers = vec![PEER_A, PEER_B];
    let out = state.distribute_own_bitfield(HASH_A, signed(0, 1));
    assert_eq!(out.len(), 2);
    assert_eq!(out[1], Action::SendValidation { peers: vec![PEER_A], message: message(HASH_A, 0, 1) });
}

#[test]
fn relay_with_no_interested_peer_only_provisions() {
    let mut state = state_with_view(vec![HASH_A], HASH_A);
    let out = state.distribute_own_bitfield(HASH_A, signed(0, 1));
    assert_eq!(out, vec![provision(HASH_A, signed(0, 1))]);
}

#[test]
fn distribute_own_bitfield_once_per_validator() {
    let mut state = state_with_view(vec![HASH_A], HASH_A);
    state.peer_views.push((PEER_A, RelayView::new(vec![HASH_A])));
    state.gossip_peers = vec![PEER_A];
    let out = state.distribute_own_bitfield(HASH_A, signed(0, 1));
    assert_eq!(out.len(), 2);
    let out = state.distribute_own_bitfield(HASH_A, signed(0, 1));
    assert!(out.is_empty());
    // and a peer then sending it is rated as a known copy, not relayed back
    let out = state.handle_peer_message(PEER_A, message(HASH_A, 0, 1), true);
    assert_eq!(out, vec![report(PEER_A, BENEFIT_VALID_MESSAGE)]);
}

#[test]
fn distribute_own_bitfield_outside_view_is_dropped() {
    let mut state = state_with_view(vec![HASH_A], HASH_A);
    assert!(state.distribute_own_bitfield(HASH_B, signed(0, 1)).is_empty());
    assert!(state.distribute_own_bitfield(HASH_A, signed(5, 1)).is_empty());
    assert!(state.per_relay_parent[0].1.one_per_validator.is_empty());
}

#[test]
fn message_for_relay_parent_without_data_is_not_in_view() {
    let mut state = state_with_view(vec![HASH_A], HASH_A);
    state.view = RelayView::new(vec![HASH_A, HASH_B]);
    let out = state.handle_peer_message(PEER_A, message(HASH_B, 0, 1), true);
    assert_eq!(out, vec![report(PEER_A, COST_NOT_IN_VIEW)]);
}

#[test]
fn peer_view_change_catches_up_gossip_peer() {
    let mut state = state_with_view(vec![HASH_A, HASH_B], HASH_A);
    state.per_relay_parent[0].1.validator_set = vec![VALIDATOR, 8];
    state.distribute_own_bitfield(HASH_A, signed(0, 1));
    state.distribute_own_bitfield(HASH_A, signed(1, 2));
    state.gossip_peers = vec![PEER_A];
    state.handle_peer_connected(PEER_A);
    let out = state.handle_peer_view_change(PEER_A, RelayView::new(vec![HASH_A]));
    assert_eq!(
        out,
        vec![
            Action::SendValidation { peers: vec![PEER_A], message: message(HASH_A, 0, 1) },
            Action::SendValidation { peers: vec![PEER_A], message: message(HASH_A, 1, 2) },
        ]
    );
    // a repeated announcement sends nothing more
    let out = state.handle_peer_view_change(PEER_A, RelayView::new(vec![HASH_A, HASH_B]));
    assert!(out.is_empty());
}

#[test]
fn peer_view_change_skips_non_gossip_peer_and_sender() {
    let mut state = state_with_view(vec![HASH_A], HASH_A);
    state.handle_peer_connected(PEER_B);
    state.handle_peer_message(PEER_B, message(HASH_A, 0, 1), true);
    // not a gossip peer: no catch-up
    let out = state.handle_peer_view_change(PEER_A, RelayView::new(vec![HASH_A]));
    assert!(out.is_empty());
    // the sender itself never gets its bitfield back
    state.gossip_peers = vec![PEER_B];
    let out = state.handle_peer_view_change(PEER_B, RelayView::new(vec![HASH_A]));
    assert!(out.is_empty());
}

#[test]
fn gossip_topology_is_union_of_neighbours() {
    let mut state = ProtocolState::new();
    state.handle_gossip_topology(&vec![1, 2], &vec![2, 3]);
    let mut peers = state.gossip_peers.clone();
    peers.dedup();
    assert_eq!(sorted(peers), vec![1, 2, 3]);
}

#[test]
fn disconnect_forgets_peer() {
    let mut state = state_with_view(vec![HASH_A], HASH_A);
    state.handle_peer_connected(PEER_B);
    state.handle_peer_message(PEER_B, message(HASH_A, 0, 1), true);
    state.handle_peer_disconnected(PEER_B);
    assert!(state.find_peer(PEER_B).is_none());
    assert!(state.per_relay_parent[0].1.message_from_validator_needed_by_peer(PEER_B, VALIDATOR));
    // what was cached stays cached
    assert_eq!(state.per_relay_parent[0].1.one_per_validator.len(), 1);
}

#[test]
fn our_view_change_drops_and_adds_relay_parents() {
    let mut state = state_with_view(vec![HASH_A], HASH_A);
    state.distribute_own_bitfield(HASH_A, signed(0, 1));
    let new_view = RelayView::new(vec![HASH_B, 2]);
    let mut to_fetch = state.heads_to_fetch(&new_view);
    to_fetch.sort();
    assert_eq!(to_fetch, vec![HASH_B, 2]);
    let fetched = vec![RelayParentInfo {
        relay_parent: HASH_B,
        signing_context: context(HASH_B),
        validator_set: vec![1, 2, 3],
    }];
    state.handle_our_view_change(new_view, &fetched);
    assert_eq!(state.view.heads, vec![HASH_B, 2]);
    assert!(state.find_rpd(HASH_A).is_none());
    assert!(state.find_rpd(2).is_none());
    let i = state.find_rpd(HASH_B).unwrap();
    assert_eq!(state.per_relay_parent[i].1.validator_set, vec![1, 2, 3]);
    assert!(state.per_relay_parent[i].1.one_per_validator.is_empty());

    // re-entering the view brings no old bitfield back
    let fetched = vec![RelayParentInfo {
        relay_parent: HASH_A,
        signing_context: context(HASH_A),
        validator_set: vec![VALIDATOR],
    }];
    state.handle_our_view_change(RelayView::new(vec![HASH_A, HASH_B]), &fetched);
    let i = state.find_rpd(HASH_A).unwrap();
    assert!(state.per_relay_parent[i].1.one_per_validator.is_empty());
    assert_eq!(state.find_rpd(HASH_B).map(|_| true), Some(true));
}

#[test]
fn honest_peer_is_never_penalised() {
    let mut state = state_with_view(vec![HASH_A], HASH_A);
    state.per_relay_parent[0].1.validator_set = vec![1, 2, 3];
    let mut total: i64 = 0;
    for peer in [PEER_A, PEER_B] {
        for index in 0..3u32 {
            for a in state.handle_peer_message(peer, message(HASH_A, index, 1), true) {
                if let Action::ReportPeer { peer: p, delta } = a {
                    assert_eq!(p, peer);
                    assert!(delta > 0);
                    total += delta as i64;
                }
            }
        }
    }
    assert_eq!(total, 3 * BENEFIT_VALID_MESSAGE_FIRST as i64 + 3 * BENEFIT_VALID_MESSAGE as i64);
}

#[test]
fn reputation_costs_are_ordered() {
    assert!(BENEFIT_VALID_MESSAGE_FIRST > BENEFIT_VALID_MESSAGE);
    assert!(BENEFIT_VALID_MESSAGE > 0);
    for cost in [
        COST_SIGNATURE_INVALID,
        COST_VALIDATOR_INDEX_INVALID,
        COST_MISSING_PEER_VIEW,
        COST_NOT_IN_VIEW,
        COST_PEER_DUPLICATE_MESSAGE,
    ] {
        assert!(cost < 0);
    }
    assert!(COST_SIGNATURE_INVALID < 0);
}
