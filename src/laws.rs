//! Properties of the gossip core that relate several calls.
use vstd::prelude::*;
use crate::gossip::{catch_up_pairs, interested_peers, pairs_with};
use crate::primitives::{BlockHash, GossipMessageView, PeerId, RelayView, ValidatorId};
use crate::relay_parent::PerRelayParentData;
use crate::reputation::{BENEFIT_VALID_MESSAGE, BENEFIT_VALID_MESSAGE_FIRST};
use crate::state::{ProtocolState, Verdict, peer_message_verdict};

verus! {

/// Relaying is idempotent: once a bitfield of `v` has been relayed and the
/// chosen peers recorded as sent, relaying it again chooses no peer, so the
/// second call sends nothing.
pub proof fn lemma_relay_idempotent(
    sent: Set<(PeerId, ValidatorId)>,
    received: Set<(PeerId, ValidatorId)>,
    gossip_peers: Seq<PeerId>,
    peer_views: Seq<(PeerId, RelayView)>,
    h: BlockHash,
    v: ValidatorId,
)
    ensures
        interested_peers(
            sent.union(pairs_with(interested_peers(sent, received, gossip_peers, peer_views, h, v), v)),
            received,
            gossip_peers,
            peer_views,
            h,
            v,
        ).is_empty(),
{
    let first = interested_peers(sent, received, gossip_peers, peer_views, h, v);
    let second = interested_peers(
        sent.union(pairs_with(first, v)),
        received,
        gossip_peers,
        peer_views,
        h,
        v,
    );
    assert forall|p: PeerId| !second.contains(p) by {
        if second.contains(p) {
            assert(first.contains(p));
            assert(pairs_with(first, v).contains((p, v)));
        }
    }
    assert(second =~= Set::<PeerId>::empty());
}

/// At most one send per peer, validator and relay parent: a peer recorded as
/// sent the bitfield of `v` is chosen for it neither by a relay nor by a
/// catch-up.
pub proof fn lemma_send_at_most_once(
    d: PerRelayParentData,
    gossip_peers: Seq<PeerId>,
    peer_views: Seq<(PeerId, RelayView)>,
    h: BlockHash,
    v: ValidatorId,
    peer: PeerId,
)
    requires
        d.sent().contains((peer, v)),
    ensures
        !interested_peers(d.sent(), d.received(), gossip_peers, peer_views, h, v).contains(peer),
        !catch_up_pairs(d, peer).contains((peer, v)),
{
}

/// No send back to the origin: a peer that sent us the bitfield of `v` is
/// chosen for it neither by a relay nor by a catch-up, including the relay
/// that follows its own message.
pub proof fn lemma_no_send_back_to_origin(
    d: PerRelayParentData,
    gossip_peers: Seq<PeerId>,
    peer_views: Seq<(PeerId, RelayView)>,
    h: BlockHash,
    v: ValidatorId,
    origin: PeerId,
)
    ensures
        !interested_peers(
            d.sent(),
            d.received().insert((origin, v)),
            gossip_peers,
            peer_views,
            h,
            v,
        ).contains(origin),
        d.received().contains((origin, v)) ==> !interested_peers(
            d.sent(),
            d.received(),
            gossip_peers,
            peer_views,
            h,
            v,
        ).contains(origin) && !catch_up_pairs(d, origin).contains((origin, v)),
{
}

/// At most one provisioner hand-off per validator and relay parent: the
/// first valid bitfield of `v` leaves `v` cached, and while `v` is cached no
/// incoming bitfield naming it is classified as first.
pub proof fn lemma_provision_at_most_once(
    s: ProtocolState,
    d1: PerRelayParentData,
    peer: PeerId,
    m: GossipMessageView,
    signature_valid: bool,
    v: ValidatorId,
    signed: crate::primitives::SignedBitfieldView,
)
    requires
        d1.cache() == s.rpd_at(m.relay_parent).cache().push((v, signed)),
    ensures
        d1.has_cached(v),
        s.has_rpd(m.relay_parent) && (m.signed.validator_index as int) < s.rpd_at(
            m.relay_parent,
        ).validator_set@.len() && s.rpd_at(m.relay_parent).has_cached(
            s.rpd_at(m.relay_parent).validator_set@[m.signed.validator_index as int],
        ) ==> peer_message_verdict(s, peer, m, signature_valid) != Verdict::First,
{
    let n = s.rpd_at(m.relay_parent).cache().len() as int;
    assert(d1.cache()[n].0 == v);
}

/// An honest peer is never penalised: a correctly signed bitfield with a
/// valid index, for a relay parent we track, that the peer has not sent
/// before, is classified as first, as a known copy or as a known other
/// bitfield, whose ratings are all benefits or nothing.
pub proof fn lemma_honest_peer_not_penalized(s: ProtocolState, peer: PeerId, m: GossipMessageView)
    requires
        s.view.heads_set().contains(m.relay_parent),
        s.has_rpd(m.relay_parent),
        (m.signed.validator_index as int) < s.rpd_at(m.relay_parent).validator_set@.len(),
        !s.rpd_at(m.relay_parent).received().contains(
            (peer, s.rpd_at(m.relay_parent).validator_set@[m.signed.validator_index as int]),
        ),
    ensures
        ({
            let verdict = peer_message_verdict(s, peer, m, true);
            verdict == Verdict::First || verdict == Verdict::KnownSame || verdict
                == Verdict::KnownDifferent
        }),
        BENEFIT_VALID_MESSAGE_FIRST > 0,
        BENEFIT_VALID_MESSAGE > 0,
{
}

} // verus!
