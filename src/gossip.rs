//! Choosing the peers a bitfield goes to, and recording what was sent.
use vstd::prelude::*;
use crate::action::{Action, ActionView, actions_view};
use crate::primitives::{
    BitfieldGossipMessage, BlockHash, GossipMessageView, PeerId, RelayView, SignedBitfieldView,
    ValidatorId, contains_id,
};
use crate::relay_parent::PerRelayParentData;

verus! {

/// Whether `peer` announced a view that holds `h`.
pub open spec fn peer_interested(peer_views: Seq<(PeerId, RelayView)>, peer: PeerId, h: BlockHash) -> bool {
    exists|j: int|
        0 <= j < peer_views.len() && (#[trigger] peer_views[j]).0 == peer
            && peer_views[j].1.heads_set().contains(h)
}

/// The peers a bitfield of `v` for relay parent `h` is to be relayed to:
/// gossip peers interested in `h` to whom it is still needed.
pub open spec fn interested_peers(
    sent: Set<(PeerId, ValidatorId)>,
    received: Set<(PeerId, ValidatorId)>,
    gossip_peers: Seq<PeerId>,
    peer_views: Seq<(PeerId, RelayView)>,
    h: BlockHash,
    v: ValidatorId,
) -> Set<PeerId> {
    Set::new(
        |p: PeerId|
            gossip_peers.contains(p) && peer_interested(peer_views, p, h) && !sent.contains((p, v))
                && !received.contains((p, v)),
    )
}

/// The pairs `(p, v)` for each `p` of `peers`.
pub open spec fn pairs_with(peers: Set<PeerId>, v: ValidatorId) -> Set<(PeerId, ValidatorId)> {
    Set::new(|e: (PeerId, ValidatorId)| peers.contains(e.0) && e.1 == v)
}

/// The peers of `interested_peers`, each once, in the order of `peer_views`.
pub fn select_peers(
    rpd: &PerRelayParentData,
    gossip_peers: &Vec<PeerId>,
    peer_views: &Vec<(PeerId, RelayView)>,
    h: BlockHash,
    v: ValidatorId,
) -> (r: Vec<PeerId>)
    ensures
        r@.no_duplicates(),
        r@.to_set() == interested_peers(rpd.sent(), rpd.received(), gossip_peers@, peer_views@, h, v),
{
    let ghost target = interested_peers(rpd.sent(), rpd.received(), gossip_peers@, peer_views@, h, v);
    let mut r: Vec<PeerId> = Vec::new();
    let mut i: usize = 0;
    while i < peer_views.len()
        invariant
            i <= peer_views.len(),
            r@.no_duplicates(),
            target == interested_peers(rpd.sent(), rpd.received(), gossip_peers@, peer_views@, h, v),
            forall|p: PeerId| #[trigger] r@.contains(p) ==> target.contains(p),
            forall|j: int|
                0 <= j < i && #[trigger] target.contains(peer_views@[j].0)
                    && peer_views@[j].1.heads_set().contains(h) ==> r@.contains(peer_views@[j].0),
        decreases peer_views.len() - i,
    {
        let p = peer_views[i].0;
        let ghost r0 = r@;
        if contains_id(gossip_peers, p) && peer_views[i].1.contains(h)
            && rpd.message_from_validator_needed_by_peer(p, v) && !contains_id(&r, p) {
            assert(peer_interested(peer_views@, p, h));
            assert(target.contains(p));
            r.push(p);
            assert(r@[r@.len() - 1] == p);
            assert forall|a: int, b: int| 0 <= a < b < r@.len() implies r@[a] != r@[b] by {
                if b == r@.len() - 1 {
                    assert(r0[a] == r@[a]);
                }
            }
        }
        assert forall|q: PeerId| #[trigger] r@.contains(q) implies target.contains(q) by {
            if q != p {
                let k = choose|k: int| 0 <= k < r@.len() && r@[k] == q;
                assert(r0[k] == q);
                assert(r0.contains(q));
            }
        }
        assert forall|j: int|
            0 <= j < i + 1 && #[trigger] target.contains(peer_views@[j].0)
                && peer_views@[j].1.heads_set().contains(h) implies r@.contains(
            peer_views@[j].0,
        ) by {
            if j < i {
                let k = choose|k: int| 0 <= k < r0.len() && r0[k] == peer_views@[j].0;
                assert(r@[k] == r0[k]);
            } else if !r0.contains(p) {
                assert(r@[r@.len() - 1] == p);
            } else {
                let k = choose|k: int| 0 <= k < r0.len() && r0[k] == p;
                assert(r@[k] == r0[k]);
            }
        }
        i = i + 1;
    }
    assert forall|p: PeerId| target.contains(p) implies r@.to_set().contains(p) by {
        let j = choose|j: int|
            0 <= j < peer_views@.len() && (#[trigger] peer_views@[j]).0 == p
                && peer_views@[j].1.heads_set().contains(h);
        assert(target.contains(peer_views@[j].0));
    }
    assert(r@.to_set() =~= target);
    r
}

/// Records that the bitfield of `v` was sent to each of `peers`.
pub fn mark_sent_to_all(rpd: &mut PerRelayParentData, peers: &Vec<PeerId>, v: ValidatorId)
    ensures
        final(rpd).sent() == old(rpd).sent().union(pairs_with(peers@.to_set(), v)),
        final(rpd).received() == old(rpd).received(),
        final(rpd).cache() == old(rpd).cache(),
        final(rpd).signing_context == old(rpd).signing_context,
        final(rpd).validator_set@ == old(rpd).validator_set@,
{
    let mut i: usize = 0;
    while i < peers.len()
        invariant
            i <= peers.len(),
            rpd.sent() == old(rpd).sent().union(
                pairs_with(peers@.subrange(0, i as int).to_set(), v),
            ),
            rpd.received() == old(rpd).received(),
            rpd.cache() == old(rpd).cache(),
            rpd.signing_context == old(rpd).signing_context,
            rpd.validator_set@ == old(rpd).validator_set@,
        decreases peers.len() - i,
    {
        rpd.mark_sent(peers[i], v);
        proof {
            let s0 = peers@.subrange(0, i as int);
            let s1 = peers@.subrange(0, i + 1);
            assert(s1 =~= s0.push(peers@[i as int]));
            crate::relay_parent::lemma_push_to_set(s0, peers@[i as int]);
            assert(old(rpd).sent().union(pairs_with(s1.to_set(), v)) =~= old(rpd).sent().union(
                pairs_with(s0.to_set(), v),
            ).insert((peers@[i as int], v)));
        }
        i = i + 1;
    }
    assert(peers@.subrange(0, peers@.len() as int) =~= peers@);
}

/// Relays a bitfield of `v`: hands it to the provisioner, then sends it once
/// to every interested gossip peer that neither sent it to us nor got it from
/// us, and records those sends.
pub fn relay_message(
    rpd: &mut PerRelayParentData,
    gossip_peers: &Vec<PeerId>,
    peer_views: &Vec<(PeerId, RelayView)>,
    validator: ValidatorId,
    message: BitfieldGossipMessage,
) -> (r: Vec<Action>)
    ensures
        ({
            let targets = interested_peers(
                old(rpd).sent(),
                old(rpd).received(),
                gossip_peers@,
                peer_views@,
                message.relay_parent,
                validator,
            );
            &&& r@.len() == if targets.is_empty() { 1int } else { 2int }
            &&& actions_view(r@)[0] == ActionView::Provision(
                message.relay_parent,
                message.signed_availability@,
            )
            &&& !targets.is_empty() ==> (actions_view(r@)[1] matches ActionView::SendValidation(
                peers,
                m,
            ) && peers.no_duplicates() && peers.to_set() == targets && m == message@)
            &&& final(rpd).sent() == old(rpd).sent().union(pairs_with(targets, validator))
        }),
        final(rpd).received() == old(rpd).received(),
        final(rpd).cache() == old(rpd).cache(),
        final(rpd).signing_context == old(rpd).signing_context,
        final(rpd).validator_set@ == old(rpd).validator_set@,
{
    let h = message.relay_parent;
    let peers = select_peers(rpd, gossip_peers, peer_views, h, validator);
    mark_sent_to_all(rpd, &peers, validator);
    let mut r: Vec<Action> = Vec::new();
    r.push(
        Action::Provision { relay_parent: h, signed: message.signed_availability.duplicate() },
    );
    if peers.len() > 0 {
        assert(peers@.to_set().contains(peers@[0]));
        r.push(Action::SendValidation { peers, message });
    } else {
        assert(peers@.to_set() =~= Set::<PeerId>::empty());
    }
    r
}

/// The pairs `(peer, v)` for each validator `v` whose cached bitfield `peer`
/// still needs.
pub open spec fn catch_up_pairs(d: PerRelayParentData, peer: PeerId) -> Set<(PeerId, ValidatorId)> {
    Set::new(
        |e: (PeerId, ValidatorId)| e.0 == peer && d.has_cached(e.1) && d.needed(peer, e.1),
    )
}

/// The catch-up messages for `peer` from the cached entries `cache` of `d`,
/// in order: one for each validator whose bitfield `peer` still needs.
pub open spec fn catch_up_messages(
    cache: Seq<(ValidatorId, SignedBitfieldView)>,
    d: PerRelayParentData,
    h: BlockHash,
    peer: PeerId,
) -> Seq<ActionView>
    decreases cache.len(),
{
    if cache.len() == 0 {
        Seq::empty()
    } else {
        let prev = catch_up_messages(cache.drop_last(), d, h, peer);
        let last = cache.last();
        if d.needed(peer, last.0) {
            prev.push(
                ActionView::SendValidation(
                    seq![peer],
                    GossipMessageView { relay_parent: h, signed: last.1 },
                ),
            )
        } else {
            prev
        }
    }
}

/// `a` sends to `peer` alone the cached bitfield at position `c` of `d`, for
/// relay parent `h`, and `peer` still needed it.
pub open spec fn is_catch_up_send(
    a: ActionView,
    d: PerRelayParentData,
    h: BlockHash,
    peer: PeerId,
) -> bool {
    a matches ActionView::SendValidation(ps, m) && ps == seq![peer] && m.relay_parent == h
        && exists|c: int|
        0 <= c < d.cache().len() && m.signed == (#[trigger] d.cache()[c]).1 && catch_up_pairs(
            d,
            peer,
        ).contains((peer, d.cache()[c].0))
}

/// Sends `peer`, one message each, every cached bitfield of relay parent `h`
/// that it still needs, and records those sends.
pub fn send_cached_to_peer(d: &mut PerRelayParentData, h: BlockHash, peer: PeerId) -> (r: Vec<
    Action,
>)
    requires
        old(d).wf(),
    ensures
        final(d).wf(),
        final(d).sent() == old(d).sent().union(catch_up_pairs(*old(d), peer)),
        final(d).received() == old(d).received(),
        final(d).cache() == old(d).cache(),
        final(d).signing_context == old(d).signing_context,
        final(d).validator_set@ == old(d).validator_set@,
        forall|k: int| 0 <= k < r@.len() ==> is_catch_up_send(#[trigger] r@[k]@, *old(d), h, peer),
        actions_view(r@) == catch_up_messages(old(d).cache(), *old(d), h, peer),
{
    let ghost d0 = *d;
    let mut r: Vec<Action> = Vec::new();
    let mut c: usize = 0;
    while c < d.one_per_validator.len()
        invariant
            c <= d.cache().len(),
            d.wf(),
            d0.wf(),
            d.cache() == d0.cache(),
            d.received() == d0.received(),
            d.signing_context == d0.signing_context,
            d.validator_set@ == d0.validator_set@,
            d.sent() == d0.sent().union(
                Set::new(
                    |e: (PeerId, ValidatorId)|
                        e.0 == peer && d0.needed(peer, e.1) && exists|c2: int|
                            0 <= c2 < c && (#[trigger] d0.cache()[c2]).0 == e.1,
                ),
            ),
            forall|k: int| 0 <= k < r@.len() ==> is_catch_up_send(#[trigger] r@[k]@, d0, h, peer),
            actions_view(r@) == catch_up_messages(d0.cache().subrange(0, c as int), d0, h, peer),
        decreases d.one_per_validator.len() - c,
    {
        let v = d.one_per_validator[c].0;
        proof {
            assert(d0.cache().subrange(0, c + 1).drop_last() =~= d0.cache().subrange(0, c as int));
            assert(d0.cache().subrange(0, c + 1).last() == d0.cache()[c as int]);
        }
        assert(d.cache()[c as int].0 == v);
        proof {
            // no earlier position holds `v`, so nothing sent so far concerns it
            assert forall|c2: int| 0 <= c2 < c implies (#[trigger] d0.cache()[c2]).0 != v by {
                assert(d0.cache()[c2].0 != d0.cache()[c as int].0);
            }
        }
        if d.message_from_validator_needed_by_peer(peer, v) {
            let signed = d.one_per_validator[c].1.duplicate();
            d.mark_sent(peer, v);
            let mut peers: Vec<PeerId> = Vec::new();
            peers.push(peer);
            let a = Action::SendValidation {
                peers,
                message: BitfieldGossipMessage { relay_parent: h, signed_availability: signed },
            };
            proof {
                assert(d0.cache()[c as int].0 == v);
                assert(d0.has_cached(v));
                assert(catch_up_pairs(d0, peer).contains((peer, v)));
                assert(a@ matches ActionView::SendValidation(ps, m) && ps =~= seq![peer]);
            }
            r.push(a);
            assert(r@[r@.len() - 1]@ == a@);
            assert forall|k: int| 0 <= k < r@.len() implies is_catch_up_send(
                #[trigger] r@[k]@,
                d0,
                h,
                peer,
            ) by {
                if k == r@.len() - 1 {
                    assert(is_catch_up_send(a@, d0, h, peer));
                }
            }
        }
        assert(actions_view(r@) =~= catch_up_messages(
            d0.cache().subrange(0, c + 1),
            d0,
            h,
            peer,
        ));
        assert(d.sent() =~= d0.sent().union(
            Set::new(
                |e: (PeerId, ValidatorId)|
                    e.0 == peer && d0.needed(peer, e.1) && exists|c2: int|
                        0 <= c2 < c + 1 && (#[trigger] d0.cache()[c2]).0 == e.1,
            ),
        ));
        c = c + 1;
    }
    assert(d.sent() =~= d0.sent().union(catch_up_pairs(d0, peer)));
    assert(d0.cache().subrange(0, d0.cache().len() as int) =~= d0.cache());
    r
}

} // verus!
