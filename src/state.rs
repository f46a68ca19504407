//! The protocol state: every active relay parent, the peers' views, the gossip
//! neighbourhood and our own view, with the transitions driven by events.
use vstd::prelude::*;
use crate::action::{Action, ActionView, actions_view};
use crate::gossip::{
    catch_up_messages, catch_up_pairs, interested_peers, is_catch_up_send, pairs_with, peer_interested,
    relay_message, send_cached_to_peer,
};
use crate::primitives::{
    BitfieldGossipMessage, BlockHash, GossipMessageView, PeerId, RelayView, SignedBitfield,
    SigningContext, ValidatorId, contains_id, copy_ids,
};
use crate::relay_parent::PerRelayParentData;
use crate::reputation::{
    BENEFIT_VALID_MESSAGE, BENEFIT_VALID_MESSAGE_FIRST, COST_NOT_IN_VIEW,
    COST_PEER_DUPLICATE_MESSAGE, COST_SIGNATURE_INVALID, COST_VALIDATOR_INDEX_INVALID,
};

verus! {

/// Everything the gossip core knows between two events.
#[derive(Debug)]
pub struct ProtocolState {
    /// Data of each active relay parent, keyed by its hash.
    pub per_relay_parent: Vec<(BlockHash, PerRelayParentData)>,
    /// The view each connected peer announced, keyed by peer.
    pub peer_views: Vec<(PeerId, RelayView)>,
    /// The current gossip neighbourhood.
    pub gossip_peers: Vec<PeerId>,
    /// The relay parents we consider active.
    pub view: RelayView,
}

/// How an incoming bitfield from a peer is classified.
#[derive(Clone, Copy, Debug, PartialEq, Eq, Structural)]
pub enum Verdict {
    /// Its relay parent is not one we track.
    NotInView,
    /// Its validator index lies outside the validator set.
    InvalidIndex,
    /// The peer already sent us this validator's bitfield.
    Duplicate,
    /// We already hold this very bitfield from another source.
    KnownSame,
    /// We already hold another bitfield of this validator.
    KnownDifferent,
    /// First of its validator, but the signature does not verify.
    InvalidSignature,
    /// First valid bitfield of its validator.
    First,
}

/// The classification of `m` arriving from `peer` in state `s`, where
/// `signature_valid` tells whether its signature verifies against the
/// validator its index names and the relay parent's signing context.
pub open spec fn peer_message_verdict(
    s: ProtocolState,
    peer: PeerId,
    m: GossipMessageView,
    signature_valid: bool,
) -> Verdict {
    let h = m.relay_parent;
    if !s.view.heads_set().contains(h) || !s.has_rpd(h) {
        Verdict::NotInView
    } else {
        let d = s.rpd_at(h);
        let idx = m.signed.validator_index as int;
        if idx >= d.validator_set@.len() {
            Verdict::InvalidIndex
        } else {
            let v = d.validator_set@[idx];
            if d.received().contains((peer, v)) {
                Verdict::Duplicate
            } else if d.has_cached(v) {
                if d.cached_of(v) == m.signed {
                    Verdict::KnownSame
                } else {
                    Verdict::KnownDifferent
                }
            } else if !signature_valid {
                Verdict::InvalidSignature
            } else {
                Verdict::First
            }
        }
    }
}

/// The effect of `m` arriving from `peer` in state `s0`: the state `s1` it
/// leads to and the actions `r`, for each classification.
pub open spec fn peer_message_effect(
    s0: ProtocolState,
    s1: ProtocolState,
    peer: PeerId,
    m: GossipMessageView,
    signature_valid: bool,
    r: Seq<ActionView>,
) -> bool {
    let verdict = peer_message_verdict(s0, peer, m, signature_valid);
    let h = m.relay_parent;
    let d0 = s0.rpd_at(h);
    let d1 = s1.rpd_at(h);
    let v = d0.validator_set@[m.signed.validator_index as int];
    let targets = interested_peers(
        d0.sent(),
        d0.received().insert((peer, v)),
        s0.gossip_peers@,
        s0.peer_views@,
        h,
        v,
    );
    &&& verdict == Verdict::NotInView ==> s1 == s0 && r
        == seq![ActionView::ReportPeer(peer, COST_NOT_IN_VIEW)]
    &&& verdict == Verdict::InvalidIndex ==> s1 == s0 && r
        == seq![ActionView::ReportPeer(peer, COST_VALIDATOR_INDEX_INVALID)]
    &&& verdict == Verdict::Duplicate ==> s1 == s0 && r
        == seq![ActionView::ReportPeer(peer, COST_PEER_DUPLICATE_MESSAGE)]
    &&& verdict == Verdict::KnownSame ==> r == seq![
        ActionView::ReportPeer(peer, BENEFIT_VALID_MESSAGE),
    ]
    &&& verdict == Verdict::KnownDifferent ==> r.len() == 0
    &&& verdict == Verdict::InvalidSignature ==> r == seq![
        ActionView::ReportPeer(peer, COST_SIGNATURE_INVALID),
    ]
    &&& (verdict == Verdict::KnownSame || verdict == Verdict::KnownDifferent || verdict
        == Verdict::InvalidSignature || verdict == Verdict::First) ==> {
        &&& s1.same_except(&s0, h)
        &&& s1.has_rpd(h)
        &&& s1.rpd_index(h) == s0.rpd_index(h)
        &&& d1.received() == d0.received().insert((peer, v))
        &&& d1.signing_context == d0.signing_context
        &&& d1.validator_set@ == d0.validator_set@
    }
    &&& (verdict == Verdict::KnownSame || verdict == Verdict::KnownDifferent || verdict
        == Verdict::InvalidSignature) ==> d1.sent() == d0.sent() && d1.cache()
        == d0.cache()
    &&& verdict == Verdict::First ==> {
        &&& d1.cache() == d0.cache().push((v, m.signed))
        &&& d1.sent() == d0.sent().union(pairs_with(targets, v))
        &&& r.len() == if targets.is_empty() { 2int } else { 3int }
        &&& r[0] == ActionView::Provision(h, m.signed)
        &&& r[r.len() - 1] == ActionView::ReportPeer(
            peer,
            BENEFIT_VALID_MESSAGE_FIRST,
        )
        &&& !targets.is_empty() ==> (r[1] matches ActionView::SendValidation(
            ps,
            sent_m,
        ) && ps.no_duplicates() && ps.to_set() == targets && sent_m == m)
    }
}

/// The catch-up messages, in order, for `peer` after it announced `heads`:
/// those of each entry of `rps` whose relay parent is to be offered to it.
pub open spec fn view_change_messages(
    rps: Seq<(BlockHash, PerRelayParentData)>,
    s: ProtocolState,
    peer: PeerId,
    heads: Set<BlockHash>,
) -> Seq<ActionView>
    decreases rps.len(),
{
    if rps.len() == 0 {
        Seq::empty()
    } else {
        let prev = view_change_messages(rps.drop_last(), s, peer, heads);
        let (h, d) = rps.last();
        if s.catches_up(peer, heads, h) {
            prev + catch_up_messages(d.cache(), d, h, peer)
        } else {
            prev
        }
    }
}

impl ProtocolState {
    /// Whether relay parent `h` has data.
    pub open spec fn has_rpd(&self, h: BlockHash) -> bool {
        exists|i: int|
            0 <= i < self.per_relay_parent@.len() && (#[trigger] self.per_relay_parent@[i]).0 == h
    }

    /// The position of the data of `h`; meaningful where `has_rpd(h)`.
    pub open spec fn rpd_index(&self, h: BlockHash) -> int {
        choose|i: int|
            0 <= i < self.per_relay_parent@.len() && (#[trigger] self.per_relay_parent@[i]).0 == h
    }

    /// The data of relay parent `h`; meaningful where `has_rpd(h)`.
    pub open spec fn rpd_at(&self, h: BlockHash) -> PerRelayParentData {
        self.per_relay_parent@[self.rpd_index(h)].1
    }

    /// Each relay parent and each peer is listed once; each relay parent's
    /// data is well formed.
    pub open spec fn wf(&self) -> bool {
        &&& forall|i: int, j: int|
            0 <= i < j < self.per_relay_parent@.len() ==> (#[trigger] self.per_relay_parent@[i]).0
                != (#[trigger] self.per_relay_parent@[j]).0
        &&& forall|i: int|
            0 <= i < self.per_relay_parent@.len() ==> (#[trigger] self.per_relay_parent@[i]).1.wf()
        &&& forall|i: int, j: int|
            0 <= i < j < self.peer_views@.len() ==> (#[trigger] self.peer_views@[i]).0
                != (#[trigger] self.peer_views@[j]).0
    }

    /// `self` differs from `other` at most in the data of relay parent `h`.
    pub open spec fn same_except(&self, other: &ProtocolState, h: BlockHash) -> bool {
        &&& self.per_relay_parent@.len() == other.per_relay_parent@.len()
        &&& forall|i: int|
            0 <= i < self.per_relay_parent@.len() ==> (#[trigger] self.per_relay_parent@[i]).0
                == other.per_relay_parent@[i].0
        &&& forall|i: int|
            0 <= i < self.per_relay_parent@.len() && other.per_relay_parent@[i].0 != h
                ==> (#[trigger] self.per_relay_parent@[i]) == other.per_relay_parent@[i]
        &&& self.peer_views == other.peer_views
        &&& self.gossip_peers == other.gossip_peers
        &&& self.view == other.view
    }

    /// With relay parents listed once, the data at position `i` is that of its key.
    pub proof fn lemma_index_of(&self, i: int)
        requires
            self.wf(),
            0 <= i < self.per_relay_parent@.len(),
        ensures
            self.has_rpd(self.per_relay_parent@[i].0),
            self.rpd_index(self.per_relay_parent@[i].0) == i,
    {
        let h = self.per_relay_parent@[i].0;
        assert(self.per_relay_parent@[i].0 == h);
        let j = self.rpd_index(h);
        if j < i {
            assert(self.per_relay_parent@[j].0 != self.per_relay_parent@[i].0);
        } else if j > i {
            assert(self.per_relay_parent@[i].0 != self.per_relay_parent@[j].0);
        }
    }

    /// A state that tracks nothing.
    pub fn new() -> (r: ProtocolState)
        ensures
            r.wf(),
            r.per_relay_parent@.len() == 0,
            r.peer_views@.len() == 0,
            r.gossip_peers@.len() == 0,
            r.view.heads@.len() == 0,
    {
        ProtocolState {
            per_relay_parent: Vec::new(),
            peer_views: Vec::new(),
            gossip_peers: Vec::new(),
            view: RelayView::empty(),
        }
    }

    /// The position of the data of relay parent `h`, if it has any.
    pub fn find_rpd(&self, h: BlockHash) -> (r: Option<usize>)
        requires
            self.wf(),
        ensures
            r is None <==> !self.has_rpd(h),
            r matches Some(i) ==> i < self.per_relay_parent@.len() && self.per_relay_parent@[i as int].0
                == h && self.rpd_index(h) == i,
    {
        let mut i: usize = 0;
        while i < self.per_relay_parent.len()
            invariant
                self.wf(),
                i <= self.per_relay_parent@.len(),
                forall|j: int| 0 <= j < i ==> (#[trigger] self.per_relay_parent@[j]).0 != h,
            decreases self.per_relay_parent.len() - i,
        {
            if self.per_relay_parent[i].0 == h {
                proof {
                    self.lemma_index_of(i as int);
                }
                return Some(i);
            }
            i = i + 1;
        }
        None
    }

    /// Handles a bitfield gossiped by `peer`. `signature_valid` tells whether
    /// its signature verifies against the validator its index names and the
    /// relay parent's signing context; it is consulted only for the first
    /// bitfield of a validator.
    pub fn handle_peer_message(
        &mut self,
        peer: PeerId,
        message: BitfieldGossipMessage,
        signature_valid: bool,
    ) -> (r: Vec<Action>)
        requires
            old(self).wf(),
        ensures
            final(self).wf(),
            peer_message_effect(*old(self), *final(self), peer, message@, signature_valid, actions_view(r@)),
    {
        let h = message.relay_parent;
        if !self.view.contains(h) {
            let r = vec![Action::ReportPeer { peer, delta: COST_NOT_IN_VIEW }];
            assert(actions_view(r@) =~= seq![ActionView::ReportPeer(peer, COST_NOT_IN_VIEW)]);
            return r;
        }
        let idx = match self.find_rpd(h) {
            None => {
                let r = vec![Action::ReportPeer { peer, delta: COST_NOT_IN_VIEW }];
                assert(actions_view(r@) =~= seq![ActionView::ReportPeer(peer, COST_NOT_IN_VIEW)]);
                return r;
            },
            Some(i) => i,
        };
        let vi = message.signed_availability.validator_index as usize;
        if vi >= self.per_relay_parent[idx].1.validator_set.len() {
            let r = vec![Action::ReportPeer { peer, delta: COST_VALIDATOR_INDEX_INVALID }];
            assert(actions_view(r@) =~= seq![
                ActionView::ReportPeer(peer, COST_VALIDATOR_INDEX_INVALID),
            ]);
            return r;
        }
        let v = self.per_relay_parent[idx].1.validator_set[vi];
        if self.per_relay_parent[idx].1.received_from(peer, v) {
            let r = vec![Action::ReportPeer { peer, delta: COST_PEER_DUPLICATE_MESSAGE }];
            assert(actions_view(r@) =~= seq![
                ActionView::ReportPeer(peer, COST_PEER_DUPLICATE_MESSAGE),
            ]);
            return r;
        }
        let ghost old_state = *self;
        proof {
            old_state.lemma_index_of(idx as int);
        }
        let (key, mut d) = self.per_relay_parent.remove(idx);
        let ghost d0 = d;
        d.mark_received(peer, v);
        let r = match d.find_cached(v) {
            Some(ci) => {
                proof {
                    let j = choose|j: int|
                        0 <= j < d.cache().len() && (#[trigger] d.cache()[j]).0 == v;
                    if j < ci {
                        assert(d0.cache()[j].0 != d0.cache()[ci as int].0);
                    } else if j > ci {
                        assert(d0.cache()[ci as int].0 != d0.cache()[j].0);
                    }
                    assert(d.cached_of(v) == d.one_per_validator@[ci as int].1@);
                }
                if d.one_per_validator[ci].1.same_as(&message.signed_availability) {
                    let r = vec![Action::ReportPeer { peer, delta: BENEFIT_VALID_MESSAGE }];
                    assert(actions_view(r@) =~= seq![
                        ActionView::ReportPeer(peer, BENEFIT_VALID_MESSAGE),
                    ]);
                    r
                } else {
                    Vec::new()
                }
            },
            None => {
                if !signature_valid {
                    let r = vec![Action::ReportPeer { peer, delta: COST_SIGNATURE_INVALID }];
                    assert(actions_view(r@) =~= seq![
                        ActionView::ReportPeer(peer, COST_SIGNATURE_INVALID),
                    ]);
                    r
                } else {
                    d.cache_bitfield(v, message.signed_availability.duplicate());
                    let mut out = relay_message(
                        &mut d,
                        &self.gossip_peers,
                        &self.peer_views,
                        v,
                        message,
                    );
                    out.push(Action::ReportPeer { peer, delta: BENEFIT_VALID_MESSAGE_FIRST });
                    out
                }
            },
        };
        self.per_relay_parent.insert(idx, (key, d));
        proof {
            assert(self.per_relay_parent@ =~= old_state.per_relay_parent@.update(
                idx as int,
                (key, d),
            ));
            assert(self.wf());
            self.lemma_index_of(idx as int);
        }
        r
    }

    /// The signing context and validator against which a bitfield for `h`
    /// claiming validator index `index` must verify; `None` where `h` has no
    /// data or the index lies outside its validator set.
    pub fn signature_subject(&self, h: BlockHash, index: u32) -> (r: Option<(SigningContext, ValidatorId)>)
        requires
            self.wf(),
        ensures
            r is Some <==> self.has_rpd(h) && (index as int) < self.rpd_at(h).validator_set@.len(),
            r matches Some(x) ==> x.0 == self.rpd_at(h).signing_context && x.1 == self.rpd_at(
                h,
            ).validator_set@[index as int],
    {
        match self.find_rpd(h) {
            None => None,
            Some(i) => {
                let d = &self.per_relay_parent[i].1;
                if (index as usize) < d.validator_set.len() {
                    Some((d.signing_context, d.validator_set[index as usize]))
                } else {
                    None
                }
            },
        }
    }

    /// Whether `peer` has a view entry.
    pub open spec fn has_peer(&self, peer: PeerId) -> bool {
        exists|j: int| 0 <= j < self.peer_views@.len() && (#[trigger] self.peer_views@[j]).0 == peer
    }

    /// Handles a bitfield signed by this node: unless its relay parent is not
    /// tracked, its index is out of range or the validator's bitfield is
    /// already known, it is cached, handed to the provisioner and relayed. No
    /// peer is rated.
    pub fn distribute_own_bitfield(&mut self, relay_parent: BlockHash, signed: SignedBitfield) -> (r:
        Vec<Action>)
        requires
            old(self).wf(),
        ensures
            final(self).wf(),
            ({
                let h = relay_parent;
                let d0 = old(self).rpd_at(h);
                let d1 = final(self).rpd_at(h);
                let idx = signed.validator_index as int;
                let v = d0.validator_set@[idx];
                let accepted = old(self).view.heads_set().contains(h) && old(self).has_rpd(h) && idx
                    < d0.validator_set@.len() && !d0.has_cached(v);
                let targets = interested_peers(
                    d0.sent(),
                    d0.received(),
                    old(self).gossip_peers@,
                    old(self).peer_views@,
                    h,
                    v,
                );
                &&& !accepted ==> *final(self) == *old(self) && r@.len() == 0
                &&& accepted ==> {
                    &&& final(self).same_except(old(self), h)
                    &&& final(self).has_rpd(h)
                    &&& final(self).rpd_index(h) == old(self).rpd_index(h)
                    &&& d1.cache() == d0.cache().push((v, signed@))
                    &&& d1.received() == d0.received()
                    &&& d1.sent() == d0.sent().union(pairs_with(targets, v))
                    &&& d1.signing_context == d0.signing_context
                    &&& d1.validator_set@ == d0.validator_set@
                    &&& r@.len() == if targets.is_empty() { 1int } else { 2int }
                    &&& actions_view(r@)[0] == ActionView::Provision(h, signed@)
                    &&& !targets.is_empty() ==> (actions_view(r@)[1] matches ActionView::SendValidation(
                        ps,
                        m,
                    ) && ps.no_duplicates() && ps.to_set() == targets && m.relay_parent == h
                        && m.signed == signed@)
                }
            }),
    {
        let h = relay_parent;
        if !self.view.contains(h) {
            return Vec::new();
        }
        let idx = match self.find_rpd(h) {
            None => {
                return Vec::new();
            },
            Some(i) => i,
        };
        let vi = signed.validator_index as usize;
        if vi >= self.per_relay_parent[idx].1.validator_set.len() {
            return Vec::new();
        }
        let v = self.per_relay_parent[idx].1.validator_set[vi];
        if self.per_relay_parent[idx].1.find_cached(v).is_some() {
            return Vec::new();
        }
        let ghost old_state = *self;
        proof {
            old_state.lemma_index_of(idx as int);
        }
        let (key, mut d) = self.per_relay_parent.remove(idx);
        d.cache_bitfield(v, signed.duplicate());
        let message = BitfieldGossipMessage { relay_parent: h, signed_availability: signed };
        let r = relay_message(&mut d, &self.gossip_peers, &self.peer_views, v, message);
        self.per_relay_parent.insert(idx, (key, d));
        proof {
            assert(self.per_relay_parent@ =~= old_state.per_relay_parent@.update(
                idx as int,
                (key, d),
            ));
            assert(self.wf());
            self.lemma_index_of(idx as int);
        }
        r
    }

    /// Replaces the gossip neighbourhood by the union of the two neighbour
    /// sets. Nothing is sent.
    pub fn handle_gossip_topology(&mut self, our_neighbors_x: &Vec<PeerId>, our_neighbors_y: &Vec<PeerId>)
        requires
            old(self).wf(),
        ensures
            final(self).wf(),
            final(self).gossip_peers@.to_set() == our_neighbors_x@.to_set().union(
                our_neighbors_y@.to_set(),
            ),
            final(self).per_relay_parent == old(self).per_relay_parent,
            final(self).peer_views == old(self).peer_views,
            final(self).view == old(self).view,
    {
        let mut peers: Vec<PeerId> = Vec::new();
        let mut i: usize = 0;
        while i < our_neighbors_x.len()
            invariant
                i <= our_neighbors_x@.len(),
                peers@ == our_neighbors_x@.subrange(0, i as int),
            decreases our_neighbors_x.len() - i,
        {
            peers.push(our_neighbors_x[i]);
            i = i + 1;
            assert(peers@ =~= our_neighbors_x@.subrange(0, i as int));
        }
        let mut j: usize = 0;
        while j < our_neighbors_y.len()
            invariant
                j <= our_neighbors_y@.len(),
                peers@ == our_neighbors_x@ + our_neighbors_y@.subrange(0, j as int),
            decreases our_neighbors_y.len() - j,
        {
            peers.push(our_neighbors_y[j]);
            j = j + 1;
            assert(peers@ =~= our_neighbors_x@ + our_neighbors_y@.subrange(0, j as int));
        }
        assert(our_neighbors_y@.subrange(0, our_neighbors_y@.len() as int) =~= our_neighbors_y@);
        proof {
            crate::primitives::lemma_concat_to_set(our_neighbors_x@, our_neighbors_y@);
        }
        self.gossip_peers = peers;
    }

    /// The position of `peer` among the view entries, if it has one.
    pub fn find_peer(&self, peer: PeerId) -> (r: Option<usize>)
        ensures
            r is None <==> !self.has_peer(peer),
            r matches Some(j) ==> j < self.peer_views@.len() && self.peer_views@[j as int].0 == peer,
    {
        let mut j: usize = 0;
        while j < self.peer_views.len()
            invariant
                j <= self.peer_views@.len(),
                forall|k: int| 0 <= k < j ==> (#[trigger] self.peer_views@[k]).0 != peer,
            decreases self.peer_views.len() - j,
        {
            if self.peer_views[j].0 == peer {
                return Some(j);
            }
            j = j + 1;
        }
        None
    }

    /// Sets the view of `peer`, adding an entry where it has none.
    pub fn set_peer_view(&mut self, peer: PeerId, view: RelayView)
        requires
            old(self).wf(),
        ensures
            final(self).wf(),
            final(self).has_peer(peer),
            forall|h: BlockHash|
                #[trigger] peer_interested(final(self).peer_views@, peer, h)
                    == view.heads_set().contains(h),
            forall|q: PeerId| q != peer ==> final(self).has_peer(q) == old(self).has_peer(q),
            forall|q: PeerId, h: BlockHash|
                q != peer ==> peer_interested(final(self).peer_views@, q, h) == peer_interested(
                    old(self).peer_views@,
                    q,
                    h,
                ),
            final(self).per_relay_parent == old(self).per_relay_parent,
            final(self).gossip_peers == old(self).gossip_peers,
            final(self).view == old(self).view,
    {
        let ghost old_pv = self.peer_views@;
        let ghost vh = view.heads_set();
        match self.find_peer(peer) {
            Some(j) => {
                self.peer_views.remove(j);
                self.peer_views.insert(j, (peer, view));
                assert(self.peer_views@ =~= old_pv.update(j as int, self.peer_views@[j as int]));
                assert(self.peer_views@[j as int].0 == peer);
                assert forall|h: BlockHash|
                    peer_interested(self.peer_views@, peer, h) == vh.contains(h) by {
                    if peer_interested(self.peer_views@, peer, h) {
                        let k = choose|k: int|
                            0 <= k < self.peer_views@.len() && (#[trigger] self.peer_views@[k]).0
                                == peer && self.peer_views@[k].1.heads_set().contains(h);
                        if k < j {
                            assert(old_pv[k].0 != old_pv[j as int].0);
                        } else if k > j {
                            assert(old_pv[j as int].0 != old_pv[k].0);
                        }
                    }
                }
                assert forall|q: PeerId, h: BlockHash|
                    q != peer implies peer_interested(self.peer_views@, q, h) == peer_interested(
                        old_pv,
                        q,
                        h,
                    ) by {
                    if peer_interested(old_pv, q, h) {
                        let k = choose|k: int|
                            0 <= k < old_pv.len() && (#[trigger] old_pv[k]).0 == q
                                && old_pv[k].1.heads_set().contains(h);
                        assert(self.peer_views@[k] == old_pv[k]);
                    }
                    if peer_interested(self.peer_views@, q, h) {
                        let k = choose|k: int|
                            0 <= k < self.peer_views@.len() && (#[trigger] self.peer_views@[k]).0
                                == q && self.peer_views@[k].1.heads_set().contains(h);
                        assert(self.peer_views@[k] == old_pv[k]);
                    }
                }
                assert forall|q: PeerId| q != peer implies self.has_peer(q) == old(self).has_peer(
                    q,
                ) by {
                    if old(self).has_peer(q) {
                        let k = choose|k: int|
                            0 <= k < old_pv.len() && (#[trigger] old_pv[k]).0 == q;
                        assert(self.peer_views@[k] == old_pv[k]);
                    }
                    if self.has_peer(q) {
                        let k = choose|k: int|
                            0 <= k < self.peer_views@.len() && (#[trigger] self.peer_views@[k]).0
                                == q;
                        assert(self.peer_views@[k] == old_pv[k]);
                    }
                }
            },
            None => {
                self.peer_views.push((peer, view));
                let ghost n = old_pv.len() as int;
                assert(self.peer_views@[n].0 == peer);
                assert forall|h: BlockHash|
                    peer_interested(self.peer_views@, peer, h) == vh.contains(h) by {
                    if peer_interested(self.peer_views@, peer, h) {
                        let k = choose|k: int|
                            0 <= k < self.peer_views@.len() && (#[trigger] self.peer_views@[k]).0
                                == peer && self.peer_views@[k].1.heads_set().contains(h);
                        if k < n {
                            assert(old_pv[k].0 == peer);
                        }
                    }
                }
                assert forall|q: PeerId, h: BlockHash|
                    q != peer implies peer_interested(self.peer_views@, q, h) == peer_interested(
                        old_pv,
                        q,
                        h,
                    ) by {
                    if peer_interested(old_pv, q, h) {
                        let k = choose|k: int|
                            0 <= k < old_pv.len() && (#[trigger] old_pv[k]).0 == q
                                && old_pv[k].1.heads_set().contains(h);
                        assert(self.peer_views@[k] == old_pv[k]);
                    }
                    if peer_interested(self.peer_views@, q, h) {
                        let k = choose|k: int|
                            0 <= k < self.peer_views@.len() && (#[trigger] self.peer_views@[k]).0
                                == q && self.peer_views@[k].1.heads_set().contains(h);
                        assert(self.peer_views@[k] == old_pv[k]);
                    }
                }
                assert forall|q: PeerId| q != peer implies self.has_peer(q) == old(self).has_peer(
                    q,
                ) by {
                    if old(self).has_peer(q) {
                        let k = choose|k: int|
                            0 <= k < old_pv.len() && (#[trigger] old_pv[k]).0 == q;
                        assert(self.peer_views@[k] == old_pv[k]);
                    }
                    if self.has_peer(q) {
                        let k = choose|k: int|
                            0 <= k < self.peer_views@.len() && (#[trigger] self.peer_views@[k]).0
                                == q;
                        assert(self.peer_views@[k] == old_pv[k]);
                    }
                }
                assert forall|a: int, b: int|
                    0 <= a < b < self.peer_views@.len() implies (#[trigger] self.peer_views@[a]).0
                    != (#[trigger] self.peer_views@[b]).0 by {
                    if b == n {
                        assert(self.peer_views@[a] == old_pv[a]);
                    }
                }
            },
        }
    }

    /// A newly connected peer starts with an empty view. Nothing is sent.
    pub fn handle_peer_connected(&mut self, peer: PeerId)
        requires
            old(self).wf(),
        ensures
            final(self).wf(),
            final(self).has_peer(peer),
            forall|h: BlockHash| !peer_interested(final(self).peer_views@, peer, h),
            forall|q: PeerId| q != peer ==> final(self).has_peer(q) == old(self).has_peer(q),
            forall|q: PeerId, h: BlockHash|
                q != peer ==> peer_interested(final(self).peer_views@, q, h) == peer_interested(
                    old(self).peer_views@,
                    q,
                    h,
                ),
            final(self).per_relay_parent == old(self).per_relay_parent,
            final(self).gossip_peers == old(self).gossip_peers,
            final(self).view == old(self).view,
    {
        let empty = RelayView::empty();
        let ghost heads = empty.heads_set();
        self.set_peer_view(peer, empty);
        assert forall|h: BlockHash| !peer_interested(self.peer_views@, peer, h) by {
            assert(!heads.contains(h));
        }
    }

    /// Drops the view of a disconnected peer and everything recorded about
    /// what it sent us or we sent it, at every relay parent.
    pub fn handle_peer_disconnected(&mut self, peer: PeerId)
        requires
            old(self).wf(),
        ensures
            final(self).wf(),
            !final(self).has_peer(peer),
            forall|q: PeerId| q != peer ==> final(self).has_peer(q) == old(self).has_peer(q),
            forall|q: PeerId, h: BlockHash|
                q != peer ==> peer_interested(final(self).peer_views@, q, h) == peer_interested(
                    old(self).peer_views@,
                    q,
                    h,
                ),
            final(self).per_relay_parent@.len() == old(self).per_relay_parent@.len(),
            forall|i: int|
                0 <= i < final(self).per_relay_parent@.len() ==> {
                    let d0 = old(self).per_relay_parent@[i].1;
                    let d1 = (#[trigger] final(self).per_relay_parent@[i]).1;
                    &&& final(self).per_relay_parent@[i].0 == old(self).per_relay_parent@[i].0
                    &&& d1.received() == d0.received().filter(
                        |e: (PeerId, ValidatorId)| e.0 != peer,
                    )
                    &&& d1.sent() == d0.sent().filter(|e: (PeerId, ValidatorId)| e.0 != peer)
                    &&& d1.cache() == d0.cache()
                    &&& d1.signing_context == d0.signing_context
                    &&& d1.validator_set@ == d0.validator_set@
                },
            final(self).gossip_peers == old(self).gossip_peers,
            final(self).view == old(self).view,
    {
        let ghost old_pv = self.peer_views@;
        if let Some(j) = self.find_peer(peer) {
            self.peer_views.remove(j);
            assert forall|k: int| 0 <= k < self.peer_views@.len() implies (#[trigger] self.peer_views@[k]).0
                != peer by {
                if k < j {
                    assert(self.peer_views@[k] == old_pv[k]);
                    assert(old_pv[k].0 != old_pv[j as int].0);
                } else {
                    assert(self.peer_views@[k] == old_pv[k + 1]);
                    assert(old_pv[j as int].0 != old_pv[k + 1].0);
                }
            }
            assert forall|q: PeerId, h: BlockHash|
                q != peer implies peer_interested(self.peer_views@, q, h) == peer_interested(
                    old_pv,
                    q,
                    h,
                ) by {
                if peer_interested(old_pv, q, h) {
                    let k = choose|k: int|
                        0 <= k < old_pv.len() && (#[trigger] old_pv[k]).0 == q
                            && old_pv[k].1.heads_set().contains(h);
                    if k < j {
                        assert(self.peer_views@[k] == old_pv[k]);
                    } else {
                        assert(self.peer_views@[k - 1] == old_pv[k]);
                    }
                }
                if peer_interested(self.peer_views@, q, h) {
                    let k = choose|k: int|
                        0 <= k < self.peer_views@.len() && (#[trigger] self.peer_views@[k]).0 == q
                            && self.peer_views@[k].1.heads_set().contains(h);
                    if k < j {
                        assert(self.peer_views@[k] == old_pv[k]);
                    } else {
                        assert(self.peer_views@[k] == old_pv[k + 1]);
                    }
                }
            }
            assert forall|q: PeerId| q != peer implies self.has_peer(q) == old(self).has_peer(q) by {
                if old(self).has_peer(q) {
                    let k = choose|k: int| 0 <= k < old_pv.len() && (#[trigger] old_pv[k]).0 == q;
                    if k < j {
                        assert(self.peer_views@[k] == old_pv[k]);
                    } else {
                        assert(self.peer_views@[k - 1] == old_pv[k]);
                    }
                }
                if self.has_peer(q) {
                    let k = choose|k: int|
                        0 <= k < self.peer_views@.len() && (#[trigger] self.peer_views@[k]).0 == q;
                    if k < j {
                        assert(self.peer_views@[k] == old_pv[k]);
                    } else {
                        assert(self.peer_views@[k] == old_pv[k + 1]);
                    }
                }
            }
            assert forall|a: int, b: int|
                0 <= a < b < self.peer_views@.len() implies (#[trigger] self.peer_views@[a]).0
                != (#[trigger] self.peer_views@[b]).0 by {
                let a0 = if a < j { a } else { a + 1 };
                let b0 = if b < j { b } else { b + 1 };
                assert(self.peer_views@[a] == old_pv[a0]);
                assert(self.peer_views@[b] == old_pv[b0]);
            }
        }
        let ghost old_rp = self.per_relay_parent@;
        let ghost mid_pv = self.peer_views;
        let mut i: usize = 0;
        while i < self.per_relay_parent.len()
            invariant
                i <= self.per_relay_parent@.len(),
                self.peer_views == mid_pv,
                self.gossip_peers == old(self).gossip_peers,
                self.view == old(self).view,
                self.per_relay_parent@.len() == old_rp.len(),
                old_rp == old(self).per_relay_parent@,
                forall|k: int| i <= k < old_rp.len() ==> #[trigger] self.per_relay_parent@[k] == old_rp[k],
                forall|k: int|
                    0 <= k < i ==> {
                        let d0 = old_rp[k].1;
                        let d1 = (#[trigger] self.per_relay_parent@[k]).1;
                        &&& self.per_relay_parent@[k].0 == old_rp[k].0
                        &&& d1.received() == d0.received().filter(
                            |e: (PeerId, ValidatorId)| e.0 != peer,
                        )
                        &&& d1.sent() == d0.sent().filter(|e: (PeerId, ValidatorId)| e.0 != peer)
                        &&& d1.cache() == d0.cache()
                        &&& d1.signing_context == d0.signing_context
                        &&& d1.validator_set@ == d0.validator_set@
                    },
            decreases self.per_relay_parent.len() - i,
        {
            let (key, mut d) = self.per_relay_parent.remove(i);
            d.forget_peer(peer);
            self.per_relay_parent.insert(i, (key, d));
            i = i + 1;
        }
        proof {
            assert forall|a: int, b: int|
                0 <= a < b < self.per_relay_parent@.len() implies (#[trigger] self.per_relay_parent@[a]).0
                != (#[trigger] self.per_relay_parent@[b]).0 by {
                assert(old_rp[a].0 != old_rp[b].0);
            }
            assert forall|a: int| 0 <= a < self.per_relay_parent@.len() implies (
            #[trigger] self.per_relay_parent@[a]).1.wf() by {
                assert(old_rp[a].1.wf());
                assert(self.per_relay_parent@[a].1.cache() == old_rp[a].1.cache());
            }
        }
    }

    /// Whether, after `peer` announced `new_view`, the cached bitfields of
    /// relay parent `h` are to be offered to it.
    pub open spec fn catches_up(&self, peer: PeerId, new_view: Set<BlockHash>, h: BlockHash) -> bool {
        self.gossip_peers@.contains(peer) && new_view.contains(h) && self.view.heads_set().contains(h)
    }

    /// `a` is a catch-up send to `peer` for one relay parent of `self` that
    /// is to be offered to it.
    pub open spec fn is_catch_up_action(&self, peer: PeerId, new_view: Set<BlockHash>, a: ActionView) -> bool {
        exists|j: int|
            0 <= j < self.per_relay_parent@.len() && self.catches_up(
                peer,
                new_view,
                (#[trigger] self.per_relay_parent@[j]).0,
            ) && is_catch_up_send(a, self.per_relay_parent@[j].1, self.per_relay_parent@[j].0, peer)
    }

    /// Replaces the view of `peer`; if it is a gossip peer, sends it every
    /// cached bitfield it still needs of each relay parent in both its new
    /// view and ours, one message each, and records the sends.
    pub fn handle_peer_view_change(&mut self, peer: PeerId, new_view: RelayView) -> (r: Vec<Action>)
        requires
            old(self).wf(),
        ensures
            final(self).wf(),
            final(self).has_peer(peer),
            forall|h: BlockHash|
                #[trigger] peer_interested(final(self).peer_views@, peer, h)
                    == new_view.heads_set().contains(h),
            forall|q: PeerId| q != peer ==> final(self).has_peer(q) == old(self).has_peer(q),
            forall|q: PeerId, h: BlockHash|
                q != peer ==> peer_interested(final(self).peer_views@, q, h) == peer_interested(
                    old(self).peer_views@,
                    q,
                    h,
                ),
            final(self).gossip_peers == old(self).gossip_peers,
            final(self).view == old(self).view,
            final(self).per_relay_parent@.len() == old(self).per_relay_parent@.len(),
            forall|i: int|
                0 <= i < final(self).per_relay_parent@.len() ==> {
                    let h = old(self).per_relay_parent@[i].0;
                    let d0 = old(self).per_relay_parent@[i].1;
                    let d1 = (#[trigger] final(self).per_relay_parent@[i]).1;
                    &&& final(self).per_relay_parent@[i].0 == h
                    &&& d1.sent() == if old(self).catches_up(peer, new_view.heads_set(), h) {
                        d0.sent().union(catch_up_pairs(d0, peer))
                    } else {
                        d0.sent()
                    }
                    &&& d1.received() == d0.received()
                    &&& d1.cache() == d0.cache()
                    &&& d1.signing_context == d0.signing_context
                    &&& d1.validator_set@ == d0.validator_set@
                },
            forall|k: int|
                0 <= k < r@.len() ==> old(self).is_catch_up_action(
                    peer,
                    new_view.heads_set(),
                    (#[trigger] r@[k])@,
                ),
            actions_view(r@) == view_change_messages(
                old(self).per_relay_parent@,
                *old(self),
                peer,
                new_view.heads_set(),
            ),
    {
        let heads = copy_ids(&new_view.heads);
        let ghost new_heads = new_view.heads_set();
        let ghost old_state = *self;
        self.set_peer_view(peer, new_view);
        let mut r: Vec<Action> = Vec::new();
        let is_gossip = contains_id(&self.gossip_peers, peer);
        let ghost mid_pv = self.peer_views;
        let mut i: usize = 0;
        while i < self.per_relay_parent.len()
            invariant
                i <= self.per_relay_parent@.len(),
                heads@.to_set() == new_heads,
                is_gossip == old_state.gossip_peers@.contains(peer),
                self.peer_views == mid_pv,
                self.gossip_peers == old_state.gossip_peers,
                self.view == old_state.view,
                old_state.wf(),
                self.per_relay_parent@.len() == old_state.per_relay_parent@.len(),
                forall|k: int|
                    i <= k < old_state.per_relay_parent@.len() ==> #[trigger] self.per_relay_parent@[k]
                        == old_state.per_relay_parent@[k],
                forall|k: int|
                    0 <= k < i ==> {
                        let h = old_state.per_relay_parent@[k].0;
                        let d0 = old_state.per_relay_parent@[k].1;
                        let d1 = (#[trigger] self.per_relay_parent@[k]).1;
                        &&& self.per_relay_parent@[k].0 == h
                        &&& d1.wf()
                        &&& d1.sent() == if old_state.catches_up(peer, new_heads, h) {
                            d0.sent().union(catch_up_pairs(d0, peer))
                        } else {
                            d0.sent()
                        }
                        &&& d1.received() == d0.received()
                        &&& d1.cache() == d0.cache()
                        &&& d1.signing_context == d0.signing_context
                        &&& d1.validator_set@ == d0.validator_set@
                    },
                forall|k: int|
                    0 <= k < r@.len() ==> old_state.is_catch_up_action(
                        peer,
                        new_heads,
                        (#[trigger] r@[k])@,
                    ),
                actions_view(r@) == view_change_messages(
                    old_state.per_relay_parent@.subrange(0, i as int),
                    old_state,
                    peer,
                    new_heads,
                ),
            decreases self.per_relay_parent.len() - i,
        {
            let h = self.per_relay_parent[i].0;
            assert(old_state.per_relay_parent@[i as int].1.wf());
            proof {
                let rps = old_state.per_relay_parent@.subrange(0, i + 1);
                assert(rps.drop_last() =~= old_state.per_relay_parent@.subrange(0, i as int));
                assert(rps.last() == old_state.per_relay_parent@[i as int]);
            }
            if is_gossip && contains_id(&heads, h) && self.view.contains(h) {
                let (key, mut d) = self.per_relay_parent.remove(i);
                let sends = send_cached_to_peer(&mut d, h, peer);
                self.per_relay_parent.insert(i, (key, d));
                let ghost r0 = r@;
                let mut s: usize = 0;
                while s < sends.len()
                    invariant
                        s <= sends@.len(),
                        r@.len() == r0.len() + s,
                        forall|k: int| 0 <= k < r0.len() ==> #[trigger] r@[k] == r0[k],
                        forall|k: int| 0 <= k < s ==> #[trigger] r@[r0.len() + k]@ == sends@[k]@,
                    decreases sends.len() - s,
                {
                    let a = clone_send(&sends[s]);
                    r.push(a);
                    assert(r@[r0.len() + s]@ == sends@[s as int]@);
                    s = s + 1;
                }
                assert forall|k: int| 0 <= k < r@.len() implies old_state.is_catch_up_action(
                    peer,
                    new_heads,
                    (#[trigger] r@[k])@,
                ) by {
                    if k < r0.len() {
                        assert(r@[k] == r0[k]);
                    } else {
                        assert(r@[r0.len() + (k - r0.len())]@ == sends@[k - r0.len()]@);
                        assert(is_catch_up_send(sends@[k - r0.len()]@, old_state.per_relay_parent@[i as int].1, h, peer));
                        assert(old_state.catches_up(peer, new_heads, old_state.per_relay_parent@[i as int].0));
                    }
                }
                assert forall|k: int| 0 <= k < r@.len() implies #[trigger] actions_view(r@)[k] == (
                actions_view(r0) + actions_view(sends@))[k] by {
                    if k < r0.len() {
                        assert(r@[k] == r0[k]);
                    } else {
                        assert(r@[r0.len() + (k - r0.len())]@ == sends@[k - r0.len()]@);
                    }
                }
                assert(actions_view(r@) =~= actions_view(r0) + actions_view(sends@));
            }
            assert(actions_view(r@) =~= view_change_messages(
                old_state.per_relay_parent@.subrange(0, i + 1),
                old_state,
                peer,
                new_heads,
            ));
            i = i + 1;
        }
        proof {
            assert forall|a: int, b: int|
                0 <= a < b < self.per_relay_parent@.len() implies (#[trigger] self.per_relay_parent@[a]).0
                != (#[trigger] self.per_relay_parent@[b]).0 by {
                assert(old_state.per_relay_parent@[a].0 != old_state.per_relay_parent@[b].0);
            }
            assert(old_state.per_relay_parent@.subrange(0, old_state.per_relay_parent@.len() as int)
                =~= old_state.per_relay_parent@);
        }
        r
    }
}

/// A copy of a send action, with the same model.
fn clone_send(a: &Action) -> (r: Action)
    ensures
        r@ == a@,
{
    match a {
        Action::Provision { relay_parent, signed } => Action::Provision {
            relay_parent: *relay_parent,
            signed: signed.duplicate(),
        },
        Action::ReportPeer { peer, delta } => Action::ReportPeer { peer: *peer, delta: *delta },
        Action::SendValidation { peers, message } => Action::SendValidation {
            peers: copy_ids(peers),
            message: message.duplicate(),
        },
    }
}

} // verus!
