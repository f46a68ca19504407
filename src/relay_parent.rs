//! Bookkeeping for one active relay parent.
use vstd::prelude::*;
use crate::primitives::{PeerId, SignedBitfield, SignedBitfieldView, SigningContext, ValidatorId};

verus! {

/// What is known about one active relay parent: its signing context and
/// validator set, the first bitfield seen from each validator, and which
/// validators' bitfields each peer has sent us or been sent.
#[derive(Debug)]
pub struct PerRelayParentData {
    pub signing_context: SigningContext,
    pub validator_set: Vec<ValidatorId>,
    pub one_per_validator: Vec<(ValidatorId, SignedBitfield)>,
    pub message_received_from_peer: Vec<(PeerId, ValidatorId)>,
    pub message_sent_to_peer: Vec<(PeerId, ValidatorId)>,
}

impl PerRelayParentData {
    /// The cached bitfields, in the order they were accepted.
    pub open spec fn cache(&self) -> Seq<(ValidatorId, SignedBitfieldView)> {
        self.one_per_validator@.map_values(|e: (ValidatorId, SignedBitfield)| (e.0, e.1@))
    }

    /// Whether a bitfield of `v` is cached.
    pub open spec fn has_cached(&self, v: ValidatorId) -> bool {
        exists|i: int| 0 <= i < self.cache().len() && (#[trigger] self.cache()[i]).0 == v
    }

    /// The cached bitfield of `v`; meaningful where `has_cached(v)`.
    pub open spec fn cached_of(&self, v: ValidatorId) -> SignedBitfieldView {
        self.cache()[choose|i: int| 0 <= i < self.cache().len() && (#[trigger] self.cache()[i]).0 == v].1
    }

    /// The `(peer, validator)` pairs whose bitfield the peer sent us.
    pub open spec fn received(&self) -> Set<(PeerId, ValidatorId)> {
        self.message_received_from_peer@.to_set()
    }

    /// The `(peer, validator)` pairs whose bitfield we sent the peer.
    pub open spec fn sent(&self) -> Set<(PeerId, ValidatorId)> {
        self.message_sent_to_peer@.to_set()
    }

    /// At most one cached bitfield per validator.
    pub open spec fn wf(&self) -> bool {
        forall|i: int, j: int|
            0 <= i < j < self.cache().len() ==> (#[trigger] self.cache()[i]).0
                != (#[trigger] self.cache()[j]).0
    }

    /// Whether the bitfield of `v` still has to go to `peer`: neither side has
    /// sent it to the other.
    pub open spec fn needed(&self, peer: PeerId, v: ValidatorId) -> bool {
        !self.sent().contains((peer, v)) && !self.received().contains((peer, v))
    }

    /// Fresh data for a relay parent that just became active.
    pub fn new(signing_context: SigningContext, validator_set: Vec<ValidatorId>) -> (r: Self)
        ensures
            r.wf(),
            r.signing_context == signing_context,
            r.validator_set@ == validator_set@,
            r.cache().len() == 0,
            r.received() == Set::<(PeerId, ValidatorId)>::empty(),
            r.sent() == Set::<(PeerId, ValidatorId)>::empty(),
    {
        let r = PerRelayParentData {
            signing_context,
            validator_set,
            one_per_validator: Vec::new(),
            message_received_from_peer: Vec::new(),
            message_sent_to_peer: Vec::new(),
        };
        assert(r.received() =~= Set::<(PeerId, ValidatorId)>::empty());
        assert(r.sent() =~= Set::<(PeerId, ValidatorId)>::empty());
        r
    }

    /// Whether the bitfield of `validator` still has to go to `peer`.
    pub fn message_from_validator_needed_by_peer(&self, peer: PeerId, validator: ValidatorId) -> (r:
        bool)
        ensures
            r == self.needed(peer, validator),
    {
        !contains_pair(&self.message_sent_to_peer, (peer, validator)) && !contains_pair(
            &self.message_received_from_peer,
            (peer, validator),
        )
    }

    /// Whether `peer` has already sent us the bitfield of `validator`.
    pub fn received_from(&self, peer: PeerId, validator: ValidatorId) -> (r: bool)
        ensures
            r == self.received().contains((peer, validator)),
    {
        contains_pair(&self.message_received_from_peer, (peer, validator))
    }

    /// Records that `peer` sent us the bitfield of `validator`.
    pub fn mark_received(&mut self, peer: PeerId, validator: ValidatorId)
        ensures
            final(self).received() == old(self).received().insert((peer, validator)),
            final(self).sent() == old(self).sent(),
            final(self).cache() == old(self).cache(),
            final(self).signing_context == old(self).signing_context,
            final(self).validator_set@ == old(self).validator_set@,
    {
        self.message_received_from_peer.push((peer, validator));
        proof {
            lemma_push_to_set(
                old(self).message_received_from_peer@,
                (peer, validator),
            );
        }
        assert(self.cache() =~= old(self).cache());
    }

    /// Records that the bitfield of `validator` was sent to `peer`.
    pub fn mark_sent(&mut self, peer: PeerId, validator: ValidatorId)
        ensures
            final(self).sent() == old(self).sent().insert((peer, validator)),
            final(self).received() == old(self).received(),
            final(self).cache() == old(self).cache(),
            final(self).signing_context == old(self).signing_context,
            final(self).validator_set@ == old(self).validator_set@,
    {
        self.message_sent_to_peer.push((peer, validator));
        proof {
            lemma_push_to_set(old(self).message_sent_to_peer@, (peer, validator));
        }
        assert(self.cache() =~= old(self).cache());
    }

    /// The position of the cached bitfield of `v`, if there is one.
    pub fn find_cached(&self, v: ValidatorId) -> (r: Option<usize>)
        ensures
            r is None <==> !self.has_cached(v),
            r matches Some(i) ==> i < self.cache().len() && self.cache()[i as int].0 == v,
    {
        let mut i: usize = 0;
        while i < self.one_per_validator.len()
            invariant
                i <= self.one_per_validator.len(),
                forall|j: int| 0 <= j < i ==> (#[trigger] self.cache()[j]).0 != v,
            decreases self.one_per_validator.len() - i,
        {
            if self.one_per_validator[i].0 == v {
                assert(self.cache()[i as int].0 == v);
                return Some(i);
            }
            i = i + 1;
        }
        None
    }

    /// Caches the first bitfield of a validator.
    pub fn cache_bitfield(&mut self, v: ValidatorId, signed: SignedBitfield)
        requires
            old(self).wf(),
            !old(self).has_cached(v),
        ensures
            final(self).wf(),
            final(self).cache() == old(self).cache().push((v, signed@)),
            final(self).received() == old(self).received(),
            final(self).sent() == old(self).sent(),
            final(self).signing_context == old(self).signing_context,
            final(self).validator_set@ == old(self).validator_set@,
    {
        self.one_per_validator.push((v, signed));
        assert(self.cache() =~= old(self).cache().push((v, signed@)));
    }

    /// Forgets everything `peer` sent us and everything we sent it.
    pub fn forget_peer(&mut self, peer: PeerId)
        ensures
            final(self).received() == old(self).received().filter(
                |e: (PeerId, ValidatorId)| e.0 != peer,
            ),
            final(self).sent() == old(self).sent().filter(|e: (PeerId, ValidatorId)| e.0 != peer),
            final(self).cache() == old(self).cache(),
            final(self).signing_context == old(self).signing_context,
            final(self).validator_set@ == old(self).validator_set@,
    {
        let received = without_peer(&self.message_received_from_peer, peer);
        let sent = without_peer(&self.message_sent_to_peer, peer);
        self.message_received_from_peer = received;
        self.message_sent_to_peer = sent;
        assert(self.cache() =~= old(self).cache());
    }
}

/// `s` with `x` appended holds what `s` held and `x`.
pub proof fn lemma_push_to_set<A>(s: Seq<A>, x: A)
    ensures
        s.push(x).to_set() == s.to_set().insert(x),
{
    assert forall|y: A| s.push(x).to_set().contains(y) implies s.to_set().insert(x).contains(y) by {
        if y != x {
            let i = choose|i: int| 0 <= i < s.push(x).len() && s.push(x)[i] == y;
            assert(i < s.len());
            assert(s[i] == y);
        }
    }
    assert forall|y: A| s.to_set().insert(x).contains(y) implies s.push(x).to_set().contains(
        y,
    ) by {
        if y == x {
            assert(s.push(x)[s.len() as int] == x);
        } else {
            let i = choose|i: int| 0 <= i < s.len() && s[i] == y;
            assert(s.push(x)[i] == y);
        }
    }
    assert(s.push(x).to_set() =~= s.to_set().insert(x));
}

/// Whether the pair `x` occurs in `v`.
pub fn contains_pair(v: &Vec<(u64, u64)>, x: (u64, u64)) -> (r: bool)
    ensures
        r == v@.to_set().contains(x),
{
    let mut i: usize = 0;
    while i < v.len()
        invariant
            i <= v.len(),
            forall|j: int| 0 <= j < i ==> v@[j] != x,
        decreases v.len() - i,
    {
        if v[i].0 == x.0 && v[i].1 == x.1 {
            assert(v@[i as int] == x);
            assert(v@.contains(x));
            return true;
        }
        i = i + 1;
    }
    assert(!v@.contains(x));
    false
}

/// The pairs of `v` whose first component is not `peer`.
fn without_peer(v: &Vec<(u64, u64)>, peer: u64) -> (r: Vec<(u64, u64)>)
    ensures
        r@.to_set() == v@.to_set().filter(|e: (u64, u64)| e.0 != peer),
{
    let mut r: Vec<(u64, u64)> = Vec::new();
    let mut i: usize = 0;
    while i < v.len()
        invariant
            i <= v.len(),
            forall|k: int|
                0 <= k < r@.len() ==> (#[trigger] r@[k]).0 != peer && v@.subrange(
                    0,
                    i as int,
                ).contains(r@[k]),
            forall|j: int| 0 <= j < i && (#[trigger] v@[j]).0 != peer ==> r@.contains(v@[j]),
        decreases v.len() - i,
    {
        let e = v[i];
        let ghost r0 = r@;
        if e.0 != peer {
            r.push(e);
            assert(r@[r@.len() - 1] == e);
        }
        assert forall|k: int| 0 <= k < r@.len() implies (#[trigger] r@[k]).0 != peer
            && v@.subrange(0, i + 1).contains(r@[k]) by {
            if k < r0.len() {
                assert(r0[k] == r@[k]);
                let j = choose|j: int| 0 <= j < i && v@.subrange(0, i as int)[j] == r0[k];
                assert(v@.subrange(0, i + 1)[j] == r@[k]);
            } else {
                assert(v@.subrange(0, i + 1)[i as int] == e);
            }
        }
        assert forall|j: int| 0 <= j < i + 1 && (#[trigger] v@[j]).0 != peer implies r@.contains(
            v@[j],
        ) by {
            if j < i {
                let k = choose|k: int| 0 <= k < r0.len() && r0[k] == v@[j];
                assert(r@[k] == v@[j]);
            } else {
                assert(r@[r@.len() - 1] == v@[j]);
            }
        }
        i = i + 1;
    }
    assert forall|e: (u64, u64)| r@.to_set().contains(e) implies v@.to_set().filter(
        |e: (u64, u64)| e.0 != peer,
    ).contains(e) by {
        let k = choose|k: int| 0 <= k < r@.len() && r@[k] == e;
        assert(r@[k].0 != peer);
        assert(v@.subrange(0, v@.len() as int) =~= v@);
    }
    assert forall|e: (u64, u64)| v@.to_set().filter(|e: (u64, u64)| e.0 != peer).contains(
        e,
    ) implies r@.to_set().contains(e) by {
        let j = choose|j: int| 0 <= j < v@.len() && v@[j] == e;
        assert(v@[j].0 != peer);
    }
    assert(r@.to_set() =~= v@.to_set().filter(|e: (u64, u64)| e.0 != peer));
    r
}

} // verus!
