//! Identifiers, signed bitfields and views, with their mathematical models.
use vstd::prelude::*;

verus! {

/// Opaque identifier of a network peer.
pub type PeerId = u64;

/// Identifier (public key) of a validator in the current session.
pub type ValidatorId = u64;

/// Identifier of a relay-chain block.
pub type BlockHash = u64;

/// The context mixed into every signature payload.
#[derive(Clone, Copy, Debug, PartialEq, Eq, Structural)]
pub struct SigningContext {
    pub session_index: u32,
    pub parent_hash: BlockHash,
}

/// Model of a signed availability bitfield.
pub struct SignedBitfieldView {
    pub payload: Seq<bool>,
    pub validator_index: u32,
    pub signature: Seq<u8>,
}

/// A bitfield together with the index of the validator that claims to have
/// signed it and the signature.
#[derive(Debug, PartialEq, Eq)]
pub struct SignedBitfield {
    pub payload: Vec<bool>,
    pub validator_index: u32,
    pub signature: Vec<u8>,
}

impl View for SignedBitfield {
    type V = SignedBitfieldView;

    open spec fn view(&self) -> SignedBitfieldView {
        SignedBitfieldView {
            payload: self.payload@,
            validator_index: self.validator_index,
            signature: self.signature@,
        }
    }
}

impl SignedBitfield {
    /// An independent copy with the same contents.
    pub fn duplicate(&self) -> (r: SignedBitfield)
        ensures
            r@ == self@,
    {
        let payload = self.payload.clone();
        let signature = self.signature.clone();
        assert(payload@ =~= self.payload@);
        assert(signature@ =~= self.signature@);
        SignedBitfield { payload, validator_index: self.validator_index, signature }
    }

    /// Whether both carry the same bitfield, index and signature.
    pub fn same_as(&self, other: &SignedBitfield) -> (r: bool)
        ensures
            r == (self@ == other@),
    {
        if self.validator_index != other.validator_index {
            return false;
        }
        if !bools_equal(&self.payload, &other.payload) {
            return false;
        }
        bytes_equal(&self.signature, &other.signature)
    }
}

fn bools_equal(a: &Vec<bool>, b: &Vec<bool>) -> (r: bool)
    ensures
        r == (a@ == b@),
{
    if a.len() != b.len() {
        return false;
    }
    let mut i: usize = 0;
    while i < a.len()
        invariant
            a.len() == b.len(),
            i <= a.len(),
            forall|j: int| 0 <= j < i ==> a@[j] == b@[j],
        decreases a.len() - i,
    {
        if a[i] != b[i] {
            return false;
        }
        i = i + 1;
    }
    assert(a@ =~= b@);
    true
}

fn bytes_equal(a: &Vec<u8>, b: &Vec<u8>) -> (r: bool)
    ensures
        r == (a@ == b@),
{
    if a.len() != b.len() {
        return false;
    }
    let mut i: usize = 0;
    while i < a.len()
        invariant
            a.len() == b.len(),
            i <= a.len(),
            forall|j: int| 0 <= j < i ==> a@[j] == b@[j],
        decreases a.len() - i,
    {
        if a[i] != b[i] {
            return false;
        }
        i = i + 1;
    }
    assert(a@ =~= b@);
    true
}

/// Model of a gossip message: the relay parent and the signed bitfield.
pub struct GossipMessageView {
    pub relay_parent: BlockHash,
    pub signed: SignedBitfieldView,
}

/// The one wire message of bitfield gossip.
#[derive(Debug, PartialEq, Eq)]
pub struct BitfieldGossipMessage {
    pub relay_parent: BlockHash,
    pub signed_availability: SignedBitfield,
}

impl View for BitfieldGossipMessage {
    type V = GossipMessageView;

    open spec fn view(&self) -> GossipMessageView {
        GossipMessageView { relay_parent: self.relay_parent, signed: self.signed_availability@ }
    }
}

impl BitfieldGossipMessage {
    /// An independent copy with the same contents.
    pub fn duplicate(&self) -> (r: BitfieldGossipMessage)
        ensures
            r@ == self@,
    {
        BitfieldGossipMessage {
            relay_parent: self.relay_parent,
            signed_availability: self.signed_availability.duplicate(),
        }
    }
}

/// The relay parents that a peer, or this node, is interested in.
#[derive(Debug, PartialEq, Eq)]
pub struct RelayView {
    pub heads: Vec<BlockHash>,
}

impl RelayView {
    pub open spec fn heads_set(&self) -> Set<BlockHash> {
        self.heads@.to_set()
    }

    /// The view that holds no relay parent.
    pub fn empty() -> (r: RelayView)
        ensures
            r.heads@.len() == 0,
            r.heads_set() == Set::<BlockHash>::empty(),
    {
        let r = RelayView { heads: Vec::new() };
        assert(r.heads_set() =~= Set::<BlockHash>::empty());
        r
    }

    pub fn new(heads: Vec<BlockHash>) -> (r: RelayView)
        ensures
            r.heads@ == heads@,
    {
        RelayView { heads }
    }

    pub fn contains(&self, h: BlockHash) -> (r: bool)
        ensures
            r == self.heads_set().contains(h),
    {
        contains_id(&self.heads, h)
    }

    pub fn duplicate(&self) -> (r: RelayView)
        ensures
            r.heads@ == self.heads@,
    {
        RelayView { heads: copy_ids(&self.heads) }
    }
}

/// Whether `x` occurs in `v`.
pub fn contains_id(v: &Vec<u64>, x: u64) -> (r: bool)
    ensures
        r == v@.to_set().contains(x),
{
    let mut i: usize = 0;
    while i < v.len()
        invariant
            i <= v.len(),
            forall|j: int| 0 <= j < i ==> v@[j] != x,
        decreases v.len() - i,
    {
        if v[i] == x {
            assert(v@.contains(x));
            return true;
        }
        i = i + 1;
    }
    assert(!v@.contains(x));
    false
}

/// A copy of a list of identifiers.
pub fn copy_ids(v: &Vec<u64>) -> (r: Vec<u64>)
    ensures
        r@ == v@,
{
    let r = v.clone();
    assert(r@ =~= v@);
    r
}

/// The elements of `a + b` are those of `a` and those of `b`.
pub proof fn lemma_concat_to_set<A>(a: Seq<A>, b: Seq<A>)
    ensures
        (a + b).to_set() == a.to_set().union(b.to_set()),
{
    assert forall|x: A| (a + b).to_set().contains(x) implies a.to_set().union(b.to_set()).contains(
        x,
    ) by {
        let i = choose|i: int| 0 <= i < (a + b).len() && (a + b)[i] == x;
        if i < a.len() {
            assert(a[i] == x);
        } else {
            assert(b[i - a.len()] == x);
        }
    }
    assert forall|x: A| a.to_set().union(b.to_set()).contains(x) implies (a + b).to_set().contains(
        x,
    ) by {
        if a.contains(x) {
            let i = choose|i: int| 0 <= i < a.len() && a[i] == x;
            assert((a + b)[i] == x);
        } else {
            let i = choose|i: int| 0 <= i < b.len() && b[i] == x;
            assert((a + b)[a.len() + i] == x);
        }
    }
    assert((a + b).to_set() =~= a.to_set().union(b.to_set()));
}

} // verus!
