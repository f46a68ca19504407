//! Changes of our own view: dropping the data of relay parents that leave it
//! and creating fresh data for those that enter it.
use vstd::prelude::*;
use crate::primitives::{BlockHash, PeerId, RelayView, SigningContext, ValidatorId, copy_ids};
use crate::relay_parent::PerRelayParentData;
use crate::state::ProtocolState;

verus! {

/// What chain state says about a relay parent that entered our view.
#[derive(Debug)]
pub struct RelayParentInfo {
    pub relay_parent: BlockHash,
    pub signing_context: SigningContext,
    pub validator_set: Vec<ValidatorId>,
}

impl ProtocolState {
    /// The relay parents of `new_view` that are not in our view: those whose
    /// signing context and validator set must be fetched before the change.
    pub fn heads_to_fetch(&self, new_view: &RelayView) -> (r: Vec<BlockHash>)
        ensures
            r@.to_set() == new_view.heads_set().difference(self.view.heads_set()),
    {
        let mut r: Vec<BlockHash> = Vec::new();
        let mut i: usize = 0;
        while i < new_view.heads.len()
            invariant
                i <= new_view.heads@.len(),
                r@.to_set() == new_view.heads@.subrange(0, i as int).to_set().difference(
                    self.view.heads_set(),
                ),
            decreases new_view.heads.len() - i,
        {
            let h = new_view.heads[i];
            proof {
                assert(new_view.heads@.subrange(0, i + 1) =~= new_view.heads@.subrange(
                    0,
                    i as int,
                ).push(h));
                crate::relay_parent::lemma_push_to_set(new_view.heads@.subrange(0, i as int), h);
            }
            if !self.view.contains(h) {
                let ghost r0 = r@;
                r.push(h);
                proof {
                    crate::relay_parent::lemma_push_to_set(r0, h);
                }
            }
            assert(r@.to_set() =~= new_view.heads@.subrange(0, i + 1).to_set().difference(
                self.view.heads_set(),
            ));
            i = i + 1;
        }
        assert(new_view.heads@.subrange(0, new_view.heads@.len() as int) =~= new_view.heads@);
        r
    }

    /// Whether `fetched` holds information about `h`.
    pub open spec fn fetched_has(fetched: Seq<RelayParentInfo>, h: BlockHash) -> bool {
        exists|j: int| 0 <= j < fetched.len() && (#[trigger] fetched[j]).relay_parent == h
    }

    /// `d` is fresh data built from some entry of `fetched` about `h`.
    pub open spec fn fresh_from(d: PerRelayParentData, fetched: Seq<RelayParentInfo>, h: BlockHash) -> bool {
        &&& exists|j: int|
            0 <= j < fetched.len() && (#[trigger] fetched[j]).relay_parent == h
                && d.signing_context == fetched[j].signing_context && d.validator_set@
                == fetched[j].validator_set@
        &&& d.cache().len() == 0
        &&& d.received() == Set::<(PeerId, ValidatorId)>::empty()
        &&& d.sent() == Set::<(PeerId, ValidatorId)>::empty()
    }

    /// Our view changes to `new_view`: the data of relay parents that left it
    /// is dropped, those that entered it get fresh data from `fetched` (one
    /// without an entry there stays without data), and the view is replaced.
    pub fn handle_our_view_change(&mut self, new_view: RelayView, fetched: &Vec<RelayParentInfo>)
        requires
            old(self).wf(),
        ensures
            final(self).wf(),
            final(self).view.heads@ == new_view.heads@,
            final(self).peer_views == old(self).peer_views,
            final(self).gossip_peers == old(self).gossip_peers,
            forall|h: BlockHash|
                #[trigger] final(self).has_rpd(h) == (new_view.heads_set().contains(h) && (old(
                    self,
                ).has_rpd(h) || (!old(self).view.heads_set().contains(h) && Self::fetched_has(
                    fetched@,
                    h,
                )))),
            forall|h: BlockHash|
                #[trigger] final(self).has_rpd(h) && old(self).has_rpd(h) ==> final(self).rpd_at(h)
                    == old(self).rpd_at(h),
            forall|h: BlockHash|
                #[trigger] final(self).has_rpd(h) && !old(self).has_rpd(h) ==> Self::fresh_from(
                    final(self).rpd_at(h),
                    fetched@,
                    h,
                ),
    {
        let ghost old_state = *self;
        let ghost old_rp = self.per_relay_parent@;
        let ghost nv = new_view.heads_set();
        let mut entries: Vec<(BlockHash, PerRelayParentData)> = Vec::new();
        std::mem::swap(&mut entries, &mut self.per_relay_parent);
        let mut kept = keep_heads(entries, &new_view);
        let ghost kept_old = kept@;
        proof {
            assert(distinct_keys(old_rp));
            assert forall|k: int| 0 <= k < old_rp.len() implies (#[trigger] old_rp[k]).1.wf() by {
                assert(old_state.per_relay_parent@[k].1.wf());
            }
        }
        add_fresh(&mut kept, &new_view, &self.view, fetched);
        proof {
            // facts about the entries kept from before
            assert forall|h: BlockHash| old_state.has_rpd(h) == has_key(old_rp, h) by {
                if has_key(old_rp, h) {
                    let k = choose|k: int| 0 <= k < old_rp.len() && (#[trigger] old_rp[k]).0 == h;
                    assert(old_state.per_relay_parent@[k].0 == h);
                }
            }
        }
        proof {
            assert forall|a: int| 0 <= a < kept@.len() implies entry_ok(
                #[trigger] kept@[a],
                old_rp,
                nv,
                old_state.view.heads_set(),
                fetched@,
            ) by {
                if a < kept_old.len() {
                    assert(kept@[a] == kept_old[a]);
                } else {
                    let h = kept@[a].0;
                    if has_key(old_rp, h) {
                        let k = choose|k: int| 0 <= k < old_rp.len() && (#[trigger] old_rp[k]).0 == h;
                        let b = choose|b: int| 0 <= b < kept_old.len() && #[trigger] kept_old[b] == old_rp[k];
                        assert(kept_old[b].0 == h);
                    }
                }
            }
        }
        self.per_relay_parent = kept;
        self.view = new_view;
        proof {
            assert forall|a: int| 0 <= a < self.per_relay_parent@.len() implies (
            #[trigger] self.per_relay_parent@[a]).1.wf() by {
                assert(entry_ok(self.per_relay_parent@[a], old_rp, nv, old_state.view.heads_set(), fetched@));
                if kept_from(self.per_relay_parent@[a], old_rp, nv) {
                    let k = choose|k: int| 0 <= k < old_rp.len() && #[trigger] old_rp[k] == self.per_relay_parent@[a] && nv.contains(old_rp[k].0);
                    assert(old_rp[k].1.wf());
                }
            }
            assert forall|h: BlockHash| #[trigger] self.has_rpd(h) == (nv.contains(h) && (
            old_state.has_rpd(h) || (!old_state.view.heads_set().contains(h)
                && Self::fetched_has(fetched@, h)))) by {
                if self.has_rpd(h) {
                    let a = choose|a: int|
                        0 <= a < self.per_relay_parent@.len() && (
                        #[trigger] self.per_relay_parent@[a]).0 == h;
                    assert(entry_ok(self.per_relay_parent@[a], old_rp, nv, old_state.view.heads_set(), fetched@));
                    if kept_from(self.per_relay_parent@[a], old_rp, nv) {
                        let k = choose|k: int| 0 <= k < old_rp.len() && #[trigger] old_rp[k] == self.per_relay_parent@[a] && nv.contains(old_rp[k].0);
                        assert(old_rp[k].0 == h);
                    } else {
                        let jj = choose|jj: int|
                            0 <= jj < fetched@.len() && (#[trigger] fetched@[jj]).relay_parent == h
                                && self.per_relay_parent@[a].1.signing_context
                                == fetched@[jj].signing_context
                                && self.per_relay_parent@[a].1.validator_set@
                                == fetched@[jj].validator_set@;
                        assert(Self::fetched_has(fetched@, h));
                    }
                }
                if nv.contains(h) && old_state.has_rpd(h) {
                    let k = choose|k: int| 0 <= k < old_rp.len() && (#[trigger] old_rp[k]).0 == h;
                    assert(in_seq(old_rp[k], kept_old));
                    let a = choose|a: int| 0 <= a < kept_old.len() && #[trigger] kept_old[a] == old_rp[k];
                    assert(self.per_relay_parent@[a].0 == h);
                }
                if nv.contains(h) && !old_state.view.heads_set().contains(h) && Self::fetched_has(fetched@, h) {
                    let jj = choose|jj: int| 0 <= jj < fetched@.len() && (#[trigger] fetched@[jj]).relay_parent == h;
                    assert(has_key(self.per_relay_parent@, fetched@[jj].relay_parent));
                }
            }
            assert forall|h: BlockHash|
                #[trigger] self.has_rpd(h) && old_state.has_rpd(h) implies self.rpd_at(h)
                == old_state.rpd_at(h) by {
                let a = self.rpd_index(h);
                self.lemma_index_of(a);
                assert(entry_ok(self.per_relay_parent@[a], old_rp, nv, old_state.view.heads_set(), fetched@));
                if kept_from(self.per_relay_parent@[a], old_rp, nv) {
                    let k = choose|k: int| 0 <= k < old_rp.len() && #[trigger] old_rp[k] == self.per_relay_parent@[a] && nv.contains(old_rp[k].0);
                    old_state.lemma_index_of(k);
                } else {
                    assert(!has_key(old_rp, h));
                }
            }
            assert forall|h: BlockHash|
                #[trigger] self.has_rpd(h) && !old_state.has_rpd(h) implies Self::fresh_from(
                self.rpd_at(h),
                fetched@,
                h,
            ) by {
                let a = self.rpd_index(h);
                self.lemma_index_of(a);
                assert(entry_ok(self.per_relay_parent@[a], old_rp, nv, old_state.view.heads_set(), fetched@));
                if kept_from(self.per_relay_parent@[a], old_rp, nv) {
                    let k = choose|k: int| 0 <= k < old_rp.len() && #[trigger] old_rp[k] == self.per_relay_parent@[a] && nv.contains(old_rp[k].0);
                    assert(has_key(old_rp, h));
                }
            }
        }
    }
}

/// Every key of `s` occurs once.
pub open spec fn distinct_keys(s: Seq<(BlockHash, PerRelayParentData)>) -> bool {
    forall|a: int, b: int| 0 <= a < b < s.len() ==> (#[trigger] s[a]).0 != (#[trigger] s[b]).0
}

/// Some entry of `s` has key `h`.
pub open spec fn has_key(s: Seq<(BlockHash, PerRelayParentData)>, h: BlockHash) -> bool {
    exists|a: int| 0 <= a < s.len() && (#[trigger] s[a]).0 == h
}

/// `x` is an entry of `s`.
pub open spec fn in_seq(x: (BlockHash, PerRelayParentData), s: Seq<(BlockHash, PerRelayParentData)>) -> bool {
    exists|a: int| 0 <= a < s.len() && #[trigger] s[a] == x
}

/// `x` is an entry of `orig` whose key is in `nv`.
pub open spec fn kept_from(
    x: (BlockHash, PerRelayParentData),
    orig: Seq<(BlockHash, PerRelayParentData)>,
    nv: Set<BlockHash>,
) -> bool {
    exists|k: int| 0 <= k < orig.len() && #[trigger] orig[k] == x && nv.contains(orig[k].0)
}

/// `x` is one of the first `bound` entries of `orig`, and its key is in `nv`.
pub open spec fn kept_before(
    x: (BlockHash, PerRelayParentData),
    orig: Seq<(BlockHash, PerRelayParentData)>,
    bound: int,
    nv: Set<BlockHash>,
) -> bool {
    exists|k: int| 0 <= k < bound && #[trigger] orig[k] == x && nv.contains(x.0)
}

/// `x` was kept from `orig`, or is fresh data, from `fetched`, for a relay
/// parent that entered the view and had none.
pub open spec fn entry_ok(
    x: (BlockHash, PerRelayParentData),
    orig: Seq<(BlockHash, PerRelayParentData)>,
    nv: Set<BlockHash>,
    old_view: Set<BlockHash>,
    fetched: Seq<RelayParentInfo>,
) -> bool {
    kept_from(x, orig, nv) || (nv.contains(x.0) && !old_view.contains(x.0) && !has_key(orig, x.0)
        && ProtocolState::fresh_from(x.1, fetched, x.0))
}

/// The entries of `entries` whose relay parent is in `new_view`.
fn keep_heads(entries: Vec<(BlockHash, PerRelayParentData)>, new_view: &RelayView) -> (r: Vec<
    (BlockHash, PerRelayParentData),
>)
    requires
        distinct_keys(entries@),
    ensures
        distinct_keys(r@),
        forall|a: int|
            0 <= a < r@.len() ==> kept_from(#[trigger] r@[a], entries@, new_view.heads_set()),
        forall|k: int|
            0 <= k < entries@.len() && new_view.heads_set().contains((#[trigger] entries@[k]).0)
                ==> in_seq(entries@[k], r@),
{
    let ghost orig = entries@;
    let ghost nv = new_view.heads_set();
    let mut rest = entries;
    let mut r: Vec<(BlockHash, PerRelayParentData)> = Vec::new();
    let ghost mut i: int = 0;
    while rest.len() > 0
        invariant
            0 <= i <= orig.len(),
            rest@ == orig.subrange(i, orig.len() as int),
            distinct_keys(orig),
            distinct_keys(r@),
            nv == new_view.heads_set(),
            forall|a: int| 0 <= a < r@.len() ==> kept_before(#[trigger] r@[a], orig, i, nv),
            forall|k: int| 0 <= k < i && nv.contains((#[trigger] orig[k]).0) ==> in_seq(orig[k], r@),
        decreases rest@.len(),
    {
        let e = rest.remove(0);
        let ghost r0 = r@;
        assert(e == orig[i]);
        if new_view.contains(e.0) {
            r.push(e);
            assert(r@[r0.len() as int] == e);
            assert forall|a: int, b: int| 0 <= a < b < r@.len() implies (#[trigger] r@[a]).0 != (
            #[trigger] r@[b]).0 by {
                assert(r@[a] == r0[a] || a == r0.len());
                if b == r0.len() {
                    assert(r@[a] == r0[a]);
                    assert(kept_before(r0[a], orig, i, nv));
                    let k = choose|k: int| 0 <= k < i && #[trigger] orig[k] == r0[a] && nv.contains(r0[a].0);
                    assert(orig[k].0 != orig[i].0);
                } else {
                    assert(r@[a] == r0[a]);
                    assert(r@[b] == r0[b]);
                }
            }
        }
        assert forall|a: int| 0 <= a < r@.len() implies kept_before(#[trigger] r@[a], orig, i + 1, nv) by {
            if a < r0.len() {
                assert(r@[a] == r0[a]);
                assert(kept_before(r0[a], orig, i, nv));
                let k = choose|k: int| 0 <= k < i && #[trigger] orig[k] == r0[a] && nv.contains(r0[a].0);
                assert(orig[k] == r@[a]);
            } else {
                assert(orig[i] == r@[a]);
            }
        }
        assert forall|k: int| 0 <= k < i + 1 && nv.contains((#[trigger] orig[k]).0) implies in_seq(
            orig[k],
            r@,
        ) by {
            if k < i {
                let a = choose|a: int| 0 <= a < r0.len() && #[trigger] r0[a] == orig[k];
                assert(r@[a] == r0[a]);
            } else {
                assert(r@[r0.len() as int] == orig[k]);
            }
        }
        proof {
            i = i + 1;
        }
        assert(rest@ =~= orig.subrange(i, orig.len() as int));
    }
    assert forall|a: int| 0 <= a < r@.len() implies kept_from(#[trigger] r@[a], orig, nv) by {
        assert(kept_before(r@[a], orig, i, nv));
        let k = choose|k: int| 0 <= k < i && #[trigger] orig[k] == r@[a] && nv.contains(r@[a].0);
        assert(orig[k] == r@[a]);
    }
    r
}

/// Adds fresh data, from `fetched`, for each relay parent that enters the
/// view and has none yet.
fn add_fresh(
    kept: &mut Vec<(BlockHash, PerRelayParentData)>,
    new_view: &RelayView,
    old_view: &RelayView,
    fetched: &Vec<RelayParentInfo>,
)
    requires
        distinct_keys(old(kept)@),
    ensures
        distinct_keys(final(kept)@),
        old(kept)@.len() <= final(kept)@.len(),
        forall|a: int| 0 <= a < old(kept)@.len() ==> #[trigger] final(kept)@[a] == old(kept)@[a],
        forall|a: int|
            old(kept)@.len() <= a < final(kept)@.len() ==> {
                &&& new_view.heads_set().contains((#[trigger] final(kept)@[a]).0)
                &&& !old_view.heads_set().contains(final(kept)@[a].0)
                &&& !has_key(old(kept)@, final(kept)@[a].0)
                &&& ProtocolState::fresh_from(final(kept)@[a].1, fetched@, final(kept)@[a].0)
            },
        forall|j: int|
            0 <= j < fetched@.len() && new_view.heads_set().contains(
                (#[trigger] fetched@[j]).relay_parent,
            ) && !old_view.heads_set().contains(fetched@[j].relay_parent) ==> has_key(
                final(kept)@,
                fetched@[j].relay_parent,
            ),
{
    let ghost k_old = kept@;
    let mut j: usize = 0;
    while j < fetched.len()
        invariant
            j <= fetched@.len(),
            distinct_keys(kept@),
            k_old == old(kept)@,
            k_old.len() <= kept@.len(),
            forall|a: int| 0 <= a < k_old.len() ==> #[trigger] kept@[a] == k_old[a],
            forall|a: int|
                k_old.len() <= a < kept@.len() ==> {
                    &&& new_view.heads_set().contains((#[trigger] kept@[a]).0)
                    &&& !old_view.heads_set().contains(kept@[a].0)
                    &&& !has_key(k_old, kept@[a].0)
                    &&& ProtocolState::fresh_from(kept@[a].1, fetched@, kept@[a].0)
                },
            forall|j2: int|
                0 <= j2 < j && new_view.heads_set().contains((#[trigger] fetched@[j2]).relay_parent)
                    && !old_view.heads_set().contains(fetched@[j2].relay_parent) ==> has_key(
                    kept@,
                    fetched@[j2].relay_parent,
                ),
        decreases fetched.len() - j,
    {
        let h = fetched[j].relay_parent;
        let ghost k0 = kept@;
        if new_view.contains(h) && !old_view.contains(h) && !contains_key(kept, h) {
            let d = PerRelayParentData::new(
                fetched[j].signing_context,
                copy_ids(&fetched[j].validator_set),
            );
            proof {
                assert(fetched@[j as int].relay_parent == h);
                assert(ProtocolState::fresh_from(d, fetched@, h));
                if has_key(k_old, h) {
                    let a = choose|a: int| 0 <= a < k_old.len() && (#[trigger] k_old[a]).0 == h;
                    assert(k0[a].0 == h);
                }
            }
            kept.push((h, d));
            assert(kept@[k0.len() as int].0 == h);
            assert forall|a: int| 0 <= a < k_old.len() implies #[trigger] kept@[a] == k_old[a] by {
                assert(kept@[a] == k0[a]);
            }
            assert forall|a: int|
                k_old.len() <= a < kept@.len() implies {
                    &&& new_view.heads_set().contains((#[trigger] kept@[a]).0)
                    &&& !old_view.heads_set().contains(kept@[a].0)
                    &&& !has_key(k_old, kept@[a].0)
                    &&& ProtocolState::fresh_from(kept@[a].1, fetched@, kept@[a].0)
                } by {
                if a < k0.len() {
                    assert(kept@[a] == k0[a]);
                }
            }
            assert forall|a: int, b: int| 0 <= a < b < kept@.len() implies (#[trigger] kept@[a]).0
                != (#[trigger] kept@[b]).0 by {
                assert(kept@[a] == k0[a]);
                if b < k0.len() {
                    assert(kept@[b] == k0[b]);
                }
            }
        }
        assert forall|j2: int|
            0 <= j2 < j + 1 && new_view.heads_set().contains((#[trigger] fetched@[j2]).relay_parent)
                && !old_view.heads_set().contains(fetched@[j2].relay_parent) implies has_key(
            kept@,
            fetched@[j2].relay_parent,
        ) by {
            if j2 < j {
                let a = choose|a: int| 0 <= a < k0.len() && (#[trigger] k0[a]).0 == fetched@[j2].relay_parent;
                assert(kept@[a] == k0[a]);
            } else if !has_key(k0, h) {
                assert(kept@[k0.len() as int].0 == h);
            } else {
                let a = choose|a: int| 0 <= a < k0.len() && (#[trigger] k0[a]).0 == h;
                assert(kept@[a] == k0[a]);
            }
        }
        j = j + 1;
    }
}

/// Whether some entry of `v` has key `h`.
fn contains_key(v: &Vec<(BlockHash, PerRelayParentData)>, h: BlockHash) -> (r: bool)
    ensures
        r == exists|a: int| 0 <= a < v@.len() && (#[trigger] v@[a]).0 == h,
{
    let mut i: usize = 0;
    while i < v.len()
        invariant
            i <= v@.len(),
            forall|a: int| 0 <= a < i ==> (#[trigger] v@[a]).0 != h,
        decreases v.len() - i,
    {
        if v[i].0 == h {
            assert(v@[i as int].0 == h);
            return true;
        }
        i = i + 1;
    }
    false
}

} // verus!
