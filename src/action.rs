//! What the gossip core asks its surroundings to do.
use vstd::prelude::*;
use crate::primitives::{
    BitfieldGossipMessage, GossipMessageView, BlockHash, PeerId, SignedBitfield, SignedBitfieldView,
};

verus! {

/// One output of the gossip core, in the order in which it is to be carried out.
#[derive(Debug, PartialEq, Eq)]
pub enum Action {
    /// Hand a first-seen valid bitfield to the provisioner.
    Provision { relay_parent: BlockHash, signed: SignedBitfield },
    /// Change a peer's reputation by `delta`.
    ReportPeer { peer: PeerId, delta: i32 },
    /// Send the message to each of `peers`.
    SendValidation { peers: Vec<PeerId>, message: BitfieldGossipMessage },
}

/// Model of an [`Action`].
pub enum ActionView {
    Provision(BlockHash, SignedBitfieldView),
    ReportPeer(PeerId, i32),
    SendValidation(Seq<PeerId>, GossipMessageView),
}

impl View for Action {
    type V = ActionView;

    open spec fn view(&self) -> ActionView {
        match self {
            Action::Provision { relay_parent, signed } => ActionView::Provision(
                *relay_parent,
                signed@,
            ),
            Action::ReportPeer { peer, delta } => ActionView::ReportPeer(*peer, *delta),
            Action::SendValidation { peers, message } => ActionView::SendValidation(
                peers@,
                message@,
            ),
        }
    }
}

/// The models of a list of actions.
pub open spec fn actions_view(a: Seq<Action>) -> Seq<ActionView> {
    a.map_values(|x: Action| x@)
}

} // verus!
