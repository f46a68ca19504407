//! Reputation deltas reported for each observable peer behaviour.
use vstd::prelude::*;

verus! {

/// A peer sent a bitfield whose signature does not verify.
pub const COST_SIGNATURE_INVALID: i32 = -300000;

/// A peer sent a bitfield whose validator index is outside the validator set.
pub const COST_VALIDATOR_INDEX_INVALID: i32 = -300000;

/// A peer sent a bitfield before announcing any view.
pub const COST_MISSING_PEER_VIEW: i32 = -100000;

/// A peer sent a bitfield for a relay parent we do not track.
pub const COST_NOT_IN_VIEW: i32 = -100000;

/// A peer sent the same validator's bitfield for a relay parent twice.
pub const COST_PEER_DUPLICATE_MESSAGE: i32 = -200000;

/// A peer was the first to deliver a valid bitfield.
pub const BENEFIT_VALID_MESSAGE_FIRST: i32 = 15000;

/// A peer delivered a valid copy of a bitfield we already had.
pub const BENEFIT_VALID_MESSAGE: i32 = 10000;

} // verus!
