//! Availability-bitfield gossip: the bookkeeping that validates incoming
//! signed bitfields, relays each one at most once per peer, feeds the first
//! copy of every validator's bitfield to the provisioner, and rates peers.
pub mod action;
pub mod event;
pub mod gossip;
pub mod handler;
pub mod laws;
pub mod primitives;
pub mod relay_parent;
pub mod reputation;
pub mod state;
pub mod view_change;
