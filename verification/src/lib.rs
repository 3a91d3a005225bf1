//! A verified token registry: ownership, metadata, transfer rights and a
//! simulated cross-chain hand-off for uniquely numbered digital assets.
//!
//! The registry is a single-threaded state machine. The hosting execution
//! environment is abstracted away: the calling identity and the logical
//! timestamp of each operation are explicit parameters, and notifications
//! are recorded in an event log instead of being delivered externally.

pub mod asset_hub;
pub mod asset_hub_simple;
pub mod minimal_nft;
pub mod tables;
pub mod vr_genesis;
