//! A cross-chain asset bridge core with a governance override.
//!
//! The crate models the four components of the bridge as explicit state
//! structs that a host driver owns and threads through each call:
//!
//! * [`locator::AssetLocator`] — deterministic mapping between hierarchical
//!   foreign-chain asset descriptors and flat 128-bit local asset ids.
//! * [`auth::RelayKeyState`] — the single active relay public key and the
//!   next expected nonce; authenticates signed withdrawal batches.
//! * [`queue::WithdrawalQueue`] — per-block bounded buckets of scheduled
//!   withdrawals, with a veto window before each bucket is drained.
//! * [`council::CouncilState`] — quorum voting over membership proposals and
//!   the power to veto a still-pending withdrawal.
//!
//! [`bridge::BridgeState`] composes the four and exposes the host-facing
//! operations; [`executor::BridgeExecutor`] is the boundary to the ledger and
//! the outbound transport, with [`ledger::InMemoryLedger`] as the in-crate
//! implementation.

use vstd::prelude::*;

pub mod auth;
pub mod bridge;
pub mod council;
pub mod digests;
pub mod encoding;
pub mod executor;
pub mod ledger;
pub mod location;
pub mod locator;
pub mod queue;
pub mod whitelist;
pub mod withdrawal;

verus! {

/// Number of withdrawal entries a single per-block bucket may hold.
pub const BUCKET_CAPACITY: usize = 100;

/// Number of members the active and the pending council set may each hold.
pub const COUNCIL_CAPACITY: usize = 10;

/// Number of votes a single proposal may accumulate.
pub const VOTE_CAPACITY: usize = 100;

/// Every rejection any bridge operation can report.
///
/// Authentication errors: [`Error::NoKeySet`], [`Error::StaleNonce`],
/// [`Error::BadSignature`], [`Error::KeyAlreadySet`].
/// Capacity errors: [`Error::QueueFull`], [`Error::StorageOverflow`].
/// State errors: the rest.
#[derive(Clone, Copy, PartialEq, Eq, Structural, Debug)]
pub enum Error {
    /// No relay key is configured yet.
    NoKeySet,
    /// A relay key is already configured; bootstrap is over.
    KeyAlreadySet,
    /// The submitted nonce is not the next expected one.
    StaleNonce,
    /// The signature does not recover to the current relay key.
    BadSignature,
    /// A per-block withdrawal bucket is at capacity.
    QueueFull,
    /// No withdrawal entry exists at the given block and index.
    IndexNotFound,
    /// The caller is not an active council member.
    NotCouncilMember,
    /// The caller already voted on this proposal.
    AlreadyVoted,
    /// A bounded member set or vote set is at capacity.
    StorageOverflow,
    /// The member to expel is not an active member.
    NotActiveMember,
    /// The caller is not a pending council member.
    NotPendingMember,
    /// The token is already whitelisted.
    TokenIsAlreadyWhitelisted,
}

} // verus!
