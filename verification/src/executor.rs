//! The boundary to the ledger and the outbound transport.
//!
//! Draining a withdrawal bucket moves value: locally by minting into the
//! recipient account, and across chains by handing the asset to the outbound
//! transport.  Both effects sit behind this capability trait so that the
//! drain logic is specified against the abstract state of whichever
//! implementation the host wires in; [`crate::ledger::InMemoryLedger`] is the
//! in-crate implementation.

use vstd::prelude::*;

use crate::location::{AssetDescriptor, DescriptorView, Location, LocationView};

verus! {

/// Moves value on behalf of the bridge.  Each operation reports success or
/// failure; failure must leave the executor's abstract state unchanged, and
/// what each call does is pinned against the implementation's own transition
/// functions.
pub trait BridgeExecutor: View + Sized {
    /// Whether minting would succeed from state `st`.
    spec fn spec_mint_ok(st: Self::V, asset_id: u128, account: u64, amount: u128) -> bool;

    /// The state after a successful mint.
    spec fn spec_mint(st: Self::V, asset_id: u128, account: u64, amount: u128) -> Self::V;

    /// Whether an outbound transfer would succeed from state `st`.
    spec fn spec_send_ok(
        st: Self::V,
        asset_id: u128,
        asset: DescriptorView,
        destination: LocationView,
        amount: u128,
    ) -> bool;

    /// The state after a successful outbound transfer.
    spec fn spec_send(
        st: Self::V,
        asset_id: u128,
        asset: DescriptorView,
        destination: LocationView,
        amount: u128,
    ) -> Self::V;

    /// Mints `amount` of the asset into a local account.
    fn mint_into(&mut self, asset_id: u128, account: u64, amount: u128) -> (ok: bool)
        ensures
            ok == Self::spec_mint_ok(old(self)@, asset_id, account, amount),
            ok ==> final(self)@ == Self::spec_mint(old(self)@, asset_id, account, amount),
            !ok ==> final(self)@ == old(self)@,
    ;

    /// Hands `amount` of the asset to the outbound transport towards
    /// `destination`.
    fn send_to_chain(
        &mut self,
        asset_id: u128,
        asset: &AssetDescriptor,
        destination: &Location,
        amount: u128,
    ) -> (ok: bool)
        ensures
            ok == Self::spec_send_ok(old(self)@, asset_id, asset@, destination@, amount),
            ok ==> final(self)@ == Self::spec_send(
                old(self)@,
                asset_id,
                asset@,
                destination@,
                amount,
            ),
            !ok ==> final(self)@ == old(self)@,
    ;
}

} // verus!
