//! An in-memory bridge executor.
//!
//! Local mints are recorded on an append-only log; outbound transfers draw
//! on a per-asset reserve and fail when the reserve does not cover the
//! amount.  This is the crate's own implementation of
//! [`BridgeExecutor`]; a host may wire in another.

use vstd::prelude::*;

use crate::executor::BridgeExecutor;
use crate::location::{AssetDescriptor, DescriptorView, Location, LocationView};

verus! {

/// The mathematical state of an [`InMemoryLedger`].
#[verifier::ext_equal]
pub ghost struct LedgerView {
    pub reserves: Seq<(u128, u128)>,
    pub minted: Seq<(u128, u64, u128)>,
}

/// First-match reserve balance of an asset.
pub open spec fn spec_reserve_of(s: Seq<(u128, u128)>, asset_id: u128) -> Option<u128>
    decreases s.len(),
{
    if s.len() == 0 {
        None
    } else if s[0].0 == asset_id {
        Some(s[0].1)
    } else {
        spec_reserve_of(s.drop_first(), asset_id)
    }
}

/// The reserves after debiting `amount` from the first entry of the asset.
pub open spec fn spec_debit(s: Seq<(u128, u128)>, asset_id: u128, amount: u128) -> Seq<
    (u128, u128),
>
    decreases s.len(),
{
    if s.len() == 0 {
        s
    } else if s[0].0 == asset_id {
        seq![(asset_id, (s[0].1 - amount) as u128)] + s.drop_first()
    } else {
        seq![s[0]] + spec_debit(s.drop_first(), asset_id, amount)
    }
}

/// A ledger of outbound reserves and an append-only mint log.
pub struct InMemoryLedger {
    /// Per-asset reserve available to outbound transfers.
    pub reserves: Vec<(u128, u128)>,
    /// Every successful local mint, in order: asset, account, amount.
    pub minted: Vec<(u128, u64, u128)>,
}

impl View for InMemoryLedger {
    type V = LedgerView;

    open spec fn view(&self) -> LedgerView {
        LedgerView { reserves: self.reserves@, minted: self.minted@ }
    }
}

impl InMemoryLedger {
    /// An empty ledger.
    pub fn new() -> (r: InMemoryLedger)
        ensures
            r@.reserves == Seq::<(u128, u128)>::empty(),
            r@.minted == Seq::<(u128, u64, u128)>::empty(),
    {
        InMemoryLedger { reserves: Vec::new(), minted: Vec::new() }
    }

    /// Adds a reserve entry for an asset.
    pub fn fund(&mut self, asset_id: u128, amount: u128)
        ensures
            final(self)@.reserves == old(self)@.reserves.push((asset_id, amount)),
            final(self)@.minted == old(self)@.minted,
    {
        self.reserves.push((asset_id, amount));
    }

    /// The number of mints recorded so far.
    pub fn minted_len(&self) -> (r: usize)
        ensures
            r == self@.minted.len(),
    {
        self.minted.len()
    }
}

impl BridgeExecutor for InMemoryLedger {
    open spec fn spec_mint_ok(st: LedgerView, asset_id: u128, account: u64, amount: u128) -> bool {
        true
    }

    open spec fn spec_mint(st: LedgerView, asset_id: u128, account: u64, amount: u128)
        -> LedgerView {
        LedgerView { minted: st.minted.push((asset_id, account, amount)), ..st }
    }

    open spec fn spec_send_ok(
        st: LedgerView,
        asset_id: u128,
        asset: DescriptorView,
        destination: LocationView,
        amount: u128,
    ) -> bool {
        match spec_reserve_of(st.reserves, asset_id) {
            Some(balance) => balance >= amount,
            None => false,
        }
    }

    open spec fn spec_send(
        st: LedgerView,
        asset_id: u128,
        asset: DescriptorView,
        destination: LocationView,
        amount: u128,
    ) -> LedgerView {
        LedgerView { reserves: spec_debit(st.reserves, asset_id, amount), ..st }
    }

    fn mint_into(&mut self, asset_id: u128, account: u64, amount: u128) -> (ok: bool) {
        self.minted.push((asset_id, account, amount));
        true
    }

    fn send_to_chain(
        &mut self,
        asset_id: u128,
        asset: &AssetDescriptor,
        destination: &Location,
        amount: u128,
    ) -> (ok: bool) {
        let n = self.reserves.len();
        let mut i: usize = 0;
        proof {
            assert(self.reserves@.skip(0) =~= self.reserves@);
        }
        while i < n
            invariant
                n == self.reserves.len(),
                0 <= i <= n,
                self@ == old(self)@,
                forall|k: int| 0 <= k < i ==> self.reserves@[k].0 != asset_id,
                spec_reserve_of(self.reserves@, asset_id) == spec_reserve_of(
                    self.reserves@.skip(i as int),
                    asset_id,
                ),
            decreases n - i,
        {
            proof {
                assert(self.reserves@.skip(i as int)[0] == self.reserves@[i as int]);
                assert(self.reserves@.skip(i as int).drop_first() =~= self.reserves@.skip(i + 1));
            }
            if self.reserves[i].0 == asset_id {
                let balance = self.reserves[i].1;
                if balance >= amount {
                    let ghost pre = self.reserves@;
                    self.reserves[i] = (asset_id, balance - amount);
                    proof {
                        lemma_debit_at_first_match(pre, i as int, asset_id, amount);
                        assert(self.reserves@ =~= spec_debit(pre, asset_id, amount));
                        assert(self@ =~= LedgerView {
                            reserves: spec_debit(old(self)@.reserves, asset_id, amount),
                            ..old(self)@
                        });
                    }
                    return true;
                } else {
                    return false;
                }
            }
            i = i + 1;
        }
        proof {
            assert(self.reserves@.skip(n as int) =~= Seq::<(u128, u128)>::empty());
        }
        false
    }
}

proof fn lemma_debit_at_first_match(s: Seq<(u128, u128)>, i: int, asset_id: u128, amount: u128)
    requires
        0 <= i < s.len(),
        s[i].0 == asset_id,
        forall|k: int| 0 <= k < i ==> s[k].0 != asset_id,
    ensures
        spec_debit(s, asset_id, amount) == s.update(i, (asset_id, (s[i].1 - amount) as u128)),
    decreases i,
{
    if i == 0 {
        assert(spec_debit(s, asset_id, amount) =~= s.update(
            0,
            (asset_id, (s[0].1 - amount) as u128),
        ));
    } else {
        lemma_debit_at_first_match(s.drop_first(), i - 1, asset_id, amount);
        assert(s.update(i, (asset_id, (s[i].1 - amount) as u128)).drop_first() =~= s.drop_first()
            .update(i - 1, (asset_id, (s[i].1 - amount) as u128)));
        assert(spec_debit(s, asset_id, amount) =~= s.update(
            i,
            (asset_id, (s[i].1 - amount) as u128),
        ));
    }
}

} // verus!
