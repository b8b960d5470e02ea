//! The bridge as one state machine.
//!
//! A host driver owns a [`BridgeState`], checks caller privileges itself,
//! and threads every call through here: relay-signed withdrawal batches,
//! key management, council governance, and the once-per-block drain.

use vstd::prelude::*;

use crate::auth::RelayKeyState;
use crate::council::{spec_cast_vote, spec_claim_membership, CouncilState, Proposal};
use crate::digests::ecdsa_recover_of;
use crate::encoding::{encode_schedule_payload, spec_encode_payload};
use crate::executor::BridgeExecutor;
use crate::location::DescriptorView;
use crate::locator::{spec_register_all, spec_register_entry, AssetLocator};
use crate::queue::{lemma_pending_within_capacity, spec_drain, WithdrawalQueue};
use crate::whitelist::TokenWhitelist;
use crate::withdrawal::{
    lemma_request_views_drop_first, request_views, ScheduleRequest, ScheduleRequestView,
    WithdrawalRequest, WithdrawalView,
};
use crate::{Error, BUCKET_CAPACITY};

verus! {

/// The assets of a request batch, in order.
pub open spec fn descriptors_of(rs: Seq<ScheduleRequestView>) -> Seq<DescriptorView> {
    rs.map_values(|r: ScheduleRequestView| r.asset)
}

/// The withdrawal entry a schedule request becomes: its asset resolved to a
/// local id, not blocked.
pub open spec fn spec_withdrawal_of(loc: AssetLocator, r: ScheduleRequestView) -> WithdrawalView {
    WithdrawalView {
        asset_id: loc.spec_asset_id(r.asset),
        amount: r.amount,
        destination: r.destination,
        is_blocked: false,
        extra: r.extra,
    }
}

/// The withdrawal entries a request batch becomes.
pub open spec fn spec_withdrawals_of(loc: AssetLocator, rs: Seq<ScheduleRequestView>) -> Seq<
    WithdrawalView,
> {
    rs.map_values(|r: ScheduleRequestView| spec_withdrawal_of(loc, r))
}

/// The whole bridge: the four components and the block clock, owned and
/// threaded by the host driver.
pub struct BridgeState {
    /// The descriptor/id table.
    pub locator: AssetLocator,
    /// The relay key and nonce.
    pub auth: RelayKeyState,
    /// The delayed withdrawal queue.
    pub queue: WithdrawalQueue,
    /// The governing council.
    pub council: CouncilState,
    /// Tokens whitelisted for fee payment.
    pub whitelist: TokenWhitelist,
    /// The current block number; advances one block at a time.
    pub current_block: u64,
}

impl BridgeState {
    /// Well-formed: every component is.
    pub open spec fn wf(self) -> bool {
        &&& self.locator.wf()
        &&& self.auth.wf()
        &&& self.queue.wf()
        &&& self.council.wf()
        &&& self.whitelist.wf()
    }

    /// The block a batch scheduled now becomes executable at: the current
    /// block plus the execution delay, saturating.
    pub open spec fn spec_target_block(self) -> u64 {
        if self.current_block + self.queue.execution_delay > u64::MAX {
            u64::MAX
        } else {
            (self.current_block + self.queue.execution_delay) as u64
        }
    }

    /// The governance components are untouched.
    pub open spec fn spec_governance_unchanged(self, pre: BridgeState) -> bool {
        &&& self.council@ == pre.council@
        &&& self.whitelist.tokens@ == pre.whitelist.tokens@
    }

    /// The locator is untouched.
    pub open spec fn spec_locator_unchanged(self, pre: BridgeState) -> bool {
        &&& self.locator.constants_unchanged(pre.locator)
        &&& self.locator.entries() == pre.locator.entries()
    }

    /// The authenticator is untouched.
    pub open spec fn spec_auth_unchanged(self, pre: BridgeState) -> bool {
        &&& self.auth.spec_key() == pre.auth.spec_key()
        &&& self.auth.next_nonce == pre.auth.next_nonce
    }

    /// The queue is untouched.
    pub open spec fn spec_queue_unchanged(self, pre: BridgeState) -> bool {
        &&& self.queue.execution_delay == pre.queue.execution_delay
        &&& forall|m: u64| self.queue.spec_pending_at(m) == pre.queue.spec_pending_at(m)
        &&& forall|m: u64| self.queue.spec_failed_at(m) == pre.queue.spec_failed_at(m)
    }

    /// A fresh bridge at block zero, with no key, no members, no entries.
    pub fn new(network_id: u8, para_id: u32, native_asset_id: u128, execution_delay: u64) -> (r:
        BridgeState)
        ensures
            r.wf(),
            r.locator.network_id == network_id,
            r.locator.para_id == para_id,
            r.locator.native_asset_id == native_asset_id,
            r.locator.entries() == Seq::<(u128, DescriptorView)>::empty(),
            r.auth.spec_key() is None,
            r.auth.next_nonce == 0,
            r.queue.execution_delay == execution_delay,
            forall|n: u64| r.queue.spec_pending_at(n) == Seq::<WithdrawalView>::empty(),
            forall|n: u64| r.queue.spec_failed_at(n) == Seq::<WithdrawalView>::empty(),
            r.council@.active == Seq::<u64>::empty(),
            r.council@.pending == Seq::<u64>::empty(),
            r.council@.proposals.len() == 0,
            r.whitelist.tokens@ == Seq::<u128>::empty(),
            r.current_block == 0,
    {
        BridgeState {
            locator: AssetLocator::new(network_id, para_id, native_asset_id),
            auth: RelayKeyState::new(),
            queue: WithdrawalQueue::new(execution_delay),
            council: CouncilState::new(),
            whitelist: TokenWhitelist::new(),
            current_block: 0,
        }
    }

    /// Schedules a relay-signed withdrawal batch.
    ///
    /// First authenticates and consumes the nonce; on success resolves each
    /// request's asset, builds its withdrawal entry and appends it to the
    /// bucket of the target block.  The whole call fails with
    /// [`Error::QueueFull`] — inserting nothing, though the nonce stays
    /// consumed — when the batch would not fit into the bucket.
    pub fn withdraw_asset(
        &mut self,
        requests: Vec<ScheduleRequest>,
        withdraw_nonce: u32,
        signature: &Vec<u8>,
    ) -> (r: Result<(), Error>)
        requires
            old(self).wf(),
        ensures
            final(self).wf(),
            final(self).spec_governance_unchanged(*old(self)),
            final(self).current_block == old(self).current_block,
            final(self).queue.execution_delay == old(self).queue.execution_delay,
            final(self).locator.constants_unchanged(old(self).locator),
            final(self).auth.spec_key() == old(self).auth.spec_key(),
            forall|m: u64|
                final(self).queue.spec_failed_at(m) == old(self).queue.spec_failed_at(m),
            match r {
                Ok(()) => {
                    &&& old(self).auth.spec_auth_ok(
                        spec_encode_payload(request_views(requests@)),
                        withdraw_nonce,
                        signature@,
                    )
                    &&& final(self).auth.next_nonce == old(self).auth.next_nonce.saturating_add(1)
                    &&& old(self).queue.spec_pending_at(old(self).spec_target_block()).len()
                        + requests@.len() <= BUCKET_CAPACITY
                    &&& final(self).queue.spec_pending_at(old(self).spec_target_block()) == old(
                        self,
                    ).queue.spec_pending_at(old(self).spec_target_block())
                        + spec_withdrawals_of(old(self).locator, request_views(requests@))
                    &&& forall|m: u64|
                        m != old(self).spec_target_block() ==> final(self).queue.spec_pending_at(m)
                            == old(self).queue.spec_pending_at(m)
                    &&& final(self).locator.entries() == spec_register_all(
                        old(self).locator.network_id,
                        old(self).locator.para_id,
                        old(self).locator.entries(),
                        descriptors_of(request_views(requests@)),
                    )
                },
                Err(e) => {
                    &&& final(self).spec_locator_unchanged(*old(self))
                    &&& final(self).spec_queue_unchanged(*old(self))
                    &&& (if e == Error::QueueFull {
                        &&& old(self).auth.spec_auth_ok(
                            spec_encode_payload(request_views(requests@)),
                            withdraw_nonce,
                            signature@,
                        )
                        &&& final(self).auth.next_nonce == old(
                            self,
                        ).auth.next_nonce.saturating_add(1)
                        &&& old(self).queue.spec_pending_at(old(self).spec_target_block()).len()
                            + requests@.len() > BUCKET_CAPACITY
                    } else {
                        &&& final(self).auth.next_nonce == old(self).auth.next_nonce
                        &&& (if old(self).auth.spec_key() is None {
                            e == Error::NoKeySet
                        } else if withdraw_nonce != old(self).auth.next_nonce {
                            e == Error::StaleNonce
                        } else {
                            &&& e == Error::BadSignature
                            &&& !old(self).auth.spec_auth_ok(
                                spec_encode_payload(request_views(requests@)),
                                withdraw_nonce,
                                signature@,
                            )
                        })
                    })
                },
            },
    {
        let payload = encode_schedule_payload(&requests);
        match self.auth.verify_and_consume(&payload, withdraw_nonce, signature) {
            Ok(()) => {},
            Err(e) => {
                return Err(e);
            },
        }
        let target = self.current_block.saturating_add(self.queue.execution_delay);
        proof {
            assert(target == old(self).spec_target_block());
            lemma_pending_within_capacity(self.queue, target);
        }
        let pending_now = self.queue.pending_len(target);
        if requests.len() > BUCKET_CAPACITY || pending_now + requests.len() > BUCKET_CAPACITY {
            return Err(Error::QueueFull);
        }
        let ghost rs0 = request_views(requests@);
        let ghost nw = old(self).locator.network_id;
        let ghost para = old(self).locator.para_id;
        let ghost pending0 = old(self).queue.spec_pending_at(target);
        let mut reqs = requests;
        let ghost mut done: Seq<ScheduleRequestView> = Seq::empty();
        proof {
            assert(rs0 =~= done + request_views(reqs@));
            assert(spec_withdrawals_of(old(self).locator, done) =~= Seq::<
                WithdrawalView,
            >::empty());
            assert(self.queue.spec_pending_at(target) == pending0 + spec_withdrawals_of(
                old(self).locator,
                done,
            ));
        }
        while reqs.len() > 0
            invariant
                self.auth.wf(),
                self.auth.spec_key() == old(self).auth.spec_key(),
                self.auth.next_nonce == old(self).auth.next_nonce.saturating_add(1),
                self.council@ == old(self).council@,
                self.council.wf(),
                self.whitelist.tokens@ == old(self).whitelist.tokens@,
                self.whitelist.wf(),
                self.current_block == old(self).current_block,
                self.locator.wf(),
                self.locator.constants_unchanged(old(self).locator),
                nw == self.locator.network_id,
                para == self.locator.para_id,
                spec_register_all(nw, para, old(self).locator.entries(), descriptors_of(rs0))
                    == spec_register_all(
                    nw,
                    para,
                    self.locator.entries(),
                    descriptors_of(request_views(reqs@)),
                ),
                self.queue.wf(),
                self.queue.execution_delay == old(self).queue.execution_delay,
                forall|m: u64|
                    m != target ==> self.queue.spec_pending_at(m) == old(
                        self,
                    ).queue.spec_pending_at(m),
                forall|m: u64| self.queue.spec_failed_at(m) == old(self).queue.spec_failed_at(m),
                rs0 == done + request_views(reqs@),
                pending0 == old(self).queue.spec_pending_at(target),
                pending0.len() + rs0.len() <= BUCKET_CAPACITY,
                self.queue.spec_pending_at(target) == pending0 + spec_withdrawals_of(
                    old(self).locator,
                    done,
                ),
                done.len() + reqs@.len() == rs0.len(),
            decreases reqs.len(),
        {
            let ghost pre_reqs = reqs@;
            let ghost pre_entries = self.locator.entries();
            let req = reqs.remove(0);
            proof {
                assert(pre_reqs.remove(0) =~= pre_reqs.drop_first());
                lemma_request_views_drop_first(pre_reqs);
                assert(request_views(pre_reqs)[0] == req@);
                assert(descriptors_of(request_views(pre_reqs))[0] == req@.asset);
                assert(descriptors_of(request_views(pre_reqs)).drop_first() =~= descriptors_of(
                    request_views(reqs@),
                ));
            }
            let id = self.locator.resolve_or_register(&req.asset);
            proof {
                assert(self.locator.entries() == spec_register_entry(
                    nw,
                    para,
                    pre_entries,
                    req@.asset,
                ));
            }
            let w = WithdrawalRequest {
                asset_id: id,
                amount: req.amount,
                destination: req.destination,
                is_blocked: false,
                extra: req.extra,
            };
            proof {
                assert(w@ =~= spec_withdrawal_of(old(self).locator, req@));
                assert(self.queue.spec_pending_at(target).len() == pending0.len() + done.len());
                assert(done.len() < rs0.len());
            }
            self.queue.push_pending(target, w);
            proof {
                done = done.push(req@);
                assert(rs0 =~= done + request_views(reqs@));
                assert(spec_withdrawals_of(old(self).locator, done) =~= spec_withdrawals_of(
                    old(self).locator,
                    done.drop_last(),
                ).push(spec_withdrawal_of(old(self).locator, req@)));
                assert(self.queue.spec_pending_at(target) =~= pending0 + spec_withdrawals_of(
                    old(self).locator,
                    done,
                ));
            }
        }
        proof {
            assert(request_views(reqs@) =~= Seq::<ScheduleRequestView>::empty());
            assert(rs0 =~= done);
            assert(descriptors_of(request_views(reqs@)) =~= Seq::<DescriptorView>::empty());
            assert(final(self).locator.entries() == spec_register_all(
                nw,
                para,
                old(self).locator.entries(),
                descriptors_of(rs0),
            ));
        }
        Ok(())
    }

    /// Installs the first relay key; the host must allow only privileged
    /// callers through.
    pub fn set_thea_key(&mut self, thea_key: Vec<u8>) -> (r: Result<(), Error>)
        requires
            old(self).wf(),
            thea_key@.len() == 64,
        ensures
            final(self).wf(),
            final(self).spec_governance_unchanged(*old(self)),
            final(self).spec_locator_unchanged(*old(self)),
            final(self).spec_queue_unchanged(*old(self)),
            final(self).current_block == old(self).current_block,
            match r {
                Ok(()) => {
                    &&& old(self).auth.spec_key() is None
                    &&& final(self).auth.spec_key() == Some(thea_key@)
                    &&& final(self).auth.next_nonce == 0
                },
                Err(e) => {
                    &&& e == Error::KeyAlreadySet
                    &&& old(self).auth.spec_key() is Some
                    &&& final(self).spec_auth_unchanged(*old(self))
                },
            },
    {
        self.auth.set_key(thea_key)
    }

    /// Rotates the relay key under a signature by the current key.
    pub fn change_thea_key(&mut self, new_thea_key: Vec<u8>, signature: &Vec<u8>) -> (r: Result<
        (),
        Error,
    >)
        requires
            old(self).wf(),
            new_thea_key@.len() == 64,
        ensures
            final(self).wf(),
            final(self).spec_governance_unchanged(*old(self)),
            final(self).spec_locator_unchanged(*old(self)),
            final(self).spec_queue_unchanged(*old(self)),
            final(self).current_block == old(self).current_block,
            final(self).auth.next_nonce == old(self).auth.next_nonce,
            match r {
                Ok(()) => {
                    &&& old(self).auth.spec_key() is Some
                    &&& signature@.len() == 65
                    &&& ecdsa_recover_of(
                        signature@,
                        crate::auth::spec_rotation_digest(new_thea_key@),
                    ) == Some(old(self).auth.spec_key().unwrap())
                    &&& final(self).auth.spec_key() == Some(new_thea_key@)
                },
                Err(e) => {
                    &&& final(self).auth.spec_key() == old(self).auth.spec_key()
                    &&& (if old(self).auth.spec_key() is None {
                        e == Error::NoKeySet
                    } else {
                        &&& e == Error::BadSignature
                        &&& !(signature@.len() == 65 && ecdsa_recover_of(
                            signature@,
                            crate::auth::spec_rotation_digest(new_thea_key@),
                        ) == Some(old(self).auth.spec_key().unwrap()))
                    })
                },
            },
    {
        self.auth.rotate_key(new_thea_key, signature)
    }

    /// Whitelists a fee token; the host must allow only privileged callers
    /// through.
    pub fn whitelist_token(&mut self, token: u128) -> (r: Result<(), Error>)
        requires
            old(self).wf(),
        ensures
            final(self).wf(),
            final(self).spec_locator_unchanged(*old(self)),
            final(self).spec_auth_unchanged(*old(self)),
            final(self).spec_queue_unchanged(*old(self)),
            final(self).council@ == old(self).council@,
            final(self).current_block == old(self).current_block,
            match r {
                Ok(()) => {
                    &&& !old(self).whitelist.spec_contains(token)
                    &&& final(self).whitelist.tokens@ == old(self).whitelist.tokens@.push(token)
                },
                Err(e) => {
                    &&& e == Error::TokenIsAlreadyWhitelisted
                    &&& old(self).whitelist.spec_contains(token)
                    &&& final(self).whitelist.tokens@ == old(self).whitelist.tokens@
                },
            },
    {
        self.whitelist.whitelist_token(token)
    }

    /// Whether `token` is whitelisted for fee payment.
    pub fn check_whitelisted_token(&self, token: u128) -> (r: bool)
        ensures
            r == self.whitelist.spec_contains(token),
    {
        self.whitelist.check_whitelisted_token(token)
    }

    /// One vote by `sender` for admitting `new_member` to the council.
    pub fn add_member(&mut self, sender: u64, new_member: u64) -> (r: Result<(), Error>)
        requires
            old(self).wf(),
        ensures
            final(self).wf(),
            final(self).spec_locator_unchanged(*old(self)),
            final(self).spec_auth_unchanged(*old(self)),
            final(self).spec_queue_unchanged(*old(self)),
            final(self).whitelist.tokens@ == old(self).whitelist.tokens@,
            final(self).current_block == old(self).current_block,
            final(self).council@ == spec_cast_vote(
                old(self).council@,
                sender,
                Proposal::Admit(new_member),
            ).0,
            r == spec_cast_vote(old(self).council@, sender, Proposal::Admit(new_member)).1,
    {
        self.council.add_member(sender, new_member)
    }

    /// One vote by `sender` for expelling `member_to_be_removed`.
    pub fn remove_member(&mut self, sender: u64, member_to_be_removed: u64) -> (r: Result<
        (),
        Error,
    >)
        requires
            old(self).wf(),
        ensures
            final(self).wf(),
            final(self).spec_locator_unchanged(*old(self)),
            final(self).spec_auth_unchanged(*old(self)),
            final(self).spec_queue_unchanged(*old(self)),
            final(self).whitelist.tokens@ == old(self).whitelist.tokens@,
            final(self).current_block == old(self).current_block,
            final(self).council@ == spec_cast_vote(
                old(self).council@,
                sender,
                Proposal::Expel(member_to_be_removed),
            ).0,
            r == spec_cast_vote(old(self).council@, sender, Proposal::Expel(member_to_be_removed)).1,
    {
        self.council.remove_member(sender, member_to_be_removed)
    }

    /// Moves the caller from the pending to the active council set.
    pub fn claim_membership(&mut self, sender: u64) -> (r: Result<(), Error>)
        requires
            old(self).wf(),
        ensures
            final(self).wf(),
            final(self).spec_locator_unchanged(*old(self)),
            final(self).spec_auth_unchanged(*old(self)),
            final(self).spec_queue_unchanged(*old(self)),
            final(self).whitelist.tokens@ == old(self).whitelist.tokens@,
            final(self).current_block == old(self).current_block,
            final(self).council@ == spec_claim_membership(old(self).council@, sender).0,
            r == spec_claim_membership(old(self).council@, sender).1,
    {
        self.council.claim_membership(sender)
    }

    /// A council member's veto: blocks the withdrawal at `index` of block
    /// `block_no`'s pending bucket, so that the drain routes it to the
    /// failed bucket instead of executing it.
    pub fn delete_transaction(&mut self, sender: u64, block_no: u64, index: u32) -> (r: Result<
        (),
        Error,
    >)
        requires
            old(self).wf(),
        ensures
            final(self).wf(),
            final(self).spec_governance_unchanged(*old(self)),
            final(self).spec_locator_unchanged(*old(self)),
            final(self).spec_auth_unchanged(*old(self)),
            final(self).current_block == old(self).current_block,
            final(self).queue.execution_delay == old(self).queue.execution_delay,
            forall|m: u64|
                final(self).queue.spec_failed_at(m) == old(self).queue.spec_failed_at(m),
            match r {
                Ok(()) => {
                    &&& old(self).council@.active.contains(sender)
                    &&& index < old(self).queue.spec_pending_at(block_no).len()
                    &&& final(self).queue.spec_pending_at(block_no) == old(
                        self,
                    ).queue.spec_pending_at(block_no).update(
                        index as int,
                        WithdrawalView {
                            is_blocked: true,
                            ..old(self).queue.spec_pending_at(block_no)[index as int]
                        },
                    )
                    &&& forall|m: u64|
                        m != block_no ==> final(self).queue.spec_pending_at(m) == old(
                            self,
                        ).queue.spec_pending_at(m)
                },
                Err(e) => {
                    &&& forall|m: u64|
                        final(self).queue.spec_pending_at(m) == old(self).queue.spec_pending_at(m)
                    &&& (if !old(self).council@.active.contains(sender) {
                        e == Error::NotCouncilMember
                    } else {
                        &&& e == Error::IndexNotFound
                        &&& index >= old(self).queue.spec_pending_at(block_no).len()
                    })
                },
            },
    {
        if !self.council.is_council_member(sender) {
            return Err(Error::NotCouncilMember);
        }
        self.queue.veto(block_no, index)
    }

    /// Advances the clock by one block and drains that block's bucket
    /// through `executor`, per [`spec_drain`].
    pub fn advance_to<E: BridgeExecutor>(&mut self, n: u64, executor: &mut E)
        requires
            old(self).wf(),
            n == old(self).current_block + 1,
        ensures
            final(self).wf(),
            final(self).current_block == n,
            final(self).spec_governance_unchanged(*old(self)),
            final(self).spec_locator_unchanged(*old(self)),
            final(self).spec_auth_unchanged(*old(self)),
            final(self).queue.execution_delay == old(self).queue.execution_delay,
            final(self).queue.spec_pending_at(n) == Seq::<WithdrawalView>::empty(),
            forall|m: u64|
                m != n ==> final(self).queue.spec_pending_at(m) == old(self).queue.spec_pending_at(
                    m,
                ),
            forall|m: u64|
                m != n ==> final(self).queue.spec_failed_at(m) == old(self).queue.spec_failed_at(m),
            final(self).queue.spec_failed_at(n) == spec_drain::<E>(
                old(self).locator,
                old(executor)@,
                old(self).queue.spec_pending_at(n),
            ).0,
            final(executor)@ == spec_drain::<E>(
                old(self).locator,
                old(executor)@,
                old(self).queue.spec_pending_at(n),
            ).1,
    {
        self.current_block = n;
        self.queue.drain_block(&self.locator, executor, n);
    }
}

} // verus!
