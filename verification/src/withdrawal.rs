//! Withdrawal entries and schedule requests.

use vstd::prelude::*;

use crate::location::{AssetDescriptor, DescriptorView, Location, LocationView};

verus! {

/// One queued withdrawal: where to send how much of which asset, whether the
/// council has blocked it, and opaque extra bytes carried along.
pub struct WithdrawalRequest {
    /// The local id of the asset to move.
    pub asset_id: u128,
    /// The amount to move.
    pub amount: u128,
    /// The recipient location: destination chain and account.
    pub destination: Location,
    /// Set by a council veto; a blocked entry is never executed.
    pub is_blocked: bool,
    /// Opaque extra bytes, kept with the entry.
    pub extra: Vec<u8>,
}

/// The mathematical value of a [`WithdrawalRequest`].
#[verifier::ext_equal]
pub ghost struct WithdrawalView {
    pub asset_id: u128,
    pub amount: u128,
    pub destination: LocationView,
    pub is_blocked: bool,
    pub extra: Seq<u8>,
}

impl View for WithdrawalRequest {
    type V = WithdrawalView;

    open spec fn view(&self) -> WithdrawalView {
        WithdrawalView {
            asset_id: self.asset_id,
            amount: self.amount,
            destination: self.destination@,
            is_blocked: self.is_blocked,
            extra: self.extra@,
        }
    }
}

/// One item of a withdrawal batch handed to the scheduler: the asset by
/// descriptor, still to be resolved to a local id.
pub struct ScheduleRequest {
    /// The asset to move, as a foreign-chain descriptor.
    pub asset: AssetDescriptor,
    /// The amount to move.
    pub amount: u128,
    /// The recipient location.
    pub destination: Location,
    /// Opaque extra bytes to carry with the entry.
    pub extra: Vec<u8>,
}

/// The mathematical value of a [`ScheduleRequest`].
#[verifier::ext_equal]
pub ghost struct ScheduleRequestView {
    pub asset: DescriptorView,
    pub amount: u128,
    pub destination: LocationView,
    pub extra: Seq<u8>,
}

impl View for ScheduleRequest {
    type V = ScheduleRequestView;

    open spec fn view(&self) -> ScheduleRequestView {
        ScheduleRequestView {
            asset: self.asset@,
            amount: self.amount,
            destination: self.destination@,
            extra: self.extra@,
        }
    }
}

/// The views of a sequence of withdrawal entries.
pub open spec fn withdrawal_views(s: Seq<WithdrawalRequest>) -> Seq<WithdrawalView> {
    s.map_values(|w: WithdrawalRequest| w@)
}

/// The views of a sequence of schedule requests.
pub open spec fn request_views(s: Seq<ScheduleRequest>) -> Seq<ScheduleRequestView> {
    s.map_values(|r: ScheduleRequest| r@)
}

pub proof fn lemma_withdrawal_views_drop_last(s: Seq<WithdrawalRequest>)
    requires
        s.len() > 0,
    ensures
        withdrawal_views(s.drop_last()) == withdrawal_views(s).drop_last(),
        withdrawal_views(s).last() == s.last()@,
{
    assert(withdrawal_views(s.drop_last()) =~= withdrawal_views(s).drop_last());
}

pub proof fn lemma_withdrawal_views_push(s: Seq<WithdrawalRequest>, w: WithdrawalRequest)
    ensures
        withdrawal_views(s.push(w)) == withdrawal_views(s).push(w@),
{
    assert(withdrawal_views(s.push(w)) =~= withdrawal_views(s).push(w@));
}

pub proof fn lemma_request_views_drop_first(s: Seq<ScheduleRequest>)
    requires
        s.len() > 0,
    ensures
        request_views(s.drop_first()) == request_views(s).drop_first(),
        request_views(s).first() == s.first()@,
{
    assert(request_views(s.drop_first()) =~= request_views(s).drop_first());
}

} // verus!
