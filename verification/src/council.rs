//! Quorum-voted council membership.
//!
//! Active members vote on proposals to admit or expel a member.  A proposal
//! is created on the first vote and deleted the instant its vote count
//! reaches quorum — `floor(2 * active_count / 3)` — at which point its effect
//! is applied in the same step.  An admitted candidate waits in the pending
//! set until it claims membership itself.  With fewer than two active
//! members the quorum is zero and a single vote passes any proposal: that is
//! the intended bootstrap behaviour.

use vstd::prelude::*;

use crate::{Error, COUNCIL_CAPACITY, VOTE_CAPACITY};

verus! {

/// A governance proposal: admit a candidate or expel a member.
#[derive(Clone, Copy, PartialEq, Eq, Structural, Debug)]
pub enum Proposal {
    /// Admit the account into the pending member set.
    Admit(u64),
    /// Expel the account from the active member set.
    Expel(u64),
}

/// One proposal and the voters recorded for it.
pub struct ProposalVotes {
    pub proposal: Proposal,
    pub votes: Vec<u64>,
}

/// The mathematical value of a [`CouncilState`].
#[verifier::ext_equal]
pub ghost struct CouncilView {
    pub active: Seq<u64>,
    pub pending: Seq<u64>,
    pub proposals: Seq<(Proposal, Seq<u64>)>,
}

/// The council: active members, pending members, and open proposals.
pub struct CouncilState {
    /// The active members, in admission order.
    pub active: Vec<u64>,
    /// Admitted candidates that have not claimed membership yet.
    pub pending: Vec<u64>,
    /// The open proposals with their recorded voters.
    pub proposals: Vec<ProposalVotes>,
}

/// The views of a proposal list.
pub open spec fn proposal_views(s: Seq<ProposalVotes>) -> Seq<(Proposal, Seq<u64>)> {
    s.map_values(|pv: ProposalVotes| (pv.proposal, pv.votes@))
}

impl View for CouncilState {
    type V = CouncilView;

    open spec fn view(&self) -> CouncilView {
        CouncilView {
            active: self.active@,
            pending: self.pending@,
            proposals: proposal_views(self.proposals@),
        }
    }
}

/// The vote count a proposal needs to pass: two thirds of the active
/// council, rounded down.
pub open spec fn spec_quorum(active_count: int) -> int {
    (2 * active_count) / 3
}

/// First-match lookup of a proposal's recorded voters.
pub open spec fn spec_proposal_lookup(s: Seq<(Proposal, Seq<u64>)>, p: Proposal) -> Option<
    Seq<u64>,
>
    decreases s.len(),
{
    if s.len() == 0 {
        None
    } else if s[0].0 == p {
        Some(s[0].1)
    } else {
        spec_proposal_lookup(s.drop_first(), p)
    }
}

/// The recorded voters of `p`, or empty when the proposal does not exist
/// yet.
pub open spec fn spec_votes_or_empty(pre: CouncilView, p: Proposal) -> Seq<u64> {
    match spec_proposal_lookup(pre.proposals, p) {
        Some(v) => v,
        None => Seq::empty(),
    }
}

/// The proposal list with `p`'s entry set to `votes` (replacing the first
/// match, or appended when absent).
pub open spec fn spec_proposals_with(
    s: Seq<(Proposal, Seq<u64>)>,
    p: Proposal,
    votes: Seq<u64>,
) -> Seq<(Proposal, Seq<u64>)>
    decreases s.len(),
{
    if s.len() == 0 {
        seq![(p, votes)]
    } else if s[0].0 == p {
        seq![(p, votes)] + s.drop_first()
    } else {
        seq![s[0]] + spec_proposals_with(s.drop_first(), p, votes)
    }
}

/// The proposal list without `p`'s entry (the first match removed).
pub open spec fn spec_proposals_without(s: Seq<(Proposal, Seq<u64>)>, p: Proposal) -> Seq<
    (Proposal, Seq<u64>),
>
    decreases s.len(),
{
    if s.len() == 0 {
        s
    } else if s[0].0 == p {
        s.drop_first()
    } else {
        seq![s[0]] + spec_proposals_without(s.drop_first(), p)
    }
}

/// The index of the first occurrence of `x`.
pub open spec fn spec_first_index(s: Seq<u64>, x: u64) -> int
    decreases s.len(),
{
    if s.len() == 0 {
        0
    } else if s[0] == x {
        0
    } else {
        1 + spec_first_index(s.drop_first(), x)
    }
}

/// Applying a passed proposal to a council whose proposal entry is already
/// removed.  Admission inserts the candidate into the pending set — a no-op
/// when the candidate is already pending or active — and fails with
/// `StorageOverflow` when the pending set is full; expulsion removes the
/// member from the active set and fails with `NotActiveMember` when absent.
/// Either failure leaves the sets untouched: the vote is consumed and the
/// proposal is gone, but the effect is not applied.
pub open spec fn spec_apply(pre: CouncilView, p: Proposal) -> (CouncilView, Result<(), Error>) {
    match p {
        Proposal::Admit(c) => {
            if pre.pending.contains(c) || pre.active.contains(c) {
                (pre, Ok(()))
            } else if pre.pending.len() >= COUNCIL_CAPACITY {
                (pre, Err(Error::StorageOverflow))
            } else {
                (CouncilView { pending: pre.pending.push(c), ..pre }, Ok(()))
            }
        },
        Proposal::Expel(m) => {
            if !pre.active.contains(m) {
                (pre, Err(Error::NotActiveMember))
            } else {
                (
                    CouncilView { active: pre.active.remove(spec_first_index(pre.active, m)), ..pre },
                    Ok(()),
                )
            }
        },
    }
}

/// One vote, cast by `voter` on `p`: the next council state and the result.
///
/// The voter must be an active member and must not have voted on `p` yet;
/// the vote set must have room.  The vote is recorded; if the count then
/// reaches quorum, the proposal is deleted and applied in the same step.
pub open spec fn spec_cast_vote(pre: CouncilView, voter: u64, p: Proposal) -> (
    CouncilView,
    Result<(), Error>,
) {
    if !pre.active.contains(voter) {
        (pre, Err(Error::NotCouncilMember))
    } else {
        let votes = spec_votes_or_empty(pre, p);
        if votes.contains(voter) {
            (pre, Err(Error::AlreadyVoted))
        } else if votes.len() >= VOTE_CAPACITY {
            (pre, Err(Error::StorageOverflow))
        } else if votes.len() + 1 >= spec_quorum(pre.active.len() as int) {
            spec_apply(
                CouncilView { proposals: spec_proposals_without(pre.proposals, p), ..pre },
                p,
            )
        } else {
            (
                CouncilView {
                    proposals: spec_proposals_with(pre.proposals, p, votes.push(voter)),
                    ..pre
                },
                Ok(()),
            )
        }
    }
}

/// One membership claim by `caller`: the next council state and the result.
pub open spec fn spec_claim_membership(pre: CouncilView, caller: u64) -> (
    CouncilView,
    Result<(), Error>,
) {
    if !pre.pending.contains(caller) {
        (pre, Err(Error::NotPendingMember))
    } else if pre.active.len() >= COUNCIL_CAPACITY {
        (pre, Err(Error::StorageOverflow))
    } else {
        (
            CouncilView {
                pending: pre.pending.remove(spec_first_index(pre.pending, caller)),
                active: pre.active.push(caller),
                ..pre
            },
            Ok(()),
        )
    }
}

pub proof fn lemma_first_index_characterization(s: Seq<u64>, x: u64, j: int)
    requires
        0 <= j < s.len(),
        s[j] == x,
        forall|k: int| 0 <= k < j ==> s[k] != x,
    ensures
        spec_first_index(s, x) == j,
    decreases j,
{
    if j == 0 {
    } else {
        assert(s.drop_first()[j - 1] == x);
        assert(forall|k: int| 0 <= k < j - 1 ==> #[trigger] s.drop_first()[k] != x);
        lemma_first_index_characterization(s.drop_first(), x, j - 1);
    }
}

pub proof fn lemma_proposals_with_at_match(s: Seq<(Proposal, Seq<u64>)>, j: int, p: Proposal, votes: Seq<u64>)
    requires
        0 <= j < s.len(),
        s[j].0 == p,
        forall|k: int| 0 <= k < j ==> s[k].0 != p,
    ensures
        spec_proposals_with(s, p, votes) == s.update(j, (p, votes)),
    decreases j,
{
    if j == 0 {
        assert(spec_proposals_with(s, p, votes) =~= s.update(0, (p, votes)));
    } else {
        assert(forall|k: int| 0 <= k < j - 1 ==> #[trigger] s.drop_first()[k].0 != p);
        assert(s.drop_first()[j - 1].0 == p);
        lemma_proposals_with_at_match(s.drop_first(), j - 1, p, votes);
        assert(spec_proposals_with(s, p, votes) =~= s.update(j, (p, votes)));
    }
}

pub proof fn lemma_proposals_with_no_match(s: Seq<(Proposal, Seq<u64>)>, p: Proposal, votes: Seq<u64>)
    requires
        forall|k: int| 0 <= k < s.len() ==> s[k].0 != p,
    ensures
        spec_proposals_with(s, p, votes) == s.push((p, votes)),
    decreases s.len(),
{
    if s.len() == 0 {
        assert(spec_proposals_with(s, p, votes) =~= s.push((p, votes)));
    } else {
        assert(forall|k: int|
            0 <= k < s.drop_first().len() ==> #[trigger] s.drop_first()[k].0 != p);
        lemma_proposals_with_no_match(s.drop_first(), p, votes);
        assert(spec_proposals_with(s, p, votes) =~= s.push((p, votes)));
    }
}

pub proof fn lemma_proposals_without_at_match(s: Seq<(Proposal, Seq<u64>)>, j: int, p: Proposal)
    requires
        0 <= j < s.len(),
        s[j].0 == p,
        forall|k: int| 0 <= k < j ==> s[k].0 != p,
    ensures
        spec_proposals_without(s, p) == s.remove(j),
    decreases j,
{
    if j == 0 {
        assert(spec_proposals_without(s, p) =~= s.remove(0));
    } else {
        assert(forall|k: int| 0 <= k < j - 1 ==> #[trigger] s.drop_first()[k].0 != p);
        assert(s.drop_first()[j - 1].0 == p);
        lemma_proposals_without_at_match(s.drop_first(), j - 1, p);
        assert(spec_proposals_without(s, p) =~= s.remove(j));
    }
}

pub proof fn lemma_proposals_without_no_match(s: Seq<(Proposal, Seq<u64>)>, p: Proposal)
    requires
        forall|k: int| 0 <= k < s.len() ==> s[k].0 != p,
    ensures
        spec_proposals_without(s, p) == s,
    decreases s.len(),
{
    if s.len() != 0 {
        assert(forall|k: int|
            0 <= k < s.drop_first().len() ==> #[trigger] s.drop_first()[k].0 != p);
        lemma_proposals_without_no_match(s.drop_first(), p);
        assert(spec_proposals_without(s, p) =~= s);
    }
}

impl CouncilState {
    /// Well-formed: member sets hold no duplicates, are disjoint and within
    /// capacity; proposal keys are unique; each vote set holds no duplicates
    /// and is within capacity.
    pub open spec fn wf(self) -> bool {
        &&& forall|i: int, j: int|
            0 <= i < j < self@.active.len() ==> self@.active[i] != self@.active[j]
        &&& forall|i: int, j: int|
            0 <= i < j < self@.pending.len() ==> self@.pending[i] != self@.pending[j]
        &&& forall|i: int, j: int|
            0 <= i < self@.active.len() && 0 <= j < self@.pending.len() ==> self@.active[i]
                != self@.pending[j]
        &&& self@.active.len() <= COUNCIL_CAPACITY
        &&& self@.pending.len() <= COUNCIL_CAPACITY
        &&& forall|i: int, j: int|
            0 <= i < j < self@.proposals.len() ==> self@.proposals[i].0 != self@.proposals[j].0
        &&& forall|i: int|
            0 <= i < self@.proposals.len() ==> (#[trigger] self@.proposals[i]).1.len()
                <= VOTE_CAPACITY
        &&& forall|i: int, a: int, b: int|
            0 <= i < self@.proposals.len() && 0 <= a < b < self@.proposals[i].1.len()
                ==> #[trigger] self@.proposals[i].1[a] != #[trigger] self@.proposals[i].1[b]
    }

    /// An empty council.
    pub fn new() -> (r: CouncilState)
        ensures
            r.wf(),
            r@.active == Seq::<u64>::empty(),
            r@.pending == Seq::<u64>::empty(),
            r@.proposals == Seq::<(Proposal, Seq<u64>)>::empty(),
    {
        let r = CouncilState { active: Vec::new(), pending: Vec::new(), proposals: Vec::new() };
        proof {
            assert(r@.proposals =~= Seq::<(Proposal, Seq<u64>)>::empty());
        }
        r
    }

    /// A council whose active set is `members`, deduplicated on the way in.
    pub fn with_members(members: Vec<u64>) -> (r: CouncilState)
        requires
            members@.len() <= COUNCIL_CAPACITY,
            forall|i: int, j: int| 0 <= i < j < members@.len() ==> members@[i] != members@[j],
        ensures
            r.wf(),
            r@.active == members@,
            r@.pending == Seq::<u64>::empty(),
            r@.proposals == Seq::<(Proposal, Seq<u64>)>::empty(),
    {
        let r = CouncilState { active: members, pending: Vec::new(), proposals: Vec::new() };
        proof {
            assert(r@.proposals =~= Seq::<(Proposal, Seq<u64>)>::empty());
        }
        r
    }

    /// Whether `sender` is an active council member.
    pub fn is_council_member(&self, sender: u64) -> (r: bool)
        ensures
            r == self@.active.contains(sender),
    {
        vec_contains(&self.active, sender)
    }

    /// Casts `voter`'s vote on `proposal` and applies the proposal when the
    /// vote count reaches quorum, all in one step, exactly as
    /// [`spec_cast_vote`] lays out.
    pub fn cast_vote(&mut self, voter: u64, proposal: Proposal) -> (r: Result<(), Error>)
        requires
            old(self).wf(),
        ensures
            final(self).wf(),
            final(self)@ == spec_cast_vote(old(self)@, voter, proposal).0,
            r == spec_cast_vote(old(self)@, voter, proposal).1,
    {
        if !self.is_council_member(voter) {
            return Err(Error::NotCouncilMember);
        }
        let ghost pre = self@;
        let quorum = (self.active.len() * 2) / 3;
        proof {
            assert(quorum == spec_quorum(pre.active.len() as int));
        }
        match Self::find_proposal_index(&self.proposals, proposal) {
            Some(j) => {
                let votes_len = self.proposals[j].votes.len();
                if vec_contains(&self.proposals[j].votes, voter) {
                    return Err(Error::AlreadyVoted);
                }
                if votes_len >= VOTE_CAPACITY {
                    return Err(Error::StorageOverflow);
                }
                if votes_len + 1 >= quorum {
                    let ghost pre_props = self.proposals@;
                    let _ = self.proposals.remove(j);
                    proof {
                        assert(proposal_views(self.proposals@) =~= proposal_views(
                            pre_props,
                        ).remove(j as int));
                        lemma_proposals_without_at_match(
                            proposal_views(pre_props),
                            j as int,
                            proposal,
                        );
                        lemma_unique_keys_after_remove(proposal_views(pre_props), j as int);
                        assert(self@ =~= CouncilView {
                            proposals: spec_proposals_without(pre.proposals, proposal),
                            ..pre
                        });
                    }
                    self.apply_proposal(proposal)
                } else {
                    let ghost pre_props = self.proposals@;
                    let mut entry = self.proposals.remove(j);
                    entry.votes.push(voter);
                    self.proposals.insert(j, entry);
                    proof {
                        crate::queue::lemma_seq_remove_insert(
                            pre_props,
                            j as int,
                            self.proposals@[j as int],
                        );
                        assert(self.proposals@ =~= pre_props.update(
                            j as int,
                            self.proposals@[j as int],
                        ));
                        assert(proposal_views(self.proposals@) =~= proposal_views(
                            pre_props,
                        ).update(
                            j as int,
                            (proposal, pre.proposals[j as int].1.push(voter)),
                        ));
                        lemma_proposals_with_at_match(
                            proposal_views(pre_props),
                            j as int,
                            proposal,
                            pre.proposals[j as int].1.push(voter),
                        );
                        assert(self@ =~= CouncilView {
                            proposals: spec_proposals_with(
                                pre.proposals,
                                proposal,
                                spec_votes_or_empty(pre, proposal).push(voter),
                            ),
                            ..pre
                        });
                    }
                    Ok(())
                }
            },
            None => {
                if 1 >= quorum {
                    proof {
                        lemma_proposals_without_no_match(pre.proposals, proposal);
                        assert(self@ =~= CouncilView {
                            proposals: spec_proposals_without(pre.proposals, proposal),
                            ..pre
                        });
                        assert(spec_votes_or_empty(pre, proposal) =~= Seq::<u64>::empty());
                    }
                    self.apply_proposal(proposal)
                } else {
                    let ghost pre_props = self.proposals@;
                    let mut votes: Vec<u64> = Vec::new();
                    votes.push(voter);
                    let entry = ProposalVotes { proposal, votes };
                    self.proposals.push(entry);
                    proof {
                        assert(proposal_views(self.proposals@) =~= proposal_views(
                            pre_props,
                        ).push((proposal, self.proposals@.last().votes@)));
                        lemma_proposals_with_no_match(
                            proposal_views(pre_props),
                            proposal,
                            self.proposals@.last().votes@,
                        );
                        assert(spec_votes_or_empty(pre, proposal) =~= Seq::<u64>::empty());
                        assert(self.proposals@.last().votes@ =~= spec_votes_or_empty(
                            pre,
                            proposal,
                        ).push(voter));
                        assert(self@ =~= CouncilView {
                            proposals: spec_proposals_with(
                                pre.proposals,
                                proposal,
                                spec_votes_or_empty(pre, proposal).push(voter),
                            ),
                            ..pre
                        });
                    }
                    Ok(())
                }
            },
        }
    }

    /// Applies a passed proposal whose entry is already removed.
    fn apply_proposal(&mut self, p: Proposal) -> (r: Result<(), Error>)
        requires
            old(self).wf(),
        ensures
            final(self).wf(),
            final(self)@ == spec_apply(old(self)@, p).0,
            r == spec_apply(old(self)@, p).1,
    {
        match p {
            Proposal::Admit(c) => {
                if vec_contains(&self.pending, c) || vec_contains(&self.active, c) {
                    Ok(())
                } else if self.pending.len() >= COUNCIL_CAPACITY {
                    Err(Error::StorageOverflow)
                } else {
                    self.pending.push(c);
                    proof {
                        assert(self@ =~= CouncilView {
                            pending: old(self)@.pending.push(c),
                            ..old(self)@
                        });
                    }
                    Ok(())
                }
            },
            Proposal::Expel(m) => {
                match find_first_index(&self.active, m) {
                    Some(j) => {
                        let ghost pre_active = self.active@;
                        let _ = self.active.remove(j);
                        proof {
                            lemma_first_index_characterization(pre_active, m, j as int);
                            lemma_unique_u64_after_remove(pre_active, j as int);
                            assert(self@ =~= CouncilView {
                                active: old(self)@.active.remove(
                                    spec_first_index(old(self)@.active, m),
                                ),
                                ..old(self)@
                            });
                        }
                        Ok(())
                    },
                    None => Err(Error::NotActiveMember),
                }
            },
        }
    }

    /// Moves `caller` from the pending to the active set, exactly as
    /// [`spec_claim_membership`] lays out.
    pub fn claim_membership(&mut self, caller: u64) -> (r: Result<(), Error>)
        requires
            old(self).wf(),
        ensures
            final(self).wf(),
            final(self)@ == spec_claim_membership(old(self)@, caller).0,
            r == spec_claim_membership(old(self)@, caller).1,
    {
        match find_first_index(&self.pending, caller) {
            Some(j) => {
                if self.active.len() >= COUNCIL_CAPACITY {
                    return Err(Error::StorageOverflow);
                }
                let ghost pre_pending = self.pending@;
                let _ = self.pending.remove(j);
                self.active.push(caller);
                proof {
                    lemma_first_index_characterization(pre_pending, caller, j as int);
                    lemma_unique_u64_after_remove(pre_pending, j as int);
                    assert(self@ =~= CouncilView {
                        pending: old(self)@.pending.remove(
                            spec_first_index(old(self)@.pending, caller),
                        ),
                        active: old(self)@.active.push(caller),
                        ..old(self)@
                    });
                }
                Ok(())
            },
            None => Err(Error::NotPendingMember),
        }
    }

    /// One vote by `sender` for admitting `new_member`.
    pub fn add_member(&mut self, sender: u64, new_member: u64) -> (r: Result<(), Error>)
        requires
            old(self).wf(),
        ensures
            final(self).wf(),
            final(self)@ == spec_cast_vote(old(self)@, sender, Proposal::Admit(new_member)).0,
            r == spec_cast_vote(old(self)@, sender, Proposal::Admit(new_member)).1,
    {
        self.cast_vote(sender, Proposal::Admit(new_member))
    }

    /// One vote by `sender` for expelling `member_to_be_removed`.
    pub fn remove_member(&mut self, sender: u64, member_to_be_removed: u64) -> (r: Result<
        (),
        Error,
    >)
        requires
            old(self).wf(),
        ensures
            final(self).wf(),
            final(self)@ == spec_cast_vote(
                old(self)@,
                sender,
                Proposal::Expel(member_to_be_removed),
            ).0,
            r == spec_cast_vote(old(self)@, sender, Proposal::Expel(member_to_be_removed)).1,
    {
        self.cast_vote(sender, Proposal::Expel(member_to_be_removed))
    }

    /// The recorded voters of `proposal`, in voting order.
    pub fn proposal_votes(&self, proposal: Proposal) -> (r: Option<Vec<u64>>)
        ensures
            match r {
                Some(v) => spec_proposal_lookup(self@.proposals, proposal) == Some(v@),
                None => spec_proposal_lookup(self@.proposals, proposal) is None,
            },
    {
        match Self::find_proposal_index(&self.proposals, proposal) {
            Some(j) => {
                let mut out: Vec<u64> = Vec::new();
                let n = self.proposals[j].votes.len();
                let mut i: usize = 0;
                while i < n
                    invariant
                        j < self.proposals@.len(),
                        n == self.proposals@[j as int].votes.len(),
                        0 <= i <= n,
                        out@ =~= self.proposals@[j as int].votes@.subrange(0, i as int),
                    decreases n - i,
                {
                    out.push(self.proposals[j].votes[i]);
                    i = i + 1;
                }
                proof {
                    assert(out@ =~= self.proposals@[j as int].votes@);
                }
                Some(out)
            },
            None => None,
        }
    }

    /// The index of `p`'s entry, if one exists.
    fn find_proposal_index(v: &Vec<ProposalVotes>, p: Proposal) -> (r: Option<usize>)
        ensures
            match r {
                Some(j) => {
                    &&& j < v@.len()
                    &&& v@[j as int].proposal == p
                    &&& forall|k: int| 0 <= k < j ==> proposal_views(v@)[k].0 != p
                    &&& spec_proposal_lookup(proposal_views(v@), p) == Some(v@[j as int].votes@)
                },
                None => {
                    &&& spec_proposal_lookup(proposal_views(v@), p) is None
                    &&& forall|k: int| 0 <= k < v@.len() ==> proposal_views(v@)[k].0 != p
                },
            },
    {
        let len = v.len();
        let mut j: usize = 0;
        let ghost pv = proposal_views(v@);
        proof {
            assert(pv.skip(0) =~= pv);
        }
        while j < len
            invariant
                len == v@.len(),
                pv == proposal_views(v@),
                pv.len() == len,
                0 <= j <= len,
                forall|k: int| 0 <= k < j ==> pv[k].0 != p,
                spec_proposal_lookup(pv, p) == spec_proposal_lookup(pv.skip(j as int), p),
            decreases len - j,
        {
            proof {
                assert(pv[j as int] == (v@[j as int].proposal, v@[j as int].votes@));
                assert(pv.skip(j as int)[0] == pv[j as int]);
                assert(pv.skip(j as int).drop_first() =~= pv.skip(j + 1));
            }
            if proposal_eq(&v[j].proposal, &p) {
                return Some(j);
            }
            j = j + 1;
        }
        proof {
            assert(pv.skip(len as int) =~= Seq::<(Proposal, Seq<u64>)>::empty());
        }
        None
    }
}

/// Structural equality of two proposals.
fn proposal_eq(a: &Proposal, b: &Proposal) -> (r: bool)
    ensures
        r == (a == b),
{
    match (a, b) {
        (Proposal::Admit(x), Proposal::Admit(y)) => x == y,
        (Proposal::Expel(x), Proposal::Expel(y)) => x == y,
        _ => false,
    }
}

/// Whether `v` holds `x`.
fn vec_contains(v: &Vec<u64>, x: u64) -> (r: bool)
    ensures
        r == v@.contains(x),
{
    let n = v.len();
    let mut i: usize = 0;
    while i < n
        invariant
            n == v@.len(),
            0 <= i <= n,
            forall|k: int| 0 <= k < i ==> v@[k] != x,
        decreases n - i,
    {
        if v[i] == x {
            return true;
        }
        i = i + 1;
    }
    false
}

/// The index of the first occurrence of `x`, if any.
fn find_first_index(v: &Vec<u64>, x: u64) -> (r: Option<usize>)
    ensures
        match r {
            Some(j) => {
                &&& j < v@.len()
                &&& v@[j as int] == x
                &&& forall|k: int| 0 <= k < j ==> v@[k] != x
                &&& v@.contains(x)
            },
            None => !v@.contains(x),
        },
{
    let n = v.len();
    let mut i: usize = 0;
    while i < n
        invariant
            n == v@.len(),
            0 <= i <= n,
            forall|k: int| 0 <= k < i ==> v@[k] != x,
        decreases n - i,
    {
        if v[i] == x {
            return Some(i);
        }
        i = i + 1;
    }
    None
}

proof fn lemma_unique_u64_after_remove(s: Seq<u64>, j: int)
    requires
        0 <= j < s.len(),
        forall|a: int, b: int| 0 <= a < b < s.len() ==> s[a] != s[b],
    ensures
        forall|a: int, b: int| 0 <= a < b < s.remove(j).len() ==> s.remove(j)[a] != s.remove(j)[b],
        forall|a: int| 0 <= a < s.remove(j).len() ==> s.contains(#[trigger] s.remove(j)[a]),
{
    let t = s.remove(j);
    assert forall|a: int, b: int| 0 <= a < b < t.len() implies t[a] != t[b] by {
        let a2 = if a < j {
            a
        } else {
            a + 1
        };
        let b2 = if b < j {
            b
        } else {
            b + 1
        };
        assert(t[a] == s[a2]);
        assert(t[b] == s[b2]);
    }
    assert forall|a: int| 0 <= a < t.len() implies s.contains(#[trigger] t[a]) by {
        let a2 = if a < j {
            a
        } else {
            a + 1
        };
        assert(t[a] == s[a2]);
    }
}

proof fn lemma_unique_keys_after_remove(s: Seq<(Proposal, Seq<u64>)>, j: int)
    requires
        0 <= j < s.len(),
        forall|a: int, b: int| 0 <= a < b < s.len() ==> s[a].0 != s[b].0,
    ensures
        forall|a: int, b: int|
            0 <= a < b < s.remove(j).len() ==> s.remove(j)[a].0 != s.remove(j)[b].0,
{
    let t = s.remove(j);
    assert forall|a: int, b: int| 0 <= a < b < t.len() implies t[a].0 != t[b].0 by {
        let a2 = if a < j {
            a
        } else {
            a + 1
        };
        let b2 = if b < j {
            b
        } else {
            b + 1
        };
        assert(t[a] == s[a2]);
        assert(t[b] == s[b2]);
    }
}

} // verus!
