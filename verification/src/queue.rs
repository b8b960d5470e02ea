//! The delayed withdrawal queue.
//!
//! Scheduled withdrawals wait in a bounded per-block bucket until their
//! execution block arrives; the council may veto any still-pending entry by
//! block and index.  Draining a block executes every entry of its bucket,
//! isolating failures per item: a blocked entry and an entry whose transfer
//! fails land in that block's failed bucket, everything else is executed and
//! dropped.  Entries are drained from the back of the bucket, so the failed
//! bucket lists failures in reverse scheduling order.

use vstd::prelude::*;

use crate::executor::BridgeExecutor;
use crate::location::spec_destination_account;
use crate::locator::AssetLocator;
use crate::withdrawal::{
    lemma_withdrawal_views_drop_last, lemma_withdrawal_views_push, withdrawal_views,
    WithdrawalRequest, WithdrawalView,
};
use crate::{Error, BUCKET_CAPACITY};

verus! {

/// The withdrawals scheduled (or failed) for one execution block.
pub struct BlockBucket {
    /// The execution block this bucket belongs to.
    pub block: u64,
    /// The entries, in scheduling order.
    pub items: Vec<WithdrawalRequest>,
}

/// First-match lookup of a block's bucket contents.
pub open spec fn spec_find_bucket(s: Seq<BlockBucket>, n: u64) -> Option<Seq<WithdrawalView>>
    decreases s.len(),
{
    if s.len() == 0 {
        None
    } else if s[0].block == n {
        Some(withdrawal_views(s[0].items@))
    } else {
        spec_find_bucket(s.drop_first(), n)
    }
}

pub proof fn lemma_find_bucket_none(s: Seq<BlockBucket>, n: u64)
    requires
        forall|k: int| 0 <= k < s.len() ==> s[k].block != n,
    ensures
        spec_find_bucket(s, n) is None,
    decreases s.len(),
{
    if s.len() != 0 {
        assert(forall|k: int|
            0 <= k < s.drop_first().len() ==> #[trigger] s.drop_first()[k].block != n);
        lemma_find_bucket_none(s.drop_first(), n);
    }
}

pub proof fn lemma_find_bucket_update(s: Seq<BlockBucket>, j: int, b: BlockBucket, n: u64, m: u64)
    requires
        0 <= j < s.len(),
        s[j].block == n,
        forall|k: int| 0 <= k < j ==> s[k].block != n,
        b.block == n,
    ensures
        spec_find_bucket(s.update(j, b), n) == Some(withdrawal_views(b.items@)),
        m != n ==> spec_find_bucket(s.update(j, b), m) == spec_find_bucket(s, m),
    decreases j,
{
    let t = s.update(j, b);
    if j == 0 {
        assert(t[0] == b);
        assert(t.drop_first() =~= s.drop_first());
        assert(spec_find_bucket(t, n) == Some(withdrawal_views(b.items@)));
    } else {
        assert(t[0] == s[0]);
        assert(t.drop_first() =~= s.drop_first().update(j - 1, b));
        lemma_find_bucket_update(s.drop_first(), j - 1, b, n, m);
    }
}

pub proof fn lemma_find_bucket_remove(s: Seq<BlockBucket>, j: int, n: u64, m: u64)
    requires
        0 <= j < s.len(),
        s[j].block == n,
        forall|k: int| 0 <= k < s.len() && k != j ==> s[k].block != n,
    ensures
        spec_find_bucket(s.remove(j), n) is None,
        m != n ==> spec_find_bucket(s.remove(j), m) == spec_find_bucket(s, m),
    decreases j,
{
    let t = s.remove(j);
    if j == 0 {
        assert(t =~= s.drop_first());
        assert(forall|k: int| 0 <= k < t.len() ==> #[trigger] t[k].block != n);
        lemma_find_bucket_none(t, n);
    } else {
        assert(t[0] == s[0]);
        assert(t.drop_first() =~= s.drop_first().remove(j - 1));
        assert(forall|k: int|
            0 <= k < s.drop_first().len() && k != j - 1 ==> #[trigger] s.drop_first()[k].block
                != n);
        lemma_find_bucket_remove(s.drop_first(), j - 1, n, m);
    }
}

pub proof fn lemma_find_bucket_push(s: Seq<BlockBucket>, b: BlockBucket, m: u64)
    ensures
        spec_find_bucket(s.push(b), m) == if spec_find_bucket(s, m) is Some {
            spec_find_bucket(s, m)
        } else if b.block == m {
            Some(withdrawal_views(b.items@))
        } else {
            None
        },
    decreases s.len(),
{
    let p = s.push(b);
    if s.len() == 0 {
        assert(p[0] == b);
        if b.block != m {
            assert(p.drop_first() =~= s);
        }
    } else {
        assert(p[0] == s[0]);
        if s[0].block != m {
            assert(p.drop_first() =~= s.drop_first().push(b));
            lemma_find_bucket_push(s.drop_first(), b, m);
        }
    }
}

pub proof fn lemma_seq_remove_insert<T>(s: Seq<T>, i: int, b: T)
    requires
        0 <= i < s.len(),
    ensures
        s.remove(i).insert(i, b) == s.update(i, b),
{
    assert(s.remove(i).insert(i, b) =~= s.update(i, b));
}

/// The delayed withdrawal queue: the execution delay, the pending buckets
/// and the failed buckets, each keyed by execution block.
pub struct WithdrawalQueue {
    /// How many blocks after scheduling a withdrawal becomes executable.
    pub execution_delay: u64,
    /// The still-pending bucket of each block.
    pub pending: Vec<BlockBucket>,
    /// The retained failures of each drained block.
    pub failed: Vec<BlockBucket>,
}

impl WithdrawalQueue {
    /// The pending entries of block `n`, oldest first.
    pub open spec fn spec_pending_at(self, n: u64) -> Seq<WithdrawalView> {
        match spec_find_bucket(self.pending@, n) {
            Some(s) => s,
            None => Seq::empty(),
        }
    }

    /// The failed entries retained for block `n`.
    pub open spec fn spec_failed_at(self, n: u64) -> Seq<WithdrawalView> {
        match spec_find_bucket(self.failed@, n) {
            Some(s) => s,
            None => Seq::empty(),
        }
    }

    /// Well-formed: block keys are unique in each map and every bucket is
    /// within capacity.
    pub open spec fn wf(self) -> bool {
        &&& forall|i: int, j: int|
            0 <= i < j < self.pending@.len() ==> self.pending@[i].block != self.pending@[j].block
        &&& forall|i: int, j: int|
            0 <= i < j < self.failed@.len() ==> self.failed@[i].block != self.failed@[j].block
        &&& forall|i: int|
            0 <= i < self.pending@.len() ==> (#[trigger] self.pending@[i]).items@.len()
                <= BUCKET_CAPACITY
        &&& forall|i: int|
            0 <= i < self.failed@.len() ==> (#[trigger] self.failed@[i]).items@.len()
                <= BUCKET_CAPACITY
    }

    /// An empty queue with the given execution delay.
    pub fn new(execution_delay: u64) -> (r: WithdrawalQueue)
        ensures
            r.wf(),
            r.execution_delay == execution_delay,
            forall|n: u64| r.spec_pending_at(n) == Seq::<WithdrawalView>::empty(),
            forall|n: u64| r.spec_failed_at(n) == Seq::<WithdrawalView>::empty(),
    {
        WithdrawalQueue { execution_delay, pending: Vec::new(), failed: Vec::new() }
    }

    /// The index of block `n`'s bucket in `v`, if one exists.
    fn find_bucket_index(v: &Vec<BlockBucket>, n: u64) -> (r: Option<usize>)
        ensures
            match r {
                Some(j) => {
                    &&& j < v@.len()
                    &&& v@[j as int].block == n
                    &&& forall|k: int| 0 <= k < j ==> v@[k].block != n
                    &&& spec_find_bucket(v@, n) == Some(withdrawal_views(v@[j as int].items@))
                },
                None => {
                    &&& spec_find_bucket(v@, n) is None
                    &&& forall|k: int| 0 <= k < v@.len() ==> v@[k].block != n
                },
            },
    {
        let len = v.len();
        let mut j: usize = 0;
        proof {
            assert(v@.skip(0) =~= v@);
        }
        while j < len
            invariant
                len == v@.len(),
                0 <= j <= len,
                forall|k: int| 0 <= k < j ==> v@[k].block != n,
                spec_find_bucket(v@, n) == spec_find_bucket(v@.skip(j as int), n),
            decreases len - j,
        {
            proof {
                assert(v@.skip(j as int)[0] == v@[j as int]);
                assert(v@.skip(j as int).drop_first() =~= v@.skip(j + 1));
            }
            if v[j].block == n {
                return Some(j);
            }
            j = j + 1;
        }
        proof {
            assert(v@.skip(len as int) =~= Seq::<BlockBucket>::empty());
        }
        None
    }

    /// The number of entries pending for block `n`.
    pub fn pending_len(&self, n: u64) -> (r: usize)
        ensures
            r == self.spec_pending_at(n).len(),
    {
        match Self::find_bucket_index(&self.pending, n) {
            Some(j) => self.pending[j].items.len(),
            None => 0,
        }
    }

    /// The number of entries retained as failed for block `n`.
    pub fn failed_len(&self, n: u64) -> (r: usize)
        ensures
            r == self.spec_failed_at(n).len(),
    {
        match Self::find_bucket_index(&self.failed, n) {
            Some(j) => self.failed[j].items.len(),
            None => 0,
        }
    }

    /// Appends `w` to block `n`'s pending bucket; the bucket must have room.
    pub(crate) fn push_pending(&mut self, n: u64, w: WithdrawalRequest)
        requires
            old(self).wf(),
            old(self).spec_pending_at(n).len() < BUCKET_CAPACITY,
        ensures
            final(self).wf(),
            final(self).execution_delay == old(self).execution_delay,
            final(self).spec_pending_at(n) == old(self).spec_pending_at(n).push(w@),
            forall|m: u64| m != n ==> final(self).spec_pending_at(m) == old(self).spec_pending_at(m),
            forall|m: u64| final(self).spec_failed_at(m) == old(self).spec_failed_at(m),
    {
        let ghost pre = self.pending@;
        match Self::find_bucket_index(&self.pending, n) {
            Some(j) => {
                let mut bucket = self.pending.remove(j);
                bucket.items.push(w);
                self.pending.insert(j, bucket);
                proof {
                    lemma_seq_remove_insert(pre, j as int, self.pending@[j as int]);
                    assert(self.pending@ =~= pre.update(j as int, self.pending@[j as int]));
                    lemma_withdrawal_views_push(pre[j as int].items@, w);
                    assert forall|m: u64| true implies {
                        &&& (m != n ==> final(self).spec_pending_at(m) == old(self).spec_pending_at(
                            m,
                        ))
                        &&& (m == n ==> final(self).spec_pending_at(m) == old(self).spec_pending_at(
                            m,
                        ).push(w@))
                    } by {
                        lemma_find_bucket_update(
                            pre,
                            j as int,
                            self.pending@[j as int],
                            n,
                            m,
                        );
                    }
                }
            },
            None => {
                let bucket = BlockBucket { block: n, items: vec![w] };
                self.pending.push(bucket);
                proof {
                    assert(self.pending@ =~= pre.push(self.pending@.last()));
                    assert(withdrawal_views(self.pending@.last().items@) =~= Seq::<
                        WithdrawalView,
                    >::empty().push(w@));
                    assert forall|m: u64| true implies {
                        &&& (m != n ==> final(self).spec_pending_at(m) == old(self).spec_pending_at(
                            m,
                        ))
                        &&& (m == n ==> final(self).spec_pending_at(m) == old(self).spec_pending_at(
                            m,
                        ).push(w@))
                    } by {
                        lemma_find_bucket_push(pre, self.pending@.last(), m);
                        if m == n {
                            assert(old(self).spec_pending_at(n) =~= Seq::<WithdrawalView>::empty());
                            assert(withdrawal_views(self.pending@.last().items@)
                                =~= old(self).spec_pending_at(n).push(w@));
                        }
                    }
                }
            },
        }
    }

    /// Schedules `w` for execution at block `n`.
    ///
    /// Fails with [`Error::QueueFull`] — and changes nothing — when block
    /// `n`'s bucket is already at capacity; an entry is never silently
    /// dropped.
    pub fn insert_pending_withdrawal(&mut self, n: u64, w: WithdrawalRequest) -> (r: Result<
        (),
        Error,
    >)
        requires
            old(self).wf(),
        ensures
            final(self).wf(),
            final(self).execution_delay == old(self).execution_delay,
            forall|m: u64| final(self).spec_failed_at(m) == old(self).spec_failed_at(m),
            match r {
                Ok(()) => {
                    &&& old(self).spec_pending_at(n).len() < BUCKET_CAPACITY
                    &&& final(self).spec_pending_at(n) == old(self).spec_pending_at(n).push(w@)
                    &&& forall|m: u64|
                        m != n ==> final(self).spec_pending_at(m) == old(self).spec_pending_at(m)
                },
                Err(e) => {
                    &&& e == Error::QueueFull
                    &&& old(self).spec_pending_at(n).len() >= BUCKET_CAPACITY
                    &&& forall|m: u64| final(self).spec_pending_at(m) == old(self).spec_pending_at(m)
                },
            },
    {
        if self.pending_len(n) >= BUCKET_CAPACITY {
            return Err(Error::QueueFull);
        }
        self.push_pending(n, w);
        Ok(())
    }

    /// Marks the entry at `index` of block `n`'s pending bucket as blocked.
    ///
    /// Fails with [`Error::IndexNotFound`] when no such entry exists — in
    /// particular after block `n` has been drained, when its pending bucket
    /// is empty again.
    pub fn veto(&mut self, n: u64, index: u32) -> (r: Result<(), Error>)
        requires
            old(self).wf(),
        ensures
            final(self).wf(),
            final(self).execution_delay == old(self).execution_delay,
            forall|m: u64| final(self).spec_failed_at(m) == old(self).spec_failed_at(m),
            match r {
                Ok(()) => {
                    &&& index < old(self).spec_pending_at(n).len()
                    &&& final(self).spec_pending_at(n) == old(self).spec_pending_at(n).update(
                        index as int,
                        WithdrawalView {
                            is_blocked: true,
                            ..old(self).spec_pending_at(n)[index as int]
                        },
                    )
                    &&& forall|m: u64|
                        m != n ==> final(self).spec_pending_at(m) == old(self).spec_pending_at(m)
                },
                Err(e) => {
                    &&& e == Error::IndexNotFound
                    &&& index >= old(self).spec_pending_at(n).len()
                    &&& forall|m: u64| final(self).spec_pending_at(m) == old(self).spec_pending_at(m)
                },
            },
    {
        let ghost pre = self.pending@;
        let idx = index as usize;
        match Self::find_bucket_index(&self.pending, n) {
            Some(j) => {
                if idx >= self.pending[j].items.len() {
                    return Err(Error::IndexNotFound);
                }
                let mut bucket = self.pending.remove(j);
                let ghost items_pre = bucket.items@;
                let mut w = bucket.items.remove(idx);
                w.is_blocked = true;
                bucket.items.insert(idx, w);
                proof {
                    lemma_seq_remove_insert(items_pre, idx as int, bucket.items@[idx as int]);
                    assert(bucket.items@ =~= items_pre.update(idx as int, bucket.items@[
                    idx as int]));
                    assert(withdrawal_views(bucket.items@) =~= withdrawal_views(
                        items_pre,
                    ).update(
                        idx as int,
                        WithdrawalView {
                            is_blocked: true,
                            ..withdrawal_views(items_pre)[idx as int]
                        },
                    ));
                }
                self.pending.insert(j, bucket);
                proof {
                    lemma_seq_remove_insert(pre, j as int, self.pending@[j as int]);
                    assert(self.pending@ =~= pre.update(j as int, self.pending@[j as int]));
                    assert forall|m: u64| true implies {
                        &&& (m != n ==> final(self).spec_pending_at(m) == old(self).spec_pending_at(
                            m,
                        ))
                        &&& (m == n ==> final(self).spec_pending_at(m) == old(self).spec_pending_at(
                            m,
                        ).update(
                            idx as int,
                            WithdrawalView {
                                is_blocked: true,
                                ..old(self).spec_pending_at(n)[idx as int]
                            },
                        ))
                    } by {
                        lemma_find_bucket_update(
                            pre,
                            j as int,
                            self.pending@[j as int],
                            n,
                            m,
                        );
                    }
                }
                Ok(())
            },
            None => Err(Error::IndexNotFound),
        }
    }

    /// Drains block `n`: executes every entry of its pending bucket, from
    /// the back, and retains the failures as block `n`'s failed bucket.
    ///
    /// The result is a pure function of the drained bucket, the locator and
    /// the executor state, spelled out by [`spec_drain`]: a blocked entry, an
    /// entry whose destination or asset cannot be resolved, and an entry
    /// whose transfer fails all land in the failed bucket; one entry's
    /// failure never aborts its siblings.  Afterwards the pending bucket is
    /// empty, so a late veto finds nothing.
    pub fn drain_block<E: BridgeExecutor>(&mut self, locator: &AssetLocator, executor: &mut E, n: u64)
        requires
            old(self).wf(),
        ensures
            final(self).wf(),
            final(self).execution_delay == old(self).execution_delay,
            final(self).spec_pending_at(n) == Seq::<WithdrawalView>::empty(),
            forall|m: u64| m != n ==> final(self).spec_pending_at(m) == old(self).spec_pending_at(m),
            forall|m: u64| m != n ==> final(self).spec_failed_at(m) == old(self).spec_failed_at(m),
            final(self).spec_failed_at(n) == spec_drain::<E>(
                *locator,
                old(executor)@,
                old(self).spec_pending_at(n),
            ).0,
            final(executor)@ == spec_drain::<E>(
                *locator,
                old(executor)@,
                old(self).spec_pending_at(n),
            ).1,
    {
        let ghost pre_pending = self.pending@;
        let mut items: Vec<WithdrawalRequest> = match Self::find_bucket_index(&self.pending, n) {
            Some(j) => {
                proof {
                    assert forall|k: int|
                        0 <= k < pre_pending.len() && k != j implies pre_pending[k].block != n by {
                        if k < j {
                        } else {
                            assert(pre_pending[j as int].block != pre_pending[k].block);
                        }
                    }
                    lemma_unique_blocks_after_remove(pre_pending, j as int);
                }
                let b = self.pending.remove(j);
                proof {
                    assert forall|m: u64| true implies {
                        &&& (m != n ==> self.spec_pending_at(m) == old(self).spec_pending_at(m))
                        &&& (m == n ==> self.spec_pending_at(m) == Seq::<WithdrawalView>::empty())
                    } by {
                        lemma_find_bucket_remove(pre_pending, j as int, n, m);
                    }
                }
                b.items
            },
            None => Vec::new(),
        };
        let ghost st0 = executor@;
        let ghost ws0 = withdrawal_views(items@);
        proof {
            assert(ws0 == old(self).spec_pending_at(n));
            assert(withdrawal_views(Seq::<WithdrawalRequest>::empty()) =~= Seq::<
                WithdrawalView,
            >::empty());
            assert(items@.len() <= BUCKET_CAPACITY);
        }
        let mut failed_items: Vec<WithdrawalRequest> = Vec::new();
        while items.len() > 0
            invariant
                spec_drain::<E>(*locator, st0, ws0).0 == withdrawal_views(failed_items@)
                    + spec_drain::<E>(*locator, executor@, withdrawal_views(items@)).0,
                spec_drain::<E>(*locator, st0, ws0).1 == spec_drain::<E>(
                    *locator,
                    executor@,
                    withdrawal_views(items@),
                ).1,
                failed_items@.len() + items@.len() <= BUCKET_CAPACITY,
            decreases items.len(),
        {
            let ghost pre_exec = executor@;
            let ghost pre_items = items@;
            let ghost pre_views = withdrawal_views(items@);
            let ghost pre_failed = failed_items@;
            let w = items.pop().unwrap();
            proof {
                lemma_withdrawal_views_drop_last(pre_items);
                assert(pre_views.last() == w@);
                assert(withdrawal_views(items@) == pre_views.drop_last());
            }
            let this_ok: bool;
            if w.is_blocked {
                this_ok = false;
            } else if w.destination.parents == 0 {
                match crate::location::get_destination_account(&w.destination) {
                    Some(a) => {
                        this_ok = executor.mint_into(w.asset_id, a, w.amount);
                    },
                    None => {
                        this_ok = false;
                    },
                }
            } else {
                match locator.reverse(w.asset_id) {
                    Some(d) => {
                        this_ok = executor.send_to_chain(w.asset_id, &d, &w.destination, w.amount);
                    },
                    None => {
                        this_ok = false;
                    },
                }
            }
            proof {
                assert(this_ok == spec_step_ok::<E>(*locator, pre_exec, w@));
                assert(executor@ == spec_step_state::<E>(*locator, pre_exec, w@));
            }
            if !this_ok {
                failed_items.push(w);
                proof {
                    lemma_withdrawal_views_push(pre_failed, w);
                }
            }
            proof {
                let rest = spec_drain::<E>(*locator, executor@, pre_views.drop_last());
                if this_ok {
                    assert(spec_drain::<E>(*locator, pre_exec, pre_views) == rest);
                } else {
                    assert(spec_drain::<E>(*locator, pre_exec, pre_views) == (
                        seq![w@] + rest.0,
                        rest.1,
                    ));
                    assert(withdrawal_views(pre_failed) + (seq![w@] + rest.0)
                        =~= withdrawal_views(failed_items@) + rest.0);
                }
            }
        }
        proof {
            assert(withdrawal_views(items@) =~= Seq::<WithdrawalView>::empty());
            assert(spec_drain::<E>(*locator, st0, ws0).0 =~= withdrawal_views(failed_items@));
            assert(spec_drain::<E>(*locator, st0, ws0).1 == executor@);
        }
        let ghost pre_failed_map = self.failed@;
        match Self::find_bucket_index(&self.failed, n) {
            Some(j) => {
                proof {
                    assert forall|k: int|
                        0 <= k < pre_failed_map.len() && k != j implies pre_failed_map[k].block
                        != n by {
                        if k < j {
                        } else {
                            assert(pre_failed_map[j as int].block != pre_failed_map[k].block);
                        }
                    }
                    lemma_unique_blocks_after_remove(pre_failed_map, j as int);
                }
                let _ = self.failed.remove(j);
                proof {
                    lemma_find_bucket_remove(pre_failed_map, j as int, n, n);
                    assert(spec_find_bucket(self.failed@, n) is None);
                    assert forall|m: u64| m != n implies spec_find_bucket(self.failed@, m)
                        == spec_find_bucket(pre_failed_map, m) by {
                        lemma_find_bucket_remove(pre_failed_map, j as int, n, m);
                    }
                }
            },
            None => {},
        }
        let ghost mid_failed_map = self.failed@;
        proof {
            assert(spec_find_bucket(mid_failed_map, n) is None);
            assert forall|m: u64| m != n implies spec_find_bucket(mid_failed_map, m)
                == spec_find_bucket(pre_failed_map, m) by {}
            assert(forall|a: int, b: int|
                0 <= a < b < mid_failed_map.len() ==> mid_failed_map[a].block
                    != mid_failed_map[b].block);
            assert(forall|i: int|
                0 <= i < mid_failed_map.len() ==> (#[trigger] mid_failed_map[i]).items@.len()
                    <= BUCKET_CAPACITY);
            lemma_find_bucket_none_from_unique(mid_failed_map, n);
        }
        let bucket = BlockBucket { block: n, items: failed_items };
        self.failed.push(bucket);
        proof {
            assert(self.failed@ =~= mid_failed_map.push(self.failed@.last()));
            assert(self.failed@.last().block == n);
            assert forall|a: int, b: int|
                0 <= a < b < self.failed@.len() implies self.failed@[a].block
                != self.failed@[b].block by {
                if b == self.failed@.len() - 1 {
                    assert(self.failed@[a] == mid_failed_map[a]);
                    assert(mid_failed_map[a].block != n);
                } else {
                    assert(self.failed@[a] == mid_failed_map[a]);
                    assert(self.failed@[b] == mid_failed_map[b]);
                }
            }
            assert forall|m: u64| true implies {
                &&& (m != n ==> final(self).spec_failed_at(m) == old(self).spec_failed_at(m))
                &&& (m == n ==> final(self).spec_failed_at(m) == withdrawal_views(
                    self.failed@.last().items@,
                ))
            } by {
                lemma_find_bucket_push(mid_failed_map, self.failed@.last(), m);
            }
        }
    }
}

/// Whether one drained entry executes successfully: it is not blocked, its
/// destination and asset resolve, and the executor accepts the transfer.
pub open spec fn spec_step_ok<E: BridgeExecutor>(
    loc: AssetLocator,
    st: E::V,
    w: WithdrawalView,
) -> bool {
    if w.is_blocked {
        false
    } else if w.destination.parents == 0 {
        match spec_destination_account(w.destination) {
            Some(a) => E::spec_mint_ok(st, w.asset_id, a, w.amount),
            None => false,
        }
    } else {
        match loc.spec_reverse(w.asset_id) {
            Some(d) => E::spec_send_ok(st, w.asset_id, d, w.destination, w.amount),
            None => false,
        }
    }
}

/// The executor state after one drained entry: changed only by a successful
/// transfer.
pub open spec fn spec_step_state<E: BridgeExecutor>(
    loc: AssetLocator,
    st: E::V,
    w: WithdrawalView,
) -> E::V {
    if w.is_blocked {
        st
    } else if w.destination.parents == 0 {
        match spec_destination_account(w.destination) {
            Some(a) => if E::spec_mint_ok(st, w.asset_id, a, w.amount) {
                E::spec_mint(st, w.asset_id, a, w.amount)
            } else {
                st
            },
            None => st,
        }
    } else {
        match loc.spec_reverse(w.asset_id) {
            Some(d) => if E::spec_send_ok(st, w.asset_id, d, w.destination, w.amount) {
                E::spec_send(st, w.asset_id, d, w.destination, w.amount)
            } else {
                st
            },
            None => st,
        }
    }
}

/// Draining a bucket, entry by entry from the back: the failed entries in
/// processing order, and the final executor state.
pub open spec fn spec_drain<E: BridgeExecutor>(
    loc: AssetLocator,
    st: E::V,
    ws: Seq<WithdrawalView>,
) -> (Seq<WithdrawalView>, E::V)
    decreases ws.len(),
{
    if ws.len() == 0 {
        (Seq::empty(), st)
    } else {
        let w = ws.last();
        let rest = spec_drain::<E>(loc, spec_step_state::<E>(loc, st, w), ws.drop_last());
        if spec_step_ok::<E>(loc, st, w) {
            rest
        } else {
            (seq![w] + rest.0, rest.1)
        }
    }
}

proof fn lemma_find_bucket_len(s: Seq<BlockBucket>, n: u64)
    requires
        forall|i: int| 0 <= i < s.len() ==> (#[trigger] s[i]).items@.len() <= BUCKET_CAPACITY,
    ensures
        match spec_find_bucket(s, n) {
            Some(v) => v.len() <= BUCKET_CAPACITY,
            None => true,
        },
    decreases s.len(),
{
    if s.len() != 0 && s[0].block != n {
        assert(forall|i: int|
            0 <= i < s.drop_first().len() ==> (#[trigger] s.drop_first()[i]).items@.len()
                <= BUCKET_CAPACITY);
        lemma_find_bucket_len(s.drop_first(), n);
    }
}

/// In a well-formed queue no bucket exceeds its capacity.
pub proof fn lemma_pending_within_capacity(q: WithdrawalQueue, n: u64)
    requires
        q.wf(),
    ensures
        q.spec_pending_at(n).len() <= BUCKET_CAPACITY,
{
    lemma_find_bucket_len(q.pending@, n);
}

proof fn lemma_unique_blocks_after_remove(s: Seq<BlockBucket>, j: int)
    requires
        0 <= j < s.len(),
        forall|a: int, b: int| 0 <= a < b < s.len() ==> s[a].block != s[b].block,
    ensures
        forall|a: int, b: int|
            0 <= a < b < s.remove(j).len() ==> s.remove(j)[a].block != s.remove(j)[b].block,
{
    let t = s.remove(j);
    assert forall|a: int, b: int| 0 <= a < b < t.len() implies t[a].block != t[b].block by {
        let a2 = if a < j {
            a
        } else {
            a + 1
        };
        let b2 = if b < j {
            b
        } else {
            b + 1
        };
        assert(t[a] == s[a2]);
        assert(t[b] == s[b2]);
    }
}

proof fn lemma_find_bucket_none_from_unique(s: Seq<BlockBucket>, n: u64)
    requires
        spec_find_bucket(s, n) is None,
    ensures
        forall|k: int| 0 <= k < s.len() ==> s[k].block != n,
    decreases s.len(),
{
    if s.len() != 0 {
        lemma_find_bucket_none_from_unique(s.drop_first(), n);
        assert forall|k: int| 0 <= k < s.len() implies s[k].block != n by {
            if k > 0 {
                assert(s.drop_first()[k - 1].block != n);
            }
        }
    }
}

/// A blocked entry always lands in the failed bucket: whatever the executor
/// state, draining a bucket whose entry at `i` is blocked yields a failed
/// list that contains that entry.
pub proof fn lemma_blocked_entry_lands_in_failed<E: BridgeExecutor>(
    loc: AssetLocator,
    st: E::V,
    ws: Seq<WithdrawalView>,
    i: int,
)
    requires
        0 <= i < ws.len(),
        ws[i].is_blocked,
    ensures
        spec_drain::<E>(loc, st, ws).0.contains(ws[i]),
    decreases ws.len(),
{
    let w = ws.last();
    let st1 = spec_step_state::<E>(loc, st, w);
    let rest = spec_drain::<E>(loc, st1, ws.drop_last());
    if i == ws.len() - 1 {
        assert(!spec_step_ok::<E>(loc, st, w));
        assert((seq![w] + rest.0)[0] == w);
        assert(spec_drain::<E>(loc, st, ws).0.contains(w));
    } else {
        assert(ws.drop_last()[i] == ws[i]);
        lemma_blocked_entry_lands_in_failed::<E>(loc, st1, ws.drop_last(), i);
        if !spec_step_ok::<E>(loc, st, w) {
            let k = choose|k: int| 0 <= k < rest.0.len() && rest.0[k] == ws[i];
            assert((seq![w] + rest.0)[1 + k] == ws[i]);
        }
    }
}

/// The veto-before-drain guarantee: vetoing the entry at `i` of a bucket and
/// then draining the bucket puts exactly that blocked entry into the failed
/// list, whatever the executor does with its siblings.  After the drain the
/// pending bucket is empty, so `veto` for that block answers `IndexNotFound`.
pub proof fn lemma_veto_then_drain<E: BridgeExecutor>(
    loc: AssetLocator,
    st: E::V,
    ws: Seq<WithdrawalView>,
    i: int,
)
    requires
        0 <= i < ws.len(),
    ensures
        spec_drain::<E>(
            loc,
            st,
            ws.update(i, WithdrawalView { is_blocked: true, ..ws[i] }),
        ).0.contains(WithdrawalView { is_blocked: true, ..ws[i] }),
{
    let ws2 = ws.update(i, WithdrawalView { is_blocked: true, ..ws[i] });
    lemma_blocked_entry_lands_in_failed::<E>(loc, st, ws2, i);
}

} // verus!
