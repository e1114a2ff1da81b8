//! The counter store: a process-wide map from bucket keys to bucket states,
//! with atomic single-bucket and all-or-nothing multi-bucket charges.
//!
//! The store is modelled as a `Map` from the mathematical key to the bucket
//! state; a bucket that was never touched is, observably, a full one. Charges
//! are transactional: when several buckets apply, either every one is debited
//! or none is, and a denial reports the first failing bucket's wait.

use vstd::prelude::*;

use crate::bucket::BucketSpec;
use crate::bucket::BucketState;
use crate::bucket::retry_after_secs;
use crate::bucket::retry_secs;
use crate::bucket::lemma_refill_stable;
use crate::key::BucketKey;
use crate::key::KeyAbs;
use crate::key::key_eq;

verus! {

/// One stored counter.
struct Entry {
    key: BucketKey,
    state: BucketState,
}

/// No two entries name the same counter.
spec fn keys_unique(s: Seq<Entry>) -> bool {
    forall|i: int, j: int|
        0 <= i < j < s.len() ==> (#[trigger] s[i].key.abs()) != (#[trigger] s[j].key.abs())
}

/// The map a sequence of entries denotes.
spec fn map_of(s: Seq<Entry>) -> Map<KeyAbs, BucketState>
    decreases s.len(),
{
    if s.len() == 0 {
        Map::empty()
    } else {
        map_of(s.drop_last()).insert(s.last().key.abs(), s.last().state)
    }
}

proof fn lemma_map_of_at(s: Seq<Entry>, i: int)
    requires
        0 <= i < s.len(),
        keys_unique(s),
    ensures
        map_of(s).contains_key(s[i].key.abs()),
        map_of(s)[s[i].key.abs()] == s[i].state,
    decreases s.len(),
{
    if i < s.len() - 1 {
        assert(keys_unique(s.drop_last()));
        lemma_map_of_at(s.drop_last(), i);
    }
}

proof fn lemma_map_of_absent(s: Seq<Entry>, k: KeyAbs)
    requires
        forall|i: int| 0 <= i < s.len() ==> (#[trigger] s[i].key.abs()) != k,
    ensures
        !map_of(s).contains_key(k),
    decreases s.len(),
{
    if s.len() > 0 {
        lemma_map_of_absent(s.drop_last(), k);
    }
}

proof fn lemma_map_of_update(s: Seq<Entry>, i: int, e: Entry)
    requires
        0 <= i < s.len(),
        keys_unique(s),
        e.key.abs() == s[i].key.abs(),
    ensures
        map_of(s.update(i, e)) == map_of(s).insert(e.key.abs(), e.state),
    decreases s.len(),
{
    if i == s.len() - 1 {
        assert(s.update(i, e).drop_last() =~= s.drop_last());
        assert(s.update(i, e).last() == e);
        assert(map_of(s.update(i, e)) =~= map_of(s).insert(e.key.abs(), e.state));
    } else {
        assert(s.update(i, e).drop_last() =~= s.drop_last().update(i, e));
        assert(keys_unique(s.drop_last()));
        lemma_map_of_update(s.drop_last(), i, e);
        assert(s.update(i, e).last() == s.last());
        assert(s.last().key.abs() != e.key.abs());
        assert(map_of(s.update(i, e)) =~= map_of(s).insert(e.key.abs(), e.state));
    }
}

proof fn lemma_map_of_push(s: Seq<Entry>, e: Entry)
    ensures
        map_of(s.push(e)) == map_of(s).insert(e.key.abs(), e.state),
{
    assert(s.push(e).drop_last() =~= s);
    assert(s.push(e).last() == e);
}

/// Whether `k` is one of the keys the bucket list names.
pub open spec fn key_listed(buckets: Seq<(BucketKey, BucketSpec)>, k: KeyAbs) -> bool {
    exists|i: int| 0 <= i < buckets.len() && (#[trigger] buckets[i]).0.abs() == k
}

/// Every counter outside the listed keys is untouched between `pre` and
/// `post`.
pub open spec fn same_outside(
    pre: Map<KeyAbs, BucketState>,
    post: Map<KeyAbs, BucketState>,
    buckets: Seq<(BucketKey, BucketSpec)>,
) -> bool {
    forall|k: KeyAbs|
        !key_listed(buckets, k) ==> {
            &&& #[trigger] post.contains_key(k) == pre.contains_key(k)
            &&& (pre.contains_key(k) ==> post[k] == pre[k])
        }
}

/// Law: a successful charge followed immediately by a refund of the same
/// amount, at the same instant, restores the counter to exactly its refilled
/// pre-charge count. `mid` and `post` are the stores `try_charge` and
/// `refund` leave behind, as their contracts state them.
pub proof fn lemma_store_charge_then_refund(
    pre: CounterStore,
    mid: CounterStore,
    post: CounterStore,
    k: KeyAbs,
    limit: BucketSpec,
    amount: u64,
    now_ms: u64,
)
    requires
        limit.wf(),
        pre.observed(k, limit, now_ms) >= amount,
        mid.contents() == pre.contents().insert(
            k,
            pre.bucket_at(k, limit, now_ms).after_charge(limit, amount, now_ms),
        ),
        post.contents() == mid.contents().insert(
            k,
            mid.bucket_at(k, limit, now_ms).after_refund(limit, amount, now_ms),
        ),
    ensures
        post.observed(k, limit, now_ms) == pre.observed(k, limit, now_ms),
{
    let s0 = pre.bucket_at(k, limit, now_ms);
    crate::bucket::lemma_charge_then_refund_conserves(s0, limit, amount, now_ms);
    let f = s0.after_charge(limit, amount, now_ms).after_refund(limit, amount, now_ms);
    assert(post.bucket_at(k, limit, now_ms) == f);
    assert(f.clamped(now_ms) == f.last_refill_ms);
    assert((f.clamped(now_ms) - f.last_refill_ms) * limit.capacity / (limit.interval_ms as int)
        == 0) by (nonlinear_arith)
        requires
            f.clamped(now_ms) == f.last_refill_ms,
            limit.interval_ms >= 1,
    ;
}

/// Whether `k` is one of the listed mathematical keys.
pub open spec fn abs_listed(ks: Seq<(KeyAbs, BucketSpec)>, k: KeyAbs) -> bool {
    exists|i: int| 0 <= i < ks.len() && (#[trigger] ks[i]).0 == k
}

/// Every counter outside the listed mathematical keys is untouched between
/// `pre` and `post`.
pub open spec fn same_outside_abs(
    pre: Map<KeyAbs, BucketState>,
    post: Map<KeyAbs, BucketState>,
    ks: Seq<(KeyAbs, BucketSpec)>,
) -> bool {
    forall|k: KeyAbs|
        !abs_listed(ks, k) ==> {
            &&& #[trigger] post.contains_key(k) == pre.contains_key(k)
            &&& (pre.contains_key(k) ==> post[k] == pre[k])
        }
}

/// The bucket list holds pairwise distinct keys, each with a usable limit.
pub open spec fn buckets_wf(buckets: Seq<(BucketKey, BucketSpec)>) -> bool {
    &&& forall|i: int| 0 <= i < buckets.len() ==> (#[trigger] buckets[i]).1.wf()
    &&& forall|i: int, j: int|
        0 <= i < j < buckets.len() ==> (#[trigger] buckets[i]).0.abs() != (
        #[trigger] buckets[j]).0.abs()
}

/// The in-memory counter store.
pub struct CounterStore {
    entries: Vec<Entry>,
}

impl CounterStore {
    /// The stored counters, as a map from key identity to bucket state.
    pub closed spec fn contents(self) -> Map<KeyAbs, BucketState> {
        map_of(self.entries@)
    }

    /// Internal well-formedness: no two entries name the same counter.
    pub closed spec fn wf(self) -> bool {
        keys_unique(self.entries@)
    }

    /// The state of the counter under `k`, a never-touched counter being a
    /// full bucket born at `now_ms`.
    pub open spec fn bucket_at(self, k: KeyAbs, limit: BucketSpec, now_ms: u64) -> BucketState {
        if self.contents().contains_key(k) {
            self.contents()[k]
        } else {
            BucketState::full(limit, now_ms)
        }
    }

    /// What a read of counter `k` observes at `now_ms`.
    pub open spec fn observed(self, k: KeyAbs, limit: BucketSpec, now_ms: u64) -> int {
        self.bucket_at(k, limit, now_ms).refilled(limit, now_ms)
    }

    /// An empty store: every counter is, observably, full.
    pub fn new() -> (r: CounterStore)
        ensures
            r.wf(),
            r.contents() == Map::<KeyAbs, BucketState>::empty(),
    {
        CounterStore { entries: Vec::new() }
    }

    /// Read the tokens the counter under `key` has available at `now_ms`,
    /// without committing a refill or creating the counter.
    pub fn peek(&self, key: &BucketKey, limit: &BucketSpec, now_ms: u64) -> (r: u64)
        requires
            self.wf(),
            limit.wf(),
        ensures
            r == self.observed(key.abs(), *limit, now_ms),
    {
        proof {
            lemma_refill_stable(self.bucket_at(key.abs(), *limit, now_ms), *limit, 0, now_ms);
        }
        match self.find(key) {
            Some(i) => {
                proof {
                    lemma_map_of_at(self.entries@, i as int);
                }
                let e = &self.entries[i];
                e.state.peek(limit, now_ms)
            },
            None => {
                proof {
                    lemma_map_of_absent(self.entries@, key.abs());
                }
                limit.capacity
            },
        }
    }

    /// Index of the entry for `key`, if one exists.
    fn find(&self, key: &BucketKey) -> (r: Option<usize>)
        ensures
            match r {
                Some(i) => i < self.entries@.len() && self.entries@[i as int].key.abs()
                    == key.abs(),
                None => forall|j: int|
                    0 <= j < self.entries@.len() ==> (#[trigger] self.entries@[j].key.abs())
                        != key.abs(),
            },
    {
        let mut i: usize = 0;
        while i < self.entries.len()
            invariant
                i <= self.entries@.len(),
                forall|j: int|
                    0 <= j < i ==> (#[trigger] self.entries@[j].key.abs()) != key.abs(),
            decreases self.entries@.len() - i,
        {
            if key_eq(&self.entries[i].key, key) {
                return Some(i);
            }
            i = i + 1;
        }
        None
    }

    /// Commit the lazy refill of counter `key` (creating it full if it was
    /// never touched) and report the refilled count.
    fn refill_bucket(&mut self, key: &BucketKey, limit: &BucketSpec, now_ms: u64) -> (rem: u64)
        requires
            old(self).wf(),
            limit.wf(),
        ensures
            final(self).wf(),
            rem == old(self).observed(key.abs(), *limit, now_ms),
            final(self).contents() == old(self).contents().insert(
                key.abs(),
                old(self).bucket_at(key.abs(), *limit, now_ms).after_refill(*limit, now_ms),
            ),
    {
        proof {
            lemma_refill_stable(old(self).bucket_at(key.abs(), *limit, now_ms), *limit, 0, now_ms);
        }
        match self.find(key) {
            Some(i) => {
                proof {
                    lemma_map_of_at(self.entries@, i as int);
                }
                let ghost pre = self.entries@;
                let e = &mut self.entries[i];
                e.state.refill(limit, now_ms);
                let rem = e.state.remaining;
                proof {
                    lemma_map_of_update(pre, i as int, self.entries@[i as int]);
                    assert(keys_unique(self.entries@));
                }
                rem
            },
            None => {
                proof {
                    lemma_map_of_absent(self.entries@, key.abs());
                    lemma_map_of_push(
                        self.entries@,
                        Entry {
                            key: *key,
                            state: BucketState { remaining: limit.capacity, last_refill_ms: now_ms },
                        },
                    );
                }
                let fresh = BucketState { remaining: limit.capacity, last_refill_ms: now_ms };
                self.entries.push(Entry { key: key.clone(), state: fresh });
                proof {
                    assert(keys_unique(self.entries@));
                }
                limit.capacity
            },
        }
    }

    /// Debit `amount` from an existing counter whose refilled count is known
    /// to cover it.
    fn charge_exact(&mut self, key: &BucketKey, limit: &BucketSpec, amount: u64, now_ms: u64)
        requires
            old(self).wf(),
            limit.wf(),
            old(self).contents().contains_key(key.abs()),
            old(self).contents()[key.abs()].refilled(*limit, now_ms) >= amount,
        ensures
            final(self).wf(),
            final(self).contents() == old(self).contents().insert(
                key.abs(),
                old(self).contents()[key.abs()].after_charge(*limit, amount, now_ms),
            ),
    {
        match self.find(key) {
            Some(i) => {
                proof {
                    lemma_map_of_at(self.entries@, i as int);
                }
                let ghost pre = self.entries@;
                let e = &mut self.entries[i];
                let res = e.state.try_charge(limit, amount, now_ms);
                proof {
                    assert(res is Ok);
                    lemma_map_of_update(pre, i as int, self.entries@[i as int]);
                    assert(keys_unique(self.entries@));
                }
            },
            None => {
                proof {
                    lemma_map_of_absent(self.entries@, key.abs());
                    assert(false);
                }
            },
        }
    }

    /// Return `amount` to an existing counter, capping at capacity.
    fn credit_exact(&mut self, key: &BucketKey, limit: &BucketSpec, amount: u64, now_ms: u64)
        requires
            old(self).wf(),
            limit.wf(),
            old(self).contents().contains_key(key.abs()),
        ensures
            final(self).wf(),
            final(self).contents() == old(self).contents().insert(
                key.abs(),
                old(self).contents()[key.abs()].after_refund(*limit, amount, now_ms),
            ),
    {
        match self.find(key) {
            Some(i) => {
                proof {
                    lemma_map_of_at(self.entries@, i as int);
                }
                let ghost pre = self.entries@;
                let e = &mut self.entries[i];
                e.state.refund(limit, amount, now_ms);
                proof {
                    lemma_map_of_update(pre, i as int, self.entries@[i as int]);
                    assert(keys_unique(self.entries@));
                }
            },
            None => {
                proof {
                    lemma_map_of_absent(self.entries@, key.abs());
                    assert(false);
                }
            },
        }
    }

    /// Take `amount` out of an existing counter, clamping at zero.
    fn drain_exact(&mut self, key: &BucketKey, limit: &BucketSpec, amount: u64, now_ms: u64)
        requires
            old(self).wf(),
            limit.wf(),
            old(self).contents().contains_key(key.abs()),
        ensures
            final(self).wf(),
            final(self).contents() == old(self).contents().insert(
                key.abs(),
                old(self).contents()[key.abs()].after_debit(*limit, amount, now_ms),
            ),
    {
        match self.find(key) {
            Some(i) => {
                proof {
                    lemma_map_of_at(self.entries@, i as int);
                }
                let ghost pre = self.entries@;
                let e = &mut self.entries[i];
                e.state.force_debit(limit, amount, now_ms);
                proof {
                    lemma_map_of_update(pre, i as int, self.entries@[i as int]);
                    assert(keys_unique(self.entries@));
                }
            },
            None => {
                proof {
                    lemma_map_of_absent(self.entries@, key.abs());
                    assert(false);
                }
            },
        }
    }

    /// Charge `amount` against the counter under `key`, all or nothing: the
    /// charge succeeds exactly when the refilled count covers it, and a
    /// denial leaves the observable count unchanged and reports the wait in
    /// whole seconds.
    pub fn try_charge(&mut self, key: &BucketKey, limit: &BucketSpec, amount: u64, now_ms: u64) -> (r: Result<u64, u64>)
        requires
            old(self).wf(),
            limit.wf(),
        ensures
            final(self).wf(),
            old(self).observed(key.abs(), *limit, now_ms) >= amount ==> {
                &&& r is Ok
                &&& r->Ok_0 == old(self).observed(key.abs(), *limit, now_ms) - amount
                &&& final(self).contents() == old(self).contents().insert(
                    key.abs(),
                    old(self).bucket_at(key.abs(), *limit, now_ms).after_charge(
                        *limit,
                        amount,
                        now_ms,
                    ),
                )
            },
            old(self).observed(key.abs(), *limit, now_ms) < amount ==> {
                &&& r is Err
                &&& r->Err_0 == retry_after_secs(
                    *limit,
                    amount - old(self).observed(key.abs(), *limit, now_ms),
                )
                &&& final(self).contents() == old(self).contents().insert(
                    key.abs(),
                    old(self).bucket_at(key.abs(), *limit, now_ms).after_refill(*limit, now_ms),
                )
            },
    {
        let ghost s0 = old(self).bucket_at(key.abs(), *limit, now_ms);
        let rem = self.refill_bucket(key, limit, now_ms);
        if rem >= amount {
            proof {
                lemma_refill_stable(s0, *limit, amount, now_ms);
            }
            self.charge_exact(key, limit, amount, now_ms);
            proof {
                assert(final(self).contents() =~= old(self).contents().insert(
                    key.abs(),
                    s0.after_charge(*limit, amount, now_ms),
                ));
            }
            Ok(rem - amount)
        } else {
            Err(retry_secs(limit, amount - rem))
        }
    }

    /// Return `amount` tokens to the counter under `key`; never fails, caps
    /// at capacity.
    pub fn refund(&mut self, key: &BucketKey, limit: &BucketSpec, amount: u64, now_ms: u64)
        requires
            old(self).wf(),
            limit.wf(),
        ensures
            final(self).wf(),
            final(self).contents() == old(self).contents().insert(
                key.abs(),
                old(self).bucket_at(key.abs(), *limit, now_ms).after_refund(
                    *limit,
                    amount,
                    now_ms,
                ),
            ),
    {
        let ghost s0 = old(self).bucket_at(key.abs(), *limit, now_ms);
        let _rem = self.refill_bucket(key, limit, now_ms);
        proof {
            lemma_refill_stable(s0, *limit, amount, now_ms);
        }
        self.credit_exact(key, limit, amount, now_ms);
        proof {
            assert(final(self).contents() =~= old(self).contents().insert(
                key.abs(),
                s0.after_refund(*limit, amount, now_ms),
            ));
        }
    }

    /// Take `amount` tokens out of the counter under `key` even past empty;
    /// never fails, clamps at zero.
    pub fn force_debit(&mut self, key: &BucketKey, limit: &BucketSpec, amount: u64, now_ms: u64)
        requires
            old(self).wf(),
            limit.wf(),
        ensures
            final(self).wf(),
            final(self).contents() == old(self).contents().insert(
                key.abs(),
                old(self).bucket_at(key.abs(), *limit, now_ms).after_debit(*limit, amount, now_ms),
            ),
    {
        let ghost s0 = old(self).bucket_at(key.abs(), *limit, now_ms);
        let _rem = self.refill_bucket(key, limit, now_ms);
        proof {
            lemma_refill_stable(s0, *limit, amount, now_ms);
        }
        self.drain_exact(key, limit, amount, now_ms);
        proof {
            assert(final(self).contents() =~= old(self).contents().insert(
                key.abs(),
                s0.after_debit(*limit, amount, now_ms),
            ));
        }
    }

    /// Charge `amount` against every listed counter, all or nothing. When one
    /// counter cannot cover the amount, no counter's observable count
    /// changes, and the denial carries the first failing counter's wait.
    pub fn try_charge_all(
        &mut self,
        buckets: &Vec<(BucketKey, BucketSpec)>,
        amount: u64,
        now_ms: u64,
    ) -> (r: Result<(), u64>)
        requires
            old(self).wf(),
            buckets_wf(buckets@),
        ensures
            final(self).wf(),
            same_outside(old(self).contents(), final(self).contents(), buckets@),
            r is Ok ==> forall|i: int|
                0 <= i < buckets@.len() ==> {
                    &&& old(self).observed(
                        (#[trigger] buckets@[i]).0.abs(),
                        buckets@[i].1,
                        now_ms,
                    ) >= amount
                    &&& final(self).contents().contains_key(buckets@[i].0.abs())
                    &&& final(self).contents()[buckets@[i].0.abs()] == old(self).bucket_at(
                        buckets@[i].0.abs(),
                        buckets@[i].1,
                        now_ms,
                    ).after_charge(buckets@[i].1, amount, now_ms)
                },
            r is Err ==> {
                &&& exists|jj: int|
                    0 <= jj < buckets@.len() && old(self).observed(
                        (#[trigger] buckets@[jj]).0.abs(),
                        buckets@[jj].1,
                        now_ms,
                    ) < amount && r->Err_0 == retry_after_secs(
                        buckets@[jj].1,
                        amount - old(self).observed(buckets@[jj].0.abs(), buckets@[jj].1, now_ms),
                    ) && (forall|i: int|
                        0 <= i < jj ==> old(self).observed(
                            (#[trigger] buckets@[i]).0.abs(),
                            buckets@[i].1,
                            now_ms,
                        ) >= amount)
                &&& forall|i: int|
                    0 <= i < buckets@.len() ==> final(self).observed(
                        (#[trigger] buckets@[i]).0.abs(),
                        buckets@[i].1,
                        now_ms,
                    ) == old(self).observed(buckets@[i].0.abs(), buckets@[i].1, now_ms)
            },
    {
        let n = buckets.len();
        let mut idx: usize = 0;
        while idx < n
            invariant
                self.wf(),
                buckets_wf(buckets@),
                n == buckets@.len(),
                idx <= n,
                same_outside(old(self).contents(), self.contents(), buckets@),
                forall|i: int|
                    0 <= i < idx ==> {
                        &&& old(self).observed(
                            (#[trigger] buckets@[i]).0.abs(),
                            buckets@[i].1,
                            now_ms,
                        ) >= amount
                        &&& self.contents().contains_key(buckets@[i].0.abs())
                        &&& self.contents()[buckets@[i].0.abs()] == old(self).bucket_at(
                            buckets@[i].0.abs(),
                            buckets@[i].1,
                            now_ms,
                        ).after_refill(buckets@[i].1, now_ms)
                    },
                forall|i: int|
                    idx <= i < n ==> {
                        &&& self.contents().contains_key((#[trigger] buckets@[i]).0.abs())
                            == old(self).contents().contains_key(buckets@[i].0.abs())
                        &&& (old(self).contents().contains_key(buckets@[i].0.abs())
                            ==> self.contents()[buckets@[i].0.abs()] == old(
                            self,
                        ).contents()[buckets@[i].0.abs()])
                    },
            decreases n - idx,
        {
            let ghost mid = self.contents();
            let ghost kidx = buckets@[idx as int].0.abs();
            let ghost lidx = buckets@[idx as int].1;
            let key = &buckets[idx].0;
            let limit = &buckets[idx].1;
            proof {
                assert(key_listed(buckets@, kidx));
                assert(self.bucket_at(kidx, lidx, now_ms) == old(self).bucket_at(
                    kidx,
                    lidx,
                    now_ms,
                ));
            }
            let rem = self.refill_bucket(key, limit, now_ms);
            if rem < amount {
                let retry = retry_secs(limit, amount - rem);
                proof {
                    let ghost pre = old(self).contents();
                    let ghost post = self.contents();
                    assert forall|i: int| 0 <= i < n implies self.observed(
                        (#[trigger] buckets@[i]).0.abs(),
                        buckets@[i].1,
                        now_ms,
                    ) == old(self).observed(buckets@[i].0.abs(), buckets@[i].1, now_ms) by {
                        let k = buckets@[i].0.abs();
                        let l = buckets@[i].1;
                        lemma_refill_stable(old(self).bucket_at(k, l, now_ms), l, amount, now_ms);
                        if i < idx {
                            assert(k != kidx);
                            assert(post[k] == mid[k]);
                        } else if i == idx {
                        } else {
                            assert(k != kidx);
                        }
                    }
                    assert forall|k: KeyAbs| !key_listed(buckets@, k) implies {
                        &&& post.contains_key(k) == pre.contains_key(k)
                        &&& (pre.contains_key(k) ==> post[k] == pre[k])
                    } by {
                        assert(k != kidx);
                        assert(mid.contains_key(k) == pre.contains_key(k));
                    }
                }
                return Err(retry);
            }
            idx += 1;
        }
        let mut idx2: usize = 0;
        while idx2 < n
            invariant
                self.wf(),
                buckets_wf(buckets@),
                n == buckets@.len(),
                idx2 <= n,
                same_outside(old(self).contents(), self.contents(), buckets@),
                forall|i: int|
                    0 <= i < n ==> old(self).observed(
                        (#[trigger] buckets@[i]).0.abs(),
                        buckets@[i].1,
                        now_ms,
                    ) >= amount,
                forall|i: int|
                    0 <= i < idx2 ==> {
                        &&& self.contents().contains_key((#[trigger] buckets@[i]).0.abs())
                        &&& self.contents()[buckets@[i].0.abs()] == old(self).bucket_at(
                            buckets@[i].0.abs(),
                            buckets@[i].1,
                            now_ms,
                        ).after_charge(buckets@[i].1, amount, now_ms)
                    },
                forall|i: int|
                    idx2 <= i < n ==> {
                        &&& self.contents().contains_key((#[trigger] buckets@[i]).0.abs())
                        &&& self.contents()[buckets@[i].0.abs()] == old(self).bucket_at(
                            buckets@[i].0.abs(),
                            buckets@[i].1,
                            now_ms,
                        ).after_refill(buckets@[i].1, now_ms)
                    },
            decreases n - idx2,
        {
            let ghost kidx = buckets@[idx2 as int].0.abs();
            let ghost lidx = buckets@[idx2 as int].1;
            let ghost s0 = old(self).bucket_at(kidx, lidx, now_ms);
            let key = &buckets[idx2].0;
            let limit = &buckets[idx2].1;
            proof {
                assert(key_listed(buckets@, kidx));
                lemma_refill_stable(s0, lidx, amount, now_ms);
            }
            self.charge_exact(key, limit, amount, now_ms);
            idx2 += 1;
        }
        Ok(())
    }

    /// Return `amount` tokens to every listed counter.
    pub fn refund_all(&mut self, buckets: &Vec<(BucketKey, BucketSpec)>, amount: u64, now_ms: u64)
        requires
            old(self).wf(),
            buckets_wf(buckets@),
        ensures
            final(self).wf(),
            same_outside(old(self).contents(), final(self).contents(), buckets@),
            forall|i: int|
                0 <= i < buckets@.len() ==> {
                    &&& final(self).contents().contains_key((#[trigger] buckets@[i]).0.abs())
                    &&& final(self).contents()[buckets@[i].0.abs()] == old(self).bucket_at(
                        buckets@[i].0.abs(),
                        buckets@[i].1,
                        now_ms,
                    ).after_refund(buckets@[i].1, amount, now_ms)
                },
    {
        let n = buckets.len();
        let mut idx: usize = 0;
        while idx < n
            invariant
                self.wf(),
                buckets_wf(buckets@),
                n == buckets@.len(),
                idx <= n,
                same_outside(old(self).contents(), self.contents(), buckets@),
                forall|i: int|
                    0 <= i < idx ==> {
                        &&& self.contents().contains_key((#[trigger] buckets@[i]).0.abs())
                        &&& self.contents()[buckets@[i].0.abs()] == old(self).bucket_at(
                            buckets@[i].0.abs(),
                            buckets@[i].1,
                            now_ms,
                        ).after_refund(buckets@[i].1, amount, now_ms)
                    },
                forall|i: int|
                    idx <= i < n ==> {
                        &&& self.contents().contains_key((#[trigger] buckets@[i]).0.abs())
                            == old(self).contents().contains_key(buckets@[i].0.abs())
                        &&& (old(self).contents().contains_key(buckets@[i].0.abs())
                            ==> self.contents()[buckets@[i].0.abs()] == old(
                            self,
                        ).contents()[buckets@[i].0.abs()])
                    },
            decreases n - idx,
        {
            let ghost kidx = buckets@[idx as int].0.abs();
            let ghost lidx = buckets@[idx as int].1;
            let key = &buckets[idx].0;
            let limit = &buckets[idx].1;
            proof {
                assert(key_listed(buckets@, kidx));
                assert(self.bucket_at(kidx, lidx, now_ms) == old(self).bucket_at(
                    kidx,
                    lidx,
                    now_ms,
                ));
            }
            self.refund(key, limit, amount, now_ms);
            idx += 1;
        }
    }

    /// Take `amount` tokens out of every listed counter, clamping at zero.
    pub fn force_debit_all(
        &mut self,
        buckets: &Vec<(BucketKey, BucketSpec)>,
        amount: u64,
        now_ms: u64,
    )
        requires
            old(self).wf(),
            buckets_wf(buckets@),
        ensures
            final(self).wf(),
            same_outside(old(self).contents(), final(self).contents(), buckets@),
            forall|i: int|
                0 <= i < buckets@.len() ==> {
                    &&& final(self).contents().contains_key((#[trigger] buckets@[i]).0.abs())
                    &&& final(self).contents()[buckets@[i].0.abs()] == old(self).bucket_at(
                        buckets@[i].0.abs(),
                        buckets@[i].1,
                        now_ms,
                    ).after_debit(buckets@[i].1, amount, now_ms)
                },
    {
        let n = buckets.len();
        let mut idx: usize = 0;
        while idx < n
            invariant
                self.wf(),
                buckets_wf(buckets@),
                n == buckets@.len(),
                idx <= n,
                same_outside(old(self).contents(), self.contents(), buckets@),
                forall|i: int|
                    0 <= i < idx ==> {
                        &&& self.contents().contains_key((#[trigger] buckets@[i]).0.abs())
                        &&& self.contents()[buckets@[i].0.abs()] == old(self).bucket_at(
                            buckets@[i].0.abs(),
                            buckets@[i].1,
                            now_ms,
                        ).after_debit(buckets@[i].1, amount, now_ms)
                    },
                forall|i: int|
                    idx <= i < n ==> {
                        &&& self.contents().contains_key((#[trigger] buckets@[i]).0.abs())
                            == old(self).contents().contains_key(buckets@[i].0.abs())
                        &&& (old(self).contents().contains_key(buckets@[i].0.abs())
                            ==> self.contents()[buckets@[i].0.abs()] == old(
                            self,
                        ).contents()[buckets@[i].0.abs()])
                    },
            decreases n - idx,
        {
            let ghost kidx = buckets@[idx as int].0.abs();
            let ghost lidx = buckets@[idx as int].1;
            let key = &buckets[idx].0;
            let limit = &buckets[idx].1;
            proof {
                assert(key_listed(buckets@, kidx));
                assert(self.bucket_at(kidx, lidx, now_ms) == old(self).bucket_at(
                    kidx,
                    lidx,
                    now_ms,
                ));
            }
            self.force_debit(key, limit, amount, now_ms);
            idx += 1;
        }
    }
}

} // verus!
