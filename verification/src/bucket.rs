//! Token buckets with lazy continuous refill.
//!
//! A bucket permits `capacity` tokens per rolling `interval_ms`, refilling
//! continuously at the rate `capacity / interval_ms` and capping at
//! `capacity`. Refill is computed lazily at every access; reads never
//! commit a refill, so repeated reads at non-decreasing instants observe
//! non-decreasing token counts.

use vstd::prelude::*;
use vstd::arithmetic::mul::lemma_mul_inequality;
use vstd::arithmetic::div_mod::lemma_div_is_ordered;

verus! {

/// Capacity and refill interval of one token bucket.
#[derive(Clone, Copy, PartialEq, Eq, Structural, Debug)]
pub struct BucketSpec {
    /// Tokens permitted per rolling interval.
    pub capacity: u64,
    /// Length of the interval, in milliseconds.
    pub interval_ms: u64,
}

impl BucketSpec {
    /// A usable bucket has a positive interval.
    pub open spec fn wf(self) -> bool {
        self.interval_ms > 0
    }

    /// The interval in whole seconds, rounded up.
    pub open spec fn interval_secs(self) -> int {
        (self.interval_ms + 999) / 1000
    }
}

/// Seconds a denied caller must wait before `deficit` more tokens could have
/// accrued, rounded up and clamped to the interval itself as a ceiling.
pub open spec fn retry_after_secs(limit: BucketSpec, deficit: int) -> int
    recommends
        limit.wf(),
        deficit > 0,
{
    if limit.capacity == 0 {
        limit.interval_secs()
    } else {
        let needed_ms = (deficit * limit.interval_ms + limit.capacity - 1) / (limit.capacity as int);
        let secs = (needed_ms + 999) / 1000;
        if secs >= limit.interval_secs() {
            limit.interval_secs()
        } else {
            secs
        }
    }
}

/// One bucket's counter: tokens still available, and the instant (in
/// milliseconds) at which the lazy refill last ran.
#[derive(Clone, Copy, PartialEq, Eq, Structural, Debug)]
pub struct BucketState {
    /// Tokens available as of `last_refill_ms`.
    pub remaining: u64,
    /// Instant of the last committed refill, in milliseconds.
    pub last_refill_ms: u64,
}

impl BucketState {
    /// A bucket never holds more than its capacity.
    pub open spec fn inv(self, limit: BucketSpec) -> bool {
        self.remaining <= limit.capacity
    }

    /// A freshly created bucket is full.
    pub open spec fn full(limit: BucketSpec, now_ms: u64) -> BucketState {
        BucketState { remaining: limit.capacity, last_refill_ms: now_ms }
    }

    /// Out-of-order clock readings are clamped: an access never observes an
    /// instant earlier than the last committed refill.
    pub open spec fn clamped(self, now_ms: u64) -> u64 {
        if now_ms >= self.last_refill_ms {
            now_ms
        } else {
            self.last_refill_ms
        }
    }

    /// Tokens available at `now_ms` once the lazy refill is accounted for.
    pub open spec fn refilled(self, limit: BucketSpec, now_ms: u64) -> int
        recommends
            limit.wf(),
    {
        let elapsed = self.clamped(now_ms) - self.last_refill_ms;
        let grown = self.remaining + elapsed * limit.capacity / (limit.interval_ms as int);
        if grown >= limit.capacity {
            limit.capacity as int
        } else {
            grown
        }
    }

    /// The state once a refill at `now_ms` is committed.
    pub open spec fn after_refill(self, limit: BucketSpec, now_ms: u64) -> BucketState
        recommends
            limit.wf(),
    {
        BucketState {
            remaining: self.refilled(limit, now_ms) as u64,
            last_refill_ms: self.clamped(now_ms),
        }
    }

    /// The state after a successful all-or-nothing charge of `amount`.
    pub open spec fn after_charge(self, limit: BucketSpec, amount: u64, now_ms: u64) -> BucketState
        recommends
            limit.wf(),
            self.refilled(limit, now_ms) >= amount,
    {
        BucketState {
            remaining: (self.refilled(limit, now_ms) - amount) as u64,
            last_refill_ms: self.clamped(now_ms),
        }
    }

    /// The state after a refund of `amount`, capped at capacity.
    pub open spec fn after_refund(self, limit: BucketSpec, amount: u64, now_ms: u64) -> BucketState
        recommends
            limit.wf(),
    {
        let grown = self.refilled(limit, now_ms) + amount;
        BucketState {
            remaining: if grown >= limit.capacity { limit.capacity } else { grown as u64 },
            last_refill_ms: self.clamped(now_ms),
        }
    }

    /// The state after a forced debit of `amount`, clamped at zero.
    pub open spec fn after_debit(self, limit: BucketSpec, amount: u64, now_ms: u64) -> BucketState
        recommends
            limit.wf(),
    {
        let left = self.refilled(limit, now_ms) - amount;
        BucketState {
            remaining: if left <= 0 { 0 } else { left as u64 },
            last_refill_ms: self.clamped(now_ms),
        }
    }

    /// Commit the lazy refill: advance `last_refill_ms` to the (clamped)
    /// current instant and grow `remaining` by the elapsed share of capacity.
    pub fn refill(&mut self, limit: &BucketSpec, now_ms: u64)
        requires
            limit.wf(),
        ensures
            *final(self) == old(self).after_refill(*limit, now_ms),
            final(self).inv(*limit),
    {
        let now = if now_ms >= self.last_refill_ms {
            now_ms
        } else {
            self.last_refill_ms
        };
        let elapsed: u64 = now - self.last_refill_ms;
        proof {
            assert((elapsed as u128) * (limit.capacity as u128) <= 0xffff_ffff_ffff_ffffu128
                * 0xffff_ffff_ffff_ffffu128) by (nonlinear_arith)
                requires
                    elapsed <= u64::MAX,
                    limit.capacity <= u64::MAX,
            ;
            assert((elapsed as int) * (limit.capacity as int) / (limit.interval_ms as int)
                <= (elapsed as int) * (limit.capacity as int)) by (nonlinear_arith)
                requires
                    limit.interval_ms >= 1,
            ;
        }
        let add: u128 = (elapsed as u128) * (limit.capacity as u128) / (limit.interval_ms as u128);
        let total: u128 = (self.remaining as u128) + add;
        let fresh: u64 = if total >= (limit.capacity as u128) {
            limit.capacity
        } else {
            total as u64
        };
        self.remaining = fresh;
        self.last_refill_ms = now;
    }

    /// Read the tokens available at `now_ms` without committing the refill.
    pub fn peek(&self, limit: &BucketSpec, now_ms: u64) -> (r: u64)
        requires
            limit.wf(),
        ensures
            r == self.refilled(*limit, now_ms),
    {
        let mut probe: BucketState = *self;
        probe.refill(limit, now_ms);
        probe.remaining
    }

    /// Charge `amount` tokens, all or nothing. A charge succeeds exactly when
    /// the refilled count covers the whole amount; a denied charge leaves the
    /// refilled count unchanged and reports how many seconds to wait.
    pub fn try_charge(&mut self, limit: &BucketSpec, amount: u64, now_ms: u64) -> (r: Result<
        u64,
        u64,
    >)
        requires
            limit.wf(),
        ensures
            final(self).inv(*limit),
            old(self).refilled(*limit, now_ms) >= amount ==> {
                &&& r is Ok
                &&& r->Ok_0 == final(self).remaining
                &&& *final(self) == old(self).after_charge(*limit, amount, now_ms)
            },
            old(self).refilled(*limit, now_ms) < amount ==> {
                &&& r is Err
                &&& r->Err_0 == retry_after_secs(*limit, amount - old(self).refilled(*limit, now_ms))
                &&& *final(self) == old(self).after_refill(*limit, now_ms)
            },
    {
        self.refill(limit, now_ms);
        if self.remaining >= amount {
            self.remaining = self.remaining - amount;
            Ok(self.remaining)
        } else {
            let deficit: u64 = amount - self.remaining;
            Err(retry_secs(limit, deficit))
        }
    }

    /// Return `amount` tokens to the bucket, capping at capacity.
    pub fn refund(&mut self, limit: &BucketSpec, amount: u64, now_ms: u64)
        requires
            limit.wf(),
        ensures
            *final(self) == old(self).after_refund(*limit, amount, now_ms),
            final(self).inv(*limit),
    {
        self.refill(limit, now_ms);
        let head_room: u64 = limit.capacity - self.remaining;
        if amount >= head_room {
            self.remaining = limit.capacity;
        } else {
            self.remaining = self.remaining + amount;
        }
    }

    /// Take `amount` tokens out even if that empties the bucket: the count is
    /// clamped at zero and the call never fails.
    pub fn force_debit(&mut self, limit: &BucketSpec, amount: u64, now_ms: u64)
        requires
            limit.wf(),
        ensures
            *final(self) == old(self).after_debit(*limit, amount, now_ms),
            final(self).inv(*limit),
    {
        self.refill(limit, now_ms);
        if amount >= self.remaining {
            self.remaining = 0;
        } else {
            self.remaining = self.remaining - amount;
        }
    }
}

/// Compute the wait, in whole seconds, until `deficit` more tokens have
/// accrued, clamped to the interval.
pub(crate) fn retry_secs(limit: &BucketSpec, deficit: u64) -> (r: u64)
    requires
        limit.wf(),
        deficit > 0,
    ensures
        r == retry_after_secs(*limit, deficit as int),
{
    let interval_secs: u64 = ((limit.interval_ms as u128 + 999) / 1000) as u64;
    if limit.capacity == 0 {
        return interval_secs;
    }
    proof {
        assert((deficit as u128) * (limit.interval_ms as u128) <= 0xffff_ffff_ffff_ffffu128
            * 0xffff_ffff_ffff_ffffu128) by (nonlinear_arith)
            requires
                deficit <= u64::MAX,
                limit.interval_ms <= u64::MAX,
        ;
    }
    let scaled: u128 = (deficit as u128) * (limit.interval_ms as u128);
    let needed_ms: u128 = (scaled + (limit.capacity as u128) - 1) / (limit.capacity as u128);
    let secs: u128 = (needed_ms + 999) / 1000;
    if secs >= interval_secs as u128 {
        interval_secs
    } else {
        secs as u64
    }
}

/// Law: every bucket operation leaves `0 <= remaining <= capacity`; over any
/// sequence of refills, charges, refunds and forced debits the bound holds
/// after every step.
pub proof fn lemma_ops_bounded(s: BucketState, limit: BucketSpec, amount: u64, now_ms: u64)
    requires
        limit.wf(),
    ensures
        s.after_refill(limit, now_ms).inv(limit),
        s.refilled(limit, now_ms) >= amount ==> s.after_charge(limit, amount, now_ms).inv(limit),
        s.after_refund(limit, amount, now_ms).inv(limit),
        s.after_debit(limit, amount, now_ms).inv(limit),
{
}

/// Law: a successful charge followed immediately by a refund of the same
/// amount restores the bucket to exactly its refilled pre-charge value.
pub proof fn lemma_charge_then_refund_conserves(
    s: BucketState,
    limit: BucketSpec,
    amount: u64,
    now_ms: u64,
)
    requires
        limit.wf(),
        s.refilled(limit, now_ms) >= amount,
    ensures
        s.after_charge(limit, amount, now_ms).after_refund(limit, amount, now_ms).remaining
            == s.refilled(limit, now_ms),
{
    let c = s.after_charge(limit, amount, now_ms);
    assert(c.clamped(now_ms) == c.last_refill_ms);
    assert((c.clamped(now_ms) - c.last_refill_ms) * limit.capacity / (limit.interval_ms as int)
        == 0) by (nonlinear_arith)
        requires
            c.clamped(now_ms) == c.last_refill_ms,
            limit.interval_ms >= 1,
    ;
    assert(c.refilled(limit, now_ms) == s.refilled(limit, now_ms) - amount);
}

/// Committing a refill changes nothing a read at the same instant observes:
/// the refilled count is stable, a fresh bucket is full, and charging,
/// refunding or debiting after a committed refill lands in the same state as
/// doing so directly.
pub proof fn lemma_refill_stable(s: BucketState, limit: BucketSpec, amount: u64, now_ms: u64)
    requires
        limit.wf(),
    ensures
        s.after_refill(limit, now_ms).refilled(limit, now_ms) == s.refilled(limit, now_ms),
        s.after_refill(limit, now_ms).after_refill(limit, now_ms) == s.after_refill(limit, now_ms),
        s.after_refill(limit, now_ms).after_charge(limit, amount, now_ms) == s.after_charge(
            limit,
            amount,
            now_ms,
        ),
        s.after_refill(limit, now_ms).after_refund(limit, amount, now_ms) == s.after_refund(
            limit,
            amount,
            now_ms,
        ),
        s.after_refill(limit, now_ms).after_debit(limit, amount, now_ms) == s.after_debit(
            limit,
            amount,
            now_ms,
        ),
        BucketState::full(limit, now_ms).refilled(limit, now_ms) == limit.capacity,
        BucketState::full(limit, now_ms).after_refill(limit, now_ms) == BucketState::full(
            limit,
            now_ms,
        ),
{
    let c = s.after_refill(limit, now_ms);
    assert(c.clamped(now_ms) == c.last_refill_ms);
    assert((c.clamped(now_ms) - c.last_refill_ms) * limit.capacity / (limit.interval_ms as int)
        == 0) by (nonlinear_arith)
        requires
            c.clamped(now_ms) == c.last_refill_ms,
            limit.interval_ms >= 1,
    ;
    let f = BucketState::full(limit, now_ms);
    assert((f.clamped(now_ms) - f.last_refill_ms) * limit.capacity / (limit.interval_ms as int)
        == 0) by (nonlinear_arith)
        requires
            f.clamped(now_ms) == f.last_refill_ms,
            limit.interval_ms >= 1,
    ;
}

/// Law: in the absence of debits, reads at non-decreasing instants observe
/// non-decreasing token counts.
pub proof fn lemma_refill_monotonic(s: BucketState, limit: BucketSpec, t1: u64, t2: u64)
    requires
        limit.wf(),
        t1 <= t2,
    ensures
        s.refilled(limit, t1) <= s.refilled(limit, t2),
{
    let e1 = s.clamped(t1) - s.last_refill_ms;
    let e2 = s.clamped(t2) - s.last_refill_ms;
    lemma_mul_inequality(e1, e2, limit.capacity as int);
    lemma_div_is_ordered(e1 * limit.capacity, e2 * limit.capacity, limit.interval_ms as int);
}

} // verus!
