//! Admission: extract the identity, resolve the buckets, pre-charge the
//! estimate atomically, and settle the resulting charge exactly once by
//! reconciliation or refund.

use vstd::prelude::*;

use crate::bucket::BucketSpec;
use crate::bucket::retry_after_secs;
use crate::counter::ChatRequest;
use crate::counter::StreamObserver;
use crate::counter::UsageReport;
use crate::counter::estimate_input_tokens;
use crate::counter::spec_estimate;
use crate::identity::ExtractError;
use crate::identity::Identity;
use crate::identity::IdentityConfig;
use crate::identity::RequestMeta;
use crate::identity::extract;
use crate::identity::opt_view;
use crate::identity::spec_extract;
use crate::key::BucketKey;
use crate::key::KeyAbs;
use crate::policy::PolicyConfig;
use crate::policy::buckets_view;
use crate::policy::resolve;
use crate::policy::spec_resolve;
use crate::store::CounterStore;
use crate::store::abs_listed;
use crate::store::buckets_wf;
use crate::store::key_listed;
use crate::store::same_outside_abs;

verus! {

/// The request as admission sees it: identity already extracted, input
/// tokens already estimated.
pub struct RequestEnvelope {
    pub provider_name: String,
    pub model_name: String,
    pub identity: Identity,
    pub estimated_input_tokens: u64,
    pub stream: bool,
}

/// Why admission denied a request. A denial never carries a charge.
#[derive(Clone, Copy, PartialEq, Eq, Structural, Debug)]
pub enum DenyReason {
    /// Identification is required and the request carried none.
    MissingClientId,
    /// The request's group is outside the allow-list.
    InvalidGroup,
    /// A bucket could not cover the estimate; retry after this many seconds.
    RateLimited { retry_after_secs: u64 },
}

/// Proof that tokens were debited: the charged buckets and amount. A charge
/// is settled exactly once, by `reconcile_sync`, `finish_stream` or
/// `refund_all`; one left unsettled stands as if reconciled at the estimate.
pub struct Charge {
    /// The buckets the pre-charge debited, as the policy resolved them.
    pub keys: Vec<(BucketKey, BucketSpec)>,
    /// The estimated input tokens debited from each bucket.
    pub amount_charged: u64,
    /// When the charge was made, in milliseconds.
    pub created_at_ms: u64,
    /// Whether the charge has been settled.
    pub settled: bool,
}

/// Every listed counter was debited `amount` from its refilled state.
pub open spec fn charged_all(
    pre: CounterStore,
    post: CounterStore,
    ks: Seq<(KeyAbs, BucketSpec)>,
    amount: u64,
    now_ms: u64,
) -> bool {
    forall|i: int|
        0 <= i < ks.len() ==> {
            &&& post.contents().contains_key((#[trigger] ks[i]).0)
            &&& post.contents()[ks[i].0] == pre.bucket_at(ks[i].0, ks[i].1, now_ms).after_charge(
                ks[i].1,
                amount,
                now_ms,
            )
        }
}

/// Every listed counter was credited `amount`, capped at capacity.
pub open spec fn refunded_all(
    pre: CounterStore,
    post: CounterStore,
    ks: Seq<(KeyAbs, BucketSpec)>,
    amount: u64,
    now_ms: u64,
) -> bool {
    forall|i: int|
        0 <= i < ks.len() ==> {
            &&& post.contents().contains_key((#[trigger] ks[i]).0)
            &&& post.contents()[ks[i].0] == pre.bucket_at(ks[i].0, ks[i].1, now_ms).after_refund(
                ks[i].1,
                amount,
                now_ms,
            )
        }
}

/// Every listed counter was debited `amount`, clamped at zero.
pub open spec fn debited_all(
    pre: CounterStore,
    post: CounterStore,
    ks: Seq<(KeyAbs, BucketSpec)>,
    amount: u64,
    now_ms: u64,
) -> bool {
    forall|i: int|
        0 <= i < ks.len() ==> {
            &&& post.contents().contains_key((#[trigger] ks[i]).0)
            &&& post.contents()[ks[i].0] == pre.bucket_at(ks[i].0, ks[i].1, now_ms).after_debit(
                ks[i].1,
                amount,
                now_ms,
            )
        }
}

/// Every listed counter's refilled count covers `amount`.
pub open spec fn admits_all(
    pre: CounterStore,
    ks: Seq<(KeyAbs, BucketSpec)>,
    amount: u64,
    now_ms: u64,
) -> bool {
    forall|i: int|
        0 <= i < ks.len() ==> pre.observed((#[trigger] ks[i]).0, ks[i].1, now_ms) >= amount
}

/// No listed counter's observable count changed.
pub open spec fn observed_unchanged(
    pre: CounterStore,
    post: CounterStore,
    ks: Seq<(KeyAbs, BucketSpec)>,
    now_ms: u64,
) -> bool {
    forall|i: int|
        0 <= i < ks.len() ==> post.observed((#[trigger] ks[i]).0, ks[i].1, now_ms) == pre.observed(
            ks[i].0,
            ks[i].1,
            now_ms,
        )
}

/// `retry` is the wait of the first listed counter that cannot cover
/// `amount`.
pub open spec fn first_denial(
    pre: CounterStore,
    ks: Seq<(KeyAbs, BucketSpec)>,
    amount: u64,
    now_ms: u64,
    retry: u64,
) -> bool {
    exists|j: int|
        0 <= j < ks.len() && pre.observed((#[trigger] ks[j]).0, ks[j].1, now_ms) < amount && retry
            == retry_after_secs(ks[j].1, amount - pre.observed(ks[j].0, ks[j].1, now_ms)) && (
        forall|i: int|
            0 <= i < j ==> pre.observed((#[trigger] ks[i]).0, ks[i].1, now_ms) >= amount)
}

/// The mathematical key list is the exec list's, entry for entry, and lists
/// the same keys.
proof fn lemma_view_bridge(bs: Seq<(BucketKey, BucketSpec)>)
    ensures
        buckets_view(bs).len() == bs.len(),
        forall|i: int|
            0 <= i < bs.len() ==> (#[trigger] buckets_view(bs)[i]) == ((bs[i].0.abs(), bs[i].1)),
        forall|k: KeyAbs| #[trigger] abs_listed(buckets_view(bs), k) == key_listed(bs, k),
{
    assert forall|k: KeyAbs| #[trigger] abs_listed(buckets_view(bs), k) == key_listed(bs, k) by {
        if abs_listed(buckets_view(bs), k) {
            let i = choose|i: int|
                0 <= i < buckets_view(bs).len() && (#[trigger] buckets_view(bs)[i]).0 == k;
            assert((bs[i]).0.abs() == k);
        }
        if key_listed(bs, k) {
            let i = choose|i: int| 0 <= i < bs.len() && (#[trigger] bs[i]).0.abs() == k;
            assert(buckets_view(bs)[i].0 == k);
        }
    }
}

/// Admit one request: resolve its buckets and pre-charge the estimate
/// against all of them, atomically. A denial issues no charge, leaves every
/// resolved counter's observable count unchanged, and touches no other
/// counter.
pub fn admit_request(
    store: &mut CounterStore,
    policy: &PolicyConfig,
    envelope: &RequestEnvelope,
    now_ms: u64,
) -> (r: Result<Charge, DenyReason>)
    requires
        old(store).wf(),
        policy.wf(),
    ensures
        final(store).wf(),
        ({
            let ks = spec_resolve(
                *policy,
                envelope.provider_name@,
                envelope.identity.client_id@,
                opt_view(envelope.identity.group_id),
            );
            let amount = envelope.estimated_input_tokens;
            &&& same_outside_abs(old(store).contents(), final(store).contents(), ks)
            &&& (r is Ok <==> admits_all(*old(store), ks, amount, now_ms))
            &&& (r is Ok ==> {
                let c = r->Ok_0;
                &&& buckets_view(c.keys@) == ks
                &&& buckets_wf(c.keys@)
                &&& !c.settled
                &&& c.amount_charged == amount
                &&& c.created_at_ms == now_ms
                &&& charged_all(*old(store), *final(store), ks, amount, now_ms)
            })
            &&& (r is Err ==> {
                &&& r->Err_0 matches DenyReason::RateLimited { retry_after_secs: t }
                    && first_denial(*old(store), ks, amount, now_ms, t)
                &&& observed_unchanged(*old(store), *final(store), ks, now_ms)
            })
        }),
{
    let ghost ks = spec_resolve(
        *policy,
        envelope.provider_name@,
        envelope.identity.client_id@,
        opt_view(envelope.identity.group_id),
    );
    let buckets = resolve(policy, &envelope.provider_name, &envelope.identity);
    proof {
        lemma_view_bridge(buckets@);
    }
    let amount = envelope.estimated_input_tokens;
    match store.try_charge_all(&buckets, amount, now_ms) {
        Ok(()) => {
            proof {
                assert forall|k: KeyAbs| !abs_listed(ks, k) implies {
                    &&& final(store).contents().contains_key(k) == old(
                        store,
                    ).contents().contains_key(k)
                    &&& (old(store).contents().contains_key(k) ==> final(store).contents()[k]
                        == old(store).contents()[k])
                } by {
                    assert(!key_listed(buckets@, k));
                }
                assert(charged_all(*old(store), *store, ks, amount, now_ms));
                assert(admits_all(*old(store), ks, amount, now_ms));
            }
            Ok(Charge { keys: buckets, amount_charged: amount, created_at_ms: now_ms, settled: false })
        },
        Err(retry) => {
            proof {
                assert forall|k: KeyAbs| !abs_listed(ks, k) implies {
                    &&& final(store).contents().contains_key(k) == old(
                        store,
                    ).contents().contains_key(k)
                    &&& (old(store).contents().contains_key(k) ==> final(store).contents()[k]
                        == old(store).contents()[k])
                } by {
                    assert(!key_listed(buckets@, k));
                }
                assert(observed_unchanged(*old(store), *store, ks, now_ms));
                let jj = choose|jj: int|
                    0 <= jj < buckets@.len() && old(store).observed(
                        (#[trigger] buckets@[jj]).0.abs(),
                        buckets@[jj].1,
                        now_ms,
                    ) < amount && retry == retry_after_secs(
                        buckets@[jj].1,
                        amount - old(store).observed(buckets@[jj].0.abs(), buckets@[jj].1, now_ms),
                    ) && (forall|i: int|
                        0 <= i < jj ==> old(store).observed(
                            (#[trigger] buckets@[i]).0.abs(),
                            buckets@[i].1,
                            now_ms,
                        ) >= amount);
                assert(ks[jj] == (buckets@[jj].0.abs(), buckets@[jj].1));
                assert forall|i: int| 0 <= i < jj implies old(store).observed(
                    (#[trigger] ks[i]).0,
                    ks[i].1,
                    now_ms,
                ) >= amount by {
                    assert(ks[i] == (buckets@[i].0.abs(), buckets@[i].1));
                }
                assert(first_denial(*old(store), ks, amount, now_ms, retry));
                assert(!admits_all(*old(store), ks, amount, now_ms));
            }
            Err(DenyReason::RateLimited { retry_after_secs: retry })
        },
    }
}

/// The usage a stream settles with: the final report it carried, or the
/// estimate standing as actual when it carried none.
pub open spec fn stream_close_usage(last: Option<UsageReport>, estimated: u64) -> UsageReport {
    match last {
        Some(u) => u,
        None => UsageReport { input_tokens: estimated, output_tokens: 0 },
    }
}

impl Charge {
    /// The charge's buckets are usable and pairwise distinct.
    pub open spec fn wf(self) -> bool {
        buckets_wf(self.keys@)
    }

    /// Give back the whole pre-charge: used when the provider call failed
    /// before any tokens were produced, or on cancellation and timeout.
    pub fn refund_all(&mut self, store: &mut CounterStore, now_ms: u64)
        requires
            old(self).wf(),
            !old(self).settled,
            old(store).wf(),
        ensures
            final(store).wf(),
            final(self).settled,
            final(self).keys@ == old(self).keys@,
            final(self).amount_charged == old(self).amount_charged,
            final(self).created_at_ms == old(self).created_at_ms,
            same_outside_abs(
                old(store).contents(),
                final(store).contents(),
                buckets_view(old(self).keys@),
            ),
            refunded_all(
                *old(store),
                *final(store),
                buckets_view(old(self).keys@),
                old(self).amount_charged,
                now_ms,
            ),
    {
        proof {
            lemma_view_bridge(self.keys@);
        }
        let ghost ks = buckets_view(self.keys@);
        store.refund_all(&self.keys, self.amount_charged, now_ms);
        self.settled = true;
        proof {
            assert forall|k: KeyAbs| !abs_listed(ks, k) implies {
                &&& final(store).contents().contains_key(k) == old(store).contents().contains_key(
                    k,
                )
                &&& (old(store).contents().contains_key(k) ==> final(store).contents()[k] == old(
                    store,
                ).contents()[k])
            } by {
                assert(!key_listed(old(self).keys@, k));
            }
        }
    }

    /// Settle the charge against the provider-reported usage: refund the
    /// over-estimate, or force-debit the under-estimate, clamping at zero —
    /// reconciliation never retroactively fails a served response.
    pub fn reconcile_sync(&mut self, store: &mut CounterStore, usage: UsageReport, now_ms: u64)
        requires
            old(self).wf(),
            !old(self).settled,
            old(store).wf(),
        ensures
            final(store).wf(),
            final(self).settled,
            final(self).keys@ == old(self).keys@,
            final(self).amount_charged == old(self).amount_charged,
            final(self).created_at_ms == old(self).created_at_ms,
            same_outside_abs(
                old(store).contents(),
                final(store).contents(),
                buckets_view(old(self).keys@),
            ),
            usage.input_tokens < old(self).amount_charged ==> refunded_all(
                *old(store),
                *final(store),
                buckets_view(old(self).keys@),
                (old(self).amount_charged - usage.input_tokens) as u64,
                now_ms,
            ),
            usage.input_tokens > old(self).amount_charged ==> debited_all(
                *old(store),
                *final(store),
                buckets_view(old(self).keys@),
                (usage.input_tokens - old(self).amount_charged) as u64,
                now_ms,
            ),
            usage.input_tokens == old(self).amount_charged ==> final(store).contents() == old(
                store,
            ).contents(),
    {
        proof {
            lemma_view_bridge(self.keys@);
        }
        let ghost ks = buckets_view(self.keys@);
        if usage.input_tokens < self.amount_charged {
            store.refund_all(&self.keys, self.amount_charged - usage.input_tokens, now_ms);
        } else if usage.input_tokens > self.amount_charged {
            store.force_debit_all(&self.keys, usage.input_tokens - self.amount_charged, now_ms);
        }
        self.settled = true;
        proof {
            assert forall|k: KeyAbs| !abs_listed(ks, k) implies {
                &&& final(store).contents().contains_key(k) == old(store).contents().contains_key(
                    k,
                )
                &&& (old(store).contents().contains_key(k) ==> final(store).contents()[k] == old(
                    store,
                ).contents()[k])
            } by {
                assert(!key_listed(old(self).keys@, k));
            }
        }
    }

    /// Close a streamed response: settle with the final usage event the
    /// observer saw, or with the estimate standing as actual when the
    /// stream carried no usage.
    pub fn finish_stream(&mut self, store: &mut CounterStore, observer: &StreamObserver, now_ms: u64)
        requires
            old(self).wf(),
            !old(self).settled,
            old(store).wf(),
        ensures
            final(store).wf(),
            final(self).settled,
            final(self).keys@ == old(self).keys@,
            final(self).amount_charged == old(self).amount_charged,
            same_outside_abs(
                old(store).contents(),
                final(store).contents(),
                buckets_view(old(self).keys@),
            ),
            ({
                let u = stream_close_usage(observer.last_usage, old(self).amount_charged);
                &&& u.input_tokens < old(self).amount_charged ==> refunded_all(
                    *old(store),
                    *final(store),
                    buckets_view(old(self).keys@),
                    (old(self).amount_charged - u.input_tokens) as u64,
                    now_ms,
                )
                &&& u.input_tokens > old(self).amount_charged ==> debited_all(
                    *old(store),
                    *final(store),
                    buckets_view(old(self).keys@),
                    (u.input_tokens - old(self).amount_charged) as u64,
                    now_ms,
                )
                &&& u.input_tokens == old(self).amount_charged ==> final(store).contents() == old(
                    store,
                ).contents()
            }),
    {
        let usage = observer.usage_at_close(self.amount_charged);
        self.reconcile_sync(store, usage, now_ms)
    }
}

/// Handle one request up to the provider call: extract the identity,
/// estimate the input tokens, resolve the buckets and pre-charge them
/// atomically. Identity failures and drained buckets deny; a denial issues
/// no charge and leaves every counter's observable count unchanged.
pub fn handle_request(
    store: &mut CounterStore,
    policy: &PolicyConfig,
    idcfg: &IdentityConfig,
    meta: &RequestMeta,
    request: &ChatRequest,
    provider_name: &String,
    now_ms: u64,
) -> (r: Result<Charge, DenyReason>)
    requires
        old(store).wf(),
        policy.wf(),
    ensures
        final(store).wf(),
        ({
            let ext = spec_extract(*meta, *idcfg);
            match ext {
                Err(e) => {
                    &&& final(store).contents() == old(store).contents()
                    &&& r is Err
                    &&& (e == ExtractError::MissingClientId ==> r->Err_0
                        == DenyReason::MissingClientId)
                    &&& (e == ExtractError::InvalidGroup ==> r->Err_0 == DenyReason::InvalidGroup)
                },
                Ok(idv) => {
                    let amount = spec_estimate(request.messages@) as u64;
                    let ks = spec_resolve(*policy, provider_name@, idv.0, idv.1);
                    &&& same_outside_abs(old(store).contents(), final(store).contents(), ks)
                    &&& (r is Ok <==> admits_all(*old(store), ks, amount, now_ms))
                    &&& (r is Ok ==> {
                        let c = r->Ok_0;
                        &&& buckets_view(c.keys@) == ks
                        &&& buckets_wf(c.keys@)
                        &&& !c.settled
                        &&& c.amount_charged == amount
                        &&& c.created_at_ms == now_ms
                        &&& charged_all(*old(store), *final(store), ks, amount, now_ms)
                    })
                    &&& (r is Err ==> {
                        &&& r->Err_0 matches DenyReason::RateLimited { retry_after_secs: t }
                            && first_denial(*old(store), ks, amount, now_ms, t)
                        &&& observed_unchanged(*old(store), *final(store), ks, now_ms)
                    })
                },
            }
        }),
{
    let identity = match extract(meta, idcfg) {
        Ok(id) => id,
        Err(e) => {
            return Err(
                match e {
                    ExtractError::MissingClientId => DenyReason::MissingClientId,
                    ExtractError::InvalidGroup => DenyReason::InvalidGroup,
                },
            );
        },
    };
    let amount = estimate_input_tokens(&request.messages);
    let envelope = RequestEnvelope {
        provider_name: provider_name.clone(),
        model_name: request.model.clone(),
        identity,
        estimated_input_tokens: amount,
        stream: request.stream,
    };
    admit_request(store, policy, &envelope, now_ms)
}

} // verus!
