//! Rate-limit policy: which buckets apply to a request, in order.
//!
//! Resolution is most specific first, and every returned bucket must admit:
//! a per-group override (which fully replaces the per-user limit for members
//! of that group), else the per-user limit; then the provider-global limit.
//! A request no limit applies to proceeds with an empty bucket list.

use vstd::prelude::*;

use crate::bucket::BucketSpec;
use crate::key::BucketKey;
use crate::key::KeyAbs;
use crate::key::Scope;
use crate::identity::Identity;
use crate::store::buckets_wf;

verus! {

/// The limits configured for one provider.
pub struct ProviderLimits {
    /// The provider's configured name.
    pub provider: String,
    /// The default per-user limit, if any.
    pub per_user: Option<BucketSpec>,
    /// Per-group overrides of the per-user limit, by group name.
    pub group_overrides: Vec<(String, BucketSpec)>,
    /// A limit shared by every request to this provider, if any.
    pub provider_global: Option<BucketSpec>,
}

/// The whole rate-limit configuration.
pub struct PolicyConfig {
    pub providers: Vec<ProviderLimits>,
}

/// Every configured limit is usable (positive interval).
pub open spec fn provider_limits_wf(pl: ProviderLimits) -> bool {
    &&& (pl.per_user matches Some(l) ==> l.wf())
    &&& (pl.provider_global matches Some(l) ==> l.wf())
    &&& forall|i: int| 0 <= i < pl.group_overrides@.len() ==> (#[trigger] pl.group_overrides@[i]).1.wf()
}

impl PolicyConfig {
    /// Every configured limit is usable.
    pub open spec fn wf(self) -> bool {
        forall|i: int| 0 <= i < self.providers@.len() ==> provider_limits_wf(#[trigger] self.providers@[i])
    }
}

/// First provider block whose name matches, if any.
pub open spec fn spec_find_provider(ps: Seq<ProviderLimits>, name: Seq<char>) -> Option<
    ProviderLimits,
>
    decreases ps.len(),
{
    if ps.len() == 0 {
        None
    } else if ps[0].provider@ == name {
        Some(ps[0])
    } else {
        spec_find_provider(ps.drop_first(), name)
    }
}

/// First group override whose name matches, if any.
pub open spec fn spec_find_group(gs: Seq<(String, BucketSpec)>, name: Seq<char>) -> Option<
    BucketSpec,
>
    decreases gs.len(),
{
    if gs.len() == 0 {
        None
    } else if gs[0].0@ == name {
        Some(gs[0].1)
    } else {
        spec_find_group(gs.drop_first(), name)
    }
}

/// The per-user or per-group bucket a request owes, most specific first: a
/// matching group override replaces the per-user default for that member.
pub open spec fn spec_primary_bucket(
    pl: ProviderLimits,
    provider: Seq<char>,
    client: Seq<char>,
    group: Option<Seq<char>>,
) -> Seq<(KeyAbs, BucketSpec)> {
    let fallback: Seq<(KeyAbs, BucketSpec)> = match pl.per_user {
        Some(l) => seq![((Scope::PerUser, provider, client, 0u64), l)],
        None => Seq::empty(),
    };
    match group {
        Some(g) => match spec_find_group(pl.group_overrides@, g) {
            Some(l) => seq![((Scope::PerGroup, provider, g, 0u64), l)],
            None => fallback,
        },
        None => fallback,
    }
}

/// The provider-global bucket, if one is configured.
pub open spec fn spec_global_bucket(pl: ProviderLimits, provider: Seq<char>) -> Seq<
    (KeyAbs, BucketSpec),
> {
    match pl.provider_global {
        Some(l) => seq![((Scope::PerProviderGlobal, provider, Seq::<char>::empty(), 0u64), l)],
        None => Seq::empty(),
    }
}

/// The ordered bucket list a request owes: all must admit for it to proceed,
/// and a request that resolves to the empty list is unconditionally admitted.
pub open spec fn spec_resolve(
    cfg: PolicyConfig,
    provider: Seq<char>,
    client: Seq<char>,
    group: Option<Seq<char>>,
) -> Seq<(KeyAbs, BucketSpec)> {
    match spec_find_provider(cfg.providers@, provider) {
        None => Seq::empty(),
        Some(pl) => spec_primary_bucket(pl, provider, client, group) + spec_global_bucket(
            pl,
            provider,
        ),
    }
}

/// The key/limit list as a mathematical value.
pub open spec fn buckets_view(r: Seq<(BucketKey, BucketSpec)>) -> Seq<(KeyAbs, BucketSpec)> {
    r.map_values(|p: (BucketKey, BucketSpec)| (p.0.abs(), p.1))
}

/// Index of the first provider block whose name matches, if any.
fn find_provider(ps: &Vec<ProviderLimits>, name: &String) -> (r: Option<usize>)
    ensures
        match r {
            Some(i) => i < ps@.len() && spec_find_provider(ps@, name@) == Some(ps@[i as int]),
            None => spec_find_provider(ps@, name@) is None,
        },
{
    let n = ps.len();
    let mut i: usize = 0;
    proof {
        assert(ps@.skip(0) =~= ps@);
    }
    while i < n
        invariant
            n == ps@.len(),
            i <= n,
            spec_find_provider(ps@, name@) == spec_find_provider(ps@.skip(i as int), name@),
        decreases n - i,
    {
        proof {
            assert(ps@.skip(i as int)[0] == ps@[i as int]);
            assert(ps@.skip(i as int).drop_first() =~= ps@.skip(i as int + 1));
        }
        if ps[i].provider == *name {
            return Some(i);
        }
        i = i + 1;
    }
    proof {
        assert(ps@.skip(n as int) =~= Seq::<ProviderLimits>::empty());
    }
    None
}

/// First group override whose name matches, if any.
fn find_group(gs: &Vec<(String, BucketSpec)>, name: &String) -> (r: Option<BucketSpec>)
    ensures
        r == spec_find_group(gs@, name@),
        r matches Some(l) ==> exists|j: int| 0 <= j < gs@.len() && (#[trigger] gs@[j]).1 == l,
{
    let n = gs.len();
    let mut i: usize = 0;
    proof {
        assert(gs@.skip(0) =~= gs@);
    }
    while i < n
        invariant
            n == gs@.len(),
            i <= n,
            spec_find_group(gs@, name@) == spec_find_group(gs@.skip(i as int), name@),
        decreases n - i,
    {
        proof {
            assert(gs@.skip(i as int)[0] == gs@[i as int]);
            assert(gs@.skip(i as int).drop_first() =~= gs@.skip(i as int + 1));
        }
        if gs[i].0 == *name {
            proof {
                assert(0 <= i < gs@.len() && gs@[i as int].1 == gs@[i as int].1);
            }
            return Some(gs[i].1);
        }
        i = i + 1;
    }
    proof {
        assert(gs@.skip(n as int) =~= Seq::<(String, BucketSpec)>::empty());
    }
    None
}

/// Resolve the buckets the request owes, most specific first. The returned
/// list carries pairwise distinct keys, each with a usable limit.
pub fn resolve(cfg: &PolicyConfig, provider: &String, identity: &Identity) -> (r: Vec<
    (BucketKey, BucketSpec),
>)
    requires
        cfg.wf(),
    ensures
        buckets_view(r@) == spec_resolve(
            *cfg,
            provider@,
            identity.client_id@,
            crate::identity::opt_view(identity.group_id),
        ),
        buckets_wf(r@),
{
    let ghost gview = crate::identity::opt_view(identity.group_id);
    let mut out: Vec<(BucketKey, BucketSpec)> = Vec::new();
    let pi = match find_provider(&cfg.providers, provider) {
        Some(i) => i,
        None => {
            proof {
                assert(buckets_view(out@) =~= spec_resolve(
                    *cfg,
                    provider@,
                    identity.client_id@,
                    gview,
                ));
            }
            return out;
        },
    };
    let pl = &cfg.providers[pi];
    let ghost plg = cfg.providers@[pi as int];
    let mut group_limit: Option<BucketSpec> = None;
    match &identity.group_id {
        Some(g) => {
            group_limit = find_group(&pl.group_overrides, g);
            match group_limit {
                Some(l) => {
                    out.push(
                        (
                            BucketKey {
                                scope: Scope::PerGroup,
                                provider: provider.clone(),
                                subject: g.clone(),
                                window_id: 0,
                            },
                            l,
                        ),
                    );
                },
                None => {},
            }
        },
        None => {},
    }
    if group_limit.is_none() {
        match &pl.per_user {
            Some(l) => {
                out.push(
                    (
                        BucketKey {
                            scope: Scope::PerUser,
                            provider: provider.clone(),
                            subject: identity.client_id.clone(),
                            window_id: 0,
                        },
                        *l,
                    ),
                );
            },
            None => {},
        }
    }
    match &pl.provider_global {
        Some(l) => {
            out.push(
                (
                    BucketKey {
                        scope: Scope::PerProviderGlobal,
                        provider: provider.clone(),
                        subject: String::new(),
                        window_id: 0,
                    },
                    *l,
                ),
            );
        },
        None => {},
    }
    proof {
        assert(buckets_view(out@) =~= spec_primary_bucket(plg, provider@, identity.client_id@, gview)
            + spec_global_bucket(plg, provider@));
    }
    out
}

} // verus!
