//! Bucket, store and reconciliation behaviour on concrete values: bounds,
//! conservation, atomic multi-bucket charges, refill monotonicity, group
//! overrides, streaming reconciliation and the fixed formulas.

use llm_gateway::admission::{admit_request, Charge, DenyReason, RequestEnvelope};
use llm_gateway::bucket::BucketSpec;
use llm_gateway::duration::parse_duration_ms;
use llm_gateway::counter::{
    estimate_input_tokens, is_done_marker, ChatMessage, StreamObserver, UsageReport,
};
use llm_gateway::errors::{map_provider_status, ProviderErrorKind};
use llm_gateway::identity::Identity;
use llm_gateway::key::{BucketKey, Scope};
use llm_gateway::model::{extract_model_from_full_name, resolve_model};
use llm_gateway::policy::{PolicyConfig, ProviderLimits};
use llm_gateway::store::CounterStore;

fn user_key(client: &str) -> BucketKey {
    BucketKey {
        scope: Scope::PerUser,
        provider: "openai".to_string(),
        subject: client.to_string(),
        window_id: 0,
    }
}

fn msg(role: &str, content: &str) -> ChatMessage {
    ChatMessage { role: role.to_string(), content: content.to_string() }
}

fn envelope(client: &str, group: Option<&str>, estimated: u64) -> RequestEnvelope {
    RequestEnvelope {
        provider_name: "openai".to_string(),
        model_name: "gpt-4".to_string(),
        identity: Identity {
            client_id: client.to_string(),
            group_id: group.map(|g| g.to_string()),
        },
        estimated_input_tokens: estimated,
        stream: false,
    }
}

fn policy_with(per_user: u64, groups: Vec<(&str, u64)>) -> PolicyConfig {
    PolicyConfig {
        providers: vec![ProviderLimits {
            provider: "openai".to_string(),
            per_user: Some(BucketSpec { capacity: per_user, interval_ms: 60_000 }),
            group_overrides: groups
                .into_iter()
                .map(|(g, cap)| (g.to_string(), BucketSpec { capacity: cap, interval_ms: 60_000 }))
                .collect(),
            provider_global: None,
        }],
    }
}

#[test]
fn estimator_exact_values() {
    // 4 per message, plus one token per started run of three characters.
    assert_eq!(estimate_input_tokens(&vec![]), 0);
    assert_eq!(estimate_input_tokens(&vec![msg("user", "Test")]), 8);
    assert_eq!(estimate_input_tokens(&vec![msg("", "")]), 4);
    assert_eq!(estimate_input_tokens(&vec![msg("user", "Test"), msg("user", "Test")]), 16);
    assert_eq!(estimate_input_tokens(&vec![msg("system", "abcdefghij")]), 10);
}

#[test]
fn charge_then_refund_restores_observation() {
    // Charging and immediately refunding the same amount lands back on the
    // refilled pre-charge value.
    let mut store = CounterStore::new();
    let key = user_key("c1");
    let limit = BucketSpec { capacity: 100, interval_ms: 60_000 };
    let before = store.peek(&key, &limit, 1_000);
    let r = store.try_charge(&key, &limit, 30, 1_000);
    assert_eq!(r, Ok(70));
    store.refund(&key, &limit, 30, 1_000);
    assert_eq!(store.peek(&key, &limit, 1_000), before);
}

#[test]
fn refill_is_monotone_and_capped() {
    // After a full drain, reads at later instants grow linearly and cap at
    // capacity, and reading commits nothing.
    let mut store = CounterStore::new();
    let key = user_key("c1");
    let limit = BucketSpec { capacity: 100, interval_ms: 10_000 };
    let r = store.try_charge(&key, &limit, 100, 0);
    assert_eq!(r, Ok(0));
    assert_eq!(store.peek(&key, &limit, 0), 0);
    assert_eq!(store.peek(&key, &limit, 5_000), 50);
    assert_eq!(store.peek(&key, &limit, 5_000), 50);
    assert_eq!(store.peek(&key, &limit, 7_500), 75);
    assert_eq!(store.peek(&key, &limit, 20_000), 100);
}

#[test]
fn multi_bucket_charge_is_atomic() {
    // Two buckets, one too small: the sufficient one's count is unchanged.
    let mut store = CounterStore::new();
    let wide_key = user_key("wide");
    let narrow_key = user_key("narrow");
    let wide = BucketSpec { capacity: 100, interval_ms: 60_000 };
    let narrow = BucketSpec { capacity: 10, interval_ms: 60_000 };
    let r = store.try_charge(&narrow_key, &narrow, 8, 0);
    assert_eq!(r, Ok(2));
    let buckets = vec![(wide_key, wide), (narrow_key, narrow)];
    let r = store.try_charge_all(&buckets, 5, 0);
    assert!(r.is_err());
    assert_eq!(store.peek(&buckets[0].0, &wide, 0), 100);
    assert_eq!(store.peek(&buckets[1].0, &narrow, 0), 2);
}

#[test]
fn denial_issues_no_charge_and_drains_nothing() {
    let mut store = CounterStore::new();
    let policy = policy_with(1000, vec![]);
    let r = admit_request(&mut store, &policy, &envelope("c1", None, 2000), 0);
    let reason = r.err().expect("estimate over capacity should be denied");
    assert!(matches!(reason, DenyReason::RateLimited { .. }));
    let key = user_key("c1");
    let limit = BucketSpec { capacity: 1000, interval_ms: 60_000 };
    assert_eq!(store.peek(&key, &limit, 0), 1000);
    let r = admit_request(&mut store, &policy, &envelope("c1", None, 500), 0);
    assert!(r.is_ok(), "the denied attempt must not have drained the bucket");
}

#[test]
fn group_override_raises_ceiling() {
    // Per-user default 1000, group enterprise 5000: 2000 estimated tokens
    // pass with the group and are denied without it.
    let policy = policy_with(1000, vec![("enterprise", 5000)]);

    let mut store = CounterStore::new();
    let r = admit_request(&mut store, &policy, &envelope("c1", Some("enterprise"), 2000), 0);
    assert!(r.is_ok(), "the group override should admit 2000 tokens");

    let mut store = CounterStore::new();
    let r = admit_request(&mut store, &policy, &envelope("c1", None, 2000), 0);
    assert!(r.is_err(), "without the group the per-user limit applies");
}

#[test]
fn streaming_reconciliation_refunds_over_estimate() {
    // Estimated 200, actual 80 from the final usage event: the bucket gains
    // 120 back against the post-charge state.
    let mut store = CounterStore::new();
    let policy = policy_with(1000, vec![]);
    let key = user_key("c1");
    let limit = BucketSpec { capacity: 1000, interval_ms: 60_000 };
    let mut charge: Charge = admit_request(&mut store, &policy, &envelope("c1", None, 200), 0)
        .expect("pre-charge should succeed");
    assert_eq!(store.peek(&key, &limit, 0), 800);

    let mut observer = StreamObserver::new();
    observer.observe(None);
    observer.observe(Some(UsageReport { input_tokens: 80, output_tokens: 40 }));
    charge.finish_stream(&mut store, &observer, 0);
    assert_eq!(store.peek(&key, &limit, 0), 920);
    assert!(charge.settled);
}

#[test]
fn stream_without_usage_keeps_estimate() {
    let mut store = CounterStore::new();
    let policy = policy_with(1000, vec![]);
    let key = user_key("c1");
    let limit = BucketSpec { capacity: 1000, interval_ms: 60_000 };
    let mut charge = admit_request(&mut store, &policy, &envelope("c1", None, 200), 0)
        .expect("pre-charge should succeed");
    let observer = StreamObserver::new();
    charge.finish_stream(&mut store, &observer, 0);
    assert_eq!(store.peek(&key, &limit, 0), 800);
}

#[test]
fn reconcile_under_estimate_clamps_at_zero() {
    // Actual usage far over the estimate empties the bucket but never fails.
    let mut store = CounterStore::new();
    let policy = policy_with(100, vec![]);
    let key = user_key("c1");
    let limit = BucketSpec { capacity: 100, interval_ms: 60_000 };
    let mut charge = admit_request(&mut store, &policy, &envelope("c1", None, 50), 0)
        .expect("pre-charge should succeed");
    charge.reconcile_sync(
        &mut store,
        UsageReport { input_tokens: 300, output_tokens: 0 },
        0,
    );
    assert_eq!(store.peek(&key, &limit, 0), 0);
}

#[test]
fn provider_failure_refunds_whole_charge() {
    let mut store = CounterStore::new();
    let policy = policy_with(100, vec![]);
    let key = user_key("c1");
    let limit = BucketSpec { capacity: 100, interval_ms: 60_000 };
    let mut charge = admit_request(&mut store, &policy, &envelope("c1", None, 60), 0)
        .expect("pre-charge should succeed");
    assert_eq!(store.peek(&key, &limit, 0), 40);
    charge.refund_all(&mut store, 0);
    assert_eq!(store.peek(&key, &limit, 0), 100);
}

#[test]
fn refund_caps_at_capacity() {
    let mut store = CounterStore::new();
    let key = user_key("c1");
    let limit = BucketSpec { capacity: 100, interval_ms: 60_000 };
    store.refund(&key, &limit, 50, 0);
    assert_eq!(store.peek(&key, &limit, 0), 100);
}

#[test]
fn retry_after_exact_value() {
    // 48 of 50 tokens charged; 8 more need 6 tokens, which accrue in
    // ceil(6 * 60000 / 50) = 7200 ms, so the caller waits 8 whole seconds.
    let mut store = CounterStore::new();
    let key = user_key("c1");
    let limit = BucketSpec { capacity: 50, interval_ms: 60_000 };
    let r = store.try_charge(&key, &limit, 48, 0);
    assert_eq!(r, Ok(2));
    let r = store.try_charge(&key, &limit, 8, 0);
    assert_eq!(r, Err(8));
}

#[test]
fn retry_after_is_clamped_to_interval() {
    // An amount far over capacity cannot accrue within one interval; the
    // wait is clamped to the interval itself.
    let mut store = CounterStore::new();
    let key = user_key("c1");
    let limit = BucketSpec { capacity: 10, interval_ms: 60_000 };
    let r = store.try_charge(&key, &limit, 1_000, 0);
    assert_eq!(r, Err(60));
}

#[test]
fn provider_status_mapping() {
    assert_eq!(map_provider_status(401), ProviderErrorKind::AuthenticationFailed);
    assert_eq!(map_provider_status(403), ProviderErrorKind::InsufficientQuota);
    assert_eq!(map_provider_status(404), ProviderErrorKind::ModelNotFound);
    assert_eq!(map_provider_status(400), ProviderErrorKind::InvalidRequest);
    assert_eq!(map_provider_status(500), ProviderErrorKind::InternalError);
    // Statuses outside the named list keep their number, an upstream 429
    // among them.
    assert_eq!(map_provider_status(429), ProviderErrorKind::ProviderApiError(429));
    assert_eq!(map_provider_status(502), ProviderErrorKind::ProviderApiError(502));
}

#[test]
fn model_name_extraction() {
    assert_eq!(extract_model_from_full_name("openai/gpt-4"), "gpt-4");
    assert_eq!(extract_model_from_full_name("gpt-4"), "gpt-4");
    assert_eq!(extract_model_from_full_name("a/b/c"), "c");
    assert_eq!(extract_model_from_full_name("a/"), "");
    assert_eq!(extract_model_from_full_name(""), "");
}

#[test]
fn done_marker_detection() {
    assert!(is_done_marker(&"[DONE]".to_string()));
    assert!(!is_done_marker(&"{\"choices\":[]}".to_string()));
    assert!(!is_done_marker(&"".to_string()));
}

#[test]
fn observer_keeps_latest_usage() {
    let mut observer = StreamObserver::new();
    assert_eq!(
        observer.usage_at_close(42),
        UsageReport { input_tokens: 42, output_tokens: 0 }
    );
    observer.observe(Some(UsageReport { input_tokens: 10, output_tokens: 5 }));
    observer.observe(Some(UsageReport { input_tokens: 12, output_tokens: 9 }));
    observer.observe(None);
    assert_eq!(
        observer.usage_at_close(42),
        UsageReport { input_tokens: 12, output_tokens: 9 }
    );
}

#[test]
fn header_lookup_takes_first_match() {
    let meta = llm_gateway::identity::RequestMeta {
        headers: vec![
            ("X-Client-Id".to_string(), "first".to_string()),
            ("X-Client-Id".to_string(), "second".to_string()),
        ],
        query_params: vec![],
        jwt_claims: vec![],
    };
    let cfg = llm_gateway::identity::IdentityConfig {
        enabled: true,
        client_id: llm_gateway::identity::IdSource::HttpHeader("X-Client-Id".to_string()),
        group_id: None,
        group_values: None,
    };
    let id = llm_gateway::identity::extract(&meta, &cfg).expect("identity should extract");
    assert_eq!(id.client_id, "first");
}

#[test]
fn duration_parsing_exact_values() {
    assert_eq!(parse_duration_ms("60s"), Some(60_000));
    assert_eq!(parse_duration_ms("500ms"), Some(500));
    assert_eq!(parse_duration_ms("2m"), Some(120_000));
    assert_eq!(parse_duration_ms("1h"), Some(3_600_000));
    assert_eq!(parse_duration_ms("0s"), Some(0));
}

#[test]
fn duration_parsing_rejects_malformed() {
    assert_eq!(parse_duration_ms(""), None);
    assert_eq!(parse_duration_ms("60"), None);
    assert_eq!(parse_duration_ms("s"), None);
    assert_eq!(parse_duration_ms("10x"), None);
    assert_eq!(parse_duration_ms("1 h"), None);
    assert_eq!(parse_duration_ms("1.5s"), None);
    assert_eq!(parse_duration_ms("12sm"), None);
    // 10^19 hours cannot be held in a millisecond counter.
    assert_eq!(parse_duration_ms("10000000000000000000h"), None);
}

#[test]
fn state_stays_bounded_under_any_sequence() {
    // Whatever the interleaving of charges, refunds and forced debits, the
    // observable count stays within [0, capacity].
    let mut store = CounterStore::new();
    let key = user_key("c1");
    let limit = BucketSpec { capacity: 100, interval_ms: 1_000 };
    let _ = store.try_charge(&key, &limit, 60, 0);
    assert!(store.peek(&key, &limit, 0) <= 100);
    store.force_debit(&key, &limit, 80, 0);
    assert_eq!(store.peek(&key, &limit, 0), 0);
    store.refund(&key, &limit, 250, 0);
    assert_eq!(store.peek(&key, &limit, 0), 100);
    let _ = store.try_charge(&key, &limit, 100, 0);
    store.refund(&key, &limit, 1, 500);
    let p = store.peek(&key, &limit, 500);
    assert!(p <= 100);
    assert!(store.peek(&key, &limit, 10_000) <= 100);
}

#[test]
fn clock_running_backwards_is_clamped() {
    // A read with an earlier instant than the last refill observes the state
    // as of the last refill: time never runs backwards.
    let mut store = CounterStore::new();
    let key = user_key("c1");
    let limit = BucketSpec { capacity: 100, interval_ms: 1_000 };
    let r = store.try_charge(&key, &limit, 40, 5_000);
    assert_eq!(r, Ok(60));
    assert_eq!(store.peek(&key, &limit, 1_000), store.peek(&key, &limit, 5_000));
}

#[test]
fn multi_bucket_charge_debits_every_bucket() {
    let mut store = CounterStore::new();
    let wide_key = user_key("wide");
    let narrow_key = user_key("narrow");
    let wide = BucketSpec { capacity: 100, interval_ms: 60_000 };
    let narrow = BucketSpec { capacity: 10, interval_ms: 60_000 };
    let buckets = vec![(wide_key, wide), (narrow_key, narrow)];
    let r = store.try_charge_all(&buckets, 5, 0);
    assert!(r.is_ok());
    assert_eq!(store.peek(&buckets[0].0, &wide, 0), 95);
    assert_eq!(store.peek(&buckets[1].0, &narrow, 0), 5);
}

#[test]
fn group_without_override_falls_back_to_per_user() {
    // A group in the allow-list but without its own limit block keeps the
    // per-user default.
    let policy = policy_with(1000, vec![("enterprise", 5000)]);
    let mut store = CounterStore::new();
    let r = admit_request(&mut store, &policy, &envelope("c1", Some("basic"), 2000), 0);
    assert!(r.is_err(), "a group without an override keeps the per-user limit");
    let r = admit_request(&mut store, &policy, &envelope("c1", Some("basic"), 900), 0);
    let charge = r.expect("the per-user limit admits 900");
    assert_eq!(charge.keys.len(), 1);
    assert_eq!(charge.amount_charged, 900);
}

#[test]
fn model_table_resolution_first_match() {
    let models = vec![
        ("gpt-4".to_string(), "gpt-4-0613".to_string()),
        ("gpt-4".to_string(), "gpt-4-later".to_string()),
        ("gpt-4o".to_string(), "gpt-4o-2024".to_string()),
    ];
    assert_eq!(resolve_model(&models, &"gpt-4".to_string()), Some("gpt-4-0613".to_string()));
    assert_eq!(resolve_model(&models, &"gpt-4o".to_string()), Some("gpt-4o-2024".to_string()));
    assert_eq!(resolve_model(&models, &"gpt-5".to_string()), None);
    assert_eq!(resolve_model(&vec![], &"gpt-4".to_string()), None);
}
