//! Edge cases of client identification and the wire error shapes, exercised
//! through the admission entry point.

use llm_gateway::admission::{handle_request, DenyReason};
use llm_gateway::bucket::BucketSpec;
use llm_gateway::counter::{ChatMessage, ChatRequest};
use llm_gateway::errors::deny_response;
use llm_gateway::identity::{IdSource, IdentityConfig, RequestMeta};
use llm_gateway::policy::{PolicyConfig, ProviderLimits};
use llm_gateway::store::CounterStore;

fn provider_limits(per_user: u64, groups: Vec<(&str, u64)>) -> PolicyConfig {
    PolicyConfig {
        providers: vec![ProviderLimits {
            provider: "openai".to_string(),
            per_user: Some(BucketSpec { capacity: per_user, interval_ms: 60_000 }),
            group_overrides: groups
                .into_iter()
                .map(|(g, cap)| (g.to_string(), BucketSpec { capacity: cap, interval_ms: 60_000 }))
                .collect(),
            provider_global: None,
        }],
    }
}

fn id_config(group: bool, allow: Option<Vec<&str>>) -> IdentityConfig {
    IdentityConfig {
        enabled: true,
        client_id: IdSource::HttpHeader("X-Client-Id".to_string()),
        group_id: if group {
            Some(IdSource::HttpHeader("X-Group".to_string()))
        } else {
            None
        },
        group_values: allow.map(|vs| vs.into_iter().map(|v| v.to_string()).collect()),
    }
}

fn meta_with(headers: Vec<(&str, &str)>) -> RequestMeta {
    RequestMeta {
        headers: headers
            .into_iter()
            .map(|(n, v)| (n.to_string(), v.to_string()))
            .collect(),
        query_params: vec![],
        jwt_claims: vec![],
    }
}

fn test_request() -> ChatRequest {
    ChatRequest {
        model: "openai/gpt-4".to_string(),
        messages: vec![ChatMessage { role: "user".to_string(), content: "Test".to_string() }],
        stream: false,
        max_tokens: Some(10),
    }
}

#[test]
fn empty_client_id_accepted() {
    let mut store = CounterStore::new();
    let policy = provider_limits(1000, vec![]);
    let cfg = id_config(false, None);
    let meta = meta_with(vec![("X-Client-Id", "")]);
    let provider = "openai".to_string();
    let r = handle_request(&mut store, &policy, &cfg, &meta, &test_request(), &provider, 0);
    assert!(r.is_ok(), "Empty string client ID should be accepted");
}

#[test]
fn whitespace_client_id_accepted() {
    let mut store = CounterStore::new();
    let policy = provider_limits(1000, vec![]);
    let cfg = id_config(false, None);
    let meta = meta_with(vec![("X-Client-Id", "     ")]);
    let provider = "openai".to_string();
    let r = handle_request(&mut store, &policy, &cfg, &meta, &test_request(), &provider, 0);
    assert!(r.is_ok(), "Whitespace client ID should be accepted");
}

#[test]
fn very_long_identifiers() {
    let mut store = CounterStore::new();
    let policy = provider_limits(1000, vec![("enterprise", 5000)]);
    let cfg = id_config(true, Some(vec!["enterprise"]));
    let long_client_id = "a".repeat(256);
    let meta = meta_with(vec![
        ("X-Client-Id", long_client_id.as_str()),
        ("X-Group", "enterprise"),
    ]);
    let provider = "openai".to_string();
    let r = handle_request(&mut store, &policy, &cfg, &meta, &test_request(), &provider, 0);
    assert!(r.is_ok(), "Long client ID should be accepted");
}

#[test]
fn special_characters_in_identifiers() {
    let mut store = CounterStore::new();
    let policy = provider_limits(1000, vec![]);
    let cfg = id_config(false, None);
    let meta = meta_with(vec![("X-Client-Id", "user@example.com:123-456_789/test")]);
    let provider = "openai".to_string();
    let r = handle_request(&mut store, &policy, &cfg, &meta, &test_request(), &provider, 0);
    assert!(r.is_ok(), "Special characters in client ID should be accepted");
}

#[test]
fn rate_limit_exceeded_response_format() {
    let mut store = CounterStore::new();
    let policy = provider_limits(50, vec![]);
    let cfg = id_config(false, None);
    let meta = meta_with(vec![("X-Client-Id", "rate-limit-test")]);
    let provider = "openai".to_string();

    // Each request estimates to 8 input tokens; six fit under 50 (48 charged).
    for i in 1..=6 {
        let r = handle_request(&mut store, &policy, &cfg, &meta, &test_request(), &provider, 0);
        assert!(r.is_ok(), "Request {} should succeed", i);
    }

    // The seventh would exceed the limit (56 > 50).
    let r = handle_request(&mut store, &policy, &cfg, &meta, &test_request(), &provider, 0);
    let reason = r.err().expect("seventh request should be rate limited");
    assert!(matches!(reason, DenyReason::RateLimited { .. }));
    let resp = deny_response(&reason);
    assert_eq!(resp.status, 429);
    assert_eq!(
        resp.body,
        "{\"error\":{\"message\":\"Rate limit exceeded: Token rate limit exceeded. Please try again later.\",\"type\":\"rate_limit_error\",\"code\":429}}"
    );
}

#[test]
fn missing_client_id_error_format() {
    let mut store = CounterStore::new();
    let policy = provider_limits(1000, vec![]);
    let cfg = id_config(false, None);
    let meta = meta_with(vec![]);
    let provider = "openai".to_string();
    let r = handle_request(&mut store, &policy, &cfg, &meta, &test_request(), &provider, 0);
    let reason = r.err().expect("request without client id should be denied");
    assert_eq!(reason, DenyReason::MissingClientId);
    let resp = deny_response(&reason);
    assert_eq!(resp.status, 400);
    assert_eq!(
        resp.body,
        "{\"error\":\"missing_client_id\",\"error_description\":\"Client identification is required\"}"
    );
}

#[test]
fn unauthorized_group_error_format() {
    let mut store = CounterStore::new();
    let policy = provider_limits(1000, vec![]);
    let cfg = id_config(true, Some(vec!["basic", "premium"]));
    let meta = meta_with(vec![("X-Client-Id", "test-client"), ("X-Group", "enterprise")]);
    let provider = "openai".to_string();
    let r = handle_request(&mut store, &policy, &cfg, &meta, &test_request(), &provider, 0);
    let reason = r.err().expect("unauthorized group should be denied");
    assert_eq!(reason, DenyReason::InvalidGroup);
    let resp = deny_response(&reason);
    assert_eq!(resp.status, 400);
    assert_eq!(
        resp.body,
        "{\"error\":\"invalid_group\",\"error_description\":\"The specified group is not valid\"}"
    );
}

#[test]
fn identity_returned_verbatim() {
    // No normalization: unusual client ids come back byte-identical.
    let cfg = id_config(false, None);
    let long = "a".repeat(256);
    for raw in ["   ", "", "user@example.com:123-456_789/test", long.as_str()] {
        let meta = meta_with(vec![("X-Client-Id", raw)]);
        let id = llm_gateway::identity::extract(&meta, &cfg).expect("identity should extract");
        assert_eq!(id.client_id, raw);
        assert!(id.group_id.is_none());
    }
}

#[test]
fn absent_group_is_not_an_error() {
    // A configured but absent group falls through to the per-user bucket.
    let mut store = CounterStore::new();
    let policy = provider_limits(1000, vec![("enterprise", 5000)]);
    let cfg = id_config(true, Some(vec!["enterprise"]));
    let meta = meta_with(vec![("X-Client-Id", "client-1")]);
    let provider = "openai".to_string();
    let r = handle_request(&mut store, &policy, &cfg, &meta, &test_request(), &provider, 0);
    let charge = r.expect("absent group should still admit");
    assert_eq!(charge.keys.len(), 1);
}

#[test]
fn unconfigured_provider_admits_unconditionally() {
    let mut store = CounterStore::new();
    let policy = provider_limits(50, vec![]);
    let cfg = id_config(false, None);
    let meta = meta_with(vec![("X-Client-Id", "client-1")]);
    let provider = "anthropic".to_string();
    let r = handle_request(&mut store, &policy, &cfg, &meta, &test_request(), &provider, 0);
    let charge = r.expect("a provider without limits admits");
    assert!(charge.keys.is_empty());
}
