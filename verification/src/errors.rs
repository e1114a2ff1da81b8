//! The error mapper: wire-shape responses for admission failures, and the
//! taxonomy upstream provider statuses are mapped into.

use vstd::prelude::*;
use vstd::string::StringExecFns;
use crate::admission::DenyReason;

verus! {

/// An HTTP status and body, ready for the edge to send.
#[derive(Debug)]
pub struct WireResponse {
    pub status: u16,
    pub body: String,
}

/// Provider failures, by upstream HTTP status.
#[derive(Clone, Copy, PartialEq, Eq, Structural, Debug)]
pub enum ProviderErrorKind {
    AuthenticationFailed,
    InsufficientQuota,
    ModelNotFound,
    InvalidRequest,
    InternalError,
    /// Any other upstream status, preserved as it arrived — an upstream 429
    /// among them: the named kinds cover 401, 403, 404, 400 and 500 only.
    ProviderApiError(u16),
}

/// The taxonomy an upstream HTTP status maps into.
pub open spec fn spec_map_provider_status(status: u16) -> ProviderErrorKind {
    if status == 401 {
        ProviderErrorKind::AuthenticationFailed
    } else if status == 403 {
        ProviderErrorKind::InsufficientQuota
    } else if status == 404 {
        ProviderErrorKind::ModelNotFound
    } else if status == 400 {
        ProviderErrorKind::InvalidRequest
    } else if status == 500 {
        ProviderErrorKind::InternalError
    } else {
        ProviderErrorKind::ProviderApiError(status)
    }
}

/// Map an upstream HTTP status into the provider error taxonomy.
pub fn map_provider_status(status: u16) -> (r: ProviderErrorKind)
    ensures
        r == spec_map_provider_status(status),
{
    if status == 401 {
        ProviderErrorKind::AuthenticationFailed
    } else if status == 403 {
        ProviderErrorKind::InsufficientQuota
    } else if status == 404 {
        ProviderErrorKind::ModelNotFound
    } else if status == 400 {
        ProviderErrorKind::InvalidRequest
    } else if status == 500 {
        ProviderErrorKind::InternalError
    } else {
        ProviderErrorKind::ProviderApiError(status)
    }
}

/// The response sent when the configured client-id source yields no value.
pub fn missing_client_id_response() -> (r: WireResponse)
    ensures
        r.status == 400,
        r.body@
            == "{\"error\":\"missing_client_id\",\"error_description\":\"Client identification is required\"}"@,
{
    WireResponse {
        status: 400,
        body: String::from_str(
            "{\"error\":\"missing_client_id\",\"error_description\":\"Client identification is required\"}",
        ),
    }
}

/// The response sent when the extracted group is outside the allow-list.
pub fn invalid_group_response() -> (r: WireResponse)
    ensures
        r.status == 400,
        r.body@
            == "{\"error\":\"invalid_group\",\"error_description\":\"The specified group is not valid\"}"@,
{
    WireResponse {
        status: 400,
        body: String::from_str(
            "{\"error\":\"invalid_group\",\"error_description\":\"The specified group is not valid\"}",
        ),
    }
}

/// The response sent when a bucket denies the pre-charge, shaped as the
/// OpenAI-compatible error envelope.
pub fn rate_limited_response() -> (r: WireResponse)
    ensures
        r.status == 429,
        r.body@
            == "{\"error\":{\"message\":\"Rate limit exceeded: Token rate limit exceeded. Please try again later.\",\"type\":\"rate_limit_error\",\"code\":429}}"@,
{
    WireResponse {
        status: 429,
        body: String::from_str(
            "{\"error\":{\"message\":\"Rate limit exceeded: Token rate limit exceeded. Please try again later.\",\"type\":\"rate_limit_error\",\"code\":429}}",
        ),
    }
}

/// Render a denial as the response the edge sends: identity failures are
/// 400s with the admission error shape, a drained bucket is a 429 with the
/// OpenAI-compatible envelope.
pub fn deny_response(reason: &DenyReason) -> (r: WireResponse)
    ensures
        reason is MissingClientId ==> r.status == 400 && r.body@
            == "{\"error\":\"missing_client_id\",\"error_description\":\"Client identification is required\"}"@,
        reason is InvalidGroup ==> r.status == 400 && r.body@
            == "{\"error\":\"invalid_group\",\"error_description\":\"The specified group is not valid\"}"@,
        reason is RateLimited ==> r.status == 429 && r.body@
            == "{\"error\":{\"message\":\"Rate limit exceeded: Token rate limit exceeded. Please try again later.\",\"type\":\"rate_limit_error\",\"code\":429}}"@,
{
    match reason {
        DenyReason::MissingClientId => missing_client_id_response(),
        DenyReason::InvalidGroup => invalid_group_response(),
        DenyReason::RateLimited { .. } => rate_limited_response(),
    }
}

} // verus!
