//! Client identification: extracting `(client_id, optional group)` from
//! request metadata and validating the group against an allow-list.
//!
//! Client ids are opaque: empty, whitespace-only and long values are accepted
//! verbatim, with no trimming and no case folding.

use vstd::prelude::*;

verus! {

/// Where a configured identity value is read from.
#[derive(Debug)]
pub enum IdSource {
    /// An HTTP header, by its (lower-case) name.
    HttpHeader(String),
    /// A claim of the request's bearer token, by name.
    JwtClaim(String),
    /// A query parameter, by name.
    QueryParam(String),
}

/// The identity extracted from one request.
#[derive(Debug)]
pub struct Identity {
    /// The client id, byte for byte as the request carried it.
    pub client_id: String,
    /// The validated group, if one was configured and present.
    pub group_id: Option<String>,
}

/// Why extraction failed.
#[derive(Clone, Copy, PartialEq, Eq, Structural, Debug)]
pub enum ExtractError {
    /// Identification is enabled and the configured source yielded no value.
    MissingClientId,
    /// The extracted group is not in the configured allow-list.
    InvalidGroup,
}

/// Client-identification configuration.
pub struct IdentityConfig {
    /// Whether identification is required at all.
    pub enabled: bool,
    /// Where the client id is read from.
    pub client_id: IdSource,
    /// Where the group is read from, when groups are in use.
    pub group_id: Option<IdSource>,
    /// Allow-list of group values; when present, any extracted group outside
    /// it is rejected.
    pub group_values: Option<Vec<String>>,
}

/// The request metadata the extractor reads: name/value pairs per source.
/// Header names are expected lower-cased, as HTTP stacks normalize them.
pub struct RequestMeta {
    pub headers: Vec<(String, String)>,
    pub query_params: Vec<(String, String)>,
    pub jwt_claims: Vec<(String, String)>,
}

/// The value under the first pair whose name matches, if any.
pub open spec fn spec_lookup(pairs: Seq<(String, String)>, name: Seq<char>) -> Option<Seq<char>>
    decreases pairs.len(),
{
    if pairs.len() == 0 {
        None
    } else if pairs[0].0@ == name {
        Some(pairs[0].1@)
    } else {
        spec_lookup(pairs.drop_first(), name)
    }
}

/// Whether `v` is one of `vals`.
pub open spec fn spec_contains_str(vals: Seq<String>, v: Seq<char>) -> bool {
    exists|i: int| 0 <= i < vals.len() && (#[trigger] vals[i])@ == v
}

/// The value the configured source yields for this request, if any.
pub open spec fn spec_source_value(meta: RequestMeta, source: IdSource) -> Option<Seq<char>> {
    match source {
        IdSource::HttpHeader(n) => spec_lookup(meta.headers@, n@),
        IdSource::JwtClaim(n) => spec_lookup(meta.jwt_claims@, n@),
        IdSource::QueryParam(n) => spec_lookup(meta.query_params@, n@),
    }
}

/// The view of an optional string.
pub open spec fn opt_view(o: Option<String>) -> Option<Seq<char>> {
    match o {
        Some(s) => Some(s@),
        None => None,
    }
}

/// What extraction returns, as a mathematical value: the client id byte for
/// byte, the validated group, or the typed failure.
pub open spec fn spec_extract(meta: RequestMeta, cfg: IdentityConfig) -> Result<
    (Seq<char>, Option<Seq<char>>),
    ExtractError,
> {
    let cid = spec_source_value(meta, cfg.client_id);
    if cfg.enabled && cid is None {
        Err(ExtractError::MissingClientId)
    } else {
        let client = match cid {
            Some(c) => c,
            None => Seq::empty(),
        };
        match cfg.group_id {
            None => Ok((client, None)),
            Some(gsrc) => match spec_source_value(meta, gsrc) {
                None => Ok((client, None)),
                Some(g) => match cfg.group_values {
                    Some(allowed) => if spec_contains_str(allowed@, g) {
                        Ok((client, Some(g)))
                    } else {
                        Err(ExtractError::InvalidGroup)
                    },
                    None => Ok((client, Some(g))),
                },
            },
        }
    }
}

/// The extraction result as a mathematical value.
pub open spec fn extract_view(r: Result<Identity, ExtractError>) -> Result<
    (Seq<char>, Option<Seq<char>>),
    ExtractError,
> {
    match r {
        Ok(id) => Ok((id.client_id@, opt_view(id.group_id))),
        Err(e) => Err(e),
    }
}

/// First-match lookup of `name` among name/value pairs.
pub fn lookup_value(pairs: &Vec<(String, String)>, name: &String) -> (r: Option<String>)
    ensures
        opt_view(r) == spec_lookup(pairs@, name@),
{
    let n = pairs.len();
    let mut i: usize = 0;
    proof {
        assert(pairs@.skip(0) =~= pairs@);
    }
    while i < n
        invariant
            n == pairs@.len(),
            i <= n,
            spec_lookup(pairs@, name@) == spec_lookup(pairs@.skip(i as int), name@),
        decreases n - i,
    {
        proof {
            assert(pairs@.skip(i as int)[0] == pairs@[i as int]);
            assert(pairs@.skip(i as int).drop_first() =~= pairs@.skip(i as int + 1));
        }
        if pairs[i].0 == *name {
            return Some(pairs[i].1.clone());
        }
        i = i + 1;
    }
    proof {
        assert(pairs@.skip(n as int) =~= Seq::<(String, String)>::empty());
    }
    None
}

/// Whether `v` is one of `vals`.
pub fn contains_value(vals: &Vec<String>, v: &String) -> (r: bool)
    ensures
        r == spec_contains_str(vals@, v@),
{
    let n = vals.len();
    let mut i: usize = 0;
    while i < n
        invariant
            n == vals@.len(),
            i <= n,
            forall|j: int| 0 <= j < i ==> (#[trigger] vals@[j])@ != v@,
        decreases n - i,
    {
        if vals[i] == *v {
            proof {
                assert(0 <= i < vals@.len() && (vals@[i as int])@ == v@);
            }
            return true;
        }
        i = i + 1;
    }
    false
}

/// The value the configured source yields for this request, if any.
pub fn source_value(meta: &RequestMeta, source: &IdSource) -> (r: Option<String>)
    ensures
        opt_view(r) == spec_source_value(*meta, *source),
{
    match source {
        IdSource::HttpHeader(n) => lookup_value(&meta.headers, n),
        IdSource::JwtClaim(n) => lookup_value(&meta.jwt_claims, n),
        IdSource::QueryParam(n) => lookup_value(&meta.query_params, n),
    }
}

/// Extract the request's identity.
///
/// When identification is enabled and the configured client-id source yields
/// no value, this fails with `MissingClientId`; an extracted group outside
/// the configured allow-list fails with `InvalidGroup`; an absent group is
/// not an error. The client id is returned byte for byte: empty and
/// whitespace-only values pass unchanged.
pub fn extract(meta: &RequestMeta, cfg: &IdentityConfig) -> (r: Result<Identity, ExtractError>)
    ensures
        extract_view(r) == spec_extract(*meta, *cfg),
{
    let cid = source_value(meta, &cfg.client_id);
    let client: String = match cid {
        Some(c) => c,
        None => {
            if cfg.enabled {
                return Err(ExtractError::MissingClientId);
            }
            String::new()
        },
    };
    match &cfg.group_id {
        None => Ok(Identity { client_id: client, group_id: None }),
        Some(gsrc) => match source_value(meta, gsrc) {
            None => Ok(Identity { client_id: client, group_id: None }),
            Some(g) => match &cfg.group_values {
                Some(allowed) => {
                    if contains_value(allowed, &g) {
                        Ok(Identity { client_id: client, group_id: Some(g) })
                    } else {
                        Err(ExtractError::InvalidGroup)
                    }
                },
                None => Ok(Identity { client_id: client, group_id: Some(g) }),
            },
        },
    }
}

} // verus!
