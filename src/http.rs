//! The decisions behind the HTTP endpoints: which domain a request is for, and
//! what a key or policy lookup answers.

use vstd::prelude::*;

verus! {

/// The policy served when no policy directory is configured.
pub const EMPTY_POLICY: &'static str = "# Empty policy\n";

/// An endpoint failure.
#[derive(Debug, Clone, PartialEq, Eq)]
pub enum ApiError {
    NotFound,
    BadRequest(String),
    Internal(String),
}

/// The query of an advanced key lookup: the local part to confirm.
#[derive(Debug, Clone, PartialEq, Eq)]
pub struct UsernameParam {
    pub username: String,
}

/// The answer to a key request: the certificate bytes, or not found.
pub fn key_response(found: Option<Vec<u8>>) -> (r: Result<Vec<u8>, ApiError>)
    ensures
        match found {
            Some(b) => r == Ok::<Vec<u8>, ApiError>(b),
            None => r == Err::<Vec<u8>, ApiError>(ApiError::NotFound),
        },
{
    match found {
        Some(b) => Ok(b),
        None => Err(ApiError::NotFound),
    }
}

/// The answer to a policy request. `stored` is `None` when no policy directory
/// is configured, else the outcome of reading the domain's policy file: an
/// error, no file, or its text. Without a directory or a file the empty
/// policy document is served.
pub fn policy_response(stored: Option<Result<Option<String>, ()>>) -> (r: Result<String, ApiError>)
    ensures
        match stored {
            None => r matches Ok(t) && t@ == EMPTY_POLICY@,
            Some(Err(_)) => r matches Err(ApiError::Internal(m)) && m@.len() == 0,
            Some(Ok(None)) => r matches Ok(t) && t@ == EMPTY_POLICY@,
            Some(Ok(Some(t))) => r == Ok::<String, ApiError>(t),
        },
{
    match stored {
        None => Ok(String::from_str(EMPTY_POLICY)),
        Some(Err(_)) => Err(ApiError::Internal(String::new())),
        Some(Ok(None)) => Ok(String::from_str(EMPTY_POLICY)),
        Some(Ok(Some(t))) => Ok(t),
    }
}

/// The domain of a direct request. `forwarded` is `None` without an
/// X-Forwarded-Host header, `Some(None)` when that header is malformed, and
/// otherwise its host name; `host` is the Host header's host name, if valid.
/// The forwarded host takes precedence.
pub fn pick_domain(forwarded: Option<Option<String>>, host: Option<String>) -> (r: Result<
    String,
    ApiError,
>)
    ensures
        match forwarded {
            Some(Some(h)) => r == Ok::<String, ApiError>(h),
            Some(None) => r matches Err(ApiError::BadRequest(m)) && m@
                == "Invalid X-Forwarded-Host header."@,
            None => match host {
                Some(h) => r == Ok::<String, ApiError>(h),
                None => r matches Err(ApiError::BadRequest(m)) && m@
                    == "Invalid or missing Host header."@,
            },
        },
{
    match forwarded {
        Some(Some(h)) => Ok(h),
        Some(None) => Err(ApiError::BadRequest(String::from_str("Invalid X-Forwarded-Host header."))),
        None => match host {
            Some(h) => Ok(h),
            None => Err(ApiError::BadRequest(String::from_str("Invalid or missing Host header."))),
        },
    }
}

/// The host part of an HTTP authority given as bytes; `None` when the bytes
/// are not a valid authority.
pub uninterp spec fn authority_host_of(value: Seq<u8>) -> Option<Seq<char>>;

/// Relies on http's Authority::try_from for byte slices and Authority::host
/// (re-exported by axum): the host of a valid authority, a function of the
/// bytes alone.
#[verifier::external_body]
fn authority_host(value: &[u8]) -> (r: Option<String>)
    ensures
        match r {
            Some(h) => authority_host_of(value@) == Some(h@),
            None => authority_host_of(value@) is None,
        },
{
    axum::http::uri::Authority::try_from(value).ok().map(|a| a.host().to_string())
}

/// The domain of a direct request from the raw X-Forwarded-Host header value,
/// if that header is present, and the Host header's host name, if valid. The
/// forwarded host takes precedence; a forwarded value that is not a valid
/// authority is a bad request.
pub fn domain_from_header_values(forwarded: Option<&[u8]>, host: Option<String>) -> (r: Result<
    String,
    ApiError,
>)
    ensures
        match forwarded {
            Some(b) => match authority_host_of(b@) {
                Some(h) => r matches Ok(d) && d@ == h,
                None => r matches Err(ApiError::BadRequest(m)) && m@
                    == "Invalid X-Forwarded-Host header."@,
            },
            None => match host {
                Some(h) => r == Ok::<String, ApiError>(h),
                None => r matches Err(ApiError::BadRequest(m)) && m@
                    == "Invalid or missing Host header."@,
            },
        },
{
    let parsed = match forwarded {
        Some(b) => Some(authority_host(b)),
        None => None,
    };
    pick_domain(parsed, host)
}

/// The policy files to try for a domain, in order: the domain's own file in
/// the policy directory, then the directory's `default` file.
pub fn policy_candidates(policy_dir: &str, domain: &str) -> (r: Vec<String>)
    ensures
        r@.len() == 2,
        r@[0]@ == policy_dir@ + "/"@ + domain@,
        r@[1]@ == policy_dir@ + "/default"@,
{
    let mut own = String::from_str(policy_dir);
    own.append("/");
    own.append(domain);
    let mut fallback = String::from_str(policy_dir);
    fallback.append("/default");
    let mut r = Vec::new();
    r.push(own);
    r.push(fallback);
    r
}

} // verus!
