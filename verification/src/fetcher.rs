use vstd::prelude::*;

verus! {

use crate::error::FetchError;
use crate::error::is_success_status;
use crate::error::status_ok;
use crate::resolver::BlobParts;
use crate::resolver::RepoFileRef;

#[verifier::external_type_specification]
#[verifier::external_body]
pub struct ExValue(serde_json::Value);

/// What `serde_json::from_str` makes of a text when read as a generic
/// JSON value: the parsed value, or nothing when the text is not valid
/// JSON. The outcome is a function of the text alone.
pub uninterp spec fn json_decoded(s: Seq<char>) -> Option<serde_json::Value>;

/// Relies on `serde_json::from_str::<serde_json::Value>`: whether a text
/// parses, and to which value, depends on the text alone.
#[verifier::external_body]
fn parse_json_text(body: &str) -> (r: Option<serde_json::Value>)
    ensures
        r == json_decoded(body@),
{
    match serde_json::from_str::<serde_json::Value>(body) {
        Ok(v) => Some(v),
        Err(_) => None,
    }
}

/// The GitHub Contents API URL for the file `p` refers to:
/// `https://api.github.com/repos/{owner}/{repo}/contents/{path}?ref={ref}`.
/// The path is inserted verbatim, not percent-encoded, so special
/// characters in it yield a malformed request; a known limitation.
pub open spec fn api_url_of(p: BlobParts) -> Seq<char> {
    "https://api.github.com/repos/"@ + p.owner + "/"@ + p.repo + "/contents/"@ + p.path + "?ref="@
        + p.git_ref
}

/// Builds the Contents API request URL for `rf`.
pub fn build_api_url(rf: &RepoFileRef) -> (u: String)
    ensures
        u@ == api_url_of(rf@),
{
    let mut u = String::from_str("https://api.github.com/repos/");
    u.append(rf.owner.as_str());
    u.append("/");
    u.append(rf.repo.as_str());
    u.append("/contents/");
    u.append(rf.path.as_str());
    u.append("?ref=");
    u.append(rf.git_ref.as_str());
    proof {
        assert(u@ =~= api_url_of(rf@));
    }
    u
}

/// The value of the `Authorization` header carrying `token`: the legacy
/// `token {token}` scheme, not the newer `Bearer` one.
pub open spec fn auth_header_of(token: Seq<char>) -> Seq<char> {
    "token "@ + token
}

/// Builds the `Authorization` header value for `token`.
pub fn auth_header_value(token: &str) -> (h: String)
    ensures
        h@ == auth_header_of(token@),
{
    let mut h = String::from_str("token ");
    h.append(token);
    h
}

/// Interprets one HTTP response from the Contents API, given its status
/// code and body text. A status outside the 2xx range fails with that
/// status, whatever the body holds; a 2xx body that is not valid JSON
/// fails with `DecodeError`; otherwise the parsed JSON value is handed
/// back unchanged, with no field read or decoded.
pub fn interpret_response(status: u16, body: &str) -> (r: Result<serde_json::Value, FetchError>)
    ensures
        match r {
            Ok(v) => is_success_status(status) && json_decoded(body@) == Some(v),
            Err(e) => {
                &&& !is_success_status(status) ==> e == FetchError::RequestFailed(status)
                &&& is_success_status(status) ==> e == FetchError::DecodeError && json_decoded(
                    body@,
                ) is None
            },
        },
{
    if !status_ok(status) {
        return Err(FetchError::RequestFailed(status));
    }
    match parse_json_text(body) {
        Some(v) => Ok(v),
        None => Err(FetchError::DecodeError),
    }
}

} // verus!
