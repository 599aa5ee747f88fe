use vstd::prelude::*;

verus! {

/// The ways a fetch can fail, one variant for each stage of the pipeline:
/// URL parsing, the HTTP exchange, and JSON decoding.
#[derive(Clone, Copy, Debug, PartialEq, Eq, Structural)]
pub enum FetchError {
    /// The input does not contain a well-formed GitHub blob URL.
    MalformedUrl,
    /// The HTTP response carried a status outside the 2xx range.
    RequestFailed(u16),
    /// DNS, connection or TLS failure before any response arrived.
    TransportError,
    /// The response body is not valid JSON text.
    DecodeError,
}

/// An HTTP status counts as success exactly when it lies in the 2xx range.
pub open spec fn is_success_status(status: u16) -> bool {
    200 <= status < 300
}

/// Reports whether an HTTP status lies in the 2xx range.
pub fn status_ok(status: u16) -> (r: bool)
    ensures
        r == is_success_status(status),
{
    200 <= status && status < 300
}

} // verus!
