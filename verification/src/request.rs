use vstd::prelude::*;
use vstd::string::StringExecFns;
use crate::errors::ErrorKind;

verus! {

/// The full text of the GET message for `resource` on `host`: request
/// line, `Host` header, `Connection: close`, and the blank line that
/// ends the head. No body and no further headers.
pub open spec fn spec_message(host: Seq<char>, resource: Seq<char>) -> Seq<char> {
    "GET "@ + resource + " HTTP/1.1\r\nHost: "@ + host + "\r\nConnection: close\r\n\r\n"@
}

/// Constructs the GET request message sent once per connection.
pub fn message_constructor(host: &str, resource: &str) -> (m: String)
    ensures
        m@ == spec_message(host@, resource@),
{
    let mut message = String::from_str("GET ");
    message.append(resource);
    message.append(" HTTP/1.1\r\nHost: ");
    message.append(host);
    message.append("\r\nConnection: close\r\n\r\n");
    proof {
        assert(message@ =~= spec_message(host@, resource@));
    }
    message
}

/// The result of one complete request attempt. `error` tells how the
/// transport fared: `None` means the connection was made, the
/// message written and the stream drained to its end, whatever status
/// text arrived. When `error` is set, `byte_count` and `status_code`
/// carry nothing and the elapsed time covers the work up to the
/// failure.
#[derive(Clone, Copy, Debug)]
pub struct RequestOutcome {
    pub byte_count: usize,
    pub elapsed_ms: u64,
    pub status_code: Option<u16>,
    pub error: Option<ErrorKind>,
}

/// The outcome of an attempt that drained its stream to EOF. A peer
/// that accepts the connection and closes after zero bytes still
/// yields this outcome, with a zero count and no status: a missing or
/// malformed status line is not a transport error.
pub fn success_outcome(byte_count: usize, elapsed_ms: u64, status_code: Option<u16>) -> (o:
    RequestOutcome)
    ensures
        o.error.is_none(),
        o.byte_count == byte_count,
        o.elapsed_ms == elapsed_ms,
        o.status_code == status_code,
{
    RequestOutcome { byte_count, elapsed_ms, status_code, error: None }
}

/// The outcome of an attempt cut short by a transport failure of the
/// given kind, after `elapsed_ms` of work.
pub fn failure_outcome(kind: ErrorKind, elapsed_ms: u64) -> (o: RequestOutcome)
    ensures
        o.error == Some(kind),
        o.elapsed_ms == elapsed_ms,
        o.byte_count == 0,
        o.status_code.is_none(),
{
    RequestOutcome { byte_count: 0, elapsed_ms, status_code: None, error: Some(kind) }
}

} // verus!
