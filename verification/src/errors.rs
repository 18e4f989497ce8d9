use vstd::prelude::*;

verus! {

/// Every way a parse or a request attempt can fail.
///
/// `InvalidUrl` and `InvalidProtocol` arise while decomposing the URL,
/// before any network activity. The remaining kinds describe one
/// request's fate: name resolution returned no address, the transport
/// connect failed, the TLS handshake failed, a write or read on the
/// open stream failed, or the first bytes of the response did not carry
/// a recognizable status line.
#[derive(Clone, Copy, Debug, PartialEq, Eq, Structural)]
pub enum ErrorKind {
    InvalidUrl,
    InvalidProtocol,
    ResolutionFailed,
    ConnectFailed,
    TlsHandshakeFailed,
    IoError,
    MalformedStatusLine,
}

} // verus!
