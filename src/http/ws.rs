use vstd::prelude::*;
use crate::text::{eq_ignore_ascii_case, eq_ignoring_ascii_case, header_list_contains, list_contains};
use super::helpers::{header_value, status_response, HeaderName, HttpResponse, PreBuiltHeader, Status};

verus! {

/// What the relay upgrade looks at in a request: its method and protocol version, and the
/// handshake headers as they came (`None` for a header that is absent, or, for the text headers,
/// not visible ASCII).
pub struct UpgradeRequest {
    pub method_is_get: bool,
    pub version_is_http11: bool,
    pub key: Option<Vec<u8>>,
    pub ws_version: Option<Vec<u8>>,
    pub upgrade: Option<String>,
    pub connection: Option<String>,
}

/// The one relay protocol version that is supported, as header bytes: `13`.
pub open spec fn supported_version() -> Seq<u8> {
    seq![49u8, 51u8]
}

/// Whether a request for the relay path `path` is a valid upgrade handshake.
pub open spec fn spec_handshake_ok(path: Seq<char>, req: UpgradeRequest) -> bool {
    &&& req.method_is_get
    &&& req.version_is_http11
    &&& req.key is Some
    &&& path.len() == 0
    &&& (req.ws_version matches Some(v) && v@ == supported_version())
    &&& (req.upgrade matches Some(u) && eq_ignoring_ascii_case(u@, "websocket"@))
    &&& (req.connection matches Some(c) && list_contains(c@, "upgrade"@))
}

/// The accept token that the relay protocol derives from a client key.
pub uninterp spec fn accept_key_of(key: Seq<u8>) -> Seq<char>;

/// Relies on tungstenite's `derive_accept_key`: the standard accept token for a client key (the
/// base64 form of the SHA-1 digest of the key followed by the protocol's constant).
#[verifier::external_body]
fn derive_accept_key(key: &[u8]) -> (r: String)
    ensures
        r@ == accept_key_of(key@),
{
    tokio_tungstenite::tungstenite::handshake::derive_accept_key(key)
}

/// The headers of the answer that switches a connection to the relay protocol.
pub open spec fn spec_upgrade_headers(accept: Seq<char>) -> Seq<(HeaderName, Seq<char>)> {
    seq![
        (HeaderName::Connection, PreBuiltHeader::Upgrade.spec_value()),
        (HeaderName::Upgrade, PreBuiltHeader::WebSocket.spec_value()),
        (HeaderName::SecWebSocketAccept, accept),
    ]
}

/// The answer that switches a connection to the relay protocol, with accept token `accept`.
pub fn upgrade_response(accept: String) -> (r: HttpResponse)
    ensures
        r.parts() == (Status::SwitchingProtocols, spec_upgrade_headers(accept@), Seq::<u8>::empty()),
{
    let ghost a = accept@;
    let mut headers: Vec<(HeaderName, String)> = Vec::new();
    headers.push((HeaderName::Connection, header_value(PreBuiltHeader::Upgrade)));
    headers.push((HeaderName::Upgrade, header_value(PreBuiltHeader::WebSocket)));
    headers.push((HeaderName::SecWebSocketAccept, accept));
    let r = HttpResponse { status: Status::SwitchingProtocols, headers, body: Vec::new() };
    assert(r.header_list() =~= spec_upgrade_headers(a));
    assert(r.body@ =~= Seq::<u8>::empty());
    r
}

/// Checks a relay upgrade request for the relay path `path`: "bad request" unless it is a
/// valid handshake; otherwise the answer that switches protocols, with the accept token derived
/// from the client key. The caller performs the upgrade only on the second answer.
pub fn ws(path: &str, req: &UpgradeRequest) -> (r: HttpResponse)
    ensures
        !spec_handshake_ok(path@, *req) ==> r.is_status_response(Status::BadRequest),
        spec_handshake_ok(path@, *req) ==> r.parts() == (
            Status::SwitchingProtocols,
            spec_upgrade_headers(accept_key_of(req.key->0@)),
            Seq::<u8>::empty(),
        ),
{
    let version_ok = match &req.ws_version {
        Some(v) => v.len() == 2 && v[0] == 49 && v[1] == 51,
        None => false,
    };
    proof {
        if req.ws_version is Some {
            let v = req.ws_version->0@;
            if v.len() == 2 && v[0] == 49 && v[1] == 51 {
                assert(v =~= supported_version());
            }
        }
    }
    let upgrade_ok = match &req.upgrade {
        Some(u) => eq_ignore_ascii_case(u.as_str(), "websocket"),
        None => false,
    };
    let connection_ok = match &req.connection {
        Some(c) => header_list_contains(c.as_str(), "upgrade"),
        None => false,
    };
    let key = match &req.key {
        Some(k) => k,
        None => return status_response(Status::BadRequest),
    };
    if !req.method_is_get || !req.version_is_http11 || path.unicode_len() != 0 || !version_ok
        || !upgrade_ok || !connection_ok {
        return status_response(Status::BadRequest);
    }
    upgrade_response(derive_accept_key(key.as_slice()))
}

} // verus!
