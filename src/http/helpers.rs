use vstd::prelude::*;
use vstd::utf8::encode_utf8;
use crate::text::{after_last, after_last_str, str_eq};

verus! {

/// The largest request body that any request may declare.
pub const MAX_HTTP_BODY_SIZE: u64 = 131072;

/// The largest request body that an API call may declare, but for the routes exempt from it.
pub const MAX_API_BODY_SIZE: u64 = 1024;

/// The largest relay message, and the largest relay frame.
pub const MAX_WEB_SOCKET_MESSAGE_SIZE: usize = 1024;

/// The status codes that the server answers with.
#[derive(Clone, Copy, Debug, PartialEq, Eq, Structural)]
pub enum Status {
    SwitchingProtocols,
    Success,
    NotModified,
    BadRequest,
    NotFound,
    LengthRequired,
    PayloadTooLarge,
    UnsupportedMediaType,
    InternalServerError,
}

impl Status {
    pub open spec fn spec_code(self) -> u16 {
        match self {
            Status::SwitchingProtocols => 101,
            Status::Success => 200,
            Status::NotModified => 304,
            Status::BadRequest => 400,
            Status::NotFound => 404,
            Status::LengthRequired => 411,
            Status::PayloadTooLarge => 413,
            Status::UnsupportedMediaType => 415,
            Status::InternalServerError => 500,
        }
    }

    pub open spec fn spec_reason(self) -> Seq<char> {
        match self {
            Status::SwitchingProtocols => "Switching Protocols"@,
            Status::Success => "OK"@,
            Status::NotModified => "Not Modified"@,
            Status::BadRequest => "Bad Request"@,
            Status::NotFound => "Not Found"@,
            Status::LengthRequired => "Length Required"@,
            Status::PayloadTooLarge => "Payload Too Large"@,
            Status::UnsupportedMediaType => "Unsupported Media Type"@,
            Status::InternalServerError => "Internal Server Error"@,
        }
    }

    /// The numeric status code.
    pub fn code(&self) -> (r: u16)
        ensures
            r == self.spec_code(),
    {
        match self {
            Status::SwitchingProtocols => 101,
            Status::Success => 200,
            Status::NotModified => 304,
            Status::BadRequest => 400,
            Status::NotFound => 404,
            Status::LengthRequired => 411,
            Status::PayloadTooLarge => 413,
            Status::UnsupportedMediaType => 415,
            Status::InternalServerError => 500,
        }
    }

    /// The standard reason phrase of the status.
    pub fn reason(&self) -> (r: &'static str)
        ensures
            r@ == self.spec_reason(),
    {
        match self {
            Status::SwitchingProtocols => "Switching Protocols",
            Status::Success => "OK",
            Status::NotModified => "Not Modified",
            Status::BadRequest => "Bad Request",
            Status::NotFound => "Not Found",
            Status::LengthRequired => "Length Required",
            Status::PayloadTooLarge => "Payload Too Large",
            Status::UnsupportedMediaType => "Unsupported Media Type",
            Status::InternalServerError => "Internal Server Error",
        }
    }
}

/// The response headers that the server sets.
#[derive(Clone, Copy, Debug, PartialEq, Eq, Structural)]
pub enum HeaderName {
    ContentType,
    ContentEncoding,
    ETag,
    CacheControl,
    Expires,
    Connection,
    Upgrade,
    SecWebSocketAccept,
}

/// Header values that are fixed in advance.
#[derive(Clone, Copy, Debug, PartialEq, Eq, Structural)]
pub enum PreBuiltHeader {
    ApplicationOctetStream,
    DisableCache,
    Gzip,
    TextPlain,
    Upgrade,
    WebSocket,
    Zero,
}

impl PreBuiltHeader {
    pub open spec fn spec_value(self) -> Seq<char> {
        match self {
            PreBuiltHeader::ApplicationOctetStream => "application/octet-stream"@,
            PreBuiltHeader::DisableCache => "no-store, must-revalidate"@,
            PreBuiltHeader::Gzip => "gzip"@,
            PreBuiltHeader::TextPlain => "text/plain"@,
            PreBuiltHeader::Upgrade => "Upgrade"@,
            PreBuiltHeader::WebSocket => "websocket"@,
            PreBuiltHeader::Zero => "0"@,
        }
    }

    /// The text of the header value.
    pub fn as_str(&self) -> (r: &'static str)
        ensures
            r@ == self.spec_value(),
    {
        match self {
            PreBuiltHeader::ApplicationOctetStream => "application/octet-stream",
            PreBuiltHeader::DisableCache => "no-store, must-revalidate",
            PreBuiltHeader::Gzip => "gzip",
            PreBuiltHeader::TextPlain => "text/plain",
            PreBuiltHeader::Upgrade => "Upgrade",
            PreBuiltHeader::WebSocket => "websocket",
            PreBuiltHeader::Zero => "0",
        }
    }
}

/// The value of a fixed header.
pub fn header_value(key: PreBuiltHeader) -> (r: String)
    ensures
        r@ == key.spec_value(),
{
    String::from_str(key.as_str())
}

/// A response: status, headers in the order they were set, and body bytes.
pub struct HttpResponse {
    pub status: Status,
    pub headers: Vec<(HeaderName, String)>,
    pub body: Vec<u8>,
}

impl HttpResponse {
    /// Status, headers and body, as plain values.
    pub open spec fn parts(&self) -> (Status, Seq<(HeaderName, Seq<char>)>, Seq<u8>) {
        (self.status, self.header_list(), self.body@)
    }

    /// The headers, with each value as characters.
    pub open spec fn header_list(&self) -> Seq<(HeaderName, Seq<char>)> {
        self.headers@.map_values(|h: (HeaderName, String)| (h.0, h.1@))
    }

    /// Whether the response is the plain text answer for `code`.
    pub open spec fn is_status_response(&self, code: Status) -> bool {
        &&& self.status == code
        &&& self.header_list() == seq![(HeaderName::ContentType, PreBuiltHeader::TextPlain.spec_value())]
        &&& self.body@ == encode_utf8(code.spec_reason())
    }

    /// The value of the first header named `name`, if any.
    pub fn header(&self, name: HeaderName) -> (r: Option<&String>)
        ensures
            match r {
                Some(v) => exists|i: int|
                    0 <= i < self.headers@.len() && self.headers@[i].0 == name && self.headers@[i].1
                        == *v,
                None => forall|i: int|
                    0 <= i < self.headers@.len() ==> self.headers@[i].0 != name,
            },
    {
        let mut i: usize = 0;
        while i < self.headers.len()
            invariant
                i <= self.headers@.len(),
                forall|j: int| 0 <= j < i ==> self.headers@[j].0 != name,
            decreases self.headers@.len() - i,
        {
            if self.headers[i].0 == name {
                return Some(&self.headers[i].1);
            }
            i = i + 1;
        }
        None
    }
}

/// The plain text answer for `code`: its reason phrase as body.
pub fn status_response(code: Status) -> (r: HttpResponse)
    ensures
        r.is_status_response(code),
{
    let body = code.reason().as_bytes_vec();
    let mut headers: Vec<(HeaderName, String)> = Vec::new();
    headers.push((HeaderName::ContentType, header_value(PreBuiltHeader::TextPlain)));
    let r = HttpResponse { status: code, headers, body };
    assert(r.header_list() =~= seq![(HeaderName::ContentType, PreBuiltHeader::TextPlain.spec_value())]);
    r
}

/// The extension of a path: what follows its last dot.
pub open spec fn spec_ext(path: Seq<char>) -> Seq<char> {
    after_last(path, '.')
}

/// The extension of `path`: what follows its last dot, or nothing.
pub fn get_ext(path: &str) -> (r: &str)
    ensures
        r@ == spec_ext(path@),
{
    after_last_str(path, '.')
}

/// The media type served for a file extension.
pub open spec fn spec_mime_type(ext: Seq<char>) -> Seq<char> {
    if ext == "html"@ {
        "text/html"@
    } else if ext == "js"@ {
        "text/javascript"@
    } else if ext == "css"@ {
        "text/css"@
    } else if ext == "png"@ {
        "image/png"@
    } else if ext == "wasm"@ {
        "application/wasm"@
    } else {
        PreBuiltHeader::ApplicationOctetStream.spec_value()
    }
}

/// The media type served for `path`, by its extension; the generic binary type when unknown.
pub fn get_mime_type(path: &str) -> (r: String)
    ensures
        r@ == spec_mime_type(spec_ext(path@)),
{
    let ext = get_ext(path);
    if str_eq(ext, "html") {
        String::from_str("text/html")
    } else if str_eq(ext, "js") {
        String::from_str("text/javascript")
    } else if str_eq(ext, "css") {
        String::from_str("text/css")
    } else if str_eq(ext, "png") {
        String::from_str("image/png")
    } else if str_eq(ext, "wasm") {
        String::from_str("application/wasm")
    } else {
        header_value(PreBuiltHeader::ApplicationOctetStream)
    }
}

} // verus!
