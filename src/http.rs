use vstd::prelude::*;
use crate::text::{contains_char, split_once, split_once_str, str_eq};
use self::helpers::{
    header_value, spec_ext, status_response, get_ext, HeaderName, HttpResponse, PreBuiltHeader,
    Status, MAX_HTTP_BODY_SIZE,
};

pub mod api;
pub mod helpers;
pub mod serve;
pub mod ws;

verus! {

/// The section and the path within it that a request path (without its leading slash) selects.
///
/// The empty path is the default document. Paths under `api` and `ws` keep their rest as it is.
/// Under `public`, documents ending in `.html` are not served by their own name; a bare name
/// without a dot (other than `index`) stands for that name with `.html` appended. Everything
/// else selects the empty section, which nothing serves.
pub open spec fn spec_section_subpath(path: Seq<char>) -> (Seq<char>, Seq<char>) {
    if path.len() == 0 {
        ("public"@, "index.html"@)
    } else {
        let section = split_once(path, '/').0;
        let subpath = split_once(path, '/').1;
        if section == "api"@ || section == "ws"@ {
            (section, subpath)
        } else if section == "public"@ {
            if spec_ext(subpath) == "html"@ {
                (Seq::empty(), Seq::empty())
            } else {
                (section, subpath)
            }
        } else if subpath.len() == 0 && section != "index"@ && !section.contains('.') {
            ("public"@, section + ".html"@)
        } else {
            (Seq::empty(), Seq::empty())
        }
    }
}

/// Splits a request path (without its leading slash) into its section and the path within it.
pub fn build_section_subpath(path: &str) -> (r: (&'static str, String))
    ensures
        (r.0@, r.1@) == spec_section_subpath(path@),
{
    if path.unicode_len() == 0 {
        return ("public", String::from_str("index.html"));
    }
    let (section, subpath) = match split_once_str(path, '/') {
        Some(parts) => parts,
        None => (path, path.substring_char(0, 0)),
    };
    if str_eq(section, "api") {
        return ("api", String::from_str(subpath));
    }
    if str_eq(section, "ws") {
        return ("ws", String::from_str(subpath));
    }
    if str_eq(section, "public") {
        if str_eq(get_ext(subpath), "html") {
            proof {
                reveal_strlit("");
            }
            return ("", String::new());
        }
        return ("public", String::from_str(subpath));
    }
    if subpath.unicode_len() == 0 && !str_eq(section, "index") && !contains_char(section, '.') {
        return ("public", String::from_str(section).concat(".html"));
    }
    proof {
        reveal_strlit("");
    }
    ("", String::new())
}

/// A request path without the leading character, which is always `/` in a request.
pub open spec fn spec_path_tail(path: Seq<char>) -> Seq<char> {
    if path.len() > 0 && (path[0] as u32) < 128 {
        path.drop_first()
    } else {
        Seq::empty()
    }
}

/// Where a request goes once its head has been read, before anything of its body.
pub enum Dispatch {
    /// Answer at once; the body is not read.
    Respond(HttpResponse),
    /// A static resource, by its path under the resource root.
    Public(String),
    /// An API call: route name and declared body size.
    Api(String, u64),
    /// A relay upgrade, with what follows the relay section.
    Ws(String),
}

impl Dispatch {
    /// Whether this is the plain text answer for `code`.
    pub open spec fn responds(&self, code: Status) -> bool {
        match self {
            Dispatch::Respond(resp) => resp.is_status_response(code),
            _ => false,
        }
    }
}

/// Classifies a request by its declared body size, its URI path and whether its client takes
/// gzip-encoded content, before any of its body is read.
pub fn route_request(body_size: Option<u64>, path: &str, accepts_gzip: bool) -> (r: Dispatch)
    ensures
        body_size is None ==> r.responds(Status::LengthRequired),
        body_size is Some && body_size->0 > MAX_HTTP_BODY_SIZE ==> r.responds(
            Status::PayloadTooLarge,
        ),
        body_size is Some && body_size->0 <= MAX_HTTP_BODY_SIZE ==> {
            let (section, subpath) = spec_section_subpath(spec_path_tail(path@));
            if section == "public"@ {
                if accepts_gzip {
                    (r matches Dispatch::Public(p) && p@ == subpath)
                } else {
                    r.responds(Status::UnsupportedMediaType)
                }
            } else if section == "api"@ {
                (r matches Dispatch::Api(p, size) && p@ == subpath && size == body_size->0)
            } else if section == "ws"@ {
                (r matches Dispatch::Ws(p) && p@ == subpath)
            } else {
                r.responds(Status::NotFound)
            }
        },
{
    let body_size = match body_size {
        Some(size) => size,
        None => return Dispatch::Respond(status_response(Status::LengthRequired)),
    };
    if body_size > MAX_HTTP_BODY_SIZE {
        return Dispatch::Respond(status_response(Status::PayloadTooLarge));
    }
    let n = path.unicode_len();
    let tail = if n > 0 && (path.get_char(0) as u32) < 128 {
        path.substring_char(1, n)
    } else {
        path.substring_char(0, 0)
    };
    assert(tail@ == spec_path_tail(path@));
    let (section, subpath) = build_section_subpath(tail);
    if str_eq(section, "public") {
        if accepts_gzip {
            Dispatch::Public(subpath)
        } else {
            Dispatch::Respond(status_response(Status::UnsupportedMediaType))
        }
    } else if str_eq(section, "api") {
        Dispatch::Api(subpath, body_size)
    } else if str_eq(section, "ws") {
        Dispatch::Ws(subpath)
    } else {
        Dispatch::Respond(status_response(Status::NotFound))
    }
}

/// Marks an API response as never to be cached, by browsers or by proxies.
pub fn disable_caching(resp: &mut HttpResponse)
    ensures
        final(resp).status == old(resp).status,
        final(resp).body == old(resp).body,
        final(resp).header_list() == old(resp).header_list().push(
            (HeaderName::CacheControl, PreBuiltHeader::DisableCache.spec_value()),
        ).push((HeaderName::Expires, PreBuiltHeader::Zero.spec_value())),
{
    resp.headers.push((HeaderName::CacheControl, header_value(PreBuiltHeader::DisableCache)));
    resp.headers.push((HeaderName::Expires, header_value(PreBuiltHeader::Zero)));
    assert(final(resp).header_list() =~= old(resp).header_list().push(
        (HeaderName::CacheControl, PreBuiltHeader::DisableCache.spec_value()),
    ).push((HeaderName::Expires, PreBuiltHeader::Zero.spec_value())));
}

} // verus!
