use vstd::prelude::*;
use crate::protos::{
    spec_bool_message, spec_fields_ok, CheckTokenParams, CheckTokenResult, CheckTokenTestParams,
    CheckTokenTestResult,
};
use crate::text::str_eq;
use super::helpers::{
    header_value, status_response, HeaderName, HttpResponse, PreBuiltHeader, Status,
    MAX_API_BODY_SIZE,
};

verus! {

/// The API routes. The table is fixed: nothing is added or removed while serving.
#[derive(Clone, Copy, Debug, PartialEq, Eq, Structural)]
pub enum Route {
    CheckToken,
    CheckTokenTest,
}

impl Route {
    pub open spec fn spec_name(self) -> Seq<char> {
        match self {
            Route::CheckToken => "check_token"@,
            Route::CheckTokenTest => "check_token_test"@,
        }
    }
}

/// The route named `name`, if there is one.
pub open spec fn spec_find_route(name: Seq<char>) -> Option<Route> {
    if name == "check_token"@ {
        Some(Route::CheckToken)
    } else if name == "check_token_test"@ {
        Some(Route::CheckTokenTest)
    } else {
        None
    }
}

/// The route named `name`, if there is one.
pub fn find_route(name: &str) -> (r: Option<Route>)
    ensures
        r == spec_find_route(name@),
{
    if str_eq(name, "check_token") {
        Some(Route::CheckToken)
    } else if str_eq(name, "check_token_test") {
        Some(Route::CheckTokenTest)
    } else {
        None
    }
}

/// Routes whose bodies are held to the global ceiling instead of the API one.
pub open spec fn spec_uses_global_limit(name: Seq<char>) -> bool {
    name == "upload_picture"@
}

/// Picks the route for an API call before its body is read: "not found" for an unknown route,
/// "payload too large" when the declared body size exceeds the API ceiling (but for the routes
/// exempt from it).
pub fn api_route(name: &str, body_size: u64) -> (r: Result<Route, HttpResponse>)
    ensures
        spec_find_route(name@) is None ==> (r matches Err(resp) && resp.is_status_response(
            Status::NotFound,
        )),
        spec_find_route(name@) is Some && body_size > MAX_API_BODY_SIZE && !spec_uses_global_limit(
            name@,
        ) ==> (r matches Err(resp) && resp.is_status_response(Status::PayloadTooLarge)),
        spec_find_route(name@) is Some && (body_size <= MAX_API_BODY_SIZE || spec_uses_global_limit(
            name@,
        )) ==> r == Ok::<Route, HttpResponse>(spec_find_route(name@)->0),
{
    let route = match find_route(name) {
        Some(route) => route,
        None => return Err(status_response(Status::NotFound)),
    };
    if !str_eq(name, "upload_picture") && body_size > MAX_API_BODY_SIZE {
        return Err(status_response(Status::PayloadTooLarge));
    }
    Ok(route)
}

/// The token check.
pub fn check_token(_params: CheckTokenParams) -> (r: CheckTokenResult)
    ensures
        r.result,
{
    CheckTokenResult { result: true }
}

/// The test token check.
pub fn check_token_test(_params: CheckTokenTestParams) -> (r: CheckTokenTestResult)
    ensures
        r.result,
{
    CheckTokenTestResult { result: true }
}

/// The parts of a successful API answer with encoded body `body`.
pub open spec fn spec_api_success(body: Seq<u8>) -> (Status, Seq<(HeaderName, Seq<char>)>, Seq<u8>) {
    (
        Status::Success,
        seq![(HeaderName::ContentType, PreBuiltHeader::ApplicationOctetStream.spec_value())],
        body,
    )
}

/// The answer that carries the encoded result `encoded`, as binary content.
pub fn serialize_api_response(encoded: Vec<u8>) -> (r: HttpResponse)
    ensures
        r.parts() == spec_api_success(encoded@),
{
    let mut headers: Vec<(HeaderName, String)> = Vec::new();
    headers.push((HeaderName::ContentType, header_value(PreBuiltHeader::ApplicationOctetStream)));
    let r = HttpResponse { status: Status::Success, headers, body: encoded };
    assert(r.header_list() =~= spec_api_success(r.body@).1);
    r
}

/// Calls `route` with the request body `body`: "bad request" when the body is not a valid
/// message of the route's schema (a sequence of whole fields); otherwise the route's encoded
/// result, which for both routes is `true`.
pub fn api(route: Route, body: &[u8]) -> (r: HttpResponse)
    ensures
        spec_fields_ok(body@) ==> r.parts() == spec_api_success(spec_bool_message(true)),
        !spec_fields_ok(body@) ==> r.is_status_response(Status::BadRequest),
{
    match route {
        Route::CheckToken => match CheckTokenParams::decode(body) {
            Ok(params) => serialize_api_response(check_token(params).encode()),
            Err(_) => status_response(Status::BadRequest),
        },
        Route::CheckTokenTest => match CheckTokenTestParams::decode(body) {
            Ok(params) => serialize_api_response(check_token_test(params).encode()),
            Err(_) => status_response(Status::BadRequest),
        },
    }
}

} // verus!
