use settlers_server::http::api::{api, api_route, check_token, find_route, serialize_api_response, Route};
use settlers_server::http::helpers::{HeaderName, Status, MAX_API_BODY_SIZE};
use settlers_server::protos::{
    read_empty_message, write_bool_message, CheckTokenParams, CheckTokenTestResult, DecodeError,
};

#[test]
fn check_token_with_empty_body_succeeds() {
    let route = api_route("check_token", 0).ok().unwrap();
    assert_eq!(route, Route::CheckToken);
    let r = api(route, &[]);
    assert_eq!(r.status, Status::Success);
    assert_eq!(r.body, vec![8, 1]);
    assert_eq!(r.headers, vec![(HeaderName::ContentType, "application/octet-stream".to_string())]);
}

#[test]
fn check_token_with_corrupted_body_is_bad_request() {
    for body in [vec![0x0a], vec![0x0a, 0x05, 0x61], vec![0x80], vec![0x0b], vec![0x09, 1, 2]] {
        let r = api(Route::CheckToken, &body);
        assert_eq!(r.status, Status::BadRequest);
        assert_eq!(r.body, b"Bad Request".to_vec());
    }
}

#[test]
fn unknown_fields_are_skipped() {
    let r = api(Route::CheckTokenTest, &[0x08, 0x01, 0x12, 0x02, 0x61, 0x62]);
    assert_eq!(r.status, Status::Success);
    assert_eq!(r.body, vec![8, 1]);
}

#[test]
fn route_table_and_limits() {
    assert_eq!(find_route("check_token_test"), Some(Route::CheckTokenTest));
    assert_eq!(find_route("nothing"), None);
    assert_eq!(api_route("nothing", 0).err().unwrap().status, Status::NotFound);
    assert_eq!(
        api_route("check_token", MAX_API_BODY_SIZE + 1).err().unwrap().status,
        Status::PayloadTooLarge
    );
    assert_eq!(api_route("check_token", MAX_API_BODY_SIZE).ok(), Some(Route::CheckToken));
}

#[test]
fn message_codec() {
    assert_eq!(read_empty_message(&[]), Ok(()));
    assert_eq!(read_empty_message(&[0x80]), Err(DecodeError::Tag));
    assert_eq!(read_empty_message(&[0x0a]), Err(DecodeError::Field));
    assert_eq!(CheckTokenParams::decode(&[0x08, 0x96, 0x01]), Ok(CheckTokenParams {}));
    assert_eq!(write_bool_message(true), vec![8, 1]);
    assert_eq!(write_bool_message(false), Vec::<u8>::new());
    assert_eq!(CheckTokenTestResult { result: true }.encode(), vec![8, 1]);
    assert!(check_token(CheckTokenParams {}).result);
}

#[test]
fn encoded_result_is_binary_content() {
    let r = serialize_api_response(vec![8, 1]);
    assert_eq!(r.status, Status::Success);
    assert_eq!(r.body, vec![8, 1]);
    assert_eq!(r.headers, vec![(HeaderName::ContentType, "application/octet-stream".to_string())]);
}

#[test]
fn length_delimited_fields_are_checked() {
    assert_eq!(read_empty_message(&[0x0a, 0x02, 0x61, 0x62]), Ok(()));
    assert_eq!(read_empty_message(&[0x0a, 0x03, 0x61, 0x62]), Err(DecodeError::Field));
    assert_eq!(read_empty_message(&[0x0d, 1, 2, 3, 4]), Ok(()));
    assert_eq!(read_empty_message(&[0x0d, 1, 2, 3]), Err(DecodeError::Field));
    assert_eq!(read_empty_message(&[0x0e, 0]), Err(DecodeError::Field));
    assert_eq!(read_empty_message(&[0xff; 11]), Err(DecodeError::Tag));
}
