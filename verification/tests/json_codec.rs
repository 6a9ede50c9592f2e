//! The response encoder and the request-body parser.

use valkeyhttp::body::parse_body;
use valkeyhttp::response::{response_to_json, CommandResponse, ResponseCode};

#[test]
fn ok_without_payload() {
    let r = CommandResponse { code: ResponseCode::Okay, data: None };
    assert_eq!(response_to_json(&r), "{\"code\":\"Ok\",\"data\":null}");
}

#[test]
fn ok_with_payload() {
    let r = CommandResponse { code: ResponseCode::Okay, data: Some("1".to_string()) };
    assert_eq!(response_to_json(&r), "{\"code\":\"Ok\",\"data\":\"1\"}");
}

#[test]
fn err_without_payload() {
    let r = CommandResponse { code: ResponseCode::Failed, data: None };
    assert_eq!(response_to_json(&r), "{\"code\":\"Err\",\"data\":null}");
}

#[test]
fn other_codes_use_their_wire_names() {
    let r = CommandResponse { code: ResponseCode::NotFound, data: None };
    assert_eq!(response_to_json(&r), "{\"code\":\"NotFound\",\"data\":null}");
    let r = CommandResponse { code: ResponseCode::NotAllowed, data: None };
    assert_eq!(response_to_json(&r), "{\"code\":\"NotAllowed\",\"data\":null}");
}

#[test]
fn payload_is_escaped() {
    let r = CommandResponse {
        code: ResponseCode::Okay,
        data: Some("a\"b\\c\nd\te\u{8}f\u{1f}g".to_string()),
    };
    assert_eq!(
        response_to_json(&r),
        "{\"code\":\"Ok\",\"data\":\"a\\\"b\\\\c\\nd\\te\\bf\\u001fg\"}"
    );
}

#[test]
fn body_with_args_parses() {
    assert_eq!(parse_body("{\"args\":\"set a 1\"}").as_deref(), Some("set a 1"));
    assert_eq!(parse_body("  { \"args\" : \"get a\" }  ").as_deref(), Some("get a"));
}

#[test]
fn body_escapes_are_decoded() {
    assert_eq!(parse_body("{\"args\":\"a\\\"b\\\\c\\/d\\ne\\tf\"}").as_deref(),
        Some("a\"b\\c/d\ne\tf"));
    assert_eq!(parse_body("{\"args\":\"x\\u0041y\"}").as_deref(), Some("xAy"));
    assert_eq!(parse_body("{\"args\":\"\\uD83D\\uDE00\"}").as_deref(), Some("\u{1F600}"));
}

#[test]
fn body_with_extra_scalar_members_parses() {
    assert_eq!(
        parse_body("{\"id\": 17, \"args\": \"get a\", \"trace\": true, \"tag\": null}").as_deref(),
        Some("get a")
    );
    assert_eq!(
        parse_body("{\"note\":\"x\",\"args\":\"del a\",\"f\":-1.5e3}").as_deref(),
        Some("del a")
    );
}

#[test]
fn malformed_bodies_are_refused() {
    assert_eq!(parse_body(""), None);
    assert_eq!(parse_body("not json"), None);
    assert_eq!(parse_body("{"), None);
    assert_eq!(parse_body("{}"), None);
    assert_eq!(parse_body("{\"args\":}"), None);
    assert_eq!(parse_body("{\"args\":\"unterminated}"), None);
    assert_eq!(parse_body("{\"args\":17}"), None);
    assert_eq!(parse_body("{\"other\":\"x\"}"), None);
    assert_eq!(parse_body("{\"args\":\"a\",\"args\":\"b\"}"), None);
    assert_eq!(parse_body("{\"args\":\"a\"} trailing"), None);
    assert_eq!(parse_body("{\"args\":\"bad \\u12 escape\"}"), None);
    assert_eq!(parse_body("{\"args\":\"lone \\uD800 surrogate\"}"), None);
    assert_eq!(parse_body("{\"n\":01,\"args\":\"a\"}"), None);
}
