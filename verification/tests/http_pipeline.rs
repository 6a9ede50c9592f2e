//! The request pipeline: the credential gate, the route table, and the
//! per-route behaviour, each observed through the model store.

use valkeyhttp::http::{
    auth_outcome, http_respond, route, AuthOutcome, Credentials, HttpReply, Route, SessionKind,
};
use valkeyhttp::response::ResponseCode;
use valkeyhttp::store::Store;

fn granted() -> AuthOutcome {
    AuthOutcome::Granted("admin".to_string())
}

#[test]
fn auth_outcome_follows_engine_answer() {
    assert!(matches!(auth_outcome(None, false), AuthOutcome::Missing));
    assert!(matches!(auth_outcome(None, true), AuthOutcome::Missing));
    let creds = Credentials { login: "admin".to_string(), password: "pw".to_string() };
    assert!(matches!(auth_outcome(Some(creds), false), AuthOutcome::Rejected));
    let creds = Credentials { login: "admin".to_string(), password: "pw".to_string() };
    match auth_outcome(Some(creds), true) {
        AuthOutcome::Granted(l) => assert_eq!(l, "admin"),
        _ => panic!("expected a granted outcome"),
    }
}

#[test]
fn routes_match_the_table() {
    assert!(matches!(route("POST", "/process"), Route::ProcessPost));
    assert!(matches!(route("GET", "/process"), Route::ProcessUpgrade));
    assert!(matches!(route("GET", "/ping"), Route::Ping));
    assert!(matches!(route("GET", "/health"), Route::HealthUpgrade));
    assert!(matches!(route("GET", "/monitor"), Route::MonitorUpgrade));
    match route("GET", "/item/color") {
        Route::ItemFetch(k) => assert_eq!(k, "color"),
        _ => panic!("expected an item fetch"),
    }
    match route("DELETE", "/item/color") {
        Route::ItemDrop(k) => assert_eq!(k, "color"),
        _ => panic!("expected an item drop"),
    }
    assert!(matches!(route("GET", "/item/a/b"), Route::Unknown));
    assert!(matches!(route("PUT", "/process"), Route::Unknown));
    assert!(matches!(route("GET", "/nothing"), Route::Unknown));
}

#[test]
fn unauthenticated_requests_are_challenged_everywhere() {
    let mut store = Store::new();
    for auth in [AuthOutcome::Missing, AuthOutcome::Rejected] {
        for (method, path) in [
            ("GET", "/ping"),
            ("POST", "/process"),
            ("GET", "/process"),
            ("GET", "/health"),
            ("GET", "/monitor"),
            ("GET", "/item/k"),
            ("DELETE", "/item/k"),
            ("GET", "/nothing"),
        ] {
            let r = http_respond(&mut store, &auth, method, path, Some("{\"args\":\"set a 1\"}"));
            assert!(matches!(r, HttpReply::Challenge));
        }
    }
    // nothing ran against the store
    let r = http_respond(&mut store, &granted(), "GET", "/item/a", None);
    match r {
        HttpReply::Json(resp) => {
            assert!(matches!(resp.code, ResponseCode::Okay));
            assert_eq!(resp.data, None);
        },
        _ => panic!("expected a JSON reply"),
    }
}

#[test]
fn ping_answers_pong_without_the_translator() {
    let mut store = Store::new();
    let r = http_respond(&mut store, &granted(), "GET", "/ping", None);
    match r {
        HttpReply::Json(resp) => {
            assert!(matches!(resp.code, ResponseCode::Okay));
            assert_eq!(resp.data.as_deref(), Some("PONG"));
        },
        _ => panic!("expected a JSON reply"),
    }
}

#[test]
fn process_post_runs_the_command() {
    let mut store = Store::new();
    let r = http_respond(&mut store, &granted(), "POST", "/process",
        Some("{\"args\":\"set color blue\"}"));
    match r {
        HttpReply::Json(resp) => {
            assert!(matches!(resp.code, ResponseCode::Okay));
            assert_eq!(resp.data, None);
        },
        _ => panic!("expected a JSON reply"),
    }
    let r = http_respond(&mut store, &granted(), "GET", "/item/color", None);
    match r {
        HttpReply::Json(resp) => assert_eq!(resp.data.as_deref(), Some("blue")),
        _ => panic!("expected a JSON reply"),
    }
}

#[test]
fn malformed_body_is_bad_request_and_runs_nothing() {
    let mut store = Store::new();
    let r = http_respond(&mut store, &granted(), "POST", "/process", Some("{\"args\":"));
    assert!(matches!(r, HttpReply::BadRequest));
    let r = http_respond(&mut store, &granted(), "POST", "/process", Some("set a 1"));
    assert!(matches!(r, HttpReply::BadRequest));
    let r = http_respond(&mut store, &granted(), "POST", "/process", None);
    assert!(matches!(r, HttpReply::BadRequest));
    // the store saw no write
    let r = http_respond(&mut store, &granted(), "GET", "/item/a", None);
    match r {
        HttpReply::Json(resp) => assert_eq!(resp.data, None),
        _ => panic!("expected a JSON reply"),
    }
}

#[test]
fn unknown_verb_in_body_is_not_found() {
    let mut store = Store::new();
    let r = http_respond(&mut store, &granted(), "POST", "/process",
        Some("{\"args\":\"flush everything\"}"));
    assert!(matches!(r, HttpReply::NotFound));
}

#[test]
fn missing_token_in_body_is_bad_request() {
    let mut store = Store::new();
    let r = http_respond(&mut store, &granted(), "POST", "/process", Some("{\"args\":\"set a\"}"));
    assert!(matches!(r, HttpReply::BadRequest));
}

#[test]
fn item_routes_read_and_delete() {
    let mut store = Store::new();
    http_respond(&mut store, &granted(), "POST", "/process", Some("{\"args\":\"set k v\"}"));
    let r = http_respond(&mut store, &granted(), "DELETE", "/item/k", None);
    match r {
        HttpReply::Json(resp) => assert_eq!(resp.data.as_deref(), Some("1")),
        _ => panic!("expected a JSON reply"),
    }
    let r = http_respond(&mut store, &granted(), "DELETE", "/item/k", None);
    match r {
        HttpReply::Json(resp) => assert_eq!(resp.data.as_deref(), Some("0")),
        _ => panic!("expected a JSON reply"),
    }
}

#[test]
fn upgrades_name_their_session_kind() {
    let mut store = Store::new();
    let r = http_respond(&mut store, &granted(), "GET", "/process", None);
    assert!(matches!(r, HttpReply::Upgrade(SessionKind::Echo)));
    let r = http_respond(&mut store, &granted(), "GET", "/health", None);
    assert!(matches!(r, HttpReply::Upgrade(SessionKind::Health)));
    let r = http_respond(&mut store, &granted(), "GET", "/monitor", None);
    assert!(matches!(r, HttpReply::Upgrade(SessionKind::Monitor)));
}

#[test]
fn unmatched_routes_are_not_found() {
    let mut store = Store::new();
    let r = http_respond(&mut store, &granted(), "GET", "/elsewhere", None);
    assert!(matches!(r, HttpReply::NotFound));
}
