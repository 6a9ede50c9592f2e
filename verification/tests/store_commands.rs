//! The engine model and the command translator: write-then-read,
//! missing keys, delete counts, and command-line parsing.

use valkeyhttp::command::{parse_command, Command, CommandError};
use valkeyhttp::response::ResponseCode;
use valkeyhttp::store::Store;
use valkeyhttp::translate::{run_command, translate_line};

#[test]
fn set_then_get_returns_value() {
    let mut store = Store::new();
    let r = translate_line(&mut store, "set color blue");
    assert!(matches!(r.code, ResponseCode::Okay));
    assert_eq!(r.data, None);
    let r = translate_line(&mut store, "get color");
    assert!(matches!(r.code, ResponseCode::Okay));
    assert_eq!(r.data.as_deref(), Some("blue"));
}

#[test]
fn set_overwrites_value() {
    let mut store = Store::new();
    translate_line(&mut store, "set k one");
    translate_line(&mut store, "set k two");
    let r = translate_line(&mut store, "get k");
    assert_eq!(r.data.as_deref(), Some("two"));
}

#[test]
fn get_unwritten_key_is_ok_none() {
    let mut store = Store::new();
    translate_line(&mut store, "set other 1");
    let r = translate_line(&mut store, "get never");
    assert!(matches!(r.code, ResponseCode::Okay));
    assert_eq!(r.data, None);
}

#[test]
fn del_missing_key_answers_zero() {
    let mut store = Store::new();
    let r = translate_line(&mut store, "del ghost");
    assert!(matches!(r.code, ResponseCode::Okay));
    assert_eq!(r.data.as_deref(), Some("0"));
}

#[test]
fn del_existing_key_answers_one_and_removes() {
    let mut store = Store::new();
    translate_line(&mut store, "set a 1");
    let r = translate_line(&mut store, "del a");
    assert!(matches!(r.code, ResponseCode::Okay));
    assert_eq!(r.data.as_deref(), Some("1"));
    let r = translate_line(&mut store, "get a");
    assert!(matches!(r.code, ResponseCode::Okay));
    assert_eq!(r.data, None);
}

#[test]
fn verbs_are_case_insensitive() {
    let mut store = Store::new();
    let r = translate_line(&mut store, "SET a 1");
    assert!(matches!(r.code, ResponseCode::Okay));
    let r = translate_line(&mut store, "GeT a");
    assert_eq!(r.data.as_deref(), Some("1"));
    let r = translate_line(&mut store, "DEL a");
    assert_eq!(r.data.as_deref(), Some("1"));
}

#[test]
fn unknown_verb_is_refused() {
    match parse_command("flush all") {
        Err(CommandError::UnknownVerb) => {},
        _ => panic!("expected an unknown-verb refusal"),
    }
    let mut store = Store::new();
    let r = translate_line(&mut store, "flush all");
    assert!(matches!(r.code, ResponseCode::Failed));
    assert_eq!(r.data, None);
}

#[test]
fn missing_tokens_are_malformed() {
    match parse_command("set") {
        Err(CommandError::Malformed) => {},
        _ => panic!("expected a malformed refusal"),
    }
    match parse_command("set key") {
        Err(CommandError::Malformed) => {},
        _ => panic!("expected a malformed refusal"),
    }
    match parse_command("get") {
        Err(CommandError::Malformed) => {},
        _ => panic!("expected a malformed refusal"),
    }
    match parse_command("nonsense") {
        Err(CommandError::Malformed) => {},
        _ => panic!("expected a malformed refusal"),
    }
}

#[test]
fn parse_takes_single_space_tokens() {
    match parse_command("set key value with extras") {
        Ok(Command::Write(k, v)) => {
            assert_eq!(k, "key");
            assert_eq!(v, "value");
        },
        _ => panic!("expected a write command"),
    }
    match parse_command("get  doubled") {
        Ok(Command::Read(k)) => {
            // two spaces: the second token is the empty key
            assert_eq!(k, "");
        },
        _ => panic!("expected a read command"),
    }
}

#[test]
fn run_command_applies_parsed_command() {
    let mut store = Store::new();
    let cmd = parse_command("set answer 42").unwrap();
    let r = run_command(&mut store, &cmd);
    assert!(matches!(r.code, ResponseCode::Okay));
    let cmd = parse_command("get answer").unwrap();
    let r = run_command(&mut store, &cmd);
    assert_eq!(r.data.as_deref(), Some("42"));
}
