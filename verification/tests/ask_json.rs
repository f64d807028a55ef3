use serde::de::{self, Deserializer, IgnoredAny, MapAccess, Visitor};

use present::ask::{
    auto_pick, auto_pick_enabled, choose_source, finish_pick, invalid_request_error,
    no_terminal_error, request_from_flags, request_text, PickSource,
};
use present::error::PresentError;
use present::protocol::{check_message, check_options, AskRequest};

/// An ask request read from JSON the way the binary reads it: the message
/// and the options are checked as they are read, in the order they come.
struct Request(AskRequest);

struct RequestVisitor;

impl<'de> Visitor<'de> for RequestVisitor {
    type Value = Request;

    fn expecting(&self, f: &mut std::fmt::Formatter) -> std::fmt::Result {
        f.write_str("struct AskRequestJson")
    }

    fn visit_map<A: MapAccess<'de>>(self, mut map: A) -> Result<Request, A::Error> {
        let mut message: Option<String> = None;
        let mut options: Option<Vec<String>> = None;
        let mut multiple = false;
        while let Some(key) = map.next_key::<String>()? {
            match key.as_str() {
                "message" => {
                    let raw: String = map.next_value()?;
                    check_message(&raw).map_err(de::Error::custom)?;
                    message = Some(raw);
                }
                "options" => {
                    let raw: Vec<String> = map.next_value()?;
                    check_options(&raw).map_err(de::Error::custom)?;
                    options = Some(raw);
                }
                "multiple" => multiple = map.next_value()?,
                _ => {
                    map.next_value::<IgnoredAny>()?;
                }
            }
        }
        let message = message.ok_or_else(|| de::Error::missing_field("message"))?;
        let options = options.ok_or_else(|| de::Error::missing_field("options"))?;
        Ok(Request(AskRequest { message, options, multiple }))
    }
}

impl<'de> serde::Deserialize<'de> for Request {
    fn deserialize<D: Deserializer<'de>>(d: D) -> Result<Self, D::Error> {
        d.deserialize_struct("AskRequestJson", &["message", "options", "multiple"], RequestVisitor)
    }
}

/// The request that stdin holds, or the failure the binary reports.
fn stdin_request(raw: &str) -> Result<AskRequest, PresentError> {
    let text = request_text(raw)?;
    serde_json::from_str::<Request>(text)
        .map(|r| r.0)
        .map_err(|err| invalid_request_error(&err.to_string(), err.line()))
}

#[test]
fn flags_json_auto_pick_returns_first_option_as_choice() {
    let request = request_from_flags("pick", Some(r#"["a","b","c"]"#)).unwrap();
    assert!(auto_pick_enabled(Some("1")));
    assert_eq!(choose_source(true, false, true, false).unwrap(), PickSource::AutoPick);
    let line = finish_pick(Some(auto_pick(&request)), true).unwrap();
    assert!(line.contains(r#""choice":"a""#));
}

#[test]
fn stdin_json_auto_pick_returns_first_option_as_choice() {
    let request = stdin_request(r#"{"message":"pick","options":["a","b","c"]}"#).unwrap();
    assert_eq!(choose_source(true, false, auto_pick_enabled(Some("1")), false).unwrap(), PickSource::AutoPick);
    let line = finish_pick(Some(auto_pick(&request)), true).unwrap();
    assert!(line.contains(r#""choice":"a""#));
}

#[test]
fn stdin_json_empty_options_is_rejected() {
    let err = stdin_request(r#"{"message":"x","options":[]}"#).unwrap_err();
    assert_eq!(err.exit_code(), 1);
    assert!(err.json_line().contains("options is empty"));
}

#[test]
fn stdin_json_single_option_is_rejected() {
    let err = stdin_request(r#"{"message":"x","options":["only"]}"#).unwrap_err();
    assert_eq!(err.exit_code(), 1);
    assert!(err.json_line().contains("only one option"));
}

#[test]
fn stdin_json_empty_message_is_rejected() {
    let err = stdin_request(r#"{"message":"","options":["a","b"]}"#).unwrap_err();
    assert_eq!(err.exit_code(), 1);
    assert!(err.json_line().contains("message is empty"));
}

#[test]
fn stdin_json_malformed_names_the_parse_error() {
    let err = stdin_request("{not json").unwrap_err();
    assert_eq!(err.exit_code(), 1);
    assert!(err.json_line().contains("not a valid ask request"));
}

#[test]
fn stdin_json_empty_stdin_is_rejected() {
    let err = stdin_request("").unwrap_err();
    assert_eq!(err.exit_code(), 1);
    assert!(err.json_line().contains("no input on stdin"));
}

#[test]
fn stdin_json_missing_field_is_named() {
    let err = stdin_request(r#"{"options":["a","b"]}"#).unwrap_err();
    assert_eq!(err.exit_code(), 1);
    assert!(err.json_line().contains("missing field `message`"));
}

#[test]
fn stdin_json_non_string_option_is_rejected() {
    let err = stdin_request(r#"{"message":"x","options":[1,2]}"#).unwrap_err();
    assert_eq!(err.exit_code(), 1);
    assert!(err.json_line().contains("expected a string"));
}

#[test]
fn flags_json_hundred_options_auto_pick_still_returns_first() {
    let mut opts = String::from("[");
    for i in 1..=100 {
        if i > 1 {
            opts.push(',');
        }
        opts.push_str(&format!("\"o{i}\""));
    }
    opts.push(']');
    let request = request_from_flags("pick", Some(&opts)).unwrap();
    assert_eq!(request.options.len(), 100);
    let line = finish_pick(Some(auto_pick(&request)), true).unwrap();
    assert!(line.contains(r#""choice":"o1""#));
}

#[test]
fn flags_json_without_auto_pick_and_without_tty_errors_with_next_step() {
    let request = request_from_flags("pick", Some(r#"["a","b"]"#)).unwrap();
    assert_eq!(request.options.len(), 2);
    assert!(!auto_pick_enabled(None));
    assert_eq!(choose_source(true, false, false, false).unwrap(), PickSource::TerminalPrompt);
    let err = no_terminal_error("No such device or address (os error 6)");
    assert_eq!(err.exit_code(), 1);
    assert!(err.json_line().contains("PRESENT_AUTO_PICK"));
}
