use present::ask::{
    auto_pick, auto_pick_enabled, choose_source, finish_pick, parse_pick, request_from_flags,
    PickSource,
};
use present::cli::{browse_check, dispatch, Cli, Route};
use present::error::PresentError;
use present::text::trim_str;

/// The stdout and exit code of a flags ask in plain mode, answered with `stdin`.
fn plain_ask(message: &str, options: Option<&str>, stdin: &str) -> (String, i32, String) {
    let request = match request_from_flags(message, options) {
        Ok(r) => r,
        Err(e) => return (String::new(), e.exit_code(), e.message()),
    };
    let picked = match parse_pick(&request, trim_str(stdin)) {
        Ok(p) => p,
        Err(e) => return (String::new(), e.exit_code(), e.message()),
    };
    match finish_pick(picked, false) {
        Ok(line) => (format!("{line}\n"), 0, String::new()),
        Err(e) => (String::new(), e.exit_code(), e.message()),
    }
}

#[test]
fn cli_pick_by_number_prints_choice_to_stdout() {
    let (stdout, code, _) = plain_ask("Pick", Some(r#"["a","b","c"]"#), "2\n");
    assert_eq!(code, 0);
    assert_eq!(stdout, "b\n");
}

#[test]
fn cli_pick_zero_exits_two_as_cancelled() {
    let (stdout, code, _) = plain_ask("Pick", Some(r#"["a","b"]"#), "0\n");
    assert_eq!(code, 2);
    assert!(stdout.is_empty());
}

#[test]
fn cli_pick_empty_line_exits_two_as_cancelled() {
    let (_, code, _) = plain_ask("Pick", Some(r#"["a","b"]"#), "\n");
    assert_eq!(code, 2);
}

#[test]
fn cli_pick_word_cancel_exits_two() {
    let (_, code, _) = plain_ask("Pick", Some(r#"["a","b"]"#), "cancel\n");
    assert_eq!(code, 2);
}

#[test]
fn cli_invalid_pick_is_not_a_number() {
    let (_, code, stderr) = plain_ask("Pick", Some(r#"["a","b"]"#), "x\n");
    assert_eq!(code, 1);
    assert!(stderr.contains("is not a number"));
}

#[test]
fn cli_out_of_range_pick_is_named() {
    let (_, code, stderr) = plain_ask("Pick", Some(r#"["a","b"]"#), "99\n");
    assert_eq!(code, 1);
    assert!(stderr.contains("out of range"));
}

#[test]
fn cli_empty_options_rejected() {
    let (_, code, stderr) = plain_ask("Pick", Some("[]"), "");
    assert_eq!(code, 1);
    assert!(stderr.contains("options is empty"));
}

#[test]
fn cli_single_option_rejected_as_nothing_to_ask() {
    let (_, code, stderr) = plain_ask("Pick", Some(r#"["only"]"#), "");
    assert_eq!(code, 1);
    assert!(stderr.contains("only one option"));
}

#[test]
fn cli_ask_without_options_is_rejected() {
    let (_, code, stderr) = plain_ask("Pick", None, "");
    assert_eq!(code, 1);
    assert!(stderr.contains("an ask needs options"));
}

#[test]
fn cli_bad_options_json_rejected() {
    let (_, code, stderr) = plain_ask("Pick", Some("not json"), "");
    assert_eq!(code, 1);
    assert!(stderr.contains("not a json array"));
}

#[test]
fn cli_empty_message_rejected() {
    let (_, code, stderr) = plain_ask("", Some(r#"["a","b"]"#), "");
    assert_eq!(code, 1);
    assert!(stderr.contains("message is empty"));
}

#[test]
fn cli_no_args_no_tty_errors_with_interactive_only_message() {
    let cli = Cli {
        ask: None,
        options: None,
        module: None,
        json: false,
        interactive: false,
        progress: false,
    };
    let (route, use_json) = dispatch(&cli);
    assert_eq!(route, Route::Browse);
    assert!(!use_json);
    let err: PresentError = browse_check(false).unwrap_err();
    assert_eq!(err.exit_code(), 1);
    assert!(err.message().contains("interactive only"));
}

#[test]
fn cli_auto_pick_plain_mode_prints_choice_without_json() {
    let request = request_from_flags("Pick", Some(r#"["first","second"]"#)).unwrap();
    let auto = auto_pick_enabled(Some("1"));
    assert!(auto);
    assert_eq!(choose_source(false, false, auto, false).unwrap(), PickSource::AutoPick);
    let line = finish_pick(Some(auto_pick(&request)), false).unwrap();
    assert_eq!(format!("{line}\n"), "first\n");
}
