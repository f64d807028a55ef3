use present::ask::{
    auto_pick_enabled, choose_source, finish_pick, invalid_request_error, parse_pick,
    prompt_text, request_from_flags, validate, PickSource,
};
use present::error::PresentError;
use present::form::{confirm_run, field_prompt, form_from_tokens, tokenize_cli, ParamForm};
use present::protocol::{AskRequest, AskResponse, ModuleEntry, ModuleManifest, Shelf, ShelfModule};
use present::shelf::{find_by_name, header_text, module_named, module_with_id, search_output};
use present::text::{
    before_first, contains_str, decimal_string, equals_ignore_ascii_case, find_str, join_strings,
    parse_usize, split_char, trim_str,
};
use present::tui::{
    browser_check, confirmed_option, filter_modules, picker_check, Browser, BrowserStep, Key,
    Picker, PickerStep,
};

fn strings(items: &[&str]) -> Vec<String> {
    items.iter().map(|s| s.to_string()).collect()
}

fn request(options: &[&str], multiple: bool) -> AskRequest {
    AskRequest { message: "Pick".to_string(), options: strings(options), multiple }
}

fn module(id: &str, name: &str, description: &str, tags: &[&str], cli: Option<&str>) -> ShelfModule {
    ShelfModule {
        id: id.to_string(),
        name: name.to_string(),
        description: description.to_string(),
        input: String::new(),
        output: String::new(),
        tags: strings(tags),
        entry: ModuleEntry { cli: cli.map(|s| s.to_string()) },
    }
}

#[test]
fn trim_removes_unicode_whitespace() {
    assert_eq!(trim_str("  a b \t\n"), "a b");
    assert_eq!(trim_str("\u{3000}x\u{a0}"), "x");
    assert_eq!(trim_str(" \t "), "");
}

#[test]
fn parse_usize_follows_from_str() {
    assert_eq!(parse_usize("42"), Some(42));
    assert_eq!(parse_usize("+7"), Some(7));
    assert_eq!(parse_usize("007"), Some(7));
    assert_eq!(parse_usize(""), None);
    assert_eq!(parse_usize("+"), None);
    assert_eq!(parse_usize("-1"), None);
    assert_eq!(parse_usize("1a"), None);
    assert_eq!(parse_usize("99999999999999999999999"), None);
    assert_eq!(parse_usize(&usize::MAX.to_string()), Some(usize::MAX));
}

#[test]
fn decimal_round_trips_through_parse() {
    for n in [0u64, 1, 9, 10, 99, 100, 12345, u32::MAX as u64] {
        let s = decimal_string(n);
        assert_eq!(s, n.to_string());
        assert_eq!(parse_usize(&s), Some(n as usize));
    }
}

#[test]
fn text_search_and_split() {
    assert_eq!(find_str("abcabc", "ca"), Some(2));
    assert_eq!(find_str("abc", "x"), None);
    assert_eq!(find_str("abc", ""), Some(0));
    assert!(contains_str("hello world", "o w"));
    assert!(!contains_str("hi", "hii"));
    assert!(equals_ignore_ascii_case("CaNcEl", "cancel"));
    assert!(!equals_ignore_ascii_case("cancels", "cancel"));
    assert_eq!(split_char("1,,2,", ','), strings(&["1", "", "2", ""]));
    assert_eq!(split_char("", ','), strings(&[""]));
    assert_eq!(join_strings(&strings(&["a", "b", "c"]), ", "), "a, b, c");
    assert_eq!(before_first("bad thing at line 3 column 1", " at line "), "bad thing");
    assert_eq!(before_first("no position", " at line "), "no position");
}

#[test]
fn error_codes_messages_and_exit_codes() {
    let usage = PresentError::Usage("u".to_string());
    let bad = PresentError::Bad("b".to_string());
    let cancelled = PresentError::Cancelled;
    assert_eq!((usage.code(), usage.message(), usage.exit_code()), ("usage", "u".to_string(), 1));
    assert_eq!((bad.code(), bad.message(), bad.exit_code()), ("bad-input", "b".to_string(), 1));
    assert_eq!(
        (cancelled.code(), cancelled.message(), cancelled.exit_code()),
        ("cancelled", "cancelled".to_string(), 2)
    );
    assert_eq!(cancelled.json_line(), r#"{"choice":null,"cancelled":true}"#);
    assert_eq!(bad.json_line(), r#"{"error":"b","code":"bad-input"}"#);
}

#[test]
fn error_json_escapes_the_message() {
    let err = PresentError::Bad("say \"hi\"\\\n\u{1}é".to_string());
    assert_eq!(err.json_line(), "{\"error\":\"say \\\"hi\\\"\\\\\\n\\u0001é\",\"code\":\"bad-input\"}");
}

#[test]
fn response_json_shapes() {
    assert_eq!(AskResponse::selected(strings(&["a"])).json_line(), r#"{"choice":"a"}"#);
    assert_eq!(AskResponse::selected(strings(&["a", "b"])).json_line(), r#"{"choice":["a","b"]}"#);
    assert_eq!(AskResponse::cancelled().json_line(), r#"{"choice":null,"cancelled":true}"#);
}

#[test]
fn validate_checks_message_then_options() {
    let err = validate("  ", &strings(&[]), false).unwrap_err();
    assert!(err.message().contains("message is empty"));
    let err = validate("Pick", &strings(&[]), false).unwrap_err();
    assert!(err.message().contains("options is empty"));
    let err = validate("Pick", &strings(&["a"]), false).unwrap_err();
    assert!(err.message().contains("only one option"));
    assert_eq!(err.code(), "usage");
    let ok = validate("Pick", &strings(&["a", "b"]), true).unwrap();
    assert_eq!(ok.options, strings(&["a", "b"]));
    assert!(ok.multiple);
}

#[test]
fn pick_messages_name_the_bad_input() {
    let req = request(&["a", "b"], false);
    let err = parse_pick(&req, "x").unwrap_err();
    assert_eq!(err.message(), "\"x\" is not a number, enter a digit between 1 and 2");
    let err = parse_pick(&req, "99").unwrap_err();
    assert_eq!(err.message(), "99 is out of range, pick between 1 and 2");
    assert_eq!(err.code(), "bad-input");
    assert_eq!(parse_pick(&req, "CANCEL").unwrap(), None);
}

#[test]
fn multiple_picks_follow_the_commas() {
    let req = request(&["a", "b", "c"], true);
    assert_eq!(parse_pick(&req, "3, 1,,2").unwrap(), Some(strings(&["c", "a", "b"])));
    assert_eq!(parse_pick(&req, " , ,").unwrap(), None);
    let err = parse_pick(&req, "1,0,x").unwrap_err();
    assert_eq!(err.message(), "0 is out of range, pick between 1 and 3");
    let err = parse_pick(&req, "1,x,9").unwrap_err();
    assert!(err.message().starts_with("\"x\" is not a number"));
}

#[test]
fn listed_numbers_pick_their_option() {
    let req = request(&["red", "green", "blue"], false);
    let prompt = prompt_text(&req);
    assert_eq!(prompt, "Pick\n  (1) red\n  (2) green\n  (3) blue\npick one by number. 0 or empty cancels\n");
    for (i, opt) in req.options.iter().enumerate() {
        let answer = decimal_string((i + 1) as u64);
        assert_eq!(parse_pick(&req, &answer).unwrap(), Some(vec![opt.clone()]));
    }
    let multi = request(&["x", "y"], true);
    assert!(prompt_text(&multi).ends_with("pick one or more by number, comma-separated. 0 or empty cancels\n"));
}

#[test]
fn auto_pick_switch_and_sources() {
    assert!(auto_pick_enabled(Some("1")));
    assert!(auto_pick_enabled(Some("yes")));
    assert!(!auto_pick_enabled(Some("0")));
    assert!(!auto_pick_enabled(Some("false")));
    assert!(auto_pick_enabled(Some("FALSE")));
    assert!(auto_pick_enabled(Some(" 0 ")));
    assert!(!auto_pick_enabled(None));
    assert_eq!(choose_source(false, true, false, true).unwrap(), PickSource::Picker);
    assert_eq!(choose_source(false, false, false, false).unwrap(), PickSource::StdinPrompt);
    assert_eq!(choose_source(true, true, true, true).unwrap(), PickSource::Picker);
    assert!(choose_source(false, true, true, false).is_err());
    let err = choose_source(false, true, false, false).unwrap_err();
    assert!(err.message().contains("--interactive needs a terminal"));
    assert_eq!(finish_pick(Some(strings(&["a", "b"])), false).unwrap(), "a,b");
    assert_eq!(finish_pick(None, true).unwrap_err().exit_code(), 2);
}

#[test]
fn request_error_keeps_the_reason_and_line() {
    let err = invalid_request_error("expected value at line 1 column 2", 0);
    assert_eq!(err.message(), "stdin is not a valid ask request: expected value. line 1");
    let err = invalid_request_error("trailing", 4);
    assert_eq!(err.message(), "stdin is not a valid ask request: trailing. line 4");
    let err = request_from_flags("Pick", Some("[1]")).unwrap_err();
    assert!(err.message().contains("expected a string"));
}

#[test]
fn tokenizer_respects_quotes() {
    assert_eq!(tokenize_cli("python3 run.py --in 'a b' \"c d\""), strings(&["python3", "run.py", "--in", "a b", "c d"]));
    assert_eq!(tokenize_cli("  a\t\tb  "), strings(&["a", "b"]));
    assert_eq!(tokenize_cli("x 'it\"s'"), strings(&["x", "it\"s"]));
    assert_eq!(tokenize_cli("\"\""), Vec::<String>::new());
    assert_eq!(tokenize_cli(""), Vec::<String>::new());
}

#[test]
fn fresh_form_runs_its_command_line() {
    let tokens = strings(&["tool", "--flag", "value"]);
    let form = form_from_tokens(&tokens);
    assert_eq!(form.program, "tool");
    assert_eq!(form.fields.len(), 2);
    assert_eq!(form.fields[0].label, "arg 1");
    assert_eq!(form.fields[1].label, "arg 2");
    assert_eq!(form.fields[1].default, "value");
    assert_eq!(form.command_string(), "tool --flag value");
    assert_eq!(tokenize_cli(&form.command_string()), tokens);
    assert_eq!(field_prompt(&form.fields[0]), "  arg 1 [--flag]: ");
}

#[test]
fn form_from_module_and_manifest() {
    let m = module("me/tool", "tool", "", &[], Some("  run 'x y'  "));
    let form = ParamForm::from_module(&m).unwrap();
    assert_eq!(form.command_string(), "run x y");
    assert_eq!(form.fields.len(), 1);
    let none = module("me/none", "none", "", &[], None);
    let err = ParamForm::from_module(&none).unwrap_err();
    assert_eq!(err.message(), "no entry point for none. run sheol check me/none");
    assert_eq!(err.exit_code(), 1);
    let quotes = module("me/q", "q", "", &[], Some("''"));
    assert!(ParamForm::from_module(&quotes).is_err());
    let manifest = ModuleManifest {
        name: "local".to_string(),
        description: String::new(),
        input: String::new(),
        output: String::new(),
        entry: ModuleEntry { cli: Some("   ".to_string()) },
    };
    let err = ParamForm::from_manifest(&manifest).unwrap_err();
    assert_eq!(err.message(), "no entry point for local. run sheol check local");
}

#[test]
fn filling_fields_keeps_defaults_on_blank_answers() {
    let mut form = form_from_tokens(&strings(&["tool", "a", "b"]));
    form.fill_field(0, "  \n");
    form.fill_field(1, " new value \n");
    assert_eq!(form.fields[0].value, "a");
    assert_eq!(form.fields[1].value, "new value");
    assert_eq!(form.fields[1].default, "b");
    assert_eq!(form.command_string(), "tool a new value");
    assert!(confirm_run("\n").unwrap_err().exit_code() == 2);
    assert!(confirm_run("y\n").is_ok());
}

#[test]
fn modules_are_found_exact_first() {
    let shelf = Shelf {
        modules: vec![
            module("acme/thumbnailer", "thumbnailer", "makes thumbs", &["image"], None),
            module("acme/thumb", "Thumb", "", &[], None),
        ],
    };
    assert_eq!(find_by_name(&shelf, "thumb").unwrap().id, "acme/thumbnailer");
    assert_eq!(find_by_name(&shelf, "Thumb").unwrap().id, "acme/thumb");
    assert_eq!(find_by_name(&shelf, "acme/thumb").unwrap().id, "acme/thumb");
    assert_eq!(find_by_name(&shelf, "THUMBNAILER").unwrap().id, "acme/thumbnailer");
    assert!(find_by_name(&shelf, "zzz").is_none());
    let err = module_named(&shelf, "zzz").unwrap_err();
    assert_eq!(err.message(), "no module named \"zzz\" on the shelf. run sheol search to see what is there");
    assert_eq!(module_with_id(&shelf, "acme/thumb").unwrap().name, "Thumb");
    assert_eq!(module_with_id(&shelf, "x").unwrap_err().message(), "picked x but could not find it");
}

#[test]
fn filter_matches_any_field_in_lower_case() {
    let mods = vec![
        module("a/one", "One", "First Module", &[], None),
        module("b/two", "two", "", &["Video"], None),
        module("c/three", "three", "", &[], None),
    ];
    assert_eq!(filter_modules(&mods, ""), vec![0, 1, 2]);
    assert_eq!(filter_modules(&mods, "FIRST"), vec![0]);
    assert_eq!(filter_modules(&mods, "vid"), vec![1]);
    assert_eq!(filter_modules(&mods, "t"), vec![0, 1, 2]);
    assert_eq!(filter_modules(&mods, "zz"), Vec::<usize>::new());
}

#[test]
fn picker_moves_and_wraps() {
    let mut p = Picker::new(3);
    assert_eq!(p.handle(Key::Up), PickerStep::Continue);
    assert_eq!(p.selected, 2);
    assert_eq!(p.handle(Key::Down), PickerStep::Continue);
    assert_eq!(p.selected, 0);
    assert_eq!(p.handle(Key::Char('j')), PickerStep::Continue);
    assert_eq!(p.handle(Key::Char('k')), PickerStep::Continue);
    assert_eq!(p.selected, 0);
    assert_eq!(p.handle(Key::Char('x')), PickerStep::Continue);
    assert_eq!(p.handle(Key::Enter), PickerStep::Confirmed(0));
    assert_eq!(p.handle(Key::Esc), PickerStep::Cancelled);
}

#[test]
fn browser_filters_moves_and_picks() {
    let mods = vec![
        module("a/one", "one", "", &[], None),
        module("b/two", "two", "", &[], None),
    ];
    let mut b = Browser::new();
    // Each key is handled against the filter of the current query, as the loop does.
    let mut press = |b: &mut Browser, key: Key| {
        let listed = filter_modules(&mods, &b.query);
        b.settle(listed.len());
        b.handle(key, &listed, &mods)
    };
    assert!(matches!(press(&mut b, Key::Down), BrowserStep::Continue));
    assert_eq!(b.selected, Some(1));
    assert!(matches!(press(&mut b, Key::Char('j')), BrowserStep::Continue));
    assert_eq!(b.selected, Some(0));
    assert!(matches!(press(&mut b, Key::Char('w')), BrowserStep::Continue));
    assert_eq!(b.query, "w");
    assert!(matches!(press(&mut b, Key::Char('\u{7}')), BrowserStep::Continue));
    assert_eq!(b.query, "w");
    assert_eq!(filter_modules(&mods, &b.query), vec![1]);
    match press(&mut b, Key::Enter) {
        BrowserStep::Finished(Some(id)) => assert_eq!(id, "b/two"),
        _ => panic!("expected a pick"),
    }
    assert!(matches!(press(&mut b, Key::Backspace), BrowserStep::Continue));
    assert_eq!(b.query, "");
    for c in ['z', 'z'] {
        assert!(matches!(press(&mut b, Key::Char(c)), BrowserStep::Continue));
    }
    assert!(matches!(press(&mut b, Key::Enter), BrowserStep::Continue));
    assert_eq!(b.selected, None);
    assert!(matches!(press(&mut b, Key::Esc), BrowserStep::Cancelled));
}

#[test]
fn search_output_reads_sheol() {
    let err = search_output(false, b"", b"  boom \n").unwrap_err();
    assert_eq!(err.message(), "sheol search failed: boom");
    let err = search_output(false, b"", b"").unwrap_err();
    assert_eq!(err.message(), "sheol search failed: unknown error");
    let err = search_output(true, b" \n", b"").unwrap_err();
    assert!(err.message().contains("returned nothing"));
    assert_eq!(search_output(true, b" {\"modules\":[]}\n", b"").unwrap(), "{\"modules\":[]}");
    assert_eq!(search_output(true, b"\xffok", b"").unwrap(), "\u{fffd}ok");
}

#[test]
fn header_lists_what_is_given() {
    assert_eq!(header_text("n", "d", "", ""), "n\nd\n\n");
    assert_eq!(header_text("n", "d", "i", "o"), "n\nd\ninput:  i\noutput: o\n\n");
}

#[test]
fn json_answers_are_one_line() {
    let picked = AskResponse::selected(strings(&["line one\nline two", "x\r\n"])).json_line();
    assert!(!picked.contains('\n'));
    assert_eq!(picked, r#"{"choice":["line one\nline two","x\r\n"]}"#);
    let failure = PresentError::Usage("two\nlines".to_string()).json_line();
    assert!(!failure.contains('\n'));
    assert_eq!(failure, r#"{"error":"two\nlines","code":"usage"}"#);
}

#[test]
fn tokens_are_never_empty() {
    for line in ["''  \"\" a", "\t\t", "x '' y", "'a b'c d"] {
        for token in tokenize_cli(line) {
            assert!(!token.is_empty());
        }
    }
    assert_eq!(tokenize_cli("'a b'c d"), strings(&["a bc", "d"]));
}

#[test]
fn terminal_checks_come_first() {
    assert!(picker_check(true).is_ok());
    assert!(picker_check(false).unwrap_err().message().contains("needs a terminal"));
    assert!(browser_check(true, 2).is_ok());
    assert!(browser_check(false, 0).unwrap_err().message().contains("needs a terminal"));
    assert!(browser_check(true, 0).unwrap_err().message().contains("the shelf is empty"));
    let req = request(&["a", "b"], false);
    assert_eq!(confirmed_option(&req, 1), Some("b".to_string()));
    assert_eq!(confirmed_option(&req, 2), None);
}

#[test]
fn picker_sessions_confirm_the_moved_row() {
    fn session(count: usize, keys: &[Key]) -> Option<usize> {
        let mut p = Picker::new(count);
        for &k in keys {
            match p.handle(k) {
                PickerStep::Continue => {}
                PickerStep::Cancelled => return None,
                PickerStep::Confirmed(row) => return Some(row),
            }
        }
        None
    }
    let req = request(&["a", "b", "c"], false);
    let row = session(3, &[Key::Up, Key::Enter]).unwrap();
    assert_eq!(confirmed_option(&req, row), Some("c".to_string()));
    assert_eq!(session(3, &[Key::Enter]), Some(0));
    assert_eq!(session(3, &[Key::Down, Key::Char('x'), Key::Char('j'), Key::Down, Key::Down, Key::Enter]), Some(1));
    assert_eq!(session(3, &[Key::Down, Key::Esc, Key::Enter]), None);
}

#[test]
fn quote_free_lines_split_on_blanks() {
    let line = " a\tbb  c\t\t d ";
    let expected: Vec<String> = line
        .split(|c| c == ' ' || c == '\t')
        .filter(|t| !t.is_empty())
        .map(String::from)
        .collect();
    assert_eq!(tokenize_cli(line), expected);
}

#[test]
fn longer_filters_list_fewer_modules() {
    let mods = vec![
        module("a/image-tool", "Image Tool", "", &[], None),
        module("b/imagery", "imagery", "", &["maps"], None),
        module("c/audio", "audio", "", &[], None),
    ];
    let short = filter_modules(&mods, "im");
    let long = filter_modules(&mods, "IMAGE-");
    assert_eq!(short, vec![0, 1]);
    assert_eq!(long, vec![0]);
    assert!(long.iter().all(|i| short.contains(i)));
    assert_eq!(filter_modules(&mods, "image-"), long);
    assert_eq!(filter_modules(&mods, "iMaGe-"), long);
    assert_eq!(filter_modules(&mods, "MAPS"), vec![1]);
}
