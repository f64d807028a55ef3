use present::error::PresentError;
use present::progress::{
    bar_line, final_line, progress_mode, update_text, ProgressAction, ProgressEvent, ProgressRun,
};
use present::protocol::ProgressUpdate;

fn update(current: u64, total: u64, label: &str) -> ProgressUpdate {
    ProgressUpdate { current, total, label: label.to_string() }
}

/// Reads one line the way the binary does: `current` and `total` are
/// required numbers, `label` an optional string.
fn parse(text: &str) -> Option<ProgressUpdate> {
    let v: serde_json::Value = serde_json::from_str(text).ok()?;
    let obj = v.as_object()?;
    let current = obj.get("current")?.as_u64()?;
    let total = obj.get("total")?.as_u64()?;
    let label = match obj.get("label") {
        None => String::new(),
        Some(l) => l.as_str()?.to_string(),
    };
    Some(ProgressUpdate { current, total, label })
}

/// Runs `present progress` over the given stdin: its stdout and stderr.
fn run_progress(stdin: &str, json: bool) -> Result<(String, String), PresentError> {
    progress_mode(json)?;
    let mut run = ProgressRun::new();
    let mut out = String::new();
    let mut err = String::new();
    let mut events: Vec<ProgressEvent> = stdin
        .lines()
        .map(|line| match update_text(line) {
            None => ProgressEvent::Blank,
            Some(text) => match parse(text) {
                Some(u) => {
                    let (filled, percent) = if u.total == 0 {
                        (0, 0)
                    } else {
                        let r = u.current as f64 / u.total as f64;
                        ((r * 24.0).round() as usize, (r * 100.0).round() as u64)
                    };
                    ProgressEvent::Update { update: u, filled, percent }
                }
                None => ProgressEvent::Malformed,
            },
        })
        .collect();
    events.push(ProgressEvent::Closed);
    for event in events {
        match run.step(event) {
            ProgressAction::Nothing => {}
            ProgressAction::Stderr(t) => err.push_str(&t),
            ProgressAction::Finish { stderr, stdout } => {
                if let Some(t) = stderr {
                    err.push_str(&t);
                    err.push('\n');
                }
                out.push_str(&stdout);
                out.push('\n');
            }
        }
    }
    Ok((out, err))
}

#[test]
fn progress_happy_path_exits_zero_and_writes_done() {
    let (out, err) = run_progress(
        "{\"current\":1,\"total\":3,\"label\":\"a\"}\n\
             {\"current\":2,\"total\":3,\"label\":\"b\"}\n\
             {\"current\":3,\"total\":3,\"label\":\"c\"}\n",
        true,
    )
    .unwrap();
    assert!(out.contains(r#""done":true"#));
    assert_eq!(out, "{\"done\":true}\n");
    assert!(err.starts_with("\ra [########                ] 33% (1/3)\u{1b}[K"));
    assert!(err.ends_with("\ndone: 3/3 (c)\n"));
}

#[test]
fn progress_empty_stdin_still_exits_zero() {
    let (out, err) = run_progress("", true).unwrap();
    assert_eq!(out, "{\"done\":true}\n");
    assert!(err.is_empty());
}

#[test]
fn progress_malformed_line_is_skipped_not_fatal() {
    let (out, err) = run_progress(
        "not json\n\
             {\"current\":1,\"total\":2,\"label\":\"ok\"}\n",
        true,
    )
    .unwrap();
    assert!(err.contains("skipped"));
    assert!(out.contains(r#""done":true"#));
}

#[test]
fn progress_without_json_flag_is_rejected() {
    let err = run_progress("", false).unwrap_err();
    assert_eq!(err.exit_code(), 1);
    assert!(err.message().contains("needs --json"));
}

#[test]
fn progress_total_zero_does_not_crash() {
    let (out, err) =
        run_progress("{\"current\":0,\"total\":0,\"label\":\"nothing\"}\n", true).unwrap();
    assert_eq!(out, "{\"done\":true}\n");
    assert!(err.starts_with("\rnothing [                        ] 0% (0/0)\u{1b}[K"));
    let u = update(0, 0, "nothing");
    assert_eq!(bar_line(&u, 5, 70), "\rnothing [                        ] 0% (0/0)\u{1b}[K");
}

#[test]
fn progress_label_optional() {
    let (out, err) = run_progress("{\"current\":1,\"total\":2}\n", true).unwrap();
    assert_eq!(out, "{\"done\":true}\n");
    assert!(err.starts_with("\rworking [############            ] 50% (1/2)"));
    assert!(final_line(&update(1, 2, "")).ends_with("(completed)"));
}
