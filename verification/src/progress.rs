//! The progress strip: which lines count, and the text of the bar.

use vstd::prelude::*;

use crate::error::{Failure, PresentError};
use crate::protocol::ProgressUpdate;
use crate::text::{decimal, push_char, push_decimal, trim, trim_str};

verus! {

/// The number of cells in the bar.
pub const BAR_WIDTH: usize = 24;

/// Refusal of `present progress` without `--json`.
pub open spec fn progress_needs_json_text() -> Seq<char> {
    "present progress needs --json. pipe {current,total,label} json lines into present progress --json"@
}

/// `present progress` speaks JSON only.
pub fn progress_mode(json: bool) -> (r: Result<(), PresentError>)
    ensures
        json <==> r is Ok,
        r matches Err(e) ==> e@ == Failure::Usage(progress_needs_json_text()),
{
    if json {
        Ok(())
    } else {
        Err(
            PresentError::Usage(
                String::from_str(
                    "present progress needs --json. pipe {current,total,label} json lines into present progress --json",
                ),
            ),
        )
    }
}

/// A line of input that carries an update: trimmed, and not blank.
pub fn update_text(line: &str) -> (r: Option<&str>)
    ensures
        match r {
            Some(t) => t@ == trim(line@) && t@.len() > 0,
            None => trim(line@).len() == 0,
        },
{
    let t = trim_str(line);
    if t.unicode_len() == 0 {
        None
    } else {
        Some(t)
    }
}

/// `n` copies of a character.
pub open spec fn cells(c: char, n: nat) -> Seq<char> {
    Seq::new(n, |i: int| c)
}

/// The label shown for an update, or `fallback` when it has none.
pub open spec fn label_or(label: Seq<char>, fallback: Seq<char>) -> Seq<char> {
    if label.len() == 0 {
        fallback
    } else {
        label
    }
}

/// The bar for an update. `filled` and `percent` are the rounded shares of
/// the bar and of a hundred that `current / total` stands for; with a zero
/// total both are zero, and the bar never has more than `BAR_WIDTH` filled
/// cells. Filled cells are `#` and the rest are blank. The line starts with a carriage return and ends by clearing the
/// rest of the terminal line.
pub open spec fn bar_spec(update: ProgressUpdate, filled: nat, percent: nat) -> Seq<char> {
    let f = if update.total == 0 {
        0
    } else if filled > 24 {
        24
    } else {
        filled
    };
    let p = if update.total == 0 {
        0
    } else {
        percent
    };
    "\r"@ + label_or(update.label@, "working"@) + " ["@ + cells('#', f) + cells(' ', (24 - f) as nat)
        + "] "@ + decimal(p) + "% ("@ + decimal(update.current as nat) + "/"@ + decimal(
        update.total as nat,
    ) + ")\u{1b}[K"@
}

/// Appends `n` copies of `c`.
fn push_cells(out: &mut String, c: char, n: usize)
    ensures
        final(out)@ == old(out)@ + cells(c, n as nat),
{
    let mut i: usize = 0;
    while i < n
        invariant
            i <= n,
            out@ == old(out)@ + cells(c, i as nat),
        decreases n - i,
    {
        push_char(out, c);
        i = i + 1;
        assert(out@ =~= old(out)@ + cells(c, i as nat));
    }
}

/// The bar for an update, from its rounded shares.
pub fn bar_line(update: &ProgressUpdate, filled: usize, percent: u64) -> (r: String)
    ensures
        r@ == bar_spec(*update, filled as nat, percent as nat),
{
    let f: usize = if update.total == 0 {
        0
    } else if filled > BAR_WIDTH {
        BAR_WIDTH
    } else {
        filled
    };
    let p: u64 = if update.total == 0 {
        0
    } else {
        percent
    };
    let mut out = String::from_str("\r");
    if update.label.unicode_len() == 0 {
        out.append("working");
    } else {
        out.append(update.label.as_str());
    }
    out.append(" [");
    push_cells(&mut out, '#', f);
    push_cells(&mut out, ' ', BAR_WIDTH - f);
    out.append("] ");
    push_decimal(&mut out, p);
    out.append("% (");
    push_decimal(&mut out, update.current);
    out.append("/");
    push_decimal(&mut out, update.total);
    out.append(")\u{1b}[K");
    out
}

/// The closing line, after the last update.
pub open spec fn final_spec(update: ProgressUpdate) -> Seq<char> {
    "\ndone: "@ + decimal(update.current as nat) + "/"@ + decimal(update.total as nat) + " ("@
        + label_or(update.label@, "completed"@) + ")"@
}

/// The closing line, after the last update.
pub fn final_line(update: &ProgressUpdate) -> (r: String)
    ensures
        r@ == final_spec(*update),
{
    let mut out = String::from_str("\ndone: ");
    push_decimal(&mut out, update.current);
    out.append("/");
    push_decimal(&mut out, update.total);
    out.append(" (");
    if update.label.unicode_len() == 0 {
        out.append("completed");
    } else {
        out.append(update.label.as_str());
    }
    out.append(")");
    out
}

/// The JSON line written when the input ends.
pub fn done_line() -> (r: String)
    ensures
        r@ == "{\"done\":true}"@,
{
    String::from_str("{\"done\":true}")
}


/// What the loop over stdin hands the progress run.
pub enum ProgressEvent {
    /// A line that holds nothing but whitespace.
    Blank,
    /// A line that is not a progress update.
    Malformed,
    /// An update, with the rounded shares of the bar and of a hundred that
    /// it stands for.
    Update { update: ProgressUpdate, filled: usize, percent: u64 },
    /// Stdin closed.
    Closed,
}

/// What the loop does after an event.
pub enum ProgressAction {
    /// Nothing.
    Nothing,
    /// Write this text to stderr as it is.
    Stderr(String),
    /// Write the closing line to stderr, if there is one, and this line to
    /// stdout, then stop.
    Finish { stderr: Option<String>, stdout: String },
}

/// The mathematical value of a progress action.
pub enum ProgressEffect {
    Nothing,
    Stderr(Seq<char>),
    Finish(Option<Seq<char>>, Seq<char>),
}

impl View for ProgressAction {
    type V = ProgressEffect;

    open spec fn view(&self) -> ProgressEffect {
        match self {
            ProgressAction::Nothing => ProgressEffect::Nothing,
            ProgressAction::Stderr(t) => ProgressEffect::Stderr(t@),
            ProgressAction::Finish { stderr, stdout } => ProgressEffect::Finish(
                match stderr {
                    Some(t) => Some(t@),
                    None => None,
                },
                stdout@,
            ),
        }
    }
}

/// The warning for a line that is not an update.
pub open spec fn skipped_text() -> Seq<char> {
    "present progress: a line was not valid json, skipped\n"@
}

/// The JSON line written when stdin closes.
pub open spec fn done_text() -> Seq<char> {
    "{\"done\":true}"@
}

/// The last update seen, and the effect of an event: blank lines do
/// nothing, a malformed line is skipped with a warning, an update draws its
/// bar and becomes the last one, and the end of stdin writes the closing
/// line of the last update, if any, and `{"done":true}` to stdout.
pub open spec fn progress_step(last: Option<ProgressUpdate>, event: ProgressEvent) -> (
    Option<ProgressUpdate>,
    ProgressEffect,
) {
    match event {
        ProgressEvent::Blank => (last, ProgressEffect::Nothing),
        ProgressEvent::Malformed => (last, ProgressEffect::Stderr(skipped_text())),
        ProgressEvent::Update { update, filled, percent } => (
            Some(update),
            ProgressEffect::Stderr(bar_spec(update, filled as nat, percent as nat)),
        ),
        ProgressEvent::Closed => (
            last,
            ProgressEffect::Finish(
                match last {
                    Some(u) => Some(final_spec(u)),
                    None => None,
                },
                done_text(),
            ),
        ),
    }
}

/// The lines that a run writes to stdout over a sequence of events.
pub open spec fn progress_stdout(last: Option<ProgressUpdate>, events: Seq<ProgressEvent>) -> Seq<
    Seq<char>,
>
    decreases events.len(),
{
    if events.len() == 0 {
        Seq::<Seq<char>>::empty()
    } else {
        let next = progress_step(last, events[0]);
        let here = match next.1 {
            ProgressEffect::Finish(_, out) => seq![out],
            _ => Seq::<Seq<char>>::empty(),
        };
        here + progress_stdout(next.0, events.drop_first())
    }
}

/// A progress run: the last update seen.
pub struct ProgressRun {
    pub last: Option<ProgressUpdate>,
}

impl ProgressRun {
    /// A run that has seen no update.
    pub fn new() -> (r: ProgressRun)
        ensures
            r.last is None,
    {
        ProgressRun { last: None }
    }

    /// Handles one event.
    pub fn step(&mut self, event: ProgressEvent) -> (action: ProgressAction)
        ensures
            (final(self).last, action@) == progress_step(old(self).last, event),
    {
        match event {
            ProgressEvent::Blank => ProgressAction::Nothing,
            ProgressEvent::Malformed => ProgressAction::Stderr(
                String::from_str("present progress: a line was not valid json, skipped\n"),
            ),
            ProgressEvent::Update { update, filled, percent } => {
                let line = bar_line(&update, filled, percent);
                self.last = Some(update);
                ProgressAction::Stderr(line)
            },
            ProgressEvent::Closed => {
                let closing = match &self.last {
                    Some(u) => Some(final_line(u)),
                    None => None,
                };
                ProgressAction::Finish { stderr: closing, stdout: done_line() }
            },
        }
    }
}

/// Whatever stdin holds, a run writes exactly one line to stdout,
/// `{"done":true}`, and writes it when stdin closes.
pub proof fn lemma_done_once(last: Option<ProgressUpdate>, lines: Seq<ProgressEvent>)
    requires
        forall|k: int| 0 <= k < lines.len() ==> !(#[trigger] lines[k] is Closed),
    ensures
        progress_stdout(last, lines.push(ProgressEvent::Closed)) == seq![done_text()],
    decreases lines.len(),
{
    let events = lines.push(ProgressEvent::Closed);
    if lines.len() == 0 {
        assert(events.drop_first() =~= Seq::<ProgressEvent>::empty());
        assert(events[0] is Closed);
        let next = progress_step(last, events[0]);
        assert(next.1 matches ProgressEffect::Finish(_, out) && out == done_text());
        assert(progress_stdout(next.0, events.drop_first()) =~= Seq::<Seq<char>>::empty());
        assert(seq![done_text()] + Seq::<Seq<char>>::empty() =~= seq![done_text()]);
    } else {
        let rest = lines.drop_first();
        assert forall|k: int| 0 <= k < rest.len() implies !(#[trigger] rest[k] is Closed) by {
            assert(rest[k] == lines[k + 1]);
        }
        assert(events.drop_first() =~= rest.push(ProgressEvent::Closed));
        assert(!(lines[0] is Closed));
        assert(events[0] == lines[0]);
        let next = progress_step(last, events[0]);
        assert(!(next.1 is Finish));
        lemma_done_once(next.0, rest);
        assert(Seq::<Seq<char>>::empty() + seq![done_text()] =~= seq![done_text()]);
    }
}

} // verus!
