//! What a command line asks for.

use vstd::prelude::*;

use crate::error::{Failure, PresentError};

verus! {

/// The command line, as plain values.
#[derive(Debug)]
pub struct Cli {
    /// The message of an ask.
    pub ask: Option<String>,
    /// The options of an ask, as a JSON array.
    pub options: Option<String>,
    /// A module to open the form of.
    pub module: Option<String>,
    /// Answer in JSON.
    pub json: bool,
    /// Use the full-screen picker.
    pub interactive: bool,
    /// The `progress` subcommand.
    pub progress: bool,
}

/// What to run.
#[derive(PartialEq, Eq, Structural, Debug, Clone, Copy)]
pub enum Route {
    /// The progress strip.
    Progress,
    /// An ask given by flags.
    Ask,
    /// The form of a named module.
    Module,
    /// An ask request read from stdin.
    StdinJson,
    /// The shelf browser, or the local module's form.
    Browse,
}

/// The route of a command line: the subcommand first, then `--ask`, then
/// `--module`, then `--json` alone, else browsing.
pub open spec fn route_of(progress: bool, ask: bool, module: bool, json: bool) -> Route {
    if progress {
        Route::Progress
    } else if ask {
        Route::Ask
    } else if module {
        Route::Module
    } else if json {
        Route::StdinJson
    } else {
        Route::Browse
    }
}

/// Decides what to run, and whether failures are reported as JSON: as the
/// `--json` flag says, except that reading a request from stdin always
/// answers in JSON and browsing never does.
pub fn dispatch(cli: &Cli) -> (r: (Route, bool))
    ensures
        r.0 == route_of(cli.progress, cli.ask is Some, cli.module is Some, cli.json),
        r.1 == (match r.0 {
            Route::StdinJson => true,
            Route::Browse => false,
            _ => cli.json,
        }),
{
    if cli.progress {
        return (Route::Progress, cli.json);
    }
    if cli.ask.is_some() {
        return (Route::Ask, cli.json);
    }
    if cli.module.is_some() {
        return (Route::Module, cli.json);
    }
    if cli.json {
        return (Route::StdinJson, true);
    }
    (Route::Browse, false)
}

/// Refusal of browsing outside a terminal.
pub open spec fn interactive_only_text() -> Seq<char> {
    "interactive only. pipe a question with --json or run me in a terminal."@
}

/// Browsing needs a terminal.
pub fn browse_check(tty: bool) -> (r: Result<(), PresentError>)
    ensures
        tty <==> r is Ok,
        r matches Err(e) ==> e@ == Failure::Usage(interactive_only_text()),
{
    if tty {
        Ok(())
    } else {
        Err(
            PresentError::Usage(
                String::from_str(
                    "interactive only. pipe a question with --json or run me in a terminal.",
                ),
            ),
        )
    }
}

} // verus!
