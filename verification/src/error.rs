//! The three ways a run can fail, with their codes, messages and exit codes.

use vstd::prelude::*;

use crate::json::{json_string, lemma_json_string_one_line, lemma_one_line_concat, one_line, quote_json};

verus! {

/// A failed run: a usage mistake, bad input, or a pick the human cancelled.
#[derive(Debug)]
pub enum PresentError {
    Usage(String),
    Bad(String),
    Cancelled,
}

/// The mathematical value of a `PresentError`.
pub enum Failure {
    Usage(Seq<char>),
    Bad(Seq<char>),
    Cancelled,
}

impl View for PresentError {
    type V = Failure;

    open spec fn view(&self) -> Failure {
        match self {
            PresentError::Usage(m) => Failure::Usage(m@),
            PresentError::Bad(m) => Failure::Bad(m@),
            PresentError::Cancelled => Failure::Cancelled,
        }
    }
}

/// The machine-readable code of a failure.
pub open spec fn code_of(f: Failure) -> Seq<char> {
    match f {
        Failure::Usage(_) => "usage"@,
        Failure::Bad(_) => "bad-input"@,
        Failure::Cancelled => "cancelled"@,
    }
}

/// The human-readable message of a failure.
pub open spec fn message_of(f: Failure) -> Seq<char> {
    match f {
        Failure::Usage(m) => m,
        Failure::Bad(m) => m,
        Failure::Cancelled => "cancelled"@,
    }
}

/// The process exit code of a failure: 1 for usage and bad input, 2 for a
/// cancelled pick.
pub open spec fn exit_code_of(f: Failure) -> i32 {
    match f {
        Failure::Cancelled => 2,
        _ => 1,
    }
}

/// The JSON line that answers a cancelled pick.
pub open spec fn cancelled_json() -> Seq<char> {
    "{\"choice\":null,\"cancelled\":true}"@
}

/// The JSON line that reports a failure in `--json` mode.
pub open spec fn failure_json(f: Failure) -> Seq<char> {
    match f {
        Failure::Cancelled => cancelled_json(),
        _ => "{\"error\":"@ + json_string(message_of(f)) + ",\"code\":"@ + json_string(code_of(f))
            + "}"@,
    }
}

impl PresentError {
    /// The machine-readable code: `usage`, `bad-input` or `cancelled`.
    pub fn code(&self) -> (r: &'static str)
        ensures
            r@ == code_of(self@),
    {
        match self {
            PresentError::Usage(_) => "usage",
            PresentError::Bad(_) => "bad-input",
            PresentError::Cancelled => "cancelled",
        }
    }

    /// The message shown to the human.
    pub fn message(&self) -> (r: String)
        ensures
            r@ == message_of(self@),
    {
        match self {
            PresentError::Usage(m) => m.clone(),
            PresentError::Bad(m) => m.clone(),
            PresentError::Cancelled => String::from_str("cancelled"),
        }
    }

    /// The exit code of the process.
    pub fn exit_code(&self) -> (r: i32)
        ensures
            r == exit_code_of(self@),
    {
        match self {
            PresentError::Usage(_) => 1,
            PresentError::Bad(_) => 1,
            PresentError::Cancelled => 2,
        }
    }

    /// The line written to stdout for this failure in `--json` mode.
    pub fn json_line(&self) -> (r: String)
        ensures
            r@ == failure_json(self@),
    {
        match self {
            PresentError::Cancelled => String::from_str("{\"choice\":null,\"cancelled\":true}"),
            _ => {
                let m = self.message();
                let c = self.code();
                let mut out = String::from_str("{\"error\":");
                out.append(quote_json(m.as_str()).as_str());
                out.append(",\"code\":");
                out.append(quote_json(c).as_str());
                out.append("}");
                out
            },
        }
    }
}


/// Every failure reported in `--json` mode is exactly one line, whatever its
/// message holds.
pub proof fn lemma_failure_one_line(f: Failure)
    ensures
        one_line(failure_json(f)),
{
    reveal_strlit("{\"choice\":null,\"cancelled\":true}");
    reveal_strlit("{\"error\":");
    reveal_strlit(",\"code\":");
    reveal_strlit("}");
    match f {
        Failure::Cancelled => {
            assert(one_line(cancelled_json()));
        },
        _ => {
            let a = "{\"error\":"@;
            let b = ",\"code\":"@;
            let c = "}"@;
            assert(one_line(a));
            assert(one_line(b));
            assert(one_line(c));
            let m = json_string(message_of(f));
            let k = json_string(code_of(f));
            lemma_json_string_one_line(message_of(f));
            lemma_json_string_one_line(code_of(f));
            lemma_one_line_concat(a, m);
            lemma_one_line_concat(a + m, b);
            lemma_one_line_concat(a + m + b, k);
            lemma_one_line_concat(a + m + b + k, c);
        },
    }
}

} // verus!
