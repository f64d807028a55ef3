//! The values that cross the process boundary: ask requests and answers,
//! progress updates, and the modules on the shelf.

use vstd::prelude::*;

use crate::json::{json_string, lemma_json_string_one_line, lemma_one_line_concat, one_line, quote_json};
use crate::text::{blank, join, lemma_trim_empty_iff_blank, trim_str};

verus! {

/// A question for the human: the message, the options to pick from, and
/// whether more than one option may be picked.
#[derive(Debug)]
pub struct AskRequest {
    pub message: String,
    pub options: Vec<String>,
    pub multiple: bool,
}

/// The answer to an ask request.
#[derive(Debug)]
pub enum AskResponse {
    Selected { selected: Vec<String> },
    Cancelled { cancelled: bool },
}

/// One line of the progress protocol.
#[derive(Debug)]
pub struct ProgressUpdate {
    pub current: u64,
    pub total: u64,
    pub label: String,
}

/// How a module is started.
#[derive(Debug)]
pub struct ModuleEntry {
    pub cli: Option<String>,
}

/// A module as the shelf lists it.
#[derive(Debug)]
pub struct ShelfModule {
    pub id: String,
    pub name: String,
    pub description: String,
    pub input: String,
    pub output: String,
    pub tags: Vec<String>,
    pub entry: ModuleEntry,
}

/// A module's own manifest, read from the current directory.
#[derive(Debug)]
pub struct ModuleManifest {
    pub name: String,
    pub description: String,
    pub input: String,
    pub output: String,
    pub entry: ModuleEntry,
}

/// Every module on the shelf.
#[derive(Debug)]
pub struct Shelf {
    pub modules: Vec<ShelfModule>,
}

/// Refusal of a message that holds nothing but whitespace.
pub open spec fn empty_message_text() -> Seq<char> {
    "message is empty, present needs something to ask"@
}

/// Refusal of an empty option list.
pub open spec fn no_options_text() -> Seq<char> {
    "options is empty, present needs at least two to ask"@
}

/// Refusal of a single option.
pub open spec fn one_option_text() -> Seq<char> {
    "only one option was given, nothing to ask. pass it through or add another"@
}

/// Checks the message of an ask request: it must hold something besides
/// whitespace.
pub fn check_message(raw: &str) -> (r: Result<(), String>)
    ensures
        match r {
            Ok(()) => !blank(raw@),
            Err(m) => blank(raw@) && m@ == empty_message_text(),
        },
{
    proof {
        lemma_trim_empty_iff_blank(raw@);
    }
    if trim_str(raw).unicode_len() == 0 {
        Err(String::from_str("message is empty, present needs something to ask"))
    } else {
        Ok(())
    }
}

/// Checks the options of an ask request: there must be at least two.
pub fn check_options(raw: &Vec<String>) -> (r: Result<(), String>)
    ensures
        match r {
            Ok(()) => raw@.len() >= 2,
            Err(m) => (raw@.len() == 0 && m@ == no_options_text()) || (raw@.len() == 1 && m@
                == one_option_text()),
        },
{
    if raw.len() == 0 {
        Err(String::from_str("options is empty, present needs at least two to ask"))
    } else if raw.len() == 1 {
        Err(
            String::from_str(
                "only one option was given, nothing to ask. pass it through or add another",
            ),
        )
    } else {
        Ok(())
    }
}

/// The JSON array of the given strings.
pub open spec fn json_array(items: Seq<Seq<char>>) -> Seq<char> {
    "["@ + join(items.map_values(|s: Seq<char>| json_string(s)), ","@) + "]"@
}

/// The JSON line of an answer: one pick as a string, several as an array,
/// a cancelled pick with a null choice.
pub open spec fn response_json(r: AskResponse) -> Seq<char> {
    match r {
        AskResponse::Selected { selected } => if selected@.len() == 1 {
            "{\"choice\":"@ + json_string(selected@[0]@) + "}"@
        } else {
            "{\"choice\":"@ + json_array(selected.deep_view()) + "}"@
        },
        AskResponse::Cancelled { cancelled } => if cancelled {
            "{\"choice\":null,\"cancelled\":true}"@
        } else {
            "{\"choice\":null,\"cancelled\":false}"@
        },
    }
}

impl AskResponse {
    /// The answer that carries the picked options.
    pub fn selected(items: Vec<String>) -> (r: Self)
        ensures
            r == (AskResponse::Selected { selected: items }),
    {
        AskResponse::Selected { selected: items }
    }

    /// The answer to a cancelled pick.
    pub fn cancelled() -> (r: Self)
        ensures
            r == (AskResponse::Cancelled { cancelled: true }),
    {
        AskResponse::Cancelled { cancelled: true }
    }

    /// The JSON line that carries this answer.
    pub fn json_line(&self) -> (r: String)
        ensures
            r@ == response_json(*self),
    {
        match self {
            AskResponse::Selected { selected } => {
                let mut out = String::from_str("{\"choice\":");
                if selected.len() == 1 {
                    out.append(quote_json(selected[0].as_str()).as_str());
                } else {
                    out.append(json_array_text(selected).as_str());
                }
                out.append("}");
                out
            },
            AskResponse::Cancelled { cancelled } => {
                if *cancelled {
                    String::from_str("{\"choice\":null,\"cancelled\":true}")
                } else {
                    String::from_str("{\"choice\":null,\"cancelled\":false}")
                }
            },
        }
    }
}

/// The JSON array of the given strings.
fn json_array_text(items: &Vec<String>) -> (r: String)
    ensures
        r@ == json_array(items.deep_view()),
{
    let ghost quoted = items.deep_view().map_values(|s: Seq<char>| json_string(s));
    let mut body = String::new();
    let mut i: usize = 0;
    while i < items.len()
        invariant
            quoted == items.deep_view().map_values(|s: Seq<char>| json_string(s)),
            i <= items@.len(),
            body@ == join(quoted.take(i as int), ","@),
        decreases items@.len() - i,
    {
        assert(quoted.take(i + 1).drop_last() =~= quoted.take(i as int));
        if i > 0 {
            body.append(",");
        }
        body.append(quote_json(items[i].as_str()).as_str());
        i = i + 1;
        assert(body@ =~= join(quoted.take(i as int), ","@));
    }
    assert(quoted.take(items@.len() as int) =~= quoted);
    let mut out = String::from_str("[");
    out.append(body.as_str());
    out.append("]");
    out
}


proof fn lemma_join_one_line(parts: Seq<Seq<char>>, sep: Seq<char>)
    requires
        one_line(sep),
        forall|k: int| 0 <= k < parts.len() ==> one_line(#[trigger] parts[k]),
    ensures
        one_line(join(parts, sep)),
    decreases parts.len(),
{
    if parts.len() == 1 {
        assert(one_line(parts[0]));
    } else if parts.len() > 1 {
        let dl = parts.drop_last();
        assert forall|k: int| 0 <= k < dl.len() implies one_line(#[trigger] dl[k]) by {
            assert(dl[k] == parts[k]);
        }
        lemma_join_one_line(dl, sep);
        assert(one_line(parts[parts.len() - 1]));
        lemma_one_line_concat(join(dl, sep), sep);
        lemma_one_line_concat(join(dl, sep) + sep, parts.last());
    }
}

/// Every JSON answer is exactly one line: whatever the picked options hold,
/// the line carries no line break.
pub proof fn lemma_response_one_line(r: AskResponse)
    ensures
        one_line(response_json(r)),
{
    reveal_strlit("{\"choice\":");
    reveal_strlit("}");
    reveal_strlit("[");
    reveal_strlit("]");
    reveal_strlit(",");
    reveal_strlit("{\"choice\":null,\"cancelled\":true}");
    reveal_strlit("{\"choice\":null,\"cancelled\":false}");
    match r {
        AskResponse::Selected { selected } => {
            let head = "{\"choice\":"@;
            let tail = "}"@;
            assert(one_line(head));
            assert(one_line(tail));
            if selected@.len() == 1 {
                lemma_json_string_one_line(selected@[0]@);
                lemma_one_line_concat(head, json_string(selected@[0]@));
                lemma_one_line_concat(head + json_string(selected@[0]@), tail);
            } else {
                let items = selected.deep_view();
                let quoted = items.map_values(|s: Seq<char>| json_string(s));
                assert forall|k: int| 0 <= k < quoted.len() implies one_line(#[trigger] quoted[k]) by {
                    lemma_json_string_one_line(items[k]);
                }
                assert(one_line(","@));
                lemma_join_one_line(quoted, ","@);
                assert(one_line("["@));
                assert(one_line("]"@));
                lemma_one_line_concat("["@, join(quoted, ","@));
                lemma_one_line_concat("["@ + join(quoted, ","@), "]"@);
                let arr = json_array(items);
                lemma_one_line_concat(head, arr);
                lemma_one_line_concat(head + arr, tail);
            }
        },
        AskResponse::Cancelled { cancelled } => {
            assert(one_line("{\"choice\":null,\"cancelled\":true}"@));
            assert(one_line("{\"choice\":null,\"cancelled\":false}"@));
        },
    }
}

} // verus!
