//! Asking: checking a request, the prompt that lists the options, and
//! reading the human's pick.

use vstd::prelude::*;

use crate::error::{Failure, PresentError};
use crate::json::{json_string_list, parse_string_list};
use crate::protocol::{
    check_message, check_options, empty_message_text, no_options_text, one_option_text,
    response_json, AskRequest, AskResponse,
};
use crate::text::{
    before_first, blank, debug_quote, debug_str, decimal, decimal_string, eq_ignore_ascii_case,
    equals_ignore_ascii_case, is_digit, is_ws, join, join_strings, lemma_decimal_digits,
    lemma_parse_decimal, lemma_split_without_sep, lemma_trim_no_ws, owned, parse_usize,
    parse_usize_spec, push_decimal, split_char, split_on, text_before, trim, trim_str,
    has_substring, occurs_at, same_str,
};

verus! {

/// Why a message and options cannot be asked, if they cannot: a blank
/// message first, then too few options.
pub open spec fn request_refusal(message: Seq<char>, count: nat) -> Option<Failure> {
    if blank(message) {
        Some(Failure::Usage(empty_message_text()))
    } else if count == 0 {
        Some(Failure::Usage(no_options_text()))
    } else if count == 1 {
        Some(Failure::Usage(one_option_text()))
    } else {
        None
    }
}

/// Checks the message and options of an ask given on the command line and
/// builds the request.
pub fn validate(message: &str, options: &[String], multiple: bool) -> (r: Result<
    AskRequest,
    PresentError,
>)
    ensures
        match r {
            Ok(req) => request_refusal(message@, options@.len()) is None && req.message@
                == message@ && req.options.deep_view() == options.deep_view() && req.multiple
                == multiple,
            Err(e) => request_refusal(message@, options@.len()) == Some(e@),
        },
{
    match check_message(message) {
        Err(m) => {
            return Err(PresentError::Usage(m));
        },
        Ok(()) => {},
    }
    let mut opts: Vec<String> = Vec::new();
    let mut i: usize = 0;
    while i < options.len()
        invariant
            i <= options@.len(),
            opts.deep_view() == options.deep_view().take(i as int),
        decreases options@.len() - i,
    {
        let ghost before = opts.deep_view();
        assert(options.deep_view()[i as int] == options@[i as int]@);
        opts.push(options[i].clone());
        assert(opts.deep_view() =~= before.push(options@[i as int]@));
        i = i + 1;
        assert(opts.deep_view() =~= options.deep_view().take(i as int));
    }
    assert(options.deep_view().take(options@.len() as int) =~= options.deep_view());
    match check_options(&opts) {
        Err(m) => Err(PresentError::Usage(m)),
        Ok(()) => Ok(AskRequest { message: owned(message), options: opts, multiple }),
    }
}

/// Refusal of a pick that is not a number.
pub open spec fn not_a_number_text(part: Seq<char>, count: nat) -> Seq<char> {
    debug_str(part) + " is not a number, enter a digit between 1 and "@ + decimal(count)
}

/// Refusal of a number that names no option.
pub open spec fn out_of_range_text(n: nat, count: nat) -> Seq<char> {
    decimal(n) + " is out of range, pick between 1 and "@ + decimal(count)
}

/// The answers that cancel a pick: nothing, `0`, or `cancel` in any ASCII case.
pub open spec fn is_cancel_answer(s: Seq<char>) -> bool {
    s.len() == 0 || s == "0"@ || eq_ignore_ascii_case(s, "cancel"@)
}

/// The option that a one-based number names.
pub open spec fn pick_one(options: Seq<Seq<char>>, part: Seq<char>) -> Result<
    Seq<char>,
    Failure,
> {
    match parse_usize_spec(part) {
        None => Err(Failure::Bad(not_a_number_text(part, options.len()))),
        Some(n) => if 1 <= n <= options.len() {
            Ok(options[n - 1])
        } else {
            Err(Failure::Bad(out_of_range_text(n, options.len())))
        },
    }
}

/// The options that comma-separated pieces name, in order; pieces that are
/// blank are skipped, and the first piece that names no option decides the
/// error.
pub open spec fn pick_parts(options: Seq<Seq<char>>, parts: Seq<Seq<char>>) -> Result<
    Seq<Seq<char>>,
    Failure,
>
    decreases parts.len(),
{
    if parts.len() == 0 {
        Ok(Seq::<Seq<char>>::empty())
    } else {
        match pick_parts(options, parts.drop_last()) {
            Err(e) => Err(e),
            Ok(acc) => {
                let p = trim(parts.last());
                if p.len() == 0 {
                    Ok(acc)
                } else {
                    match pick_one(options, p) {
                        Ok(o) => Ok(acc.push(o)),
                        Err(e) => Err(e),
                    }
                }
            },
        }
    }
}

/// What an answer picks: `None` when it cancels, else the picked options.
pub open spec fn pick_spec(options: Seq<Seq<char>>, multiple: bool, answer: Seq<char>) -> Result<
    Option<Seq<Seq<char>>>,
    Failure,
> {
    if is_cancel_answer(answer) {
        Ok(None)
    } else if multiple {
        match pick_parts(options, split_on(answer, ',')) {
            Err(e) => Err(e),
            Ok(p) => if p.len() == 0 {
                Ok(None)
            } else {
                Ok(Some(p))
            },
        }
    } else {
        match pick_one(options, answer) {
            Ok(o) => Ok(Some(seq![o])),
            Err(e) => Err(e),
        }
    }
}

/// The mathematical value of a pick result.
pub open spec fn pick_view(r: Result<Option<Vec<String>>, PresentError>) -> Result<
    Option<Seq<Seq<char>>>,
    Failure,
> {
    match r {
        Ok(Some(v)) => Ok(Some(v.deep_view())),
        Ok(None) => Ok(None),
        Err(e) => Err(e@),
    }
}

/// An error in a prefix of the pieces is the error of all of them.
proof fn lemma_pick_parts_err_prefix(options: Seq<Seq<char>>, parts: Seq<Seq<char>>, k: int)
    requires
        0 <= k <= parts.len(),
        pick_parts(options, parts.take(k)) is Err,
    ensures
        pick_parts(options, parts) == pick_parts(options, parts.take(k)),
    decreases parts.len(),
{
    if k == parts.len() {
        assert(parts.take(k) =~= parts);
    } else {
        assert(parts.drop_last().take(k) =~= parts.take(k));
        lemma_pick_parts_err_prefix(options, parts.drop_last(), k);
    }
}

/// Reads one number and returns the option it names.
fn pick_number(options: &Vec<String>, part: &str) -> (r: Result<String, PresentError>)
    ensures
        match r {
            Ok(o) => pick_one(options.deep_view(), part@) == Ok::<Seq<char>, Failure>(o@),
            Err(e) => pick_one(options.deep_view(), part@) == Err::<Seq<char>, Failure>(e@),
        },
{
    match parse_usize(part) {
        None => {
            let mut m = debug_quote(part);
            m.append(" is not a number, enter a digit between 1 and ");
            m.append(decimal_string(options.len() as u64).as_str());
            Err(PresentError::Bad(m))
        },
        Some(n) => {
            if n >= 1 && n <= options.len() {
                let o = options[n - 1].clone();
                assert(options.deep_view()[n - 1] == options@[n - 1]@);
                Ok(o)
            } else {
                let mut m = decimal_string(n as u64);
                m.append(" is out of range, pick between 1 and ");
                m.append(decimal_string(options.len() as u64).as_str());
                Err(PresentError::Bad(m))
            }
        },
    }
}

/// Reads the human's pick: `answer` is the line they typed, already trimmed.
/// An empty answer, `0` or `cancel` cancels (`Ok(None)`); otherwise each
/// number picks the option it names, one-based.
pub fn parse_pick(request: &AskRequest, answer: &str) -> (r: Result<
    Option<Vec<String>>,
    PresentError,
>)
    ensures
        pick_view(r) == pick_spec(request.options.deep_view(), request.multiple, answer@),
{
    let options = &request.options;
    let is_zero = answer.unicode_len() == 1 && answer.get_char(0) == '0';
    proof {
        reveal_strlit("0");
        if answer@.len() == 1 && answer@[0] == '0' {
            assert(answer@ =~= "0"@);
        }
        if answer@ == "0"@ {
            assert(answer@[0] == '0');
        }
    }
    if answer.unicode_len() == 0 || is_zero || equals_ignore_ascii_case(answer, "cancel") {
        return Ok(None);
    }
    if request.multiple {
        let parts = split_char(answer, ',');
        let ghost pdv = parts.deep_view();
        let mut picks: Vec<String> = Vec::new();
        let mut i: usize = 0;
        assert(pdv.take(0) =~= Seq::<Seq<char>>::empty());
        assert(picks.deep_view() =~= Seq::<Seq<char>>::empty());
        while i < parts.len()
            invariant
                pdv == parts.deep_view(),
                pdv == split_on(answer@, ','),
                !is_cancel_answer(answer@),
                request.multiple,
                options == &request.options,
                i <= parts@.len(),
                pick_parts(options.deep_view(), pdv.take(i as int)) == Ok::<
                    Seq<Seq<char>>,
                    Failure,
                >(picks.deep_view()),
            decreases parts@.len() - i,
        {
            let ghost next = pdv.take(i + 1);
            assert(next.drop_last() =~= pdv.take(i as int));
            assert(pdv[i as int] == parts@[i as int]@);
            assert(next.last() == parts@[i as int]@);
            let ghost before = picks.deep_view();
            let part = trim_str(parts[i].as_str());
            if part.unicode_len() > 0 {
                match pick_number(options, part) {
                    Ok(o) => {
                        picks.push(o);
                        assert(picks.deep_view() =~= before.push(o@));
                    },
                    Err(e) => {
                        assert(pick_parts(options.deep_view(), next) == Err::<
                            Seq<Seq<char>>,
                            Failure,
                        >(e@));
                        proof {
                            lemma_pick_parts_err_prefix(options.deep_view(), pdv, i + 1);
                        }
                        assert(pick_parts(options.deep_view(), split_on(answer@, ',')) == Err::<
                            Seq<Seq<char>>,
                            Failure,
                        >(e@));
                        return Err(e);
                    },
                }
            }
            i = i + 1;
            assert(pick_parts(options.deep_view(), next) == Ok::<
                Seq<Seq<char>>,
                Failure,
            >(picks.deep_view()));
        }
        assert(pdv.take(parts@.len() as int) =~= pdv);
        if picks.len() == 0 {
            return Ok(None);
        }
        Ok(Some(picks))
    } else {
        match pick_number(options, answer) {
            Ok(o) => {
                let mut v: Vec<String> = Vec::new();
                v.push(o);
                assert(v.deep_view() =~= seq![o@]);
                Ok(Some(v))
            },
            Err(e) => Err(e),
        }
    }
}


/// Answering with the number that the prompt shows beside an option picks
/// exactly that option, whether one or several picks are allowed.
pub proof fn lemma_listed_number_picks(options: Seq<Seq<char>>, multiple: bool, i: int)
    requires
        0 <= i < options.len(),
        options.len() <= usize::MAX,
    ensures
        pick_spec(options, multiple, decimal((i + 1) as nat)) == Ok::<
            Option<Seq<Seq<char>>>,
            Failure,
        >(Some(seq![options[i]])),
{
    let n = (i + 1) as nat;
    let d = decimal(n);
    lemma_decimal_digits(n);
    lemma_parse_decimal(n);
    assert(is_digit(d[0]));
    reveal_strlit("0");
    reveal_strlit("cancel");
    if d == "0"@ {
        assert(d.len() == 1);
        assert(d.last() == '0');
        assert(d.drop_last() =~= Seq::<char>::empty());
        assert(crate::text::digits_value(d.drop_last()) == 0);
        assert(crate::text::digits_value(d) == 0);
        assert(false);
    }
    if eq_ignore_ascii_case(d, "cancel"@) {
        assert(crate::text::ascii_lower(d[0]) == crate::text::ascii_lower("cancel"@[0]));
        assert(false);
    }
    assert(!is_cancel_answer(d));
    assert(pick_one(options, d) == Ok::<Seq<char>, Failure>(options[i]));
    if multiple {
        assert forall|k: int| 0 <= k < d.len() implies #[trigger] d[k] != ',' by {
            assert(is_digit(d[k]));
        }
        lemma_split_without_sep(d, ',');
        assert forall|k: int| 0 <= k < d.len() implies !is_ws(#[trigger] d[k]) by {
            assert(is_digit(d[k]));
        }
        lemma_trim_no_ws(d);
        let parts = seq![d];
        assert(parts.drop_last() =~= Seq::<Seq<char>>::empty());
        assert(pick_parts(options, parts.drop_last()) == Ok::<Seq<Seq<char>>, Failure>(
            Seq::<Seq<char>>::empty(),
        ));
        assert(pick_parts(options, parts) == Ok::<Seq<Seq<char>>, Failure>(
            Seq::<Seq<char>>::empty().push(options[i]),
        ));
        assert(Seq::<Seq<char>>::empty().push(options[i]) =~= seq![options[i]]);
    }
}

/// An empty line, `0`, or `cancel` in any ASCII case cancels the pick,
/// whatever the options are; the run then ends as cancelled, with nothing
/// on stdout and exit code 2.
pub proof fn lemma_cancel_answers(options: Seq<Seq<char>>, multiple: bool, answer: Seq<char>)
    requires
        answer.len() == 0 || answer == "0"@ || eq_ignore_ascii_case(answer, "cancel"@),
    ensures
        pick_spec(options, multiple, answer) == Ok::<Option<Seq<Seq<char>>>, Failure>(None),
        crate::error::exit_code_of(Failure::Cancelled) == 2,
{
}

/// Every option that comma-separated pieces pick is one of the options.
proof fn lemma_parts_are_options(options: Seq<Seq<char>>, parts: Seq<Seq<char>>)
    ensures
        pick_parts(options, parts) matches Ok(p) ==> forall|k: int|
            0 <= k < p.len() ==> options.contains(#[trigger] p[k]),
    decreases parts.len(),
{
    if parts.len() > 0 {
        lemma_parts_are_options(options, parts.drop_last());
        if let Ok(acc) = pick_parts(options, parts.drop_last()) {
            let p = trim(parts.last());
            if p.len() > 0 {
                if let Ok(o) = pick_one(options, p) {
                    let n = parse_usize_spec(p)->0;
                    assert(options[n - 1] == o);
                    assert forall|k: int| 0 <= k < acc.push(o).len() implies options.contains(
                        #[trigger] acc.push(o)[k],
                    ) by {
                        if k < acc.len() {
                            assert(acc.push(o)[k] == acc[k]);
                        }
                    }
                }
            }
        }
    }
}

/// A pick that succeeds picks at least one option, and only options that the
/// request offers.
pub proof fn lemma_picks_are_options(options: Seq<Seq<char>>, multiple: bool, answer: Seq<char>)
    ensures
        pick_spec(options, multiple, answer) matches Ok(Some(p)) ==> p.len() >= 1 && forall|
            k: int,
        | 0 <= k < p.len() ==> options.contains(#[trigger] p[k]),
{
    lemma_parts_are_options(options, split_on(answer, ','));
    if !is_cancel_answer(answer) && !multiple {
        if let Ok(o) = pick_one(options, answer) {
            let n = parse_usize_spec(answer)->0;
            assert(options[n - 1] == o);
            assert(seq![o][0] == o);
        }
    }
}


/// The lines that list the options, numbered from one.
pub open spec fn option_lines(options: Seq<Seq<char>>) -> Seq<char>
    decreases options.len(),
{
    if options.len() == 0 {
        Seq::<char>::empty()
    } else {
        option_lines(options.drop_last()) + "  ("@ + decimal(options.len()) + ") "@
            + options.last() + "\n"@
    }
}

/// The last line of the prompt, which says how to answer.
pub open spec fn prompt_footer(multiple: bool) -> Seq<char> {
    if multiple {
        "pick one or more by number, comma-separated. 0 or empty cancels"@
    } else {
        "pick one by number. 0 or empty cancels"@
    }
}

/// The prompt: the message, the numbered options, and how to answer, each
/// on a line of its own.
pub open spec fn prompt_spec(message: Seq<char>, options: Seq<Seq<char>>, multiple: bool) -> Seq<
    char,
> {
    message + "\n"@ + option_lines(options) + prompt_footer(multiple) + "\n"@
}

/// The text of the prompt that asks the human to pick.
pub fn prompt_text(request: &AskRequest) -> (r: String)
    ensures
        r@ == prompt_spec(request.message@, request.options.deep_view(), request.multiple),
{
    let ghost opts = request.options.deep_view();
    let mut out = request.message.clone();
    out.append("\n");
    let mut i: usize = 0;
    while i < request.options.len()
        invariant
            opts == request.options.deep_view(),
            i <= opts.len(),
            out@ == request.message@ + "\n"@ + option_lines(opts.take(i as int)),
        decreases opts.len() - i,
    {
        assert(opts.take(i + 1).drop_last() =~= opts.take(i as int));
        assert(opts[i as int] == request.options@[i as int]@);
        out.append("  (");
        push_decimal(&mut out, (i + 1) as u64);
        out.append(") ");
        out.append(request.options[i].as_str());
        out.append("\n");
        i = i + 1;
        assert(out@ =~= request.message@ + "\n"@ + option_lines(opts.take(i as int)));
    }
    assert(opts.take(opts.len() as int) =~= opts);
    if request.multiple {
        out.append("pick one or more by number, comma-separated. 0 or empty cancels");
    } else {
        out.append("pick one by number. 0 or empty cancels");
    }
    out.append("\n");
    out
}

/// Where the pick comes from.
#[derive(PartialEq, Eq, Structural, Debug, Clone, Copy)]
pub enum PickSource {
    /// The first option, without asking anyone.
    AutoPick,
    /// The full-screen picker.
    Picker,
    /// A numbered prompt on stderr, answered on stdin.
    StdinPrompt,
    /// A numbered prompt on the terminal, answered there.
    TerminalPrompt,
}

/// Refusal of `--interactive` outside a terminal.
pub open spec fn needs_terminal_text() -> Seq<char> {
    "present --interactive needs a terminal. drop the flag to use the plain prompt, or run it in a tty"@
}

/// Where the pick comes from: `--interactive` takes the full-screen picker
/// and needs a terminal for it; otherwise auto-pick wins; `--json` asks on
/// the terminal, so that stdin and stdout stay free for the program that
/// called; otherwise the prompt reads stdin.
pub open spec fn source_spec(json: bool, interactive: bool, auto_pick: bool, tty: bool) -> Result<
    PickSource,
    Failure,
> {
    if interactive {
        if tty {
            Ok(PickSource::Picker)
        } else {
            Err(Failure::Usage(needs_terminal_text()))
        }
    } else if auto_pick {
        Ok(PickSource::AutoPick)
    } else if json {
        Ok(PickSource::TerminalPrompt)
    } else {
        Ok(PickSource::StdinPrompt)
    }
}

/// Chooses where the pick comes from.
pub fn choose_source(json: bool, interactive: bool, auto_pick: bool, tty: bool) -> (r: Result<
    PickSource,
    PresentError,
>)
    ensures
        match r {
            Ok(s) => source_spec(json, interactive, auto_pick, tty) == Ok::<PickSource, Failure>(
                s,
            ),
            Err(e) => source_spec(json, interactive, auto_pick, tty) == Err::<
                PickSource,
                Failure,
            >(e@),
        },
{
    if interactive {
        if tty {
            Ok(PickSource::Picker)
        } else {
            Err(
                PresentError::Usage(
                    String::from_str(
                        "present --interactive needs a terminal. drop the flag to use the plain prompt, or run it in a tty",
                    ),
                ),
            )
        }
    } else if auto_pick {
        Ok(PickSource::AutoPick)
    } else if json {
        Ok(PickSource::TerminalPrompt)
    } else {
        Ok(PickSource::StdinPrompt)
    }
}

/// Whether `PRESENT_AUTO_PICK` turns auto-pick on: set to anything but
/// `0` or `false`.
pub open spec fn auto_pick_spec(value: Option<Seq<char>>) -> bool {
    match value {
        None => false,
        Some(v) => !(v == "0"@ || v == "false"@),
    }
}

/// Reads the value of `PRESENT_AUTO_PICK`.
pub fn auto_pick_enabled(value: Option<&str>) -> (r: bool)
    ensures
        r == auto_pick_spec(
            match value {
                Some(v) => Some(v@),
                None => None,
            },
        ),
{
    match value {
        None => false,
        Some(v) => !(same_str(v, "0") || same_str(v, "false")),
    }
}

/// The pick that auto-pick makes: the first option.
pub fn auto_pick(request: &AskRequest) -> (r: Vec<String>)
    requires
        request.options@.len() >= 1,
    ensures
        r.deep_view() == seq![request.options@[0]@],
{
    let mut v: Vec<String> = Vec::new();
    v.push(request.options[0].clone());
    assert(v.deep_view() =~= seq![request.options@[0]@]);
    v
}

/// What stdout receives for a pick: in `--json` mode the answer's JSON
/// line, otherwise the picked options joined by commas. A cancelled pick is
/// the `Cancelled` failure.
pub fn finish_pick(picked: Option<Vec<String>>, json: bool) -> (r: Result<String, PresentError>)
    ensures
        match picked {
            None => r matches Err(e) && e@ == Failure::Cancelled,
            Some(items) => r matches Ok(out) && out@ == (if json {
                response_json(AskResponse::Selected { selected: items })
            } else {
                join(items.deep_view(), ","@)
            }),
        },
{
    match picked {
        None => Err(PresentError::Cancelled),
        Some(items) => {
            if json {
                Ok(AskResponse::selected(items).json_line())
            } else {
                Ok(join_strings(&items, ","))
            }
        },
    }
}

/// Refusal of an ask without `--options`.
pub open spec fn needs_options_text() -> Seq<char> {
    "an ask needs options. --options '[\"a\",\"b\"]'"@
}

/// Refusal of `--options` that is not a JSON array of strings, with the
/// parser's reason.
pub open spec fn options_not_list_text(why: Seq<char>) -> Seq<char> {
    "options is not a json array of strings ("@ + why + "). --options '[\"a\",\"b\"]'"@
}

/// Builds the request of an ask given by flags: `--options` must be there
/// and hold a JSON array of strings, then the request is checked as
/// `validate` checks it, for a single pick.
pub fn request_from_flags(message: &str, options: Option<&str>) -> (r: Result<
    AskRequest,
    PresentError,
>)
    ensures
        options is None ==> (r matches Err(e) && e@ == Failure::Usage(needs_options_text())),
        options matches Some(t) ==> match json_string_list(t@) {
            Err(why) => r matches Err(e) && e@ == Failure::Bad(options_not_list_text(why)),
            Ok(list) => match r {
                Ok(req) => request_refusal(message@, list.len()) is None && req.message@
                    == message@ && req.options.deep_view() == list && !req.multiple,
                Err(e) => request_refusal(message@, list.len()) == Some(e@),
            },
        },
{
    match options {
        None => Err(
            PresentError::Usage(String::from_str("an ask needs options. --options '[\"a\",\"b\"]'")),
        ),
        Some(text) => match parse_string_list(text) {
            Err(why) => {
                let mut m = String::from_str("options is not a json array of strings (");
                m.append(why.as_str());
                m.append("). --options '[\"a\",\"b\"]'");
                assert(m@ == options_not_list_text(why@));
                Err(PresentError::Bad(m))
            },
            Ok(list) => validate(message, list.as_slice(), false),
        },
    }
}

/// Refusal of an empty stdin in `--json` mode.
pub open spec fn no_input_text() -> Seq<char> {
    "no input on stdin, present --json needs an ask request there"@
}

/// The ask request text read from stdin, trimmed; it must not be blank.
pub fn request_text(raw: &str) -> (r: Result<&str, PresentError>)
    ensures
        match r {
            Ok(t) => t@ == trim(raw@) && t@.len() > 0,
            Err(e) => trim(raw@).len() == 0 && e@ == Failure::Bad(no_input_text()),
        },
{
    let t = trim_str(raw);
    if t.unicode_len() == 0 {
        Err(
            PresentError::Bad(
                String::from_str("no input on stdin, present --json needs an ask request there"),
            ),
        )
    } else {
        Ok(t)
    }
}

/// The report of an ask request that does not parse: the parser's message
/// up to its own position note, then the line, counted from one.
pub open spec fn invalid_request_text(full: Seq<char>, line: nat) -> Seq<char> {
    "stdin is not a valid ask request: "@ + text_before(full, " at line "@) + ". line "@
        + decimal(if line >= 1 { line } else { 1 })
}

/// Reports an ask request that does not parse, from the parser's message
/// and the line it names.
pub fn invalid_request_error(full: &str, line: usize) -> (r: PresentError)
    ensures
        r@ == Failure::Bad(invalid_request_text(full@, line as nat)),
{
    let reason = before_first(full, " at line ");
    let mut m = String::from_str("stdin is not a valid ask request: ");
    m.append(reason);
    m.append(". line ");
    let shown: usize = if line >= 1 {
        line
    } else {
        1
    };
    push_decimal(&mut m, shown as u64);
    PresentError::Bad(m)
}

/// The report of a pick that cannot be asked because no terminal opens;
/// it names the way out, `PRESENT_AUTO_PICK=1`.
pub open spec fn no_terminal_text(detail: Seq<char>) -> Seq<char> {
    "no terminal to ask in ("@ + detail
        + "). present --json reads the request from stdin and the pick from /dev/tty. set PRESENT_AUTO_PICK=1 to auto-select the first option without a human"@
}

/// Reports that no terminal could be opened, with the system's reason.
pub fn no_terminal_error(detail: &str) -> (r: PresentError)
    ensures
        r@ == Failure::Bad(no_terminal_text(detail@)),
{
    let mut m = String::from_str("no terminal to ask in (");
    m.append(detail);
    m.append(
        "). present --json reads the request from stdin and the pick from /dev/tty. set PRESENT_AUTO_PICK=1 to auto-select the first option without a human",
    );
    PresentError::Bad(m)
}


/// The line of the prompt that lists option `i`.
pub open spec fn option_line(options: Seq<Seq<char>>, i: int) -> Seq<char> {
    "  ("@ + decimal((i + 1) as nat) + ") "@ + options[i] + "\n"@
}

/// The prompt lists every option on a line of its own, beside the number
/// that picks it (see `lemma_listed_number_picks`).
pub proof fn lemma_prompt_lists_option(options: Seq<Seq<char>>, i: int)
    requires
        0 <= i < options.len(),
    ensures
        has_substring(option_lines(options), option_line(options, i)),
    decreases options.len(),
{
    let dl = options.drop_last();
    let head = option_lines(dl);
    let last = option_line(options, options.len() - 1);
    assert(option_lines(options) == head + last);
    if i == options.len() - 1 {
        let at = head.len() as int;
        assert((head + last).subrange(at, at + last.len()) =~= last);
        assert(occurs_at(option_lines(options), option_line(options, i), at));
    } else {
        lemma_prompt_lists_option(dl, i);
        assert(option_line(dl, i) == option_line(options, i));
        let line = option_line(options, i);
        let at = choose|at: int| occurs_at(head, line, at);
        assert((head + last).subrange(at, at + line.len()) =~= head.subrange(at, at + line.len()));
        assert(occurs_at(option_lines(options), line, at));
    }
}


/// How many pieces hold something besides whitespace.
pub open spec fn nonblank_count(parts: Seq<Seq<char>>) -> nat
    decreases parts.len(),
{
    if parts.len() == 0 {
        0
    } else {
        nonblank_count(parts.drop_last()) + (if trim(parts.last()).len() > 0 {
            1nat
        } else {
            0nat
        })
    }
}

/// A piece that names no option: not blank, and not a number from 1 to the
/// number of options.
pub open spec fn names_no_option(count: nat, piece: Seq<char>) -> bool {
    let p = trim(piece);
    p.len() > 0 && match parse_usize_spec(p) {
        None => true,
        Some(n) => n == 0 || n > count,
    }
}

proof fn lemma_parts_count(options: Seq<Seq<char>>, parts: Seq<Seq<char>>)
    ensures
        pick_parts(options, parts) matches Ok(p) ==> p.len() == nonblank_count(parts),
    decreases parts.len(),
{
    if parts.len() > 0 {
        lemma_parts_count(options, parts.drop_last());
    }
}

proof fn lemma_parts_bad_piece(options: Seq<Seq<char>>, parts: Seq<Seq<char>>, k: int)
    requires
        0 <= k < parts.len(),
        names_no_option(options.len(), parts[k]),
    ensures
        pick_parts(options, parts) is Err,
    decreases parts.len(),
{
    if k < parts.len() - 1 {
        assert(parts.drop_last()[k] == parts[k]);
        lemma_parts_bad_piece(options, parts.drop_last(), k);
    } else {
        assert(parts.last() == parts[k]);
    }
}

/// With several picks allowed, a pick succeeds only when every piece
/// between commas that is not blank names an option: the picks are as many
/// as those pieces, and a piece that is not a number, or is 0, or is more
/// than the number of options, makes the whole answer an error.
pub proof fn lemma_multiple_pick_names_every_piece(options: Seq<Seq<char>>, answer: Seq<char>)
    ensures
        pick_spec(options, true, answer) matches Ok(Some(p)) ==> p.len() == nonblank_count(
            split_on(answer, ','),
        ),
        !is_cancel_answer(answer) && (exists|k: int|
            0 <= k < split_on(answer, ',').len() && names_no_option(
                options.len(),
                #[trigger] split_on(answer, ',')[k],
            )) ==> pick_spec(options, true, answer) is Err,
{
    let parts = split_on(answer, ',');
    lemma_parts_count(options, parts);
    if !is_cancel_answer(answer) && (exists|k: int|
        0 <= k < parts.len() && names_no_option(options.len(), #[trigger] parts[k])) {
        let k = choose|k: int| 0 <= k < parts.len() && names_no_option(options.len(), #[trigger] parts[k]);
        lemma_parts_bad_piece(options, parts, k);
    }
}

/// The prompt begins with the message on a line of its own, whether one or
/// several picks are allowed, lists the options next, and ends with how to
/// answer on the last line.
pub proof fn lemma_prompt_starts_with_message(
    message: Seq<char>,
    options: Seq<Seq<char>>,
    multiple: bool,
)
    ensures
        prompt_spec(message, options, multiple).take(message.len() + 1int) == message + "\n"@,
        prompt_spec(message, options, multiple).subrange(
            message.len() + 1int,
            message.len() + 1int + option_lines(options).len(),
        ) == option_lines(options),
        prompt_spec(message, options, multiple).skip(
            message.len() + 1int + option_lines(options).len(),
        ) == prompt_footer(multiple) + "\n"@,
{
    reveal_strlit("\n");
    let p = prompt_spec(message, options, multiple);
    let head = message + "\n"@;
    assert(head.len() == message.len() + 1int);
    assert(p == head + option_lines(options) + prompt_footer(multiple) + "\n"@);
    assert(p.take(message.len() + 1int) =~= head);
    assert(p.subrange(message.len() + 1int, message.len() + 1int + option_lines(options).len())
        =~= option_lines(options));
    assert(p.skip(message.len() + 1int + option_lines(options).len()) =~= prompt_footer(multiple)
        + "\n"@);
}


/// The pieces that are not blank, trimmed, in order.
pub open spec fn nonblank_pieces(parts: Seq<Seq<char>>) -> Seq<Seq<char>>
    decreases parts.len(),
{
    if parts.len() == 0 {
        Seq::<Seq<char>>::empty()
    } else {
        nonblank_pieces(parts.drop_last()) + (if trim(parts.last()).len() > 0 {
            seq![trim(parts.last())]
        } else {
            Seq::<Seq<char>>::empty()
        })
    }
}

proof fn lemma_parts_in_order(options: Seq<Seq<char>>, parts: Seq<Seq<char>>)
    ensures
        pick_parts(options, parts) matches Ok(p) ==> p.len() == nonblank_pieces(parts).len()
            && forall|k: int|
            0 <= k < p.len() ==> (parse_usize_spec(#[trigger] nonblank_pieces(parts)[k]) matches Some(
                n,
            ) && 1 <= n <= options.len() && p[k] == options[n - 1]),
    decreases parts.len(),
{
    if parts.len() > 0 {
        lemma_parts_in_order(options, parts.drop_last());
        let nb = nonblank_pieces(parts);
        let nb0 = nonblank_pieces(parts.drop_last());
        if let Ok(p) = pick_parts(options, parts) {
            let acc = pick_parts(options, parts.drop_last())->Ok_0;
            assert forall|k: int| 0 <= k < p.len() implies (parse_usize_spec(
                #[trigger] nb[k],
            ) matches Some(n) && 1 <= n <= options.len() && p[k] == options[n - 1]) by {
                if k < acc.len() {
                    assert(nb[k] == nb0[k]);
                    assert(p[k] == acc[k]);
                } else {
                    assert(nb[k] == trim(parts.last()));
                }
            }
        }
    }
}

/// With several picks allowed, the picks follow the pieces between commas:
/// the k-th pick is the option named by the k-th piece that is not blank.
pub proof fn lemma_multiple_picks_follow_pieces(options: Seq<Seq<char>>, answer: Seq<char>)
    ensures
        pick_spec(options, true, answer) matches Ok(Some(p)) ==> p.len() == nonblank_pieces(
            split_on(answer, ','),
        ).len() && forall|k: int|
            0 <= k < p.len() ==> (parse_usize_spec(
                #[trigger] nonblank_pieces(split_on(answer, ','))[k],
            ) matches Some(n) && 1 <= n <= options.len() && p[k] == options[n - 1]),
{
    lemma_parts_in_order(options, split_on(answer, ','));
}

/// With one pick allowed, a pick that succeeds is the single option that
/// the answer's number names, and an answer that is not a cancel and not a
/// number from 1 to the number of options is an error.
pub proof fn lemma_single_pick(options: Seq<Seq<char>>, answer: Seq<char>)
    ensures
        pick_spec(options, false, answer) matches Ok(Some(p)) ==> (parse_usize_spec(
            answer,
        ) matches Some(n) && 1 <= n <= options.len() && p == seq![options[n - 1]]),
        !is_cancel_answer(answer) && !(parse_usize_spec(answer) matches Some(n) && 1 <= n
            <= options.len()) ==> pick_spec(options, false, answer) is Err,
{
}

} // verus!
