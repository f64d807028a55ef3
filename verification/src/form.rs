//! The parameter form of a module: its command line split into the program
//! and the arguments that the human may override.

use vstd::prelude::*;

use crate::error::{Failure, PresentError};
use crate::protocol::{ModuleEntry, ModuleManifest, ShelfModule};
use crate::text::{
    blank, decimal, join, join_strings, lemma_trim_empty_iff_blank, owned, push_char,
    push_decimal, trim, trim_str, chars_of,
};

verus! {

/// A command line split into the program and its fillable arguments.
#[derive(Debug)]
pub struct ParamForm {
    pub program: String,
    pub fields: Vec<ParamField>,
}

/// One argument of the command line: its label, the value the command line
/// gave it, and the value that will run.
#[derive(Debug)]
pub struct ParamField {
    pub label: String,
    pub default: String,
    pub value: String,
}

/// Where the tokenizer stands after some prefix of a command line.
pub struct TokState {
    pub tokens: Seq<Seq<char>>,
    pub current: Seq<char>,
    pub in_quotes: bool,
    pub quote: char,
}

/// The tokenizer before the first character.
pub open spec fn tok_start() -> TokState {
    TokState {
        tokens: Seq::<Seq<char>>::empty(),
        current: Seq::<char>::empty(),
        in_quotes: false,
        quote: '"',
    }
}

/// One character of the command line: a quote outside quotes opens a quoted
/// run, the same quote closes it, a space or tab outside quotes ends the
/// current token, and anything else joins the current token.
pub open spec fn tok_step(st: TokState, c: char) -> TokState {
    if (c == '"' || c == '\'') && !st.in_quotes {
        TokState { tokens: st.tokens, current: st.current, in_quotes: true, quote: c }
    } else if st.in_quotes && c == st.quote {
        TokState { tokens: st.tokens, current: st.current, in_quotes: false, quote: st.quote }
    } else if (c == ' ' || c == '\t') && !st.in_quotes {
        if st.current.len() > 0 {
            TokState {
                tokens: st.tokens.push(st.current),
                current: Seq::<char>::empty(),
                in_quotes: false,
                quote: st.quote,
            }
        } else {
            st
        }
    } else {
        TokState {
            tokens: st.tokens,
            current: st.current.push(c),
            in_quotes: st.in_quotes,
            quote: st.quote,
        }
    }
}

/// The tokenizer after the characters of `s`, starting from `st`.
pub open spec fn tok_run_from(st: TokState, s: Seq<char>) -> TokState
    decreases s.len(),
{
    if s.len() == 0 {
        st
    } else {
        tok_step(tok_run_from(st, s.drop_last()), s.last())
    }
}

/// The tokens of a command line: words separated by spaces or tabs, where
/// single or double quotes group a run that may hold spaces (the quotes
/// themselves are dropped), and empty words are skipped.
pub open spec fn tokenize(s: Seq<char>) -> Seq<Seq<char>> {
    let st = tok_run_from(tok_start(), s);
    if st.current.len() > 0 {
        st.tokens.push(st.current)
    } else {
        st.tokens
    }
}

/// Splits a command line into tokens.
pub fn tokenize_cli(s: &str) -> (tokens: Vec<String>)
    ensures
        tokens.deep_view() == tokenize(s@),
{
    let v = chars_of(s);
    let mut tokens: Vec<String> = Vec::new();
    let mut current = String::new();
    let mut in_quotes = false;
    let mut quote_char = '"';
    let mut i: usize = 0;
    assert(s@.take(0) =~= Seq::<char>::empty());
    assert(tokens.deep_view() =~= Seq::<Seq<char>>::empty());
    while i < v.len()
        invariant
            v@ == s@,
            i <= v@.len(),
            tok_run_from(tok_start(), s@.take(i as int)) == (TokState {
                tokens: tokens.deep_view(),
                current: current@,
                in_quotes,
                quote: quote_char,
            }),
        decreases v@.len() - i,
    {
        let c = v[i];
        assert(s@.take(i + 1).drop_last() =~= s@.take(i as int));
        let ghost before = tokens.deep_view();
        if (c == '"' || c == '\'') && !in_quotes {
            in_quotes = true;
            quote_char = c;
        } else if in_quotes && c == quote_char {
            in_quotes = false;
        } else if (c == ' ' || c == '\t') && !in_quotes {
            if current.unicode_len() > 0 {
                tokens.push(current);
                current = String::new();
                assert(tokens.deep_view() =~= before.push(
                    tok_run_from(tok_start(), s@.take(i as int)).current,
                ));
            }
        } else {
            push_char(&mut current, c);
        }
        i = i + 1;
    }
    assert(s@.take(v@.len() as int) =~= s@);
    if current.unicode_len() > 0 {
        let ghost before = tokens.deep_view();
        tokens.push(current);
        assert(tokens.deep_view() =~= before.push(tok_run_from(tok_start(), s@).current));
    }
    tokens
}


/// The tokenizer keeps no empty token.
pub open spec fn tokens_nonempty(st: TokState) -> bool {
    forall|k: int| 0 <= k < st.tokens.len() ==> (#[trigger] st.tokens[k]).len() > 0
}

proof fn lemma_run_keeps_nonempty(st: TokState, s: Seq<char>)
    requires
        tokens_nonempty(st),
    ensures
        tokens_nonempty(tok_run_from(st, s)),
    decreases s.len(),
{
    if s.len() > 0 {
        lemma_run_keeps_nonempty(st, s.drop_last());
        let p = tok_run_from(st, s.drop_last());
        let q = tok_step(p, s.last());
        assert forall|k: int| 0 <= k < q.tokens.len() implies (#[trigger] q.tokens[k]).len()
            > 0 by {
            if k < p.tokens.len() {
                assert(q.tokens[k] == p.tokens[k]);
            }
        }
    }
}

/// No token of a command line is empty.
pub proof fn lemma_tokens_nonempty(s: Seq<char>)
    ensures
        forall|k: int| 0 <= k < tokenize(s).len() ==> (#[trigger] tokenize(s)[k]).len() > 0,
{
    lemma_run_keeps_nonempty(tok_start(), s);
    let st = tok_run_from(tok_start(), s);
    let t = tokenize(s);
    assert forall|k: int| 0 <= k < t.len() implies (#[trigger] t[k]).len() > 0 by {
        if k < st.tokens.len() {
            assert(t[k] == st.tokens[k]);
        }
    }
}

/// Running over `a + b` is running over `a`, then over `b`.
proof fn lemma_run_concat(st: TokState, a: Seq<char>, b: Seq<char>)
    ensures
        tok_run_from(st, a + b) == tok_run_from(tok_run_from(st, a), b),
    decreases b.len(),
{
    if b.len() == 0 {
        assert(a + b =~= a);
    } else {
        assert((a + b).drop_last() =~= a + b.drop_last());
        assert((a + b).last() == b.last());
        lemma_run_concat(st, a, b.drop_last());
    }
}

/// A token that needs no quoting: non-empty, with no space, tab or quote.
pub open spec fn plain_token(t: Seq<char>) -> bool {
    t.len() > 0 && forall|i: int|
        0 <= i < t.len() ==> #[trigger] t[i] != ' ' && t[i] != '\t' && t[i] != '"' && t[i]
            != '\''
}

/// Outside quotes, a word without spaces, tabs or quotes joins the current
/// token.
proof fn lemma_run_word(st: TokState, w: Seq<char>)
    requires
        !st.in_quotes,
        forall|i: int|
            0 <= i < w.len() ==> #[trigger] w[i] != ' ' && w[i] != '\t' && w[i] != '"' && w[i]
                != '\'',
    ensures
        tok_run_from(st, w) == (TokState {
            tokens: st.tokens,
            current: st.current + w,
            in_quotes: false,
            quote: st.quote,
        }),
    decreases w.len(),
{
    if w.len() == 0 {
        assert(st.current + w =~= st.current);
    } else {
        let d = w.drop_last();
        assert forall|i: int| 0 <= i < d.len() implies #[trigger] d[i] != ' ' && d[i] != '\t'
            && d[i] != '"' && d[i] != '\'' by {
            assert(d[i] == w[i]);
        }
        lemma_run_word(st, d);
        assert(w.last() == w[w.len() - 1]);
        assert((st.current + d).push(w.last()) =~= st.current + w);
    }
}

/// The tokenizer state after the tokens written with single spaces between.
proof fn lemma_run_joined(ts: Seq<Seq<char>>)
    requires
        ts.len() >= 1,
        forall|k: int| 0 <= k < ts.len() ==> plain_token(#[trigger] ts[k]),
    ensures
        tok_run_from(tok_start(), join(ts, " "@)) == (TokState {
            tokens: ts.drop_last(),
            current: ts.last(),
            in_quotes: false,
            quote: '"',
        }),
    decreases ts.len(),
{
    reveal_strlit(" ");
    if ts.len() == 1 {
        lemma_run_word(tok_start(), ts[0]);
        assert(Seq::<char>::empty() + ts[0] =~= ts[0]);
        assert(ts.drop_last() =~= Seq::<Seq<char>>::empty());
    } else {
        let dl = ts.drop_last();
        assert forall|k: int| 0 <= k < dl.len() implies plain_token(#[trigger] dl[k]) by {
            assert(dl[k] == ts[k]);
        }
        lemma_run_joined(dl);
        let prefix = join(dl, " "@);
        assert(join(ts, " "@) == prefix + " "@ + ts.last());
        lemma_run_concat(tok_start(), prefix + " "@, ts.last());
        lemma_run_concat(tok_start(), prefix, " "@);
        let p = tok_run_from(tok_start(), prefix);
        assert(" "@.drop_last() =~= Seq::<char>::empty());
        assert(dl.last().len() > 0) by {
            assert(plain_token(dl[dl.len() - 1]));
        }
        assert(" "@.len() == 1);
        assert(" "@.last() == ' ');
        assert(tok_run_from(p, " "@.drop_last()) == p);
        let q = tok_run_from(p, " "@);
        assert(q == tok_step(p, ' '));
        assert(dl.drop_last().push(dl.last()) =~= dl);
        assert(plain_token(ts[ts.len() - 1]));
        lemma_run_word(q, ts.last());
        assert(Seq::<char>::empty() + ts.last() =~= ts.last());
    }
}

/// Tokens that need no quoting, written with single spaces between them,
/// tokenize back to the same tokens.
pub proof fn lemma_tokenize_join(ts: Seq<Seq<char>>)
    requires
        forall|k: int| 0 <= k < ts.len() ==> plain_token(#[trigger] ts[k]),
    ensures
        tokenize(join(ts, " "@)) == ts,
{
    if ts.len() == 0 {
        assert(join(ts, " "@) =~= Seq::<char>::empty());
        assert(tokenize(join(ts, " "@)) =~= ts);
    } else {
        lemma_run_joined(ts);
        assert(plain_token(ts[ts.len() - 1]));
        assert(ts.drop_last().push(ts.last()) =~= ts);
    }
}


/// The label of the argument at a zero-based position: `arg 1`, `arg 2`, ...
pub open spec fn field_label(i: int) -> Seq<char> {
    "arg "@ + decimal((i + 1) as nat)
}

/// True when `form` is the form of the tokens: the first token is the
/// program, and every later token is a field whose default and value are the
/// token.
pub open spec fn is_form_of(form: ParamForm, tokens: Seq<Seq<char>>) -> bool {
    &&& tokens.len() >= 1
    &&& form.program@ == tokens[0]
    &&& form.fields@.len() == tokens.len() - 1
    &&& forall|i: int|
        0 <= i < form.fields@.len() ==> {
            &&& (#[trigger] form.fields@[i]).label@ == field_label(i)
            &&& form.fields@[i].default@ == tokens[i + 1]
            &&& form.fields@[i].value@ == tokens[i + 1]
        }
}

/// The values that will run, in order.
pub open spec fn field_values(fields: Seq<ParamField>) -> Seq<Seq<char>> {
    fields.map_values(|f: ParamField| f.value@)
}

/// The command line that a form runs: the program and the values, joined by
/// single spaces.
pub open spec fn command_spec(form: ParamForm) -> Seq<char> {
    join(seq![form.program@] + field_values(form.fields@), " "@)
}

/// Builds the form of a non-empty list of tokens.
pub fn form_from_tokens(tokens: &[String]) -> (form: ParamForm)
    requires
        tokens@.len() >= 1,
    ensures
        is_form_of(form, tokens.deep_view()),
{
    let program = tokens[0].clone();
    let mut fields: Vec<ParamField> = Vec::new();
    let mut i: usize = 1;
    while i < tokens.len()
        invariant
            1 <= i <= tokens@.len(),
            fields@.len() == i - 1,
            forall|k: int|
                0 <= k < fields@.len() ==> {
                    &&& (#[trigger] fields@[k]).label@ == field_label(k)
                    &&& fields@[k].default@ == tokens.deep_view()[k + 1]
                    &&& fields@[k].value@ == tokens.deep_view()[k + 1]
                },
        decreases tokens@.len() - i,
    {
        let mut label = String::from_str("arg ");
        push_decimal(&mut label, i as u64);
        assert(tokens.deep_view()[i as int] == tokens@[i as int]@);
        let f = ParamField { label, default: tokens[i].clone(), value: tokens[i].clone() };
        fields.push(f);
        i = i + 1;
    }
    assert(tokens.deep_view()[0] == tokens@[0]@);
    ParamForm { program, fields }
}

/// The command-line text of a module entry, empty when there is none.
pub open spec fn entry_cli(entry: ModuleEntry) -> Seq<char> {
    match entry.cli {
        Some(c) => c@,
        None => Seq::<char>::empty(),
    }
}

/// Refusal of a module without a usable entry point.
pub open spec fn no_entry_text(name: Seq<char>, id: Seq<char>) -> Seq<char> {
    "no entry point for "@ + name + ". run sheol check "@ + id
}

/// Builds the form of an entry's command line, or refuses it with
/// `no_entry_text(name, id)` when it holds no token.
fn form_of_entry(entry: &ModuleEntry, name: &str, id: &str) -> (r: Result<ParamForm, PresentError>)
    ensures
        match r {
            Ok(form) => is_form_of(form, tokenize(trim(entry_cli(*entry)))),
            Err(e) => tokenize(trim(entry_cli(*entry))).len() == 0 && e@ == Failure::Usage(
                no_entry_text(name@, id@),
            ),
        },
{
    let cli: &str = match &entry.cli {
        Some(c) => c.as_str(),
        None => "",
    };
    proof {
        reveal_strlit("");
        assert(cli@ == entry_cli(*entry));
    }
    let trimmed = trim_str(cli);
    let tokens = tokenize_cli(trimmed);
    if tokens.len() == 0 {
        let mut m = String::from_str("no entry point for ");
        m.append(name);
        m.append(". run sheol check ");
        m.append(id);
        return Err(PresentError::Usage(m));
    }
    Ok(form_from_tokens(tokens.as_slice()))
}

impl ParamForm {
    /// The form of a shelf module's entry point.
    pub fn from_module(module: &ShelfModule) -> (r: Result<ParamForm, PresentError>)
        ensures
            match r {
                Ok(form) => is_form_of(form, tokenize(trim(entry_cli(module.entry)))),
                Err(e) => tokenize(trim(entry_cli(module.entry))).len() == 0 && e@
                    == Failure::Usage(no_entry_text(module.name@, module.id@)),
            },
    {
        form_of_entry(&module.entry, module.name.as_str(), module.id.as_str())
    }

    /// The form of a local manifest's entry point; the manifest's name
    /// stands for its id.
    pub fn from_manifest(manifest: &ModuleManifest) -> (r: Result<ParamForm, PresentError>)
        ensures
            match r {
                Ok(form) => is_form_of(form, tokenize(trim(entry_cli(manifest.entry)))),
                Err(e) => tokenize(trim(entry_cli(manifest.entry))).len() == 0 && e@
                    == Failure::Usage(no_entry_text(manifest.name@, manifest.name@)),
            },
    {
        form_of_entry(&manifest.entry, manifest.name.as_str(), manifest.name.as_str())
    }

    /// The command line that will run, for showing.
    pub fn command_string(&self) -> (r: String)
        ensures
            r@ == command_spec(*self),
    {
        let mut parts: Vec<String> = Vec::new();
        parts.push(self.program.clone());
        let mut i: usize = 0;
        while i < self.fields.len()
            invariant
                i <= self.fields@.len(),
                parts.deep_view() == seq![self.program@] + field_values(self.fields@).take(
                    i as int,
                ),
            decreases self.fields@.len() - i,
        {
            let ghost before = parts.deep_view();
            parts.push(self.fields[i].value.clone());
            assert(parts.deep_view() =~= before.push(self.fields@[i as int].value@));
            i = i + 1;
            assert(parts.deep_view() =~= seq![self.program@] + field_values(self.fields@).take(
                i as int,
            ));
        }
        assert(field_values(self.fields@).take(self.fields@.len() as int) =~= field_values(
            self.fields@,
        ));
        join_strings(&parts, " ")
    }

    /// Takes the human's answer for the field at `index`: a blank answer
    /// keeps the value, any other answer, trimmed, replaces it.
    pub fn fill_field(&mut self, index: usize, answer: &str)
        requires
            index < old(self).fields@.len(),
        ensures
            final(self).program == old(self).program,
            final(self).fields@.len() == old(self).fields@.len(),
            forall|k: int|
                0 <= k < old(self).fields@.len() && k != index ==> final(self).fields@[k] == old(
                    self,
                ).fields@[k],
            final(self).fields@[index as int].label@ == old(self).fields@[index as int].label@,
            final(self).fields@[index as int].default@ == old(
                self,
            ).fields@[index as int].default@,
            final(self).fields@[index as int].value@ == (if trim(answer@).len() > 0 {
                trim(answer@)
            } else {
                old(self).fields@[index as int].value@
            }),
    {
        let t = trim_str(answer);
        if t.unicode_len() > 0 {
            let f = ParamField {
                label: self.fields[index].label.clone(),
                default: self.fields[index].default.clone(),
                value: owned(t),
            };
            self.fields.set(index, f);
        }
    }
}

/// The prompt for one field: its label, and its default in brackets.
pub open spec fn field_prompt_spec(f: ParamField) -> Seq<char> {
    "  "@ + f.label@ + " ["@ + f.default@ + "]: "@
}

/// The prompt for one field.
pub fn field_prompt(field: &ParamField) -> (r: String)
    ensures
        r@ == field_prompt_spec(*field),
{
    let mut out = String::from_str("  ");
    out.append(field.label.as_str());
    out.append(" [");
    out.append(field.default.as_str());
    out.append("]: ");
    out
}

/// The prompt shown when the entry point takes no argument.
pub open spec fn no_arguments_prompt_spec(program: Seq<char>) -> Seq<char> {
    "entry:  "@ + program + "\nno arguments to fill. press enter to run, or empty to cancel\n"@
}

/// The prompt shown when the entry point takes no argument.
pub fn no_arguments_prompt(form: &ParamForm) -> (r: String)
    ensures
        r@ == no_arguments_prompt_spec(form.program@),
{
    let mut out = String::from_str("entry:  ");
    out.append(form.program.as_str());
    out.append("\nno arguments to fill. press enter to run, or empty to cancel\n");
    out
}

/// The answer to the prompt of an entry point without arguments: a blank
/// answer cancels the run.
pub fn confirm_run(answer: &str) -> (r: Result<(), PresentError>)
    ensures
        match r {
            Ok(()) => !blank(answer@),
            Err(e) => blank(answer@) && e@ == Failure::Cancelled,
        },
{
    proof {
        lemma_trim_empty_iff_blank(answer@);
    }
    if trim_str(answer).unicode_len() == 0 {
        Err(PresentError::Cancelled)
    } else {
        Ok(())
    }
}

/// A fresh form runs the command line it was made from, with single spaces
/// between the tokens; and when no token needs quoting, tokenizing that
/// command line gives the tokens back.
pub proof fn lemma_fresh_form_command(form: ParamForm, tokens: Seq<Seq<char>>)
    requires
        is_form_of(form, tokens),
    ensures
        command_spec(form) == join(tokens, " "@),
        (forall|k: int| 0 <= k < tokens.len() ==> plain_token(#[trigger] tokens[k]))
            ==> tokenize(command_spec(form)) == tokens,
{
    let vals = field_values(form.fields@);
    assert forall|k: int| 0 <= k < tokens.len() implies (seq![form.program@] + vals)[k]
        == tokens[k] by {
        if k > 0 {
            assert(vals[k - 1] == form.fields@[k - 1].value@);
        }
    }
    assert(seq![form.program@] + vals =~= tokens);
    if forall|k: int| 0 <= k < tokens.len() ==> plain_token(#[trigger] tokens[k]) {
        lemma_tokenize_join(tokens);
    }
}


/// The pieces of `s` between spaces and tabs, empty pieces included.
pub open spec fn blank_pieces(s: Seq<char>) -> Seq<Seq<char>>
    decreases s.len(),
{
    if s.len() == 0 {
        seq![Seq::<char>::empty()]
    } else {
        let p = blank_pieces(s.drop_last());
        if s.last() == ' ' || s.last() == '\t' {
            p.push(Seq::<char>::empty())
        } else {
            p.update(p.len() - 1, p.last().push(s.last()))
        }
    }
}

/// The pieces that are not empty, in order.
pub open spec fn non_empty_pieces(ps: Seq<Seq<char>>) -> Seq<Seq<char>>
    decreases ps.len(),
{
    if ps.len() == 0 {
        Seq::<Seq<char>>::empty()
    } else {
        non_empty_pieces(ps.drop_last()) + (if ps.last().len() > 0 {
            seq![ps.last()]
        } else {
            Seq::<Seq<char>>::empty()
        })
    }
}

proof fn lemma_blank_pieces_nonempty(s: Seq<char>)
    ensures
        blank_pieces(s).len() >= 1,
    decreases s.len(),
{
    if s.len() > 0 {
        lemma_blank_pieces_nonempty(s.drop_last());
    }
}

/// Without quotes, the tokenizer has kept the finished non-empty pieces and
/// is building the last piece.
proof fn lemma_run_without_quotes(s: Seq<char>)
    requires
        forall|i: int| 0 <= i < s.len() ==> #[trigger] s[i] != '"' && s[i] != '\'',
    ensures
        tok_run_from(tok_start(), s) == (TokState {
            tokens: non_empty_pieces(blank_pieces(s).drop_last()),
            current: blank_pieces(s).last(),
            in_quotes: false,
            quote: '"',
        }),
    decreases s.len(),
{
    if s.len() == 0 {
        assert(seq![Seq::<char>::empty()].drop_last() =~= Seq::<Seq<char>>::empty());
    } else {
        let d = s.drop_last();
        assert forall|i: int| 0 <= i < d.len() implies #[trigger] d[i] != '"' && d[i] != '\'' by {
            assert(d[i] == s[i]);
        }
        lemma_run_without_quotes(d);
        lemma_blank_pieces_nonempty(d);
        let p = blank_pieces(d);
        let c = s.last();
        assert(c == s[s.len() - 1]);
        if c == ' ' || c == '\t' {
            let q = p.push(Seq::<char>::empty());
            assert(q.drop_last() =~= p);
            assert(p.drop_last().push(p.last()) =~= p);
            if p.last().len() > 0 {
                assert(non_empty_pieces(p) == non_empty_pieces(p.drop_last()).push(p.last()));
            } else {
                assert(non_empty_pieces(p) =~= non_empty_pieces(p.drop_last()));
            }
        } else {
            let q = p.update(p.len() - 1, p.last().push(c));
            assert(q.drop_last() =~= p.drop_last());
        }
    }
}

/// A command line without quotes splits on spaces and tabs, with empty
/// words dropped.
pub proof fn lemma_tokenize_without_quotes(s: Seq<char>)
    requires
        forall|i: int| 0 <= i < s.len() ==> #[trigger] s[i] != '"' && s[i] != '\'',
    ensures
        tokenize(s) == non_empty_pieces(blank_pieces(s)),
{
    lemma_run_without_quotes(s);
    lemma_blank_pieces_nonempty(s);
    let p = blank_pieces(s);
    assert(p.drop_last().push(p.last()) =~= p);
    if p.last().len() > 0 {
        assert(non_empty_pieces(p) == non_empty_pieces(p.drop_last()).push(p.last()));
    } else {
        assert(non_empty_pieces(p) =~= non_empty_pieces(p.drop_last()));
    }
}


/// Inside double quotes, text without a double quote joins the current
/// token whole, spaces, tabs and single quotes included.
proof fn lemma_run_quoted(st: TokState, w: Seq<char>)
    requires
        st.in_quotes,
        st.quote == '"',
        forall|i: int| 0 <= i < w.len() ==> #[trigger] w[i] != '"',
    ensures
        tok_run_from(st, w) == (TokState {
            tokens: st.tokens,
            current: st.current + w,
            in_quotes: true,
            quote: '"',
        }),
    decreases w.len(),
{
    if w.len() == 0 {
        assert(st.current + w =~= st.current);
    } else {
        let d = w.drop_last();
        assert forall|i: int| 0 <= i < d.len() implies #[trigger] d[i] != '"' by {
            assert(d[i] == w[i]);
        }
        lemma_run_quoted(st, d);
        assert(w.last() == w[w.len() - 1]);
        assert((st.current + d).push(w.last()) =~= st.current + w);
    }
}

/// A quote that opens inside a word does not end the word: a word `a`
/// followed by a double-quoted run `b` is one token, `a` then `b`, with
/// the quotes dropped and the blanks inside the quotes kept.
pub proof fn lemma_quote_joins_word(a: Seq<char>, b: Seq<char>)
    requires
        a.len() > 0,
        forall|i: int|
            0 <= i < a.len() ==> #[trigger] a[i] != ' ' && a[i] != '\t' && a[i] != '"' && a[i]
                != '\'',
        forall|i: int| 0 <= i < b.len() ==> #[trigger] b[i] != '"',
    ensures
        tokenize(a + seq!['"'] + b + seq!['"']) == seq![a + b],
{
    let st0 = tok_start();
    lemma_run_word(st0, a);
    let st1 = tok_run_from(st0, a);
    assert(Seq::<char>::empty() + a =~= a);
    assert(st1.current == a);
    lemma_run_concat(st0, a, seq!['"']);
    assert(seq!['"'].drop_last() =~= Seq::<char>::empty());
    assert(seq!['"'].last() == '"');
    assert(tok_run_from(st1, seq!['"'].drop_last()) == st1);
    let st2 = tok_run_from(st0, a + seq!['"']);
    assert(st2 == tok_step(st1, '"'));
    assert(st2.in_quotes && st2.quote == '"' && st2.current == a);
    lemma_run_concat(st0, a + seq!['"'], b);
    lemma_run_quoted(st2, b);
    let st3 = tok_run_from(st0, a + seq!['"'] + b);
    assert(st3.current == a + b && st3.in_quotes && st3.tokens.len() == 0);
    lemma_run_concat(st0, a + seq!['"'] + b, seq!['"']);
    assert(tok_run_from(st3, seq!['"'].drop_last()) == st3);
    let st4 = tok_run_from(st0, a + seq!['"'] + b + seq!['"']);
    assert(st4 == tok_step(st3, '"'));
    assert(st4.current == a + b && st4.tokens.len() == 0);
    assert((a + b).len() > 0);
    assert(st4.tokens.push(st4.current) =~= seq![a + b]);
}


/// Inside quotes opened by `q`, text without `q` joins the current token
/// whole.
proof fn lemma_run_inside_quotes(st: TokState, w: Seq<char>)
    requires
        st.in_quotes,
        forall|i: int| 0 <= i < w.len() ==> #[trigger] w[i] != st.quote,
    ensures
        tok_run_from(st, w) == (TokState {
            tokens: st.tokens,
            current: st.current + w,
            in_quotes: true,
            quote: st.quote,
        }),
    decreases w.len(),
{
    if w.len() == 0 {
        assert(st.current + w =~= st.current);
    } else {
        let d = w.drop_last();
        assert forall|i: int| 0 <= i < d.len() implies #[trigger] d[i] != st.quote by {
            assert(d[i] == w[i]);
        }
        lemma_run_inside_quotes(st, d);
        assert(w.last() == w[w.len() - 1]);
        assert((st.current + d).push(w.last()) =~= st.current + w);
    }
}

/// Either quote groups a run: a word `a` (possibly empty) followed by a run
/// `b` in single or double quotes, where `b` does not hold that quote, is
/// one token `a` then `b` when that is not empty, and no token otherwise.
/// Blanks and the other quote inside the run are kept.
pub proof fn lemma_quoted_run(a: Seq<char>, q: char, b: Seq<char>)
    requires
        q == '"' || q == '\'',
        forall|i: int|
            0 <= i < a.len() ==> #[trigger] a[i] != ' ' && a[i] != '\t' && a[i] != '"' && a[i]
                != '\'',
        forall|i: int| 0 <= i < b.len() ==> #[trigger] b[i] != q,
    ensures
        tokenize(a + seq![q] + b + seq![q]) == (if (a + b).len() > 0 {
            seq![a + b]
        } else {
            Seq::<Seq<char>>::empty()
        }),
{
    let st0 = tok_start();
    lemma_run_word(st0, a);
    let st1 = tok_run_from(st0, a);
    assert(Seq::<char>::empty() + a =~= a);
    lemma_run_concat(st0, a, seq![q]);
    assert(seq![q].drop_last() =~= Seq::<char>::empty());
    assert(seq![q].last() == q);
    assert(tok_run_from(st1, seq![q].drop_last()) == st1);
    let st2 = tok_run_from(st0, a + seq![q]);
    assert(st2 == tok_step(st1, q));
    lemma_run_concat(st0, a + seq![q], b);
    lemma_run_inside_quotes(st2, b);
    let st3 = tok_run_from(st0, a + seq![q] + b);
    lemma_run_concat(st0, a + seq![q] + b, seq![q]);
    assert(tok_run_from(st3, seq![q].drop_last()) == st3);
    let st4 = tok_run_from(st0, a + seq![q] + b + seq![q]);
    assert(st4 == tok_step(st3, q));
    assert(st4.current == a + b && st4.tokens.len() == 0);
    if (a + b).len() > 0 {
        assert(st4.tokens.push(st4.current) =~= seq![a + b]);
    } else {
        assert(st4.tokens =~= Seq::<Seq<char>>::empty());
    }
}

} // verus!
