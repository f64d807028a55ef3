//! The shelf of modules: finding a module by name or id, and reading what
//! `sheol search` answered.

use vstd::prelude::*;

use crate::error::{Failure, PresentError};
use crate::protocol::{Shelf, ShelfModule};
use crate::text::{
    ascii_lowered, is_ascii_text,
    debug_quote, debug_str, has_substring, contains_str, owned, trim, trim_str,
};

verus! {

/// What `str::to_lowercase` gives for text that is not all ASCII.
pub uninterp spec fn unicode_lowercase(s: Seq<char>) -> Seq<char>;

/// The lower case of a text, as `str::to_lowercase` gives it: on ASCII text
/// it lowers the letters `A` to `Z` and keeps every other character.
pub open spec fn lowercase(s: Seq<char>) -> Seq<char> {
    if is_ascii_text(s) {
        ascii_lowered(s)
    } else {
        unicode_lowercase(s)
    }
}

/// `str::to_lowercase`: on ASCII text it is the ASCII lowering (the Unicode
/// lower-case mapping of ASCII maps `A`-`Z` to `a`-`z` and keeps the rest,
/// as the documentation of `str::to_ascii_lowercase` points out); on other
/// text its result is named `unicode_lowercase`, a function of the text
/// alone.
#[verifier::external_body]
pub(crate) fn to_lower(s: &str) -> (r: String)
    ensures
        is_ascii_text(s@) ==> r@ == ascii_lowered(s@),
        !is_ascii_text(s@) ==> r@ == unicode_lowercase(s@),
{
    s.to_lowercase()
}

/// The decoding of bytes as UTF-8 with replacement characters.
pub uninterp spec fn lossy_text(b: Seq<u8>) -> Seq<char>;

/// `String::from_utf8_lossy`: its result is named `lossy_text`, a function
/// of the bytes alone.
#[verifier::external_body]
pub(crate) fn utf8_lossy(b: &[u8]) -> (r: String)
    ensures
        r@ == lossy_text(b@),
{
    String::from_utf8_lossy(b).into_owned()
}

/// The index of the first module that satisfies `p`.
pub open spec fn first_where(mods: Seq<ShelfModule>, p: spec_fn(ShelfModule) -> bool) -> Option<
    int,
>
    decreases mods.len(),
{
    if mods.len() == 0 {
        None
    } else {
        match first_where(mods.drop_last(), p) {
            Some(i) => Some(i),
            None => if p(mods.last()) {
                Some(mods.len() - 1)
            } else {
                None
            },
        }
    }
}

/// A module that a query names exactly: by name, by id, or by name in lower
/// case.
pub open spec fn exact_match(m: ShelfModule, query: Seq<char>, lower: Seq<char>) -> bool {
    m.name@ == query || m.id@ == query || m.name@ == lower
}

/// A module whose name or id holds the lower-case query.
pub open spec fn loose_match(m: ShelfModule, lower: Seq<char>) -> bool {
    has_substring(m.name@, lower) || has_substring(m.id@, lower)
}

/// The module that a query names: the first exact match, else the first
/// module whose name or id holds the lower-case query.
pub open spec fn name_lookup(mods: Seq<ShelfModule>, query: Seq<char>) -> Option<int> {
    let lower = lowercase(query);
    match first_where(mods, |m: ShelfModule| exact_match(m, query, lower)) {
        Some(i) => Some(i),
        None => first_where(mods, |m: ShelfModule| loose_match(m, lower)),
    }
}

proof fn lemma_first_where_prefix(mods: Seq<ShelfModule>, p: spec_fn(ShelfModule) -> bool, k: int)
    requires
        0 <= k < mods.len(),
        first_where(mods.take(k), p) is None,
    ensures
        first_where(mods.take(k + 1), p) == (if p(mods[k]) {
            Some(k)
        } else {
            None::<int>
        }),
{
    assert(mods.take(k + 1).drop_last() =~= mods.take(k));
}

proof fn lemma_first_where_extends(
    mods: Seq<ShelfModule>,
    p: spec_fn(ShelfModule) -> bool,
    k: int,
    j: int,
)
    requires
        0 <= k <= mods.len(),
        first_where(mods.take(k), p) == Some(j),
    ensures
        first_where(mods, p) == Some(j),
    decreases mods.len(),
{
    if k == mods.len() {
        assert(mods.take(k) =~= mods);
    } else {
        assert(mods.drop_last().take(k) =~= mods.take(k));
        lemma_first_where_extends(mods.drop_last(), p, k, j);
    }
}

proof fn lemma_first_where_bounds(mods: Seq<ShelfModule>, p: spec_fn(ShelfModule) -> bool)
    ensures
        first_where(mods, p) matches Some(i) ==> 0 <= i < mods.len() && p(mods[i]),
    decreases mods.len(),
{
    if mods.len() > 0 {
        lemma_first_where_bounds(mods.drop_last(), p);
    }
}

/// The index of the first module that a query names exactly.
fn first_exact(mods: &Vec<ShelfModule>, query: &str, lower: &str) -> (r: Option<usize>)
    ensures
        match r {
            Some(i) => first_where(mods@, |m: ShelfModule| exact_match(m, query@, lower@)) == Some(
                i as int,
            ),
            None => first_where(mods@, |m: ShelfModule| exact_match(m, query@, lower@)) is None,
        },
{
    let ghost p = |m: ShelfModule| exact_match(m, query@, lower@);
    let mut i: usize = 0;
    assert(mods@.take(0) =~= Seq::<ShelfModule>::empty());
    while i < mods.len()
        invariant
            i <= mods@.len(),
            p == (|m: ShelfModule| exact_match(m, query@, lower@)),
            first_where(mods@.take(i as int), p) is None,
        decreases mods@.len() - i,
    {
        proof {
            lemma_first_where_prefix(mods@, p, i as int);
        }
        let m = &mods[i];
        if same_text(&m.name, query) || same_text(&m.id, query) || same_text(&m.name, lower) {
            assert(p(mods@[i as int]));
            proof {
                lemma_first_where_extends(mods@, p, i + 1, i as int);
            }
            return Some(i);
        }
        i = i + 1;
    }
    assert(mods@.take(mods@.len() as int) =~= mods@);
    None
}

/// Compares a string with a text.
fn same_text(a: &String, b: &str) -> (r: bool)
    ensures
        r == (a@ == b@),
{
    let x = owned(b);
    *a == x
}

/// The index of the first module whose name or id holds `lower`.
fn first_loose(mods: &Vec<ShelfModule>, lower: &str) -> (r: Option<usize>)
    ensures
        match r {
            Some(i) => first_where(mods@, |m: ShelfModule| loose_match(m, lower@)) == Some(
                i as int,
            ),
            None => first_where(mods@, |m: ShelfModule| loose_match(m, lower@)) is None,
        },
{
    let ghost p = |m: ShelfModule| loose_match(m, lower@);
    let mut i: usize = 0;
    assert(mods@.take(0) =~= Seq::<ShelfModule>::empty());
    while i < mods.len()
        invariant
            i <= mods@.len(),
            p == (|m: ShelfModule| loose_match(m, lower@)),
            first_where(mods@.take(i as int), p) is None,
        decreases mods@.len() - i,
    {
        proof {
            lemma_first_where_prefix(mods@, p, i as int);
        }
        let m = &mods[i];
        if contains_str(m.name.as_str(), lower) || contains_str(m.id.as_str(), lower) {
            assert(p(mods@[i as int]));
            proof {
                lemma_first_where_extends(mods@, p, i + 1, i as int);
            }
            return Some(i);
        }
        i = i + 1;
    }
    assert(mods@.take(mods@.len() as int) =~= mods@);
    None
}

/// Finds the module that a query names: an exact match of name or id (or of
/// the name against the lower-case query) first, then the first module whose
/// name or id holds the lower-case query.
pub fn find_by_name<'a>(shelf: &'a Shelf, query: &str) -> (r: Option<&'a ShelfModule>)
    ensures
        match name_lookup(shelf.modules@, query@) {
            Some(i) => 0 <= i < shelf.modules@.len() && r == Some(&shelf.modules@[i]),
            None => r is None,
        },
{
    let lower = to_lower(query);
    let mods = &shelf.modules;
    proof {
        lemma_first_where_bounds(mods@, |m: ShelfModule| exact_match(m, query@, lower@));
        lemma_first_where_bounds(mods@, |m: ShelfModule| loose_match(m, lower@));
    }
    match first_exact(mods, query, lower.as_str()) {
        Some(i) => Some(&mods[i]),
        None => match first_loose(mods, lower.as_str()) {
            Some(i) => Some(&mods[i]),
            None => None,
        },
    }
}

/// `first_where` finds the first module that satisfies the test.
proof fn lemma_first_where_first(mods: Seq<ShelfModule>, p: spec_fn(ShelfModule) -> bool)
    ensures
        match first_where(mods, p) {
            Some(i) => 0 <= i < mods.len() && p(mods[i]) && forall|j: int|
                0 <= j < i ==> !p(#[trigger] mods[j]),
            None => forall|j: int| 0 <= j < mods.len() ==> !p(#[trigger] mods[j]),
        },
    decreases mods.len(),
{
    if mods.len() > 0 {
        let dl = mods.drop_last();
        lemma_first_where_first(dl, p);
        assert forall|j: int| 0 <= j < dl.len() implies dl[j] == mods[j] by {}
        assert(mods.last() == mods[mods.len() - 1]);
    }
}

/// When no module is named exactly, the lookup is the first module whose
/// name or id holds the query in lower case, so the case of the query does
/// not matter.
pub proof fn lemma_lookup_falls_back_to_lowercase(mods: Seq<ShelfModule>, q: Seq<char>)
    requires
        forall|j: int|
            0 <= j < mods.len() ==> (#[trigger] mods[j]).name@ != q && mods[j].id@ != q
                && mods[j].name@ != lowercase(q),
    ensures
        match name_lookup(mods, q) {
            Some(i) => 0 <= i < mods.len() && (has_substring(mods[i].name@, lowercase(q))
                || has_substring(mods[i].id@, lowercase(q))) && forall|j: int|
                0 <= j < i ==> !has_substring((#[trigger] mods[j]).name@, lowercase(q))
                    && !has_substring(mods[j].id@, lowercase(q)),
            None => forall|j: int|
                0 <= j < mods.len() ==> !has_substring((#[trigger] mods[j]).name@, lowercase(q))
                    && !has_substring(mods[j].id@, lowercase(q)),
        },
{
    let lower = lowercase(q);
    let pe = |m: ShelfModule| exact_match(m, q, lower);
    let pl = |m: ShelfModule| loose_match(m, lower);
    lemma_first_where_first(mods, pe);
    lemma_first_where_first(mods, pl);
    if let Some(i) = first_where(mods, pe) {
        assert(pe(mods[i]));
        assert(false);
    }
    match first_where(mods, pl) {
        Some(i) => {
            assert(pl(mods[i]));
            assert forall|j: int| 0 <= j < i implies !has_substring(
                (#[trigger] mods[j]).name@,
                lower,
            ) && !has_substring(mods[j].id@, lower) by {
                assert(!pl(mods[j]));
            }
        },
        None => {
            assert forall|j: int| 0 <= j < mods.len() implies !has_substring(
                (#[trigger] mods[j]).name@,
                lower,
            ) && !has_substring(mods[j].id@, lower) by {
                assert(!pl(mods[j]));
            }
        },
    }
}

/// A module named exactly wins: when some module's name or id is the query,
/// or its name is the query in lower case, the lookup is the first such
/// module.
pub proof fn lemma_lookup_prefers_exact(mods: Seq<ShelfModule>, q: Seq<char>, k: int)
    requires
        0 <= k < mods.len(),
        mods[k].name@ == q || mods[k].id@ == q || mods[k].name@ == lowercase(q),
    ensures
        name_lookup(mods, q) matches Some(i) && 0 <= i <= k && (mods[i].name@ == q
            || mods[i].id@ == q || mods[i].name@ == lowercase(q)) && forall|j: int|
            0 <= j < i ==> !((#[trigger] mods[j]).name@ == q || mods[j].id@ == q || mods[j].name@
                == lowercase(q)),
{
    let lower = lowercase(q);
    let pe = |m: ShelfModule| exact_match(m, q, lower);
    lemma_first_where_first(mods, pe);
    assert(pe(mods[k]));
    if let Some(i) = first_where(mods, pe) {
        assert(pe(mods[i]));
        if i > k {
            assert(!pe(mods[k]));
        }
        assert forall|j: int| 0 <= j < i implies !((#[trigger] mods[j]).name@ == q || mods[j].id@
            == q || mods[j].name@ == lower) by {
            assert(!pe(mods[j]));
        }
    }
}

/// Two queries with the same lower case that name no module exactly find
/// the same module.
pub proof fn lemma_lookup_same_lowercase(mods: Seq<ShelfModule>, q1: Seq<char>, q2: Seq<char>)
    requires
        lowercase(q1) == lowercase(q2),
        forall|j: int|
            0 <= j < mods.len() ==> (#[trigger] mods[j]).name@ != q1 && mods[j].id@ != q1
                && mods[j].name@ != lowercase(q1),
        forall|j: int|
            0 <= j < mods.len() ==> (#[trigger] mods[j]).name@ != q2 && mods[j].id@ != q2
                && mods[j].name@ != lowercase(q2),
    ensures
        name_lookup(mods, q1) == name_lookup(mods, q2),
{
    lemma_lookup_falls_back_to_lowercase(mods, q1);
    lemma_lookup_falls_back_to_lowercase(mods, q2);
    let l = lowercase(q1);
    match (name_lookup(mods, q1), name_lookup(mods, q2)) {
        (Some(i), Some(k)) => {
            if i < k {
                assert(!has_substring(mods[i].name@, l) && !has_substring(mods[i].id@, l));
            }
            if k < i {
                assert(!has_substring(mods[k].name@, l) && !has_substring(mods[k].id@, l));
            }
        },
        (Some(i), None) => {
            assert(!has_substring(mods[i].name@, l) && !has_substring(mods[i].id@, l));
        },
        (None, Some(k)) => {
            assert(!has_substring(mods[k].name@, l) && !has_substring(mods[k].id@, l));
        },
        (None, None) => {},
    }
}

/// Refusal of a name that no module on the shelf answers to.
pub open spec fn unknown_module_text(name: Seq<char>) -> Seq<char> {
    "no module named "@ + debug_str(name)
        + " on the shelf. run sheol search to see what is there"@
}

/// The module that `--module <name>` names, or the usage error that says
/// none does.
pub fn module_named<'a>(shelf: &'a Shelf, name: &str) -> (r: Result<&'a ShelfModule, PresentError>)
    ensures
        match name_lookup(shelf.modules@, name@) {
            Some(i) => r == Ok::<&ShelfModule, PresentError>(&shelf.modules@[i]),
            None => r matches Err(e) && e@ == Failure::Usage(unknown_module_text(name@)),
        },
{
    match find_by_name(shelf, name) {
        Some(m) => Ok(m),
        None => {
            let mut msg = String::from_str("no module named ");
            msg.append(debug_quote(name).as_str());
            msg.append(" on the shelf. run sheol search to see what is there");
            Err(PresentError::Usage(msg))
        },
    }
}

/// The module with the given id, the first such, or the error that says the
/// picked id is gone.
pub fn module_with_id<'a>(shelf: &'a Shelf, id: &str) -> (r: Result<&'a ShelfModule, PresentError>)
    ensures
        match first_where(shelf.modules@, |m: ShelfModule| m.id@ == id@) {
            Some(i) => 0 <= i < shelf.modules@.len() && r == Ok::<&ShelfModule, PresentError>(
                &shelf.modules@[i],
            ),
            None => r matches Err(e) && e@ == Failure::Bad(
                "picked "@ + id@ + " but could not find it"@,
            ),
        },
{
    let mods = &shelf.modules;
    let ghost p = |m: ShelfModule| m.id@ == id@;
    proof {
        lemma_first_where_bounds(mods@, p);
    }
    let mut i: usize = 0;
    assert(mods@.take(0) =~= Seq::<ShelfModule>::empty());
    while i < mods.len()
        invariant
            i <= mods@.len(),
            p == (|m: ShelfModule| m.id@ == id@),
            mods == &shelf.modules,
            first_where(mods@.take(i as int), p) is None,
        decreases mods@.len() - i,
    {
        proof {
            lemma_first_where_prefix(mods@, p, i as int);
        }
        if same_text(&mods[i].id, id) {
            assert(p(mods@[i as int]));
            proof {
                lemma_first_where_extends(mods@, p, i + 1, i as int);
            }
            return Ok(&mods[i]);
        }
        i = i + 1;
    }
    assert(mods@.take(mods@.len() as int) =~= mods@);
    let mut msg = String::from_str("picked ");
    msg.append(id);
    msg.append(" but could not find it");
    Err(PresentError::Bad(msg))
}

/// Refusal when `sheol` cannot be started.
pub open spec fn sheol_missing_text() -> Seq<char> {
    "sheol is not on PATH. install it: cargo build --release && install -m755 target/release/sheol ~/.local/bin/sheol"@
}

/// The error for a `sheol` that cannot be started.
pub fn sheol_missing() -> (r: PresentError)
    ensures
        r@ == Failure::Usage(sheol_missing_text()),
{
    PresentError::Usage(
        String::from_str(
            "sheol is not on PATH. install it: cargo build --release && install -m755 target/release/sheol ~/.local/bin/sheol",
        ),
    )
}

/// What `sheol search --json` answered: the trimmed stdout when it
/// succeeded with something to say; else why not.
pub open spec fn search_spec(success: bool, stdout: Seq<u8>, stderr: Seq<u8>) -> Result<
    Seq<char>,
    Failure,
> {
    if !success {
        let why = trim(lossy_text(stderr));
        Err(
            Failure::Bad(
                "sheol search failed: "@ + (if why.len() == 0 {
                    "unknown error"@
                } else {
                    why
                }),
            ),
        )
    } else if trim(lossy_text(stdout)).len() == 0 {
        Err(Failure::Bad("sheol search returned nothing. the shelf may be empty or unreachable"@))
    } else {
        Ok(trim(lossy_text(stdout)))
    }
}

/// Reads the outcome of `sheol search --json`.
pub fn search_output(success: bool, stdout: &[u8], stderr: &[u8]) -> (r: Result<
    String,
    PresentError,
>)
    ensures
        match r {
            Ok(t) => search_spec(success, stdout@, stderr@) == Ok::<Seq<char>, Failure>(t@),
            Err(e) => search_spec(success, stdout@, stderr@) == Err::<Seq<char>, Failure>(e@),
        },
{
    if !success {
        let err = utf8_lossy(stderr);
        let why = trim_str(err.as_str());
        let mut m = String::from_str("sheol search failed: ");
        if why.unicode_len() == 0 {
            m.append("unknown error");
        } else {
            m.append(why);
        }
        return Err(PresentError::Bad(m));
    }
    let out = utf8_lossy(stdout);
    let t = trim_str(out.as_str());
    if t.unicode_len() == 0 {
        return Err(
            PresentError::Bad(
                String::from_str(
                    "sheol search returned nothing. the shelf may be empty or unreachable",
                ),
            ),
        );
    }
    Ok(owned(t))
}

/// The error for a shelf listing that does not parse, with the parser's
/// reason.
pub fn shelf_parse_error(detail: &str) -> (r: PresentError)
    ensures
        r@ == Failure::Bad("sheol search returned json present could not parse: "@ + detail@),
{
    let mut m = String::from_str("sheol search returned json present could not parse: ");
    m.append(detail);
    PresentError::Bad(m)
}

/// The header printed above a module's form: name, description, then input
/// and output when they are given, then an empty line.
pub open spec fn header_spec(
    name: Seq<char>,
    description: Seq<char>,
    input: Seq<char>,
    output: Seq<char>,
) -> Seq<char> {
    name + "\n"@ + description + "\n"@ + (if input.len() > 0 {
        "input:  "@ + input + "\n"@
    } else {
        Seq::<char>::empty()
    }) + (if output.len() > 0 {
        "output: "@ + output + "\n"@
    } else {
        Seq::<char>::empty()
    }) + "\n"@
}

/// The header printed above a module's form.
pub fn header_text(name: &str, description: &str, input: &str, output: &str) -> (r: String)
    ensures
        r@ == header_spec(name@, description@, input@, output@),
{
    let mut out = owned(name);
    out.append("\n");
    out.append(description);
    out.append("\n");
    let ghost mid = out@;
    if input.unicode_len() > 0 {
        out.append("input:  ");
        out.append(input);
        out.append("\n");
    }
    assert(out@ =~= mid + (if input@.len() > 0 {
        "input:  "@ + input@ + "\n"@
    } else {
        Seq::<char>::empty()
    }));
    let ghost mid2 = out@;
    if output.unicode_len() > 0 {
        out.append("output: ");
        out.append(output);
        out.append("\n");
    }
    assert(out@ =~= mid2 + (if output@.len() > 0 {
        "output: "@ + output@ + "\n"@
    } else {
        Seq::<char>::empty()
    }));
    out.append("\n");
    out
}

} // verus!
