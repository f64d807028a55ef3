//! The decisions of the full-screen picker and of the shelf browser: how
//! each key moves the selection, edits the filter or ends the session.
//! Drawing and reading keys stay with the terminal code that calls these.

use vstd::prelude::*;

use vstd::arithmetic::div_mod::{lemma_add_mod_noop_right, lemma_fundamental_div_mod_converse};

use crate::error::{Failure, PresentError};
use crate::protocol::{AskRequest, ShelfModule};
use crate::shelf::{lowercase, to_lower};
use crate::text::{
    ascii_lower, ascii_lowered, ascii_raised, ascii_upper, contains_str, has_substring, is_ascii_text,
    is_control, is_control_char, occurs_at, pop_char, push_char,
};

verus! {

/// A key press, as the picker and the browser tell keys apart.
#[derive(PartialEq, Eq, Structural, Debug, Clone, Copy)]
pub enum Key {
    Esc,
    Enter,
    Up,
    Down,
    Backspace,
    Char(char),
    Other,
}

/// True when a module's name, description, id or one of its tags holds the
/// lower-case query, each compared in lower case.
pub open spec fn module_matches(m: ShelfModule, lower: Seq<char>) -> bool {
    ||| has_substring(lowercase(m.name@), lower)
    ||| has_substring(lowercase(m.description@), lower)
    ||| has_substring(lowercase(m.id@), lower)
    ||| exists|k: int| 0 <= k < m.tags@.len() && has_substring(lowercase(m.tags@[k]@), lower)
}

/// The indices of the modules that match, in order.
pub open spec fn matching_indices(mods: Seq<ShelfModule>, lower: Seq<char>) -> Seq<usize>
    decreases mods.len(),
{
    if mods.len() == 0 {
        Seq::<usize>::empty()
    } else {
        matching_indices(mods.drop_last(), lower) + (if module_matches(mods.last(), lower) {
            seq![(mods.len() - 1) as usize]
        } else {
            Seq::<usize>::empty()
        })
    }
}

/// The indices of the modules that the browser lists for a query: all of
/// them for an empty query, else those that match it in lower case.
pub open spec fn filter_spec(mods: Seq<ShelfModule>, query: Seq<char>) -> Seq<usize> {
    if query.len() == 0 {
        Seq::new(mods.len(), |i: int| i as usize)
    } else {
        matching_indices(mods, lowercase(query))
    }
}

/// Matching indices are valid and strictly increasing.
proof fn lemma_matching_indices_sorted(mods: Seq<ShelfModule>, lower: Seq<char>)
    requires
        mods.len() <= usize::MAX,
    ensures
        forall|k: int|
            0 <= k < matching_indices(mods, lower).len() ==> #[trigger] matching_indices(
                mods,
                lower,
            )[k] < mods.len(),
        forall|a: int, b: int|
            0 <= a < b < matching_indices(mods, lower).len() ==> #[trigger] matching_indices(
                mods,
                lower,
            )[a] < #[trigger] matching_indices(mods, lower)[b],
    decreases mods.len(),
{
    if mods.len() > 0 {
        let dl = mods.drop_last();
        lemma_matching_indices_sorted(dl, lower);
        let p = matching_indices(dl, lower);
        let m = matching_indices(mods, lower);
        assert forall|k: int| 0 <= k < m.len() implies #[trigger] m[k] < mods.len() by {
            if k < p.len() {
                assert(m[k] == p[k]);
            }
        }
        assert forall|a: int, b: int| 0 <= a < b < m.len() implies #[trigger] m[a]
            < #[trigger] m[b] by {
            assert(m[a] == p[a]);
            if b < p.len() {
                assert(m[b] == p[b]);
            } else {
                assert(m[b] == mods.len() - 1);
            }
        }
    }
}

/// An index is listed exactly when it names a module that matches.
proof fn lemma_matching_indices_members(mods: Seq<ShelfModule>, lower: Seq<char>, i: int)
    requires
        mods.len() <= usize::MAX,
    ensures
        matching_indices(mods, lower).contains(i as usize) && 0 <= i <= usize::MAX <==> (0 <= i
            < mods.len() && module_matches(mods[i], lower)),
    decreases mods.len(),
{
    if mods.len() > 0 {
        let dl = mods.drop_last();
        lemma_matching_indices_members(dl, lower, i);
        lemma_matching_indices_sorted(dl, lower);
        let p = matching_indices(dl, lower);
        let m = matching_indices(mods, lower);
        if 0 <= i <= usize::MAX && m.contains(i as usize) {
            let k = choose|k: int| 0 <= k < m.len() && m[k] == i as usize;
            if k < p.len() {
                assert(m[k] == p[k]);
                assert(p.contains(i as usize));
                assert(dl[i] == mods[i]);
            }
        }
        if 0 <= i < mods.len() && module_matches(mods[i], lower) {
            if i < dl.len() {
                assert(dl[i] == mods[i]);
                let k = choose|k: int| 0 <= k < p.len() && p[k] == i as usize;
                assert(m[k] == p[k]);
            } else {
                assert(m[p.len() as int] == i as usize);
            }
        }
    } else {
        assert(matching_indices(mods, lower) =~= Seq::<usize>::empty());
    }
}

/// A text that holds `b`, where `b` holds `a`, holds `a`.
proof fn lemma_substring_trans(x: Seq<char>, b: Seq<char>, a: Seq<char>)
    requires
        has_substring(x, b),
        has_substring(b, a),
    ensures
        has_substring(x, a),
{
    let i = choose|i: int| occurs_at(x, b, i);
    let j = choose|j: int| occurs_at(b, a, j);
    assert(x.subrange(i + j, i + j + a.len()) =~= b.subrange(j, j + a.len()));
    assert(occurs_at(x, a, i + j));
}

/// For queries that are not empty, what the browser lists depends on the
/// query only through its lower case: queries with the same lower case list
/// the same modules.
pub proof fn lemma_filter_by_lowercase(mods: Seq<ShelfModule>, q1: Seq<char>, q2: Seq<char>)
    requires
        q1.len() > 0,
        q2.len() > 0,
        lowercase(q1) == lowercase(q2),
    ensures
        filter_spec(mods, q1) == filter_spec(mods, q2),
{
}

/// When the lower case of the longer query holds the lower case of the
/// shorter one, the longer query lists no module that the shorter one does
/// not: typing more never adds a match.
pub proof fn lemma_filter_narrows(mods: Seq<ShelfModule>, q1: Seq<char>, q2: Seq<char>)
    requires
        mods.len() <= usize::MAX,
        q1.len() > 0 ==> q2.len() > 0 && has_substring(lowercase(q2), lowercase(q1)),
    ensures
        forall|k: int|
            0 <= k < filter_spec(mods, q2).len() ==> filter_spec(mods, q1).contains(
                #[trigger] filter_spec(mods, q2)[k],
            ),
{
    let f2 = filter_spec(mods, q2);
    let f1 = filter_spec(mods, q1);
    assert forall|k: int| 0 <= k < f2.len() implies f1.contains(#[trigger] f2[k]) by {
        let i = f2[k] as int;
        if q2.len() > 0 {
            lemma_matching_indices_members(mods, lowercase(q2), i);
            assert(f2.contains(i as usize));
        }
        assert(0 <= i < mods.len());
        if q1.len() == 0 {
            assert(f1[i] == i as usize);
        } else {
            let l1 = lowercase(q1);
            let l2 = lowercase(q2);
            let m = mods[i];
            if has_substring(lowercase(m.name@), l2) {
                lemma_substring_trans(lowercase(m.name@), l2, l1);
            } else if has_substring(lowercase(m.description@), l2) {
                lemma_substring_trans(lowercase(m.description@), l2, l1);
            } else if has_substring(lowercase(m.id@), l2) {
                lemma_substring_trans(lowercase(m.id@), l2, l1);
            } else {
                let t = choose|t: int|
                    0 <= t < m.tags@.len() && has_substring(lowercase(m.tags@[t]@), l2);
                lemma_substring_trans(lowercase(m.tags@[t]@), l2, l1);
            }
            lemma_matching_indices_members(mods, l1, i);
        }
    }
}

/// The listed indices name modules.
pub proof fn lemma_filter_in_bounds(mods: Seq<ShelfModule>, query: Seq<char>)
    requires
        mods.len() <= usize::MAX,
    ensures
        forall|k: int|
            0 <= k < filter_spec(mods, query).len() ==> #[trigger] filter_spec(mods, query)[k]
                < mods.len(),
{
    if query.len() > 0 {
        lemma_matching_indices_sorted(mods, lowercase(query));
    }
}

/// For an ASCII query, typing more never adds a match: every module that
/// the longer query lists, a query that it starts with lists too.
pub proof fn lemma_filter_ascii_narrows(mods: Seq<ShelfModule>, q1: Seq<char>, q2: Seq<char>)
    requires
        mods.len() <= usize::MAX,
        is_ascii_text(q2),
        q1.len() <= q2.len(),
        q2.take(q1.len() as int) == q1,
    ensures
        forall|k: int|
            0 <= k < filter_spec(mods, q2).len() ==> filter_spec(mods, q1).contains(
                #[trigger] filter_spec(mods, q2)[k],
            ),
{
    if q1.len() > 0 {
        assert forall|i: int| 0 <= i < q1.len() implies (#[trigger] q1[i] as nat) < 128 by {
            assert(q1[i] == q2[i]);
        }
        let l1 = lowercase(q1);
        let l2 = lowercase(q2);
        assert(l2.subrange(0, l1.len() as int) =~= l1) by {
            assert forall|i: int| 0 <= i < l1.len() implies l2[i] == l1[i] by {
                assert(q1[i] == q2[i]);
            }
        }
        assert(occurs_at(l2, l1, 0));
    }
    lemma_filter_narrows(mods, q1, q2);
}

/// For an ASCII query, the case of its letters does not matter: the query
/// lists the same modules as its upper case.
pub proof fn lemma_filter_ascii_case(mods: Seq<ShelfModule>, q: Seq<char>)
    requires
        is_ascii_text(q),
    ensures
        filter_spec(mods, q) == filter_spec(mods, ascii_raised(q)),
{
    let u = ascii_raised(q);
    assert forall|i: int| 0 <= i < u.len() implies (#[trigger] u[i] as nat) < 128 by {
        assert(u[i] == ascii_upper(q[i]));
        assert((q[i] as nat) < 128);
    }
    assert forall|i: int| 0 <= i < q.len() implies ascii_lower(#[trigger] u[i]) == ascii_lower(
        q[i],
    ) by {
        assert(u[i] == ascii_upper(q[i]));
    }
    assert(lowercase(u) =~= lowercase(q));
    if q.len() > 0 {
        lemma_filter_by_lowercase(mods, q, u);
    }
}

/// True when a module matches the lower-case query.
fn matches_module(m: &ShelfModule, lower: &str) -> (r: bool)
    ensures
        r == module_matches(*m, lower@),
{
    if contains_str(to_lower(m.name.as_str()).as_str(), lower) {
        return true;
    }
    if contains_str(to_lower(m.description.as_str()).as_str(), lower) {
        return true;
    }
    if contains_str(to_lower(m.id.as_str()).as_str(), lower) {
        return true;
    }
    let mut k: usize = 0;
    while k < m.tags.len()
        invariant
            k <= m.tags@.len(),
            forall|j: int|
                0 <= j < k ==> !has_substring(lowercase(#[trigger] m.tags@[j]@), lower@),
        decreases m.tags@.len() - k,
    {
        if contains_str(to_lower(m.tags[k].as_str()).as_str(), lower) {
            return true;
        }
        k = k + 1;
    }
    false
}

/// The indices of the modules that the browser lists for a query.
pub fn filter_modules(modules: &[ShelfModule], query: &str) -> (r: Vec<usize>)
    ensures
        r@ == filter_spec(modules@, query@),
        forall|k: int| 0 <= k < r@.len() ==> #[trigger] r@[k] < modules@.len(),
        forall|a: int, b: int| 0 <= a < b < r@.len() ==> #[trigger] r@[a] < #[trigger] r@[b],
{
    let mut out: Vec<usize> = Vec::new();
    if query.unicode_len() == 0 {
        let mut i: usize = 0;
        while i < modules.len()
            invariant
                i <= modules@.len(),
                out@ == Seq::new(i as nat, |j: int| j as usize),
            decreases modules@.len() - i,
        {
            out.push(i);
            i = i + 1;
            assert(out@ =~= Seq::new(i as nat, |j: int| j as usize));
        }
        return out;
    }
    let lower = to_lower(query);
    assert(modules@.len() == modules.len());
    proof {
        lemma_matching_indices_sorted(modules@, lower@);
    }
    let mut i: usize = 0;
    assert(modules@.take(0) =~= Seq::<ShelfModule>::empty());
    while i < modules.len()
        invariant
            i <= modules@.len(),
            out@ == matching_indices(modules@.take(i as int), lower@),
        decreases modules@.len() - i,
    {
        assert(modules@.take(i + 1).drop_last() =~= modules@.take(i as int));
        if matches_module(&modules[i], lower.as_str()) {
            out.push(i);
        }
        i = i + 1;
        assert(out@ =~= matching_indices(modules@.take(i as int), lower@));
    }
    assert(modules@.take(modules@.len() as int) =~= modules@);
    out
}

/// The selection one row down, wrapping to the top.
pub open spec fn move_down(sel: nat, count: nat) -> nat {
    if sel + 1 >= count {
        0
    } else {
        sel + 1
    }
}

/// The selection one row up, wrapping to the bottom.
pub open spec fn move_up(sel: nat, count: nat) -> nat {
    if sel == 0 {
        (count - 1) as nat
    } else {
        (sel - 1) as nat
    }
}

/// Moving down then up, or up then down, comes back to the same row.
pub proof fn lemma_move_round_trip(sel: nat, count: nat)
    requires
        sel < count,
    ensures
        move_up(move_down(sel, count), count) == sel,
        move_down(move_up(sel, count), count) == sel,
        move_down(sel, count) < count,
        move_up(sel, count) < count,
{
}

/// The selection and the step after a key: Esc cancels, Enter confirms
/// the selected row, Down or `j` moves down, Up or `k` moves up (both
/// wrapping), and any other key does nothing.
pub open spec fn picker_next(sel: nat, count: nat, key: Key) -> (nat, PickerStep) {
    match key {
        Key::Esc => (sel, PickerStep::Cancelled),
        Key::Enter => (sel, PickerStep::Confirmed(sel as usize)),
        Key::Down => (move_down(sel, count), PickerStep::Continue),
        Key::Up => (move_up(sel, count), PickerStep::Continue),
        Key::Char(c) => if c == 'j' {
            (move_down(sel, count), PickerStep::Continue)
        } else if c == 'k' {
            (move_up(sel, count), PickerStep::Continue)
        } else {
            (sel, PickerStep::Continue)
        },
        _ => (sel, PickerStep::Continue),
    }
}

/// What the picker does after a key.
#[derive(PartialEq, Eq, Structural, Debug, Clone, Copy)]
pub enum PickerStep {
    /// Keep showing the list.
    Continue,
    /// The human pressed Esc.
    Cancelled,
    /// The human pressed Enter on the selected row.
    Confirmed(usize),
}

/// A key that moves the selection down: Down or `j`.
pub open spec fn is_down_key(k: Key) -> bool {
    k == Key::Down || k == Key::Char('j')
}

/// A key that moves the selection up: Up or `k`.
pub open spec fn is_up_key(k: Key) -> bool {
    k == Key::Up || k == Key::Char('k')
}

/// How many keys move down.
pub open spec fn downs(keys: Seq<Key>) -> int
    decreases keys.len(),
{
    if keys.len() == 0 {
        0
    } else {
        (if is_down_key(keys[0]) {
            1int
        } else {
            0int
        }) + downs(keys.drop_first())
    }
}

/// How many keys move up.
pub open spec fn ups(keys: Seq<Key>) -> int
    decreases keys.len(),
{
    if keys.len() == 0 {
        0
    } else {
        (if is_up_key(keys[0]) {
            1int
        } else {
            0int
        }) + ups(keys.drop_first())
    }
}

/// A picker session over a sequence of keys: each key is handled as
/// `Picker::handle` handles it, until one of them ends the session. The
/// result is the selection at the end and the step that ended it, if any.
pub open spec fn picker_session(sel: nat, count: nat, keys: Seq<Key>) -> (nat, Option<PickerStep>)
    decreases keys.len(),
{
    if keys.len() == 0 {
        (sel, None)
    } else {
        let next = picker_next(sel, count, keys[0]);
        if next.1 == PickerStep::Continue {
            picker_session(next.0, count, keys.drop_first())
        } else {
            (next.0, Some(next.1))
        }
    }
}

/// One key moves the selection by its own count, modulo the rows.
proof fn lemma_picker_key_moves(sel: nat, count: nat, key: Key)
    requires
        sel < count,
        key != Key::Esc,
        key != Key::Enter,
    ensures
        picker_next(sel, count, key).1 == PickerStep::Continue,
        picker_next(sel, count, key).0 as int == (sel + (if is_down_key(key) {
            1int
        } else {
            0int
        }) - (if is_up_key(key) {
            1int
        } else {
            0int
        })) % (count as int),
{
    let n = count as int;
    if is_down_key(key) {
        if sel + 1 < count {
            lemma_fundamental_div_mod_converse(sel + 1int, n, 0, sel + 1int);
        } else {
            lemma_fundamental_div_mod_converse(sel + 1int, n, 1, 0);
        }
    } else if is_up_key(key) {
        if sel == 0 {
            lemma_fundamental_div_mod_converse(-1, n, -1, n - 1);
        } else {
            lemma_fundamental_div_mod_converse(sel - 1, n, 0, sel - 1);
        }
    } else {
        lemma_fundamental_div_mod_converse(sel as int, n, 0, sel as int);
    }
}

/// From any selected row, a session whose first Enter comes before any Esc
/// confirms the row moved to by the Down and Up keys before that Enter.
proof fn lemma_picker_session_from(sel: nat, count: nat, keys: Seq<Key>, i: int)
    requires
        sel < count,
        0 <= i < keys.len(),
        keys[i] == Key::Enter,
        forall|j: int| 0 <= j < i ==> keys[j] != Key::Esc && keys[j] != Key::Enter,
    ensures
        picker_session(sel, count, keys).1 == Some(
            PickerStep::Confirmed(
                ((sel + downs(keys.take(i)) - ups(keys.take(i))) % (count as int)) as usize,
            ),
        ),
    decreases i,
{
    let n = count as int;
    if i == 0 {
        assert(keys.take(0) =~= Seq::<Key>::empty());
        lemma_fundamental_div_mod_converse(sel as int, n, 0, sel as int);
    } else {
        let k = keys[0];
        let rest = keys.drop_first();
        lemma_picker_key_moves(sel, count, k);
        let s2 = picker_next(sel, count, k).0;
        assert forall|j: int| 0 <= j < i - 1 implies rest[j] != Key::Esc && rest[j]
            != Key::Enter by {
            assert(rest[j] == keys[j + 1]);
        }
        assert(rest[i - 1] == keys[i]);
        lemma_picker_session_from(s2, count, rest, i - 1);
        assert(keys.take(i).drop_first() =~= rest.take(i - 1));
        assert(keys.take(i)[0] == k);
        let d0 = if is_down_key(k) {
            1int
        } else {
            0int
        };
        let u0 = if is_up_key(k) {
            1int
        } else {
            0int
        };
        assert(downs(keys.take(i)) == d0 + downs(rest.take(i - 1)));
        assert(ups(keys.take(i)) == u0 + ups(rest.take(i - 1)));
        let rem = downs(rest.take(i - 1)) - ups(rest.take(i - 1));
        lemma_add_mod_noop_right(rem, sel + d0 - u0, n);
        assert(s2 as int + rem == rem + (sel + d0 - u0) % n);
    }
}

/// A picker session that starts on the first row and meets an Enter before
/// any Esc confirms row `(d - u) mod n`, where `d` and `u` count the Down
/// (or `j`) and Up (or `k`) keys before that Enter and `n` is the number of
/// rows; other keys do nothing.
pub proof fn lemma_picker_session(count: nat, keys: Seq<Key>, i: int)
    requires
        count > 0,
        0 <= i < keys.len(),
        keys[i] == Key::Enter,
        forall|j: int| 0 <= j < i ==> keys[j] != Key::Esc && keys[j] != Key::Enter,
    ensures
        picker_session(0, count, keys).1 == Some(
            PickerStep::Confirmed(
                ((downs(keys.take(i)) - ups(keys.take(i))) % (count as int)) as usize,
            ),
        ),
{
    lemma_picker_session_from(0, count, keys, i);
}

/// The full-screen picker over the options of a request: the selected row
/// among `count` rows.
#[derive(Debug)]
pub struct Picker {
    pub selected: usize,
    pub count: usize,
}

impl Picker {
    /// A picker is well formed when it has rows and selects one of them.
    pub open spec fn wf(&self) -> bool {
        self.count > 0 && self.selected < self.count
    }

    /// The picker over `count` rows, with the first row selected.
    pub fn new(count: usize) -> (p: Picker)
        requires
            count > 0,
        ensures
            p.wf(),
            p.selected == 0,
            p.count == count,
    {
        Picker { selected: 0, count }
    }

    /// Handles one key: Esc cancels, Enter confirms the selected row, Down
    /// or `j` moves down, Up or `k` moves up (both wrapping), and any other
    /// key does nothing.
    pub fn handle(&mut self, key: Key) -> (step: PickerStep)
        requires
            old(self).wf(),
        ensures
            final(self).wf(),
            final(self).count == old(self).count,
            (final(self).selected as nat, step) == picker_next(
                old(self).selected as nat,
                old(self).count as nat,
                key,
            ),
    {
        match key {
            Key::Esc => PickerStep::Cancelled,
            Key::Enter => PickerStep::Confirmed(self.selected),
            Key::Down | Key::Char('j') => {
                self.selected = if self.selected + 1 >= self.count {
                    0
                } else {
                    self.selected + 1
                };
                PickerStep::Continue
            },
            Key::Up | Key::Char('k') => {
                self.selected = if self.selected == 0 {
                    self.count - 1
                } else {
                    self.selected - 1
                };
                PickerStep::Continue
            },
            _ => PickerStep::Continue,
        }
    }
}

/// The option at a confirmed row, if there is one.
pub fn confirmed_option(request: &AskRequest, row: usize) -> (r: Option<String>)
    ensures
        row < request.options@.len() ==> (r matches Some(o) && o@ == request.options@[row as int]@),
        row >= request.options@.len() ==> r is None,
{
    if row < request.options.len() {
        Some(request.options[row].clone())
    } else {
        None
    }
}


/// What the shelf browser does after a key.
#[derive(Debug)]
pub enum BrowserStep {
    /// Keep showing the list.
    Continue,
    /// The human pressed Esc.
    Cancelled,
    /// The browser is done: the id of the picked module, if any.
    Finished(Option<String>),
}

/// The mathematical value of a browser step.
pub enum BrowserOutcome {
    Continue,
    Cancelled,
    Finished(Option<Seq<char>>),
}

impl View for BrowserStep {
    type V = BrowserOutcome;

    open spec fn view(&self) -> BrowserOutcome {
        match self {
            BrowserStep::Continue => BrowserOutcome::Continue,
            BrowserStep::Cancelled => BrowserOutcome::Cancelled,
            BrowserStep::Finished(Some(id)) => BrowserOutcome::Finished(Some(id@)),
            BrowserStep::Finished(None) => BrowserOutcome::Finished(None),
        }
    }
}

/// The shelf browser: the filter typed so far and the selected row of the
/// filtered list, if any.
#[derive(Debug)]
pub struct Browser {
    pub query: String,
    pub selected: Option<usize>,
}

/// The row a selection stands for; no selection stands for the first row.
pub open spec fn row_of(sel: Option<usize>) -> nat {
    match sel {
        Some(s) => s as nat,
        None => 0,
    }
}

/// The selection once the list holds `count` rows: none for an empty list,
/// the first row when the selection fell off the end, else unchanged.
pub open spec fn settle_spec(sel: Option<usize>, count: nat) -> Option<usize> {
    if count == 0 {
        None
    } else if row_of(sel) >= count {
        Some(0)
    } else {
        sel
    }
}

/// The filter, the selection and the outcome after a key, for the listed
/// module indices: Esc cancels; Enter picks the module of the selected row,
/// or ends with nothing when the row is gone; Down or `j` and Up or `k` move
/// the selection (wrapping); Backspace drops the last character of the
/// filter; a non-control character extends it; both then select the first
/// row. On an empty list Enter and the moving keys do nothing.
pub open spec fn browser_next(
    query: Seq<char>,
    sel: Option<usize>,
    key: Key,
    listed: Seq<usize>,
    mods: Seq<ShelfModule>,
) -> (Seq<char>, Option<usize>, BrowserOutcome) {
    let n = listed.len();
    let down = n > 0 && (key == Key::Down || key == Key::Char('j'));
    let up = n > 0 && (key == Key::Up || key == Key::Char('k'));
    if key == Key::Esc {
        (query, sel, BrowserOutcome::Cancelled)
    } else if key == Key::Enter {
        if n == 0 {
            (query, sel, BrowserOutcome::Continue)
        } else if row_of(sel) < n {
            (query, sel, BrowserOutcome::Finished(Some(mods[listed[row_of(sel) as int] as int].id@)))
        } else {
            (query, sel, BrowserOutcome::Finished(None))
        }
    } else if key == Key::Down || key == Key::Char('j') {
        if down {
            (query, Some(move_down(row_of(sel), n) as usize), BrowserOutcome::Continue)
        } else {
            (query, sel, BrowserOutcome::Continue)
        }
    } else if key == Key::Up || key == Key::Char('k') {
        if up {
            (query, Some(move_up(row_of(sel), n) as usize), BrowserOutcome::Continue)
        } else {
            (query, sel, BrowserOutcome::Continue)
        }
    } else if key == Key::Backspace {
        (if query.len() > 0 {
            query.drop_last()
        } else {
            query
        }, Some(0), BrowserOutcome::Continue)
    } else {
        match key {
            Key::Char(c) => if is_control_char(c) {
                (query, sel, BrowserOutcome::Continue)
            } else {
                (query.push(c), Some(0), BrowserOutcome::Continue)
            },
            _ => (query, sel, BrowserOutcome::Continue),
        }
    }
}

impl Browser {
    /// The browser before any key: an empty filter and the first row
    /// selected.
    pub fn new() -> (b: Browser)
        ensures
            b.query@ == Seq::<char>::empty(),
            b.selected == Some(0usize),
    {
        Browser { query: String::new(), selected: Some(0) }
    }

    /// True when the selection is a row of a list of `count` rows, or none
    /// for an empty list.
    pub open spec fn settled(&self, count: nat) -> bool {
        &&& count == 0 ==> self.selected is None
        &&& self.selected matches Some(s) ==> s < count
    }

    /// Fits the selection to the list, which now holds `count` rows.
    pub fn settle(&mut self, count: usize)
        ensures
            final(self).query == old(self).query,
            final(self).selected == settle_spec(old(self).selected, count as nat),
            final(self).settled(count as nat),
    {
        if count == 0 {
            self.selected = None;
        } else {
            let current = match self.selected {
                Some(s) => s,
                None => 0,
            };
            if current >= count {
                self.selected = Some(0);
            }
        }
    }

    /// Handles one key against the listed module indices.
    pub fn handle(&mut self, key: Key, listed: &Vec<usize>, modules: &[ShelfModule]) -> (step:
        BrowserStep)
        requires
            old(self).settled(listed@.len() as nat),
            listed@ == filter_spec(modules@, old(self).query@),
        ensures
            (final(self).query@, final(self).selected, step@) == browser_next(
                old(self).query@,
                old(self).selected,
                key,
                listed@,
                modules@,
            ),
    {
        assert(modules@.len() == modules.len());
        proof {
            lemma_filter_in_bounds(modules@, old(self).query@);
        }
        let n = listed.len();
        let row = match self.selected {
            Some(s) => s,
            None => 0,
        };
        match key {
            Key::Esc => BrowserStep::Cancelled,
            Key::Enter => {
                if n == 0 {
                    BrowserStep::Continue
                } else if row < n {
                    BrowserStep::Finished(Some(modules[listed[row]].id.clone()))
                } else {
                    BrowserStep::Finished(None)
                }
            },
            Key::Down | Key::Char('j') => {
                if n > 0 {
                    self.selected = Some(
                        if row + 1 >= n {
                            0
                        } else {
                            row + 1
                        },
                    );
                }
                BrowserStep::Continue
            },
            Key::Up | Key::Char('k') => {
                if n > 0 {
                    self.selected = Some(
                        if row == 0 {
                            n - 1
                        } else {
                            row - 1
                        },
                    );
                }
                BrowserStep::Continue
            },
            Key::Backspace => {
                let _ = pop_char(&mut self.query);
                self.selected = Some(0);
                BrowserStep::Continue
            },
            Key::Char(c) => {
                if !is_control(c) {
                    push_char(&mut self.query, c);
                    self.selected = Some(0);
                }
                BrowserStep::Continue
            },
            Key::Other => BrowserStep::Continue,
        }
    }
}

/// On a non-empty list, Down or `j` selects the next row and Up or `k` the
/// previous one, both wrapping round, and neither touches the filter; so
/// Down then Up, or Up then Down, comes back to the same row.
pub proof fn lemma_browser_up_down(
    query: Seq<char>,
    s: usize,
    listed: Seq<usize>,
    mods: Seq<ShelfModule>,
)
    requires
        0 < listed.len() <= usize::MAX,
        s < listed.len(),
    ensures
        browser_next(query, Some(s), Key::Up, listed, mods) == (
            query,
            Some((if s == 0 { listed.len() - 1 } else { s - 1 }) as usize),
            BrowserOutcome::Continue,
        ),
        browser_next(query, Some(s), Key::Char('k'), listed, mods)
            == browser_next(query, Some(s), Key::Up, listed, mods),
        browser_next(query, Some(s), Key::Down, listed, mods) == (
            query,
            Some((if s + 1 == listed.len() { 0 } else { s + 1 }) as usize),
            BrowserOutcome::Continue,
        ),
        browser_next(query, Some(s), Key::Char('j'), listed, mods)
            == browser_next(query, Some(s), Key::Down, listed, mods),
        ({
            let d = browser_next(query, Some(s), Key::Down, listed, mods);
            browser_next(d.0, d.1, Key::Up, listed, mods).1 == Some(s)
        }),
        ({
            let u = browser_next(query, Some(s), Key::Up, listed, mods);
            browser_next(u.0, u.1, Key::Down, listed, mods).1 == Some(s)
        }),
{
}

/// Enter on a non-empty list picks the module of the selected row (the first
/// row when none is selected), and nothing once that row is gone; typing a
/// character that is not a control character adds it to the filter and
/// selects the first row; Backspace drops the last character of the filter
/// and selects the first row; Esc cancels and changes nothing.
pub proof fn lemma_browser_enter_and_typing(
    query: Seq<char>,
    sel: Option<usize>,
    c: char,
    listed: Seq<usize>,
    mods: Seq<ShelfModule>,
)
    requires
        listed.len() > 0,
    ensures
        ({
            let r = row_of(sel);
            browser_next(query, sel, Key::Enter, listed, mods) == (
                query,
                sel,
                if r < listed.len() {
                    BrowserOutcome::Finished(Some(mods[listed[r as int] as int].id@))
                } else {
                    BrowserOutcome::Finished(None)
                },
            )
        }),
        c != 'j' && c != 'k' && !is_control_char(c) ==> browser_next(
            query,
            sel,
            Key::Char(c),
            listed,
            mods,
        ) == (query.push(c), Some(0usize), BrowserOutcome::Continue),
        query.len() > 0 ==> browser_next(query, sel, Key::Backspace, listed, mods) == (
            query.drop_last(),
            Some(0usize),
            BrowserOutcome::Continue,
        ),
        browser_next(query, sel, Key::Esc, listed, mods) == (
            query,
            sel,
            BrowserOutcome::Cancelled,
        ),
{
}

/// After moving on a non-empty list, the selection is a row of that list.
pub proof fn lemma_browser_moves_stay_in_list(
    query: Seq<char>,
    sel: Option<usize>,
    key: Key,
    listed: Seq<usize>,
    mods: Seq<ShelfModule>,
)
    requires
        listed.len() > 0,
        listed.len() <= usize::MAX,
        row_of(sel) < listed.len(),
        key == Key::Down || key == Key::Up || key == Key::Char('j') || key == Key::Char('k'),
    ensures
        browser_next(query, sel, key, listed, mods).1 matches Some(s) && s < listed.len(),
        browser_next(query, sel, key, listed, mods).0 == query,
{
    lemma_move_round_trip(row_of(sel), listed.len());
}


/// The picker needs a terminal.
pub fn picker_check(tty: bool) -> (r: Result<(), PresentError>)
    ensures
        tty <==> r is Ok,
        r matches Err(e) ==> e@ == Failure::Bad(
            "present --interactive needs a terminal. pipe a tty or drop the flag"@,
        ),
{
    if tty {
        Ok(())
    } else {
        Err(
            PresentError::Bad(
                String::from_str("present --interactive needs a terminal. pipe a tty or drop the flag"),
            ),
        )
    }
}

/// The shelf browser needs a terminal, and a shelf with something on it.
pub fn browser_check(tty: bool, count: usize) -> (r: Result<(), PresentError>)
    ensures
        (tty && count > 0) <==> r is Ok,
        !tty ==> (r matches Err(e) && e@ == Failure::Bad(
            "present needs a terminal to browse the shelf. run it in a tty"@,
        )),
        tty && count == 0 ==> (r matches Err(e) && e@ == Failure::Bad(
            "the shelf is empty. run sheol share to add a module"@,
        )),
{
    if !tty {
        Err(
            PresentError::Bad(
                String::from_str("present needs a terminal to browse the shelf. run it in a tty"),
            ),
        )
    } else if count == 0 {
        Err(PresentError::Bad(String::from_str("the shelf is empty. run sheol share to add a module")))
    } else {
        Ok(())
    }
}


/// A browser session over a sequence of keys, as the browser's loop runs
/// it: before each key the list is the filter of the current query, the
/// selection is settled on it, and the key is handled as `Browser::handle`
/// handles it, until a key ends the session. The result is the query, the
/// selection and the outcome at the end.
pub open spec fn browser_session(
    query: Seq<char>,
    sel: Option<usize>,
    keys: Seq<Key>,
    mods: Seq<ShelfModule>,
) -> (Seq<char>, Option<usize>, BrowserOutcome)
    decreases keys.len(),
{
    if keys.len() == 0 {
        (query, sel, BrowserOutcome::Continue)
    } else {
        let listed = filter_spec(mods, query);
        let next = browser_next(
            query,
            settle_spec(sel, listed.len()),
            keys[0],
            listed,
            mods,
        );
        if next.2 is Continue {
            browser_session(next.0, next.1, keys.drop_first(), mods)
        } else {
            next
        }
    }
}

/// A browser session that picks a module picks one that the filter lists
/// for the query shown when Enter was pressed, which is the query at the
/// end of the session.
pub proof fn lemma_browser_session_picks_listed(
    query: Seq<char>,
    sel: Option<usize>,
    keys: Seq<Key>,
    mods: Seq<ShelfModule>,
)
    requires
        mods.len() <= usize::MAX,
    ensures
        browser_session(query, sel, keys, mods).2 matches BrowserOutcome::Finished(Some(id))
            ==> exists|i: int|
            0 <= i < mods.len() && filter_spec(mods, browser_session(query, sel, keys, mods).0).contains(
                i as usize,
            ) && #[trigger] mods[i].id@ == id,
    decreases keys.len(),
{
    if keys.len() > 0 {
        let listed = filter_spec(mods, query);
        let s = settle_spec(sel, listed.len());
        let next = browser_next(query, s, keys[0], listed, mods);
        if next.2 is Continue {
            lemma_browser_session_picks_listed(next.0, next.1, keys.drop_first(), mods);
        } else if let BrowserOutcome::Finished(Some(id)) = next.2 {
            lemma_filter_in_bounds(mods, query);
            let row = row_of(s) as int;
            assert(keys[0] == Key::Enter);
            assert(listed.len() > 0 && row < listed.len());
            let i = listed[row] as int;
            assert(next.0 == query);
            assert(mods[i].id@ == id);
            assert(listed.contains(i as usize));
        }
    }
}

} // verus!
