//! Glob patterns, and the pieces of a text that their metacharacters stand for.
//!
//! `*` stands for any characters, `?` for one, `[a-c]` for one of a class and `[!a-c]` for
//! one outside it; a backslash takes the character after it literally. A bracket that is
//! never closed matches nothing.
use crate::text;
use crate::text::{chars_of, slice_text};
use vstd::prelude::*;

verus! {

/// One element of a pattern.
#[derive(Debug)]
pub enum Atom {
    Ch(char),
    Any,
    One,
    Class { set: Vec<(char, char)>, negated: bool },
}

/// What an element of a pattern stands for.
pub enum AtomModel {
    Ch(char),
    Any,
    One,
    Class { set: Seq<(char, char)>, negated: bool },
}

impl View for Atom {
    type V = AtomModel;

    open spec fn view(&self) -> AtomModel {
        match *self {
            Atom::Ch(c) => AtomModel::Ch(c),
            Atom::Any => AtomModel::Any,
            Atom::One => AtomModel::One,
            Atom::Class { set, negated } => AtomModel::Class { set: set@, negated },
        }
    }
}

pub open spec fn atom_models(v: Seq<Atom>) -> Seq<AtomModel> {
    v.map_values(|a: Atom| a@)
}

proof fn lemma_lex_step(v: Seq<Atom>, a: Atom, rest: Seq<AtomModel>)
    ensures
        atom_models(v.push(a)) + rest == atom_models(v) + (seq![a@] + rest),
{
    assert(atom_models(v.push(a)) =~= atom_models(v).push(a@));
    assert(atom_models(v.push(a)) + rest =~= atom_models(v) + (seq![a@] + rest));
}

impl AtomModel {
    /// Whether the element stands for a piece of the text that is captured.
    pub open spec fn captures(self) -> bool {
        !(self is Ch)
    }
}

impl Atom {
    /// Whether the element stands for a piece of the text that is captured.
    pub fn is_metachar(&self) -> (r: bool)
        ensures
            r == self@.captures(),
    {
        match self {
            Atom::Ch(_) => false,
            _ => true,
        }
    }
}

/// The members of a class that starts at `idx`, and the position after its closing
/// bracket. The first member may be a closing bracket. A range needs an upper end.
pub open spec fn class_at(s: Seq<char>, idx: int, first: bool) -> Option<(Seq<(char, char)>, int)>
    decreases s.len() - idx,
{
    if idx < 0 || idx >= s.len() {
        None
    } else if s[idx] == ']' && !first {
        Some((seq![], idx + 1))
    } else if idx + 1 < s.len() && s[idx + 1] == '-' {
        if idx + 2 < s.len() && s[idx + 2] != ']' {
            match class_at(s, idx + 3, false) {
                Some((set, next)) => Some((seq![(s[idx], s[idx + 2])] + set, next)),
                None => None,
            }
        } else {
            None
        }
    } else {
        match class_at(s, idx + 1, false) {
            Some((set, next)) => Some((seq![(s[idx], s[idx])] + set, next)),
            None => None,
        }
    }
}

/// The class whose opening bracket is at `open`, and the position after it.
pub open spec fn class_from(s: Seq<char>, open: int) -> Option<(AtomModel, int)> {
    let negated = open + 1 < s.len() && s[open + 1] == '!';
    let start = if negated {
        open + 2
    } else {
        open + 1
    };
    match class_at(s, start, true) {
        Some((set, next)) => Some((AtomModel::Class { set, negated }, next)),
        None => None,
    }
}

proof fn lemma_class_at_advances(s: Seq<char>, idx: int, first: bool)
    requires
        0 <= idx,
        class_at(s, idx, first) is Some,
    ensures
        idx < (class_at(s, idx, first)->0).1 <= s.len(),
    decreases s.len() - idx,
{
    if s[idx] == ']' && !first {
    } else if idx + 1 < s.len() && s[idx + 1] == '-' {
        lemma_class_at_advances(s, idx + 3, false);
    } else {
        lemma_class_at_advances(s, idx + 1, false);
    }
}

/// The element of the pattern `s` at position `i`, and the position after it. A bracket
/// that is never closed takes the rest of the pattern, as a class without members.
pub open spec fn lex_step(s: Seq<char>, i: int) -> (AtomModel, int) {
    if s[i] == '*' {
        (AtomModel::Any, i + 1)
    } else if s[i] == '?' {
        (AtomModel::One, i + 1)
    } else if s[i] == '\\' && i + 1 < s.len() {
        (AtomModel::Ch(s[i + 1]), i + 2)
    } else if s[i] == '[' {
        match class_from(s, i) {
            Some(found) => found,
            None => (AtomModel::Class { set: seq![], negated: false }, s.len() as int),
        }
    } else {
        (AtomModel::Ch(s[i]), i + 1)
    }
}

pub proof fn lemma_lex_step_advances(s: Seq<char>, i: int)
    requires
        0 <= i < s.len(),
    ensures
        i < lex_step(s, i).1 <= s.len(),
{
    if s[i] == '[' && class_from(s, i) is Some {
        let start = if i + 1 < s.len() && s[i + 1] == '!' {
            i + 2
        } else {
            i + 1
        };
        lemma_class_at_advances(s, start, true);
    }
}

/// The elements of the pattern `s` from position `i` on.
pub open spec fn lexed_from(s: Seq<char>, i: int) -> Seq<AtomModel>
    decreases s.len() - i,
    via lexed_from_decreases
{
    if i < 0 || i >= s.len() {
        seq![]
    } else {
        seq![lex_step(s, i).0] + lexed_from(s, lex_step(s, i).1)
    }
}

#[via_fn]
proof fn lexed_from_decreases(s: Seq<char>, i: int) {
    if 0 <= i < s.len() {
        lemma_lex_step_advances(s, i);
    }
}

/// The elements of a pattern.
pub open spec fn lexed(s: Seq<char>) -> Seq<AtomModel> {
    lexed_from(s, 0)
}

/// Splits a pattern into its elements.
pub fn lex(pattern: &str) -> (r: Vec<Atom>)
    ensures
        atom_models(r@) == lexed(pattern@),
{
    let chars = chars_of(pattern);
    let mut atoms: Vec<Atom> = Vec::new();
    let mut i: usize = 0;
    proof {
        assert(atom_models(atoms@) =~= Seq::<AtomModel>::empty());
        assert(atom_models(atoms@) + lexed_from(chars@, 0) =~= lexed(pattern@));
    }
    while i < chars.len()
        invariant
            i <= chars@.len(),
            chars@ == pattern@,
            atom_models(atoms@) + lexed_from(chars@, i as int) == lexed(pattern@),
        decreases chars@.len() - i,
    {
        let c = chars[i];
        let ghost before = atoms@;
        let step: (Atom, usize) = if c == '*' {
            (Atom::Any, i + 1)
        } else if c == '?' {
            (Atom::One, i + 1)
        } else if c == '\\' && i + 1 < chars.len() {
            (Atom::Ch(chars[i + 1]), i + 2)
        } else if c == '[' {
            match lex_class(&chars, i) {
                Some(found) => found,
                None => {
                    let atom = Atom::Class { set: Vec::new(), negated: false };
                    proof {
                        assert(atom@->set =~= seq![]);
                    }
                    (atom, chars.len())
                },
            }
        } else {
            (Atom::Ch(c), i + 1)
        };
        let atom = step.0;
        let next: usize = step.1;
        proof {
            assert(lex_step(chars@, i as int) == (atom@, next as int));
            lemma_lex_step(before, atom, lexed_from(chars@, next as int));
        }
        atoms.push(atom);
        i = next;
    }
    proof {
        assert(atom_models(atoms@) + lexed_from(chars@, i as int) =~= atom_models(atoms@));
    }
    atoms
}

fn lex_class(chars: &[char], open: usize) -> (r: Option<(Atom, usize)>)
    requires
        open < chars@.len(),
    ensures
        match r {
            Some((atom, next)) => class_from(chars@, open as int) == Some((atom@, next as int))
                && open < next <= chars@.len(),
            None => class_from(chars@, open as int) is None,
        },
{
    let n = chars.len();
    let negated = open + 1 < n && chars[open + 1] == '!';
    let start: usize = if negated {
        open + 2
    } else {
        open + 1
    };
    let mut idx: usize = start;
    let mut set: Vec<(char, char)> = Vec::new();
    let mut first = true;
    let ghost whole = class_at(chars@, start as int, true);
    while idx < n
        invariant
            n == chars@.len(),
            open < idx,
            whole == class_at(chars@, start as int, true),
            whole == (match class_at(chars@, idx as int, first) {
                Some((rest, next)) => Some((set@ + rest, next)),
                None => None,
            }),
            negated == (open + 1 < chars@.len() && chars@[open + 1] == '!'),
            start == (if negated {
                open + 2
            } else {
                open + 1
            }),
        decreases n - idx,
    {
        let c = chars[idx];
        if c == ']' && !first {
            proof {
                assert(set@ + Seq::<(char, char)>::empty() =~= set@);
            }
            return Some((Atom::Class { set, negated }, idx + 1));
        }
        let ghost before = set@;
        if idx + 1 < n && chars[idx + 1] == '-' {
            if idx + 2 < n && chars[idx + 2] != ']' {
                let hi = chars[idx + 2];
                proof {
                    let rest = class_at(chars@, idx + 3, false);
                    if rest is Some {
                        assert(before + (seq![(c, hi)] + (rest->0).0) =~= before.push((c, hi))
                            + (rest->0).0);
                    }
                }
                set.push((c, hi));
                if n - idx <= 3 {
                    return None;
                }
                idx += 3;
            } else {
                return None;
            }
        } else {
            proof {
                let rest = class_at(chars@, idx + 1, false);
                if rest is Some {
                    assert(before + (seq![(c, c)] + (rest->0).0) =~= before.push((c, c)) + (rest->0).0);
                }
            }
            set.push((c, c));
            idx += 1;
        }
        first = false;
    }
    None
}

// ---------------------------------------------------------------------------
// Matching
// ---------------------------------------------------------------------------

/// Whether a class holds a character.
pub open spec fn class_accepts(set: Seq<(char, char)>, negated: bool, c: char) -> bool {
    (exists|i: int| 0 <= i < set.len() && (#[trigger] set[i]).0 <= c && c <= set[i].1) != negated
}

/// Whether an element that stands for one character stands for `c`.
pub open spec fn accepts(a: AtomModel, c: char) -> bool {
    match a {
        AtomModel::Ch(x) => x == c,
        AtomModel::One => true,
        AtomModel::Any => false,
        AtomModel::Class { set, negated } => class_accepts(set, negated, c),
    }
}

/// Whether the elements stand for the text, with `caps` the pieces that the
/// metacharacters stand for, in order.
pub open spec fn fits(atoms: Seq<AtomModel>, text: Seq<char>, caps: Seq<Seq<char>>) -> bool
    decreases atoms.len(),
{
    if atoms.len() == 0 {
        text.len() == 0 && caps.len() == 0
    } else if atoms[0] is Any {
        &&& caps.len() > 0
        &&& caps[0].len() <= text.len()
        &&& text.take(caps[0].len() as int) == caps[0]
        &&& fits(atoms.skip(1), text.skip(caps[0].len() as int), caps.skip(1))
    } else if atoms[0] is Ch {
        &&& text.len() > 0
        &&& accepts(atoms[0], text[0])
        &&& fits(atoms.skip(1), text.skip(1), caps)
    } else {
        &&& text.len() > 0
        &&& caps.len() > 0
        &&& caps[0] == seq![text[0]]
        &&& accepts(atoms[0], text[0])
        &&& fits(atoms.skip(1), text.skip(1), caps.skip(1))
    }
}

/// The pieces that the metacharacters stand for when each `*` takes as few characters as
/// it can, the leftmost first; nothing where the text does not match.
pub open spec fn first_fit(atoms: Seq<AtomModel>, text: Seq<char>) -> Option<Seq<Seq<char>>>
    decreases atoms.len(), 0nat,
{
    if atoms.len() == 0 {
        if text.len() == 0 {
            Some(seq![])
        } else {
            None
        }
    } else if atoms[0] is Any {
        first_split(atoms.skip(1), text, 0)
    } else if text.len() == 0 || !accepts(atoms[0], text[0]) {
        None
    } else {
        match first_fit(atoms.skip(1), text.skip(1)) {
            Some(caps) => if atoms[0] is Ch {
                Some(caps)
            } else {
                Some(seq![seq![text[0]]] + caps)
            },
            None => None,
        }
    }
}

/// [`first_fit`] for a `*` that takes at least `k` characters, before the elements `rest`.
pub open spec fn first_split(rest: Seq<AtomModel>, text: Seq<char>, k: nat) -> Option<
    Seq<Seq<char>>,
>
    decreases rest.len(), text.len() + 1 - k,
{
    if k > text.len() {
        None
    } else {
        match first_fit(rest, text.skip(k as int)) {
            Some(caps) => Some(seq![text.take(k as int)] + caps),
            None => first_split(rest, text, k + 1),
        }
    }
}

/// Whether the pieces of `a` are, at the first place where their lengths differ from
/// those of `b`, the shorter ones.
pub open spec fn no_longer(a: Seq<Seq<char>>, b: Seq<Seq<char>>) -> bool
    decreases a.len(),
{
    if a.len() == 0 || b.len() == 0 {
        a.len() == b.len()
    } else if a[0].len() != b[0].len() {
        a[0].len() < b[0].len()
    } else {
        no_longer(a.skip(1), b.skip(1))
    }
}

/// A text matches a pattern exactly when its pieces can be found.
pub proof fn law_match_is_found(atoms: Seq<AtomModel>, text: Seq<char>)
    ensures
        first_fit(atoms, text) is Some <==> exists|caps: Seq<Seq<char>>| fits(atoms, text, caps),
{
    match first_fit(atoms, text) {
        Some(caps) => {
            law_captures_fit(atoms, text);
            assert(fits(atoms, text, caps));
        },
        None => {
            assert forall|caps: Seq<Seq<char>>| !fits(atoms, text, caps) by {
                if fits(atoms, text, caps) {
                    law_captures_shortest(atoms, text, caps);
                }
            }
        },
    }
}

/// The pieces that are found fit the pattern.
pub proof fn law_captures_fit(atoms: Seq<AtomModel>, text: Seq<char>)
    requires
        first_fit(atoms, text) is Some,
    ensures
        fits(atoms, text, first_fit(atoms, text)->0),
    decreases atoms.len(), 0nat,
{
    if atoms.len() > 0 {
        if atoms[0] is Any {
            lemma_split_fits(atoms, text, 0);
        } else {
            law_captures_fit(atoms.skip(1), text.skip(1));
            if !(atoms[0] is Ch) {
                let caps = first_fit(atoms.skip(1), text.skip(1))->0;
                assert((seq![seq![text[0]]] + caps).skip(1) =~= caps);
            }
        }
    }
}

proof fn lemma_split_fits(atoms: Seq<AtomModel>, text: Seq<char>, k: nat)
    requires
        atoms.len() > 0,
        atoms[0] is Any,
        first_split(atoms.skip(1), text, k) is Some,
    ensures
        fits(atoms, text, first_split(atoms.skip(1), text, k)->0),
    decreases atoms.len() - 1, text.len() + 1 - k,
{
    match first_fit(atoms.skip(1), text.skip(k as int)) {
        Some(caps) => {
            law_captures_fit(atoms.skip(1), text.skip(k as int));
            let all = seq![text.take(k as int)] + caps;
            assert(all.skip(1) =~= caps);
            assert(all[0].len() == k);
        },
        None => {
            lemma_split_fits(atoms, text, k + 1);
        },
    }
}

/// Of all the ways to fit the pattern, the one that is found takes the fewest characters
/// for each `*`, the leftmost first.
pub proof fn law_captures_shortest(atoms: Seq<AtomModel>, text: Seq<char>, caps: Seq<Seq<char>>)
    requires
        fits(atoms, text, caps),
    ensures
        first_fit(atoms, text) is Some,
        no_longer(first_fit(atoms, text)->0, caps),
    decreases atoms.len(), 0nat,
{
    if atoms.len() == 0 {
    } else if atoms[0] is Any {
        lemma_split_shortest(atoms, text, caps, 0);
    } else if atoms[0] is Ch {
        law_captures_shortest(atoms.skip(1), text.skip(1), caps);
    } else {
        law_captures_shortest(atoms.skip(1), text.skip(1), caps.skip(1));
        let found = first_fit(atoms.skip(1), text.skip(1))->0;
        assert((seq![seq![text[0]]] + found).skip(1) =~= found);
    }
}

proof fn lemma_split_shortest(
    atoms: Seq<AtomModel>,
    text: Seq<char>,
    caps: Seq<Seq<char>>,
    k: nat,
)
    requires
        atoms.len() > 0,
        atoms[0] is Any,
        fits(atoms, text, caps),
        k <= caps[0].len(),
    ensures
        first_split(atoms.skip(1), text, k) is Some,
        no_longer(first_split(atoms.skip(1), text, k)->0, caps),
    decreases atoms.len() - 1, text.len() + 1 - k,
{
    match first_fit(atoms.skip(1), text.skip(k as int)) {
        Some(found) => {
            let all = seq![text.take(k as int)] + found;
            assert(all.skip(1) =~= found);
            if caps[0].len() == k {
                law_captures_shortest(atoms.skip(1), text.skip(k as int), caps.skip(1));
            }
        },
        None => {
            if caps[0].len() == k {
                law_captures_shortest(atoms.skip(1), text.skip(k as int), caps.skip(1));
            }
            lemma_split_shortest(atoms, text, caps, k + 1);
        },
    }
}

/// A match gives as many pieces as the pattern has metacharacters.
pub proof fn law_one_capture_per_metachar(
    atoms: Seq<AtomModel>,
    text: Seq<char>,
    caps: Seq<Seq<char>>,
)
    requires
        fits(atoms, text, caps),
    ensures
        caps.len() == atoms.filter(|a: AtomModel| a.captures()).len(),
    decreases atoms.len(),
{
    let p = |a: AtomModel| a.captures();
    if atoms.len() == 0 {
        reveal(Seq::filter);
    } else {
        let rest = atoms.skip(1);
        assert(atoms =~= seq![atoms[0]] + rest);
        rest.lemma_filter_prepend(atoms[0], p);
        if atoms[0] is Any {
            law_one_capture_per_metachar(rest, text.skip(caps[0].len() as int), caps.skip(1));
        } else if atoms[0] is Ch {
            law_one_capture_per_metachar(rest, text.skip(1), caps);
        } else {
            law_one_capture_per_metachar(rest, text.skip(1), caps.skip(1));
        }
    }
}

/// Whether a list of strings, or none, is what a specification names.
pub open spec fn found_as(r: Option<Vec<String>>, spec: Option<Seq<Seq<char>>>) -> bool {
    match r {
        Some(caps) => spec == Some(text::texts(caps@)),
        None => spec is None,
    }
}

fn class_holds(set: &Vec<(char, char)>, negated: bool, c: char) -> (r: bool)
    ensures
        r == class_accepts(set@, negated, c),
{
    let mut i: usize = 0;
    while i < set.len()
        invariant
            i <= set@.len(),
            forall|k: int| 0 <= k < i ==> !((#[trigger] set@[k]).0 <= c && c <= set@[k].1),
        decreases set@.len() - i,
    {
        if set[i].0 <= c && c <= set[i].1 {
            return !negated;
        }
        i += 1;
    }
    negated
}

/// [`first_fit`] of the elements from `a` on and the text from `t` on.
fn match_atoms(atoms: &[Atom], a: usize, text: &[char], t: usize) -> (r: Option<Vec<String>>)
    requires
        a <= atoms@.len(),
        t <= text@.len(),
    ensures
        found_as(r, first_fit(atom_models(atoms@).skip(a as int), text@.skip(t as int))),
    decreases atoms@.len() - a, 0nat,
{
    let ghost ms = atom_models(atoms@);
    let ghost rest = ms.skip(a as int).skip(1);
    let ghost tail = text@.skip(t as int);
    if a == atoms.len() {
        if t == text.len() {
            let caps: Vec<String> = Vec::new();
            proof {
                assert(text::texts(caps@) =~= Seq::<Seq<char>>::empty());
            }
            return Some(caps);
        }
        return None;
    }
    proof {
        assert(rest =~= ms.skip(a + 1));
        assert(ms.skip(a as int)[0] == atoms@[a as int]@);
    }
    let plain = match &atoms[a] {
        Atom::Any => {
            return match_split(atoms, a + 1, text, t);
        },
        Atom::Ch(c) => {
            if t == text.len() || text[t] != *c {
                return None;
            }
            true
        },
        Atom::One => {
            if t == text.len() {
                return None;
            }
            false
        },
        Atom::Class { set, negated } => {
            if t == text.len() || !class_holds(set, *negated, text[t]) {
                return None;
            }
            false
        },
    };
    proof {
        assert(tail.skip(1) =~= text@.skip(t + 1));
    }
    match match_atoms(atoms, a + 1, text, t + 1) {
        Some(caps) => if plain {
            Some(caps)
        } else {
            let head = slice_text(text, t, t + 1);
            proof {
                assert(head@ =~= seq![tail[0]]);
            }
            Some(prepend(head, caps))
        },
        None => None,
    }
}

/// Tries, for a `*` before the element `a`, ever longer pieces of the text from `t` on.
fn match_split(atoms: &[Atom], a: usize, text: &[char], t: usize) -> (r: Option<Vec<String>>)
    requires
        a <= atoms@.len(),
        t <= text@.len(),
    ensures
        found_as(r, first_split(atom_models(atoms@).skip(a as int), text@.skip(t as int), 0)),
    decreases atoms@.len() - a, 1nat,
{
    let ghost rest = atom_models(atoms@).skip(a as int);
    let ghost tail = text@.skip(t as int);
    let mut k: usize = t;
    while k < text.len()
        invariant
            a <= atoms@.len(),
            t <= k <= text@.len(),
            tail == text@.skip(t as int),
            rest == atom_models(atoms@).skip(a as int),
            first_split(rest, tail, 0) == first_split(rest, tail, (k - t) as nat),
        decreases text@.len() - k,
    {
        proof {
            assert(tail.skip(k - t) =~= text@.skip(k as int));
            assert(tail.take(k - t) =~= text@.subrange(t as int, k as int));
        }
        match match_atoms(atoms, a, text, k) {
            Some(caps) => {
                return Some(prepend(slice_text(text, t, k), caps));
            },
            None => {},
        }
        k += 1;
    }
    proof {
        assert(tail.skip(k - t) =~= text@.skip(k as int));
        assert(tail.take(k - t) =~= text@.subrange(t as int, k as int));
        assert(first_split(rest, tail, (k - t + 1) as nat) is None);
    }
    match match_atoms(atoms, a, text, k) {
        Some(caps) => Some(prepend(slice_text(text, t, k), caps)),
        None => None,
    }
}

fn prepend(head: String, caps: Vec<String>) -> (r: Vec<String>)
    ensures
        text::texts(r@) == seq![head@] + text::texts(caps@),
{
    let mut caps = caps;
    let ghost before = caps@;
    caps.insert(0, head);
    proof {
        assert(text::texts(caps@) =~= seq![head@] + text::texts(before));
    }
    caps
}

/// The pieces of `text` that the metacharacters of `pattern` stand for, or nothing where
/// the text does not match.
pub fn glob_captures(pattern: &str, text: &str) -> (r: Option<Vec<String>>)
    ensures
        found_as(r, first_fit(lexed(pattern@), text@)),
{
    let chars = chars_of(text);
    let atoms = lex(pattern);
    proof {
        assert(atom_models(atoms@).skip(0) =~= atom_models(atoms@));
        assert(chars@.skip(0) =~= chars@);
    }
    match_atoms(&atoms, 0, &chars, 0)
}

} // verus!
