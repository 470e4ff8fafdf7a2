//! What the metacharacters of a search captured, put in the place of the references of an
//! edit query.
//!
//! A search is read only as far as its operands go. `type:label` pairs, types with nothing
//! behind the colon and bare words or quoted texts are operands. Names before an opening
//! parenthesis and signs between operands are not.
use crate::edit::error::{EditError, EditErrorModel};
use crate::edit::glob_capture;
use crate::edit::glob_capture::glob_captures;
use crate::edit::parse;
use crate::edit::parse::{EditQuery, EditQueryLeaf, EditQueryNode, LeafModel, LeafPart};
use crate::edit::parse::{NodeModel, PartModel};
use crate::item;
use crate::item::{Item, TagType, TagTypeModel};
use crate::tag;
use crate::tag::{TagRegistry, TimeSlots};
use crate::text;
use crate::text::{char_is_white, chars_of, slice_text, str_eq};
use vstd::prelude::*;

verus! {

// ---------------------------------------------------------------------------
// Reading a search
// ---------------------------------------------------------------------------

/// Whether a character ends a bare word.
pub open spec fn breaks(c: char) -> bool {
    text::is_white(c) || c == '|' || c == '&' || c == '(' || c == ')' || c == '<' || c == '>' || c
        == '=' || c == '"' || c == ':'
}

fn breaks_word(c: char) -> (r: bool)
    ensures
        r == breaks(c),
{
    char_is_white(c) || c == '|' || c == '&' || c == '(' || c == ')' || c == '<' || c == '>' || c
        == '=' || c == '"' || c == ':'
}

/// The end of the bare word at `i`. A backslash takes the next character into the word.
pub open spec fn word_end(s: Seq<char>, i: int) -> int
    decreases s.len() - i,
{
    if i < 0 || i >= s.len() {
        s.len() as int
    } else if s[i] == '\\' && i + 1 < s.len() {
        word_end(s, i + 2)
    } else if breaks(s[i]) {
        i
    } else {
        word_end(s, i + 1)
    }
}

proof fn lemma_word_end(s: Seq<char>, i: int)
    requires
        0 <= i <= s.len(),
    ensures
        i <= word_end(s, i) <= s.len(),
        i < s.len() && !breaks(s[i]) ==> word_end(s, i) > i,
    decreases s.len() - i,
{
    if i < s.len() {
        if s[i] == '\\' && i + 1 < s.len() {
            lemma_word_end(s, i + 2);
        } else if !breaks(s[i]) {
            lemma_word_end(s, i + 1);
        }
    }
}

fn find_word_end(v: &Vec<char>, i: usize) -> (r: usize)
    requires
        i <= v@.len(),
    ensures
        r == word_end(v@, i as int),
        i <= r <= v@.len(),
        i < v@.len() && !breaks(v@[i as int]) ==> r > i,
{
    proof {
        lemma_word_end(v@, i as int);
    }
    let mut k: usize = i;
    while k < v.len()
        invariant
            i <= k <= v@.len(),
            word_end(v@, k as int) == word_end(v@, i as int),
            i <= word_end(v@, i as int) <= v@.len(),
            i < v@.len() && !breaks(v@[i as int]) ==> word_end(v@, i as int) > i,
        decreases v@.len() - k,
    {
        if v[k] == '\\' && v.len() - k > 1 {
            k += 2;
        } else if breaks_word(v[k]) {
            return k;
        } else {
            k += 1;
        }
    }
    k
}

/// The position of the quote that closes a quoted text, from `i` on.
pub open spec fn quote_end(s: Seq<char>, i: int) -> Option<int>
    decreases s.len() - i,
{
    if i < 0 || i >= s.len() {
        None
    } else if s[i] == '"' {
        Some(i)
    } else if s[i] == '\\' {
        if i + 1 < s.len() {
            quote_end(s, i + 2)
        } else {
            None
        }
    } else {
        quote_end(s, i + 1)
    }
}

fn find_quote_end(v: &Vec<char>, i: usize) -> (r: Option<usize>)
    requires
        i <= v@.len(),
    ensures
        match r {
            Some(k) => quote_end(v@, i as int) == Some(k as int) && i <= k < v@.len(),
            None => quote_end(v@, i as int) is None,
        },
{
    let mut k: usize = i;
    while k < v.len()
        invariant
            i <= k <= v@.len(),
            quote_end(v@, k as int) == quote_end(v@, i as int),
        decreases v@.len() - k,
    {
        if v[k] == '"' {
            return Some(k);
        } else if v[k] == '\\' {
            if v.len() - k > 1 {
                k += 2;
            } else {
                return None;
            }
        } else {
            k += 1;
        }
    }
    None
}

/// A quoted text without the backslashes before quotes and backslashes.
pub open spec fn unquoted(s: Seq<char>) -> Seq<char>
    decreases s.len(),
{
    if s.len() == 0 {
        seq![]
    } else if s[0] == '\\' && s.len() > 1 && (s[1] == '"' || s[1] == '\\') {
        seq![s[1]] + unquoted(s.skip(2))
    } else {
        seq![s[0]] + unquoted(s.skip(1))
    }
}

fn unquote(v: &Vec<char>, from: usize, to: usize) -> (r: String)
    requires
        from <= to <= v@.len(),
    ensures
        r@ == unquoted(v@.subrange(from as int, to as int)),
{
    let ghost whole = v@.subrange(from as int, to as int);
    let mut s = String::new();
    let mut i: usize = from;
    proof {
        assert(s@ + unquoted(v@.subrange(i as int, to as int)) =~= unquoted(whole));
    }
    while i < to
        invariant
            from <= i <= to <= v@.len(),
            s@ + unquoted(v@.subrange(i as int, to as int)) == unquoted(whole),
        decreases to - i,
    {
        let ghost rest = v@.subrange(i as int, to as int);
        let ghost before = s@;
        if v[i] == '\\' && to - i > 1 && (v[i + 1] == '"' || v[i + 1] == '\\') {
            s.push(v[i + 1]);
            proof {
                assert(rest.skip(2) =~= v@.subrange(i + 2, to as int));
                assert(s@ + unquoted(rest.skip(2)) =~= before + (seq![rest[1]] + unquoted(
                    rest.skip(2),
                )));
            }
            i += 2;
        } else {
            s.push(v[i]);
            proof {
                assert(rest.skip(1) =~= v@.subrange(i + 1, to as int));
                assert(s@ + unquoted(rest.skip(1)) =~= before + (seq![rest[0]] + unquoted(
                    rest.skip(1),
                )));
            }
            i += 1;
        }
    }
    proof {
        assert(v@.subrange(to as int, to as int) =~= seq![]);
        assert(s@ =~= unquoted(whole));
    }
    s
}

/// Whether a word is a number: digits with a sign before them, and with a point and more
/// digits behind them, where wanted.
pub open spec fn is_number(s: Seq<char>) -> bool {
    let t = if s.len() > 0 && s[0] == '-' {
        s.skip(1)
    } else {
        s
    };
    let k = text::find_from(t, '.', 0);
    text::all_digits(t.take(k)) && k > 0 && (k < t.len() ==> k + 1 < t.len() && text::all_digits(
        t.skip(k + 1),
    ))
}

fn digits_only(v: &Vec<char>, from: usize, to: usize) -> (r: bool)
    requires
        from <= to <= v@.len(),
    ensures
        r == forall|k: int| from <= k < to ==> text::is_digit(#[trigger] v@[k]),
{
    let mut i: usize = from;
    while i < to
        invariant
            from <= i <= to <= v@.len(),
            forall|k: int| from <= k < i ==> text::is_digit(#[trigger] v@[k]),
        decreases to - i,
    {
        if !(v[i] >= '0' && v[i] <= '9') {
            proof {
                assert(!text::is_digit(v@[i as int]));
            }
            return false;
        }
        i += 1;
    }
    true
}

fn looks_like_number(v: &Vec<char>) -> (r: bool)
    ensures
        r == is_number(v@),
{
    let from: usize = if v.len() > 0 && v[0] == '-' {
        1
    } else {
        0
    };
    let ghost t = v@.skip(from as int);
    proof {
        assert(from == 0 ==> t =~= v@);
    }
    let dot = text::find_char(v, '.', from);
    let ghost k = dot - from;
    proof {
        lemma_find_shift(v@, '.', from as int, 0);
        assert(t.take(k) =~= v@.subrange(from as int, dot as int));
        assert forall|j: int| 0 <= j < k implies t.take(k)[j] == v@[from + j] by {}
    }
    let whole = digits_only(v, from, dot);
    proof {
        if whole {
            assert(text::all_digits(t.take(k)));
        } else {
            let j = choose|j: int| from <= j < dot && !text::is_digit(v@[j]);
            assert(!text::is_digit(t.take(k)[j - from]));
        }
    }
    if !whole || dot == from {
        return false;
    }
    if dot == v.len() {
        return true;
    }
    if dot + 1 == v.len() {
        return false;
    }
    let frac = digits_only(v, dot + 1, v.len());
    proof {
        let f = t.skip(k + 1);
        if frac {
            assert forall|j: int| 0 <= j < f.len() implies text::is_digit(#[trigger] f[j]) by {
                assert(f[j] == v@[dot + 1 + j]);
            }
        } else {
            let j = choose|j: int| dot + 1 <= j < v@.len() && !text::is_digit(v@[j]);
            assert(!text::is_digit(f[j - dot - 1]));
        }
    }
    frac
}

proof fn lemma_find_shift(s: Seq<char>, c: char, from: int, i: int)
    requires
        0 <= from <= s.len(),
        0 <= i <= s.len() - from,
    ensures
        text::find_from(s.skip(from), c, i) == text::find_from(s, c, from + i) - from,
    decreases s.len() - from - i,
{
    if i < s.len() - from {
        assert(s.skip(from)[i] == s[from + i]);
        if s[from + i] != c {
            lemma_find_shift(s, c, from, i + 1);
        }
    }
}

/// A word or a quoted text of a search.
#[derive(Debug)]
pub struct Word {
    pub text: String,
    pub number: bool,
}

#[verifier::ext_equal]
pub struct WordModel {
    pub text: Seq<char>,
    pub number: bool,
}

impl View for Word {
    type V = WordModel;

    open spec fn view(&self) -> WordModel {
        WordModel { text: self.text@, number: self.number }
    }
}

/// The word or quoted text at `i`, and the position after it; none where a quote is never
/// closed.
pub open spec fn word_at(s: Seq<char>, i: int) -> Option<(WordModel, int)> {
    if s[i] == '"' {
        match quote_end(s, i + 1) {
            Some(k) => Some(
                (WordModel { text: unquoted(s.subrange(i + 1, k)), number: false }, k + 1),
            ),
            None => None,
        }
    } else {
        let k = word_end(s, i);
        let w = s.subrange(i, k);
        Some((WordModel { text: w, number: is_number(w) }, k))
    }
}

fn read_word(v: &Vec<char>, i: usize) -> (r: Option<(Word, usize)>)
    requires
        i < v@.len(),
        v@[i as int] == '"' || !breaks(v@[i as int]),
    ensures
        match r {
            Some(w) => word_at(v@, i as int) == Some((w.0@, w.1 as int)) && i < w.1 <= v@.len(),
            None => word_at(v@, i as int) is None,
        },
{
    let n = v.len();
    if v[i] == '"' {
        match find_quote_end(v, i + 1) {
            Some(k) => {
                proof {
                    assert(k < n);
                }
                Some((Word { text: unquote(v, i + 1, k), number: false }, k + 1))
            },
            None => None,
        }
    } else {
        let k = find_word_end(v, i);
        let w = slice_text(v, i, k);
        let chars = chars_of(w.as_str());
        let number = looks_like_number(&chars);
        Some((Word { text: w, number }, k))
    }
}

/// An operand of a search.
#[derive(Debug)]
pub enum Operand {
    Pair(Word, Word),
    Type(Word),
    Bare(Word),
}

#[verifier::ext_equal]
pub enum OperandModel {
    Pair(WordModel, WordModel),
    Type(WordModel),
    Bare(WordModel),
}

impl View for Operand {
    type V = OperandModel;

    open spec fn view(&self) -> OperandModel {
        match *self {
            Operand::Pair(a, b) => OperandModel::Pair(a@, b@),
            Operand::Type(a) => OperandModel::Type(a@),
            Operand::Bare(a) => OperandModel::Bare(a@),
        }
    }
}

pub open spec fn operand_models(v: Seq<Operand>) -> Seq<OperandModel> {
    v.map_values(|o: Operand| o@)
}

/// Whether a word is a sign of arithmetic.
pub open spec fn is_sign(s: Seq<char>) -> bool {
    s == "*"@ || s == "-"@ || s == "+"@ || s == "/"@
}

/// Whether a label can start with a character.
pub open spec fn starts_label(c: char) -> bool {
    c == '"' || !breaks(c)
}

/// What stands at `i`: at most one operand, the position after it, and whether an operand
/// has been read last. `after` says whether one had been read before.
pub open spec fn search_step(s: Seq<char>, i: int, after: bool) -> Option<
    (Option<OperandModel>, int, bool),
> {
    let c = s[i];
    if text::is_white(c) {
        Some((None, i + 1, after))
    } else if c == ')' {
        Some((None, i + 1, true))
    } else if c != '"' && (breaks(c) || c == '!') {
        Some((None, i + 1, false))
    } else {
        match word_at(s, i) {
            None => None,
            Some((w, k)) => if k < s.len() && s[k] == '(' && c != '"' {
                Some((None, k + 1, false))
            } else if k < s.len() && s[k] == ':' {
                if k + 1 < s.len() && starts_label(s[k + 1]) {
                    match word_at(s, k + 1) {
                        None => None,
                        Some((l, j)) => Some((Some(OperandModel::Pair(w, l)), j, true)),
                    }
                } else {
                    Some((Some(OperandModel::Type(w)), k + 1, true))
                }
            } else if after && c != '"' && is_sign(w.text) {
                Some((None, k, false))
            } else {
                Some((Some(OperandModel::Bare(w)), k, true))
            },
        }
    }
}

proof fn lemma_word_at(s: Seq<char>, i: int)
    requires
        0 <= i < s.len(),
        starts_label(s[i]),
    ensures
        match word_at(s, i) {
            Some((_, k)) => i < k <= s.len(),
            None => true,
        },
{
    lemma_word_end(s, i);
    if s[i] == '"' {
        lemma_quote_end(s, i + 1);
    }
}

proof fn lemma_quote_end(s: Seq<char>, i: int)
    requires
        0 <= i,
    ensures
        match quote_end(s, i) {
            Some(k) => i <= k < s.len(),
            None => true,
        },
    decreases s.len() - i,
{
    if i < s.len() && s[i] != '"' {
        if s[i] == '\\' {
            if i + 1 < s.len() {
                lemma_quote_end(s, i + 2);
            }
        } else {
            lemma_quote_end(s, i + 1);
        }
    }
}

proof fn lemma_search_step(s: Seq<char>, i: int, after: bool)
    requires
        0 <= i < s.len(),
    ensures
        match search_step(s, i, after) {
            Some((_, k, _)) => i < k <= s.len(),
            None => true,
        },
{
    if starts_label(s[i]) {
        lemma_word_at(s, i);
        match word_at(s, i) {
            Some((_, k)) => {
                if k + 1 < s.len() && starts_label(s[k + 1]) {
                    lemma_word_at(s, k + 1);
                }
            },
            None => {},
        }
    }
}

/// The operands of a search from `i` on.
pub open spec fn operands_from(s: Seq<char>, i: int, after: bool) -> Option<Seq<OperandModel>>
    decreases s.len() - i,
    via operands_from_decreases
{
    if i < 0 || i >= s.len() {
        Some(seq![])
    } else {
        match search_step(s, i, after) {
            None => None,
            Some((o, k, a)) => match operands_from(s, k, a) {
                None => None,
                Some(rest) => match o {
                    Some(x) => Some(seq![x] + rest),
                    None => Some(rest),
                },
            },
        }
    }
}

#[via_fn]
proof fn operands_from_decreases(s: Seq<char>, i: int, after: bool) {
    if 0 <= i < s.len() {
        lemma_search_step(s, i, after);
    }
}

/// The operands of a search, from left to right; none where a quote is never closed.
pub open spec fn operands(s: Seq<char>) -> Option<Seq<OperandModel>> {
    operands_from(s, 0, false)
}

fn read_step(v: &Vec<char>, i: usize, after: bool) -> (r: Option<(Option<Operand>, usize, bool)>)
    requires
        i < v@.len(),
    ensures
        match r {
            None => search_step(v@, i as int, after) is None,
            Some(t) => i < t.1 <= v@.len() && search_step(v@, i as int, after) == Some(
                (
                    match t.0 {
                        Some(o) => Some(o@),
                        None => None,
                    },
                    t.1 as int,
                    t.2,
                ),
            ),
        },
{
    let n = v.len();
    let c = v[i];
    proof {
        assert(i < n);
    }
    if char_is_white(c) {
        return Some((None, i + 1, after));
    }
    if c == ')' {
        return Some((None, i + 1, true));
    }
    if c != '"' && (breaks_word(c) || c == '!') {
        return Some((None, i + 1, false));
    }
    let (w, k) = match read_word(v, i) {
        Some(t) => t,
        None => {
            return None;
        },
    };
    if k < v.len() && v[k] == '(' && c != '"' {
        return Some((None, k + 1, false));
    }
    if k < v.len() && v[k] == ':' {
        if v.len() - k > 1 && (v[k + 1] == '"' || !breaks_word(v[k + 1])) {
            return match read_word(v, k + 1) {
                None => None,
                Some((l, j)) => Some((Some(Operand::Pair(w, l)), j, true)),
            };
        }
        return Some((Some(Operand::Type(w)), k + 1, true));
    }
    if after && c != '"' && (str_eq(w.text.as_str(), "*") || str_eq(w.text.as_str(), "-")
        || str_eq(w.text.as_str(), "+") || str_eq(w.text.as_str(), "/")) {
        return Some((None, k, false));
    }
    Some((Some(Operand::Bare(w)), k, true))
}

fn read_operands(v: &Vec<char>) -> (r: Option<Vec<Operand>>)
    ensures
        match r {
            Some(os) => operands(v@) == Some(operand_models(os@)),
            None => operands(v@) is None,
        },
{
    let mut out: Vec<Operand> = Vec::new();
    let mut i: usize = 0;
    let mut after = false;
    proof {
        assert(operand_models(out@) =~= seq![]);
        match operands_from(v@, 0, false) {
            Some(rest) => {
                assert(operand_models(out@) + rest =~= rest);
            },
            None => {},
        }
    }
    while i < v.len()
        invariant
            i <= v@.len(),
            match operands_from(v@, i as int, after) {
                Some(rest) => operands(v@) == Some(operand_models(out@) + rest),
                None => operands(v@) is None,
            },
        decreases v@.len() - i,
    {
        match read_step(v, i, after) {
            None => {
                return None;
            },
            Some((o, k, a)) => {
                let ghost before = operand_models(out@);
                let ghost rest = operands_from(v@, k as int, a);
                match o {
                    Some(x) => {
                        proof {
                            assert(operand_models(out@.push(x)) =~= before.push(x@));
                            if rest is Some {
                                assert(before + (seq![x@] + rest->0) =~= before.push(x@) + rest->0);
                            }
                        }
                        out.push(x);
                    },
                    None => {},
                }
                i = k;
                after = a;
            },
        }
    }
    proof {
        assert(operand_models(out@) + Seq::<OperandModel>::empty() =~= operand_models(out@));
    }
    Some(out)
}

// ---------------------------------------------------------------------------
// Numbering captures
// ---------------------------------------------------------------------------

/// A pattern with the numbers of its metacharacters, or a number, which is taken as it is.
#[derive(Debug, PartialEq)]
pub enum Pattern {
    Glob { text: String, numbers: Vec<usize> },
    Literal(String),
}

#[verifier::ext_equal]
pub enum PatternModel {
    Glob { text: Seq<char>, numbers: Seq<usize> },
    Literal(Seq<char>),
}

impl View for Pattern {
    type V = PatternModel;

    open spec fn view(&self) -> PatternModel {
        match *self {
            Pattern::Glob { text, numbers } => PatternModel::Glob {
                text: text@,
                numbers: numbers@,
            },
            Pattern::Literal(s) => PatternModel::Literal(s@),
        }
    }
}

/// An operand of a search with its patterns.
#[derive(Debug, PartialEq)]
pub enum Unit {
    Pair { ty: Pattern, label: Pattern },
    Type(Pattern),
    Label(Pattern),
}

#[verifier::ext_equal]
pub enum UnitModel {
    Pair { ty: PatternModel, label: PatternModel },
    Type(PatternModel),
    Label(PatternModel),
}

impl View for Unit {
    type V = UnitModel;

    open spec fn view(&self) -> UnitModel {
        match *self {
            Unit::Pair { ty, label } => UnitModel::Pair { ty: ty@, label: label@ },
            Unit::Type(p) => UnitModel::Type(p@),
            Unit::Label(p) => UnitModel::Label(p@),
        }
    }
}

pub open spec fn unit_models(v: Seq<Unit>) -> Seq<UnitModel> {
    v.map_values(|u: Unit| u@)
}

/// How many metacharacters a pattern has.
pub open spec fn metachars(s: Seq<char>) -> nat {
    glob_capture::lexed(s).filter(|a: glob_capture::AtomModel| a.captures()).len()
}

/// Numbers in a row.
pub open spec fn numbers_from(first: nat, count: nat) -> Seq<usize> {
    Seq::new(count, |k: int| (first + k) as usize)
}

/// The numbers of the metacharacters of a text, from `next` on; none where they do not fit a
/// machine word.
pub fn number_metachars(s: &str, next: usize) -> (r: Option<Vec<usize>>)
    ensures
        match r {
            Some(v) => v@ == numbers_from(next as nat, metachars(s@)) && next + metachars(s@)
                <= usize::MAX,
            None => next + metachars(s@) > usize::MAX,
        },
{
    let atoms = glob_capture::lex(s);
    let ghost ms = glob_capture::atom_models(atoms@);
    let ghost p = |a: glob_capture::AtomModel| a.captures();
    let mut out: Vec<usize> = Vec::new();
    let mut n: usize = next;
    let mut i: usize = 0;
    proof {
        reveal(Seq::filter);
        assert(ms.take(0).filter(p).len() == 0);
        assert(out@ =~= numbers_from(next as nat, 0));
    }
    while i < atoms.len()
        invariant
            i <= atoms@.len(),
            ms == glob_capture::atom_models(atoms@),
            ms == glob_capture::lexed(s@),
            p == (|a: glob_capture::AtomModel| a.captures()),
            n == next + ms.take(i as int).filter(p).len(),
            out@ == numbers_from(next as nat, ms.take(i as int).filter(p).len()),
        decreases atoms@.len() - i,
    {
        proof {
            reveal(Seq::filter);
            assert(ms.take(i + 1).drop_last() =~= ms.take(i as int));
            assert(ms.take(i + 1).last() == atoms@[i as int]@);
        }
        if atoms[i].is_metachar() {
            if n == usize::MAX {
                proof {
                    lemma_filter_take(ms, i + 1, p);
                }
                return None;
            }
            proof {
                assert(numbers_from(next as nat, ms.take(i + 1).filter(p).len()) =~= numbers_from(
                    next as nat,
                    ms.take(i as int).filter(p).len(),
                ).push(n));
            }
            out.push(n);
            n += 1;
        }
        i += 1;
    }
    proof {
        assert(ms.take(ms.len() as int) =~= ms);
    }
    Some(out)
}

proof fn lemma_filter_take(
    s: Seq<glob_capture::AtomModel>,
    k: int,
    p: spec_fn(glob_capture::AtomModel) -> bool,
)
    requires
        0 <= k <= s.len(),
    ensures
        s.take(k).filter(p).len() <= s.filter(p).len(),
    decreases s.len(),
{
    reveal(Seq::filter);
    if k == s.len() {
        assert(s.take(k) =~= s);
    } else {
        assert(s.drop_last().take(k) =~= s.take(k));
        lemma_filter_take(s.drop_last(), k, p);
    }
}

/// The pattern of a word, with numbers from `next` on.
pub open spec fn patterned(w: WordModel, next: nat) -> PatternModel {
    if w.number {
        PatternModel::Literal(w.text)
    } else {
        PatternModel::Glob { text: w.text, numbers: numbers_from(next, metachars(w.text)) }
    }
}

/// How many numbers the pattern of a word takes.
pub open spec fn taken_by(w: WordModel) -> nat {
    if w.number {
        0
    } else {
        metachars(w.text)
    }
}

fn build_pattern(w: Word, next: &mut usize) -> (r: Option<Pattern>)
    ensures
        match r {
            Some(p) => p@ == patterned(w@, *old(next) as nat) && *final(next) == *old(next)
                + taken_by(w@),
            None => *old(next) + taken_by(w@) > usize::MAX,
        },
{
    if w.number {
        return Some(Pattern::Literal(w.text));
    }
    match number_metachars(w.text.as_str(), *next) {
        None => None,
        Some(numbers) => {
            proof {
                assert(numbers@.len() == metachars(w.text@));
            }
            *next = *next + numbers.len();
            Some(Pattern::Glob { text: w.text, numbers })
        },
    }
}

/// How many numbers an operand takes.
pub open spec fn taken_by_operand(o: OperandModel) -> nat {
    match o {
        OperandModel::Pair(a, b) => taken_by(a) + taken_by(b),
        OperandModel::Type(a) => taken_by(a),
        OperandModel::Bare(a) => taken_by(a),
    }
}

/// The unit of an operand, with numbers from `next` on: the type before the label.
pub open spec fn unit_of(o: OperandModel, next: nat) -> UnitModel {
    match o {
        OperandModel::Pair(a, b) => UnitModel::Pair {
            ty: patterned(a, next),
            label: patterned(b, next + taken_by(a)),
        },
        OperandModel::Type(a) => UnitModel::Type(patterned(a, next)),
        OperandModel::Bare(a) => UnitModel::Label(patterned(a, next)),
    }
}

/// How many numbers operands take.
pub open spec fn taken_by_all(os: Seq<OperandModel>) -> nat
    decreases os.len(),
{
    if os.len() == 0 {
        0
    } else {
        taken_by_all(os.drop_last()) + taken_by_operand(os.last())
    }
}

/// The units of operands, numbered from 1 on, from left to right.
pub open spec fn units_of(os: Seq<OperandModel>) -> Seq<UnitModel>
    decreases os.len(),
{
    if os.len() == 0 {
        seq![]
    } else {
        units_of(os.drop_last()).push(unit_of(os.last(), 1 + taken_by_all(os.drop_last())))
    }
}

proof fn lemma_taken_take(os: Seq<OperandModel>, k: int)
    requires
        0 <= k <= os.len(),
    ensures
        taken_by_all(os.take(k)) <= taken_by_all(os),
    decreases os.len(),
{
    if k == os.len() {
        assert(os.take(k) =~= os);
    } else {
        assert(os.drop_last().take(k) =~= os.take(k));
        lemma_taken_take(os.drop_last(), k);
    }
}

fn walk(operands: Vec<Operand>) -> (r: Option<(Vec<Unit>, usize)>)
    ensures
        match r {
            Some(t) => unit_models(t.0@) == units_of(operand_models(operands@)) && t.1
                == taken_by_all(operand_models(operands@)) && 1 + t.1 <= usize::MAX,
            None => 1 + taken_by_all(operand_models(operands@)) > usize::MAX,
        },
{
    let ghost all = operand_models(operands@);
    let ghost whole = operands@;
    let mut rest = operands;
    let mut units: Vec<Unit> = Vec::new();
    let mut next: usize = 1;
    let ghost mut done: int = 0;
    proof {
        assert(all.take(0) =~= seq![]);
        assert(unit_models(units@) =~= seq![]);
        assert(whole.skip(0) =~= whole);
    }
    while rest.len() > 0
        invariant
            0 <= done <= all.len(),
            all == operand_models(whole),
            rest@ == whole.skip(done),
            whole == operands@,
            next == 1 + taken_by_all(all.take(done)),
            unit_models(units@) == units_of(all.take(done)),
        decreases rest@.len(),
    {
        let o = rest.remove(0);
        proof {
            assert(o == whole[done]);
            assert(rest@ =~= whole.skip(done + 1));
            assert(all.take(done + 1).drop_last() =~= all.take(done));
            assert(all.take(done + 1).last() == o@);
            lemma_taken_take(all, done + 1);
        }
        let u = match o {
            Operand::Pair(a, b) => {
                let ty = match build_pattern(a, &mut next) {
                    Some(p) => p,
                    None => {
                        return None;
                    },
                };
                let label = match build_pattern(b, &mut next) {
                    Some(p) => p,
                    None => {
                        return None;
                    },
                };
                Unit::Pair { ty, label }
            },
            Operand::Type(a) => match build_pattern(a, &mut next) {
                Some(p) => Unit::Type(p),
                None => {
                    return None;
                },
            },
            Operand::Bare(a) => match build_pattern(a, &mut next) {
                Some(p) => Unit::Label(p),
                None => {
                    return None;
                },
            },
        };
        proof {
            assert(unit_models(units@.push(u)) =~= unit_models(units@).push(u@));
        }
        units.push(u);
        proof {
            done = done + 1;
        }
    }
    proof {
        assert(all.take(all.len() as int) =~= all);
    }
    Some((units, next - 1))
}

/// The units of a search and how many captures it has. Fails where a quote is never closed,
/// or where the captures outnumber a machine word.
pub fn collect_units(search_query: &str) -> (r: Result<(Vec<Unit>, usize), EditError>)
    ensures
        match r {
            Ok(t) => match operands(search_query@) {
                Some(os) => unit_models(t.0@) == units_of(os) && t.1 == taken_by_all(os) && 1
                    + t.1 <= usize::MAX,
                None => false,
            },
            Err(e) => e@ == EditErrorModel::InvalidSearch(search_query@) && match operands(
                search_query@,
            ) {
                Some(os) => 1 + taken_by_all(os) > usize::MAX,
                None => true,
            },
        },
{
    let v = chars_of(search_query);
    match read_operands(&v) {
        None => Err(EditError::InvalidSearch(search_query.to_owned())),
        Some(os) => match walk(os) {
            Some(t) => Ok(t),
            None => Err(EditError::InvalidSearch(search_query.to_owned())),
        },
    }
}

impl PatternModel {
    pub open spec fn numbered(self) -> Seq<usize> {
        match self {
            PatternModel::Glob { numbers, .. } => numbers,
            PatternModel::Literal(_) => seq![],
        }
    }
}

impl UnitModel {
    /// The numbers of the metacharacters of a unit.
    pub open spec fn numbered(self) -> Seq<usize> {
        match self {
            UnitModel::Pair { ty, label } => ty.numbered() + label.numbered(),
            UnitModel::Type(p) => p.numbered(),
            UnitModel::Label(p) => p.numbered(),
        }
    }
}

impl Pattern {
    fn push_numbers(&self, out: &mut Vec<usize>)
        ensures
            final(out)@ == old(out)@ + self@.numbered(),
    {
        match self {
            Pattern::Glob { numbers, .. } => {
                let ghost start = out@;
                let mut i: usize = 0;
                proof {
                    assert(start + numbers@.take(0) =~= start);
                }
                while i < numbers.len()
                    invariant
                        i <= numbers@.len(),
                        out@ == start + numbers@.take(i as int),
                    decreases numbers@.len() - i,
                {
                    proof {
                        assert(start + numbers@.take(i + 1) =~= (start + numbers@.take(
                            i as int,
                        )).push(numbers@[i as int]));
                    }
                    out.push(numbers[i]);
                    i += 1;
                }
                proof {
                    assert(numbers@.take(numbers@.len() as int) =~= numbers@);
                }
            },
            Pattern::Literal(_) => {
                proof {
                    assert(out@ + Seq::<usize>::empty() =~= out@);
                }
            },
        }
    }
}

impl Unit {
    /// The numbers of the metacharacters of a unit.
    pub fn numbers(&self) -> (r: Vec<usize>)
        ensures
            r@ == self@.numbered(),
    {
        let mut r: Vec<usize> = Vec::new();
        match self {
            Unit::Pair { ty, label } => {
                ty.push_numbers(&mut r);
                label.push_numbers(&mut r);
                proof {
                    assert(r@ =~= self@.numbered());
                }
            },
            Unit::Type(p) => {
                p.push_numbers(&mut r);
                proof {
                    assert(r@ =~= self@.numbered());
                }
            },
            Unit::Label(p) => {
                p.push_numbers(&mut r);
                proof {
                    assert(r@ =~= self@.numbered());
                }
            },
        }
        r
    }
}

// ---------------------------------------------------------------------------
// References
// ---------------------------------------------------------------------------

/// The references among the parts of a leaf.
pub open spec fn refs_in(parts: Seq<PartModel>) -> Seq<Seq<char>>
    decreases parts.len(),
{
    if parts.len() == 0 {
        seq![]
    } else {
        match parts.last() {
            PartModel::Braced(s) => refs_in(parts.drop_last()).push(s),
            PartModel::Text(_) => refs_in(parts.drop_last()),
        }
    }
}

pub open spec fn refs_of_node(n: NodeModel) -> Seq<Seq<char>> {
    refs_in(n.tag_type.parts) + match n.label {
        Some(l) => refs_in(l.parts),
        None => seq![],
    }
}

/// The references of an edit query, in order.
pub open spec fn refs_of(nodes: Seq<NodeModel>) -> Seq<Seq<char>>
    decreases nodes.len(),
{
    if nodes.len() == 0 {
        seq![]
    } else {
        refs_of(nodes.drop_last()) + refs_of_node(nodes.last())
    }
}

/// Why a reference is refused, if it is.
pub open spec fn ref_error(s: Seq<char>, total: usize) -> Option<EditErrorModel> {
    match text::parsed_usize(s) {
        None => Some(EditErrorModel::ReferenceNotANumber(s)),
        Some(n) => if n == 0 {
            Some(EditErrorModel::ReferenceZero)
        } else if n > total {
            Some(EditErrorModel::ReferenceTooLarge(n, total))
        } else {
            None
        },
    }
}

/// The first reference that is refused.
pub open spec fn first_ref_error(refs: Seq<Seq<char>>, total: usize) -> Option<EditErrorModel>
    decreases refs.len(),
{
    if refs.len() == 0 {
        None
    } else {
        match ref_error(refs[0], total) {
            Some(e) => Some(e),
            None => first_ref_error(refs.skip(1), total),
        }
    }
}

/// Whether a capture is referred to.
pub open spec fn refers_to(refs: Seq<Seq<char>>, n: usize) -> bool {
    exists|k: int| 0 <= k < refs.len() && text::parsed_usize(#[trigger] refs[k]) == Some(n)
}

fn push_refs(parts: &Vec<LeafPart>, out: &mut Vec<String>)
    ensures
        text::texts(final(out)@) == text::texts(old(out)@) + refs_in(parse::part_models(parts@)),
{
    let ghost ps = parse::part_models(parts@);
    let ghost start = text::texts(out@);
    let mut i: usize = 0;
    proof {
        assert(start + refs_in(ps.take(0)) =~= start);
    }
    while i < parts.len()
        invariant
            i <= parts@.len(),
            ps == parse::part_models(parts@),
            text::texts(out@) == start + refs_in(ps.take(i as int)),
        decreases parts@.len() - i,
    {
        proof {
            assert(ps.take(i + 1).drop_last() =~= ps.take(i as int));
            assert(ps.take(i + 1).last() == parts@[i as int]@);
        }
        match &parts[i] {
            LeafPart::Braced(s) => {
                let c = s.clone();
                proof {
                    text::lemma_texts_push(out@, c);
                    assert(start + refs_in(ps.take(i + 1)) =~= (start + refs_in(
                        ps.take(i as int),
                    )).push(c@));
                }
                out.push(c);
            },
            LeafPart::Text(_) => {},
        }
        i += 1;
    }
    proof {
        assert(ps.take(ps.len() as int) =~= ps);
    }
}

fn braced_parts(q: &EditQuery) -> (r: Vec<String>)
    ensures
        text::texts(r@) == refs_of(parse::node_models(q.nodes@)),
{
    let ghost ns = parse::node_models(q.nodes@);
    let mut out: Vec<String> = Vec::new();
    let mut i: usize = 0;
    proof {
        assert(ns.take(0) =~= seq![]);
        assert(text::texts(out@) =~= seq![]);
    }
    while i < q.nodes.len()
        invariant
            i <= q.nodes@.len(),
            ns == parse::node_models(q.nodes@),
            text::texts(out@) == refs_of(ns.take(i as int)),
        decreases q.nodes@.len() - i,
    {
        let n = &q.nodes[i];
        let ghost before = text::texts(out@);
        proof {
            assert(ns.take(i + 1).drop_last() =~= ns.take(i as int));
            assert(ns.take(i + 1).last() == n@);
        }
        push_refs(&n.tag_type.parts, &mut out);
        match &n.label {
            Some(l) => {
                push_refs(&l.parts, &mut out);
            },
            None => {},
        }
        proof {
            assert(text::texts(out@) =~= before + refs_of_node(n@));
        }
        i += 1;
    }
    proof {
        assert(ns.take(ns.len() as int) =~= ns);
    }
    out
}

/// The captures that an edit query refers to, out of `total`; fails on the first reference
/// that is no such capture.
pub fn resolve_refs(parsed: &EditQuery, total: usize) -> (r: Result<Vec<usize>, EditError>)
    ensures
        match r {
            Ok(v) => first_ref_error(refs_of(parse::node_models(parsed.nodes@)), total) is None
                && forall|n: usize|
                v@.contains(n) <==> #[trigger] refers_to(
                    refs_of(parse::node_models(parsed.nodes@)),
                    n,
                ),
            Err(e) => first_ref_error(refs_of(parse::node_models(parsed.nodes@)), total) == Some(
                e@,
            ),
        },
{
    let refs = braced_parts(parsed);
    let ghost rs = text::texts(refs@);
    let mut out: Vec<usize> = Vec::new();
    let mut i: usize = 0;
    proof {
        assert(rs.skip(0) =~= rs);
    }
    while i < refs.len()
        invariant
            i <= refs@.len(),
            rs == text::texts(refs@),
            rs == refs_of(parse::node_models(parsed.nodes@)),
            first_ref_error(rs, total) == first_ref_error(rs.skip(i as int), total),
            out@.len() == i,
            forall|k: int|
                0 <= k < i ==> text::parsed_usize(#[trigger] rs[k]) == Some(out@[k]),
        decreases refs@.len() - i,
    {
        proof {
            assert(rs.skip(i as int)[0] == refs@[i as int]@);
            assert(rs.skip(i as int).skip(1) =~= rs.skip(i + 1));
        }
        match text::parse_usize(refs[i].as_str()) {
            None => {
                return Err(EditError::ReferenceNotANumber(refs[i].clone()));
            },
            Some(n) => {
                if n == 0 {
                    return Err(EditError::ReferenceZero);
                }
                if n > total {
                    return Err(EditError::ReferenceTooLarge(n, total));
                }
                out.push(n);
            },
        }
        i += 1;
    }
    proof {
        assert forall|n: usize| out@.contains(n) <==> #[trigger] refers_to(rs, n) by {
            if out@.contains(n) {
                let k = choose|k: int| 0 <= k < out@.len() && out@[k] == n;
                assert(text::parsed_usize(rs[k]) == Some(n));
            }
            if refers_to(rs, n) {
                let k = choose|k: int|
                    0 <= k < rs.len() && text::parsed_usize(#[trigger] rs[k]) == Some(n);
                assert(out@[k] == n);
            }
        }
    }
    Ok(out)
}

// ---------------------------------------------------------------------------
// What the units hit
// ---------------------------------------------------------------------------

/// What a pattern captures from the name of a type, where it fits.
pub open spec fn type_fit(p: PatternModel, ty: TagTypeModel) -> Option<Seq<Seq<char>>> {
    match p {
        PatternModel::Literal(s) => if ty.name() == s {
            Some(seq![])
        } else {
            None
        },
        PatternModel::Glob { text, .. } => glob_capture::first_fit(
            glob_capture::lexed(text),
            ty.name(),
        ),
    }
}

/// What a pattern captures from the name of a type, where it fits.
pub fn fit_type(p: &Pattern, ty: &TagType) -> (r: Option<Vec<String>>)
    ensures
        glob_capture::found_as(r, type_fit(p@, ty@)),
{
    match p {
        Pattern::Literal(s) => {
            if str_eq(ty.as_str(), s.as_str()) {
                let none: Vec<String> = Vec::new();
                proof {
                    assert(text::texts(none@) =~= seq![]);
                }
                Some(none)
            } else {
                None
            }
        },
        Pattern::Glob { text, .. } => glob_captures(text.as_str(), ty.as_str()),
    }
}

pub open spec fn type_models(v: Seq<TagType>) -> Seq<TagTypeModel> {
    v.map_values(|t: TagType| t@)
}

/// A list of types with one more, where it is not among them.
pub open spec fn with_type(types: Seq<TagTypeModel>, ty: TagTypeModel) -> Seq<TagTypeModel> {
    if types.contains(ty) {
        types
    } else {
        types.push(ty)
    }
}

pub open spec fn registered_types(fns: Seq<tag::TagFnModel>) -> Seq<TagTypeModel>
    decreases fns.len(),
{
    if fns.len() == 0 {
        seq![]
    } else {
        with_type(
            registered_types(fns.drop_last()),
            TagTypeModel::named(fns.last().name),
        )
    }
}

pub open spec fn with_types_of(types: Seq<TagTypeModel>, tags: Seq<item::TagModel>) -> Seq<
    TagTypeModel,
>
    decreases tags.len(),
{
    if tags.len() == 0 {
        types
    } else {
        with_type(with_types_of(types, tags.drop_last()), tags.last().tag_type)
    }
}

/// The types that are registered or that an item has tags of, each once.
pub open spec fn types_known(reg: Seq<tag::TagFnModel>, item: Item) -> Seq<TagTypeModel> {
    with_types_of(registered_types(reg), item.tags@)
}

fn add_type(types: &mut Vec<TagType>, ty: TagType)
    ensures
        type_models(final(types)@) == with_type(type_models(old(types)@), ty@),
{
    let ghost ms = type_models(types@);
    let mut i: usize = 0;
    while i < types.len()
        invariant
            i <= types@.len(),
            ms == type_models(types@),
            ms == type_models(old(types)@),
            forall|k: int| 0 <= k < i ==> #[trigger] ms[k] != ty@,
        decreases types@.len() - i,
    {
        if types[i].same(&ty) {
            proof {
                assert(ms[i as int] == ty@);
            }
            return ;
        }
        i += 1;
    }
    let ghost before = types@;
    proof {
        assert(type_models(before.push(ty)) =~= ms.push(ty@));
    }
    types.push(ty);
}

fn all_types(reg: &TagRegistry, item: &Item) -> (r: Vec<TagType>)
    ensures
        type_models(r@) == types_known(reg@, *item),
{
    let mut out: Vec<TagType> = Vec::new();
    let mut i: usize = 0;
    proof {
        assert(reg@.take(0) =~= seq![]);
        assert(type_models(out@) =~= seq![]);
    }
    while i < reg.fns.len()
        invariant
            i <= reg.fns@.len(),
            type_models(out@) == registered_types(reg@.take(i as int)),
        decreases reg.fns@.len() - i,
    {
        proof {
            assert(reg@.take(i + 1).drop_last() =~= reg@.take(i as int));
            assert(reg@.take(i + 1).last() == reg.fns@[i as int]@);
        }
        add_type(&mut out, TagType::from(reg.fns[i].name.as_str()));
        i += 1;
    }
    proof {
        assert(reg@.take(reg@.len() as int) =~= reg@);
        assert(item.tags@.take(0) =~= seq![]);
    }
    let ghost first = type_models(out@);
    let mut k: usize = 0;
    while k < item.tags.entries.len()
        invariant
            k <= item.tags.entries@.len(),
            type_models(out@) == with_types_of(first, item.tags@.take(k as int)),
        decreases item.tags.entries@.len() - k,
    {
        proof {
            assert(item.tags@.take(k + 1).drop_last() =~= item.tags@.take(k as int));
            assert(item.tags@.take(k + 1).last() == item.tags.entries@[k as int].typed_tag@);
        }
        add_type(&mut out, item.tags.entries[k].typed_tag.tag_type());
        k += 1;
    }
    proof {
        assert(item.tags@.take(item.tags@.len() as int) =~= item.tags@);
    }
    out
}

/// The types that a pattern fits.
pub open spec fn types_fitting(types: Seq<TagTypeModel>, p: PatternModel) -> Seq<TagTypeModel> {
    types.filter(|t: TagTypeModel| type_fit(p, t) is Some)
}

/// The types of an item that a pattern fits.
pub fn candidate_types(reg: &TagRegistry, item: &Item, p: &Pattern) -> (r: Vec<TagType>)
    ensures
        type_models(r@) == types_fitting(types_known(reg@, *item), p@),
{
    let all = all_types(reg, item);
    let ghost ms = type_models(all@);
    let ghost f = |t: TagTypeModel| type_fit(p@, t) is Some;
    let mut out: Vec<TagType> = Vec::new();
    let mut i: usize = 0;
    proof {
        reveal(Seq::filter);
        assert(type_models(out@) =~= ms.take(0).filter(f));
    }
    while i < all.len()
        invariant
            i <= all@.len(),
            ms == type_models(all@),
            f == (|t: TagTypeModel| type_fit(p@, t) is Some),
            type_models(out@) == ms.take(i as int).filter(f),
        decreases all@.len() - i,
    {
        proof {
            reveal(Seq::filter);
            assert(ms.take(i + 1).drop_last() =~= ms.take(i as int));
            assert(ms.take(i + 1).last() == all@[i as int]@);
        }
        if fit_type(p, &all[i]).is_some() {
            let t = all[i].clone();
            proof {
                assert(type_models(out@.push(t)) =~= type_models(out@).push(t@));
            }
            out.push(t);
        }
        i += 1;
    }
    proof {
        assert(ms.take(ms.len() as int) =~= ms);
    }
    out
}

/// Whether an item has a tag of a type with a label.
pub open spec fn has_label(tags: Seq<item::TagModel>, ty: TagTypeModel, s: Seq<char>) -> bool {
    exists|k: int|
        0 <= k < tags.len() && (#[trigger] tags[k]).tag_type == ty && tags[k].value.shown() == s
}

/// What a pattern captures from the labels of a type on an item, one list for each hit.
pub open spec fn label_fits(
    reg: Seq<tag::TagFnModel>,
    slots: Seq<TimeSlots>,
    p: PatternModel,
    ty: TagTypeModel,
    item: Item,
) -> Seq<Seq<Seq<char>>> {
    match p {
        PatternModel::Literal(s) => if has_label(item.tags@, ty, s) {
            seq![seq![]]
        } else {
            seq![]
        },
        PatternModel::Glob { text, .. } => tag::captured_from(
            match tag::find_fn(reg, ty.name()) {
                Some(f) => Some(f.reading),
                None => None,
            },
            ty,
            text,
            item,
            slots,
        ),
    }
}

/// What a pattern captures from the labels of a type on an item.
pub fn fit_label(reg: &TagRegistry, p: &Pattern, ty: &TagType, item: &Item, slots: &Vec<TimeSlots>) -> (r: Vec<
    Vec<String>,
>)
    ensures
        tag::piece_lists(r@) == label_fits(reg@, slots@, p@, ty@, *item),
{
    match p {
        Pattern::Glob { text, .. } => tag::capture(reg, ty, text.as_str(), item, slots),
        Pattern::Literal(s) => {
            let mut r: Vec<Vec<String>> = Vec::new();
            if find_label(item, ty, s.as_str()) {
                let none: Vec<String> = Vec::new();
                proof {
                    assert(text::texts(none@) =~= seq![]);
                }
                r.push(none);
                proof {
                    assert(tag::piece_lists(r@) =~= seq![seq![]]);
                }
            } else {
                proof {
                    assert(tag::piece_lists(r@) =~= seq![]);
                }
            }
            r
        },
    }
}

fn find_label(item: &Item, ty: &TagType, s: &str) -> (r: bool)
    ensures
        r == has_label(item.tags@, ty@, s@),
{
    let mut i: usize = 0;
    while i < item.tags.entries.len()
        invariant
            i <= item.tags.entries@.len(),
            forall|k: int|
                0 <= k < i ==> !((#[trigger] item.tags@[k]).tag_type == ty@
                    && item.tags@[k].value.shown() == s@),
        decreases item.tags.entries@.len() - i,
    {
        let t = &item.tags.entries[i].typed_tag;
        proof {
            assert(item.tags@[i as int] == t@);
        }
        if t.tag_type.same(ty) && str_eq(t.as_str().as_str(), s) {
            return true;
        }
        i += 1;
    }
    false
}

/// Each list with the same pieces before it.
pub open spec fn prefixed(head: Seq<Seq<char>>, lists: Seq<Seq<Seq<char>>>) -> Seq<Seq<Seq<char>>> {
    lists.map_values(|tail: Seq<Seq<char>>| head + tail)
}

/// What a pair captures, over the types that its type fits.
pub open spec fn pair_hits(
    reg: Seq<tag::TagFnModel>,
    slots: Seq<TimeSlots>,
    item: Item,
    ty: PatternModel,
    label: PatternModel,
    types: Seq<TagTypeModel>,
) -> Seq<Seq<Seq<char>>>
    decreases types.len(),
{
    if types.len() == 0 {
        seq![]
    } else {
        pair_hits(reg, slots, item, ty, label, types.drop_last()) + prefixed(
            type_fit(ty, types.last())->0,
            label_fits(reg, slots, label, types.last(), item),
        )
    }
}

pub open spec fn type_hits(p: PatternModel, types: Seq<TagTypeModel>) -> Seq<Seq<Seq<char>>> {
    types.map_values(|t: TagTypeModel| type_fit(p, t)->0)
}

pub open spec fn label_hits(
    reg: Seq<tag::TagFnModel>,
    slots: Seq<TimeSlots>,
    item: Item,
    p: PatternModel,
    types: Seq<TagTypeModel>,
) -> Seq<Seq<Seq<char>>>
    decreases types.len(),
{
    if types.len() == 0 {
        seq![]
    } else {
        label_hits(reg, slots, item, p, types.drop_last()) + label_fits(reg, slots, p, types.last(), item)
    }
}

/// What a unit captures from an item, one list for each hit.
pub open spec fn raw_hits(reg: Seq<tag::TagFnModel>, slots: Seq<TimeSlots>, item: Item, unit: UnitModel) -> Seq<
    Seq<Seq<char>>,
> {
    match unit {
        UnitModel::Pair { ty, label } => pair_hits(
            reg, slots,
            item,
            ty,
            label,
            types_fitting(types_known(reg, item), ty),
        ),
        UnitModel::Type(p) => type_hits(p, types_fitting(types_known(reg, item), p)),
        UnitModel::Label(p) => label_hits(reg, slots, item, p, types_known(reg, item)),
    }
}

/// What captures are bound to: numbers with texts.
#[derive(Debug)]
pub struct Binding {
    pub pairs: Vec<(usize, String)>,
}

pub open spec fn pair_models(v: Seq<(usize, String)>) -> Seq<(usize, Seq<char>)> {
    v.map_values(|p: (usize, String)| (p.0, p.1@))
}

pub open spec fn binding_models(v: Seq<Binding>) -> Seq<Seq<(usize, Seq<char>)>> {
    v.map_values(|b: Binding| pair_models(b.pairs@))
}

/// Numbers with texts, as far as there are both.
pub open spec fn zipped(numbers: Seq<usize>, values: Seq<Seq<char>>) -> Seq<(usize, Seq<char>)> {
    let n = if numbers.len() < values.len() {
        numbers.len()
    } else {
        values.len()
    };
    Seq::new(n, |k: int| (numbers[k], values[k]))
}

/// The bindings that a unit offers: one for each hit, or one that binds nothing.
pub open spec fn hits(reg: Seq<tag::TagFnModel>, slots: Seq<TimeSlots>, item: Item, unit: UnitModel) -> Seq<
    Seq<(usize, Seq<char>)>,
> {
    let raw = raw_hits(reg, slots, item, unit);
    if raw.len() == 0 {
        seq![seq![]]
    } else {
        raw.map_values(|values: Seq<Seq<char>>| zipped(unit.numbered(), values))
    }
}

fn append_prefixed(out: &mut Vec<Vec<String>>, head: &Vec<String>, lists: &Vec<Vec<String>>)
    ensures
        tag::piece_lists(final(out)@) == tag::piece_lists(old(out)@) + prefixed(
            text::texts(head@),
            tag::piece_lists(lists@),
        ),
{
    let ghost h = text::texts(head@);
    let ghost ls = tag::piece_lists(lists@);
    let ghost start = tag::piece_lists(out@);
    let mut i: usize = 0;
    proof {
        assert(start + prefixed(h, ls.take(0)) =~= start);
    }
    while i < lists.len()
        invariant
            i <= lists@.len(),
            h == text::texts(head@),
            ls == tag::piece_lists(lists@),
            tag::piece_lists(out@) == start + prefixed(h, ls.take(i as int)),
        decreases lists@.len() - i,
    {
        let joined = concat(head, &lists[i]);
        proof {
            assert(tag::piece_lists(out@.push(joined)) =~= tag::piece_lists(out@).push(
                text::texts(joined@),
            ));
            assert(ls[i as int] == text::texts(lists@[i as int]@));
            assert(start + prefixed(h, ls.take(i + 1)) =~= (start + prefixed(
                h,
                ls.take(i as int),
            )).push(h + ls[i as int]));
        }
        out.push(joined);
        i += 1;
    }
    proof {
        assert(ls.take(ls.len() as int) =~= ls);
    }
}

fn concat(a: &Vec<String>, b: &Vec<String>) -> (r: Vec<String>)
    ensures
        text::texts(r@) == text::texts(a@) + text::texts(b@),
{
    let mut r: Vec<String> = Vec::new();
    let mut i: usize = 0;
    while i < a.len()
        invariant
            i <= a@.len(),
            r@.len() == i,
            forall|k: int| 0 <= k < i ==> (#[trigger] r@[k])@ == a@[k]@,
        decreases a@.len() - i,
    {
        r.push(a[i].clone());
        i += 1;
    }
    let mut j: usize = 0;
    while j < b.len()
        invariant
            j <= b@.len(),
            r@.len() == a@.len() + j,
            forall|k: int| 0 <= k < a@.len() ==> (#[trigger] r@[k])@ == a@[k]@,
            forall|k: int|
                a@.len() <= k < a@.len() + j ==> (#[trigger] r@[k])@ == b@[k - a@.len()]@,
        decreases b@.len() - j,
    {
        r.push(b[j].clone());
        j += 1;
    }
    proof {
        assert(text::texts(r@) =~= text::texts(a@) + text::texts(b@));
    }
    r
}

fn find_raw_hits(reg: &TagRegistry, item: &Item, unit: &Unit, slots: &Vec<TimeSlots>) -> (r: Vec<Vec<String>>)
    ensures
        tag::piece_lists(r@) == raw_hits(reg@, slots@, *item, unit@),
{
    let mut out: Vec<Vec<String>> = Vec::new();
    proof {
        assert(tag::piece_lists(out@) =~= seq![]);
    }
    match unit {
        Unit::Pair { ty, label } => {
            let types = candidate_types(reg, item, ty);
            let ghost ts = type_models(types@);
            let mut i: usize = 0;
            proof {
                assert(ts.take(0) =~= seq![]);
            }
            while i < types.len()
                invariant
                    i <= types@.len(),
                    ts == type_models(types@),
                    ts == types_fitting(types_known(reg@, *item), ty@),
                    tag::piece_lists(out@) == pair_hits(
                        reg@, slots@,
                        *item,
                        ty@,
                        label@,
                        ts.take(i as int),
                    ),
                decreases types@.len() - i,
            {
                proof {
                    assert(ts.take(i + 1).drop_last() =~= ts.take(i as int));
                    assert(ts.take(i + 1).last() == types@[i as int]@);
                    lemma_fitting(types_known(reg@, *item), ty@, i as int);
                }
                let head = match fit_type(ty, &types[i]) {
                    Some(h) => h,
                    None => Vec::new(),
                };
                let tails = fit_label(reg, label, &types[i], item, slots);
                append_prefixed(&mut out, &head, &tails);
                i += 1;
            }
            proof {
                assert(ts.take(ts.len() as int) =~= ts);
            }
        },
        Unit::Type(p) => {
            let types = candidate_types(reg, item, p);
            let ghost ts = type_models(types@);
            let mut i: usize = 0;
            proof {
                assert(tag::piece_lists(out@) =~= type_hits(p@, ts.take(0)));
            }
            while i < types.len()
                invariant
                    i <= types@.len(),
                    ts == type_models(types@),
                    ts == types_fitting(types_known(reg@, *item), p@),
                    tag::piece_lists(out@) == type_hits(p@, ts.take(i as int)),
                decreases types@.len() - i,
            {
                proof {
                    lemma_fitting(types_known(reg@, *item), p@, i as int);
                    assert(ts[i as int] == types@[i as int]@);
                    assert(type_hits(p@, ts.take(i + 1)) =~= type_hits(
                        p@,
                        ts.take(i as int),
                    ).push(type_fit(p@, ts[i as int])->0));
                }
                match fit_type(p, &types[i]) {
                    Some(h) => {
                        proof {
                            assert(tag::piece_lists(out@.push(h)) =~= tag::piece_lists(out@).push(
                                text::texts(h@),
                            ));
                        }
                        out.push(h);
                    },
                    None => {},
                }
                i += 1;
            }
            proof {
                assert(ts.take(ts.len() as int) =~= ts);
            }
        },
        Unit::Label(p) => {
            let types = all_types(reg, item);
            let ghost ts = type_models(types@);
            let mut i: usize = 0;
            proof {
                assert(ts.take(0) =~= seq![]);
            }
            while i < types.len()
                invariant
                    i <= types@.len(),
                    ts == type_models(types@),
                    tag::piece_lists(out@) == label_hits(reg@, slots@, *item, p@, ts.take(i as int)),
                decreases types@.len() - i,
            {
                proof {
                    assert(ts.take(i + 1).drop_last() =~= ts.take(i as int));
                    assert(ts.take(i + 1).last() == types@[i as int]@);
                }
                let found = fit_label(reg, p, &types[i], item, slots);
                let ghost before = out@;
                let ghost added = found@;
                let mut found = found;
                out.append(&mut found);
                proof {
                    assert(tag::piece_lists(out@) =~= tag::piece_lists(before) + tag::piece_lists(
                        added,
                    ));
                }
                i += 1;
            }
            proof {
                assert(ts.take(ts.len() as int) =~= ts);
            }
        },
    }
    out
}

proof fn lemma_fitting(types: Seq<TagTypeModel>, p: PatternModel, i: int)
    requires
        0 <= i < types_fitting(types, p).len(),
    ensures
        type_fit(p, types_fitting(types, p)[i]) is Some,
    decreases types.len(),
{
    reveal(Seq::filter);
    if types.len() > 0 {
        if i < types_fitting(types.drop_last(), p).len() {
            lemma_fitting(types.drop_last(), p, i);
        }
    }
}

fn zip_values(numbers: &Vec<usize>, values: &Vec<String>) -> (r: Binding)
    ensures
        pair_models(r.pairs@) == zipped(numbers@, text::texts(values@)),
{
    let mut pairs: Vec<(usize, String)> = Vec::new();
    let mut i: usize = 0;
    while i < numbers.len() && i < values.len()
        invariant
            i <= numbers@.len(),
            i <= values@.len(),
            pairs@.len() == i,
            forall|k: int|
                0 <= k < i ==> (#[trigger] pairs@[k]).0 == numbers@[k] && pairs@[k].1@
                    == values@[k]@,
        decreases numbers@.len() - i,
    {
        pairs.push((numbers[i], values[i].clone()));
        i += 1;
    }
    proof {
        assert(pair_models(pairs@) =~= zipped(numbers@, text::texts(values@)));
    }
    Binding { pairs }
}

/// The bindings that a unit offers.
pub fn hits_for_unit(reg: &TagRegistry, item: &Item, unit: &Unit, slots: &Vec<TimeSlots>) -> (r: Vec<Binding>)
    ensures
        binding_models(r@) == hits(reg@, slots@, *item, unit@),
{
    let raw = find_raw_hits(reg, item, unit, slots);
    let ghost rs = tag::piece_lists(raw@);
    let numbers = unit.numbers();
    let mut out: Vec<Binding> = Vec::new();
    if raw.len() == 0 {
        let none = Binding { pairs: Vec::new() };
        proof {
            assert(pair_models(none.pairs@) =~= seq![]);
        }
        out.push(none);
        proof {
            assert(binding_models(out@) =~= seq![seq![]]);
        }
        return out;
    }
    let ghost wanted = rs.map_values(|values: Seq<Seq<char>>| zipped(unit@.numbered(), values));
    let mut i: usize = 0;
    proof {
        assert(binding_models(out@) =~= wanted.take(0));
    }
    while i < raw.len()
        invariant
            i <= raw@.len(),
            rs == tag::piece_lists(raw@),
            numbers@ == unit@.numbered(),
            wanted == rs.map_values(
                |values: Seq<Seq<char>>| zipped(unit@.numbered(), values),
            ),
            binding_models(out@) == wanted.take(i as int),
        decreases raw@.len() - i,
    {
        let b = zip_values(&numbers, &raw[i]);
        proof {
            assert(binding_models(out@.push(b)) =~= binding_models(out@).push(
                pair_models(b.pairs@),
            ));
            assert(rs[i as int] == text::texts(raw@[i as int]@));
            assert(wanted.take(i + 1) =~= wanted.take(i as int).push(wanted[i as int]));
        }
        out.push(b);
        i += 1;
    }
    proof {
        assert(wanted.take(wanted.len() as int) =~= wanted);
    }
    out
}

/// Every binding so far, followed by every binding of one more unit.
pub open spec fn crossed(
    acc: Seq<Seq<(usize, Seq<char>)>>,
    more: Seq<Seq<(usize, Seq<char>)>>,
) -> Seq<Seq<(usize, Seq<char>)>>
    decreases acc.len(),
{
    if acc.len() == 0 {
        seq![]
    } else {
        crossed(acc.drop_last(), more) + more.map_values(
            |b: Seq<(usize, Seq<char>)>| acc.last() + b,
        )
    }
}

/// The bindings of several units in every combination.
pub open spec fn combined(axes: Seq<Seq<Seq<(usize, Seq<char>)>>>) -> Seq<Seq<(usize, Seq<char>)>>
    decreases axes.len(),
{
    if axes.len() == 0 {
        seq![seq![]]
    } else {
        crossed(combined(axes.drop_last()), axes.last())
    }
}

pub open spec fn axis_models(v: Seq<Vec<Binding>>) -> Seq<Seq<Seq<(usize, Seq<char>)>>> {
    v.map_values(|a: Vec<Binding>| binding_models(a@))
}

fn merge(a: &Binding, b: &Binding) -> (r: Binding)
    ensures
        pair_models(r.pairs@) == pair_models(a.pairs@) + pair_models(b.pairs@),
{
    let mut pairs: Vec<(usize, String)> = Vec::new();
    let mut i: usize = 0;
    while i < a.pairs.len()
        invariant
            i <= a.pairs@.len(),
            pairs@.len() == i,
            forall|k: int|
                0 <= k < i ==> (#[trigger] pairs@[k]).0 == a.pairs@[k].0 && pairs@[k].1@
                    == a.pairs@[k].1@,
        decreases a.pairs@.len() - i,
    {
        pairs.push((a.pairs[i].0, a.pairs[i].1.clone()));
        i += 1;
    }
    let mut j: usize = 0;
    let ghost n = a.pairs@.len();
    while j < b.pairs.len()
        invariant
            j <= b.pairs@.len(),
            n == a.pairs@.len(),
            pairs@.len() == n + j,
            forall|k: int|
                0 <= k < n ==> (#[trigger] pairs@[k]).0 == a.pairs@[k].0 && pairs@[k].1@
                    == a.pairs@[k].1@,
            forall|k: int|
                n <= k < n + j ==> (#[trigger] pairs@[k]).0 == b.pairs@[k - n].0 && pairs@[k].1@
                    == b.pairs@[k - n].1@,
        decreases b.pairs@.len() - j,
    {
        pairs.push((b.pairs[j].0, b.pairs[j].1.clone()));
        j += 1;
    }
    proof {
        assert(pair_models(pairs@) =~= pair_models(a.pairs@) + pair_models(b.pairs@));
    }
    Binding { pairs }
}

fn append_merged(out: &mut Vec<Binding>, base: &Binding, more: &Vec<Binding>)
    ensures
        binding_models(final(out)@) == binding_models(old(out)@) + binding_models(
            more@,
        ).map_values(|b: Seq<(usize, Seq<char>)>| pair_models(base.pairs@) + b),
{
    let ghost ms = binding_models(more@);
    let ghost f = |b: Seq<(usize, Seq<char>)>| pair_models(base.pairs@) + b;
    let ghost start = binding_models(out@);
    let mut i: usize = 0;
    proof {
        assert(start + ms.take(0).map_values(f) =~= start);
    }
    while i < more.len()
        invariant
            i <= more@.len(),
            ms == binding_models(more@),
            f == (|b: Seq<(usize, Seq<char>)>| pair_models(base.pairs@) + b),
            binding_models(out@) == start + ms.take(i as int).map_values(f),
        decreases more@.len() - i,
    {
        let m = merge(base, &more[i]);
        proof {
            assert(binding_models(out@.push(m)) =~= binding_models(out@).push(
                pair_models(m.pairs@),
            ));
            assert(ms[i as int] == pair_models(more@[i as int].pairs@));
            assert(start + ms.take(i + 1).map_values(f) =~= (start + ms.take(i as int).map_values(
                f,
            )).push(f(ms[i as int])));
        }
        out.push(m);
        i += 1;
    }
    proof {
        assert(ms.take(ms.len() as int) =~= ms);
    }
}

/// The bindings of several units in every combination.
pub fn cartesian_bindings(axes: &Vec<Vec<Binding>>) -> (r: Vec<Binding>)
    ensures
        binding_models(r@) == combined(axis_models(axes@)),
{
    let ghost all = axis_models(axes@);
    let mut acc: Vec<Binding> = Vec::new();
    acc.push(Binding { pairs: Vec::new() });
    let mut i: usize = 0;
    proof {
        assert(pair_models(acc@[0].pairs@) =~= seq![]);
        assert(binding_models(acc@) =~= seq![seq![]]);
        assert(all.take(0) =~= seq![]);
    }
    while i < axes.len()
        invariant
            i <= axes@.len(),
            all == axis_models(axes@),
            binding_models(acc@) == combined(all.take(i as int)),
        decreases axes@.len() - i,
    {
        let ghost before = binding_models(acc@);
        let ghost more = binding_models(axes@[i as int]@);
        let mut out: Vec<Binding> = Vec::new();
        let mut k: usize = 0;
        proof {
            assert(all.take(i + 1).drop_last() =~= all.take(i as int));
            assert(all.take(i + 1).last() == more);
            assert(before.take(0) =~= seq![]);
            assert(binding_models(out@) =~= seq![]);
        }
        while k < acc.len()
            invariant
                k <= acc@.len(),
                i < axes@.len(),
                before == binding_models(acc@),
                more == binding_models(axes@[i as int]@),
                binding_models(out@) == crossed(before.take(k as int), more),
            decreases acc@.len() - k,
        {
            proof {
                assert(before.take(k + 1).drop_last() =~= before.take(k as int));
                assert(before.take(k + 1).last() == pair_models(acc@[k as int].pairs@));
            }
            append_merged(&mut out, &acc[k], &axes[i]);
            k += 1;
        }
        proof {
            assert(before.take(before.len() as int) =~= before);
        }
        acc = out;
        i += 1;
    }
    proof {
        assert(all.take(all.len() as int) =~= all);
    }
    acc
}

// ---------------------------------------------------------------------------
// Putting captures in
// ---------------------------------------------------------------------------

/// What a capture is bound to; the last binding counts.
pub open spec fn bound(b: Seq<(usize, Seq<char>)>, n: usize) -> Option<Seq<char>>
    decreases b.len(),
{
    if b.len() == 0 {
        None
    } else if b.last().0 == n {
        Some(b.last().1)
    } else {
        bound(b.drop_last(), n)
    }
}

fn find_bound(b: &Binding, n: usize) -> (r: Option<String>)
    ensures
        match r {
            Some(s) => bound(pair_models(b.pairs@), n) == Some(s@),
            None => bound(pair_models(b.pairs@), n) is None,
        },
{
    let ghost ps = pair_models(b.pairs@);
    let mut i: usize = b.pairs.len();
    proof {
        assert(ps.take(i as int) =~= ps);
    }
    while i > 0
        invariant
            i <= b.pairs@.len(),
            ps == pair_models(b.pairs@),
            bound(ps, n) == bound(ps.take(i as int), n),
        decreases i,
    {
        proof {
            assert(ps.take(i as int).drop_last() =~= ps.take(i - 1));
            assert(ps.take(i as int).last() == ps[i - 1]);
        }
        i -= 1;
        if b.pairs[i].0 == n {
            return Some(b.pairs[i].1.clone());
        }
    }
    None
}

/// A part with its reference replaced; none where it is bound to nothing.
pub open spec fn part_filled(p: PartModel, b: Seq<(usize, Seq<char>)>) -> Option<PartModel> {
    match p {
        PartModel::Text(s) => Some(PartModel::Text(s)),
        PartModel::Braced(s) => match text::parsed_usize(s) {
            None => None,
            Some(n) => match bound(b, n) {
                None => None,
                Some(v) => Some(PartModel::Text(v)),
            },
        },
    }
}

pub open spec fn parts_filled(ps: Seq<PartModel>, b: Seq<(usize, Seq<char>)>) -> Option<
    Seq<PartModel>,
>
    decreases ps.len(),
{
    if ps.len() == 0 {
        Some(seq![])
    } else {
        match (parts_filled(ps.drop_last(), b), part_filled(ps.last(), b)) {
            (Some(before), Some(p)) => Some(before.push(p)),
            _ => None,
        }
    }
}

pub open spec fn leaf_filled(l: LeafModel, b: Seq<(usize, Seq<char>)>) -> Option<LeafModel> {
    match parts_filled(l.parts, b) {
        Some(parts) => Some(LeafModel { parts, quoted: l.quoted }),
        None => None,
    }
}

/// A pair with its references replaced; none where one of them is bound to nothing.
pub open spec fn node_filled(n: NodeModel, b: Seq<(usize, Seq<char>)>) -> Option<NodeModel> {
    match leaf_filled(n.tag_type, b) {
        None => None,
        Some(tag_type) => match n.label {
            None => Some(NodeModel { tag_type, label: None }),
            Some(l) => match leaf_filled(l, b) {
                None => None,
                Some(l) => Some(NodeModel { tag_type, label: Some(l) }),
            },
        },
    }
}

/// The pairs whose references are all bound, with the references replaced.
pub open spec fn materialised(nodes: Seq<NodeModel>, b: Seq<(usize, Seq<char>)>) -> Seq<NodeModel>
    decreases nodes.len(),
{
    if nodes.len() == 0 {
        seq![]
    } else {
        match node_filled(nodes.last(), b) {
            Some(n) => materialised(nodes.drop_last(), b).push(n),
            None => materialised(nodes.drop_last(), b),
        }
    }
}

proof fn lemma_parts_unfilled(ps: Seq<PartModel>, k: int, b: Seq<(usize, Seq<char>)>)
    requires
        0 <= k <= ps.len(),
        parts_filled(ps.take(k), b) is None,
    ensures
        parts_filled(ps, b) is None,
    decreases ps.len(),
{
    if k == ps.len() {
        assert(ps.take(k) =~= ps);
    } else {
        assert(ps.drop_last().take(k) =~= ps.take(k));
        lemma_parts_unfilled(ps.drop_last(), k, b);
    }
}

fn materialise_leaf(leaf: &EditQueryLeaf, bindings: &Binding) -> (r: Option<EditQueryLeaf>)
    ensures
        match r {
            Some(l) => leaf_filled(leaf@, pair_models(bindings.pairs@)) == Some(l@),
            None => leaf_filled(leaf@, pair_models(bindings.pairs@)) is None,
        },
{
    let ghost ps = leaf@.parts;
    let ghost b = pair_models(bindings.pairs@);
    let mut parts: Vec<LeafPart> = Vec::new();
    let mut i: usize = 0;
    proof {
        assert(ps.take(0) =~= seq![]);
        assert(parse::part_models(parts@) =~= seq![]);
    }
    while i < leaf.parts.len()
        invariant
            i <= leaf.parts@.len(),
            ps == leaf@.parts,
            b == pair_models(bindings.pairs@),
            parts_filled(ps.take(i as int), b) == Some(parse::part_models(parts@)),
        decreases leaf.parts@.len() - i,
    {
        proof {
            assert(ps.take(i + 1).drop_last() =~= ps.take(i as int));
            assert(ps.take(i + 1).last() == leaf.parts@[i as int]@);
            if parts_filled(ps.take(i + 1), b) is None {
                lemma_parts_unfilled(ps, i + 1, b);
            }
        }
        let p = match &leaf.parts[i] {
            LeafPart::Text(s) => LeafPart::Text(s.clone()),
            LeafPart::Braced(s) => match text::parse_usize(s.as_str()) {
                None => {
                    return None;
                },
                Some(n) => match find_bound(bindings, n) {
                    None => {
                        return None;
                    },
                    Some(v) => LeafPart::Text(v),
                },
            },
        };
        proof {
            assert(parse::part_models(parts@.push(p)) =~= parse::part_models(parts@).push(p@));
        }
        parts.push(p);
        i += 1;
    }
    proof {
        assert(ps.take(ps.len() as int) =~= ps);
    }
    Some(EditQueryLeaf { parts, quoted: leaf.quoted })
}

fn materialise_node(n: &EditQueryNode, bindings: &Binding) -> (r: Option<EditQueryNode>)
    ensures
        match r {
            Some(x) => node_filled(n@, pair_models(bindings.pairs@)) == Some(x@),
            None => node_filled(n@, pair_models(bindings.pairs@)) is None,
        },
{
    let tag_type = match materialise_leaf(&n.tag_type, bindings) {
        Some(t) => t,
        None => {
            return None;
        },
    };
    match &n.label {
        None => Some(EditQueryNode { tag_type, label: None }),
        Some(l) => match materialise_leaf(l, bindings) {
            None => None,
            Some(l) => Some(EditQueryNode { tag_type, label: Some(l) }),
        },
    }
}

/// The pairs whose references are all bound, with the references replaced.
pub fn materialise(parsed: &EditQuery, bindings: &Binding) -> (r: Vec<EditQueryNode>)
    ensures
        parse::node_models(r@) == materialised(parsed@, pair_models(bindings.pairs@)),
{
    let ghost ns = parsed@;
    let ghost b = pair_models(bindings.pairs@);
    let mut out: Vec<EditQueryNode> = Vec::new();
    let mut i: usize = 0;
    proof {
        assert(ns.take(0) =~= seq![]);
        assert(parse::node_models(out@) =~= seq![]);
    }
    while i < parsed.nodes.len()
        invariant
            i <= parsed.nodes@.len(),
            ns == parsed@,
            b == pair_models(bindings.pairs@),
            parse::node_models(out@) == materialised(ns.take(i as int), b),
        decreases parsed.nodes@.len() - i,
    {
        proof {
            assert(ns.take(i + 1).drop_last() =~= ns.take(i as int));
            assert(ns.take(i + 1).last() == parsed.nodes@[i as int]@);
        }
        match materialise_node(&parsed.nodes[i], bindings) {
            Some(n) => {
                proof {
                    assert(parse::node_models(out@.push(n)) =~= parse::node_models(out@).push(n@));
                }
                out.push(n);
            },
            None => {},
        }
        i += 1;
    }
    proof {
        assert(ns.take(ns.len() as int) =~= ns);
    }
    out
}

/// Whether a text holds a glob metacharacter, from `i` on, that no backslash stands before.
pub open spec fn bare_metachar(s: Seq<char>, i: int) -> bool
    decreases s.len() - i,
{
    if i < 0 || i >= s.len() {
        false
    } else if s[i] == '\\' {
        if i + 1 < s.len() {
            bare_metachar(s, i + 2)
        } else {
            false
        }
    } else {
        parse::is_glob_meta(s[i]) || bare_metachar(s, i + 1)
    }
}

/// Whether a text holds a glob metacharacter that no backslash stands before.
pub fn has_unescaped_metachar(s: &str) -> (r: bool)
    ensures
        r == bare_metachar(s@, 0),
{
    let v = chars_of(s);
    let mut i: usize = 0;
    while i < v.len()
        invariant
            i <= v@.len(),
            v@ == s@,
            bare_metachar(s@, 0) == bare_metachar(s@, i as int),
        decreases v@.len() - i,
    {
        if v[i] == '\\' {
            if v.len() - i > 1 {
                i += 2;
            } else {
                return false;
            }
        } else if v[i] == '*' || v[i] == '?' || v[i] == '[' || v[i] == ']' {
            return true;
        } else {
            i += 1;
        }
    }
    false
}

/// The first text among parts that holds a glob metacharacter.
pub open spec fn first_glob_in(ps: Seq<PartModel>) -> Option<Seq<char>>
    decreases ps.len(),
{
    if ps.len() == 0 {
        None
    } else {
        match ps[0] {
            PartModel::Text(s) => if bare_metachar(s, 0) {
                Some(s)
            } else {
                first_glob_in(ps.skip(1))
            },
            PartModel::Braced(_) => first_glob_in(ps.skip(1)),
        }
    }
}

pub open spec fn glob_of_node(n: NodeModel) -> Option<Seq<char>> {
    match first_glob_in(n.tag_type.parts) {
        Some(s) => Some(s),
        None => match n.label {
            Some(l) => first_glob_in(l.parts),
            None => None,
        },
    }
}

/// The first text of an edit query that holds a glob metacharacter.
pub open spec fn first_glob(nodes: Seq<NodeModel>) -> Option<Seq<char>>
    decreases nodes.len(),
{
    if nodes.len() == 0 {
        None
    } else {
        match glob_of_node(nodes[0]) {
            Some(s) => Some(s),
            None => first_glob(nodes.skip(1)),
        }
    }
}

fn find_glob_in(parts: &Vec<LeafPart>) -> (r: Option<String>)
    ensures
        match r {
            Some(s) => first_glob_in(parse::part_models(parts@)) == Some(s@),
            None => first_glob_in(parse::part_models(parts@)) is None,
        },
{
    let ghost ps = parse::part_models(parts@);
    let mut i: usize = 0;
    proof {
        assert(ps.skip(0) =~= ps);
    }
    while i < parts.len()
        invariant
            i <= parts@.len(),
            ps == parse::part_models(parts@),
            first_glob_in(ps) == first_glob_in(ps.skip(i as int)),
        decreases parts@.len() - i,
    {
        proof {
            assert(ps.skip(i as int)[0] == parts@[i as int]@);
            assert(ps.skip(i as int).skip(1) =~= ps.skip(i + 1));
        }
        match &parts[i] {
            LeafPart::Text(s) => {
                if has_unescaped_metachar(s.as_str()) {
                    return Some(s.clone());
                }
            },
            LeafPart::Braced(_) => {},
        }
        i += 1;
    }
    None
}

/// Refuses an edit query with a glob metacharacter in what the user wrote. What captures are
/// bound to is not looked at.
pub fn reject_glob(parsed: &EditQuery) -> (r: Result<(), EditError>)
    ensures
        match r {
            Ok(_) => first_glob(parsed@) is None,
            Err(e) => match first_glob(parsed@) {
                Some(s) => e@ == EditErrorModel::UnescapedGlob(s),
                None => false,
            },
        },
{
    let ghost ns = parsed@;
    let mut i: usize = 0;
    proof {
        assert(ns.skip(0) =~= ns);
    }
    while i < parsed.nodes.len()
        invariant
            i <= parsed.nodes@.len(),
            ns == parsed@,
            first_glob(ns) == first_glob(ns.skip(i as int)),
        decreases parsed.nodes@.len() - i,
    {
        let n = &parsed.nodes[i];
        proof {
            assert(ns.skip(i as int)[0] == n@);
            assert(ns.skip(i as int).skip(1) =~= ns.skip(i + 1));
        }
        match find_glob_in(&n.tag_type.parts) {
            Some(s) => {
                return Err(EditError::UnescapedGlob(s));
            },
            None => {},
        }
        match &n.label {
            Some(l) => match find_glob_in(&l.parts) {
                Some(s) => {
                    return Err(EditError::UnescapedGlob(s));
                },
                None => {},
            },
            None => {},
        }
        i += 1;
    }
    Ok(())
}

/// The units with a capture that is referred to.
pub open spec fn axes_of(units: Seq<UnitModel>, refs: Seq<Seq<char>>) -> Seq<UnitModel> {
    units.filter(|u: UnitModel| is_axis(u, refs))
}

pub open spec fn is_axis(u: UnitModel, refs: Seq<Seq<char>>) -> bool {
    exists|k: int| 0 <= k < u.numbered().len() && refers_to(refs, #[trigger] u.numbered()[k])
}

/// Pairs after others, each only where it is not among them.
pub open spec fn with_new(out: Seq<NodeModel>, more: Seq<NodeModel>) -> Seq<NodeModel>
    decreases more.len(),
{
    if more.len() == 0 {
        out
    } else {
        let before = with_new(out, more.drop_last());
        if before.contains(more.last()) {
            before
        } else {
            before.push(more.last())
        }
    }
}

/// The pairs for every binding, each once.
pub open spec fn expanded(nodes: Seq<NodeModel>, bindings: Seq<Seq<(usize, Seq<char>)>>) -> Seq<
    NodeModel,
>
    decreases bindings.len(),
{
    if bindings.len() == 0 {
        seq![]
    } else {
        with_new(
            expanded(nodes, bindings.drop_last()),
            materialised(nodes, bindings.last()),
        )
    }
}

/// The pairs of an edit query for an item, with what the units captured in the place of the
/// references.
pub open spec fn captures_applied(
    item: Item,
    nodes: Seq<NodeModel>,
    units: Seq<UnitModel>,
    reg: Seq<tag::TagFnModel>,
    slots: Seq<TimeSlots>,
) -> Seq<NodeModel> {
    let axes = axes_of(units, refs_of(nodes));
    if axes.len() == 0 {
        materialised(nodes, seq![])
    } else {
        expanded(nodes, combined(axes.map_values(|u: UnitModel| hits(reg, slots, item, u))))
    }
}

fn add_new(out: &mut Vec<EditQueryNode>, more: Vec<EditQueryNode>)
    ensures
        parse::node_models(final(out)@) == with_new(
            parse::node_models(old(out)@),
            parse::node_models(more@),
        ),
{
    let ghost ms = parse::node_models(more@);
    let ghost start = parse::node_models(out@);
    let mut i: usize = 0;
    proof {
        assert(ms.take(0) =~= seq![]);
    }
    while i < more.len()
        invariant
            i <= more@.len(),
            ms == parse::node_models(more@),
            parse::node_models(out@) == with_new(start, ms.take(i as int)),
        decreases more@.len() - i,
    {
        proof {
            assert(ms.take(i + 1).drop_last() =~= ms.take(i as int));
            assert(ms.take(i + 1).last() == more@[i as int]@);
        }
        if !holds_node(out, &more[i]) {
            let n = more[i].clone();
            proof {
                assert(parse::node_models(out@.push(n)) =~= parse::node_models(out@).push(n@));
            }
            out.push(n);
        }
        i += 1;
    }
    proof {
        assert(ms.take(ms.len() as int) =~= ms);
    }
}

fn holds_node(v: &Vec<EditQueryNode>, n: &EditQueryNode) -> (r: bool)
    ensures
        r == parse::node_models(v@).contains(n@),
{
    let ghost ms = parse::node_models(v@);
    let mut i: usize = 0;
    while i < v.len()
        invariant
            i <= v@.len(),
            ms == parse::node_models(v@),
            forall|k: int| 0 <= k < i ==> #[trigger] ms[k] != n@,
        decreases v@.len() - i,
    {
        if v[i].same(n) {
            proof {
                assert(ms[i as int] == n@);
            }
            return true;
        }
        i += 1;
    }
    false
}

fn is_referred(u: &Unit, referenced: &Vec<usize>, Ghost(refs): Ghost<Seq<Seq<char>>>) -> (r: bool)
    requires
        forall|n: usize| referenced@.contains(n) <==> #[trigger] refers_to(refs, n),
    ensures
        r == is_axis(u@, refs),
{
    let numbers = u.numbers();
    let mut i: usize = 0;
    while i < numbers.len()
        invariant
            i <= numbers@.len(),
            numbers@ == u@.numbered(),
            forall|n: usize| referenced@.contains(n) <==> #[trigger] refers_to(refs, n),
            forall|k: int| 0 <= k < i ==> !refers_to(refs, #[trigger] u@.numbered()[k]),
        decreases numbers@.len() - i,
    {
        if holds_number(referenced, numbers[i]) {
            proof {
                assert(refers_to(refs, u@.numbered()[i as int]));
            }
            return true;
        }
        i += 1;
    }
    false
}

fn holds_number(v: &Vec<usize>, n: usize) -> (r: bool)
    ensures
        r == v@.contains(n),
{
    let mut i: usize = 0;
    while i < v.len()
        invariant
            i <= v@.len(),
            forall|k: int| 0 <= k < i ==> #[trigger] v@[k] != n,
        decreases v@.len() - i,
    {
        if v[i] == n {
            return true;
        }
        i += 1;
    }
    false
}

/// The edit query for an item, with what the units captured in the place of the references.
pub fn apply_captures(
    item: &Item,
    parsed: &EditQuery,
    units: &Vec<Unit>,
    total: usize,
    reg: &TagRegistry,
    slots: &Vec<TimeSlots>,
) -> (r: Result<EditQuery, EditError>)
    ensures
        match r {
            Ok(q) => first_ref_error(refs_of(parsed@), total) is None && q@ == captures_applied(
                *item,
                parsed@,
                unit_models(units@),
                reg@,
                slots@,
            ),
            Err(e) => first_ref_error(refs_of(parsed@), total) == Some(e@),
        },
{
    let referenced = match resolve_refs(parsed, total) {
        Ok(v) => v,
        Err(e) => {
            return Err(e);
        },
    };
    let ghost refs = refs_of(parsed@);
    let ghost us = unit_models(units@);
    let ghost f = |u: UnitModel| is_axis(u, refs);
    let ghost h = |u: UnitModel| hits(reg@, slots@, *item, u);
    let mut candidates: Vec<Vec<Binding>> = Vec::new();
    let mut i: usize = 0;
    proof {
        reveal(Seq::filter);
        assert(axis_models(candidates@) =~= us.take(0).filter(f).map_values(h));
    }
    while i < units.len()
        invariant
            i <= units@.len(),
            us == unit_models(units@),
            refs == refs_of(parsed@),
            f == (|u: UnitModel| is_axis(u, refs)),
            h == (|u: UnitModel| hits(reg@, slots@, *item, u)),
            forall|n: usize| referenced@.contains(n) <==> #[trigger] refers_to(refs, n),
            axis_models(candidates@) == us.take(i as int).filter(f).map_values(h),
        decreases units@.len() - i,
    {
        proof {
            reveal(Seq::filter);
            assert(us.take(i + 1).drop_last() =~= us.take(i as int));
            assert(us.take(i + 1).last() == units@[i as int]@);
        }
        if is_referred(&units[i], &referenced, Ghost(refs)) {
            let found = hits_for_unit(reg, item, &units[i], slots);
            proof {
                assert(axis_models(candidates@.push(found)) =~= axis_models(candidates@).push(
                    binding_models(found@),
                ));
                assert(us.take(i + 1).filter(f).map_values(h) =~= us.take(i as int).filter(
                    f,
                ).map_values(h).push(h(us[i as int])));
            }
            candidates.push(found);
        }
        i += 1;
    }
    proof {
        assert(us.take(us.len() as int) =~= us);
        assert(axis_models(candidates@).len() == axes_of(us, refs).len());
    }
    if candidates.len() == 0 {
        let none = Binding { pairs: Vec::new() };
        proof {
            assert(pair_models(none.pairs@) =~= seq![]);
        }
        return Ok(EditQuery { nodes: materialise(parsed, &none) });
    }
    let all = cartesian_bindings(&candidates);
    let ghost bs = binding_models(all@);
    let mut out: Vec<EditQueryNode> = Vec::new();
    let mut k: usize = 0;
    proof {
        assert(bs.take(0) =~= seq![]);
        assert(parse::node_models(out@) =~= seq![]);
    }
    while k < all.len()
        invariant
            k <= all@.len(),
            bs == binding_models(all@),
            parse::node_models(out@) == expanded(parsed@, bs.take(k as int)),
        decreases all@.len() - k,
    {
        proof {
            assert(bs.take(k + 1).drop_last() =~= bs.take(k as int));
            assert(bs.take(k + 1).last() == pair_models(all@[k as int].pairs@));
        }
        let more = materialise(parsed, &all[k]);
        add_new(&mut out, more);
        k += 1;
    }
    proof {
        assert(bs.take(bs.len() as int) =~= bs);
    }
    Ok(EditQuery { nodes: out })
}

/// The query that goes with an item.
pub open spec fn query_for(
    item: Item,
    parsed: Option<Seq<NodeModel>>,
    units: Seq<UnitModel>,
    reg: Seq<tag::TagFnModel>,
    slots: Seq<TimeSlots>,
) -> Option<Seq<NodeModel>> {
    match parsed {
        None => None,
        Some(nodes) => Some(captures_applied(item, nodes, units, reg, slots)),
    }
}

pub open spec fn opt_query(q: Option<EditQuery>) -> Option<Seq<NodeModel>> {
    match q {
        Some(q) => Some(q@),
        None => None,
    }
}

/// Why an edit query does not go with a search that found items, if it does not: a glob in
/// it, a search that cannot be read, or a reference to no capture.
pub open spec fn capture_error(
    search: Seq<char>,
    nodes: Seq<NodeModel>,
    found: nat,
) -> Option<EditErrorModel> {
    match first_glob(nodes) {
        Some(s) => Some(EditErrorModel::UnescapedGlob(s)),
        None => match operands(search) {
            None => Some(EditErrorModel::InvalidSearch(search)),
            Some(os) => if 1 + taken_by_all(os) > usize::MAX {
                Some(EditErrorModel::InvalidSearch(search))
            } else if found == 0 {
                None
            } else {
                first_ref_error(refs_of(nodes), taken_by_all(os) as usize)
            },
        },
    }
}

/// The items that a search found, each with the edit query for it.
pub fn search_and_apply_captures(
    items: Vec<Item>,
    registry: &TagRegistry,
    search_query: &str,
    parsed: Option<&EditQuery>,
    slots: &Vec<TimeSlots>,
) -> (r: Result<Vec<(Item, Option<EditQuery>)>, EditError>)
    ensures
        match r {
            Ok(v) => {
                &&& parsed matches Some(q) ==> capture_error(
                    search_query@,
                    q@,
                    items@.len(),
                ) is None
                &&& v@.len() == items@.len()
                &&& forall|k: int|
                    0 <= k < v@.len() ==> (#[trigger] v@[k]).0 == items@[k] && opt_query(v@[k].1)
                        == query_for(
                        items@[k],
                        match parsed {
                            Some(q) => Some(q@),
                            None => None,
                        },
                        units_of(operands(search_query@)->0),
                        registry@,
                        slots@,
                    )
            },
            Err(e) => parsed matches Some(q) && capture_error(search_query@, q@, items@.len())
                == Some(e@),
        },
{
    let mut out: Vec<(Item, Option<EditQuery>)> = Vec::new();
    let (units, total) = match parsed {
        None => (Vec::new(), 0),
        Some(q) => {
            match reject_glob(q) {
                Ok(_) => {},
                Err(e) => {
                    return Err(e);
                },
            }
            match collect_units(search_query) {
                Ok(t) => t,
                Err(e) => {
                    return Err(e);
                },
            }
        },
    };
    let ghost us = unit_models(units@);
    let ghost whole = items@;
    let mut rest = items;
    let ghost mut done: int = 0;
    proof {
        assert(whole.skip(0) =~= whole);
    }
    while rest.len() > 0
        invariant
            0 <= done <= whole.len(),
            whole == items@,
            rest@ == whole.skip(done),
            us == unit_models(units@),
            parsed matches Some(q) ==> first_glob(q@) is None && operands(search_query@) is Some
                && us == units_of(operands(search_query@)->0) && total == taken_by_all(
                operands(search_query@)->0,
            ) && 1 + total <= usize::MAX && (done > 0 ==> first_ref_error(refs_of(q@), total)
                is None),
            out@.len() == done,
            forall|k: int|
                0 <= k < done ==> (#[trigger] out@[k]).0 == whole[k] && opt_query(out@[k].1)
                    == query_for(
                    whole[k],
                    match parsed {
                        Some(q) => Some(q@),
                        None => None,
                    },
                    units_of(operands(search_query@)->0),
                    registry@,
                    slots@,
                ),
        decreases rest@.len(),
    {
        let item = rest.remove(0);
        proof {
            assert(item == whole[done]);
            assert(rest@ =~= whole.skip(done + 1));
        }
        let q = match parsed {
            None => None,
            Some(p) => match apply_captures(&item, p, &units, total, registry, slots) {
                Ok(q) => Some(q),
                Err(e) => {
                    return Err(e);
                },
            },
        };
        out.push((item, q));
        proof {
            done = done + 1;
        }
    }
    Ok(out)
}

// ---------------------------------------------------------------------------
// Laws
// ---------------------------------------------------------------------------

proof fn lemma_unreferring_parts(ps: Seq<PartModel>, b: Seq<(usize, Seq<char>)>)
    requires
        refs_in(ps).len() == 0,
    ensures
        parts_filled(ps, b) == Some(ps),
    decreases ps.len(),
{
    if ps.len() > 0 {
        assert(!(ps.last() is Braced));
        lemma_unreferring_parts(ps.drop_last(), b);
        assert(ps.drop_last().push(ps.last()) =~= ps);
    } else {
        assert(ps =~= seq![]);
    }
}

/// An edit query without references is the same for every item and every search.
pub proof fn law_no_references_no_change(
    item: Item,
    nodes: Seq<NodeModel>,
    units: Seq<UnitModel>,
    reg: Seq<tag::TagFnModel>,
    slots: Seq<TimeSlots>,
)
    requires
        refs_of(nodes).len() == 0,
    ensures
        captures_applied(item, nodes, units, reg, slots) == nodes,
{
    let refs = refs_of(nodes);
    reveal(Seq::filter);
    assert forall|u: UnitModel| !is_axis(u, refs) by {
        assert(forall|n: usize| !refers_to(refs, n));
    }
    lemma_no_axes(units, refs);
    lemma_unreferring_nodes(nodes, seq![]);
}

proof fn lemma_no_axes(units: Seq<UnitModel>, refs: Seq<Seq<char>>)
    requires
        refs.len() == 0,
    ensures
        axes_of(units, refs).len() == 0,
    decreases units.len(),
{
    reveal(Seq::filter);
    if units.len() > 0 {
        lemma_no_axes(units.drop_last(), refs);
        assert(!is_axis(units.last(), refs));
    }
}

proof fn lemma_unreferring_nodes(nodes: Seq<NodeModel>, b: Seq<(usize, Seq<char>)>)
    requires
        refs_of(nodes).len() == 0,
    ensures
        materialised(nodes, b) == nodes,
    decreases nodes.len(),
{
    if nodes.len() > 0 {
        let n = nodes.last();
        lemma_unreferring_nodes(nodes.drop_last(), b);
        lemma_unreferring_parts(n.tag_type.parts, b);
        match n.label {
            Some(l) => {
                lemma_unreferring_parts(l.parts, b);
            },
            None => {},
        }
        assert(node_filled(n, b) == Some(n));
        assert(nodes.drop_last().push(n) =~= nodes);
    } else {
        assert(nodes =~= seq![]);
    }
}

/// Where captures are put in, no pair comes twice.
pub proof fn law_expanded_pairs_differ(
    nodes: Seq<NodeModel>,
    bindings: Seq<Seq<(usize, Seq<char>)>>,
)
    ensures
        expanded(nodes, bindings).no_duplicates(),
    decreases bindings.len(),
{
    if bindings.len() > 0 {
        law_expanded_pairs_differ(nodes, bindings.drop_last());
        lemma_with_new(
            expanded(nodes, bindings.drop_last()),
            materialised(nodes, bindings.last()),
        );
    }
}

proof fn lemma_with_new(out: Seq<NodeModel>, more: Seq<NodeModel>)
    requires
        out.no_duplicates(),
    ensures
        with_new(out, more).no_duplicates(),
    decreases more.len(),
{
    if more.len() > 0 {
        lemma_with_new(out, more.drop_last());
    }
}

/// Every unit offers at least one binding, and so every combination of units does: a unit
/// that hits nothing leaves its references unbound instead of taking the others away.
pub proof fn law_some_binding_is_offered(
    reg: Seq<tag::TagFnModel>,
    slots: Seq<TimeSlots>,
    item: Item,
    axes: Seq<UnitModel>,
)
    ensures
        combined(axes.map_values(|u: UnitModel| hits(reg, slots, item, u))).len() > 0,
    decreases axes.len(),
{
    let h = |u: UnitModel| hits(reg, slots, item, u);
    let all = axes.map_values(h);
    if axes.len() > 0 {
        law_some_binding_is_offered(reg, slots, item, axes.drop_last());
        assert(all.drop_last() =~= axes.drop_last().map_values(h));
        assert(all.last().len() > 0);
        let acc = combined(all.drop_last());
        assert(crossed(acc, all.last()).len() >= all.last().len());
    }
}

} // verus!
