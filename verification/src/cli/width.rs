//! Texts in the columns of a terminal: how many they take, and how they are padded, cut and
//! wrapped to fit.
use crate::text;
use vstd::prelude::*;

verus! {

// ---------------------------------------------------------------------------
// Widths
// ---------------------------------------------------------------------------

/// How many columns of a terminal a text takes.
pub uninterp spec fn text_width(s: Seq<char>) -> usize;

/// `measure_text_width` of the `console` crate: the columns that a text takes, without its
/// escape codes.
#[verifier::external_body]
pub(crate) fn measure(s: &str) -> (r: usize)
    ensures
        r == text_width(s@),
{
    console::measure_text_width(s)
}

pub open spec fn spaces(n: nat) -> Seq<char> {
    Seq::new(n, |i: int| ' ')
}

/// A text with spaces behind it, up to a width.
pub open spec fn padded(s: Seq<char>, width: usize) -> Seq<char> {
    if text_width(s) >= width {
        s
    } else {
        s + spaces((width - text_width(s)) as nat)
    }
}

/// `pad_str` of the `console` crate, aligned on the left and without truncation: a text that
/// takes fewer columns than `width` gets as many spaces behind it as are missing.
#[verifier::external_body]
pub(crate) fn pad(s: &str, width: usize) -> (r: String)
    ensures
        r@ == padded(s@, width),
{
    console::pad_str(s, width, console::Alignment::Left, None).to_string()
}

/// What is left of a text at a width, with a tail where something was cut off.
pub uninterp spec fn cut(s: Seq<char>, width: usize, tail: Seq<char>) -> Seq<char>;

pub open spec fn is_visible_ascii(s: Seq<char>) -> bool {
    forall|i: int| 0 <= i < s.len() ==> ' ' <= #[trigger] s[i] <= '~'
}

/// `truncate_str` of the `console` crate: what is left of a text at a width, with a tail
/// where something was cut off. The tail must fit the width; a visible ASCII character takes
/// one column.
#[verifier::external_body]
fn cut_to(s: &str, width: usize, tail: &str) -> (r: String)
    requires
        is_visible_ascii(tail@),
        tail@.len() <= width,
    ensures
        r@ == cut(s@, width, tail@),
{
    console::truncate_str(s, width, tail).to_string()
}

/// A text that takes at most so many columns, with dots where something was cut off.
pub open spec fn truncated(s: Seq<char>, max_width: usize) -> Seq<char> {
    if text_width(s) <= max_width {
        s
    } else if max_width <= 3 {
        "..."@.take(max_width as int)
    } else {
        cut(s, max_width, "..."@)
    }
}

/// Cuts a text to so many columns.
pub fn truncate_text(text: &str, max_width: usize) -> (r: String)
    ensures
        r@ == truncated(text@, max_width),
{
    if measure(text) <= max_width {
        return text.to_string();
    }
    proof {
        reveal_strlit("...");
    }
    if max_width <= 3 {
        let dots = text::chars_of("...");
        let r = text::slice_text(&dots, 0, max_width);
        proof {
            assert(r@ =~= "..."@.take(max_width as int));
        }
        return r;
    }
    cut_to(text, max_width, "...")
}

/// A sum that stays at the largest number where it would be larger.
pub open spec fn sat(a: usize, b: usize) -> usize {
    if a + b > usize::MAX {
        usize::MAX
    } else {
        (a + b) as usize
    }
}

pub(crate) fn plus(a: usize, b: usize) -> (r: usize)
    ensures
        r == sat(a, b),
{
    match a.checked_add(b) {
        Some(c) => c,
        None => usize::MAX,
    }
}

/// A difference that stays at zero where it would be less.
pub open spec fn less(a: usize, b: usize) -> usize {
    if a < b {
        0
    } else {
        (a - b) as usize
    }
}

pub(crate) fn minus(a: usize, b: usize) -> (r: usize)
    ensures
        r == less(a, b),
{
    if a < b {
        0
    } else {
        a - b
    }
}

pub(crate) fn spaces_of(n: usize) -> (r: String)
    ensures
        r@ == spaces(n as nat),
{
    let mut v: Vec<char> = Vec::new();
    let mut i: usize = 0;
    while i < n
        invariant
            i <= n,
            v@ == spaces(i as nat),
        decreases n - i,
    {
        v.push(' ');
        proof {
            assert(v@ =~= spaces((i + 1) as nat));
        }
        i += 1;
    }
    text::text_of(&v)
}

// ---------------------------------------------------------------------------
// Wrapping
// ---------------------------------------------------------------------------

/// The end of the piece of `s` that starts at `from`, whose characters before `i` take `acc`
/// columns: the place of the first character, other than the first one, that exceeds the
/// width.
pub open spec fn piece_end(s: Seq<char>, from: int, i: int, acc: usize, width: usize) -> int
    decreases s.len() - i,
{
    if i >= s.len() {
        s.len() as int
    } else {
        let w = sat(acc, text_width(seq![s[i]]));
        if i > from && w > width {
            i
        } else {
            piece_end(s, from, i + 1, w, width)
        }
    }
}

pub open spec fn at_least_one(n: usize) -> usize {
    if n < 1 {
        1
    } else {
        n
    }
}

proof fn lemma_piece_end(s: Seq<char>, from: int, i: int, acc: usize, width: usize)
    requires
        0 <= from <= i <= s.len(),
        from < s.len(),
    ensures
        from < piece_end(s, from, i, acc, width) <= s.len(),
        i <= piece_end(s, from, i, acc, width),
    decreases s.len() - i,
{
    if i < s.len() {
        let w = sat(acc, text_width(seq![s[i]]));
        if i > from && w > width {
        } else {
            lemma_piece_end(s, from, i + 1, w, width);
        }
    }
}

/// The pieces of `s` from `from` on: the first one of one width, the others of another. Each
/// has at least one character.
pub open spec fn pieces(s: Seq<char>, from: int, width: usize, sub: usize) -> Seq<Seq<char>>
    decreases s.len() - from,
{
    if from < 0 || from >= s.len() {
        Seq::empty()
    } else {
        let end = piece_end(s, from, from, 0, at_least_one(width));
        if from < end <= s.len() {
            seq![s.subrange(from, end)] + pieces(s, end, sub, sub)
        } else {
            Seq::empty()
        }
    }
}

/// The lines that a text is wrapped into.
pub open spec fn wrapped(s: Seq<char>, first: usize, sub: usize) -> Seq<Seq<char>> {
    pieces(s, 0, first, sub)
}

proof fn lemma_pieces(s: Seq<char>, from: int, width: usize, sub: usize)
    requires
        0 <= from <= s.len(),
    ensures
        text::joined(pieces(s, from, width, sub), Seq::empty()) == s.skip(from),
        forall|i: int|
            0 <= i < pieces(s, from, width, sub).len() ==> (#[trigger] pieces(
                s,
                from,
                width,
                sub,
            )[i]).len() > 0,
    decreases s.len() - from,
{
    let ps = pieces(s, from, width, sub);
    if from >= s.len() {
        assert(text::joined(ps, Seq::empty()) =~= s.skip(from));
    } else {
        let end = piece_end(s, from, from, 0, at_least_one(width));
        lemma_piece_end(s, from, from, 0, at_least_one(width));
        let rest = pieces(s, end, sub, sub);
        lemma_pieces(s, end, sub, sub);
        lemma_joined_front(s.subrange(from, end), rest);
        assert(s.skip(from) =~= s.subrange(from, end) + s.skip(end));
        assert forall|i: int| 0 <= i < ps.len() implies (#[trigger] ps[i]).len() > 0 by {
            if i > 0 {
                assert(ps[i] == rest[i - 1]);
            }
        }
    }
}

proof fn lemma_joined_front(a: Seq<char>, rest: Seq<Seq<char>>)
    ensures
        text::joined(seq![a] + rest, Seq::empty()) == a + text::joined(rest, Seq::empty()),
    decreases rest.len(),
{
    let none = Seq::<char>::empty();
    if rest.len() == 0 {
        assert(seq![a] + rest =~= seq![a]);
        reveal_with_fuel(text::joined, 2);
        assert(text::joined(seq![a], none) =~= a + text::joined(rest, none));
    } else {
        let all = seq![a] + rest;
        assert(all.drop_last() =~= seq![a] + rest.drop_last());
        assert(all.last() == rest.last());
        lemma_joined_front(a, rest.drop_last());
        assert(all.len() > 1);
        if rest.len() == 1 {
            reveal_with_fuel(text::joined, 2);
            assert(rest.drop_last() =~= Seq::empty());
            assert(text::joined(all, none) =~= a + text::joined(rest, none));
        } else {
            assert(text::joined(all, none) =~= a + text::joined(rest, none));
        }
    }
}

/// Wrapping loses nothing: the lines put together are the text, and none of them is empty.
pub proof fn law_wrapping_keeps_the_text(s: Seq<char>, first: usize, sub: usize)
    ensures
        text::joined(wrapped(s, first, sub), Seq::empty()) == s,
        forall|i: int|
            0 <= i < wrapped(s, first, sub).len() ==> (#[trigger] wrapped(s, first, sub)[i]).len()
                > 0,
{
    lemma_pieces(s, 0, first, sub);
    assert(s.skip(0) =~= s);
}

fn piece_end_of(cs: &Vec<char>, from: usize, width: usize) -> (r: usize)
    requires
        from < cs@.len(),
    ensures
        r == piece_end(cs@, from as int, from as int, 0, width),
        from < r <= cs@.len(),
{
    let mut i: usize = from;
    let mut acc: usize = 0;
    proof {
        lemma_piece_end(cs@, from as int, from as int, 0, width);
    }
    while i < cs.len()
        invariant
            from < cs@.len(),
            from <= i <= cs@.len(),
            piece_end(cs@, from as int, from as int, 0, width) == piece_end(
                cs@,
                from as int,
                i as int,
                acc,
                width,
            ),
            from < piece_end(cs@, from as int, from as int, 0, width) <= cs@.len(),
        decreases cs.len() - i,
    {
        let one = text::slice_text(cs, i, i + 1);
        proof {
            assert(one@ =~= seq![cs@[i as int]]);
        }
        let w = plus(acc, measure(one.as_str()));
        if i > from && w > width {
            return i;
        }
        acc = w;
        i += 1;
    }
    i
}

/// Wraps a text into lines: the first one of one width, the others of another.
pub fn wrap_text_slices(text: &str, first_width: usize, sub_width: usize) -> (r: Vec<String>)
    ensures
        text::texts(r@) == wrapped(text@, first_width, sub_width),
{
    let cs = text::chars_of(text);
    let mut out: Vec<String> = Vec::new();
    let mut from: usize = 0;
    let mut width = first_width;
    proof {
        assert(text::texts(out@) + pieces(cs@, 0, first_width, sub_width) =~= wrapped(
            text@,
            first_width,
            sub_width,
        ));
    }
    while from < cs.len()
        invariant
            from <= cs@.len(),
            cs@ == text@,
            text::texts(out@) + pieces(cs@, from as int, width, sub_width) == wrapped(
                text@,
                first_width,
                sub_width,
            ),
        decreases cs.len() - from,
    {
        let target = if width < 1 {
            1
        } else {
            width
        };
        let end = piece_end_of(&cs, from, target);
        let piece = text::slice_text(&cs, from, end);
        proof {
            text::lemma_texts_push(out@, piece);
            assert(text::texts(out@).push(piece@) + pieces(cs@, end as int, sub_width, sub_width)
                =~= text::texts(out@) + pieces(cs@, from as int, width, sub_width));
        }
        out.push(piece);
        from = end;
        width = sub_width;
    }
    proof {
        assert(text::texts(out@) =~= text::texts(out@) + pieces(
            cs@,
            from as int,
            width,
            sub_width,
        ));
    }
    out
}

/// The width of the terminal: what the environment says, else what the terminal says, else
/// a usual width.
pub open spec fn shown_width(columns: Option<Seq<char>>, size: Option<u16>) -> usize {
    match columns {
        Some(c) if text::parsed_usize(c) is Some => text::parsed_usize(c)->0,
        _ => match size {
            Some(w) => w as usize,
            None => 100,
        },
    }
}

/// The width of the terminal, from the variable `COLUMNS` and the size of the terminal.
pub fn get_terminal_width(columns: Option<&str>, size: Option<u16>) -> (r: usize)
    ensures
        r == shown_width(
            match columns {
                Some(c) => Some(c@),
                None => None,
            },
            size,
        ),
{
    if let Some(c) = columns {
        if let Some(w) = text::parse_usize(c) {
            return w;
        }
    }
    match size {
        Some(w) => w as usize,
        None => 100,
    }
}

} // verus!
