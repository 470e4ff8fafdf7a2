//! What the characters of a pattern stand for, told by the texts that it stands for.
use crate::edit::glob_capture;
use crate::edit::glob_capture::AtomModel;
use vstd::prelude::*;

verus! {

/// Whether a pattern stands for a text, with what its metacharacters stand for.
pub open spec fn stands_for(p: Seq<char>, text: Seq<char>, caps: Seq<Seq<char>>) -> bool {
    glob_capture::fits(glob_capture::lexed(p), text, caps)
}

proof fn lemma_class_shift(s: Seq<char>, i: int, idx: int, first: bool)
    requires
        0 <= i <= s.len(),
        0 <= idx,
    ensures
        glob_capture::class_at(s, i + idx, first) == match glob_capture::class_at(
            s.skip(i),
            idx,
            first,
        ) {
            Some(r) => Some((r.0, r.1 + i)),
            None => None,
        },
    decreases s.len() - i - idx,
{
    let t = s.skip(i);
    if i + idx < s.len() {
        assert(t[idx] == s[i + idx]);
        if idx + 1 < t.len() {
            assert(t[idx + 1] == s[i + idx + 1]);
        }
        if idx + 2 < t.len() {
            assert(t[idx + 2] == s[i + idx + 2]);
            lemma_class_shift(s, i, idx + 3, false);
        }
        lemma_class_shift(s, i, idx + 1, false);
    }
}

proof fn lemma_step_shift(s: Seq<char>, i: int, k: int)
    requires
        0 <= i <= i + k < s.len(),
        0 <= k,
    ensures
        glob_capture::lex_step(s, i + k).0 == glob_capture::lex_step(s.skip(i), k).0,
        glob_capture::lex_step(s, i + k).1 == glob_capture::lex_step(s.skip(i), k).1 + i,
{
    let t = s.skip(i);
    assert(t[k] == s[i + k]);
    if k + 1 < t.len() {
        assert(t[k + 1] == s[i + k + 1]);
    }
    lemma_class_shift(s, i, k + 1, true);
    lemma_class_shift(s, i, k + 2, true);
}

proof fn lemma_lexed_shift(s: Seq<char>, i: int, k: int)
    requires
        0 <= i <= s.len(),
        0 <= k,
    ensures
        glob_capture::lexed_from(s, i + k) == glob_capture::lexed_from(s.skip(i), k),
    decreases s.len() - i - k,
{
    if i + k < s.len() {
        lemma_step_shift(s, i, k);
        glob_capture::lemma_lex_step_advances(s, i + k);
        lemma_lexed_shift(s, i, glob_capture::lex_step(s.skip(i), k).1);
    }
}

/// The elements of a pattern are its first element and those of the rest.
proof fn lemma_first_element(p: Seq<char>)
    requires
        p.len() > 0,
    ensures
        ({
            let (a, n) = glob_capture::lex_step(p, 0);
            let all = glob_capture::lexed(p);
            &&& 0 < n <= p.len()
            &&& all.len() > 0 && all[0] == a
            &&& all.skip(1) == glob_capture::lexed(p.skip(n))
        }),
{
    glob_capture::lemma_lex_step_advances(p, 0);
    let (a, n) = glob_capture::lex_step(p, 0);
    lemma_lexed_shift(p, n, 0);
    let all = glob_capture::lexed(p);
    assert(all == seq![a] + glob_capture::lexed_from(p, n));
    assert(all.skip(1) =~= glob_capture::lexed_from(p, n));
}

/// A pattern without characters stands for the empty text alone.
pub proof fn law_empty_pattern(text: Seq<char>, caps: Seq<Seq<char>>)
    ensures
        stands_for(seq![], text, caps) <==> text.len() == 0 && caps.len() == 0,
{
}

/// A star stands for any text, and what it stands for is captured.
pub proof fn law_star(rest: Seq<char>, text: Seq<char>, caps: Seq<Seq<char>>)
    ensures
        stands_for(seq!['*'] + rest, text, caps) <==> caps.len() > 0 && caps[0].len() <= text.len()
            && text.take(caps[0].len() as int) == caps[0] && stands_for(
            rest,
            text.skip(caps[0].len() as int),
            caps.skip(1),
        ),
{
    let p = seq!['*'] + rest;
    lemma_first_element(p);
    assert(p.skip(1) =~= rest);
}

/// A question mark stands for any one character, which is captured.
pub proof fn law_question_mark(rest: Seq<char>, text: Seq<char>, caps: Seq<Seq<char>>)
    ensures
        stands_for(seq!['?'] + rest, text, caps) <==> text.len() > 0 && caps.len() > 0 && caps[0]
            == seq![text[0]] && stands_for(rest, text.skip(1), caps.skip(1)),
{
    let p = seq!['?'] + rest;
    lemma_first_element(p);
    assert(p.skip(1) =~= rest);
}

/// A character without a meaning of its own stands for itself, and so does any character behind
/// a backslash; neither is captured.
pub proof fn law_plain_characters(c: char, rest: Seq<char>, text: Seq<char>, caps: Seq<Seq<char>>)
    ensures
        c != '*' && c != '?' && c != '[' && c != '\\' ==> (stands_for(seq![c] + rest, text, caps)
            <==> text.len() > 0 && text[0] == c && stands_for(rest, text.skip(1), caps)),
        stands_for(seq!['\\', c] + rest, text, caps) <==> text.len() > 0 && text[0] == c
            && stands_for(rest, text.skip(1), caps),
{
    let p = seq![c] + rest;
    lemma_first_element(p);
    assert(p.skip(1) =~= rest);
    let q = seq!['\\', c] + rest;
    assert(q[0] == '\\' && q[1] == c);
    lemma_first_element(q);
    assert(q.skip(2) =~= rest);
}

/// A range between brackets stands for one character of the range, and behind an exclamation
/// mark for one that is not of it; the character is captured.
pub proof fn law_ranges(
    a: char,
    b: char,
    rest: Seq<char>,
    text: Seq<char>,
    caps: Seq<Seq<char>>,
)
    requires
        a != '!',
        b != ']',
    ensures
        stands_for(seq!['[', a, '-', b, ']'] + rest, text, caps) <==> text.len() > 0 && caps.len()
            > 0 && caps[0] == seq![text[0]] && (a <= text[0] && text[0] <= b) && stands_for(
            rest,
            text.skip(1),
            caps.skip(1),
        ),
        stands_for(seq!['[', '!', a, '-', b, ']'] + rest, text, caps) <==> text.len() > 0
            && caps.len() > 0 && caps[0] == seq![text[0]] && !(a <= text[0] && text[0] <= b)
            && stands_for(rest, text.skip(1), caps.skip(1)),
{
    let set = seq![(a, b)];
    assert(set[0] == (a, b));
    let p = seq!['[', a, '-', b, ']'] + rest;
    assert(p[0] == '[' && p[1] == a && p[2] == '-' && p[3] == b && p[4] == ']');
    assert(glob_capture::class_at(p, 4, false) == Some((Seq::<(char, char)>::empty(), 5int)));
    assert(glob_capture::class_at(p, 1, true) == Some(
        (seq![(a, b)] + Seq::<(char, char)>::empty(), 5int),
    ));
    assert(seq![(a, b)] + Seq::<(char, char)>::empty() =~= set);
    lemma_first_element(p);
    assert(p.skip(5) =~= rest);
    assert(glob_capture::lexed(p)[0] == (AtomModel::Class { set, negated: false }));
    let q = seq!['[', '!', a, '-', b, ']'] + rest;
    assert(q[0] == '[' && q[1] == '!' && q[2] == a && q[3] == '-' && q[4] == b && q[5] == ']');
    assert(glob_capture::class_at(q, 5, false) == Some((Seq::<(char, char)>::empty(), 6int)));
    assert(glob_capture::class_at(q, 2, true) == Some(
        (seq![(a, b)] + Seq::<(char, char)>::empty(), 6int),
    ));
    lemma_first_element(q);
    assert(q.skip(6) =~= rest);
    assert(glob_capture::lexed(q)[0] == (AtomModel::Class { set, negated: true }));
    if text.len() > 0 {
        assert(glob_capture::class_accepts(set, false, text[0]) <==> a <= text[0] && text[0] <= b);
    }
}

} // verus!
