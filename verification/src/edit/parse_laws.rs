//! What reading an edit query promises: what is written is read back.
use crate::edit::parse;
use crate::edit::parse::{LeafModel, NodeModel, PartModel, PieceModel, Place};
use crate::text;
use vstd::prelude::*;

verus! {

/// A pair as it is to be written: a type, and a label that stands bare or between quotes. A bare
/// label that is empty is none.
pub struct Written {
    pub tag_type: Seq<char>,
    pub label: Seq<char>,
    pub quoted: bool,
}

/// Whether a type can be written as it is: it is not empty and holds no character with a meaning
/// of its own.
pub open spec fn plain_type(s: Seq<char>) -> bool {
    s.len() > 0 && forall|k: int|
        0 <= k < s.len() ==> !text::is_white(#[trigger] s[k]) && s[k] != ':' && s[k] != '{' && s[k]
            != '}' && s[k] != '|' && s[k] != '&' && s[k] != '"' && s[k] != '\'' && s[k] != '\\'
}

/// Whether a label can be written as it is. Between quotes nothing but the quote, a backslash
/// and an opening brace has a meaning of its own.
pub open spec fn plain_label(s: Seq<char>, quoted: bool) -> bool {
    if quoted {
        forall|k: int|
            0 <= k < s.len() ==> #[trigger] s[k] != '"' && s[k] != '\\' && s[k] != '{'
    } else {
        &&& s.len() > 0 ==> s[0] != '"' && s[0] != '\''
        &&& forall|k: int|
            0 <= k < s.len() ==> !text::is_white(#[trigger] s[k]) && s[k] != '{' && s[k] != '}'
                && s[k] != '\\'
    }
}

/// A pair in the text of a query.
pub open spec fn pair_text(w: Written) -> Seq<char> {
    w.tag_type + seq![':'] + if w.quoted {
        seq!['"'] + w.label + seq!['"']
    } else {
        w.label
    }
}

/// Pairs in the text of a query, with a space between them.
pub open spec fn query_text(ws: Seq<Written>) -> Seq<char>
    decreases ws.len(),
{
    if ws.len() == 0 {
        seq![]
    } else if ws.len() == 1 {
        pair_text(ws[0])
    } else {
        pair_text(ws[0]) + seq![' '] + query_text(ws.skip(1))
    }
}

/// Whether a leaf is a text, written bare or between quotes.
pub open spec fn is_text(l: LeafModel, s: Seq<char>, quoted: bool) -> bool {
    &&& l.quoted == quoted
    &&& l.parts == if s.len() == 0 {
        Seq::<PartModel>::empty()
    } else {
        seq![PartModel::Text(s)]
    }
}

/// Whether a pair is what was written.
pub open spec fn is_pair(n: NodeModel, w: Written) -> bool {
    &&& is_text(n.tag_type, w.tag_type, false)
    &&& if w.label.len() == 0 && !w.quoted {
        n.label is None
    } else {
        n.label matches Some(l) && is_text(l, w.label, w.quoted)
    }
}

/// Whether elements are the characters of a text.
spec fn are_chars(p: Seq<PieceModel>, s: Seq<char>) -> bool {
    p.len() == s.len() && forall|k: int|
        0 <= k < s.len() ==> #[trigger] p[k] == PieceModel::Char(s[k])
}

proof fn lemma_gathered(p: Seq<PieceModel>, s: Seq<char>)
    requires
        are_chars(p, s),
    ensures
        parse::gathered(p) == if s.len() == 0 {
            Seq::<PartModel>::empty()
        } else {
            seq![PartModel::Text(s)]
        },
    decreases s.len(),
{
    if s.len() > 0 {
        let rest = s.drop_last();
        assert forall|k: int| 0 <= k < rest.len() implies #[trigger] p.drop_last()[k]
            == PieceModel::Char(rest[k]) by {
            assert(p[k] == PieceModel::Char(s[k]));
        }
        lemma_gathered(p.drop_last(), rest);
        assert(p[s.len() - 1] == PieceModel::Char(s[s.len() - 1]));
        assert(p.last() == PieceModel::Char(s.last()));
        if rest.len() > 0 {
            assert(rest.push(s.last()) =~= s);
            let before = seq![PartModel::Text(rest)];
            assert(before.drop_last() =~= Seq::<PartModel>::empty());
            assert(Seq::<PartModel>::empty().push(PartModel::Text(s)) =~= seq![PartModel::Text(s)]);
        } else {
            assert(s =~= seq![s.last()]);
            assert(Seq::<PartModel>::empty().push(PartModel::Text(s)) =~= seq![PartModel::Text(s)]);
        }
    }
}

proof fn lemma_put_first(x: PieceModel, rest: Seq<PieceModel>)
    ensures
        (seq![x] + rest).len() == rest.len() + 1,
        (seq![x] + rest)[0] == x,
        forall|k: int| 0 < k <= rest.len() ==> #[trigger] (seq![x] + rest)[k] == rest[k - 1],
{
}

/// Characters without a meaning of their own are read as they are, up to the end of the leaf.
proof fn lemma_run(place: Place, s: Seq<char>, i: int, j: int)
    requires
        0 <= i <= j <= s.len(),
        forall|k: int|
            i <= k < j ==> !parse::ends_leaf(place, #[trigger] s[k]) && !parse::refused_in_leaf(
                place,
                s[k],
            ) && s[k] != '{' && s[k] != '\\',
        j < s.len() ==> parse::ends_leaf(place, s[j]),
        j == s.len() ==> !(place is Quoted),
    ensures
        parse::pieces_from(place, s, i) matches Some(r) && r.1 == j && are_chars(
            r.0,
            s.subrange(i, j),
        ),
    decreases j - i,
{
    if i < j {
        lemma_run(place, s, i + 1, j);
        assert(parse::piece_step(place, s, i) == Some((seq![PieceModel::Char(s[i])], i + 1)));
        let rest = (parse::pieces_from(place, s, i + 1)->0).0;
        let all = seq![PieceModel::Char(s[i])] + rest;
        lemma_put_first(PieceModel::Char(s[i]), rest);
        assert(parse::pieces_from(place, s, i) == Some((all, j)));
        assert forall|k: int| 0 <= k < j - i implies #[trigger] all[k] == PieceModel::Char(
            s.subrange(i, j)[k],
        ) by {
            if k > 0 {
                assert(all[k] == rest[k - 1]);
                assert(rest[k - 1] == PieceModel::Char(s.subrange(i + 1, j)[k - 1]));
            }
        }
    }
}

/// A pair that is written at a place, and ends there or before white space, is read there.
proof fn lemma_pair(s: Seq<char>, i: int, w: Written)
    requires
        plain_type(w.tag_type),
        plain_label(w.label, w.quoted),
        0 <= i,
        i + pair_text(w).len() <= s.len(),
        s.subrange(i, i + pair_text(w).len()) == pair_text(w),
        i + pair_text(w).len() < s.len() ==> text::is_white(s[i + pair_text(w).len()]),
    ensures
        parse::node_at(s, i) matches Some(n) && n.1 == i + pair_text(w).len() && is_pair(n.0, w),
{
    let p = pair_text(w);
    let m = i + w.tag_type.len();
    let end = i + p.len();
    assert forall|k: int| 0 <= k < p.len() implies s[i + k] == #[trigger] p[k] by {
        assert(s.subrange(i, end)[k] == s[i + k]);
    }
    assert forall|k: int| i <= k < m implies !parse::ends_leaf(Place::Type, #[trigger] s[k])
        && !parse::refused_in_leaf(Place::Type, s[k]) && s[k] != '{' && s[k] != '\\' by {
        assert(s[k] == p[k - i]);
        assert(p[k - i] == w.tag_type[k - i]);
    }
    assert(p[w.tag_type.len() as int] == ':');
    assert(s[m] == ':');
    assert(s[i] == p[0] && p[0] == w.tag_type[0]);
    lemma_run(Place::Type, s, i, m);
    lemma_gathered((parse::pieces_from(Place::Type, s, i)->0).0, s.subrange(i, m));
    assert(s.subrange(i, m) =~= w.tag_type) by {
        assert forall|k: int| 0 <= k < w.tag_type.len() implies s.subrange(i, m)[k]
            == w.tag_type[k] by {
            assert(s[i + k] == p[k]);
        }
    }
    let t = parse::leaf_at(s, i, true)->0;
    assert(t.1 == m);
    if w.quoted {
        let a = m + 2;
        let b = a + w.label.len();
        assert(end == b + 1);
        assert(s[m + 1] == p[m + 1 - i] && p[m + 1 - i] == '"');
        assert forall|k: int| a <= k < b implies s[k] == w.label[k - a] by {
            assert(s[k] == p[k - i]);
        }
        assert(s[b] == p[b - i] && p[b - i] == '"');
        let place = Place::Quoted('"');
        assert forall|k: int| a <= k < b implies !parse::ends_leaf(place, #[trigger] s[k])
            && !parse::refused_in_leaf(place, s[k]) && s[k] != '{' && s[k] != '\\' by {
            assert(s[k] == w.label[k - a]);
        }
        lemma_run(place, s, a, b);
        lemma_gathered((parse::pieces_from(place, s, a)->0).0, s.subrange(a, b));
        assert(s.subrange(a, b) =~= w.label);
    } else {
        let a = m + 1;
        assert(end == a + w.label.len());
        assert forall|k: int| a <= k < end implies s[k] == w.label[k - a] by {
            assert(s[k] == p[k - i]);
        }
        if w.label.len() > 0 {
            assert(s[a] == w.label[0]);
            assert forall|k: int| a <= k < end implies !parse::ends_leaf(
                Place::Label,
                #[trigger] s[k],
            ) && !parse::refused_in_leaf(Place::Label, s[k]) && s[k] != '{' && s[k] != '\\' by {
                assert(s[k] == w.label[k - a]);
            }
            lemma_run(Place::Label, s, a, end);
            lemma_gathered((parse::pieces_from(Place::Label, s, a)->0).0, s.subrange(a, end));
            assert(s.subrange(a, end) =~= w.label);
        }
    }
}

proof fn lemma_pairs(s: Seq<char>, i: int, ws: Seq<Written>)
    requires
        ws.len() > 0,
        forall|k: int|
            0 <= k < ws.len() ==> plain_type((#[trigger] ws[k]).tag_type) && plain_label(
                ws[k].label,
                ws[k].quoted,
            ),
        0 <= i <= s.len(),
        s.skip(i) == query_text(ws),
    ensures
        parse::nodes_from(s, i) matches Some(ns) && ns.len() == ws.len() && forall|k: int|
            0 <= k < ws.len() ==> is_pair(#[trigger] ns[k], ws[k]),
    decreases ws.len(),
{
    let p = pair_text(ws[0]);
    let end = i + p.len();
    let all = query_text(ws);
    assert(all.len() == s.len() - i);
    assert(plain_type(ws[0].tag_type));
    assert(p.len() <= all.len());
    assert(s.subrange(i, end) =~= p) by {
        assert forall|k: int| 0 <= k < p.len() implies s.subrange(i, end)[k] == p[k] by {
            assert(s.skip(i)[k] == s[i + k]);
            assert(all[k] == p[k]);
        }
    }
    if ws.len() == 1 {
        assert(end == s.len());
        lemma_pair(s, i, ws[0]);
        let n = parse::node_at(s, i)->0;
        assert(parse::skip_white(s, n.1) == s.len());
        assert(parse::nodes_from(s, i) == Some(seq![n.0]));
    } else {
        let rest = ws.skip(1);
        assert(s.skip(i)[p.len() as int] == all[p.len() as int]);
        assert(all[p.len() as int] == ' ');
        assert(s[end] == ' ');
        lemma_pair(s, i, ws[0]);
        let n = parse::node_at(s, i)->0;
        assert forall|k: int| 0 <= k < rest.len() implies plain_type((#[trigger] rest[k]).tag_type)
            && plain_label(rest[k].label, rest[k].quoted) by {
            assert(rest[k] == ws[k + 1]);
        }
        assert(s.skip(end + 1) =~= query_text(rest)) by {
            assert forall|k: int| 0 <= k < query_text(rest).len() implies s.skip(end + 1)[k]
                == query_text(rest)[k] by {
                assert(s.skip(i)[p.len() + 1 + k] == all[p.len() + 1 + k]);
            }
        }
        lemma_pairs(s, end + 1, rest);
        let q = pair_text(rest[0]);
        assert(plain_type(rest[0].tag_type));
        assert(query_text(rest).len() > 0);
        assert(query_text(rest)[0] == rest[0].tag_type[0]);
        assert(s[end + 1] == s.skip(end + 1)[0]);
        reveal_with_fuel(parse::skip_white, 3);
        assert(parse::skip_white(s, end) == end + 1);
        assert(parse::next_start(s, end) == Some(end + 1));
        let ns = parse::nodes_from(s, end + 1)->0;
        assert(parse::nodes_from(s, i) == Some(seq![n.0] + ns));
        assert forall|k: int| 0 <= k < ws.len() implies is_pair(
            #[trigger] (seq![n.0] + ns)[k],
            ws[k],
        ) by {
            if k > 0 {
                assert((seq![n.0] + ns)[k] == ns[k - 1]);
                assert(rest[k - 1] == ws[k]);
            }
        }
    }
}

/// Pairs that are written with spaces between them are read back, in order: each type, and each
/// label with whether it stood between quotes.
pub proof fn law_written_pairs_are_read_back(ws: Seq<Written>)
    requires
        ws.len() > 0,
        forall|k: int|
            0 <= k < ws.len() ==> plain_type((#[trigger] ws[k]).tag_type) && plain_label(
                ws[k].label,
                ws[k].quoted,
            ),
    ensures
        parse::query_nodes(query_text(ws)) matches Some(ns) && ns.len() == ws.len() && forall|k: int|
            0 <= k < ws.len() ==> is_pair(#[trigger] ns[k], ws[k]),
{
    let s = query_text(ws);
    assert(plain_type(ws[0].tag_type));
    assert(s[0] == ws[0].tag_type[0]);
    assert(parse::skip_white(s, 0) == 0);
    assert(s.skip(0) =~= s);
    lemma_pairs(s, 0, ws);
}

/// A text part stands for itself, but for backslashes before metacharacters of globs, which are
/// left out.
pub proof fn law_plain_texts_stand_for_themselves(l: LeafModel, s: Seq<char>, quoted: bool)
    requires
        is_text(l, s, quoted),
        forall|k: int| 0 <= k < s.len() ==> #[trigger] s[k] != '\\',
    ensures
        l.valued() == s,
        l.rendered() == s,
        !l.braced(),
{
    reveal_with_fuel(parse::parts_text, 2);
    if s.len() > 0 {
        assert(l.parts.drop_last() =~= Seq::<PartModel>::empty());
        assert(l.rendered() =~= s);
    } else {
        assert(l.rendered() =~= s);
    }
    lemma_unescaped(s);
}

proof fn lemma_unescaped(s: Seq<char>)
    requires
        forall|k: int| 0 <= k < s.len() ==> #[trigger] s[k] != '\\',
    ensures
        parse::unescaped(s) == s,
    decreases s.len(),
{
    if s.len() > 0 {
        assert forall|k: int| 0 <= k < s.skip(1).len() implies #[trigger] s.skip(1)[k] != '\\' by {
            assert(s.skip(1)[k] == s[k + 1]);
        }
        lemma_unescaped(s.skip(1));
        assert(seq![s[0]] + s.skip(1) =~= s);
    } else {
        assert(parse::unescaped(s) =~= s);
    }
}

} // verus!
