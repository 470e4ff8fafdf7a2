//! What captures promise, told by the tags of an item and by which texts a pattern stands for.
use crate::edit::glob_capture;
use crate::edit::search_and_apply_captures as captures;
use crate::edit::search_and_apply_captures::{OperandModel, PatternModel, UnitModel};
use crate::edit::parse::{LeafModel, NodeModel, PartModel};
use crate::item::{Item, TagModel, TagTypeModel};
use crate::tag;
use crate::tag::{Reading, TagFnModel, TimeSlots};
use crate::text;
use vstd::prelude::*;

verus! {

/// Whether a pattern stands for a text with these pieces, and its metacharacters with none
/// shorter.
pub open spec fn stands_for(pattern: Seq<char>, text: Seq<char>, caps: Seq<Seq<char>>) -> bool {
    &&& glob_capture::fits(glob_capture::lexed(pattern), text, caps)
    &&& forall|other: Seq<Seq<char>>|
        glob_capture::fits(glob_capture::lexed(pattern), text, other) ==> glob_capture::no_longer(
            caps,
            other,
        )
}

/// Whether a pattern stands for a text; one without metacharacters for that text alone.
pub open spec fn takes(p: PatternModel, text: Seq<char>, caps: Seq<Seq<char>>) -> bool {
    match p {
        PatternModel::Literal(s) => text == s && caps.len() == 0,
        PatternModel::Glob { text: pattern, .. } => stands_for(pattern, text, caps),
    }
}

/// How the labels of a type are held against a pattern.
pub open spec fn read_as(reg: Seq<TagFnModel>, ty: TagTypeModel) -> Option<Reading> {
    match tag::find_fn(reg, ty.name()) {
        Some(f) => Some(f.reading),
        None => None,
    }
}

/// Whether a pattern stands for the label of a tag: for its text or, where the type is read as a
/// time, for the first of the texts that the time is written as for which it can stand.
pub open spec fn takes_label(
    reg: Seq<TagFnModel>,
    slots: Seq<TimeSlots>,
    p: PatternModel,
    t: TagModel,
    caps: Seq<Seq<char>>,
) -> bool {
    if p is Glob && t.value is Integer && read_as(reg, t.tag_type) == Some(Reading::Time) {
        let texts = tag::written_times(slots, t.value->Integer_0);
        exists|k: int|
            0 <= k < texts.len() && takes(p, #[trigger] texts[k], caps) && forall|j: int, c: Seq<
                Seq<char>,
            >| 0 <= j < k ==> !#[trigger] takes(p, texts[j], c)
    } else {
        takes(p, t.value.shown(), caps)
    }
}

/// Whether a tag is one that the labels of an item are looked for in: a tag of the item or, where
/// types are read by their names, one that the item is known by.
pub open spec fn looked_in(reg: Seq<TagFnModel>, item: Item, p: PatternModel, t: TagModel) -> bool {
    item.tags@.contains(t) || (p is Glob && read_as(reg, t.tag_type) == Some(Reading::Type)
        && item.repr().contains(t))
}

/// Whether a binding gives the numbers these texts, one by one.
pub open spec fn binds(
    b: Seq<(usize, Seq<char>)>,
    numbers: Seq<usize>,
    caps: Seq<Seq<char>>,
) -> bool {
    &&& b.len() == numbers.len()
    &&& caps.len() == numbers.len()
    &&& forall|k: int| 0 <= k < numbers.len() ==> (#[trigger] b[k]) == (numbers[k], caps[k])
}

/// Whether a pattern has one number for each of its metacharacters.
pub open spec fn well_numbered(p: PatternModel) -> bool {
    match p {
        PatternModel::Literal(_) => true,
        PatternModel::Glob { text, numbers } => numbers.len() == captures::metachars(text),
    }
}

proof fn lemma_first_fit(pattern: Seq<char>, text: Seq<char>)
    ensures
        glob_capture::first_fit(glob_capture::lexed(pattern), text) matches Some(c) ==> stands_for(
            pattern,
            text,
            c,
        ),
        (exists|c: Seq<Seq<char>>| #[trigger] stands_for(pattern, text, c))
            ==> glob_capture::first_fit(glob_capture::lexed(pattern), text) is Some,
{
    let atoms = glob_capture::lexed(pattern);
    if let Some(c) = glob_capture::first_fit(atoms, text) {
        glob_capture::law_captures_fit(atoms, text);
        assert forall|other: Seq<Seq<char>>|
            glob_capture::fits(atoms, text, other) implies glob_capture::no_longer(c, other) by {
            glob_capture::law_captures_shortest(atoms, text, other);
        }
    }
    if exists|c: Seq<Seq<char>>| #[trigger] stands_for(pattern, text, c) {
        let c = choose|c: Seq<Seq<char>>| #[trigger] stands_for(pattern, text, c);
        glob_capture::law_captures_shortest(atoms, text, c);
    }
}

proof fn lemma_first_text_fit(pattern: Seq<char>, texts: Seq<Seq<char>>)
    ensures
        match tag::first_text_fit(pattern, texts) {
            Some(c) => exists|k: int|
                0 <= k < texts.len() && stands_for(pattern, #[trigger] texts[k], c) && forall|
                    j: int,
                    o: Seq<Seq<char>>,
                | 0 <= j < k ==> !#[trigger] stands_for(pattern, texts[j], o),
            None => forall|j: int, o: Seq<Seq<char>>|
                0 <= j < texts.len() ==> !#[trigger] stands_for(pattern, texts[j], o),
        },
    decreases texts.len(),
{
    if texts.len() > 0 {
        lemma_first_fit(pattern, texts[0]);
        let rest = texts.skip(1);
        match glob_capture::first_fit(glob_capture::lexed(pattern), texts[0]) {
            Some(c) => {
                assert(stands_for(pattern, texts[0], c));
            },
            None => {
                lemma_first_text_fit(pattern, rest);
                assert(forall|o: Seq<Seq<char>>| !#[trigger] stands_for(pattern, texts[0], o));
                assert forall|j: int| 0 < j < texts.len() implies #[trigger] texts[j] == rest[j
                    - 1] by {
                }
                match tag::first_text_fit(pattern, rest) {
                    Some(c) => {
                        let k = choose|k: int|
                            0 <= k < rest.len() && stands_for(pattern, #[trigger] rest[k], c)
                                && forall|j: int, o: Seq<Seq<char>>|
                                0 <= j < k ==> !#[trigger] stands_for(pattern, rest[j], o);
                        assert(texts[k + 1] == rest[k]);
                        assert forall|j: int, o: Seq<Seq<char>>|
                            0 <= j < k + 1 implies !#[trigger] stands_for(pattern, texts[j], o) by {
                            if j > 0 {
                                assert(!stands_for(pattern, rest[j - 1], o));
                            }
                        }
                    },
                    None => {
                        assert forall|j: int, o: Seq<Seq<char>>|
                            0 <= j < texts.len() implies !#[trigger] stands_for(
                            pattern,
                            texts[j],
                            o,
                        ) by {
                            if j > 0 {
                                assert(!stands_for(pattern, rest[j - 1], o));
                            }
                        }
                    },
                }
            },
        }
    }
}

/// What is captured from one tag of a type, by how the type is read.
spec fn fit_of(
    time: bool,
    pattern: Seq<char>,
    t: TagModel,
    slots: Seq<TimeSlots>,
) -> Option<Seq<Seq<char>>> {
    if time {
        tag::time_fit(pattern, t.value, slots)
    } else {
        glob_capture::first_fit(glob_capture::lexed(pattern), t.value.shown())
    }
}

proof fn lemma_fit_of(
    reg: Seq<TagFnModel>,
    slots: Seq<TimeSlots>,
    p: PatternModel,
    t: TagModel,
)
    requires
        p is Glob,
    ensures
        ({
            let time = read_as(reg, t.tag_type) == Some(Reading::Time);
            let fit = fit_of(time, p->text, t, slots);
            &&& fit is Some ==> takes_label(reg, slots, p, t, fit->0)
            &&& (exists|c: Seq<Seq<char>>| #[trigger] takes_label(reg, slots, p, t, c)) ==> fit is Some
        }),
{
    let pattern = p->text;
    let time = read_as(reg, t.tag_type) == Some(Reading::Time);
    lemma_first_fit(pattern, t.value.shown());
    if time && t.value is Integer {
        let texts = tag::written_times(slots, t.value->Integer_0);
        lemma_first_text_fit(pattern, texts);
        let fit = fit_of(time, pattern, t, slots);
        if let Some(c) = fit {
            let k = choose|k: int|
                0 <= k < texts.len() && stands_for(pattern, #[trigger] texts[k], c) && forall|
                    j: int,
                    o: Seq<Seq<char>>,
                | 0 <= j < k ==> !#[trigger] stands_for(pattern, texts[j], o);
            assert(takes(p, texts[k], c));
            assert forall|j: int, o: Seq<Seq<char>>| 0 <= j < k implies !#[trigger] takes(
                p,
                texts[j],
                o,
            ) by {
                assert(!stands_for(pattern, texts[j], o));
            }
        }
        if exists|c: Seq<Seq<char>>| #[trigger] takes_label(reg, slots, p, t, c) {
            let c = choose|c: Seq<Seq<char>>| #[trigger] takes_label(reg, slots, p, t, c);
            let k = choose|k: int|
                0 <= k < texts.len() && takes(p, #[trigger] texts[k], c) && forall|
                    j: int,
                    o: Seq<Seq<char>>,
                | 0 <= j < k ==> !#[trigger] takes(p, texts[j], o);
            assert(stands_for(pattern, texts[k], c));
        }
    } else {
        if exists|c: Seq<Seq<char>>| #[trigger] takes_label(reg, slots, p, t, c) {
            let c = choose|c: Seq<Seq<char>>| #[trigger] takes_label(reg, slots, p, t, c);
            assert(stands_for(pattern, t.value.shown(), c));
        }
    }
}

/// What is captured from the tags of a type, by how the type is read.
spec fn captured_as(
    time: bool,
    tags: Seq<TagModel>,
    ty: TagTypeModel,
    pattern: Seq<char>,
    slots: Seq<TimeSlots>,
) -> Seq<Seq<Seq<char>>> {
    if time {
        tag::captured_times(tags, ty, pattern, slots)
    } else {
        tag::captured(tags, ty, pattern)
    }
}

/// Whether pieces are captured from one of the tags of a type.
spec fn of_some_tag(
    time: bool,
    tags: Seq<TagModel>,
    ty: TagTypeModel,
    pattern: Seq<char>,
    slots: Seq<TimeSlots>,
    c: Seq<Seq<char>>,
) -> bool {
    exists|k: int|
        0 <= k < tags.len() && (#[trigger] tags[k]).tag_type == ty && fit_of(
            time,
            pattern,
            tags[k],
            slots,
        ) == Some(c)
}

/// What is captured from tags is what is captured from those of the type.
proof fn lemma_captured(
    time: bool,
    tags: Seq<TagModel>,
    ty: TagTypeModel,
    pattern: Seq<char>,
    slots: Seq<TimeSlots>,
)
    ensures
        forall|c: Seq<Seq<char>>| #[trigger]
            captured_as(time, tags, ty, pattern, slots).contains(c) <==> of_some_tag(
                time,
                tags,
                ty,
                pattern,
                slots,
                c,
            ),
    decreases tags.len(),
{
    let got = captured_as(time, tags, ty, pattern, slots);
    if tags.len() > 0 {
        let rest = tags.drop_last();
        lemma_captured(time, rest, ty, pattern, slots);
        let before = captured_as(time, rest, ty, pattern, slots);
        let n = tags.len() - 1;
        assert(tags[n] == tags.last());
        assert forall|c: Seq<Seq<char>>| #[trigger] got.contains(c) <==> of_some_tag(
            time,
            tags,
            ty,
            pattern,
            slots,
            c,
        ) by {
            if got.contains(c) {
                let i = choose|i: int| 0 <= i < got.len() && got[i] == c;
                if i < before.len() {
                    assert(before[i] == c);
                    assert(before.contains(c));
                    let k = choose|k: int|
                        0 <= k < rest.len() && (#[trigger] rest[k]).tag_type == ty && fit_of(
                            time,
                            pattern,
                            rest[k],
                            slots,
                        ) == Some(c);
                    assert(tags[k] == rest[k]);
                } else {
                    assert(fit_of(time, pattern, tags[n], slots) == Some(c));
                }
            }
            if of_some_tag(time, tags, ty, pattern, slots, c) {
                let k = choose|k: int|
                    0 <= k < tags.len() && (#[trigger] tags[k]).tag_type == ty && fit_of(
                        time,
                        pattern,
                        tags[k],
                        slots,
                    ) == Some(c);
                if k < n {
                    assert(rest[k] == tags[k]);
                    assert(of_some_tag(time, rest, ty, pattern, slots, c));
                    assert(before.contains(c));
                    let i = choose|i: int| 0 <= i < before.len() && before[i] == c;
                    assert(got[i] == c);
                } else {
                    assert(got[got.len() - 1] == c);
                }
            }
        }
    } else {
        assert(got.len() == 0);
    }
}

/// The tag that pieces are captured from.
proof fn lemma_source(
    reg: Seq<TagFnModel>,
    slots: Seq<TimeSlots>,
    p: PatternModel,
    ty: TagTypeModel,
    item: Item,
    i: int,
) -> (t: TagModel)
    requires
        0 <= i < captures::label_fits(reg, slots, p, ty, item).len(),
    ensures
        t.tag_type == ty,
        looked_in(reg, item, p, t),
        takes_label(reg, slots, p, t, captures::label_fits(reg, slots, p, ty, item)[i]),
{
    let got = captures::label_fits(reg, slots, p, ty, item);
    let tags = item.tags@;
    match p {
        PatternModel::Literal(s) => {
            let k = choose|k: int|
                0 <= k < tags.len() && (#[trigger] tags[k]).tag_type == ty && tags[k].value.shown()
                    == s;
            assert(got[i].len() == 0);
            assert(tags.contains(tags[k]));
            tags[k]
        },
        PatternModel::Glob { text, .. } => {
            let reading = read_as(reg, ty);
            let time = reading == Some(Reading::Time);
            lemma_captured(time, tags, ty, text, slots);
            lemma_captured(false, item.repr(), ty, text, slots);
            let own = captured_as(time, tags, ty, text, slots);
            let more = captured_as(false, item.repr(), ty, text, slots);
            if i < own.len() {
                assert(got[i] == own[i]);
                assert(own.contains(got[i]));
                let k = choose|k: int|
                    0 <= k < tags.len() && (#[trigger] tags[k]).tag_type == ty && fit_of(
                        time,
                        text,
                        tags[k],
                        slots,
                    ) == Some(got[i]);
                lemma_fit_of(reg, slots, p, tags[k]);
                assert(tags.contains(tags[k]));
                tags[k]
            } else {
                let j = i - own.len();
                assert(got == own + more);
                assert(got[i] == more[j]);
                assert(more.contains(got[i]));
                let repr = item.repr();
                let k = choose|k: int|
                    0 <= k < repr.len() && (#[trigger] repr[k]).tag_type == ty && fit_of(
                        false,
                        text,
                        repr[k],
                        slots,
                    ) == Some(got[i]);
                lemma_fit_of(reg, slots, p, repr[k]);
                assert(repr.contains(repr[k]));
                repr[k]
            }
        },
    }
}

/// The place of what is captured from a tag.
proof fn lemma_place(
    reg: Seq<TagFnModel>,
    slots: Seq<TimeSlots>,
    p: PatternModel,
    item: Item,
    t: TagModel,
    c: Seq<Seq<char>>,
) -> (i: int)
    requires
        item.tags@.contains(t),
        takes_label(reg, slots, p, t, c),
    ensures
        0 <= i < captures::label_fits(reg, slots, p, t.tag_type, item).len(),
        takes_label(reg, slots, p, t, captures::label_fits(reg, slots, p, t.tag_type, item)[i]),
{
    let ty = t.tag_type;
    let got = captures::label_fits(reg, slots, p, ty, item);
    let tags = item.tags@;
    let k = choose|k: int| 0 <= k < tags.len() && tags[k] == t;
    assert(tags[k].tag_type == ty);
    match p {
        PatternModel::Literal(s) => {
            assert(captures::has_label(tags, ty, s));
            assert(got[0].len() == 0);
            0
        },
        PatternModel::Glob { text, .. } => {
            let time = read_as(reg, ty) == Some(Reading::Time);
            lemma_captured(time, tags, ty, text, slots);
            let own = captured_as(time, tags, ty, text, slots);
            lemma_fit_of(reg, slots, p, t);
            let fit = fit_of(time, text, t, slots)->0;
            assert(of_some_tag(time, tags, ty, text, slots, fit));
            assert(own.contains(fit));
            let i = choose|i: int| 0 <= i < own.len() && own[i] == fit;
            assert(got[i] == fit);
            i
        },
    }
}

/// Whether a type is known for an item: it is registered, or the item has a tag of it.
pub open spec fn is_known(reg: Seq<TagFnModel>, item: Item, ty: TagTypeModel) -> bool {
    ||| exists|i: int| 0 <= i < reg.len() && TagTypeModel::named((#[trigger] reg[i]).name) == ty
    ||| exists|k: int| 0 <= k < item.tags@.len() && (#[trigger] item.tags@[k]).tag_type == ty
}

proof fn lemma_registered(fns: Seq<TagFnModel>, ty: TagTypeModel)
    ensures
        captures::registered_types(fns).contains(ty) <==> exists|i: int|
            0 <= i < fns.len() && TagTypeModel::named((#[trigger] fns[i]).name) == ty,
    decreases fns.len(),
{
    if fns.len() > 0 {
        let rest = fns.drop_last();
        lemma_registered(rest, ty);
        let last = TagTypeModel::named(fns.last().name);
        lemma_with_type(captures::registered_types(rest), last, ty);
        assert(fns[fns.len() - 1] == fns.last());
        assert(forall|i: int| 0 <= i < rest.len() ==> #[trigger] rest[i] == fns[i]);
        if exists|i: int| 0 <= i < rest.len() && TagTypeModel::named((#[trigger] rest[i]).name) == ty {
            let i = choose|i: int|
                0 <= i < rest.len() && TagTypeModel::named((#[trigger] rest[i]).name) == ty;
            assert(TagTypeModel::named(fns[i].name) == ty);
        }
        if exists|i: int| 0 <= i < fns.len() && TagTypeModel::named((#[trigger] fns[i]).name) == ty {
            let i = choose|i: int|
                0 <= i < fns.len() && TagTypeModel::named((#[trigger] fns[i]).name) == ty;
            if i < rest.len() {
                assert(TagTypeModel::named(rest[i].name) == ty);
            }
        }
    }
}

proof fn lemma_with_type(types: Seq<TagTypeModel>, more: TagTypeModel, ty: TagTypeModel)
    ensures
        captures::with_type(types, more).contains(ty) <==> types.contains(ty) || ty == more,
{
    let all = captures::with_type(types, more);
    if !types.contains(more) {
        assert(all[all.len() - 1] == more);
        if types.contains(ty) {
            let i = choose|i: int| 0 <= i < types.len() && types[i] == ty;
            assert(all[i] == ty);
        }
        if all.contains(ty) && ty != more {
            let i = choose|i: int| 0 <= i < all.len() && all[i] == ty;
            assert(types[i] == ty);
        }
    }
}

proof fn lemma_types_of_tags(types: Seq<TagTypeModel>, tags: Seq<TagModel>, ty: TagTypeModel)
    ensures
        captures::with_types_of(types, tags).contains(ty) <==> types.contains(ty) || exists|k: int|
            0 <= k < tags.len() && (#[trigger] tags[k]).tag_type == ty,
    decreases tags.len(),
{
    if tags.len() > 0 {
        let rest = tags.drop_last();
        lemma_types_of_tags(types, rest, ty);
        lemma_with_type(captures::with_types_of(types, rest), tags.last().tag_type, ty);
        assert(tags[tags.len() - 1] == tags.last());
        assert(forall|i: int| 0 <= i < rest.len() ==> #[trigger] rest[i] == tags[i]);
        if exists|k: int| 0 <= k < rest.len() && (#[trigger] rest[k]).tag_type == ty {
            let k = choose|k: int| 0 <= k < rest.len() && (#[trigger] rest[k]).tag_type == ty;
            assert(tags[k].tag_type == ty);
        }
        if exists|k: int| 0 <= k < tags.len() && (#[trigger] tags[k]).tag_type == ty {
            let k = choose|k: int| 0 <= k < tags.len() && (#[trigger] tags[k]).tag_type == ty;
            if k < rest.len() {
                assert(rest[k].tag_type == ty);
            }
        }
    }
}

proof fn lemma_known(reg: Seq<TagFnModel>, item: Item, ty: TagTypeModel)
    ensures
        captures::types_known(reg, item).contains(ty) <==> is_known(reg, item, ty),
{
    lemma_registered(reg, ty);
    lemma_types_of_tags(captures::registered_types(reg), item.tags@, ty);
}

proof fn lemma_type_fit(p: PatternModel, ty: TagTypeModel)
    ensures
        captures::type_fit(p, ty) matches Some(c) ==> takes(p, ty.name(), c),
        (exists|c: Seq<Seq<char>>| #[trigger] takes(p, ty.name(), c)) ==> captures::type_fit(
            p,
            ty,
        ) is Some,
{
    if let PatternModel::Glob { text, .. } = p {
        lemma_first_fit(text, ty.name());
        if exists|c: Seq<Seq<char>>| #[trigger] takes(p, ty.name(), c) {
            let c = choose|c: Seq<Seq<char>>| #[trigger] takes(p, ty.name(), c);
            assert(stands_for(text, ty.name(), c));
        }
    }
}

proof fn lemma_filter_has(types: Seq<TagTypeModel>, p: spec_fn(TagTypeModel) -> bool, t: TagTypeModel)
    ensures
        types.filter(p).contains(t) <==> types.contains(t) && p(t),
    decreases types.len(),
{
    reveal(Seq::filter);
    if types.len() > 0 {
        let rest = types.drop_last();
        lemma_filter_has(rest, p, t);
        let f = rest.filter(p);
        let g = types.filter(p);
        assert(types[types.len() - 1] == types.last());
        if rest.contains(t) {
            let i = choose|i: int| 0 <= i < rest.len() && rest[i] == t;
            assert(types[i] == t);
        }
        if types.contains(t) && t != types.last() {
            let i = choose|i: int| 0 <= i < types.len() && types[i] == t;
            assert(rest[i] == t);
        }
        if p(types.last()) {
            assert(g == f.push(types.last()));
            assert(g[g.len() - 1] == types.last());
            if f.contains(t) {
                let i = choose|i: int| 0 <= i < f.len() && f[i] == t;
                assert(g[i] == t);
            }
            if g.contains(t) && t != types.last() {
                let i = choose|i: int| 0 <= i < g.len() && g[i] == t;
                assert(f[i] == t);
            }
        }
    }
}

/// The tag that pieces of a bare pattern are captured from.
proof fn lemma_label_source(
    reg: Seq<TagFnModel>,
    slots: Seq<TimeSlots>,
    item: Item,
    p: PatternModel,
    types: Seq<TagTypeModel>,
    i: int,
) -> (t: TagModel)
    requires
        0 <= i < captures::label_hits(reg, slots, item, p, types).len(),
    ensures
        looked_in(reg, item, p, t),
        takes_label(reg, slots, p, t, captures::label_hits(reg, slots, item, p, types)[i]),
    decreases types.len(),
{
    let rest = types.drop_last();
    let before = captures::label_hits(reg, slots, item, p, rest);
    let got = captures::label_hits(reg, slots, item, p, types);
    if i < before.len() {
        assert(got[i] == before[i]);
        lemma_label_source(reg, slots, item, p, rest, i)
    } else {
        lemma_source(reg, slots, p, types.last(), item, i - before.len())
    }
}

/// The place of what a bare pattern captures from a tag.
proof fn lemma_label_place(
    reg: Seq<TagFnModel>,
    slots: Seq<TimeSlots>,
    item: Item,
    p: PatternModel,
    types: Seq<TagTypeModel>,
    t: TagModel,
    c: Seq<Seq<char>>,
    x: int,
) -> (i: int)
    requires
        item.tags@.contains(t),
        0 <= x < types.len(),
        types[x] == t.tag_type,
        takes_label(reg, slots, p, t, c),
    ensures
        0 <= i < captures::label_hits(reg, slots, item, p, types).len(),
        takes_label(reg, slots, p, t, captures::label_hits(reg, slots, item, p, types)[i]),
    decreases types.len(),
{
    let rest = types.drop_last();
    let before = captures::label_hits(reg, slots, item, p, rest);
    let got = captures::label_hits(reg, slots, item, p, types);
    if x < rest.len() {
        let i = lemma_label_place(reg, slots, item, p, rest, t, c, x);
        assert(got[i] == before[i]);
        i
    } else {
        let j = lemma_place(reg, slots, p, item, t, c);
        let more = captures::label_fits(reg, slots, p, types.last(), item);
        assert(got[before.len() + j] == more[j]);
        before.len() + j
    }
}

/// Whether pieces are what the patterns of a pair take from the type and the label of a tag.
pub open spec fn takes_pair(
    reg: Seq<TagFnModel>,
    slots: Seq<TimeSlots>,
    ty: PatternModel,
    label: PatternModel,
    t: TagModel,
    c: Seq<Seq<char>>,
) -> bool {
    exists|k: int|
        0 <= k <= c.len() && #[trigger] takes(ty, t.tag_type.name(), c.take(k)) && takes_label(
            reg,
            slots,
            label,
            t,
            c.skip(k),
        )
}

proof fn lemma_headed(
    reg: Seq<TagFnModel>,
    slots: Seq<TimeSlots>,
    ty: PatternModel,
    label: PatternModel,
    t: TagModel,
    head: Seq<Seq<char>>,
    tail: Seq<Seq<char>>,
)
    requires
        takes(ty, t.tag_type.name(), head),
        takes_label(reg, slots, label, t, tail),
    ensures
        takes_pair(reg, slots, ty, label, t, head + tail),
{
    let n = head.len() as int;
    assert((head + tail).take(n) =~= head);
    assert((head + tail).skip(n) =~= tail);
    assert(takes(ty, t.tag_type.name(), (head + tail).take(n)));
}

/// The tag that pieces of a pair of patterns are captured from.
proof fn lemma_pair_source(
    reg: Seq<TagFnModel>,
    slots: Seq<TimeSlots>,
    item: Item,
    ty: PatternModel,
    label: PatternModel,
    types: Seq<TagTypeModel>,
    i: int,
) -> (t: TagModel)
    requires
        forall|j: int| 0 <= j < types.len() ==> captures::type_fit(ty, #[trigger] types[j]) is Some,
        0 <= i < captures::pair_hits(reg, slots, item, ty, label, types).len(),
    ensures
        looked_in(reg, item, label, t),
        takes_pair(
            reg,
            slots,
            ty,
            label,
            t,
            captures::pair_hits(reg, slots, item, ty, label, types)[i],
        ),
    decreases types.len(),
{
    let rest = types.drop_last();
    let last = types.last();
    let before = captures::pair_hits(reg, slots, item, ty, label, rest);
    let got = captures::pair_hits(reg, slots, item, ty, label, types);
    if i < before.len() {
        assert(got[i] == before[i]);
        assert forall|j: int| 0 <= j < rest.len() implies captures::type_fit(
            ty,
            #[trigger] rest[j],
        ) is Some by {
            assert(rest[j] == types[j]);
        }
        lemma_pair_source(reg, slots, item, ty, label, rest, i)
    } else {
        let j = i - before.len();
        let tails = captures::label_fits(reg, slots, label, last, item);
        let head = captures::type_fit(ty, last)->0;
        assert(types[types.len() - 1] == last);
        assert(got[i] == head + tails[j]);
        let t = lemma_source(reg, slots, label, last, item, j);
        lemma_type_fit(ty, last);
        lemma_headed(reg, slots, ty, label, t, head, tails[j]);
        t
    }
}

/// The place of what a pair of patterns captures from a tag.
proof fn lemma_pair_place(
    reg: Seq<TagFnModel>,
    slots: Seq<TimeSlots>,
    item: Item,
    ty: PatternModel,
    label: PatternModel,
    types: Seq<TagTypeModel>,
    t: TagModel,
    c: Seq<Seq<char>>,
    x: int,
) -> (i: int)
    requires
        item.tags@.contains(t),
        0 <= x < types.len(),
        types[x] == t.tag_type,
        captures::type_fit(ty, t.tag_type) is Some,
        takes_label(reg, slots, label, t, c),
    ensures
        0 <= i < captures::pair_hits(reg, slots, item, ty, label, types).len(),
        takes_pair(
            reg,
            slots,
            ty,
            label,
            t,
            captures::pair_hits(reg, slots, item, ty, label, types)[i],
        ),
    decreases types.len(),
{
    let rest = types.drop_last();
    let before = captures::pair_hits(reg, slots, item, ty, label, rest);
    let got = captures::pair_hits(reg, slots, item, ty, label, types);
    if x < rest.len() {
        let i = lemma_pair_place(reg, slots, item, ty, label, rest, t, c, x);
        assert(got[i] == before[i]);
        i
    } else {
        let j = lemma_place(reg, slots, label, item, t, c);
        let tails = captures::label_fits(reg, slots, label, t.tag_type, item);
        let head = captures::type_fit(ty, t.tag_type)->0;
        assert(got[before.len() + j] == head + tails[j]);
        lemma_type_fit(ty, t.tag_type);
        lemma_headed(reg, slots, ty, label, t, head, tails[j]);
        before.len() + j
    }
}

/// As many pieces are taken as a pattern has numbers.
proof fn lemma_taken_len(p: PatternModel, text: Seq<char>, c: Seq<Seq<char>>)
    requires
        well_numbered(p),
        takes(p, text, c),
    ensures
        c.len() == p.numbered().len(),
{
    if let PatternModel::Glob { text: pattern, .. } = p {
        glob_capture::law_one_capture_per_metachar(glob_capture::lexed(pattern), text, c);
    }
}

proof fn lemma_label_len(
    reg: Seq<TagFnModel>,
    slots: Seq<TimeSlots>,
    p: PatternModel,
    t: TagModel,
    c: Seq<Seq<char>>,
)
    requires
        well_numbered(p),
        takes_label(reg, slots, p, t, c),
    ensures
        c.len() == p.numbered().len(),
{
    if p is Glob && t.value is Integer && read_as(reg, t.tag_type) == Some(Reading::Time) {
        let texts = tag::written_times(slots, t.value->Integer_0);
        let k = choose|k: int|
            0 <= k < texts.len() && takes(p, #[trigger] texts[k], c) && forall|j: int, o: Seq<
                Seq<char>,
            >| 0 <= j < k ==> !#[trigger] takes(p, texts[j], o);
        lemma_taken_len(p, texts[k], c);
    } else {
        lemma_taken_len(p, t.value.shown(), c);
    }
}

proof fn lemma_zipped(numbers: Seq<usize>, c: Seq<Seq<char>>)
    requires
        numbers.len() == c.len(),
    ensures
        binds(captures::zipped(numbers, c), numbers, c),
{
}

/// For a bare pattern, every tag of the item whose label the pattern stands for gives a binding
/// that holds what its metacharacters stand for in that label.
pub proof fn law_matching_labels_are_bound(
    reg: Seq<TagFnModel>,
    slots: Seq<TimeSlots>,
    item: Item,
    p: PatternModel,
    t: TagModel,
    caps: Seq<Seq<char>>,
)
    requires
        well_numbered(p),
        item.tags@.contains(t),
        takes_label(reg, slots, p, t, caps),
    ensures
        exists|i: int, c: Seq<Seq<char>>|
            0 <= i < captures::hits(reg, slots, item, UnitModel::Label(p)).len() && takes_label(
                reg,
                slots,
                p,
                t,
                c,
            ) && #[trigger] binds(
                captures::hits(reg, slots, item, UnitModel::Label(p))[i],
                p.numbered(),
                c,
            ),
{
    let types = captures::types_known(reg, item);
    let k = choose|k: int| 0 <= k < item.tags@.len() && item.tags@[k] == t;
    assert(item.tags@[k].tag_type == t.tag_type);
    lemma_known(reg, item, t.tag_type);
    let raw = captures::label_hits(reg, slots, item, p, types);
    let x = choose|x: int| 0 <= x < types.len() && types[x] == t.tag_type;
    let i = lemma_label_place(reg, slots, item, p, types, t, caps, x);
    let got = captures::hits(reg, slots, item, UnitModel::Label(p));
    assert(got[i] == captures::zipped(p.numbered(), raw[i]));
    lemma_label_len(reg, slots, p, t, raw[i]);
    lemma_zipped(p.numbered(), raw[i]);
    assert(binds(got[i], p.numbered(), raw[i]));
}

/// Each binding that a bare pattern offers holds what the pattern takes from the label of one of
/// the tags, and the binding without any value is offered alone, and only where the pattern
/// stands for no label of the item.
pub proof fn law_bindings_of_labels_match(
    reg: Seq<TagFnModel>,
    slots: Seq<TimeSlots>,
    item: Item,
    p: PatternModel,
    i: int,
)
    requires
        well_numbered(p),
        0 <= i < captures::hits(reg, slots, item, UnitModel::Label(p)).len(),
    ensures
        ({
            let got = captures::hits(reg, slots, item, UnitModel::Label(p));
            ||| exists|t: TagModel, c: Seq<Seq<char>>|
                looked_in(reg, item, p, t) && #[trigger] takes_label(reg, slots, p, t, c) && binds(
                    got[i],
                    p.numbered(),
                    c,
                )
            ||| {
                &&& got.len() == 1 && got[0].len() == 0
                &&& forall|t: TagModel, c: Seq<Seq<char>>|
                    item.tags@.contains(t) ==> !#[trigger] takes_label(reg, slots, p, t, c)
            }
        }),
{
    let types = captures::types_known(reg, item);
    let raw = captures::label_hits(reg, slots, item, p, types);
    let got = captures::hits(reg, slots, item, UnitModel::Label(p));
    if raw.len() == 0 {
        assert forall|t: TagModel, c: Seq<Seq<char>>| item.tags@.contains(t) implies !#[trigger]
        takes_label(reg, slots, p, t, c) by {
            if takes_label(reg, slots, p, t, c) {
                let k = choose|k: int| 0 <= k < item.tags@.len() && item.tags@[k] == t;
                assert(item.tags@[k].tag_type == t.tag_type);
                lemma_known(reg, item, t.tag_type);
                let x = choose|x: int| 0 <= x < types.len() && types[x] == t.tag_type;
                let j = lemma_label_place(reg, slots, item, p, types, t, c, x);
            }
        }
    } else {
        let t = lemma_label_source(reg, slots, item, p, types, i);
        assert(got[i] == captures::zipped(p.numbered(), raw[i]));
        lemma_label_len(reg, slots, p, t, raw[i]);
        lemma_zipped(p.numbered(), raw[i]);
        assert(takes_label(reg, slots, p, t, raw[i]));
    }
}

/// For a pattern of a type, every known type whose name the pattern stands for gives a binding
/// that holds what its metacharacters stand for in the name.
pub proof fn law_matching_types_are_bound(
    reg: Seq<TagFnModel>,
    slots: Seq<TimeSlots>,
    item: Item,
    p: PatternModel,
    ty: TagTypeModel,
    caps: Seq<Seq<char>>,
)
    requires
        well_numbered(p),
        is_known(reg, item, ty),
        takes(p, ty.name(), caps),
    ensures
        exists|i: int, c: Seq<Seq<char>>|
            0 <= i < captures::hits(reg, slots, item, UnitModel::Type(p)).len() && takes(
                p,
                ty.name(),
                c,
            ) && #[trigger] binds(
                captures::hits(reg, slots, item, UnitModel::Type(p))[i],
                p.numbered(),
                c,
            ),
{
    let all = captures::types_known(reg, item);
    let f = |t: TagTypeModel| captures::type_fit(p, t) is Some;
    let types = captures::types_fitting(all, p);
    lemma_known(reg, item, ty);
    lemma_type_fit(p, ty);
    lemma_filter_has(all, f, ty);
    assert(types == all.filter(f));
    let i = choose|i: int| 0 <= i < types.len() && types[i] == ty;
    let c = captures::type_fit(p, ty)->0;
    let raw = captures::type_hits(p, types);
    assert(raw[i] == c);
    let got = captures::hits(reg, slots, item, UnitModel::Type(p));
    assert(got[i] == captures::zipped(p.numbered(), c));
    lemma_taken_len(p, ty.name(), c);
    lemma_zipped(p.numbered(), c);
    assert(binds(got[i], p.numbered(), c));
}

/// Each binding that a pattern of a type offers holds what the pattern takes from the name of a
/// known type, and the binding without any value is offered alone, and only where the pattern
/// stands for no known type.
pub proof fn law_bindings_of_types_match(
    reg: Seq<TagFnModel>,
    slots: Seq<TimeSlots>,
    item: Item,
    p: PatternModel,
    i: int,
)
    requires
        well_numbered(p),
        0 <= i < captures::hits(reg, slots, item, UnitModel::Type(p)).len(),
    ensures
        ({
            let got = captures::hits(reg, slots, item, UnitModel::Type(p));
            ||| exists|ty: TagTypeModel, c: Seq<Seq<char>>|
                is_known(reg, item, ty) && #[trigger] takes(p, ty.name(), c) && binds(
                    got[i],
                    p.numbered(),
                    c,
                )
            ||| {
                &&& got.len() == 1 && got[0].len() == 0
                &&& forall|ty: TagTypeModel, c: Seq<Seq<char>>|
                    is_known(reg, item, ty) ==> !#[trigger] takes(p, ty.name(), c)
            }
        }),
{
    let all = captures::types_known(reg, item);
    let f = |t: TagTypeModel| captures::type_fit(p, t) is Some;
    let types = captures::types_fitting(all, p);
    let raw = captures::type_hits(p, types);
    let got = captures::hits(reg, slots, item, UnitModel::Type(p));
    if raw.len() == 0 {
        assert forall|ty: TagTypeModel, c: Seq<Seq<char>>| is_known(reg, item, ty) implies !#[trigger]
        takes(p, ty.name(), c) by {
            lemma_known(reg, item, ty);
            lemma_type_fit(p, ty);
            lemma_filter_has(all, f, ty);
            if takes(p, ty.name(), c) {
                assert(types.contains(ty));
            }
        }
    } else {
        let ty = types[i];
        lemma_filter_has(all, f, ty);
        assert(types.contains(ty));
        lemma_known(reg, item, ty);
        lemma_type_fit(p, ty);
        let c = captures::type_fit(p, ty)->0;
        assert(raw[i] == c);
        assert(got[i] == captures::zipped(p.numbered(), c));
        lemma_taken_len(p, ty.name(), c);
        lemma_zipped(p.numbered(), c);
        assert(takes(p, ty.name(), c));
    }
}

/// For a pair of patterns, every tag of the item whose type and label they stand for gives a
/// binding that holds what their metacharacters stand for, those of the type first.
pub proof fn law_matching_pairs_are_bound(
    reg: Seq<TagFnModel>,
    slots: Seq<TimeSlots>,
    item: Item,
    ty: PatternModel,
    label: PatternModel,
    t: TagModel,
    head: Seq<Seq<char>>,
    tail: Seq<Seq<char>>,
)
    requires
        well_numbered(ty),
        well_numbered(label),
        item.tags@.contains(t),
        takes(ty, t.tag_type.name(), head),
        takes_label(reg, slots, label, t, tail),
    ensures
        exists|i: int, c: Seq<Seq<char>>|
            0 <= i < captures::hits(reg, slots, item, UnitModel::Pair { ty, label }).len()
                && takes_pair(reg, slots, ty, label, t, c) && #[trigger] binds(
                captures::hits(reg, slots, item, UnitModel::Pair { ty, label })[i],
                ty.numbered() + label.numbered(),
                c,
            ),
{
    let unit = UnitModel::Pair { ty, label };
    let all = captures::types_known(reg, item);
    let f = |x: TagTypeModel| captures::type_fit(ty, x) is Some;
    let types = captures::types_fitting(all, ty);
    let k = choose|k: int| 0 <= k < item.tags@.len() && item.tags@[k] == t;
    assert(item.tags@[k].tag_type == t.tag_type);
    lemma_known(reg, item, t.tag_type);
    lemma_type_fit(ty, t.tag_type);
    lemma_filter_has(all, f, t.tag_type);
    assert(types.contains(t.tag_type));
    let raw = captures::pair_hits(reg, slots, item, ty, label, types);
    let x = choose|x: int| 0 <= x < types.len() && types[x] == t.tag_type;
    let i = lemma_pair_place(reg, slots, item, ty, label, types, t, tail, x);
    let got = captures::hits(reg, slots, item, unit);
    assert(got[i] == captures::zipped(unit.numbered(), raw[i]));
    lemma_pair_len(reg, slots, ty, label, t, raw[i]);
    lemma_zipped(unit.numbered(), raw[i]);
    assert(binds(got[i], ty.numbered() + label.numbered(), raw[i]));
}

proof fn lemma_pair_len(
    reg: Seq<TagFnModel>,
    slots: Seq<TimeSlots>,
    ty: PatternModel,
    label: PatternModel,
    t: TagModel,
    c: Seq<Seq<char>>,
)
    requires
        well_numbered(ty),
        well_numbered(label),
        takes_pair(reg, slots, ty, label, t, c),
    ensures
        c.len() == ty.numbered().len() + label.numbered().len(),
{
    let k = choose|k: int|
        0 <= k <= c.len() && #[trigger] takes(ty, t.tag_type.name(), c.take(k)) && takes_label(
            reg,
            slots,
            label,
            t,
            c.skip(k),
        );
    lemma_taken_len(ty, t.tag_type.name(), c.take(k));
    lemma_label_len(reg, slots, label, t, c.skip(k));
}

/// Each binding that a pair of patterns offers holds what they take from the type and the label
/// of one and the same tag, and the binding without any value is offered alone, and only where
/// they stand for no tag of the item.
pub proof fn law_bindings_of_pairs_match(
    reg: Seq<TagFnModel>,
    slots: Seq<TimeSlots>,
    item: Item,
    ty: PatternModel,
    label: PatternModel,
    i: int,
)
    requires
        well_numbered(ty),
        well_numbered(label),
        0 <= i < captures::hits(reg, slots, item, UnitModel::Pair { ty, label }).len(),
    ensures
        ({
            let got = captures::hits(reg, slots, item, UnitModel::Pair { ty, label });
            ||| exists|t: TagModel, c: Seq<Seq<char>>|
                looked_in(reg, item, label, t) && #[trigger] takes_pair(
                    reg,
                    slots,
                    ty,
                    label,
                    t,
                    c,
                ) && binds(got[i], ty.numbered() + label.numbered(), c)
            ||| {
                &&& got.len() == 1 && got[0].len() == 0
                &&& forall|t: TagModel, c: Seq<Seq<char>>|
                    item.tags@.contains(t) ==> !#[trigger] takes_pair(
                        reg,
                        slots,
                        ty,
                        label,
                        t,
                        c,
                    )
            }
        }),
{
    let unit = UnitModel::Pair { ty, label };
    let all = captures::types_known(reg, item);
    let f = |x: TagTypeModel| captures::type_fit(ty, x) is Some;
    let types = captures::types_fitting(all, ty);
    assert forall|j: int| 0 <= j < types.len() implies captures::type_fit(
        ty,
        #[trigger] types[j],
    ) is Some by {
        lemma_filter_has(all, f, types[j]);
        assert(types.contains(types[j]));
    }
    let raw = captures::pair_hits(reg, slots, item, ty, label, types);
    let got = captures::hits(reg, slots, item, unit);
    if raw.len() == 0 {
        assert forall|t: TagModel, c: Seq<Seq<char>>| item.tags@.contains(t) implies !#[trigger]
        takes_pair(reg, slots, ty, label, t, c) by {
            if takes_pair(reg, slots, ty, label, t, c) {
                let k = choose|k: int| 0 <= k < item.tags@.len() && item.tags@[k] == t;
                assert(item.tags@[k].tag_type == t.tag_type);
                lemma_known(reg, item, t.tag_type);
                lemma_type_fit(ty, t.tag_type);
                lemma_filter_has(all, f, t.tag_type);
                assert(types.contains(t.tag_type));
                let k = choose|k: int|
                    0 <= k <= c.len() && #[trigger] takes(ty, t.tag_type.name(), c.take(k))
                        && takes_label(reg, slots, label, t, c.skip(k));
                let x = choose|x: int| 0 <= x < types.len() && types[x] == t.tag_type;
                let j = lemma_pair_place(
                    reg,
                    slots,
                    item,
                    ty,
                    label,
                    types,
                    t,
                    c.skip(k),
                    x,
                );
            }
        }
    } else {
        let t = lemma_pair_source(reg, slots, item, ty, label, types, i);
        assert(got[i] == captures::zipped(unit.numbered(), raw[i]));
        lemma_pair_len(reg, slots, ty, label, t, raw[i]);
        lemma_zipped(unit.numbered(), raw[i]);
        assert(takes_pair(reg, slots, ty, label, t, raw[i]));
    }
}

/// The bindings that the units of a search offer for an item.
pub open spec fn offered(
    reg: Seq<TagFnModel>,
    slots: Seq<TimeSlots>,
    item: Item,
    units: Seq<UnitModel>,
) -> Seq<Seq<Seq<(usize, Seq<char>)>>> {
    units.map_values(|u: UnitModel| captures::hits(reg, slots, item, u))
}

/// Whether one binding is chosen of each list.
pub open spec fn is_choice(lists: Seq<Seq<Seq<(usize, Seq<char>)>>>, choice: Seq<int>) -> bool {
    choice.len() == lists.len() && forall|u: int|
        0 <= u < lists.len() ==> 0 <= #[trigger] choice[u] < lists[u].len()
}

/// Whether a number has a text in one of the chosen bindings.
pub open spec fn is_bound(
    lists: Seq<Seq<Seq<(usize, Seq<char>)>>>,
    choice: Seq<int>,
    n: usize,
    v: Seq<char>,
) -> bool {
    exists|u: int| 0 <= u < lists.len() && (#[trigger] lists[u])[choice[u]].contains((n, v))
}

/// Whether a part is put in place of another: a text stays, and a reference becomes a text that
/// its number has.
pub open spec fn part_put(
    p: PartModel,
    out: PartModel,
    given: spec_fn(usize, Seq<char>) -> bool,
) -> bool {
    match (p, out) {
        (PartModel::Text(s), PartModel::Text(t)) => s == t,
        (PartModel::Braced(s), PartModel::Text(t)) => match text::parsed_usize(s) {
            Some(n) => given(n, t),
            None => false,
        },
        _ => false,
    }
}

pub open spec fn leaf_put(
    l: LeafModel,
    out: LeafModel,
    given: spec_fn(usize, Seq<char>) -> bool,
) -> bool {
    &&& out.quoted == l.quoted
    &&& out.parts.len() == l.parts.len()
    &&& forall|i: int|
        0 <= i < l.parts.len() ==> part_put(#[trigger] l.parts[i], out.parts[i], given)
}

/// Whether a pair is another with its references replaced by texts that their numbers have.
pub open spec fn pair_put(
    n: NodeModel,
    out: NodeModel,
    given: spec_fn(usize, Seq<char>) -> bool,
) -> bool {
    &&& leaf_put(n.tag_type, out.tag_type, given)
    &&& match (n.label, out.label) {
        (None, None) => true,
        (Some(l), Some(o)) => leaf_put(l, o, given),
        _ => false,
    }
}

/// Whether no two metacharacters of a search have the same number.
pub open spec fn numbers_differ(units: Seq<UnitModel>) -> bool {
    forall|u: int, w: int, i: int, j: int|
        #![trigger units[u].numbered()[i], units[w].numbered()[j]]
        0 <= u < units.len() && 0 <= w < units.len() && 0 <= i < units[u].numbered().len() && 0 <= j
            < units[w].numbered().len() && units[u].numbered()[i] == units[w].numbered()[j] ==> u
            == w && i == j
}

/// All chosen bindings, one after another.
spec fn flat(lists: Seq<Seq<Seq<(usize, Seq<char>)>>>, choice: Seq<int>) -> Seq<
    (usize, Seq<char>),
>
    decreases lists.len(),
{
    if lists.len() == 0 {
        seq![]
    } else {
        flat(lists.drop_last(), choice.drop_last()) + lists.last()[choice.last()]
    }
}

proof fn lemma_crossed_place(
    acc: Seq<Seq<(usize, Seq<char>)>>,
    more: Seq<Seq<(usize, Seq<char>)>>,
    a: int,
    m: int,
) -> (i: int)
    requires
        0 <= a < acc.len(),
        0 <= m < more.len(),
    ensures
        0 <= i < captures::crossed(acc, more).len(),
        captures::crossed(acc, more)[i] == acc[a] + more[m],
    decreases acc.len(),
{
    let rest = acc.drop_last();
    let before = captures::crossed(rest, more);
    if a < rest.len() {
        let i = lemma_crossed_place(rest, more, a, m);
        assert(captures::crossed(acc, more)[i] == before[i]);
        i
    } else {
        assert(acc.last() == acc[a]);
        assert(captures::crossed(acc, more)[before.len() + m] == acc[a] + more[m]);
        before.len() + m
    }
}

proof fn lemma_crossed_source(
    acc: Seq<Seq<(usize, Seq<char>)>>,
    more: Seq<Seq<(usize, Seq<char>)>>,
    i: int,
) -> (r: (int, int))
    requires
        0 <= i < captures::crossed(acc, more).len(),
    ensures
        0 <= r.0 < acc.len(),
        0 <= r.1 < more.len(),
        captures::crossed(acc, more)[i] == acc[r.0] + more[r.1],
    decreases acc.len(),
{
    let rest = acc.drop_last();
    let before = captures::crossed(rest, more);
    if i < before.len() {
        let r = lemma_crossed_source(rest, more, i);
        assert(captures::crossed(acc, more)[i] == before[i]);
        assert(rest[r.0] == acc[r.0]);
        r
    } else {
        let m = i - before.len();
        assert(acc.last() == acc[acc.len() - 1]);
        assert(captures::crossed(acc, more)[i] == acc.last() + more[m]);
        (acc.len() - 1, m)
    }
}

proof fn lemma_combined_place(
    lists: Seq<Seq<Seq<(usize, Seq<char>)>>>,
    choice: Seq<int>,
) -> (i: int)
    requires
        is_choice(lists, choice),
    ensures
        0 <= i < captures::combined(lists).len(),
        captures::combined(lists)[i] == flat(lists, choice),
    decreases lists.len(),
{
    if lists.len() == 0 {
        0
    } else {
        let rest = lists.drop_last();
        let c = choice.drop_last();
        assert forall|u: int| 0 <= u < rest.len() implies 0 <= #[trigger] c[u] < rest[u].len() by {
            assert(c[u] == choice[u]);
        }
        let a = lemma_combined_place(rest, c);
        let n = lists.len() - 1;
        assert(0 <= choice[n] < lists[n].len());
        lemma_crossed_place(captures::combined(rest), lists.last(), a, choice.last())
    }
}

proof fn lemma_combined_source(lists: Seq<Seq<Seq<(usize, Seq<char>)>>>, i: int) -> (choice: Seq<
    int,
>)
    requires
        0 <= i < captures::combined(lists).len(),
    ensures
        is_choice(lists, choice),
        captures::combined(lists)[i] == flat(lists, choice),
    decreases lists.len(),
{
    if lists.len() == 0 {
        seq![]
    } else {
        let rest = lists.drop_last();
        let r = lemma_crossed_source(captures::combined(rest), lists.last(), i);
        let c = lemma_combined_source(rest, r.0);
        let choice = c.push(r.1);
        assert(choice.drop_last() =~= c);
        assert forall|u: int| 0 <= u < lists.len() implies 0 <= #[trigger] choice[u]
            < lists[u].len() by {
            if u < rest.len() {
                assert(choice[u] == c[u]);
                assert(rest[u] == lists[u]);
            }
        }
        choice
    }
}

proof fn lemma_flat_has(
    lists: Seq<Seq<Seq<(usize, Seq<char>)>>>,
    choice: Seq<int>,
    n: usize,
    v: Seq<char>,
)
    requires
        is_choice(lists, choice),
    ensures
        flat(lists, choice).contains((n, v)) <==> is_bound(lists, choice, n, v),
    decreases lists.len(),
{
    if lists.len() > 0 {
        let rest = lists.drop_last();
        let c = choice.drop_last();
        let k = lists.len() - 1;
        assert forall|u: int| 0 <= u < rest.len() implies 0 <= #[trigger] c[u] < rest[u].len() by {
            assert(c[u] == choice[u]);
        }
        lemma_flat_has(rest, c, n, v);
        let before = flat(rest, c);
        let more = lists.last()[choice.last()];
        let all = flat(lists, choice);
        assert(all == before + more);
        assert(lists[k] == lists.last() && choice[k] == choice.last());
        if all.contains((n, v)) {
            let i = choose|i: int| 0 <= i < all.len() && all[i] == (n, v);
            if i < before.len() {
                assert(before[i] == (n, v));
                let u = choose|u: int|
                    0 <= u < rest.len() && (#[trigger] rest[u])[c[u]].contains((n, v));
                assert(lists[u][choice[u]].contains((n, v)));
            } else {
                assert(more[i - before.len()] == (n, v));
                assert(lists[k][choice[k]].contains((n, v)));
            }
        }
        if is_bound(lists, choice, n, v) {
            let u = choose|u: int|
                0 <= u < lists.len() && (#[trigger] lists[u])[choice[u]].contains((n, v));
            if u < rest.len() {
                assert(rest[u][c[u]].contains((n, v)));
                let i = choose|i: int| 0 <= i < before.len() && before[i] == (n, v);
                assert(all[i] == (n, v));
            } else {
                let i = choose|i: int| 0 <= i < more.len() && more[i] == (n, v);
                assert(all[before.len() + i] == (n, v));
            }
        }
    }
}

proof fn lemma_bound(b: Seq<(usize, Seq<char>)>, n: usize, v: Seq<char>)
    ensures
        captures::bound(b, n) == Some(v) ==> b.contains((n, v)),
        b.contains((n, v)) ==> captures::bound(b, n) is Some,
        captures::bound(b, n) matches Some(w) ==> b.contains((n, w)),
    decreases b.len(),
{
    if b.len() > 0 {
        let rest = b.drop_last();
        lemma_bound(rest, n, v);
        assert(b[b.len() - 1] == b.last());
        if let Some(w) = captures::bound(rest, n) {
            lemma_bound(rest, n, w);
            let i = choose|i: int| 0 <= i < rest.len() && rest[i] == (n, w);
            assert(b[i] == (n, w));
        }
        if b.contains((n, v)) && b.last() != (n, v) {
            let i = choose|i: int| 0 <= i < b.len() && b[i] == (n, v);
            assert(rest[i] == (n, v));
        }
        if rest.contains((n, v)) {
            let i = choose|i: int| 0 <= i < rest.len() && rest[i] == (n, v);
            assert(b[i] == (n, v));
        }
    }
}

/// Whether a number has a text in a binding.
spec fn has_pair(b: Seq<(usize, Seq<char>)>) -> spec_fn(usize, Seq<char>) -> bool {
    |n: usize, v: Seq<char>| b.contains((n, v))
}

proof fn lemma_parts_filled(ps: Seq<PartModel>, b: Seq<(usize, Seq<char>)>)
    ensures
        captures::parts_filled(ps, b) matches Some(o) ==> o.len() == ps.len() && forall|i: int|
            0 <= i < ps.len() ==> part_put(#[trigger] ps[i], o[i], has_pair(b)),
    decreases ps.len(),
{
    if ps.len() > 0 {
        let rest = ps.drop_last();
        lemma_parts_filled(rest, b);
        if let Some(o) = captures::parts_filled(ps, b) {
            let before = captures::parts_filled(rest, b)->0;
            assert forall|i: int| 0 <= i < ps.len() implies part_put(
                #[trigger] ps[i],
                o[i],
                has_pair(b),
            ) by {
                if i < rest.len() {
                    assert(ps[i] == rest[i] && o[i] == before[i]);
                } else {
                    assert(ps[i] == ps.last());
                    if let PartModel::Braced(s) = ps.last() {
                        let n = text::parsed_usize(s)->0;
                        lemma_bound(b, n, captures::bound(b, n)->0);
                    }
                }
            }
        }
    }
}

proof fn lemma_fills_parts(ps: Seq<PartModel>, o: Seq<PartModel>, b: Seq<(usize, Seq<char>)>)
    requires
        o.len() == ps.len(),
        forall|i: int| 0 <= i < ps.len() ==> part_put(#[trigger] ps[i], o[i], has_pair(b)),
        forall|n: usize, v: Seq<char>, w: Seq<char>|
            #![trigger b.contains((n, v)), b.contains((n, w))]
            b.contains((n, v)) && b.contains((n, w)) ==> v == w,
    ensures
        captures::parts_filled(ps, b) == Some(o),
    decreases ps.len(),
{
    if ps.len() > 0 {
        let rest = ps.drop_last();
        let ro = o.drop_last();
        assert forall|i: int| 0 <= i < rest.len() implies part_put(
            #[trigger] rest[i],
            ro[i],
            has_pair(b),
        ) by {
            assert(rest[i] == ps[i]);
        }
        lemma_fills_parts(rest, ro, b);
        let k = ps.len() - 1;
        assert(part_put(ps[k], o[k], has_pair(b)));
        if let PartModel::Braced(s) = ps[k] {
            let n = text::parsed_usize(s)->0;
            let v = o[k]->Text_0;
            lemma_bound(b, n, v);
            assert(captures::bound(b, n) == Some(v));
        }
        assert(ro.push(o[k]) =~= o);
    } else {
        assert(o =~= seq![]);
    }
}

proof fn lemma_materialised_place(
    nodes: Seq<NodeModel>,
    b: Seq<(usize, Seq<char>)>,
    k: int,
    out: NodeModel,
)
    requires
        0 <= k < nodes.len(),
        captures::node_filled(nodes[k], b) == Some(out),
    ensures
        captures::materialised(nodes, b).contains(out),
    decreases nodes.len(),
{
    let rest = nodes.drop_last();
    let got = captures::materialised(nodes, b);
    let before = captures::materialised(rest, b);
    if k < rest.len() {
        assert(rest[k] == nodes[k]);
        lemma_materialised_place(rest, b, k, out);
        let i = choose|i: int| 0 <= i < before.len() && before[i] == out;
        assert(got[i] == out);
    } else {
        assert(got[got.len() - 1] == out);
    }
}

proof fn lemma_materialised_source(
    nodes: Seq<NodeModel>,
    b: Seq<(usize, Seq<char>)>,
    i: int,
) -> (k: int)
    requires
        0 <= i < captures::materialised(nodes, b).len(),
    ensures
        0 <= k < nodes.len(),
        captures::node_filled(nodes[k], b) == Some(captures::materialised(nodes, b)[i]),
    decreases nodes.len(),
{
    let rest = nodes.drop_last();
    let before = captures::materialised(rest, b);
    if i < before.len() {
        let k = lemma_materialised_source(rest, b, i);
        assert(rest[k] == nodes[k]);
        k
    } else {
        nodes.len() - 1
    }
}

proof fn lemma_with_new_has(out: Seq<NodeModel>, more: Seq<NodeModel>, x: NodeModel)
    ensures
        captures::with_new(out, more).contains(x) <==> out.contains(x) || more.contains(x),
    decreases more.len(),
{
    if more.len() > 0 {
        let rest = more.drop_last();
        lemma_with_new_has(out, rest, x);
        let before = captures::with_new(out, rest);
        let got = captures::with_new(out, more);
        assert(more[more.len() - 1] == more.last());
        if rest.contains(x) {
            let i = choose|i: int| 0 <= i < rest.len() && rest[i] == x;
            assert(more[i] == x);
        }
        if more.contains(x) && x != more.last() {
            let i = choose|i: int| 0 <= i < more.len() && more[i] == x;
            assert(rest[i] == x);
        }
        if !before.contains(more.last()) {
            assert(got[got.len() - 1] == more.last());
            if before.contains(x) {
                let i = choose|i: int| 0 <= i < before.len() && before[i] == x;
                assert(got[i] == x);
            }
            if got.contains(x) && x != more.last() {
                let i = choose|i: int| 0 <= i < got.len() && got[i] == x;
                assert(before[i] == x);
            }
        }
    }
}

proof fn lemma_expanded_place(
    nodes: Seq<NodeModel>,
    bs: Seq<Seq<(usize, Seq<char>)>>,
    j: int,
    x: NodeModel,
)
    requires
        0 <= j < bs.len(),
        captures::materialised(nodes, bs[j]).contains(x),
    ensures
        captures::expanded(nodes, bs).contains(x),
    decreases bs.len(),
{
    let rest = bs.drop_last();
    lemma_with_new_has(
        captures::expanded(nodes, rest),
        captures::materialised(nodes, bs.last()),
        x,
    );
    if j < rest.len() {
        assert(rest[j] == bs[j]);
        lemma_expanded_place(nodes, rest, j, x);
    }
}

proof fn lemma_expanded_source(
    nodes: Seq<NodeModel>,
    bs: Seq<Seq<(usize, Seq<char>)>>,
    x: NodeModel,
) -> (j: int)
    requires
        captures::expanded(nodes, bs).contains(x),
    ensures
        0 <= j < bs.len(),
        captures::materialised(nodes, bs[j]).contains(x),
    decreases bs.len(),
{
    let rest = bs.drop_last();
    lemma_with_new_has(
        captures::expanded(nodes, rest),
        captures::materialised(nodes, bs.last()),
        x,
    );
    if captures::materialised(nodes, bs.last()).contains(x) {
        bs.len() - 1
    } else {
        let j = lemma_expanded_source(nodes, rest, x);
        assert(rest[j] == bs[j]);
        j
    }
}

/// The bindings chosen of the units that are referred to, for a choice of all.
proof fn lemma_axis_choice(
    reg: Seq<TagFnModel>,
    slots: Seq<TimeSlots>,
    item: Item,
    units: Seq<UnitModel>,
    refs: Seq<Seq<char>>,
    choice: Seq<int>,
) -> (c: Seq<int>)
    requires
        is_choice(offered(reg, slots, item, units), choice),
    ensures
        is_choice(offered(reg, slots, item, captures::axes_of(units, refs)), c),
        forall|n: usize, v: Seq<char>| #[trigger]
            is_bound(offered(reg, slots, item, captures::axes_of(units, refs)), c, n, v) <==> exists|
                u: int,
            |
                0 <= u < units.len() && captures::is_axis(#[trigger] units[u], refs)
                    && captures::hits(reg, slots, item, units[u])[choice[u]].contains((n, v)),
    decreases units.len(),
{
    reveal(Seq::filter);
    if units.len() == 0 {
        seq![]
    } else {
        let rest = units.drop_last();
        let last = units.last();
        let k = units.len() - 1;
        let r = choice.drop_last();
        let all = offered(reg, slots, item, units);
        assert forall|u: int| 0 <= u < rest.len() implies 0 <= #[trigger] r[u] < offered(
            reg,
            slots,
            item,
            rest,
        )[u].len() by {
            assert(r[u] == choice[u]);
            assert(0 <= choice[u] < all[u].len());
        }
        let before = lemma_axis_choice(reg, slots, item, rest, refs, r);
        let axes = captures::axes_of(rest, refs);
        let old_lists = offered(reg, slots, item, axes);
        let now = captures::axes_of(units, refs);
        let lists = offered(reg, slots, item, now);
        assert(units[k] == last);
        assert(forall|u: int| 0 <= u < rest.len() ==> #[trigger] rest[u] == units[u]);
        if captures::is_axis(last, refs) {
            let c = before.push(choice[k]);
            assert(now == axes.push(last));
            assert(lists =~= old_lists.push(captures::hits(reg, slots, item, last)));
            assert forall|u: int| 0 <= u < lists.len() implies 0 <= #[trigger] c[u]
                < lists[u].len() by {
                if u < old_lists.len() {
                    assert(c[u] == before[u]);
                } else {
                    assert(0 <= choice[k] < all[k].len());
                }
            }
            assert forall|n: usize, v: Seq<char>| #[trigger] is_bound(lists, c, n, v) <==> exists|
                u: int,
            |
                0 <= u < units.len() && captures::is_axis(#[trigger] units[u], refs)
                    && captures::hits(reg, slots, item, units[u])[choice[u]].contains((n, v)) by {
                if is_bound(lists, c, n, v) {
                    let u = choose|u: int|
                        0 <= u < lists.len() && (#[trigger] lists[u])[c[u]].contains((n, v));
                    if u < old_lists.len() {
                        assert(old_lists[u][before[u]].contains((n, v)));
                        assert(is_bound(old_lists, before, n, v));
                        let w = choose|w: int|
                            0 <= w < rest.len() && captures::is_axis(#[trigger] rest[w], refs)
                                && captures::hits(reg, slots, item, rest[w])[r[w]].contains((n, v));
                        assert(captures::is_axis(units[w], refs));
                    } else {
                        assert(captures::is_axis(units[k], refs));
                    }
                }
                if exists|u: int|
                    0 <= u < units.len() && captures::is_axis(#[trigger] units[u], refs)
                        && captures::hits(reg, slots, item, units[u])[choice[u]].contains((n, v)) {
                    let u = choose|u: int|
                        0 <= u < units.len() && captures::is_axis(#[trigger] units[u], refs)
                            && captures::hits(reg, slots, item, units[u])[choice[u]].contains(
                            (n, v),
                        );
                    if u < rest.len() {
                        assert(captures::is_axis(rest[u], refs));
                        assert(is_bound(old_lists, before, n, v));
                        let w = choose|w: int|
                            0 <= w < old_lists.len() && (
                            #[trigger] old_lists[w])[before[w]].contains((n, v));
                        assert(lists[w][c[w]].contains((n, v)));
                    } else {
                        let w = old_lists.len() as int;
                        assert(lists[w][c[w]].contains((n, v)));
                    }
                }
            }
            c
        } else {
            assert(now == axes);
            assert forall|n: usize, v: Seq<char>| #[trigger]
                is_bound(lists, before, n, v) <==> exists|u: int|
                    0 <= u < units.len() && captures::is_axis(#[trigger] units[u], refs)
                        && captures::hits(reg, slots, item, units[u])[choice[u]].contains((n, v)) by {
                if is_bound(lists, before, n, v) {
                    let w = choose|w: int|
                        0 <= w < rest.len() && captures::is_axis(#[trigger] rest[w], refs)
                            && captures::hits(reg, slots, item, rest[w])[r[w]].contains((n, v));
                    assert(captures::is_axis(units[w], refs));
                }
                if exists|u: int|
                    0 <= u < units.len() && captures::is_axis(#[trigger] units[u], refs)
                        && captures::hits(reg, slots, item, units[u])[choice[u]].contains((n, v)) {
                    let u = choose|u: int|
                        0 <= u < units.len() && captures::is_axis(#[trigger] units[u], refs)
                            && captures::hits(reg, slots, item, units[u])[choice[u]].contains(
                            (n, v),
                        );
                    assert(captures::is_axis(rest[u], refs));
                }
            }
            before
        }
    }
}

/// A choice of all units for one of those that are referred to.
proof fn lemma_whole_choice(
    reg: Seq<TagFnModel>,
    slots: Seq<TimeSlots>,
    item: Item,
    units: Seq<UnitModel>,
    refs: Seq<Seq<char>>,
    c: Seq<int>,
) -> (choice: Seq<int>)
    requires
        is_choice(offered(reg, slots, item, captures::axes_of(units, refs)), c),
    ensures
        is_choice(offered(reg, slots, item, units), choice),
        forall|n: usize, v: Seq<char>| #[trigger]
            is_bound(offered(reg, slots, item, captures::axes_of(units, refs)), c, n, v)
                ==> is_bound(offered(reg, slots, item, units), choice, n, v),
    decreases units.len(),
{
    reveal(Seq::filter);
    if units.len() == 0 {
        seq![]
    } else {
        let rest = units.drop_last();
        let last = units.last();
        let axes = captures::axes_of(rest, refs);
        let now = captures::axes_of(units, refs);
        let lists = offered(reg, slots, item, now);
        let old_lists = offered(reg, slots, item, axes);
        let all = offered(reg, slots, item, units);
        let some = offered(reg, slots, item, rest);
        assert(all =~= some.push(captures::hits(reg, slots, item, last)));
        let axis = captures::is_axis(last, refs);
        let r = if axis {
            c.drop_last()
        } else {
            c
        };
        if axis {
            assert(now == axes.push(last));
            assert(lists =~= old_lists.push(captures::hits(reg, slots, item, last)));
        } else {
            assert(now == axes);
        }
        assert forall|u: int| 0 <= u < old_lists.len() implies 0 <= #[trigger] r[u]
            < old_lists[u].len() by {
            assert(r[u] == c[u]);
            assert(lists[u] == old_lists[u]);
        }
        let before = lemma_whole_choice(reg, slots, item, rest, refs, r);
        let choice = before.push(
            if axis {
                c.last()
            } else {
                0
            },
        );
        assert(captures::hits(reg, slots, item, last).len() > 0);
        if axis {
            let k = lists.len() - 1;
            assert(0 <= c[k] < lists[k].len());
        }
        assert forall|u: int| 0 <= u < all.len() implies 0 <= #[trigger] choice[u] < all[u].len() by {
            if u < some.len() {
                assert(choice[u] == before[u]);
            }
        }
        assert forall|n: usize, v: Seq<char>| #[trigger] is_bound(lists, c, n, v) implies is_bound(
            all,
            choice,
            n,
            v,
        ) by {
            let u = choose|u: int|
                0 <= u < lists.len() && (#[trigger] lists[u])[c[u]].contains((n, v));
            if u < old_lists.len() {
                assert(old_lists[u][r[u]].contains((n, v)));
                assert(is_bound(old_lists, r, n, v));
                let w = choose|w: int|
                    0 <= w < some.len() && (#[trigger] some[w])[before[w]].contains((n, v));
                assert(all[w][choice[w]].contains((n, v)));
            } else {
                let w = some.len() as int;
                assert(all[w][choice[w]].contains((n, v)));
            }
        }
        choice
    }
}

/// A pair of the result is a pair of the query with each reference replaced by a text that its
/// number has in bindings chosen one of each unit: no two references of a pair are taken from
/// different bindings of one unit.
pub proof fn law_filled_pairs_come_from_the_query(
    item: Item,
    nodes: Seq<NodeModel>,
    units: Seq<UnitModel>,
    reg: Seq<TagFnModel>,
    slots: Seq<TimeSlots>,
    i: int,
)
    requires
        0 <= i < captures::captures_applied(item, nodes, units, reg, slots).len(),
    ensures
        exists|choice: Seq<int>, k: int|
            0 <= k < nodes.len() && #[trigger] is_choice(offered(reg, slots, item, units), choice)
                && pair_put(
                #[trigger] nodes[k],
                captures::captures_applied(item, nodes, units, reg, slots)[i],
                |n: usize, v: Seq<char>|
                    is_bound(offered(reg, slots, item, units), choice, n, v),
            ),
{
    let refs = captures::refs_of(nodes);
    let axes = captures::axes_of(units, refs);
    let lists = offered(reg, slots, item, axes);
    let got = captures::captures_applied(item, nodes, units, reg, slots);
    let x = got[i];
    assert(got.contains(x));
    let bs = captures::combined(lists);
    let j = if axes.len() == 0 {
        0
    } else {
        lemma_expanded_source(nodes, bs, x)
    };
    let b = bs[j];
    assert(captures::materialised(nodes, b).contains(x)) by {
        if axes.len() == 0 {
            assert(lists.len() == 0);
            assert(bs =~= seq![seq![]]);
        }
    }
    let m = captures::materialised(nodes, b);
    let mi = choose|mi: int| 0 <= mi < m.len() && m[mi] == x;
    let k = lemma_materialised_source(nodes, b, mi);
    let c = lemma_combined_source(lists, j);
    let choice = lemma_whole_choice(reg, slots, item, units, refs, c);
    let all = offered(reg, slots, item, units);
    let given = |n: usize, v: Seq<char>| is_bound(all, choice, n, v);
    assert forall|n: usize, v: Seq<char>| b.contains((n, v)) implies #[trigger] given(n, v) by {
        lemma_flat_has(lists, c, n, v);
        assert(is_bound(lists, c, n, v));
    }
    lemma_node_put(nodes[k], x, b, given);
    assert(is_choice(all, choice));
}

proof fn lemma_node_put(
    n: NodeModel,
    x: NodeModel,
    b: Seq<(usize, Seq<char>)>,
    given: spec_fn(usize, Seq<char>) -> bool,
)
    requires
        captures::node_filled(n, b) == Some(x),
        forall|m: usize, v: Seq<char>| b.contains((m, v)) ==> #[trigger] given(m, v),
    ensures
        pair_put(n, x, given),
{
    lemma_parts_filled(n.tag_type.parts, b);
    assert forall|i: int| 0 <= i < n.tag_type.parts.len() implies part_put(
        #[trigger] n.tag_type.parts[i],
        x.tag_type.parts[i],
        given,
    ) by {
        assert(part_put(n.tag_type.parts[i], x.tag_type.parts[i], has_pair(b)));
    }
    if let Some(l) = n.label {
        lemma_parts_filled(l.parts, b);
        let o = x.label->0;
        assert forall|i: int| 0 <= i < l.parts.len() implies part_put(
            #[trigger] l.parts[i],
            o.parts[i],
            given,
        ) by {
            assert(part_put(l.parts[i], o.parts[i], has_pair(b)));
        }
    }
}

proof fn lemma_ref_in(parts: Seq<PartModel>, i: int)
    requires
        0 <= i < parts.len(),
        parts[i] is Braced,
    ensures
        captures::refs_in(parts).contains(parts[i]->Braced_0),
    decreases parts.len(),
{
    let rest = parts.drop_last();
    let got = captures::refs_in(parts);
    let before = captures::refs_in(rest);
    if i < rest.len() {
        assert(rest[i] == parts[i]);
        lemma_ref_in(rest, i);
        let k = choose|k: int| 0 <= k < before.len() && before[k] == parts[i]->Braced_0;
        assert(got[k] == before[k]);
    } else {
        assert(got[got.len() - 1] == parts[i]->Braced_0);
    }
}

proof fn lemma_ref_of(nodes: Seq<NodeModel>, k: int, s: Seq<char>)
    requires
        0 <= k < nodes.len(),
        captures::refs_of_node(nodes[k]).contains(s),
    ensures
        captures::refs_of(nodes).contains(s),
    decreases nodes.len(),
{
    let rest = nodes.drop_last();
    let before = captures::refs_of(rest);
    let more = captures::refs_of_node(nodes.last());
    let got = captures::refs_of(nodes);
    assert(got == before + more);
    if k < rest.len() {
        assert(rest[k] == nodes[k]);
        lemma_ref_of(rest, k, s);
        let j = choose|j: int| 0 <= j < before.len() && before[j] == s;
        assert(got[j] == s);
    } else {
        let j = choose|j: int| 0 <= j < more.len() && more[j] == s;
        assert(got[before.len() + j] == s);
    }
}

/// The place of a pair in a binding is that of its number among those of the unit.
proof fn lemma_hit_number(
    reg: Seq<TagFnModel>,
    slots: Seq<TimeSlots>,
    item: Item,
    unit: UnitModel,
    i: int,
    n: usize,
    v: Seq<char>,
) -> (k: int)
    requires
        0 <= i < captures::hits(reg, slots, item, unit).len(),
        captures::hits(reg, slots, item, unit)[i].contains((n, v)),
    ensures
        0 <= k < unit.numbered().len(),
        unit.numbered()[k] == n,
        k < captures::hits(reg, slots, item, unit)[i].len(),
        captures::hits(reg, slots, item, unit)[i][k] == (n, v),
{
    let b = captures::hits(reg, slots, item, unit)[i];
    let k = choose|k: int| 0 <= k < b.len() && b[k] == (n, v);
    let raw = captures::raw_hits(reg, slots, item, unit);
    if raw.len() == 0 {
        assert(b.len() == 0);
    } else {
        assert(b == captures::zipped(unit.numbered(), raw[i]));
    }
    k
}

proof fn lemma_leaf_bound(
    l: LeafModel,
    out: LeafModel,
    given: spec_fn(usize, Seq<char>) -> bool,
    b: Seq<(usize, Seq<char>)>,
    refs: Seq<Seq<char>>,
)
    requires
        leaf_put(l, out, given),
        forall|s: Seq<char>|
            captures::refs_in(l.parts).contains(s) ==> #[trigger] refs.contains(s),
        forall|n: usize, v: Seq<char>| #[trigger]
            given(n, v) && captures::refers_to(refs, n) ==> b.contains((n, v)),
        forall|n: usize, v: Seq<char>, w: Seq<char>|
            #![trigger b.contains((n, v)), b.contains((n, w))]
            b.contains((n, v)) && b.contains((n, w)) ==> v == w,
    ensures
        captures::leaf_filled(l, b) == Some(out),
{
    assert forall|i: int| 0 <= i < l.parts.len() implies part_put(
        #[trigger] l.parts[i],
        out.parts[i],
        has_pair(b),
    ) by {
        assert(part_put(l.parts[i], out.parts[i], given));
        if let PartModel::Braced(s) = l.parts[i] {
            lemma_ref_in(l.parts, i);
            assert(refs.contains(s));
            let j = choose|j: int| 0 <= j < refs.len() && refs[j] == s;
            let n = text::parsed_usize(s)->0;
            assert(text::parsed_usize(refs[j]) == Some(n));
            assert(captures::refers_to(refs, n));
            let t = out.parts[i]->Text_0;
            assert(given(n, t));
        }
    }
    lemma_fills_parts(l.parts, out.parts, b);
}

/// For bindings chosen one of each unit, every pair of the query whose references all have texts
/// there is in the result, with each reference replaced by the text of its number.
pub proof fn law_bound_pairs_are_filled(
    item: Item,
    nodes: Seq<NodeModel>,
    units: Seq<UnitModel>,
    reg: Seq<TagFnModel>,
    slots: Seq<TimeSlots>,
    choice: Seq<int>,
    k: int,
    out: NodeModel,
)
    requires
        numbers_differ(units),
        is_choice(offered(reg, slots, item, units), choice),
        0 <= k < nodes.len(),
        pair_put(
            nodes[k],
            out,
            |n: usize, v: Seq<char>| is_bound(offered(reg, slots, item, units), choice, n, v),
        ),
    ensures
        captures::captures_applied(item, nodes, units, reg, slots).contains(out),
{
    let refs = captures::refs_of(nodes);
    let axes = captures::axes_of(units, refs);
    let lists = offered(reg, slots, item, axes);
    let all = offered(reg, slots, item, units);
    let given = |n: usize, v: Seq<char>| is_bound(all, choice, n, v);
    let c = lemma_axis_choice(reg, slots, item, units, refs, choice);
    let b = flat(lists, c);
    assert forall|n: usize, v: Seq<char>| #[trigger] b.contains((n, v)) implies exists|u: int|
        0 <= u < units.len() && captures::is_axis(#[trigger] units[u], refs) && captures::hits(
            reg,
            slots,
            item,
            units[u],
        )[choice[u]].contains((n, v)) by {
        lemma_flat_has(lists, c, n, v);
        assert(is_bound(lists, c, n, v));
    }
    assert forall|n: usize, v: Seq<char>, w: Seq<char>|
        #![trigger b.contains((n, v)), b.contains((n, w))]
        b.contains((n, v)) && b.contains((n, w)) implies v == w by {
        let u1 = choose|u: int|
            0 <= u < units.len() && captures::is_axis(#[trigger] units[u], refs) && captures::hits(
                reg,
                slots,
                item,
                units[u],
            )[choice[u]].contains((n, v));
        let u2 = choose|u: int|
            0 <= u < units.len() && captures::is_axis(#[trigger] units[u], refs) && captures::hits(
                reg,
                slots,
                item,
                units[u],
            )[choice[u]].contains((n, w));
        assert(0 <= choice[u1] < all[u1].len());
        assert(0 <= choice[u2] < all[u2].len());
        let k1 = lemma_hit_number(reg, slots, item, units[u1], choice[u1], n, v);
        let k2 = lemma_hit_number(reg, slots, item, units[u2], choice[u2], n, w);
        assert(units[u1].numbered()[k1] == units[u2].numbered()[k2]);
    }
    assert forall|n: usize, v: Seq<char>| #[trigger]
        given(n, v) && captures::refers_to(refs, n) implies b.contains((n, v)) by {
        let u = choose|u: int| 0 <= u < all.len() && (#[trigger] all[u])[choice[u]].contains((n, v));
        assert(0 <= choice[u] < all[u].len());
        let j = lemma_hit_number(reg, slots, item, units[u], choice[u], n, v);
        assert(captures::refers_to(refs, units[u].numbered()[j]));
        assert(captures::is_axis(units[u], refs));
        assert(is_bound(lists, c, n, v));
        lemma_flat_has(lists, c, n, v);
    }
    let node = nodes[k];
    let own = captures::refs_of_node(node);
    assert forall|s: Seq<char>| captures::refs_in(
        node.tag_type.parts,
    ).contains(s) implies #[trigger] refs.contains(s) by {
        let r = captures::refs_in(node.tag_type.parts);
        let j = choose|j: int| 0 <= j < r.len() && r[j] == s;
        assert(own[j] == s);
        lemma_ref_of(nodes, k, s);
    }
    lemma_leaf_bound(node.tag_type, out.tag_type, given, b, refs);
    if let Some(l) = node.label {
        assert forall|s: Seq<char>| captures::refs_in(l.parts).contains(s) implies #[trigger]
        refs.contains(s) by {
            let r = captures::refs_in(l.parts);
            let j = choose|j: int| 0 <= j < r.len() && r[j] == s;
            assert(own[captures::refs_in(node.tag_type.parts).len() + j] == s);
            lemma_ref_of(nodes, k, s);
        }
        lemma_leaf_bound(l, out.label->0, given, b, refs);
    }
    assert(captures::node_filled(node, b) == Some(out));
    lemma_materialised_place(nodes, b, k, out);
    if axes.len() == 0 {
        assert(lists.len() == 0);
        assert(b =~= seq![]);
    } else {
        let bs = captures::combined(lists);
        let j = lemma_combined_place(lists, c);
        assert(bs[j] == b);
        lemma_expanded_place(nodes, bs, j, out);
    }
}

/// The numbers of a search start with one and go up by one, from left to right and the type of a
/// pair before its label: no two metacharacters have the same, and each pattern has one for each
/// of its own.
pub proof fn law_metachars_are_numbered_in_order(os: Seq<OperandModel>)
    requires
        1 + captures::taken_by_all(os) <= usize::MAX,
    ensures
        numbers_differ(captures::units_of(os)),
        forall|u: int|
            0 <= u < captures::units_of(os).len() ==> match #[trigger] captures::units_of(os)[u] {
                UnitModel::Pair { ty, label } => well_numbered(ty) && well_numbered(label),
                UnitModel::Type(p) => well_numbered(p),
                UnitModel::Label(p) => well_numbered(p),
            },
        forall|u: int, i: int|
            0 <= u < captures::units_of(os).len() && 0 <= i < captures::units_of(
                os,
            )[u].numbered().len() ==> #[trigger] captures::units_of(os)[u].numbered()[i] == 1
                + captures::taken_by_all(os.take(u)) + i,
    decreases os.len(),
{
    let units = captures::units_of(os);
    if os.len() > 0 {
        let rest = os.drop_last();
        law_metachars_are_numbered_in_order(rest);
        let before = captures::units_of(rest);
        lemma_units_len(rest);
        let k = os.len() - 1;
        assert(units == before.push(
            captures::unit_of(os.last(), 1 + captures::taken_by_all(rest)),
        ));
        assert(os.take(k) =~= rest);
        assert forall|u: int, i: int|
            0 <= u < units.len() && 0 <= i < units[u].numbered().len() implies #[trigger]
        units[u].numbered()[i] == 1 + captures::taken_by_all(os.take(u)) + i by {
            if u < k {
                assert(units[u] == before[u]);
                assert(before[u].numbered()[i] == 1 + captures::taken_by_all(rest.take(u)) + i);
                assert(rest.take(u) =~= os.take(u));
            }
        }
        assert forall|u: int| 0 <= u < units.len() implies match #[trigger] units[u] {
            UnitModel::Pair { ty, label } => well_numbered(ty) && well_numbered(label),
            UnitModel::Type(p) => well_numbered(p),
            UnitModel::Label(p) => well_numbered(p),
        } by {
            if u < k {
                assert(units[u] == before[u]);
            }
        }
        assert forall|u: int, w: int, i: int, j: int|
            #![trigger units[u].numbered()[i], units[w].numbered()[j]]
            0 <= u < units.len() && 0 <= w < units.len() && 0 <= i < units[u].numbered().len() && 0
                <= j < units[w].numbered().len() && units[u].numbered()[i]
                == units[w].numbered()[j] implies u == w && i == j by {
            lemma_units_len(os);
            if u < w {
                lemma_taken_before(os, u, w);
            }
            if w < u {
                lemma_taken_before(os, w, u);
            }
        }
    }
}

proof fn lemma_units_len(os: Seq<OperandModel>)
    ensures
        captures::units_of(os).len() == os.len(),
        forall|u: int|
            0 <= u < os.len() ==> (#[trigger] captures::units_of(os)[u]).numbered().len()
                == captures::taken_by_operand(os[u]),
    decreases os.len(),
{
    if os.len() > 0 {
        let rest = os.drop_last();
        lemma_units_len(rest);
        let before = captures::units_of(rest);
        let units = captures::units_of(os);
        assert forall|u: int| 0 <= u < os.len() implies (#[trigger] units[u]).numbered().len()
            == captures::taken_by_operand(os[u]) by {
            if u < rest.len() {
                assert(units[u] == before[u]);
                assert(rest[u] == os[u]);
            }
        }
    }
}

proof fn lemma_taken_before(os: Seq<OperandModel>, u: int, w: int)
    requires
        0 <= u < w <= os.len(),
    ensures
        captures::taken_by_all(os.take(u)) + captures::taken_by_operand(os[u])
            <= captures::taken_by_all(os.take(w)),
    decreases w - u,
{
    assert(os.take(w).drop_last() =~= os.take(w - 1));
    assert(os.take(w).last() == os[w - 1]);
    if u < w - 1 {
        lemma_taken_before(os, u, w - 1);
    }
}

} // verus!
