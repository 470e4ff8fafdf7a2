//! What a change of the kind of value of a type promises.
use crate::edit::cast;
use crate::edit::cast::TypeCastModel;
use crate::edit::modify;
use crate::edit::modify::NumberText;
use crate::edit::parse::{EditQuery, NodeModel};
use crate::edit::plan;
use crate::item::{Item, TagTypeModel};
use crate::tag;
use crate::tag::TypeConfig;
use crate::text;
use crate::types::{BiticalModel, BiticalType};
use vstd::prelude::*;

verus! {

/// A text that reads as a kind of value reads as a value of that kind. Any text reads as text, as
/// it is; a text reads as an integer exactly where it is written as one; the text of an integer
/// reads as that integer.
pub proof fn law_read_values_have_their_kind(
    s: Seq<char>,
    target: BiticalType,
    number: Option<(u64, Seq<char>)>,
    i: i64,
)
    ensures
        cast::read_value_as(s, target, number) matches Some(v) ==> v.kind() == target,
        cast::read_value_as(s, BiticalType::String, number) == Some(BiticalModel::String(s)),
        cast::read_value_as(s, BiticalType::Integer, number) is Some <==> text::parsed_i64(
            s,
        ) is Some,
        cast::read_value_as(text::int_text(i as int), BiticalType::Integer, number) == Some(
            BiticalModel::Integer(i),
        ),
        cast::read_value_as(s, BiticalType::Double, number) is Some <==> number is Some,
{
    text::law_show_parse_i64(i);
}

proof fn lemma_unreadable(
    labels: Seq<Seq<char>>,
    target: BiticalType,
    numbers: Seq<NumberText>,
    s: Seq<char>,
)
    ensures
        cast::unreadable(labels, target, numbers).contains(s) <==> labels.contains(s)
            && cast::read_value_as(s, target, modify::number_for(numbers, s)) is None,
    decreases labels.len(),
{
    reveal(Seq::filter);
    let p = |x: Seq<char>|
        cast::read_value_as(x, target, modify::number_for(numbers, x)) is None;
    if labels.len() > 0 {
        let rest = labels.drop_last();
        lemma_unreadable(rest, target, numbers, s);
        let f = rest.filter(p);
        let g = labels.filter(p);
        assert(labels[labels.len() - 1] == labels.last());
        if rest.contains(s) {
            let k = choose|k: int| 0 <= k < rest.len() && rest[k] == s;
            assert(labels[k] == s);
        }
        if labels.contains(s) && s != labels.last() {
            let k = choose|k: int| 0 <= k < labels.len() && labels[k] == s;
            assert(rest[k] == s);
        }
        if p(labels.last()) {
            assert(g == f.push(labels.last()));
            assert(g[g.len() - 1] == labels.last());
            if f.contains(s) {
                let k = choose|k: int| 0 <= k < f.len() && f[k] == s;
                assert(g[k] == s);
            }
            if g.contains(s) && s != labels.last() {
                let k = choose|k: int| 0 <= k < g.len() && g[k] == s;
                assert(f[k] == s);
            }
        }
    }
}

proof fn lemma_given(labels: Seq<Option<String>>, k: int)
    requires
        0 <= k < labels.len(),
        labels[k] is Some,
    ensures
        cast::given_labels(labels).contains((labels[k]->0)@),
    decreases labels.len(),
{
    let rest = labels.drop_last();
    let before = cast::given_labels(rest);
    let all = cast::given_labels(labels);
    if k < rest.len() {
        assert(rest[k] == labels[k]);
        lemma_given(rest, k);
        let i = choose|i: int| 0 <= i < before.len() && before[i] == (labels[k]->0)@;
        assert(all[i] == before[i]);
    } else {
        assert(all[all.len() - 1] == (labels[k]->0)@);
    }
}

/// Whether an edit asks that a type hold another kind of value: it is on the item of the type,
/// and a pair of it names the kind.
pub open spec fn asks_for_kind(e: (Item, Option<EditQuery>), ty: TagTypeModel, to: BiticalType) -> bool {
    &&& e.0.repr().len() == 1 && e.0.repr()[0].tag_type == TagTypeModel::Base(crate::col::Col::Type)
    &&& ty == TagTypeModel::named(e.0.repr()[0].value.shown())
    &&& e.1 matches Some(q) && exists|k: int|
        0 <= k < q@.len() && (#[trigger] q@[k]).tag_type.valued() == "bitical_type"@
            && q@[k].label is Some && BiticalType::named((q@[k].label->0).valued()) == Some(to)
}

spec fn sound_cast(
    edits: Seq<(Item, Option<EditQuery>)>,
    configs: Seq<TypeConfig>,
    c: TypeCastModel,
) -> bool {
    &&& c.from_type != c.to_type
    &&& c.to_type != BiticalType::Uuid
    &&& c.from_type == cast::current_kind(configs, c.tag_type.name())
    &&& exists|i: int|
        0 <= i < edits.len() && asks_for_kind(#[trigger] edits[i], c.tag_type, c.to_type)
}

proof fn lemma_node_casts(
    casts: Seq<TypeCastModel>,
    nodes: Seq<NodeModel>,
    name: Seq<char>,
    configs: Seq<TypeConfig>,
    i: int,
)
    requires
        cast::casts_of_nodes(casts, nodes, name, configs) is Ok,
        0 <= i < cast::casts_of_nodes(casts, nodes, name, configs)->Ok_0.len(),
    ensures
        ({
            let c = cast::casts_of_nodes(casts, nodes, name, configs)->Ok_0[i];
            ||| i < casts.len() && c == casts[i]
            ||| {
                &&& c.tag_type == TagTypeModel::named(name)
                &&& c.from_type != c.to_type && c.to_type != BiticalType::Uuid
                &&& c.from_type == cast::current_kind(configs, c.tag_type.name())
                &&& exists|k: int|
                    0 <= k < nodes.len() && (#[trigger] nodes[k]).tag_type.valued()
                        == "bitical_type"@ && nodes[k].label is Some && BiticalType::named(
                        (nodes[k].label->0).valued(),
                    ) == Some(c.to_type)
            }
        }),
    decreases nodes.len(),
{
    if nodes.len() > 0 {
        let rest = nodes.drop_last();
        let before = cast::casts_of_nodes(casts, rest, name, configs)->Ok_0;
        let all = cast::casts_of_nodes(casts, nodes, name, configs)->Ok_0;
        assert(nodes[nodes.len() - 1] == nodes.last());
        if i < before.len() {
            lemma_node_casts(casts, rest, name, configs, i);
            assert(all[i] == before[i]);
            let c = all[i];
            if !(i < casts.len() && c == casts[i]) {
                let k = choose|k: int|
                    0 <= k < rest.len() && (#[trigger] rest[k]).tag_type.valued()
                        == "bitical_type"@ && rest[k].label is Some && BiticalType::named(
                        (rest[k].label->0).valued(),
                    ) == Some(c.to_type);
                assert(nodes[k] == rest[k]);
            }
        }
    }
}

proof fn lemma_casts(edits: Seq<(Item, Option<EditQuery>)>, configs: Seq<TypeConfig>, i: int)
    requires
        cast::casts_of(edits, configs) is Ok,
        0 <= i < cast::casts_of(edits, configs)->Ok_0.len(),
    ensures
        sound_cast(edits, configs, cast::casts_of(edits, configs)->Ok_0[i]),
    decreases edits.len(),
{
    if edits.len() > 0 {
        let rest = edits.drop_last();
        let e = edits.last();
        let before = cast::casts_of(rest, configs)->Ok_0;
        let all = cast::casts_of(edits, configs)->Ok_0;
        let n = edits.len() - 1;
        assert(edits[n] == e);
        if e.1 is Some && cast::type_item(e.0) {
            let q = e.1->0;
            let name = e.0.repr()[0].value.shown();
            lemma_node_casts(before, q@, name, configs, i);
            if !(i < before.len() && all[i] == before[i]) {
                let c = all[i];
                let k = choose|k: int|
                    0 <= k < q@.len() && (#[trigger] q@[k]).tag_type.valued() == "bitical_type"@
                        && q@[k].label is Some && BiticalType::named((q@[k].label->0).valued())
                        == Some(c.to_type);
                assert(asks_for_kind(edits[n], c.tag_type, c.to_type));
            }
        }
        if i < before.len() && all[i] == before[i] {
            lemma_casts(rest, configs, i);
            let c = all[i];
            let k = choose|k: int|
                0 <= k < rest.len() && asks_for_kind(#[trigger] rest[k], c.tag_type, c.to_type);
            assert(edits[k] == rest[k]);
        }
    }
}

/// The kind of value of a type changes only where an edit of the item of the type asks for it,
/// to a kind that is another one and no UUID, and not for a type that is registered. Every label
/// that the type has reads as a value of the new kind.
pub proof fn law_types_change_only_as_asked(
    edits: Seq<(Item, Option<EditQuery>)>,
    configs: Seq<TypeConfig>,
    reg: Seq<tag::TagFnModel>,
    labels: Seq<Option<String>>,
    numbers: Seq<NumberText>,
    k: int,
)
    requires
        plan::cast_summarized(edits, configs, reg, labels, numbers) is Ok,
        plan::cast_summarized(edits, configs, reg, labels, numbers)->Ok_0 is Some,
    ensures
        ({
            let c = (plan::cast_summarized(edits, configs, reg, labels, numbers)->Ok_0)->0;
            &&& c.from_type != c.to_type
            &&& c.to_type != BiticalType::Uuid
            &&& c.from_type == cast::current_kind(configs, c.tag_type.name())
            &&& tag::find_fn(reg, c.tag_type.name()) is None
            &&& exists|i: int|
                0 <= i < edits.len() && asks_for_kind(#[trigger] edits[i], c.tag_type, c.to_type)
            &&& 0 <= k < labels.len() && labels[k] is Some ==> cast::read_value_as(
                (labels[k]->0)@,
                c.to_type,
                modify::number_for(numbers, (labels[k]->0)@),
            ) is Some
        }),
{
    lemma_casts(edits, configs, 0);
    let t = cast::cast_target_of(edits, configs, reg)->Ok_0->0;
    if 0 <= k < labels.len() && labels[k] is Some {
        let s = (labels[k]->0)@;
        lemma_given(labels, k);
        lemma_unreadable(cast::given_labels(labels), t.to_type, numbers, s);
        let bad = cast::unreadable(cast::given_labels(labels), t.to_type, numbers);
        assert(bad.len() == 0);
        assert(!bad.contains(s));
    }
}

} // verus!
