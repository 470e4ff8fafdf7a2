//! What an edit does to the tags of an item, told by which tags it has before and after.
use crate::col::Col;
use crate::edit::action::{ActionModel, OpModel, TargetModel};
use crate::edit::modify;
use crate::edit::modify::{DirectiveModel, ResolvedModel};
use crate::edit::QueryType;
use crate::item::{Item, TagModel, TagTypeModel};
use crate::tag;
use crate::tag::{EditStrategy, Reading, TagFnModel};
use crate::types::{BiticalModel, ItemId};
use vstd::prelude::*;

verus! {

/// Whether a target takes a tag away.
pub open spec fn takes_away(target: TargetModel, x: TagModel) -> bool {
    match target {
        TargetModel::Type(ty) => x.tag_type == ty,
        TargetModel::Tag(t) => x.same(t),
    }
}

/// Whether a tag is there after actions, by whether it was there before.
pub open spec fn there_after(before: bool, actions: Seq<ActionModel>, x: TagModel) -> bool
    decreases actions.len(),
{
    if actions.len() == 0 {
        before
    } else {
        let so_far = there_after(before, actions.drop_last(), x);
        match actions.last() {
            ActionModel::Add { tags, .. } => so_far || exists|i: int|
                0 <= i < tags.len() && (#[trigger] tags[i]).tag() == x,
            ActionModel::Delete { tags, .. } => so_far && forall|i: int|
                0 <= i < tags.len() ==> !takes_away(#[trigger] tags[i], x),
        }
    }
}

proof fn lemma_filter_has(s: Seq<TagModel>, p: spec_fn(TagModel) -> bool, x: TagModel)
    ensures
        s.filter(p).contains(x) <==> s.contains(x) && p(x),
    decreases s.len(),
{
    reveal(Seq::filter);
    if s.len() > 0 {
        let rest = s.drop_last();
        lemma_filter_has(rest, p, x);
        let f = rest.filter(p);
        let g = s.filter(p);
        assert(s[s.len() - 1] == s.last());
        if rest.contains(x) {
            let i = choose|i: int| 0 <= i < rest.len() && rest[i] == x;
            assert(s[i] == x);
        }
        if s.contains(x) && x != s.last() {
            let i = choose|i: int| 0 <= i < s.len() && s[i] == x;
            assert(rest[i] == x);
        }
        if p(s.last()) {
            assert(g == f.push(s.last()));
            assert(g[g.len() - 1] == s.last());
            if f.contains(x) {
                let i = choose|i: int| 0 <= i < f.len() && f[i] == x;
                assert(g[i] == x);
            }
            if g.contains(x) && x != s.last() {
                let i = choose|i: int| 0 <= i < g.len() && g[i] == x;
                assert(f[i] == x);
            }
        }
    }
}

proof fn lemma_after_targets(tags: Seq<TagModel>, targets: Seq<TargetModel>, x: TagModel)
    ensures
        modify::after_targets(tags, targets).contains(x) <==> tags.contains(x) && forall|i: int|
            0 <= i < targets.len() ==> !takes_away(#[trigger] targets[i], x),
    decreases targets.len(),
{
    if targets.len() > 0 {
        let rest = targets.drop_last();
        lemma_after_targets(tags, rest, x);
        let before = modify::after_targets(tags, rest);
        match targets.last() {
            TargetModel::Type(ty) => lemma_filter_has(before, |t: TagModel| t.tag_type != ty, x),
            TargetModel::Tag(d) => lemma_filter_has(before, |t: TagModel| !t.same(d), x),
        }
        assert(targets[targets.len() - 1] == targets.last());
        assert(forall|i: int| 0 <= i < rest.len() ==> #[trigger] rest[i] == targets[i]);
        if tags.contains(x) && forall|i: int|
            0 <= i < targets.len() ==> !takes_away(#[trigger] targets[i], x) {
            assert forall|i: int| 0 <= i < rest.len() implies !takes_away(#[trigger] rest[i], x) by {
                assert(!takes_away(targets[i], x));
            }
        }
        if modify::after_targets(tags, targets).contains(x) {
            assert forall|i: int| 0 <= i < targets.len() implies !takes_away(
                #[trigger] targets[i],
                x,
            ) by {
                if i < rest.len() {
                    assert(!takes_away(rest[i], x));
                }
            }
        }
    }
}

/// The tags after actions are those that were there and were not taken away since, and those
/// that were added and not taken away since.
pub proof fn law_actions_add_and_take_away(
    tags: Seq<TagModel>,
    actions: Seq<ActionModel>,
    x: TagModel,
)
    ensures
        modify::after_actions(tags, actions).contains(x) <==> there_after(
            tags.contains(x),
            actions,
            x,
        ),
    decreases actions.len(),
{
    if actions.len() > 0 {
        law_actions_add_and_take_away(tags, actions.drop_last(), x);
        let before = modify::after_actions(tags, actions.drop_last());
        match actions.last() {
            ActionModel::Add { tags: ops, .. } => {
                let more = ops.map_values(|o: OpModel| o.tag());
                let all = before + more;
                if all.contains(x) {
                    let i = choose|i: int| 0 <= i < all.len() && all[i] == x;
                    if i < before.len() {
                        assert(before[i] == x);
                    } else {
                        assert(ops[i - before.len()].tag() == x);
                    }
                }
                if before.contains(x) {
                    let i = choose|i: int| 0 <= i < before.len() && before[i] == x;
                    assert(all[i] == x);
                }
                if exists|i: int| 0 <= i < ops.len() && (#[trigger] ops[i]).tag() == x {
                    let i = choose|i: int| 0 <= i < ops.len() && (#[trigger] ops[i]).tag() == x;
                    assert(all[before.len() + i] == x);
                }
            },
            ActionModel::Delete { tags: targets, .. } => {
                lemma_after_targets(before, targets, x);
            },
        }
    }
}

proof fn lemma_there_after_more(
    before: bool,
    a: Seq<ActionModel>,
    b: Seq<ActionModel>,
    x: TagModel,
)
    ensures
        there_after(before, a + b, x) == there_after(there_after(before, a, x), b, x),
    decreases b.len(),
{
    if b.len() == 0 {
        assert(a + b =~= a);
    } else {
        assert((a + b).drop_last() =~= a + b.drop_last());
        lemma_there_after_more(before, a, b.drop_last(), x);
    }
}

proof fn lemma_one_action(before: bool, a: ActionModel, x: TagModel)
    ensures
        there_after(before, seq![a], x) == match a {
            ActionModel::Add { tags, .. } => before || exists|i: int|
                0 <= i < tags.len() && (#[trigger] tags[i]).tag() == x,
            ActionModel::Delete { tags, .. } => before && forall|i: int|
                0 <= i < tags.len() ==> !takes_away(#[trigger] tags[i], x),
        },
{
    assert(seq![a].drop_last() =~= Seq::empty());
    assert(there_after(before, Seq::empty(), x) == before);
}

/// Whether a pair to be taken away names a tag: its type and, where it has a label, its value.
pub open spec fn names_tag(n: ResolvedModel, x: TagModel) -> bool {
    &&& n.tag_type == x.tag_type
    &&& n.label matches Some(v) ==> x.value.same(v)
}

/// Whether a tag is what a pair sets: its type with its label, as the type reads it.
pub open spec fn is_set_by(n: ResolvedModel, reg: Seq<TagFnModel>, x: TagModel) -> bool {
    &&& n.tag_type == x.tag_type
    &&& n.label matches Some(v) && match tag::find_fn(reg, n.tag_type.name()) {
        Some(f) => tag::read_as(f.reading, v) == Some(x.value),
        None => x.value == v,
    }
}

/// Whether a pair is of a type that holds one value.
pub open spec fn holds_one(n: ResolvedModel, reg: Seq<TagFnModel>) -> bool {
    tag::find_fn(reg, n.tag_type.name()) matches Some(f) && f.edit matches Some(e) && e.strategy
        == EditStrategy::Replace
}

/// Whether a pair can be carried out on an item. Taking away needs a type that allows it; setting
/// needs a label that the type can read, and a type that takes values.
pub open spec fn can_be_done(n: ResolvedModel, qt: QueryType, reg: Seq<TagFnModel>) -> bool {
    match tag::find_fn(reg, n.tag_type.name()) {
        None => qt == QueryType::Tag ==> n.label is Some,
        Some(f) => match f.edit {
            None => false,
            Some(e) => if qt == QueryType::Untag {
                e.can_untag
            } else {
                &&& n.label matches Some(v) && (f.reading == Reading::Time ==> v is Integer)
                &&& e.strategy == EditStrategy::Append || e.strategy == EditStrategy::Replace
            },
        },
    }
}

/// What one pair does to whether a tag is there.
proof fn lemma_one_pair(
    n: ResolvedModel,
    qt: QueryType,
    reg: Seq<TagFnModel>,
    id: ItemId,
    tags: Seq<TagModel>,
    before: bool,
    x: TagModel,
)
    requires
        before ==> tags.contains(x) || qt == QueryType::Tag,
    ensures
        ({
            let done = modify::directed(n, qt, reg) is Ok && modify::directive_actions(
                modify::directed(n, qt, reg)->Ok_0,
                id,
                tags,
            ) is Ok;
            let actions = modify::directive_actions(
                modify::directed(n, qt, reg)->Ok_0,
                id,
                tags,
            )->Ok_0;
            &&& done <==> can_be_done(n, qt, reg)
            &&& done ==> there_after(before, actions, x) == if qt == QueryType::Untag {
                before && !names_tag(n, x)
            } else {
                (before && !(holds_one(n, reg) && n.tag_type == x.tag_type)) || is_set_by(
                    n,
                    reg,
                    x,
                )
            }
        }),
{
    if modify::directed(n, qt, reg) is Ok {
        let d = modify::directed(n, qt, reg)->Ok_0;
        if modify::directive_actions(d, id, tags) is Ok {
            let actions = modify::directive_actions(d, id, tags)->Ok_0;
            match d {
                DirectiveModel::Tag(t, s) => {
                    if s == EditStrategy::Append {
                        let ops = seq![OpModel::Append(t)];
                        let a = ActionModel::Add { item: id, tags: ops };
                        lemma_one_action(before, a, x);
                        assert(ops[0].tag() == t);
                        assert(actions =~= seq![a]);
                    } else {
                        let targets = seq![TargetModel::Type(t.tag_type)];
                        let ops = seq![OpModel::Replace(t)];
                        let a = ActionModel::Delete { item: id, tags: targets };
                        let b = ActionModel::Add { item: id, tags: ops };
                        assert(targets[0] == TargetModel::Type(t.tag_type));
                        assert(ops[0].tag() == t);
                        lemma_one_action(before, a, x);
                        let mid = there_after(before, seq![a], x);
                        assert(takes_away(targets[0], x) <==> x.tag_type == t.tag_type);
                        lemma_one_action(mid, b, x);
                        lemma_there_after_more(before, seq![a], seq![b], x);
                        assert(actions =~= seq![a] + seq![b]);
                    }
                },
                DirectiveModel::DeleteType(ty) => {
                    let targets = seq![TargetModel::Type(ty)];
                    let a = ActionModel::Delete { item: id, tags: targets };
                    assert(targets[0] == TargetModel::Type(ty));
                    assert(takes_away(targets[0], x) <==> x.tag_type == ty);
                    lemma_one_action(before, a, x);
                    assert(actions =~= seq![a]);
                },
                DirectiveModel::DeleteTag(t) => {
                    if modify::has_tag(tags, t) {
                        let targets = seq![TargetModel::Tag(t)];
                        let a = ActionModel::Delete { item: id, tags: targets };
                        assert(targets[0] == TargetModel::Tag(t));
                        assert(takes_away(targets[0], x) <==> x.same(t));
                        lemma_one_action(before, a, x);
                        assert(actions =~= seq![a]);
                    } else {
                        if before {
                            let i = choose|i: int| 0 <= i < tags.len() && tags[i] == x;
                            assert(!tags[i].same(t));
                        }
                    }
                },
            }
        }
    }
}

/// The actions of all pairs, for a stored item.
spec fn actions_of(
    nodes: Seq<ResolvedModel>,
    qt: QueryType,
    reg: Seq<TagFnModel>,
    id: ItemId,
    tags: Seq<TagModel>,
) -> Result<Seq<ActionModel>, crate::edit::error::EditErrorModel> {
    match modify::directed_all(nodes, qt, reg) {
        Err(e) => Err(e),
        Ok(ds) => modify::all_actions(ds, id, tags),
    }
}

proof fn lemma_directed_len(nodes: Seq<ResolvedModel>, qt: QueryType, reg: Seq<TagFnModel>)
    ensures
        modify::directed_all(nodes, qt, reg) matches Ok(ds) ==> ds.len() == nodes.len() && (
        nodes.len() > 0 ==> modify::directed_all(nodes.drop_last(), qt, reg) == Ok::<
            Seq<DirectiveModel>,
            crate::edit::error::EditErrorModel,
        >(ds.drop_last()) && modify::directed(nodes.last(), qt, reg) == Ok::<
            DirectiveModel,
            crate::edit::error::EditErrorModel,
        >(ds.last())),
    decreases nodes.len(),
{
    if nodes.len() > 0 {
        lemma_directed_len(nodes.drop_last(), qt, reg);
        if let Ok(ds) = modify::directed_all(nodes, qt, reg) {
            let done = modify::directed_all(nodes.drop_last(), qt, reg)->Ok_0;
            assert(ds.drop_last() =~= done);
        }
    }
}

proof fn lemma_actions_step(
    nodes: Seq<ResolvedModel>,
    qt: QueryType,
    reg: Seq<TagFnModel>,
    id: ItemId,
    tags: Seq<TagModel>,
)
    requires
        nodes.len() > 0,
        actions_of(nodes, qt, reg, id, tags) is Ok,
    ensures
        actions_of(nodes.drop_last(), qt, reg, id, tags) is Ok,
        modify::directed(nodes.last(), qt, reg) is Ok,
        modify::directive_actions(
            modify::directed(nodes.last(), qt, reg)->Ok_0,
            id,
            tags,
        ) is Ok,
        actions_of(nodes, qt, reg, id, tags)->Ok_0 == actions_of(
            nodes.drop_last(),
            qt,
            reg,
            id,
            tags,
        )->Ok_0 + modify::directive_actions(
            modify::directed(nodes.last(), qt, reg)->Ok_0,
            id,
            tags,
        )->Ok_0,
{
    lemma_directed_len(nodes, qt, reg);
}

/// What all pairs do to whether a tag is there.
proof fn lemma_pairs(
    nodes: Seq<ResolvedModel>,
    qt: QueryType,
    reg: Seq<TagFnModel>,
    id: ItemId,
    tags: Seq<TagModel>,
    x: TagModel,
)
    requires
        actions_of(nodes, qt, reg, id, tags) is Ok,
    ensures
        ({
            let after = there_after(
                tags.contains(x),
                actions_of(nodes, qt, reg, id, tags)->Ok_0,
                x,
            );
            &&& qt == QueryType::Untag ==> (after <==> tags.contains(x) && forall|i: int|
                0 <= i < nodes.len() ==> !names_tag(#[trigger] nodes[i], x))
            &&& qt == QueryType::Tag ==> {
                &&& after ==> tags.contains(x) || exists|i: int|
                    0 <= i < nodes.len() && is_set_by(#[trigger] nodes[i], reg, x)
                &&& tags.contains(x) && (forall|i: int|
                    0 <= i < nodes.len() ==> !(holds_one(#[trigger] nodes[i], reg)
                        && nodes[i].tag_type == x.tag_type)) ==> after
                &&& forall|i: int|
                    0 <= i < nodes.len() && is_set_by(#[trigger] nodes[i], reg, x) && (forall|
                        j: int,
                    |
                        i < j < nodes.len() ==> !(holds_one(#[trigger] nodes[j], reg)
                            && nodes[j].tag_type == x.tag_type)) ==> after
                &&& forall|i: int|
                    0 <= i < nodes.len() && holds_one(#[trigger] nodes[i], reg)
                        && nodes[i].tag_type == x.tag_type && after ==> exists|j: int|
                        i <= j < nodes.len() && is_set_by(#[trigger] nodes[j], reg, x)
            }
        }),
    decreases nodes.len(),
{
    if nodes.len() > 0 {
        let rest = nodes.drop_last();
        let n = nodes.last();
        let k = nodes.len() - 1;
        lemma_actions_step(nodes, qt, reg, id, tags);
        lemma_pairs(rest, qt, reg, id, tags, x);
        let a = actions_of(rest, qt, reg, id, tags)->Ok_0;
        let b = modify::directive_actions(modify::directed(n, qt, reg)->Ok_0, id, tags)->Ok_0;
        let mid = there_after(tags.contains(x), a, x);
        lemma_there_after_more(tags.contains(x), a, b, x);
        lemma_one_pair(n, qt, reg, id, tags, mid, x);
        let after = there_after(tags.contains(x), a + b, x);
        assert(nodes[k] == n);
        assert(forall|i: int| 0 <= i < rest.len() ==> #[trigger] rest[i] == nodes[i]);
        if qt == QueryType::Untag {
            if after {
                assert forall|i: int| 0 <= i < nodes.len() implies !names_tag(
                    #[trigger] nodes[i],
                    x,
                ) by {
                    if i < k {
                        assert(!names_tag(rest[i], x));
                    }
                }
            }
            if tags.contains(x) && forall|i: int|
                0 <= i < nodes.len() ==> !names_tag(#[trigger] nodes[i], x) {
                assert forall|i: int| 0 <= i < rest.len() implies !names_tag(
                    #[trigger] rest[i],
                    x,
                ) by {
                    assert(!names_tag(nodes[i], x));
                }
            }
        } else {
            if after && !is_set_by(n, reg, x) && !tags.contains(x) {
                let i = choose|i: int|
                    0 <= i < rest.len() && is_set_by(#[trigger] rest[i], reg, x);
                assert(is_set_by(nodes[i], reg, x));
            }
            if after && is_set_by(n, reg, x) {
                assert(is_set_by(nodes[k], reg, x));
            }
            if tags.contains(x) && forall|i: int|
                0 <= i < nodes.len() ==> !(holds_one(#[trigger] nodes[i], reg)
                    && nodes[i].tag_type == x.tag_type) {
                assert forall|i: int| 0 <= i < rest.len() implies !(holds_one(
                    #[trigger] rest[i],
                    reg,
                ) && rest[i].tag_type == x.tag_type) by {
                    assert(rest[i] == nodes[i]);
                }
                assert(!(holds_one(nodes[k], reg) && nodes[k].tag_type == x.tag_type));
            }
            assert forall|i: int|
                0 <= i < nodes.len() && is_set_by(#[trigger] nodes[i], reg, x) && (forall|j: int|
                    i < j < nodes.len() ==> !(holds_one(#[trigger] nodes[j], reg)
                        && nodes[j].tag_type == x.tag_type)) implies after by {
                if i < k {
                    assert(is_set_by(rest[i], reg, x));
                    assert forall|j: int| i < j < rest.len() implies !(holds_one(
                        #[trigger] rest[j],
                        reg,
                    ) && rest[j].tag_type == x.tag_type) by {
                        assert(rest[j] == nodes[j]);
                    }
                    assert(mid);
                    assert(!(holds_one(nodes[k], reg) && nodes[k].tag_type == x.tag_type));
                }
            }
            assert forall|i: int|
                0 <= i < nodes.len() && holds_one(#[trigger] nodes[i], reg) && nodes[i].tag_type
                    == x.tag_type && after implies exists|j: int|
                i <= j < nodes.len() && is_set_by(#[trigger] nodes[j], reg, x) by {
                if is_set_by(n, reg, x) {
                    assert(is_set_by(nodes[k], reg, x));
                } else if i < k {
                    assert(holds_one(rest[i], reg));
                    let j = choose|j: int|
                        i <= j < rest.len() && is_set_by(#[trigger] rest[j], reg, x);
                    assert(is_set_by(nodes[j], reg, x));
                }
            }
        }
    }
}

/// After tags are taken away from a stored item, it has exactly those of its tags that no pair
/// of the query names.
pub proof fn law_untagging_takes_what_is_named(
    item: Item,
    nodes: Seq<ResolvedModel>,
    reg: Seq<TagFnModel>,
    x: TagModel,
)
    requires
        item.id.stored(),
        modify::modified(item, nodes, QueryType::Untag, reg) is Ok,
    ensures
        there_after(
            item.tags@.contains(x),
            modify::modified(item, nodes, QueryType::Untag, reg)->Ok_0,
            x,
        ) <==> item.tags@.contains(x) && forall|i: int|
            0 <= i < nodes.len() ==> !names_tag(#[trigger] nodes[i], x),
{
    lemma_pairs(nodes, QueryType::Untag, reg, item.id, item.tags@, x);
}

/// After tags are set on a stored item, it has no tag that it did not have and that no pair set;
/// it keeps every tag but those of a type that holds one value and was set; it has what each
/// pair set, unless a later pair set another value of such a type; and of such a type it has
/// nothing that was not set.
pub proof fn law_tagging_sets_what_is_asked(
    item: Item,
    nodes: Seq<ResolvedModel>,
    reg: Seq<TagFnModel>,
    x: TagModel,
)
    requires
        item.id.stored(),
        modify::modified(item, nodes, QueryType::Tag, reg) is Ok,
    ensures
        ({
            let after = there_after(
                item.tags@.contains(x),
                modify::modified(item, nodes, QueryType::Tag, reg)->Ok_0,
                x,
            );
            &&& after ==> item.tags@.contains(x) || exists|i: int|
                0 <= i < nodes.len() && is_set_by(#[trigger] nodes[i], reg, x)
            &&& item.tags@.contains(x) && (forall|i: int|
                0 <= i < nodes.len() ==> !(holds_one(#[trigger] nodes[i], reg) && nodes[i].tag_type
                    == x.tag_type)) ==> after
            &&& forall|i: int|
                0 <= i < nodes.len() && is_set_by(#[trigger] nodes[i], reg, x) && (forall|j: int|
                    i < j < nodes.len() ==> !(holds_one(#[trigger] nodes[j], reg)
                        && nodes[j].tag_type == x.tag_type)) ==> after
            &&& forall|i: int|
                0 <= i < nodes.len() && holds_one(#[trigger] nodes[i], reg) && nodes[i].tag_type
                    == x.tag_type && after ==> exists|j: int|
                    i <= j < nodes.len() && is_set_by(#[trigger] nodes[j], reg, x)
        }),
{
    lemma_pairs(nodes, QueryType::Tag, reg, item.id, item.tags@, x);
}

proof fn lemma_refused(
    nodes: Seq<ResolvedModel>,
    qt: QueryType,
    reg: Seq<TagFnModel>,
    id: ItemId,
    tags: Seq<TagModel>,
)
    ensures
        actions_of(nodes, qt, reg, id, tags) is Ok <==> forall|i: int|
            0 <= i < nodes.len() ==> can_be_done(#[trigger] nodes[i], qt, reg),
        modify::directed_all(nodes, qt, reg) is Ok <==> forall|i: int|
            0 <= i < nodes.len() ==> modify::directed(#[trigger] nodes[i], qt, reg) is Ok,
    decreases nodes.len(),
{
    if nodes.len() > 0 {
        let rest = nodes.drop_last();
        let n = nodes.last();
        let k = nodes.len() - 1;
        lemma_refused(rest, qt, reg, id, tags);
        lemma_directed_len(nodes, qt, reg);
        assert(nodes[k] == n);
        assert(forall|i: int| 0 <= i < rest.len() ==> #[trigger] rest[i] == nodes[i]);
        let x = TagModel { tag_type: n.tag_type, value: BiticalModel::Boolean(true) };
        lemma_one_pair(n, qt, reg, id, tags, false, x);
        if forall|i: int| 0 <= i < nodes.len() ==> can_be_done(#[trigger] nodes[i], qt, reg) {
            assert forall|i: int| 0 <= i < rest.len() implies can_be_done(
                #[trigger] rest[i],
                qt,
                reg,
            ) by {
                assert(can_be_done(nodes[i], qt, reg));
            }
            assert(can_be_done(nodes[k], qt, reg));
            assert(modify::directed_all(nodes, qt, reg) is Ok);
            assert(actions_of(nodes, qt, reg, id, tags) is Ok);
        }
        if actions_of(nodes, qt, reg, id, tags) is Ok {
            lemma_actions_step(nodes, qt, reg, id, tags);
            assert forall|i: int| 0 <= i < nodes.len() implies can_be_done(
                #[trigger] nodes[i],
                qt,
                reg,
            ) by {
                if i < k {
                    assert(can_be_done(rest[i], qt, reg));
                }
            }
        }
        if forall|i: int| 0 <= i < nodes.len() ==> modify::directed(#[trigger] nodes[i], qt, reg) is Ok {
            assert forall|i: int| 0 <= i < rest.len() implies modify::directed(
                #[trigger] rest[i],
                qt,
                reg,
            ) is Ok by {
                assert(modify::directed(nodes[i], qt, reg) is Ok);
            }
            assert(modify::directed(nodes[k], qt, reg) is Ok);
        }
        if modify::directed_all(nodes, qt, reg) is Ok {
            assert forall|i: int| 0 <= i < nodes.len() implies modify::directed(
                #[trigger] nodes[i],
                qt,
                reg,
            ) is Ok by {
                if i < k {
                    assert(modify::directed(rest[i], qt, reg) is Ok);
                }
            }
        }
    }
}

/// An edit is carried out exactly where each of its pairs can be: where one cannot, nothing is.
pub proof fn law_edits_are_refused_whole(
    item: Item,
    nodes: Seq<ResolvedModel>,
    qt: QueryType,
    reg: Seq<TagFnModel>,
)
    ensures
        modify::modified(item, nodes, qt, reg) is Ok <==> forall|i: int|
            0 <= i < nodes.len() ==> can_be_done(#[trigger] nodes[i], qt, reg),
{
    lemma_refused(nodes, qt, reg, item.id, item.tags@);
}

/// Whether a tag is among those that an action adds.
pub open spec fn adds_tag(a: ActionModel, x: TagModel) -> bool {
    a matches ActionModel::Add { tags, .. } && exists|i: int|
        0 <= i < tags.len() && (#[trigger] tags[i]).tag() == x
}

/// The kind under which an item is first stored: a tag or a type where it is known by one value
/// of such a type, else a note.
pub open spec fn first_kind(repr: Seq<TagModel>) -> Seq<char> {
    if repr.len() == 1 && repr[0].tag_type == TagTypeModel::Base(Col::TypedTag) {
        "tag"@
    } else if repr.len() == 1 && repr[0].tag_type == TagTypeModel::Base(Col::Type) {
        "type"@
    } else {
        "note"@
    }
}

proof fn lemma_injected(reg: Seq<TagFnModel>, repr: Seq<TagModel>, k: int)
    requires
        0 <= k < reg.len(),
        reg[k].edit is Some,
        reg[k].edit->0.strategy == EditStrategy::ModifyInjection,
        modify::injected(reg[k].name, repr) is Some,
    ensures
        modify::injections(reg, repr).contains(
            TagModel {
                tag_type: TagTypeModel::named(reg[k].name),
                value: BiticalModel::String(modify::injected(reg[k].name, repr)->0),
            },
        ),
    decreases reg.len(),
{
    let rest = reg.drop_last();
    let before = modify::injections(rest, repr);
    let got = modify::injections(reg, repr);
    let t = TagModel {
        tag_type: TagTypeModel::named(reg[k].name),
        value: BiticalModel::String(modify::injected(reg[k].name, repr)->0),
    };
    if k < rest.len() {
        assert(rest[k] == reg[k]);
        lemma_injected(rest, repr, k);
        let i = choose|i: int| 0 <= i < before.len() && before[i] == t;
        assert(got[i] == t);
    } else {
        assert(got[got.len() - 1] == t);
    }
}

/// An item that was not stored is stored with every tag that it has after the edit. Where the
/// registry sets the kind of an item, it is stored with its kind. It is stored with a name where
/// it has none and is known by a value that is not empty.
pub proof fn law_first_write_stores_all(
    item: Item,
    nodes: Seq<ResolvedModel>,
    qt: QueryType,
    reg: Seq<TagFnModel>,
    x: TagModel,
    k: int,
)
    requires
        !item.id.stored(),
        modify::modified(item, nodes, qt, reg) is Ok,
        0 <= k < reg.len(),
    ensures
        ({
            let w = modify::modified(item, nodes, qt, reg)->Ok_0[0];
            let actions = modify::all_actions(
                modify::directed_all(nodes, qt, reg)->Ok_0,
                item.id,
                item.tags@,
            )->Ok_0;
            let name = TagTypeModel::Base(Col::Name);
            &&& there_after(item.tags@.contains(x), actions, x) ==> adds_tag(w, x)
            &&& reg[k].name == Col::ItemKind.name_text() && reg[k].edit is Some
                && reg[k].edit->0.strategy == EditStrategy::ModifyInjection ==> adds_tag(
                w,
                TagModel {
                    tag_type: TagTypeModel::named(Col::ItemKind.name_text()),
                    value: BiticalModel::String(first_kind(item.repr())),
                },
            )
            &&& item.repr().len() > 0 && item.repr()[0].value.shown().len() > 0 ==> exists|
                t: TagModel,
            |
                t.tag_type == name && #[trigger] adds_tag(w, t)
        }),
{
    let actions = modify::all_actions(
        modify::directed_all(nodes, qt, reg)->Ok_0,
        item.id,
        item.tags@,
    )->Ok_0;
    let repr = item.repr();
    let after = modify::after_actions(item.tags@, actions);
    let out = modify::injections(reg, repr);
    let more = modify::registration(reg, repr, after);
    let all = after + more;
    let w = modify::modified(item, nodes, qt, reg)->Ok_0[0];
    let ops = all.map_values(|t: TagModel| OpModel::Append(t));
    assert(w == (ActionModel::Add { item: item.id, tags: ops }));
    assert forall|t: TagModel| all.contains(t) implies #[trigger] adds_tag(w, t) by {
        let i = choose|i: int| 0 <= i < all.len() && all[i] == t;
        assert(ops[i].tag() == t);
    }
    assert forall|t: TagModel| #[trigger] after.contains(t) implies all.contains(t) by {
        let i = choose|i: int| 0 <= i < after.len() && after[i] == t;
        assert(all[i] == t);
    }
    assert forall|t: TagModel| #[trigger] more.contains(t) implies all.contains(t) by {
        let i = choose|i: int| 0 <= i < more.len() && more[i] == t;
        assert(all[after.len() + i] == t);
    }
    assert forall|t: TagModel| #[trigger] out.contains(t) implies more.contains(t) by {
        let i = choose|i: int| 0 <= i < out.len() && out[i] == t;
        assert(more[i] == t);
    }
    law_actions_add_and_take_away(item.tags@, actions, x);
    if reg[k].name == Col::ItemKind.name_text() && reg[k].edit is Some && reg[k].edit->0.strategy
        == EditStrategy::ModifyInjection {
        lemma_injected(reg, repr, k);
        let t = TagModel {
            tag_type: TagTypeModel::named(Col::ItemKind.name_text()),
            value: BiticalModel::String(first_kind(repr)),
        };
        assert(out.contains(t));
    }
    if repr.len() > 0 && repr[0].value.shown().len() > 0 {
        let ty = TagTypeModel::Base(Col::Name);
        if modify::has_type(after, ty) {
            let i = choose|i: int| 0 <= i < after.len() && (#[trigger] after[i]).tag_type == ty;
            assert(after.contains(after[i]));
            assert(adds_tag(w, after[i]));
        } else if modify::has_type(out, ty) {
            let i = choose|i: int| 0 <= i < out.len() && (#[trigger] out[i]).tag_type == ty;
            assert(out.contains(out[i]));
            assert(adds_tag(w, out[i]));
        } else {
            let t = TagModel { tag_type: ty, value: BiticalModel::String(repr[0].value.shown()) };
            assert(more[more.len() - 1] == t);
            assert(more.contains(t));
            assert(adds_tag(w, t));
        }
    }
}

} // verus!
