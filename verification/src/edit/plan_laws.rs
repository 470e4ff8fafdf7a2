//! What the plan of an edit is made of.
use crate::edit::action::ActionModel;
use crate::edit::error::EditErrorModel;
use crate::edit::fs_operate::MovedModel;
use crate::edit::fs_operate::OutcomeModel;
use crate::edit::modify;
use crate::edit::modify::NumberText;
use crate::edit::parse::EditQuery;
use crate::edit::parse::NodeModel;
use crate::edit::plan;
use crate::edit::plan::WorkModel;
use crate::edit::EditStrategy;
use crate::edit::QueryType;
use crate::item;
use crate::item::Item;
use crate::tag;
use crate::types::ItemId;
use vstd::prelude::*;

verus! {

proof fn lemma_of_actions(ids: Seq<ItemId>, actions: Seq<ActionModel>, id: ItemId)
    ensures
        plan::ids_of_actions(ids, actions).contains(id) <==> ids.contains(id) || exists|i: int|
            0 <= i < actions.len() && (#[trigger] actions[i]).id() == id,
    decreases actions.len(),
{
    if actions.len() > 0 {
        let front = actions.drop_last();
        let last = actions.len() - 1;
        lemma_of_actions(ids, front, id);
        let before = plan::ids_of_actions(ids, front);
        assert(before.push(actions[last].id())[before.len() as int] == actions[last].id());
        assert forall|x: ItemId| #[trigger] before.contains(x) implies before.push(
            actions[last].id(),
        ).contains(x) by {
            let k = choose|k: int| 0 <= k < before.len() && before[k] == x;
            assert(before.push(actions[last].id())[k] == x);
        }
        if plan::ids_of_actions(ids, front).contains(id) && !ids.contains(id) {
            let i = choose|i: int| 0 <= i < front.len() && (#[trigger] front[i]).id() == id;
            assert(actions[i].id() == id);
        }
        if exists|i: int| 0 <= i < actions.len() && (#[trigger] actions[i]).id() == id {
            let i = choose|i: int| 0 <= i < actions.len() && (#[trigger] actions[i]).id() == id;
            if i < last {
                assert(front[i].id() == id);
            }
        }
    }
}

proof fn lemma_of_moves(ids: Seq<ItemId>, moved: Seq<MovedModel>, id: ItemId)
    ensures
        plan::ids_of_moves(ids, moved).contains(id) <==> ids.contains(id) || exists|i: int|
            0 <= i < moved.len() && (#[trigger] moved[i]).item == id,
    decreases moved.len(),
{
    if moved.len() > 0 {
        let front = moved.drop_last();
        let last = moved.len() - 1;
        lemma_of_moves(ids, front, id);
        let before = plan::ids_of_moves(ids, front);
        assert(before.push(moved[last].item)[before.len() as int] == moved[last].item);
        assert forall|x: ItemId| #[trigger] before.contains(x) implies before.push(
            moved[last].item,
        ).contains(x) by {
            let k = choose|k: int| 0 <= k < before.len() && before[k] == x;
            assert(before.push(moved[last].item)[k] == x);
        }
        if plan::ids_of_moves(ids, front).contains(id) && !ids.contains(id) {
            let i = choose|i: int| 0 <= i < front.len() && (#[trigger] front[i]).item == id;
            assert(moved[i].item == id);
        }
        if exists|i: int| 0 <= i < moved.len() && (#[trigger] moved[i]).item == id {
            let i = choose|i: int| 0 <= i < moved.len() && (#[trigger] moved[i]).item == id;
            if i < last {
                assert(front[i].item == id);
            }
        }
    }
}

proof fn lemma_of_attrs(ids: Seq<ItemId>, attrs: Seq<(ItemId, Seq<char>)>, id: ItemId)
    ensures
        plan::ids_of_attrs(ids, attrs).contains(id) <==> ids.contains(id) || exists|i: int|
            0 <= i < attrs.len() && (#[trigger] attrs[i]).0 == id,
    decreases attrs.len(),
{
    if attrs.len() > 0 {
        let front = attrs.drop_last();
        let last = attrs.len() - 1;
        lemma_of_attrs(ids, front, id);
        let before = plan::ids_of_attrs(ids, front);
        assert(before.push(attrs[last].0)[before.len() as int] == attrs[last].0);
        assert forall|x: ItemId| #[trigger] before.contains(x) implies before.push(
            attrs[last].0,
        ).contains(x) by {
            let k = choose|k: int| 0 <= k < before.len() && before[k] == x;
            assert(before.push(attrs[last].0)[k] == x);
        }
        if plan::ids_of_attrs(ids, front).contains(id) && !ids.contains(id) {
            let i = choose|i: int| 0 <= i < front.len() && (#[trigger] front[i]).0 == id;
            assert(attrs[i].0 == id);
        }
        if exists|i: int| 0 <= i < attrs.len() && (#[trigger] attrs[i]).0 == id {
            let i = choose|i: int| 0 <= i < attrs.len() && (#[trigger] attrs[i]).0 == id;
            if i < last {
                assert(front[i].0 == id);
            }
        }
    }
}

/// The items that an edit dealt with are those that were written, those whose files were moved
/// and those whose attributes were set, and no others.
pub proof fn law_dealt_with_is_what_was_changed(
    actions: Seq<ActionModel>,
    o: OutcomeModel,
    id: ItemId,
)
    ensures
        plan::processed(actions, o).contains(id) <==> {
            ||| exists|i: int| 0 <= i < actions.len() && (#[trigger] actions[i]).id() == id
            ||| exists|i: int| 0 <= i < o.moved.len() && (#[trigger] o.moved[i]).item == id
            ||| exists|i: int| 0 <= i < o.attrs_set.len() && (#[trigger] o.attrs_set[i]).0 == id
        },
{
    let none = Seq::<ItemId>::empty();
    let a = plan::ids_of_actions(none, actions);
    lemma_of_actions(none, actions, id);
    lemma_of_moves(a, o.moved, id);
    lemma_of_attrs(plan::ids_of_moves(a, o.moved), o.attrs_set, id);
    assert(!none.contains(id));
}

/// The types that are known before an edit are those whose names are written out in its query.
pub proof fn law_known_types_are_written_out(nodes: Seq<NodeModel>, name: Seq<char>)
    ensures
        plan::written_types(nodes).contains(name) <==> exists|i: int|
            0 <= i < nodes.len() && !(#[trigger] nodes[i]).tag_type.braced()
                && nodes[i].tag_type.valued() == name,
    decreases nodes.len(),
{
    if nodes.len() > 0 {
        let front = nodes.drop_last();
        let last = nodes.len() - 1;
        law_known_types_are_written_out(front, name);
        let before = plan::written_types(front);
        let own = nodes[last].tag_type.valued();
        item::law_tag_type_names(crate::col::Col::Path, own);
        if before.contains(name) {
            let k = choose|k: int| 0 <= k < before.len() && before[k] == name;
            assert(before.push(own)[k] == name);
            let i = choose|i: int|
                0 <= i < front.len() && !(#[trigger] front[i]).tag_type.braced()
                    && front[i].tag_type.valued() == name;
            assert(nodes[i] == front[i]);
        }
        assert(before.push(own)[before.len() as int] == own);
        if before.push(own).contains(name) {
            let k = choose|k: int| 0 <= k < before.push(own).len() && before.push(own)[k] == name;
            if k < before.len() {
                assert(before[k] == name);
            } else {
                assert(nodes[last].tag_type.valued() == name);
            }
        }
        if exists|i: int|
            0 <= i < nodes.len() && !(#[trigger] nodes[i]).tag_type.braced()
                && nodes[i].tag_type.valued() == name {
            let i = choose|i: int|
                0 <= i < nodes.len() && !(#[trigger] nodes[i]).tag_type.braced()
                    && nodes[i].tag_type.valued() == name;
            if i < last {
                assert(front[i] == nodes[i]);
            }
        }
    }
}

/// The work on items and then on others is the work on all of them, in that order: what is to
/// be done to files and what is to be written is put together, and where a part is refused all
/// of it is.
pub proof fn law_work_is_put_together(
    a: Seq<(Item, Option<EditQuery>)>,
    b: Seq<(Item, Option<EditQuery>)>,
    qt: QueryType,
    reg: Seq<tag::TagFnModel>,
    numbers: Seq<NumberText>,
)
    ensures
        match (
            plan::work_on_all(a, qt, reg, numbers),
            plan::work_on_all(b, qt, reg, numbers),
        ) {
            (Ok(v), Ok(w)) => plan::work_on_all(a + b, qt, reg, numbers) == Ok::<
                WorkModel,
                EditErrorModel,
            >(WorkModel { inputs: v.inputs + w.inputs, actions: v.actions + w.actions }),
            (Err(e), _) => plan::work_on_all(a + b, qt, reg, numbers) == Err::<
                WorkModel,
                EditErrorModel,
            >(e),
            (Ok(_), Err(e)) => plan::work_on_all(a + b, qt, reg, numbers) == Err::<
                WorkModel,
                EditErrorModel,
            >(e),
        },
    decreases b.len(),
{
    if b.len() == 0 {
        assert(a + b =~= a);
        match plan::work_on_all(a, qt, reg, numbers) {
            Ok(v) => {
                assert(v.inputs + Seq::empty() =~= v.inputs);
                assert(v.actions + Seq::empty() =~= v.actions);
            },
            Err(_) => {},
        }
    } else {
        let front = b.drop_last();
        law_work_is_put_together(a, front, qt, reg, numbers);
        assert((a + b).drop_last() =~= a + front);
        assert((a + b).last() == b.last());
        match (
            plan::work_on_all(a, qt, reg, numbers),
            plan::work_on_all(front, qt, reg, numbers),
        ) {
            (Ok(v), Ok(w)) => {
                let query = plan::query_nodes(b.last().1);
                let first = WorkModel { inputs: v.inputs + w.inputs, actions: v.actions + w.actions };
                match (
                    plan::work_on(w, b.last().0, query, qt, reg, numbers),
                    plan::work_on(first, b.last().0, query, qt, reg, numbers),
                ) {
                    (Ok(x), Ok(y)) => {
                        assert(y.inputs =~= v.inputs + x.inputs);
                        assert(y.actions =~= v.actions + x.actions);
                    },
                    _ => {},
                }
            },
            _ => {},
        }
    }
}

/// The pairs of the query of an item that are carried out on its files are those that move
/// files or set their attributes, all of them and no others; an item without such pairs has
/// no files that are touched.
pub proof fn law_files_are_touched_as_asked(
    item: Item,
    query: Option<EditQuery>,
    qt: QueryType,
    reg: Seq<tag::TagFnModel>,
    numbers: Seq<NumberText>,
    n: modify::ResolvedModel,
)
    ensures
        plan::work_on_all(seq![(item, query)], qt, reg, numbers) matches Ok(w) ==> {
            &&& modify::resolved_all(plan::query_nodes(query), numbers, qt, reg) matches Ok(nodes)
                && ((nodes.contains(n) && (n.strategy == EditStrategy::Relocate || n.strategy
                == EditStrategy::SetFileAttr)) <==> (w.inputs.len() > 0 && w.inputs[0].nodes.contains(
                n,
            )))
            &&& w.inputs.len() <= 1
            &&& w.inputs.len() == 1 ==> w.inputs[0].id == item.id && w.inputs[0].nodes.len() > 0
        },
{
    let edits = seq![(item, query)];
    assert(edits.drop_last() =~= Seq::empty());
    assert(edits.last() == (item, query));
    reveal_with_fuel(plan::work_on_all, 2);
    match modify::resolved_all(plan::query_nodes(query), numbers, qt, reg) {
        Ok(nodes) => {
            let p = |m: modify::ResolvedModel| crate::edit::fs_operate::on_files(m.strategy);
            let chosen = plan::file_nodes(nodes);
            assert(chosen == nodes.filter(p));
            if chosen.contains(n) {
                let i = choose|i: int| 0 <= i < chosen.len() && chosen[i] == n;
                nodes.lemma_filter_pred(p, i);
                nodes.lemma_filter_contains_rev(p, n);
            }
            if nodes.contains(n) && p(n) {
                let i = choose|i: int| 0 <= i < nodes.len() && nodes[i] == n;
                nodes.lemma_filter_contains(p, i);
            }
        },
        Err(_) => {},
    }
}

} // verus!
