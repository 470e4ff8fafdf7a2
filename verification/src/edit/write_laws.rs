//! What a write promises, told by the actions that it is made of.
use crate::col::Col;
use crate::edit::action::{ActionModel, OpModel, TargetModel};
use crate::edit::write::{ChangesModel, UserTagDeleteModel};
use crate::item::{TagModel, TagTypeModel};
use crate::tag;
use crate::types::Origin;
use vstd::prelude::*;

verus! {

/// Whether the action at `i` adds a tag to an item, as the one at `k` of its list.
pub open spec fn adds_at(
    actions: Seq<ActionModel>,
    i: int,
    k: int,
    id: i64,
    t: TagModel,
) -> bool {
    &&& 0 <= i < actions.len()
    &&& actions[i] matches ActionModel::Add { item, tags } && item.raw() as i64 == id && 0 <= k
        < tags.len() && tags[k].tag() == t
}

/// Whether the action at `i` takes a target from an item, as the one at `k` of its list.
pub open spec fn takes_at(
    actions: Seq<ActionModel>,
    i: int,
    k: int,
    id: i64,
    t: TargetModel,
) -> bool {
    &&& 0 <= i < actions.len()
    &&& actions[i] matches ActionModel::Delete { item, tags } && item.raw() as i64 == id && 0 <= k
        < tags.len() && tags[k] == t
}

/// Whether a target is the item itself.
pub open spec fn is_whole_item(t: TargetModel) -> bool {
    t == TargetModel::Type(TagTypeModel::Base(Col::ItemId))
}

/// What is deleted from the table of user tags for a target.
pub open spec fn row_delete(id: i64, t: TargetModel) -> UserTagDeleteModel {
    match t {
        TargetModel::Type(ty) => UserTagDeleteModel {
            item_id: id,
            tag_type: ty.name(),
            value: None,
        },
        TargetModel::Tag(tag) => UserTagDeleteModel {
            item_id: id,
            tag_type: tag.tag_type.name(),
            value: Some(tag.value),
        },
    }
}

proof fn lemma_has_push<T>(s: Seq<T>, y: T, x: T)
    ensures
        s.push(y).contains(x) <==> s.contains(x) || x == y,
{
    let all = s.push(y);
    assert(all[s.len() as int] == y);
    if s.contains(x) {
        let i = choose|i: int| 0 <= i < s.len() && s[i] == x;
        assert(all[i] == x);
    }
    if all.contains(x) && x != y {
        let i = choose|i: int| 0 <= i < all.len() && all[i] == x;
        assert(s[i] == x);
    }
}

proof fn lemma_has_add<T>(s: Seq<T>, r: Seq<T>, x: T)
    ensures
        (s + r).contains(x) <==> s.contains(x) || r.contains(x),
{
    let all = s + r;
    if s.contains(x) {
        let i = choose|i: int| 0 <= i < s.len() && s[i] == x;
        assert(all[i] == x);
    }
    if r.contains(x) {
        let i = choose|i: int| 0 <= i < r.len() && r[i] == x;
        assert(all[s.len() + i] == x);
    }
    if all.contains(x) && !s.contains(x) {
        let i = choose|i: int| 0 <= i < all.len() && all[i] == x;
        if i < s.len() {
            assert(s[i] == x);
        } else {
            assert(r[i - s.len()] == x);
        }
    }
}

proof fn lemma_user_rows(id: i64, ops: Seq<OpModel>, row: (i64, TagModel))
    ensures
        crate::edit::write::user_rows(id, ops).contains(row) <==> row.0 == id && row.1.tag_type
            != TagTypeModel::Base(Col::ItemKind) && row.1.tag_type != TagTypeModel::Base(
            Col::Content,
        ) && exists|k: int| 0 <= k < ops.len() && (#[trigger] ops[k]).tag() == row.1,
    decreases ops.len(),
{
    if ops.len() > 0 {
        let rest = ops.drop_last();
        lemma_user_rows(id, rest, row);
        lemma_has_push(crate::edit::write::user_rows(id, rest), (id, ops.last().tag()), row);
        assert(ops[ops.len() - 1] == ops.last());
        assert(forall|k: int| 0 <= k < rest.len() ==> #[trigger] rest[k] == ops[k]);
        if exists|k: int| 0 <= k < rest.len() && (#[trigger] rest[k]).tag() == row.1 {
            let k = choose|k: int| 0 <= k < rest.len() && (#[trigger] rest[k]).tag() == row.1;
            assert(ops[k].tag() == row.1);
        }
        if exists|k: int| 0 <= k < ops.len() && (#[trigger] ops[k]).tag() == row.1 {
            let k = choose|k: int| 0 <= k < ops.len() && (#[trigger] ops[k]).tag() == row.1;
            if k < rest.len() {
                assert(rest[k].tag() == row.1);
            }
        }
    }
}

/// Whether some target of a list leads to a delete in the table of user tags.
spec fn some_delete(id: i64, ts: Seq<TargetModel>, del: UserTagDeleteModel) -> bool {
    exists|k: int|
        0 <= k < ts.len() && !is_whole_item(#[trigger] ts[k]) && row_delete(id, ts[k]) == del
}

spec fn some_whole(ts: Seq<TargetModel>) -> bool {
    exists|k: int| 0 <= k < ts.len() && is_whole_item(#[trigger] ts[k])
}

proof fn lemma_targets(
    c: ChangesModel,
    id: i64,
    ts: Seq<TargetModel>,
    del: UserTagDeleteModel,
    x: i64,
)
    ensures
        ({
            let w = crate::edit::write::with_targets(c, id, ts);
            &&& w.tag_rows == c.tag_rows && w.item_rows == c.item_rows
            &&& w.tag_deletes.contains(del) <==> c.tag_deletes.contains(del) || some_delete(
                id,
                ts,
                del,
            )
            &&& w.user_cascade.contains(x) <==> c.user_cascade.contains(x) || (x == id
                && some_whole(ts) && Origin::of_id(id as int) != Origin::File)
            &&& w.file_cascade.contains(x) <==> c.file_cascade.contains(x) || (x == id
                && some_whole(ts) && Origin::of_id(id as int) == Origin::File)
        }),
    decreases ts.len(),
{
    if ts.len() > 0 {
        let rest = ts.drop_last();
        let t = ts.last();
        lemma_targets(c, id, rest, del, x);
        let w = crate::edit::write::with_targets(c, id, rest);
        lemma_has_push(w.tag_deletes, row_delete(id, t), del);
        lemma_has_push(w.user_cascade, id, x);
        lemma_has_push(w.file_cascade, id, x);
        assert(ts[ts.len() - 1] == t);
        assert(forall|k: int| 0 <= k < rest.len() ==> #[trigger] rest[k] == ts[k]);
        if some_delete(id, rest, del) {
            let k = choose|k: int|
                0 <= k < rest.len() && !is_whole_item(#[trigger] rest[k]) && row_delete(id, rest[k])
                    == del;
            assert(row_delete(id, ts[k]) == del);
        }
        if some_delete(id, ts, del) {
            let k = choose|k: int|
                0 <= k < ts.len() && !is_whole_item(#[trigger] ts[k]) && row_delete(id, ts[k])
                    == del;
            if k < rest.len() {
                assert(row_delete(id, rest[k]) == del);
            }
        }
        if some_whole(rest) {
            let k = choose|k: int| 0 <= k < rest.len() && is_whole_item(#[trigger] rest[k]);
            assert(is_whole_item(ts[k]));
        }
        if some_whole(ts) {
            let k = choose|k: int| 0 <= k < ts.len() && is_whole_item(#[trigger] ts[k]);
            if k < rest.len() {
                assert(is_whole_item(rest[k]));
            }
        }
    }
}

/// A row is written to the table of user tags exactly where an action adds the tag to the item
/// and the tag is neither the kind nor the content of the item.
pub proof fn law_added_tags_become_rows(actions: Seq<ActionModel>, id: i64, t: TagModel)
    ensures
        crate::edit::write::sorted(actions).tag_rows.contains((id, t)) <==> t.tag_type != TagTypeModel::Base(
            Col::ItemKind,
        ) && t.tag_type != TagTypeModel::Base(Col::Content) && exists|i: int, k: int|
            #[trigger] adds_at(actions, i, k, id, t),
    decreases actions.len(),
{
    if actions.len() > 0 {
        let rest = actions.drop_last();
        let n = actions.len() - 1;
        law_added_tags_become_rows(rest, id, t);
        let c = crate::edit::write::sorted(rest);
        assert(actions[n] == actions.last());
        assert forall|i: int, k: int| i != n implies #[trigger] adds_at(actions, i, k, id, t)
            == adds_at(rest, i, k, id, t) by {
        }
        match actions.last() {
            ActionModel::Add { item, tags } => {
                let own = item.raw() as i64;
                lemma_has_add(c.tag_rows, crate::edit::write::user_rows(own, tags), (id, t));
                lemma_user_rows(own, tags, (id, t));
                if own == id && exists|k: int| 0 <= k < tags.len() && (#[trigger] tags[k]).tag() == t {
                    let k = choose|k: int| 0 <= k < tags.len() && (#[trigger] tags[k]).tag() == t;
                    assert(adds_at(actions, n, k, id, t));
                }
            },
            ActionModel::Delete { item, tags } => {
                lemma_targets(c, item.raw() as i64, tags, row_delete(id, TargetModel::Tag(t)), id);
            },
        }
        if exists|i: int, k: int| #[trigger] adds_at(actions, i, k, id, t) {
            let (i, k) = choose|i: int, k: int| #[trigger] adds_at(actions, i, k, id, t);
            if i != n {
                assert(adds_at(rest, i, k, id, t));
            }
        }
        if exists|i: int, k: int| #[trigger] adds_at(rest, i, k, id, t) {
            let (i, k) = choose|i: int, k: int| #[trigger] adds_at(rest, i, k, id, t);
            assert(adds_at(actions, i, k, id, t));
        }
    }
}

/// Tags are deleted from the table of user tags exactly where an action takes them from their
/// item: by their type alone, or by their type and value. An item goes with all its rows exactly
/// where an action takes the item itself; files go from the tables of files.
pub proof fn law_taken_targets_become_deletes(
    actions: Seq<ActionModel>,
    del: UserTagDeleteModel,
    x: i64,
)
    ensures
        crate::edit::write::sorted(actions).tag_deletes.contains(del) <==> exists|
            i: int,
            k: int,
            t: TargetModel,
        |
            #[trigger] takes_at(actions, i, k, del.item_id, t) && !is_whole_item(t) && row_delete(
                del.item_id,
                t,
            ) == del,
        crate::edit::write::sorted(actions).user_cascade.contains(x) <==> Origin::of_id(x as int)
            != Origin::File && exists|i: int, k: int, t: TargetModel|
            #[trigger] takes_at(actions, i, k, x, t) && is_whole_item(t),
        crate::edit::write::sorted(actions).file_cascade.contains(x) <==> Origin::of_id(x as int)
            == Origin::File && exists|i: int, k: int, t: TargetModel|
            #[trigger] takes_at(actions, i, k, x, t) && is_whole_item(t),
    decreases actions.len(),
{
    if actions.len() > 0 {
        let rest = actions.drop_last();
        let n = actions.len() - 1;
        law_taken_targets_become_deletes(rest, del, x);
        let c = crate::edit::write::sorted(rest);
        assert(actions[n] == actions.last());
        assert forall|i: int, k: int, id: i64, t: TargetModel| i != n implies #[trigger] takes_at(
            actions,
            i,
            k,
            id,
            t,
        ) == takes_at(rest, i, k, id, t) by {
        }
        if let ActionModel::Delete { item, tags } = actions.last() {
            let own = item.raw() as i64;
            lemma_targets(c, own, tags, del, x);
            if some_delete(own, tags, del) {
                let k = choose|k: int|
                    0 <= k < tags.len() && !is_whole_item(#[trigger] tags[k]) && row_delete(
                        own,
                        tags[k],
                    ) == del;
                assert(takes_at(actions, n, k, del.item_id, tags[k]));
            }
            if x == own && some_whole(tags) {
                let k = choose|k: int| 0 <= k < tags.len() && is_whole_item(#[trigger] tags[k]);
                assert(takes_at(actions, n, k, x, tags[k]));
            }
        }
        if exists|i: int, k: int, t: TargetModel|
            #[trigger] takes_at(actions, i, k, del.item_id, t) && !is_whole_item(t) && row_delete(
                del.item_id,
                t,
            ) == del {
            let (i, k, t) = choose|i: int, k: int, t: TargetModel|
                #[trigger] takes_at(actions, i, k, del.item_id, t) && !is_whole_item(t)
                    && row_delete(del.item_id, t) == del;
            if i == n {
                let tags = actions.last()->Delete_tags;
                assert(!is_whole_item(tags[k]));
                assert(some_delete(del.item_id, tags, del));
            } else {
                assert(takes_at(rest, i, k, del.item_id, t));
            }
        }
        if exists|i: int, k: int, t: TargetModel|
            #[trigger] takes_at(rest, i, k, del.item_id, t) && !is_whole_item(t) && row_delete(
                del.item_id,
                t,
            ) == del {
            let (i, k, t) = choose|i: int, k: int, t: TargetModel|
                #[trigger] takes_at(rest, i, k, del.item_id, t) && !is_whole_item(t) && row_delete(
                    del.item_id,
                    t,
                ) == del;
            assert(takes_at(actions, i, k, del.item_id, t));
        }
        if exists|i: int, k: int, t: TargetModel|
            #[trigger] takes_at(actions, i, k, x, t) && is_whole_item(t) {
            let (i, k, t) = choose|i: int, k: int, t: TargetModel|
                #[trigger] takes_at(actions, i, k, x, t) && is_whole_item(t);
            if i == n {
                let tags = actions.last()->Delete_tags;
                assert(is_whole_item(tags[k]));
                assert(some_whole(tags));
            } else {
                assert(takes_at(rest, i, k, x, t));
            }
        }
        if exists|i: int, k: int, t: TargetModel|
            #[trigger] takes_at(rest, i, k, x, t) && is_whole_item(t) {
            let (i, k, t) = choose|i: int, k: int, t: TargetModel|
                #[trigger] takes_at(rest, i, k, x, t) && is_whole_item(t);
            assert(takes_at(actions, i, k, x, t));
        }
    }
}

proof fn lemma_with_names(names: Seq<Seq<char>>, more: Seq<Seq<char>>, n: Seq<char>)
    ensures
        crate::edit::write::with_names(names, more).contains(n) <==> names.contains(n) || more.contains(n),
    decreases more.len(),
{
    if more.len() > 0 {
        let rest = more.drop_last();
        lemma_with_names(names, rest, n);
        lemma_has_push(crate::edit::write::with_names(names, rest), more.last(), n);
        lemma_has_push(rest, more.last(), n);
        assert(rest.push(more.last()) =~= more);
    }
}

proof fn lemma_target_names(ts: Seq<TargetModel>, n: Seq<char>)
    ensures
        crate::edit::write::target_names(ts).contains(n) <==> exists|k: int|
            0 <= k < ts.len() && match #[trigger] ts[k] {
                TargetModel::Tag(t) => t.tag_type.name() == n,
                TargetModel::Type(ty) => ty.name() == n && n != "item_id"@,
            },
    decreases ts.len(),
{
    if ts.len() > 0 {
        let rest = ts.drop_last();
        lemma_target_names(rest, n);
        let name = match ts.last() {
            TargetModel::Tag(t) => t.tag_type.name(),
            TargetModel::Type(ty) => ty.name(),
        };
        lemma_has_push(crate::edit::write::target_names(rest), name, n);
        assert(ts[ts.len() - 1] == ts.last());
        assert(forall|k: int| 0 <= k < rest.len() ==> #[trigger] rest[k] == ts[k]);
        if exists|k: int|
            0 <= k < rest.len() && match #[trigger] rest[k] {
                TargetModel::Tag(t) => t.tag_type.name() == n,
                TargetModel::Type(ty) => ty.name() == n && n != "item_id"@,
            } {
            let k = choose|k: int|
                0 <= k < rest.len() && match #[trigger] rest[k] {
                    TargetModel::Tag(t) => t.tag_type.name() == n,
                    TargetModel::Type(ty) => ty.name() == n && n != "item_id"@,
                };
            assert(ts[k] == rest[k]);
        }
        if exists|k: int|
            0 <= k < ts.len() && match #[trigger] ts[k] {
                TargetModel::Tag(t) => t.tag_type.name() == n,
                TargetModel::Type(ty) => ty.name() == n && n != "item_id"@,
            } {
            let k = choose|k: int|
                0 <= k < ts.len() && match #[trigger] ts[k] {
                    TargetModel::Tag(t) => t.tag_type.name() == n,
                    TargetModel::Type(ty) => ty.name() == n && n != "item_id"@,
                };
            if k < rest.len() {
                assert(rest[k] == ts[k]);
            }
        }
    }
}

/// Whether an action changes tags of a type of some name.
pub open spec fn touches_type(a: ActionModel, n: Seq<char>) -> bool {
    match a {
        ActionModel::Add { tags, .. } => exists|k: int|
            0 <= k < tags.len() && (#[trigger] tags[k]).tag().tag_type.name() == n,
        ActionModel::Delete { tags, .. } => exists|k: int|
            0 <= k < tags.len() && match #[trigger] tags[k] {
                TargetModel::Tag(t) => t.tag_type.name() == n,
                TargetModel::Type(ty) => ty.name() == n && n != "item_id"@,
            },
    }
}

proof fn lemma_touched(actions: Seq<ActionModel>, n: Seq<char>)
    ensures
        crate::edit::write::touched(actions).contains(n) <==> exists|i: int|
            0 <= i < actions.len() && touches_type(#[trigger] actions[i], n),
    decreases actions.len(),
{
    if actions.len() > 0 {
        let rest = actions.drop_last();
        let a = actions.last();
        lemma_touched(rest, n);
        let names = crate::edit::write::touched_names(a);
        lemma_with_names(crate::edit::write::touched(rest), names, n);
        assert(actions[actions.len() - 1] == a);
        assert(forall|i: int| 0 <= i < rest.len() ==> #[trigger] rest[i] == actions[i]);
        assert(names.contains(n) <==> touches_type(a, n)) by {
            match a {
                ActionModel::Add { tags, .. } => {
                    if names.contains(n) {
                        let k = choose|k: int| 0 <= k < names.len() && names[k] == n;
                        assert(tags[k].tag().tag_type.name() == n);
                    }
                    if touches_type(a, n) {
                        let k = choose|k: int|
                            0 <= k < tags.len() && (#[trigger] tags[k]).tag().tag_type.name() == n;
                        assert(names[k] == n);
                    }
                },
                ActionModel::Delete { tags, .. } => lemma_target_names(tags, n),
            }
        }
        if exists|i: int| 0 <= i < rest.len() && touches_type(#[trigger] rest[i], n) {
            let i = choose|i: int| 0 <= i < rest.len() && touches_type(#[trigger] rest[i], n);
            assert(touches_type(actions[i], n));
        }
        if exists|i: int| 0 <= i < actions.len() && touches_type(#[trigger] actions[i], n) {
            let i = choose|i: int| 0 <= i < actions.len() && touches_type(#[trigger] actions[i], n);
            if i < rest.len() {
                assert(touches_type(rest[i], n));
            }
        }
    }
}

proof fn lemma_kept_names(names: Seq<Seq<char>>, reg: Seq<tag::TagFnModel>, n: Seq<char>)
    ensures
        crate::edit::write::kept_names(names, reg).contains(n) <==> names.contains(n) && !tag::excluded(reg, n),
    decreases names.len(),
{
    reveal(Seq::filter);
    if names.len() > 0 {
        let rest = names.drop_last();
        lemma_kept_names(rest, reg, n);
        lemma_has_push(rest, names.last(), n);
        assert(rest.push(names.last()) =~= names);
        lemma_has_push(crate::edit::write::kept_names(rest, reg), names.last(), n);
    }
}

/// The partition of a type is written anew exactly where the type is one of the partitions and
/// an action changes tags of it, its values are converted, or an item that goes as a whole
/// carries it.
pub proof fn law_changed_types_are_written_anew(
    actions: Seq<ActionModel>,
    cast: Option<Seq<char>>,
    cascade_types: Seq<Seq<char>>,
    reg: Seq<tag::TagFnModel>,
    n: Seq<char>,
)
    ensures
        crate::edit::write::partitions_of(actions, cast, cascade_types, reg).contains(n) <==> {
            &&& !tag::excluded(reg, n)
            &&& {
                ||| exists|i: int| 0 <= i < actions.len() && touches_type(#[trigger] actions[i], n)
                ||| cast == Some(n)
                ||| crate::edit::write::deleted_items(actions).len() > 0 && cascade_types.contains(n)
            }
        },
{
    let own = crate::edit::write::touched(actions);
    lemma_touched(actions, n);
    let with_cast = match cast {
        Some(c) => crate::edit::write::with_name(own, c),
        None => own,
    };
    if let Some(c) = cast {
        lemma_has_push(own, c, n);
    }
    lemma_with_names(with_cast, cascade_types, n);
    let all = if crate::edit::write::deleted_items(actions).len() > 0 {
        crate::edit::write::with_names(with_cast, cascade_types)
    } else {
        with_cast
    };
    lemma_kept_names(all, reg, n);
}

} // verus!
