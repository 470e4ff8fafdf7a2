//! What is counted of an edit, what goes as a whole, and which types are set together.
use crate::col::Col;
use crate::edit::action::ActionModel;
use crate::edit::action::TargetModel;
use crate::edit::fs_operate;
use crate::item::TagTypeModel;
use crate::tag;
use crate::types::ItemId;
use vstd::prelude::*;

verus! {

/// What is counted of actions and then of others is counted of all of them: each tag that is
/// added counts once, for its item and for all, and each thing that is taken away for its item.
pub proof fn law_counts_add_up(a: Seq<ActionModel>, b: Seq<ActionModel>, id: int)
    ensures
        crate::edit::write::added(a + b) == crate::edit::write::added(a)
            + crate::edit::write::added(b),
        crate::edit::write::added_to(a + b, id) == crate::edit::write::added_to(a, id)
            + crate::edit::write::added_to(b, id),
        crate::edit::write::deleted_from(a + b, id) == crate::edit::write::deleted_from(a, id)
            + crate::edit::write::deleted_from(b, id),
        b.len() == 1 ==> match b[0] {
            ActionModel::Add { item, tags } => {
                &&& crate::edit::write::added(b) == tags.len()
                &&& crate::edit::write::added_to(b, item.raw()) == tags.len()
                &&& crate::edit::write::deleted_from(b, id) == 0
            },
            ActionModel::Delete { item, tags } => {
                &&& crate::edit::write::added(b) == 0
                &&& crate::edit::write::added_to(b, id) == 0
                &&& crate::edit::write::deleted_from(b, item.raw()) == tags.len()
            },
        },
    decreases b.len(),
{
    if b.len() == 0 {
        assert(a + b =~= a);
    } else {
        let front = b.drop_last();
        law_counts_add_up(a, front, id);
        assert((a + b).drop_last() =~= a + front);
        assert((a + b).last() == b.last());
        reveal_with_fuel(crate::edit::write::added, 2);
        reveal_with_fuel(crate::edit::write::added_to, 2);
        reveal_with_fuel(crate::edit::write::deleted_from, 2);
    }
}

/// An item goes as a whole exactly where an action takes the item itself.
pub proof fn law_items_go_where_they_are_taken(actions: Seq<ActionModel>, id: ItemId)
    ensures
        crate::edit::write::deleted_items(actions).contains(id) <==> exists|k: int|
            0 <= k < actions.len() && ((#[trigger] actions[k]) matches ActionModel::Delete { item, tags }
                && item == id && tags.contains(TargetModel::Type(TagTypeModel::Base(Col::ItemId)))),
    decreases actions.len(),
{
    if actions.len() > 0 {
        let front = actions.drop_last();
        let last = actions.len() - 1;
        let before = crate::edit::write::deleted_items(front);
        let all = crate::edit::write::deleted_items(actions);
        let whole = TargetModel::Type(TagTypeModel::Base(Col::ItemId));
        law_items_go_where_they_are_taken(front, id);
        let own: Seq<ItemId> = match actions[last] {
            ActionModel::Delete { item, tags } => tags.filter(
                |t: TargetModel| t == TargetModel::Type(TagTypeModel::Base(Col::ItemId)),
            ).map_values(|t: TargetModel| item),
            ActionModel::Add { .. } => seq![],
        };
        assert(all == before + own);
        let takes = actions[last] matches ActionModel::Delete { item, tags } && item == id
            && tags.contains(whole);
        assert(own.contains(id) <==> takes) by {
            match actions[last] {
                ActionModel::Delete { item, tags } => {
                    let p = |t: TargetModel|
                        t == TargetModel::Type(TagTypeModel::Base(Col::ItemId));
                    let kept = tags.filter(p);
                    if own.contains(id) {
                        let x = choose|x: int| 0 <= x < own.len() && own[x] == id;
                        tags.lemma_filter_pred(p, x);
                        assert(kept.contains(kept[x]));
                        tags.lemma_filter_contains_rev(p, kept[x]);
                    }
                    if takes {
                        let x = choose|x: int| 0 <= x < tags.len() && tags[x] == whole;
                        tags.lemma_filter_contains(p, x);
                        let y = choose|y: int| 0 <= y < kept.len() && kept[y] == tags[x];
                        assert(own[y] == item);
                    }
                },
                ActionModel::Add { .. } => {},
            }
        }
        if before.contains(id) {
            let x = choose|x: int| 0 <= x < before.len() && before[x] == id;
            assert(all[x] == id);
            let k = choose|k: int|
                0 <= k < front.len() && ((#[trigger] front[k]) matches ActionModel::Delete { item, tags }
                    && item == id && tags.contains(whole));
            assert(actions[k] == front[k]);
        }
        if own.contains(id) {
            let x = choose|x: int| 0 <= x < own.len() && own[x] == id;
            assert(all[before.len() + x] == id);
            assert(actions[last] == actions.last());
        }
        if all.contains(id) && !before.contains(id) {
            let x = choose|x: int| 0 <= x < all.len() && all[x] == id;
            if x < before.len() {
                assert(before[x] == id);
            } else {
                assert(own[x - before.len()] == id);
            }
        }
        if exists|k: int|
            0 <= k < actions.len() && ((#[trigger] actions[k]) matches ActionModel::Delete { item, tags }
                && item == id && tags.contains(whole)) {
            let k = choose|k: int|
                0 <= k < actions.len() && ((#[trigger] actions[k]) matches ActionModel::Delete {
                    item,
                    tags,
                } && item == id && tags.contains(whole));
            if k < last {
                assert(front[k] == actions[k]);
            }
        }
    }
}

proof fn lemma_part_before(parts: Seq<(Col, Seq<char>)>, c: Col)
    ensures
        fs_operate::part_before(parts, c) is None <==> forall|i: int|
            0 <= i < parts.len() ==> (#[trigger] parts[i]).0 != c,
    decreases parts.len(),
{
    if parts.len() > 0 {
        let rest = parts.skip(1);
        lemma_part_before(rest, c);
        if fs_operate::part_before(parts, c) is None {
            assert forall|i: int| 0 <= i < parts.len() implies (#[trigger] parts[i]).0 != c by {
                if i > 0 {
                    assert(parts[i] == rest[i - 1]);
                }
            }
        }
        if forall|i: int| 0 <= i < parts.len() ==> (#[trigger] parts[i]).0 != c {
            assert(parts[0].0 != c);
            assert forall|i: int| 0 <= i < rest.len() implies (#[trigger] rest[i]).0 != c by {
                assert(rest[i] == parts[i + 1]);
            }
        }
    }
}

proof fn lemma_no_clash(parts: Seq<(Col, Seq<char>)>, k: int, i: int, j: int)
    requires
        0 <= k <= j,
        0 <= i < j < parts.len(),
        parts[i].0 == parts[j].0,
    ensures
        fs_operate::first_clash(parts, k) is Some,
    decreases j - k,
{
    if k < j {
        lemma_no_clash(parts, k + 1, i, j);
    } else {
        lemma_part_before(parts.take(j), parts[j].0);
        assert(parts.take(j)[i] == parts[i]);
    }
}

proof fn lemma_parts_of(
    reg: Seq<tag::TagFnModel>,
    names: Seq<Seq<char>>,
    i: int,
    c: Col,
) -> (at: (int, int))
    requires
        0 <= i < names.len(),
        fs_operate::components_of(reg, names[i]).contains(c),
    ensures
        at.0 == fs_operate::set_parts(reg, names.take(i)).len(),
        at.0 <= at.1 < fs_operate::set_parts(reg, names.take(i + 1)).len(),
        fs_operate::set_parts(reg, names.take(i + 1)).len() <= fs_operate::set_parts(
            reg,
            names,
        ).len(),
        fs_operate::set_parts(reg, names)[at.1].0 == c,
    decreases names.len(),
{
    let front = names.drop_last();
    let last = names.len() - 1;
    let before = fs_operate::set_parts(reg, front);
    let all = fs_operate::set_parts(reg, names);
    if i < last {
        assert(front[i] == names[i]);
        let at = lemma_parts_of(reg, front, i, c);
        assert(front.take(i) =~= names.take(i));
        assert(front.take(i + 1) =~= names.take(i + 1));
        assert(all[at.1] == before[at.1]);
        at
    } else {
        let own = fs_operate::components_of(reg, names[i]);
        let x = choose|x: int| 0 <= x < own.len() && own[x] == c;
        assert(names.take(i) =~= front);
        assert(names.take(i + 1) =~= names);
        assert(all[before.len() + x].0 == c);
        (before.len() as int, before.len() + x)
    }
}

proof fn lemma_parts_grow(reg: Seq<tag::TagFnModel>, names: Seq<Seq<char>>, i: int, j: int)
    requires
        0 <= i <= j <= names.len(),
    ensures
        fs_operate::set_parts(reg, names.take(i)).len() <= fs_operate::set_parts(
            reg,
            names.take(j),
        ).len(),
    decreases j - i,
{
    if i < j {
        lemma_parts_grow(reg, names, i, j - 1);
        assert(names.take(j).drop_last() =~= names.take(j - 1));
    }
}

/// Types that are set together set no part of a path twice: where two of them would, they are
/// refused.
pub proof fn law_parts_are_set_once(
    reg: Seq<tag::TagFnModel>,
    names: Seq<Seq<char>>,
    i: int,
    j: int,
    c: Col,
)
    requires
        0 <= i < j < names.len(),
        fs_operate::components_of(reg, names[i]).contains(c),
        fs_operate::components_of(reg, names[j]).contains(c),
    ensures
        fs_operate::location_error(reg, names) is Some,
{
    let x = lemma_parts_of(reg, names, i, c);
    let y = lemma_parts_of(reg, names, j, c);
    lemma_parts_grow(reg, names, i + 1, j);
    lemma_no_clash(fs_operate::set_parts(reg, names), 0, x.1, y.1);
}

/// Types are refused together only where a part is set twice. The results are where the part
/// stands among those that are set.
pub proof fn law_only_clashes_are_refused(
    reg: Seq<tag::TagFnModel>,
    names: Seq<Seq<char>>,
    k: int,
) -> (at: (int, int))
    requires
        fs_operate::first_clash(fs_operate::set_parts(reg, names), k) is Some,
    ensures
        0 <= at.0 < at.1 < fs_operate::set_parts(reg, names).len(),
        fs_operate::set_parts(reg, names)[at.0].0 == fs_operate::set_parts(reg, names)[at.1].0,
    decreases fs_operate::set_parts(reg, names).len() - k,
{
    let parts = fs_operate::set_parts(reg, names);
    if fs_operate::part_before(parts.take(k), parts[k].0) is Some {
        lemma_part_before(parts.take(k), parts[k].0);
        let i = choose|i: int|
            0 <= i < parts.take(k).len() && (#[trigger] parts.take(k)[i]).0 == parts[k].0;
        assert(parts.take(k)[i] == parts[i]);
        (i, k)
    } else {
        law_only_clashes_are_refused(reg, names, k + 1)
    }
}

} // verus!
