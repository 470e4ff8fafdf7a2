//! What settling several values for one tag promises, told by the writes before and after.
use crate::edit::action::{ActionModel, OpModel, TargetModel};
use crate::edit::replace;
use crate::edit::replace::{ChosenModel, GroupModel};
use crate::item::{TagModel, TagTypeModel};
use crate::text;
use crate::types::{BiticalModel, ItemId};
use vstd::prelude::*;

verus! {

/// Whether a write puts something on an item.
pub open spec fn puts(actions: Seq<ActionModel>, i: int, k: int, item: ItemId, op: OpModel) -> bool {
    &&& 0 <= i < actions.len()
    &&& actions[i] matches ActionModel::Add { item: id, tags } && id == item && 0 <= k < tags.len()
        && tags[k] == op
}

/// Whether a write takes something from an item.
pub open spec fn takes(
    actions: Seq<ActionModel>,
    i: int,
    k: int,
    item: ItemId,
    t: TargetModel,
) -> bool {
    &&& 0 <= i < actions.len()
    &&& actions[i] matches ActionModel::Delete { item: id, tags } && id == item && 0 <= k
        < tags.len() && tags[k] == t
}

pub open spec fn some_put(actions: Seq<ActionModel>, item: ItemId, op: OpModel) -> bool {
    exists|i: int, k: int| #[trigger] puts(actions, i, k, item, op)
}

pub open spec fn some_take(actions: Seq<ActionModel>, item: ItemId, t: TargetModel) -> bool {
    exists|i: int, k: int| #[trigger] takes(actions, i, k, item, t)
}

proof fn lemma_has_push<T>(s: Seq<T>, y: T, x: T)
    ensures
        s.push(y).contains(x) <==> s.contains(x) || x == y,
{
    let all = s.push(y);
    assert(all[s.len() as int] == y);
    if s.contains(x) {
        let i = choose|i: int| 0 <= i < s.len() && s[i] == x;
        assert(all[i] == x);
    }
    if all.contains(x) && x != y {
        let i = choose|i: int| 0 <= i < all.len() && all[i] == x;
        assert(s[i] == x);
    }
}

/// One more write puts what it holds.
proof fn lemma_put_push(actions: Seq<ActionModel>, a: ActionModel, item: ItemId, op: OpModel)
    ensures
        some_put(actions.push(a), item, op) <==> some_put(actions, item, op) || (a matches ActionModel::Add {
            item: id,
            tags,
        } && id == item && tags.contains(op)),
{
    let all = actions.push(a);
    let n = actions.len() as int;
    assert(all[n] == a);
    if some_put(actions, item, op) {
        let (i, k) = choose|i: int, k: int| #[trigger] puts(actions, i, k, item, op);
        assert(puts(all, i, k, item, op));
    }
    if some_put(all, item, op) {
        let (i, k) = choose|i: int, k: int| #[trigger] puts(all, i, k, item, op);
        if i < n {
            assert(puts(actions, i, k, item, op));
        }
    }
    if let ActionModel::Add { item: id, tags } = a {
        if id == item && tags.contains(op) {
            let k = choose|k: int| 0 <= k < tags.len() && tags[k] == op;
            assert(puts(all, n, k, item, op));
        }
    }
}

proof fn lemma_take_push(actions: Seq<ActionModel>, a: ActionModel, item: ItemId, t: TargetModel)
    ensures
        some_take(actions.push(a), item, t) <==> some_take(actions, item, t) || (a matches ActionModel::Delete {
            item: id,
            tags,
        } && id == item && tags.contains(t)),
{
    let all = actions.push(a);
    let n = actions.len() as int;
    assert(all[n] == a);
    if some_take(actions, item, t) {
        let (i, k) = choose|i: int, k: int| #[trigger] takes(actions, i, k, item, t);
        assert(takes(all, i, k, item, t));
    }
    if some_take(all, item, t) {
        let (i, k) = choose|i: int, k: int| #[trigger] takes(all, i, k, item, t);
        if i < n {
            assert(takes(actions, i, k, item, t));
        }
    }
    if let ActionModel::Delete { item: id, tags } = a {
        if id == item && tags.contains(t) {
            let k = choose|k: int| 0 <= k < tags.len() && tags[k] == t;
            assert(takes(all, n, k, item, t));
        }
    }
}

/// Whether some tag of a type would get a value by the tags of a write.
spec fn replaces(ops: Seq<OpModel>, ty: TagTypeModel) -> bool {
    exists|k: int| 0 <= k < ops.len() && (#[trigger] ops[k]) is Replace && ops[k]->Replace_0.tag_type == ty
}

proof fn lemma_kept_ops(
    item: ItemId,
    ops: Seq<OpModel>,
    chosen: Seq<ChosenModel>,
    given: Seq<(ItemId, TagTypeModel)>,
    op: OpModel,
    key: (ItemId, TagTypeModel),
)
    ensures
        ({
            let r = replace::kept_ops(item, ops, chosen, given);
            &&& op is Append ==> (r.0.contains(op) <==> ops.contains(op))
            &&& op is Replace && r.0.contains(op) ==> replace::chosen_for(
                chosen,
                item,
                op->Replace_0.tag_type,
            ) == Some(Some(op->Replace_0.value))
            &&& op is Replace && replace::chosen_for(chosen, item, op->Replace_0.tag_type) == Some(
                Some(op->Replace_0.value),
            ) && replaces(ops, op->Replace_0.tag_type) && !given.contains(
                (item, op->Replace_0.tag_type),
            ) ==> r.0.contains(op)
            &&& r.1.contains(key) <==> given.contains(key) || (key.0 == item && replaces(ops, key.1)
                && replace::chosen_for(chosen, item, key.1) matches Some(Some(_)))
        }),
    decreases ops.len(),
{
    if ops.len() > 0 {
        let rest = ops.drop_last();
        let last = ops.last();
        lemma_kept_ops(item, rest, chosen, given, op, key);
        let before = replace::kept_ops(item, rest, chosen, given);
        lemma_has_push(rest, last, op);
        assert(rest.push(last) =~= ops);
        lemma_has_push(before.0, last, op);
        assert forall|ty: TagTypeModel| #[trigger] replaces(ops, ty) <==> replaces(rest, ty) || (
        last is Replace && last->Replace_0.tag_type == ty) by {
            assert(ops[ops.len() - 1] == last);
            if replaces(rest, ty) {
                let k = choose|k: int|
                    0 <= k < rest.len() && (#[trigger] rest[k]) is Replace
                        && rest[k]->Replace_0.tag_type == ty;
                assert(ops[k] == rest[k]);
            }
            if replaces(ops, ty) {
                let k = choose|k: int|
                    0 <= k < ops.len() && (#[trigger] ops[k]) is Replace
                        && ops[k]->Replace_0.tag_type == ty;
                if k < rest.len() {
                    assert(rest[k] == ops[k]);
                }
            }
        }
        if let OpModel::Replace(t) = last {
            let own = (item, t.tag_type);
            if let Some(Some(l)) = replace::chosen_for(chosen, item, t.tag_type) {
                let put = OpModel::Replace(TagModel { tag_type: t.tag_type, value: l });
                lemma_has_push(before.0, put, op);
                lemma_has_push(before.1, own, key);
                lemma_kept_ops(item, rest, chosen, given, op, own);
                if before.1.contains(own) && op is Replace && op->Replace_0.tag_type == t.tag_type
                    && !given.contains(own) {
                    assert(replaces(rest, t.tag_type));
                }
            }
        }
    }
}

proof fn lemma_kept_targets(
    item: ItemId,
    ts: Seq<TargetModel>,
    chosen: Seq<ChosenModel>,
    t: TargetModel,
)
    ensures
        replace::kept_targets(item, ts, chosen).contains(t) <==> ts.contains(t) && !(
        t matches TargetModel::Type(ty) && replace::chosen_for(chosen, item, ty) == Some(
            None::<BiticalModel>,
        )),
    decreases ts.len(),
{
    reveal(Seq::filter);
    if ts.len() > 0 {
        let rest = ts.drop_last();
        lemma_kept_targets(item, rest, chosen, t);
        lemma_has_push(rest, ts.last(), t);
        assert(rest.push(ts.last()) =~= ts);
        lemma_has_push(replace::kept_targets(item, rest, chosen), ts.last(), t);
    }
}

/// After the values are settled, every tag that is added to others is added still; a tag that
/// gets a value gets the one that was chosen for it, and gets one wherever one was chosen; and
/// everything is taken that was to be taken, but for the old values of a type that is skipped.
pub proof fn law_settled_writes(
    actions: Seq<ActionModel>,
    chosen: Seq<ChosenModel>,
    item: ItemId,
    t: TagModel,
    target: TargetModel,
)
    ensures
        ({
            let after = replace::rebuilt(actions, chosen).0;
            let choice = replace::chosen_for(chosen, item, t.tag_type);
            &&& some_put(after, item, OpModel::Append(t)) <==> some_put(
                actions,
                item,
                OpModel::Append(t),
            )
            &&& some_put(after, item, OpModel::Replace(t)) ==> choice == Some(Some(t.value))
            &&& choice == Some(Some(t.value)) && (exists|v: BiticalModel|
                #[trigger] some_put(
                    actions,
                    item,
                    OpModel::Replace(TagModel { tag_type: t.tag_type, value: v }),
                )) ==> some_put(after, item, OpModel::Replace(t))
            &&& some_take(after, item, target) <==> some_take(actions, item, target) && !(
            target matches TargetModel::Type(ty) && replace::chosen_for(chosen, item, ty) == Some(
                None::<BiticalModel>,
            ))
        }),
{
    lemma_rebuilt(actions, chosen, item, t, target);
}

proof fn lemma_rebuilt(
    actions: Seq<ActionModel>,
    chosen: Seq<ChosenModel>,
    item: ItemId,
    t: TagModel,
    target: TargetModel,
)
    ensures
        ({
            let r = replace::rebuilt(actions, chosen);
            let after = r.0;
            let choice = replace::chosen_for(chosen, item, t.tag_type);
            let key = (item, t.tag_type);
            &&& some_put(after, item, OpModel::Append(t)) <==> some_put(
                actions,
                item,
                OpModel::Append(t),
            )
            &&& some_put(after, item, OpModel::Replace(t)) ==> choice == Some(Some(t.value))
            &&& choice == Some(Some(t.value)) && (exists|v: BiticalModel|
                #[trigger] some_put(
                    actions,
                    item,
                    OpModel::Replace(TagModel { tag_type: t.tag_type, value: v }),
                )) ==> some_put(after, item, OpModel::Replace(t))
            &&& choice == Some(Some(t.value)) && r.1.contains(key) ==> some_put(
                after,
                item,
                OpModel::Replace(t),
            )
            &&& some_take(after, item, target) <==> some_take(actions, item, target) && !(
            target matches TargetModel::Type(ty) && replace::chosen_for(chosen, item, ty) == Some(
                None::<BiticalModel>,
            ))
        }),
    decreases actions.len(),
{
    if actions.len() > 0 {
        let rest = actions.drop_last();
        let a = actions.last();
        lemma_rebuilt(rest, chosen, item, t, target);
        let before = replace::rebuilt(rest, chosen);
        assert(rest.push(a) =~= actions);
        let add = OpModel::Append(t);
        let put = OpModel::Replace(t);
        lemma_put_push(rest, a, item, add);
        lemma_put_push(rest, a, item, put);
        lemma_take_push(rest, a, item, target);
        let key = (item, t.tag_type);
        match a {
            ActionModel::Add { item: id, tags } => {
                let kept = replace::kept_ops(id, tags, chosen, before.1);
                lemma_kept_ops(id, tags, chosen, before.1, add, key);
                lemma_kept_ops(id, tags, chosen, before.1, put, key);
                let b = ActionModel::Add { item: id, tags: kept.0 };
                lemma_put_push(before.0, b, item, add);
                lemma_put_push(before.0, b, item, put);
                lemma_take_push(before.0, b, item, target);
                if exists|v: BiticalModel|
                    #[trigger] some_put(
                        actions,
                        item,
                        OpModel::Replace(TagModel { tag_type: t.tag_type, value: v }),
                    ) {
                    let v = choose|v: BiticalModel|
                        #[trigger] some_put(
                            actions,
                            item,
                            OpModel::Replace(TagModel { tag_type: t.tag_type, value: v }),
                        );
                    let old = OpModel::Replace(TagModel { tag_type: t.tag_type, value: v });
                    lemma_put_push(rest, a, item, old);
                    if !some_put(rest, item, old) {
                        let k = choose|k: int| 0 <= k < tags.len() && tags[k] == old;
                        assert(tags[k] is Replace);
                        assert(replaces(tags, t.tag_type));
                    }
                }
            },
            ActionModel::Delete { item: id, tags } => {
                let kept = replace::kept_targets(id, tags, chosen);
                lemma_kept_targets(id, tags, chosen, target);
                let b = ActionModel::Delete { item: id, tags: kept };
                lemma_put_push(before.0, b, item, add);
                lemma_put_push(before.0, b, item, put);
                lemma_take_push(before.0, b, item, target);
                if exists|v: BiticalModel|
                    #[trigger] some_put(
                        actions,
                        item,
                        OpModel::Replace(TagModel { tag_type: t.tag_type, value: v }),
                    ) {
                    let v = choose|v: BiticalModel|
                        #[trigger] some_put(
                            actions,
                            item,
                            OpModel::Replace(TagModel { tag_type: t.tag_type, value: v }),
                        );
                    let old = OpModel::Replace(TagModel { tag_type: t.tag_type, value: v });
                    lemma_put_push(rest, a, item, old);
                    assert(some_put(rest, item, old));
                }
            },
        }
    }
}

proof fn lemma_with_label(sorted: Seq<BiticalModel>, l: BiticalModel, x: BiticalModel)
    ensures
        replace::with_label(sorted, l).contains(x) <==> sorted.contains(x) || x == l,
        replace::with_label(sorted, l).len() == sorted.len() + 1,
    decreases sorted.len(),
{
    lemma_has_push(sorted, l, x);
    if sorted.len() > 0 && !text::text_le(sorted.last().shown(), l.shown()) {
        let rest = sorted.drop_last();
        lemma_with_label(rest, l, x);
        lemma_has_push(replace::with_label(rest, l), sorted.last(), x);
        lemma_has_push(rest, sorted.last(), x);
        assert(rest.push(sorted.last()) =~= sorted);
    }
}

proof fn lemma_sorted_labels(v: Seq<BiticalModel>, x: BiticalModel)
    ensures
        replace::sorted_labels(v).contains(x) <==> v.contains(x),
        replace::sorted_labels(v).len() == v.len(),
    decreases v.len(),
{
    if v.len() > 0 {
        let rest = v.drop_last();
        lemma_sorted_labels(rest, x);
        lemma_with_label(replace::sorted_labels(rest), v.last(), x);
        lemma_has_push(rest, v.last(), x);
        assert(rest.push(v.last()) =~= v);
    }
}

proof fn lemma_distinct(v: Seq<BiticalModel>, x: BiticalModel)
    ensures
        replace::distinct(v).contains(x) ==> v.contains(x),
        v.contains(x) ==> replace::holds_value(replace::distinct(v), x) || replace::distinct(
            v,
        ).contains(x),
    decreases v.len(),
{
    if v.len() > 0 {
        let rest = v.drop_last();
        lemma_distinct(rest, x);
        lemma_has_push(rest, v.last(), x);
        assert(rest.push(v.last()) =~= v);
        let before = replace::distinct(rest);
        let all = replace::distinct(v);
        lemma_has_push(before, v.last(), x);
        if replace::holds_value(before, x) {
            let k = choose|k: int| 0 <= k < before.len() && (#[trigger] before[k]).same(x);
            assert(all[k] == before[k]);
        }
    }
}

/// The values to choose from are those that a tag would get: each is one of them, and each of
/// them is there, or one that is the same.
pub proof fn law_choices_are_the_values(g: GroupModel, x: BiticalModel)
    ensures
        replace::choices(g).contains(x) ==> g.labels.contains(x),
        g.labels.contains(x) ==> replace::choices(g).contains(x) || replace::holds_value(
            replace::choices(g),
            x,
        ),
{
    let d = replace::distinct(g.labels);
    lemma_distinct(g.labels, x);
    lemma_sorted_labels(d, x);
    if replace::holds_value(d, x) {
        let k = choose|k: int| 0 <= k < d.len() && (#[trigger] d[k]).same(x);
        let y = d[k];
        lemma_sorted_labels(d, y);
        assert(d.contains(y));
        let c = replace::choices(g);
        let j = choose|j: int| 0 <= j < c.len() && c[j] == y;
        assert(c[j].same(x));
    }
}

} // verus!
