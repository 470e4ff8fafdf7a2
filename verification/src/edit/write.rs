//! Carrying writes out: giving new items their ids, counting what changes, and sorting the
//! writes by the table they go to.
use crate::col::Col;
use crate::db::identifier;
use crate::db::TargetTable;
use crate::edit::action;
use crate::edit::action::{ActionModel, OpModel, TargetModel};
use crate::item::{TagModel, TagType, TagTypeModel, TypedTag};
use crate::tag;
use crate::tag::TagRegistry;
use crate::text;
use crate::text::{contains_text, str_eq};
use crate::types::{Bitical, BiticalModel, BiticalType, ItemId, Origin};
use vstd::prelude::*;

pub use crate::edit::action::{DeleteTarget, TagOp, WriteAction};

verus! {

/// What a write did.
#[derive(Debug)]
pub struct WriteResponse {
    pub updated: usize,
    pub deleted: usize,
    pub new_item_ids: Vec<i64>,
}

// ---------------------------------------------------------------------------
// Ids for new items
// ---------------------------------------------------------------------------

/// The largest id in use in each block.
#[derive(Clone, Copy, Debug)]
pub struct BlockMaxima {
    pub builtin: i64,
    pub user: i64,
    pub file: i64,
    pub plugin: i64,
}

impl BlockMaxima {
    pub open spec fn of(self, o: Origin) -> i64 {
        match o {
            Origin::Builtin => self.builtin,
            Origin::User => self.user,
            Origin::File => self.file,
            Origin::Plugin => self.plugin,
        }
    }

    /// Whether there are ids left for the new items of some actions.
    pub open spec fn room_for(self, actions: Seq<ActionModel>) -> bool {
        forall|o: Origin| #[trigger] self.of(o) + counters(actions, o).len() <= i64::MAX
    }

    /// Whether the ids in use, and those of the new items of some actions, stay in their
    /// blocks.
    pub open spec fn in_blocks(self, actions: Seq<ActionModel>) -> bool {
        forall|o: Origin|
            o.lo() - 1 <= #[trigger] self.of(o) && self.of(o) + counters(actions, o).len() < o.hi()
    }

    pub fn get(&self, o: Origin) -> (r: i64)
        ensures
            r == self.of(o),
    {
        match o {
            Origin::Builtin => self.builtin,
            Origin::User => self.user,
            Origin::File => self.file,
            Origin::Plugin => self.plugin,
        }
    }
}

/// The block in which an item is to be stored, and the number by which it is known until
/// then: an even one for an item that came up in a query, an odd one for an item that is to
/// settle in a block, so that the two never share one.
pub open spec fn pending(id: ItemId) -> Option<(Origin, u128)> {
    match id {
        ItemId::Volatile(c) => Some((Origin::User, (2 * c) as u128)),
        ItemId::Settling(o, c) => Some((o, (2 * c + 1) as u128)),
        ItemId::Stored(_) => None,
    }
}

fn pending_as(id: &ItemId) -> (r: Option<(Origin, u128)>)
    ensures
        r == pending(*id),
{
    match id {
        ItemId::Volatile(c) => Some((Origin::User, 2 * (*c as u128))),
        ItemId::Settling(o, c) => Some((*o, 2 * (*c as u128) + 1)),
        ItemId::Stored(_) => None,
    }
}

/// The block in which the new item of an action is to be stored, if it is on a new one.
pub open spec fn new_in(a: ActionModel) -> Option<Origin> {
    match a {
        ActionModel::Add { item, .. } => match pending(item) {
            Some(p) => Some(p.0),
            None => None,
        },
        ActionModel::Delete { .. } => None,
    }
}

/// The numbers with one more, ascending and each once.
pub open spec fn with_counter(s: Seq<u128>, c: u128) -> Seq<u128>
    decreases s.len(),
{
    if s.len() == 0 {
        seq![c]
    } else if c == s.last() {
        s
    } else if c > s.last() {
        s.push(c)
    } else {
        with_counter(s.drop_last(), c).push(s.last())
    }
}

/// The numbers of the items that are to be stored in a block, ascending and each once.
pub open spec fn counters(actions: Seq<ActionModel>, o: Origin) -> Seq<u128>
    decreases actions.len(),
{
    if actions.len() == 0 {
        seq![]
    } else {
        let before = counters(actions.drop_last(), o);
        match actions.last() {
            ActionModel::Add { item, .. } => match pending(item) {
                Some(p) => if p.0 == o {
                    with_counter(before, p.1)
                } else {
                    before
                },
                None => before,
            },
            ActionModel::Delete { .. } => before,
        }
    }
}

/// The position of a number.
pub open spec fn place_of(s: Seq<u128>, c: u128) -> int
    decreases s.len(),
{
    if s.len() == 0 {
        0
    } else if s.last() == c {
        s.len() - 1
    } else {
        place_of(s.drop_last(), c)
    }
}

/// The id under which an item is stored: its own, or the one that it is given.
pub open spec fn stored_id(all: Seq<ActionModel>, maxima: BlockMaxima, id: ItemId) -> ItemId {
    match pending(id) {
        None => id,
        Some(p) => ItemId::Stored(
            (maxima.of(p.0) + 1 + place_of(counters(all, p.0), p.1)) as i64,
        ),
    }
}

/// An action on the id under which its item is stored.
pub open spec fn stored_action(
    all: Seq<ActionModel>,
    maxima: BlockMaxima,
    a: ActionModel,
) -> ActionModel {
    match a {
        ActionModel::Add { item, tags } => ActionModel::Add {
            item: stored_id(all, maxima, item),
            tags,
        },
        other => other,
    }
}

pub open spec fn stored_actions(all: Seq<ActionModel>, maxima: BlockMaxima) -> Seq<ActionModel> {
    all.map_values(|a: ActionModel| stored_action(all, maxima, a))
}

/// The ids that are handed out, block by block.
pub open spec fn new_ids(all: Seq<ActionModel>, maxima: BlockMaxima) -> Seq<i64> {
    identifier::ids_after(
        maxima.of(Origin::Builtin) as int,
        counters(all, Origin::Builtin).len(),
    ) + identifier::ids_after(maxima.of(Origin::User) as int, counters(all, Origin::User).len())
        + identifier::ids_after(maxima.of(Origin::File) as int, counters(all, Origin::File).len())
        + identifier::ids_after(
        maxima.of(Origin::Plugin) as int,
        counters(all, Origin::Plugin).len(),
    )
}

/// The first action that deletes from an item that is not stored.
pub open spec fn first_unstored_delete(actions: Seq<ActionModel>) -> Option<ItemId>
    decreases actions.len(),
{
    if actions.len() == 0 {
        None
    } else {
        match actions[0] {
            ActionModel::Delete { item, .. } => if !item.stored() {
                Some(item)
            } else {
                first_unstored_delete(actions.skip(1))
            },
            ActionModel::Add { .. } => first_unstored_delete(actions.skip(1)),
        }
    }
}

/// Why writes are refused.
#[derive(Clone, Copy, Debug, PartialEq, Eq, Structural)]
pub enum WriteError {
    /// A delete on an item that is not stored yet.
    UnresolvedDelete(ItemId),
}

impl WriteError {
    /// The reason in words.
    pub fn message(&self) -> (r: String)
        ensures
            r@ == (match *self {
                WriteError::UnresolvedDelete(item) => "cannot delete an unresolved item ("@
                    + item.shown() + ") that has not been stored yet"@,
            }),
    {
        match self {
            WriteError::UnresolvedDelete(item) => text::cat3(
                "cannot delete an unresolved item (",
                item.show().as_str(),
                ") that has not been stored yet",
            ),
        }
    }
}

fn insert_counter(v: &mut Vec<u128>, c: u128)
    ensures
        final(v)@ == with_counter(old(v)@, c),
    decreases old(v)@.len(),
{
    let ghost before = v@;
    match v.pop() {
        None => {
            v.push(c);
            proof {
                assert(v@ =~= seq![c]);
            }
        },
        Some(last) => {
            proof {
                assert(v@ =~= before.drop_last());
            }
            if c == last {
                v.push(last);
                proof {
                    assert(v@ =~= before);
                }
            } else if c > last {
                v.push(last);
                proof {
                    assert(v@ =~= before);
                }
                v.push(c);
            } else {
                insert_counter(v, c);
                v.push(last);
            }
        },
    }
}

fn collect_counters(actions: &Vec<WriteAction>, o: Origin) -> (r: Vec<u128>)
    ensures
        r@ == counters(action::action_models(actions@), o),
{
    let ghost ms = action::action_models(actions@);
    let mut r: Vec<u128> = Vec::new();
    let mut i: usize = 0;
    proof {
        assert(ms.take(0) =~= seq![]);
    }
    while i < actions.len()
        invariant
            i <= actions@.len(),
            ms == action::action_models(actions@),
            r@ == counters(ms.take(i as int), o),
        decreases actions@.len() - i,
    {
        proof {
            assert(ms.take(i + 1).drop_last() =~= ms.take(i as int));
            assert(ms.take(i + 1).last() == actions@[i as int]@);
        }
        match &actions[i] {
            WriteAction::Add { item, .. } => {
                let p = pending_as(item);
                match p {
                    Some(k) => {
                        if k.0 == o {
                            insert_counter(&mut r, k.1);
                        }
                    },
                    None => {},
                }
            },
            WriteAction::Delete { .. } => {},
        }
        i += 1;
    }
    proof {
        assert(ms.take(ms.len() as int) =~= ms);
    }
    r
}

fn find_place(s: &Vec<u128>, c: u128) -> (r: usize)
    ensures
        r == place_of(s@, c),
        r <= s@.len(),
{
    let mut n: usize = s.len();
    proof {
        assert(s@.take(n as int) =~= s@);
    }
    while n > 0
        invariant
            n <= s@.len(),
            place_of(s@, c) == place_of(s@.take(n as int), c),
        decreases n,
    {
        proof {
            assert(s@.take(n as int).drop_last() =~= s@.take(n - 1));
            assert(s@.take(n as int).last() == s@[n - 1]);
        }
        if s[n - 1] == c {
            return n - 1;
        }
        n -= 1;
    }
    0
}

/// Whether the new items of a block are kept apart: one id for one item, different ids for
/// different ones.
pub open spec fn kept_apart(before: Seq<ActionModel>, after: Seq<ActionModel>) -> bool {
    forall|i: int, j: int|
        0 <= i < before.len() && 0 <= j < before.len() && new_in(before[i]) is Some && new_in(
            before[i],
        ) == new_in(before[j]) ==> ((#[trigger] after[i]).id() == (#[trigger] after[j]).id()
            <==> before[i].id() == before[j].id())
}

/// Whether all new items are kept apart, and each is stored in its block.
pub open spec fn kept_in_blocks(before: Seq<ActionModel>, after: Seq<ActionModel>) -> bool {
    &&& forall|i: int, j: int|
        0 <= i < before.len() && 0 <= j < before.len() && new_in(before[i]) is Some && new_in(
            before[j],
        ) is Some ==> ((#[trigger] after[i]).id() == (#[trigger] after[j]).id()
            <==> before[i].id() == before[j].id())
    &&& forall|i: int|
        0 <= i < before.len() && new_in(before[i]) is Some ==> Origin::of_id(
            (#[trigger] after[i]).id().raw(),
        ) == new_in(before[i])->0
}

/// Gives every item that is to be stored its id. Items of one block get ids in the order
/// of their numbers; an item keeps one id over all its actions.
pub fn resolve_volatiles(actions: Vec<WriteAction>, maxima: &BlockMaxima) -> (r: Result<
    (Vec<WriteAction>, Vec<i64>),
    WriteError,
>)
    requires
        maxima.room_for(action::action_models(actions@)),
    ensures
        match r {
            Ok(p) => {
                &&& kept_apart(action::action_models(actions@), action::action_models(p.0@))
                &&& maxima.in_blocks(action::action_models(actions@)) ==> kept_in_blocks(
                    action::action_models(actions@),
                    action::action_models(p.0@),
                ) && p.1@.no_duplicates()
                &&& first_unstored_delete(action::action_models(actions@)) is None
                &&& action::action_models(p.0@) == stored_actions(
                    action::action_models(actions@),
                    *maxima,
                )
                &&& p.1@ == new_ids(action::action_models(actions@), *maxima)
            },
            Err(e) => first_unstored_delete(action::action_models(actions@)) == Some(
                e->UnresolvedDelete_0,
            ),
        },
{
    let ghost ms = action::action_models(actions@);
    let mut i: usize = 0;
    proof {
        assert(ms.skip(0) =~= ms);
    }
    while i < actions.len()
        invariant
            i <= actions@.len(),
            ms == action::action_models(actions@),
            first_unstored_delete(ms) == first_unstored_delete(ms.skip(i as int)),
        decreases actions@.len() - i,
    {
        proof {
            assert(ms.skip(i as int)[0] == actions@[i as int]@);
            assert(ms.skip(i as int).skip(1) =~= ms.skip(i + 1));
        }
        match &actions[i] {
            WriteAction::Delete { item, .. } => {
                if !item.is_stored() {
                    return Err(WriteError::UnresolvedDelete(*item));
                }
            },
            WriteAction::Add { .. } => {},
        }
        i += 1;
    }
    let builtin = collect_counters(&actions, Origin::Builtin);
    let user = collect_counters(&actions, Origin::User);
    let file = collect_counters(&actions, Origin::File);
    let plugin = collect_counters(&actions, Origin::Plugin);
    proof {
        assert(maxima.of(Origin::Builtin) + counters(ms, Origin::Builtin).len() <= i64::MAX);
        assert(maxima.of(Origin::User) + counters(ms, Origin::User).len() <= i64::MAX);
        assert(maxima.of(Origin::File) + counters(ms, Origin::File).len() <= i64::MAX);
        assert(maxima.of(Origin::Plugin) + counters(ms, Origin::Plugin).len() <= i64::MAX);
    }
    let mut ids = identifier::next(maxima.get(Origin::Builtin), builtin.len());
    let mut more = identifier::next(maxima.get(Origin::User), user.len());
    ids.append(&mut more);
    let mut more = identifier::next(maxima.get(Origin::File), file.len());
    ids.append(&mut more);
    let mut more = identifier::next(maxima.get(Origin::Plugin), plugin.len());
    ids.append(&mut more);
    let ghost wanted = stored_actions(ms, *maxima);
    let mut out: Vec<WriteAction> = Vec::new();
    let mut k: usize = 0;
    proof {
        assert(action::action_models(out@) =~= wanted.take(0));
    }
    while k < actions.len()
        invariant
            k <= actions@.len(),
            ms == action::action_models(actions@),
            wanted == stored_actions(ms, *maxima),
            builtin@ == counters(ms, Origin::Builtin),
            user@ == counters(ms, Origin::User),
            file@ == counters(ms, Origin::File),
            plugin@ == counters(ms, Origin::Plugin),
            maxima.room_for(ms),
            action::action_models(out@) == wanted.take(k as int),
        decreases actions@.len() - k,
    {
        let a = match &actions[k] {
            WriteAction::Add { item, tags } => {
                let p = pending_as(item);
                let id = match p {
                    None => *item,
                    Some(key) => {
                        let list = match key.0 {
                            Origin::Builtin => &builtin,
                            Origin::User => &user,
                            Origin::File => &file,
                            Origin::Plugin => &plugin,
                        };
                        let at: usize = find_place(list, key.1);
                        let max: i64 = maxima.get(key.0);
                        proof {
                            assert(ms[k as int] == actions@[k as int]@);
                            lemma_counters(ms, key.0);
                            lemma_place(counters(ms, key.0), key.1);
                            assert(maxima.of(key.0) + counters(ms, key.0).len() <= i64::MAX);
                        }
                        ItemId::Stored(((max as i128) + 1 + (at as i128)) as i64)
                    },
                };
                WriteAction::Add { item: id, tags: action::clone_ops(tags) }
            },
            WriteAction::Delete { item, tags } => WriteAction::Delete {
                item: *item,
                tags: action::clone_targets(tags),
            },
        };
        proof {
            action::lemma_actions_push(out@, a);
            assert(wanted[k as int] == stored_action(ms, *maxima, ms[k as int]));
            assert(a@ == wanted[k as int]);
            assert(wanted.take(k + 1) =~= wanted.take(k as int).push(a@));
        }
        out.push(a);
        k += 1;
    }
    proof {
        assert(wanted.take(wanted.len() as int) =~= wanted);
        lemma_kept_apart(ms, *maxima);
        if maxima.in_blocks(ms) {
            lemma_kept_in_blocks(ms, *maxima);
            lemma_new_ids_once(ms, *maxima);
        }
    }
    Ok((out, ids))
}

pub open spec fn ascending(s: Seq<u128>) -> bool {
    forall|i: int, j: int| 0 <= i < j < s.len() ==> s[i] < s[j]
}

proof fn lemma_with_counter(s: Seq<u128>, c: u128)
    requires
        ascending(s),
    ensures
        ascending(with_counter(s, c)),
        forall|x: u128| #[trigger]
            with_counter(s, c).contains(x) <==> (s.contains(x) || x == c),
        s.len() > 0 ==> with_counter(s, c).last() >= s.last() && with_counter(s, c).last() >= c && (
        with_counter(s, c).last() == s.last() || with_counter(s, c).last() == c),
        s.len() == 0 ==> with_counter(s, c) == seq![c],
    decreases s.len(),
{
    let r = with_counter(s, c);
    if s.len() == 0 {
        assert forall|x: u128| #[trigger] r.contains(x) <==> (s.contains(x) || x == c) by {
            if x == c {
                assert(r[0] == x);
            }
        }
    } else if c == s.last() {
        assert(s[s.len() - 1] == c);
    } else if c > s.last() {
        assert forall|x: u128| #[trigger] r.contains(x) <==> (s.contains(x) || x == c) by {
            if s.contains(x) {
                let k = choose|k: int| 0 <= k < s.len() && s[k] == x;
                assert(r[k] == x);
            }
            if x == c {
                assert(r[s.len() as int] == c);
            }
        }
    } else {
        let t = s.drop_last();
        lemma_with_counter(t, c);
        let w = with_counter(t, c);
        assert forall|i: int| 0 <= i < w.len() implies w[i] < s.last() by {
            assert(w.contains(w[i]));
            if t.contains(w[i]) {
                let k = choose|k: int| 0 <= k < t.len() && t[k] == w[i];
                assert(s[k] < s[s.len() - 1]);
            }
        }
        assert forall|x: u128| #[trigger] r.contains(x) <==> (s.contains(x) || x == c) by {
            if r.contains(x) {
                let k = choose|k: int| 0 <= k < r.len() && r[k] == x;
                if k < w.len() {
                    assert(w[k] == x);
                    assert(w.contains(x));
                    if t.contains(x) {
                        let j = choose|j: int| 0 <= j < t.len() && t[j] == x;
                        assert(s[j] == x);
                    }
                } else {
                    assert(s[s.len() - 1] == x);
                }
            }
            if s.contains(x) {
                let j = choose|j: int| 0 <= j < s.len() && s[j] == x;
                if j < t.len() {
                    assert(t[j] == x);
                    assert(t.contains(x));
                    assert(w.contains(x));
                    let k = choose|k: int| 0 <= k < w.len() && w[k] == x;
                    assert(r[k] == x);
                } else {
                    assert(r[w.len() as int] == x);
                }
            }
            if x == c {
                assert(w.contains(c));
                let k = choose|k: int| 0 <= k < w.len() && w[k] == c;
                assert(r[k] == c);
            }
        }
    }
}

proof fn lemma_counters(actions: Seq<ActionModel>, o: Origin)
    ensures
        ascending(counters(actions, o)),
        forall|i: int|
            0 <= i < actions.len() && (#[trigger] actions[i]) is Add && pending(actions[i].id())
                is Some && (pending(actions[i].id())->0).0 == o ==> counters(actions, o).contains(
                (pending(actions[i].id())->0).1,
            ),
    decreases actions.len(),
{
    if actions.len() > 0 {
        let t = actions.drop_last();
        lemma_counters(t, o);
        let before = counters(t, o);
        match actions.last() {
            ActionModel::Add { item, .. } => {
                match pending(item) {
                    Some(p) => {
                        if p.0 == o {
                            lemma_with_counter(before, p.1);
                        }
                    },
                    None => {},
                }
            },
            ActionModel::Delete { .. } => {},
        }
        assert forall|i: int|
            0 <= i < actions.len() && (#[trigger] actions[i]) is Add && pending(actions[i].id())
                is Some && (pending(actions[i].id())->0).0 == o implies counters(
            actions,
            o,
        ).contains((pending(actions[i].id())->0).1) by {
            if i < t.len() {
                assert(t[i] == actions[i]);
                assert(before.contains((pending(actions[i].id())->0).1));
            }
        }
    }
}

proof fn lemma_place(s: Seq<u128>, c: u128)
    requires
        s.contains(c),
    ensures
        0 <= place_of(s, c) < s.len(),
        s[place_of(s, c)] == c,
    decreases s.len(),
{
    if s.last() != c {
        let k = choose|k: int| 0 <= k < s.len() && s[k] == c;
        assert(s.drop_last()[k] == c);
        lemma_place(s.drop_last(), c);
    }
}

/// Every item that is to be stored gets an id just above those in use in its block, and
/// two items of one block that are not the same get different ids.
pub proof fn law_new_items_get_their_own_ids(
    all: Seq<ActionModel>,
    maxima: BlockMaxima,
    i: int,
    j: int,
)
    requires
        maxima.room_for(all),
        0 <= i < all.len(),
        0 <= j < all.len(),
        new_in(all[i]) is Some,
        new_in(all[i]) == new_in(all[j]),
    ensures
        ({
            let o = new_in(all[i])->0;
            let a = stored_id(all, maxima, all[i].id());
            let b = stored_id(all, maxima, all[j].id());
            &&& a.stored()
            &&& maxima.of(o) < a.raw() <= maxima.of(o) + counters(all, o).len()
            &&& a == b <==> all[i].id() == all[j].id()
        }),
{
    let o = new_in(all[i])->0;
    lemma_counters(all, o);
    let s = counters(all, o);
    lemma_place(s, (pending(all[i].id())->0).1);
    lemma_place(s, (pending(all[j].id())->0).1);
    assert(maxima.of(o) + counters(all, o).len() <= i64::MAX);
}

/// As long as no block is full, every new item is stored in its block, and any two new items
/// that are not the same get different ids.
pub proof fn law_new_items_stay_in_their_blocks(
    all: Seq<ActionModel>,
    maxima: BlockMaxima,
    i: int,
    j: int,
)
    requires
        maxima.in_blocks(all),
        0 <= i < all.len(),
        0 <= j < all.len(),
        new_in(all[i]) is Some,
        new_in(all[j]) is Some,
    ensures
        ({
            let a = stored_id(all, maxima, all[i].id());
            let b = stored_id(all, maxima, all[j].id());
            &&& Origin::of_id(a.raw()) == new_in(all[i])->0
            &&& a == b <==> all[i].id() == all[j].id()
        }),
{
    lemma_room_in_blocks(all, maxima);
    law_new_items_get_their_own_ids(all, maxima, i, i);
    law_new_items_get_their_own_ids(all, maxima, j, j);
    let o = new_in(all[i])->0;
    let p = new_in(all[j])->0;
    let a = stored_id(all, maxima, all[i].id());
    let b = stored_id(all, maxima, all[j].id());
    assert(o.lo() - 1 <= maxima.of(o) && maxima.of(o) + counters(all, o).len() < o.hi());
    assert(p.lo() - 1 <= maxima.of(p) && maxima.of(p) + counters(all, p).len() < p.hi());
    if o == p {
        law_new_items_get_their_own_ids(all, maxima, i, j);
    }
}

proof fn lemma_room_in_blocks(all: Seq<ActionModel>, maxima: BlockMaxima)
    requires
        maxima.in_blocks(all),
    ensures
        maxima.room_for(all),
{
    assert forall|o: Origin| #[trigger] maxima.of(o) + counters(all, o).len() <= i64::MAX by {
        assert(maxima.of(o) + counters(all, o).len() < o.hi());
    }
}

proof fn lemma_kept_apart(all: Seq<ActionModel>, maxima: BlockMaxima)
    requires
        maxima.room_for(all),
    ensures
        kept_apart(all, stored_actions(all, maxima)),
{
    let after = stored_actions(all, maxima);
    assert forall|i: int, j: int|
        0 <= i < all.len() && 0 <= j < all.len() && new_in(all[i]) is Some && new_in(all[i])
            == new_in(all[j]) implies ((#[trigger] after[i]).id() == (#[trigger] after[j]).id()
        <==> all[i].id() == all[j].id()) by {
        law_new_items_get_their_own_ids(all, maxima, i, j);
    }
}

proof fn lemma_kept_in_blocks(all: Seq<ActionModel>, maxima: BlockMaxima)
    requires
        maxima.in_blocks(all),
    ensures
        kept_in_blocks(all, stored_actions(all, maxima)),
{
    let after = stored_actions(all, maxima);
    assert forall|i: int, j: int|
        0 <= i < all.len() && 0 <= j < all.len() && new_in(all[i]) is Some && new_in(all[j])
            is Some implies ((#[trigger] after[i]).id() == (#[trigger] after[j]).id()
        <==> all[i].id() == all[j].id()) by {
        law_new_items_stay_in_their_blocks(all, maxima, i, j);
    }
    assert forall|i: int| 0 <= i < all.len() && new_in(all[i]) is Some implies Origin::of_id(
        (#[trigger] after[i]).id().raw(),
    ) == new_in(all[i])->0 by {
        law_new_items_stay_in_their_blocks(all, maxima, i, i);
    }
}

proof fn lemma_new_ids_once(all: Seq<ActionModel>, maxima: BlockMaxima)
    requires
        maxima.in_blocks(all),
    ensures
        new_ids(all, maxima).no_duplicates(),
{
    let (b, u, f, p) = (Origin::Builtin, Origin::User, Origin::File, Origin::Plugin);
    assert(b.lo() - 1 <= maxima.of(b) && maxima.of(b) + counters(all, b).len() < b.hi());
    assert(u.lo() - 1 <= maxima.of(u) && maxima.of(u) + counters(all, u).len() < u.hi());
    assert(f.lo() - 1 <= maxima.of(f) && maxima.of(f) + counters(all, f).len() < f.hi());
    assert(p.lo() - 1 <= maxima.of(p) && maxima.of(p) + counters(all, p).len() < p.hi());
    let ib = identifier::ids_after(maxima.of(b) as int, counters(all, b).len());
    let iu = identifier::ids_after(maxima.of(u) as int, counters(all, u).len());
    let i_f = identifier::ids_after(maxima.of(f) as int, counters(all, f).len());
    let ip = identifier::ids_after(maxima.of(p) as int, counters(all, p).len());
    let ids = ib + iu + i_f + ip;
    assert(ids == new_ids(all, maxima));
    assert forall|i: int, j: int| 0 <= i < j < ids.len() implies ids[i] != ids[j] by {}
}

/// After ids are given, every action is on a stored item.
pub proof fn law_all_actions_are_on_stored_items(all: Seq<ActionModel>, maxima: BlockMaxima, i: int)
    requires
        first_unstored_delete(all) is None,
        0 <= i < all.len(),
    ensures
        stored_actions(all, maxima)[i].id().stored(),
    decreases all.len(),
{
    if all[i] is Delete {
        lemma_no_unstored_delete(all, i);
    }
}

proof fn lemma_no_unstored_delete(all: Seq<ActionModel>, i: int)
    requires
        first_unstored_delete(all) is None,
        0 <= i < all.len(),
        all[i] is Delete,
    ensures
        all[i].id().stored(),
    decreases all.len(),
{
    if i > 0 {
        assert(all.skip(1)[i - 1] == all[i]);
        lemma_no_unstored_delete(all.skip(1), i - 1);
    }
}

// ---------------------------------------------------------------------------
// Definitions of built-in types
// ---------------------------------------------------------------------------

/// The tags that are added when a built-in type gets its row: its kind and its name.
pub open spec fn definition_ops(name: Seq<char>) -> Seq<OpModel> {
    seq![
        OpModel::Append(
            TagModel {
                tag_type: TagTypeModel::Base(Col::ItemKind),
                value: BiticalModel::String("type"@),
            },
        ),
        OpModel::Append(
            TagModel {
                tag_type: TagTypeModel::Base(Col::Content),
                value: BiticalModel::String(name),
            },
        ),
    ]
}

/// The offset of a built-in id in its block, in 32 bits.
pub open spec fn builtin_offset(id: i64) -> u32 {
    ((id - Origin::Builtin.lo()) as i64) as u32
}

/// An action with the definition of its built-in type added, where the type has no row yet.
pub open spec fn defined_action(
    reg: Seq<tag::TagFnModel>,
    existing: Seq<i64>,
    a: ActionModel,
) -> ActionModel {
    match a {
        ActionModel::Add { item, tags } => match item {
            ItemId::Stored(id) => if Origin::of_id(id as int) == Origin::Builtin
                && !existing.contains(id) && builtin_offset(id) < reg.len() {
                ActionModel::Add {
                    item,
                    tags: tags + definition_ops(reg[builtin_offset(id) as int].name),
                }
            } else {
                a
            },
            _ => a,
        },
        _ => a,
    }
}

pub open spec fn defined_actions(
    reg: Seq<tag::TagFnModel>,
    existing: Seq<i64>,
    actions: Seq<ActionModel>,
) -> Seq<ActionModel> {
    actions.map_values(|a: ActionModel| defined_action(reg, existing, a))
}

fn contains_id(v: &Vec<i64>, id: i64) -> (r: bool)
    ensures
        r == v@.contains(id),
{
    let mut i: usize = 0;
    while i < v.len()
        invariant
            i <= v@.len(),
            forall|k: int| 0 <= k < i ==> v@[k] != id,
        decreases v@.len() - i,
    {
        if v[i] == id {
            return true;
        }
        i += 1;
    }
    false
}

/// The ids of the built-in types that are written to, whose rows have to be looked for.
pub fn builtin_ids(actions: &Vec<WriteAction>) -> (r: Vec<i64>)
    ensures
        r@ == builtin_targets(action::action_models(actions@)),
{
    let ghost ms = action::action_models(actions@);
    let mut r: Vec<i64> = Vec::new();
    let mut i: usize = 0;
    proof {
        assert(ms.take(0) =~= seq![]);
    }
    while i < actions.len()
        invariant
            i <= actions@.len(),
            ms == action::action_models(actions@),
            r@ == builtin_targets(ms.take(i as int)),
        decreases actions@.len() - i,
    {
        proof {
            assert(ms.take(i + 1).drop_last() =~= ms.take(i as int));
            assert(ms.take(i + 1).last() == actions@[i as int]@);
        }
        match &actions[i] {
            WriteAction::Add { item, .. } => match item {
                ItemId::Stored(id) => {
                    if Origin::within(*id) == Origin::Builtin {
                        r.push(*id);
                    }
                },
                _ => {},
            },
            WriteAction::Delete { .. } => {},
        }
        i += 1;
    }
    proof {
        assert(ms.take(ms.len() as int) =~= ms);
    }
    r
}

pub open spec fn builtin_targets(actions: Seq<ActionModel>) -> Seq<i64>
    decreases actions.len(),
{
    if actions.len() == 0 {
        seq![]
    } else {
        let before = builtin_targets(actions.drop_last());
        match actions.last() {
            ActionModel::Add { item, .. } => match item {
                ItemId::Stored(id) => if Origin::of_id(id as int) == Origin::Builtin {
                    before.push(id)
                } else {
                    before
                },
                _ => before,
            },
            _ => before,
        }
    }
}

/// Adds the kind and the name to writes on built-in types that have no row yet.
pub fn inject_builtin_definitions(
    registry: &TagRegistry,
    existing: &Vec<i64>,
    actions: Vec<WriteAction>,
) -> (r: Vec<WriteAction>)
    ensures
        action::action_models(r@) == defined_actions(
            registry@,
            existing@,
            action::action_models(actions@),
        ),
{
    let ghost ms = action::action_models(actions@);
    let ghost wanted = defined_actions(registry@, existing@, ms);
    let mut out: Vec<WriteAction> = Vec::new();
    let mut i: usize = 0;
    proof {
        assert(action::action_models(out@) =~= wanted.take(0));
    }
    while i < actions.len()
        invariant
            i <= actions@.len(),
            ms == action::action_models(actions@),
            wanted == defined_actions(registry@, existing@, ms),
            action::action_models(out@) == wanted.take(i as int),
        decreases actions@.len() - i,
    {
        let mut extra: Option<String> = None;
        match &actions[i] {
            WriteAction::Add { item, .. } => match item {
                ItemId::Stored(id) => {
                    if Origin::within(*id) == Origin::Builtin && !contains_id(existing, *id) {
                        let offset: u32 = (*id - Origin::Builtin.block_lo()) as u32;
                        extra = registry.builtin_name_for_offset(offset);
                    }
                },
                _ => {},
            },
            WriteAction::Delete { .. } => {},
        }
        let a = match (&actions[i], extra) {
            (WriteAction::Add { item, tags }, Some(name)) => {
                let mut ops = action::clone_ops(tags);
                let ghost before = action::op_models(ops@);
                let kind = TagOp::Append(
                    TypedTag::new(
                        TagType::Base(Col::ItemKind),
                        Bitical::String("type".to_owned()),
                    ),
                );
                let content = TagOp::Append(
                    TypedTag::new(TagType::Base(Col::Content), Bitical::String(name)),
                );
                proof {
                    action::lemma_ops_push(ops@, kind);
                    action::lemma_ops_push(ops@.push(kind), content);
                    assert(before + definition_ops(name@) =~= before.push(kind@).push(content@));
                }
                ops.push(kind);
                ops.push(content);
                WriteAction::Add { item: *item, tags: ops }
            },
            (a, _) => a.clone(),
        };
        proof {
            action::lemma_actions_push(out@, a);
            assert(wanted[i as int] == defined_action(registry@, existing@, ms[i as int]));
            assert(a@ == wanted[i as int]);
            assert(wanted.take(i + 1) =~= wanted.take(i as int).push(a@));
        }
        out.push(a);
        i += 1;
    }
    proof {
        assert(wanted.take(wanted.len() as int) =~= wanted);
    }
    out
}

// ---------------------------------------------------------------------------
// Counting
// ---------------------------------------------------------------------------

/// The number of tags that the actions add to an item.
pub open spec fn added_to(actions: Seq<ActionModel>, id: int) -> nat
    decreases actions.len(),
{
    if actions.len() == 0 {
        0
    } else {
        let before = added_to(actions.drop_last(), id);
        match actions.last() {
            ActionModel::Add { item, tags } => if item.raw() == id {
                before + tags.len()
            } else {
                before
            },
            ActionModel::Delete { .. } => before,
        }
    }
}

/// The number of things that the actions delete from an item.
pub open spec fn deleted_from(actions: Seq<ActionModel>, id: int) -> nat
    decreases actions.len(),
{
    if actions.len() == 0 {
        0
    } else {
        let before = deleted_from(actions.drop_last(), id);
        match actions.last() {
            ActionModel::Delete { item, tags } => if item.raw() == id {
                before + tags.len()
            } else {
                before
            },
            ActionModel::Add { .. } => before,
        }
    }
}

/// The number of tags that the actions add.
pub open spec fn added(actions: Seq<ActionModel>) -> nat
    decreases actions.len(),
{
    if actions.len() == 0 {
        0
    } else {
        added(actions.drop_last()) + (match actions.last() {
            ActionModel::Add { item, tags } => tags.len(),
            ActionModel::Delete { .. } => 0,
        })
    }
}

/// The number of things that the actions name.
pub open spec fn mentioned(actions: Seq<ActionModel>) -> nat
    decreases actions.len(),
{
    if actions.len() == 0 {
        0
    } else {
        mentioned(actions.drop_last()) + (match actions.last() {
            ActionModel::Add { item, tags } => tags.len(),
            ActionModel::Delete { item, tags } => tags.len(),
        })
    }
}

/// Whether the action `k` is the first one that deletes from its item.
pub open spec fn first_delete(actions: Seq<ActionModel>, k: int) -> bool {
    &&& actions[k] is Delete
    &&& forall|j: int|
        0 <= j < k && (#[trigger] actions[j]) is Delete ==> actions[j].id().raw()
            != actions[k].id().raw()
}

pub open spec fn monus(a: nat, b: nat) -> nat {
    if a > b {
        (a - b) as nat
    } else {
        0
    }
}

/// The number of deletions over the first `k` actions, counting each item once: what is
/// deleted from it, less what is added to it.
pub open spec fn net_deleted(actions: Seq<ActionModel>, k: int) -> nat
    decreases k,
{
    if k <= 0 {
        0
    } else {
        net_deleted(actions, k - 1) + (if first_delete(actions, k - 1) {
            let id = actions[k - 1].id().raw();
            monus(deleted_from(actions, id), added_to(actions, id))
        } else {
            0
        })
    }
}

/// The number of deletions: for each item what is deleted, less what is added.
pub open spec fn deletions(actions: Seq<ActionModel>) -> nat {
    net_deleted(actions, actions.len() as int)
}

proof fn lemma_counts(actions: Seq<ActionModel>, k: int, id: int)
    requires
        0 <= k <= actions.len(),
    ensures
        added_to(actions.take(k), id) <= mentioned(actions.take(k)),
        deleted_from(actions.take(k), id) <= mentioned(actions.take(k)),
        added(actions.take(k)) <= mentioned(actions.take(k)),
        mentioned(actions.take(k)) <= mentioned(actions),
    decreases actions.len() - k, k,
{
    if k < actions.len() {
        lemma_counts(actions, k + 1, id);
        assert(actions.take(k + 1).drop_last() =~= actions.take(k));
    } else {
        assert(actions.take(k) =~= actions);
    }
    lemma_counts_prefix(actions.take(k), id);
}

proof fn lemma_counts_prefix(actions: Seq<ActionModel>, id: int)
    ensures
        added_to(actions, id) <= mentioned(actions),
        deleted_from(actions, id) <= mentioned(actions),
        added(actions) <= mentioned(actions),
    decreases actions.len(),
{
    if actions.len() > 0 {
        lemma_counts_prefix(actions.drop_last(), id);
    }
}

/// What is deleted from the items whose first deletion is at or after `k`, in the tail.
proof fn lemma_net_deleted_bound(actions: Seq<ActionModel>, k: int)
    requires
        0 <= k <= actions.len(),
    ensures
        net_deleted(actions, k) <= seen_deleted(actions, actions.len() as int, k),
    decreases k,
{
    if k > 0 {
        lemma_net_deleted_bound(actions, k - 1);
        lemma_seen_step(actions, actions.len() as int, k);
        assert(actions.take(actions.len() as int) =~= actions);
    }
}

/// What the first `n` actions delete from the items from which one of the first `k` deletes.
spec fn seen_deleted(actions: Seq<ActionModel>, n: int, k: int) -> nat
    decreases n,
{
    if n <= 0 {
        0
    } else {
        seen_deleted(actions, n - 1, k) + (match actions[n - 1] {
            ActionModel::Delete { item, tags } => if exists|j: int|
                0 <= j < k && (#[trigger] actions[j]) is Delete && actions[j].id().raw()
                    == item.raw() {
                tags.len()
            } else {
                0
            },
            ActionModel::Add { .. } => 0,
        })
    }
}

proof fn lemma_seen_step(actions: Seq<ActionModel>, n: int, k: int)
    requires
        0 < k <= actions.len(),
        0 <= n <= actions.len(),
    ensures
        first_delete(actions, k - 1) ==> seen_deleted(actions, n, k) == seen_deleted(
            actions,
            n,
            k - 1,
        ) + deleted_from(actions.take(n), actions[k - 1].id().raw()),
        seen_deleted(actions, n, k - 1) <= seen_deleted(actions, n, k),
        seen_deleted(actions, n, k) <= mentioned(actions.take(n)),
    decreases n,
{
    if n > 0 {
        lemma_seen_step(actions, n - 1, k);
        assert(actions.take(n).drop_last() =~= actions.take(n - 1));
        assert(actions.take(n).last() == actions[n - 1]);
        match actions[n - 1] {
            ActionModel::Delete { item, tags } => {
                let id = item.raw();
                if exists|j: int|
                    0 <= j < k - 1 && (#[trigger] actions[j]) is Delete && actions[j].id().raw()
                        == id {
                    let j = choose|j: int|
                        0 <= j < k - 1 && (#[trigger] actions[j]) is Delete
                            && actions[j].id().raw() == id;
                    assert(0 <= j < k && actions[j] is Delete);
                    if first_delete(actions, k - 1) {
                        assert(id != actions[k - 1].id().raw());
                    }
                } else if first_delete(actions, k - 1) && id == actions[k - 1].id().raw() {
                    assert(actions[k - 1] is Delete);
                    assert(exists|j: int|
                        0 <= j < k && (#[trigger] actions[j]) is Delete && actions[j].id().raw()
                            == id);
                } else if first_delete(actions, k - 1) {
                    assert(!(exists|j: int|
                        0 <= j < k && (#[trigger] actions[j]) is Delete && actions[j].id().raw()
                            == id));
                }
            },
            ActionModel::Add { .. } => {},
        }
    } else {
        assert(actions.take(0) =~= seq![]);
    }
}

proof fn lemma_net_deleted_mentioned(actions: Seq<ActionModel>, k: int)
    requires
        0 <= k <= actions.len(),
    ensures
        net_deleted(actions, k) <= mentioned(actions),
{
    let n = actions.len() as int;
    lemma_net_deleted_bound(actions, k);
    if k > 0 {
        lemma_seen_step(actions, n, k);
        assert(actions.take(n) =~= actions);
    }
}

fn count_for(actions: &Vec<WriteAction>, id: i64) -> (r: (usize, usize))
    requires
        mentioned(action::action_models(actions@)) <= usize::MAX,
    ensures
        r.0 == added_to(action::action_models(actions@), id as int),
        r.1 == deleted_from(action::action_models(actions@), id as int),
{
    let ghost ms = action::action_models(actions@);
    let mut add: usize = 0;
    let mut del: usize = 0;
    let mut i: usize = 0;
    proof {
        assert(ms.take(0) =~= seq![]);
    }
    while i < actions.len()
        invariant
            i <= actions@.len(),
            ms == action::action_models(actions@),
            mentioned(ms) <= usize::MAX,
            add == added_to(ms.take(i as int), id as int),
            del == deleted_from(ms.take(i as int), id as int),
        decreases actions@.len() - i,
    {
        proof {
            assert(ms.take(i + 1).drop_last() =~= ms.take(i as int));
            assert(ms.take(i + 1).last() == actions@[i as int]@);
            lemma_counts(ms, i + 1, id as int);
        }
        match &actions[i] {
            WriteAction::Add { item, tags } => {
                if item.as_i64() == id {
                    add += tags.len();
                }
            },
            WriteAction::Delete { item, tags } => {
                if item.as_i64() == id {
                    del += tags.len();
                }
            },
        }
        i += 1;
    }
    proof {
        assert(ms.take(ms.len() as int) =~= ms);
    }
    (add, del)
}

/// The number of tags that are added and the number of deletions. What replaces something
/// on the same item counts as an addition only.
pub fn count_changes(actions: &Vec<WriteAction>) -> (r: (usize, usize))
    requires
        mentioned(action::action_models(actions@)) <= usize::MAX,
    ensures
        r.0 == added(action::action_models(actions@)),
        r.1 == deletions(action::action_models(actions@)),
{
    let ghost ms = action::action_models(actions@);
    let mut add: usize = 0;
    let mut del: usize = 0;
    let mut i: usize = 0;
    proof {
        assert(ms.take(0) =~= seq![]);
    }
    while i < actions.len()
        invariant
            i <= actions@.len(),
            ms == action::action_models(actions@),
            mentioned(ms) <= usize::MAX,
            add == added(ms.take(i as int)),
            del == net_deleted(ms, i as int),
        decreases actions@.len() - i,
    {
        proof {
            assert(ms.take(i + 1).drop_last() =~= ms.take(i as int));
            assert(ms.take(i + 1).last() == actions@[i as int]@);
            lemma_counts(ms, i + 1, 0);
            lemma_net_deleted_mentioned(ms, i + 1);
        }
        match &actions[i] {
            WriteAction::Add { tags, .. } => {
                add += tags.len();
            },
            WriteAction::Delete { item, .. } => {
                let id = item.as_i64();
                if !deletes_before(actions, i, id) {
                    let counts = count_for(actions, id);
                    proof {
                        assert(first_delete(ms, i as int));
                    }
                    if counts.1 > counts.0 {
                        del += counts.1 - counts.0;
                    }
                } else {
                    proof {
                        assert(!first_delete(ms, i as int));
                    }
                }
            },
        }
        i += 1;
    }
    proof {
        assert(ms.take(ms.len() as int) =~= ms);
    }
    (add, del)
}

fn deletes_before(actions: &Vec<WriteAction>, k: usize, id: i64) -> (r: bool)
    requires
        k <= actions@.len(),
    ensures
        r == exists|j: int|
            0 <= j < k && (#[trigger] action::action_models(actions@)[j]) is Delete
                && action::action_models(actions@)[j].id().raw() == id,
{
    let ghost ms = action::action_models(actions@);
    let mut i: usize = 0;
    while i < k
        invariant
            i <= k <= actions@.len(),
            ms == action::action_models(actions@),
            forall|j: int|
                0 <= j < i ==> !((#[trigger] ms[j]) is Delete && ms[j].id().raw() == id),
        decreases k - i,
    {
        match &actions[i] {
            WriteAction::Delete { item, .. } => {
                if item.as_i64() == id {
                    proof {
                        assert(ms[i as int] is Delete);
                    }
                    return true;
                }
            },
            WriteAction::Add { .. } => {},
        }
        i += 1;
    }
    false
}

// ---------------------------------------------------------------------------
// Sorting by table
// ---------------------------------------------------------------------------

/// A deletion from the table of user tags: all tags of a type on an item, or one of them.
#[derive(Debug)]
pub struct UserTagDelete {
    pub item_id: i64,
    pub tag_type: String,
    pub value: Option<Bitical>,
}

#[verifier::ext_equal]
pub struct UserTagDeleteModel {
    pub item_id: i64,
    pub tag_type: Seq<char>,
    pub value: Option<BiticalModel>,
}

impl View for UserTagDelete {
    type V = UserTagDeleteModel;

    open spec fn view(&self) -> UserTagDeleteModel {
        UserTagDeleteModel {
            item_id: self.item_id,
            tag_type: self.tag_type@,
            value: match self.value {
                Some(v) => Some(v@),
                None => None,
            },
        }
    }
}

/// A row for the table of items that are not files.
#[derive(Debug)]
pub struct ItemRow {
    pub item_id: i64,
    pub item_kind: String,
    pub content: String,
}

/// A row for the table of user tags.
#[derive(Debug)]
pub struct UserTagRow {
    pub item_id: i64,
    pub tag: TypedTag,
}

/// The writes, sorted by the table that they go to. Items of the user and the program
/// that are deleted, and files that are deleted, take all their rows with them.
#[derive(Debug)]
pub struct Changes {
    pub item_rows: Vec<ItemRow>,
    pub tag_rows: Vec<UserTagRow>,
    pub tag_deletes: Vec<UserTagDelete>,
    pub user_cascade: Vec<i64>,
    pub file_cascade: Vec<i64>,
}

#[verifier::ext_equal]
pub struct ChangesModel {
    pub item_rows: Seq<(i64, Seq<char>, Seq<char>)>,
    pub tag_rows: Seq<(i64, TagModel)>,
    pub tag_deletes: Seq<UserTagDeleteModel>,
    pub user_cascade: Seq<i64>,
    pub file_cascade: Seq<i64>,
}

pub open spec fn item_row_models(v: Seq<ItemRow>) -> Seq<(i64, Seq<char>, Seq<char>)> {
    v.map_values(|r: ItemRow| (r.item_id, r.item_kind@, r.content@))
}

pub open spec fn tag_row_models(v: Seq<UserTagRow>) -> Seq<(i64, TagModel)> {
    v.map_values(|r: UserTagRow| (r.item_id, r.tag@))
}

pub open spec fn tag_delete_models(v: Seq<UserTagDelete>) -> Seq<UserTagDeleteModel> {
    v.map_values(|d: UserTagDelete| d@)
}

impl View for Changes {
    type V = ChangesModel;

    open spec fn view(&self) -> ChangesModel {
        ChangesModel {
            item_rows: item_row_models(self.item_rows@),
            tag_rows: tag_row_models(self.tag_rows@),
            tag_deletes: tag_delete_models(self.tag_deletes@),
            user_cascade: self.user_cascade@,
            file_cascade: self.file_cascade@,
        }
    }
}

impl ChangesModel {
    pub open spec fn nothing() -> ChangesModel {
        ChangesModel {
            item_rows: seq![],
            tag_rows: seq![],
            tag_deletes: seq![],
            user_cascade: seq![],
            file_cascade: seq![],
        }
    }
}

pub open spec fn is_definition_type(t: TagTypeModel) -> bool {
    t == TagTypeModel::Base(Col::ItemKind) || t == TagTypeModel::Base(Col::Content)
}

/// The text of the last tag of a type among the tags to write, if there is one.
pub open spec fn last_text(ops: Seq<OpModel>, ty: TagTypeModel) -> Option<Seq<char>>
    decreases ops.len(),
{
    if ops.len() == 0 {
        None
    } else if ops.last().tag().tag_type == ty {
        Some(ops.last().tag().value.shown())
    } else {
        last_text(ops.drop_last(), ty)
    }
}

/// The rows for the table of user tags among the tags to write: all but kind and content.
pub open spec fn user_rows(id: i64, ops: Seq<OpModel>) -> Seq<(i64, TagModel)>
    decreases ops.len(),
{
    if ops.len() == 0 {
        seq![]
    } else {
        let before = user_rows(id, ops.drop_last());
        if is_definition_type(ops.last().tag().tag_type) {
            before
        } else {
            before.push((id, ops.last().tag()))
        }
    }
}

pub open spec fn or_empty(t: Option<Seq<char>>) -> Seq<char> {
    match t {
        Some(s) => s,
        None => seq![],
    }
}

/// The changes with one thing more to delete.
pub open spec fn with_target(c: ChangesModel, id: i64, t: TargetModel) -> ChangesModel {
    match t {
        TargetModel::Type(tt) => if tt == TagTypeModel::Base(Col::ItemId) {
            if Origin::of_id(id as int) == Origin::File {
                ChangesModel { file_cascade: c.file_cascade.push(id), ..c }
            } else {
                ChangesModel { user_cascade: c.user_cascade.push(id), ..c }
            }
        } else {
            ChangesModel {
                tag_deletes: c.tag_deletes.push(
                    UserTagDeleteModel { item_id: id, tag_type: tt.name(), value: None },
                ),
                ..c
            }
        },
        TargetModel::Tag(tag) => ChangesModel {
            tag_deletes: c.tag_deletes.push(
                UserTagDeleteModel {
                    item_id: id,
                    tag_type: tag.tag_type.name(),
                    value: Some(tag.value),
                },
            ),
            ..c
        },
    }
}

pub open spec fn with_targets(c: ChangesModel, id: i64, ts: Seq<TargetModel>) -> ChangesModel
    decreases ts.len(),
{
    if ts.len() == 0 {
        c
    } else {
        with_target(with_targets(c, id, ts.drop_last()), id, ts.last())
    }
}

/// The changes with one action more. Kind and content make a row of the table of items;
/// the other tags are rows of the table of user tags.
pub open spec fn with_action(c: ChangesModel, a: ActionModel) -> ChangesModel {
    let id = a.id().raw() as i64;
    match a {
        ActionModel::Add { item, tags } => {
            let kind = last_text(tags, TagTypeModel::Base(Col::ItemKind));
            let content = last_text(tags, TagTypeModel::Base(Col::Content));
            ChangesModel {
                item_rows: if kind is Some || content is Some {
                    c.item_rows.push((id, or_empty(kind), or_empty(content)))
                } else {
                    c.item_rows
                },
                tag_rows: c.tag_rows + user_rows(id, tags),
                ..c
            }
        },
        ActionModel::Delete { item, tags } => with_targets(c, id, tags),
    }
}

/// The actions sorted by table.
pub open spec fn sorted(actions: Seq<ActionModel>) -> ChangesModel
    decreases actions.len(),
{
    if actions.len() == 0 {
        ChangesModel::nothing()
    } else {
        with_action(sorted(actions.drop_last()), actions.last())
    }
}

fn collect_add(c: &mut Changes, id: i64, ops: &Vec<TagOp>)
    ensures
        final(c)@ == with_action(
            old(c)@,
            ActionModel::Add { item: ItemId::Stored(id), tags: action::op_models(ops@) },
        ),
{
    let ghost start = c@;
    let ghost os = action::op_models(ops@);
    let mut kind: Option<String> = None;
    let mut content: Option<String> = None;
    let mut i: usize = 0;
    proof {
        assert(os.take(0) =~= seq![]);
        assert(start.tag_rows + user_rows(id, os.take(0)) =~= start.tag_rows);
    }
    while i < ops.len()
        invariant
            i <= ops@.len(),
            os == action::op_models(ops@),
            match kind {
                Some(s) => last_text(os.take(i as int), TagTypeModel::Base(Col::ItemKind)) == Some(
                    s@,
                ),
                None => last_text(os.take(i as int), TagTypeModel::Base(Col::ItemKind)) is None,
            },
            match content {
                Some(s) => last_text(os.take(i as int), TagTypeModel::Base(Col::Content)) == Some(
                    s@,
                ),
                None => last_text(os.take(i as int), TagTypeModel::Base(Col::Content)) is None,
            },
            c@ == (ChangesModel {
                tag_rows: start.tag_rows + user_rows(id, os.take(i as int)),
                ..start
            }),
        decreases ops@.len() - i,
    {
        let t = ops[i].tag();
        proof {
            assert(os.take(i + 1).drop_last() =~= os.take(i as int));
            assert(os.take(i + 1).last() == ops@[i as int]@);
        }
        if t.tag_type.is_base(Col::ItemKind) {
            kind = Some(t.as_str());
        } else if t.tag_type.is_base(Col::Content) {
            content = Some(t.as_str());
        } else {
            let row = UserTagRow { item_id: id, tag: t.clone() };
            let ghost before = c.tag_rows@;
            c.tag_rows.push(row);
            proof {
                assert(tag_row_models(c.tag_rows@) =~= tag_row_models(before).push((id, t@)));
                assert(start.tag_rows + user_rows(id, os.take(i + 1)) =~= (start.tag_rows
                    + user_rows(id, os.take(i as int))).push((id, t@)));
            }
        }
        i += 1;
    }
    proof {
        assert(os.take(os.len() as int) =~= os);
    }
    if kind.is_some() || content.is_some() {
        let row = ItemRow {
            item_id: id,
            item_kind: match kind {
                Some(s) => s,
                None => String::new(),
            },
            content: match content {
                Some(s) => s,
                None => String::new(),
            },
        };
        let ghost before = c.item_rows@;
        c.item_rows.push(row);
        proof {
            assert(item_row_models(c.item_rows@) =~= item_row_models(before).push(
                (id, row.item_kind@, row.content@),
            ));
        }
    }
}

fn collect_delete(c: &mut Changes, id: i64, targets: &Vec<DeleteTarget>)
    ensures
        final(c)@ == with_targets(old(c)@, id, action::target_models(targets@)),
{
    let ghost start = c@;
    let ghost ts = action::target_models(targets@);
    let mut i: usize = 0;
    proof {
        assert(ts.take(0) =~= seq![]);
    }
    while i < targets.len()
        invariant
            i <= targets@.len(),
            ts == action::target_models(targets@),
            c@ == with_targets(start, id, ts.take(i as int)),
        decreases targets@.len() - i,
    {
        proof {
            assert(ts.take(i + 1).drop_last() =~= ts.take(i as int));
            assert(ts.take(i + 1).last() == targets@[i as int]@);
        }
        match &targets[i] {
            DeleteTarget::Type(tt) => {
                if tt.is_base(Col::ItemId) {
                    if Origin::within(id) == Origin::File {
                        c.file_cascade.push(id);
                    } else {
                        c.user_cascade.push(id);
                    }
                } else {
                    let d = UserTagDelete {
                        item_id: id,
                        tag_type: tt.as_str().to_owned(),
                        value: None,
                    };
                    let ghost before = c.tag_deletes@;
                    c.tag_deletes.push(d);
                    proof {
                        assert(tag_delete_models(c.tag_deletes@) =~= tag_delete_models(
                            before,
                        ).push(d@));
                    }
                }
            },
            DeleteTarget::Tag(t) => {
                let d = UserTagDelete {
                    item_id: id,
                    tag_type: t.tag_type.as_str().to_owned(),
                    value: Some(t.value()),
                };
                let ghost before = c.tag_deletes@;
                c.tag_deletes.push(d);
                proof {
                    assert(tag_delete_models(c.tag_deletes@) =~= tag_delete_models(before).push(
                        d@,
                    ));
                }
            },
        }
        i += 1;
    }
    proof {
        assert(ts.take(ts.len() as int) =~= ts);
    }
}

/// Sorts the actions by the table that they go to.
pub fn collect_changes(actions: &Vec<WriteAction>) -> (r: Changes)
    ensures
        r@ == sorted(action::action_models(actions@)),
{
    let ghost ms = action::action_models(actions@);
    let mut c = Changes {
        item_rows: Vec::new(),
        tag_rows: Vec::new(),
        tag_deletes: Vec::new(),
        user_cascade: Vec::new(),
        file_cascade: Vec::new(),
    };
    let mut i: usize = 0;
    proof {
        assert(ms.take(0) =~= seq![]);
        assert(c@ =~= ChangesModel::nothing());
    }
    while i < actions.len()
        invariant
            i <= actions@.len(),
            ms == action::action_models(actions@),
            c@ == sorted(ms.take(i as int)),
        decreases actions@.len() - i,
    {
        proof {
            assert(ms.take(i + 1).drop_last() =~= ms.take(i as int));
            assert(ms.take(i + 1).last() == actions@[i as int]@);
        }
        match &actions[i] {
            WriteAction::Add { item, tags } => {
                collect_add(&mut c, item.as_i64(), tags);
            },
            WriteAction::Delete { item, tags } => {
                collect_delete(&mut c, item.as_i64(), tags);
            },
        }
        i += 1;
    }
    proof {
        assert(ms.take(ms.len() as int) =~= ms);
    }
    c
}

// ---------------------------------------------------------------------------
// Types that are touched
// ---------------------------------------------------------------------------

/// The names with one more, unless it is among them.
pub open spec fn with_name(names: Seq<Seq<char>>, n: Seq<char>) -> Seq<Seq<char>> {
    if names.contains(n) {
        names
    } else {
        names.push(n)
    }
}

pub open spec fn with_names(names: Seq<Seq<char>>, more: Seq<Seq<char>>) -> Seq<Seq<char>>
    decreases more.len(),
{
    if more.len() == 0 {
        names
    } else {
        with_name(with_names(names, more.drop_last()), more.last())
    }
}

/// The names of the types that an action touches, in order. To delete an item is not a
/// matter of one type.
pub open spec fn touched_names(a: ActionModel) -> Seq<Seq<char>> {
    match a {
        ActionModel::Add { item, tags } => tags.map_values(|o: OpModel| o.tag().tag_type.name()),
        ActionModel::Delete { item, tags } => target_names(tags),
    }
}

pub open spec fn target_names(ts: Seq<TargetModel>) -> Seq<Seq<char>>
    decreases ts.len(),
{
    if ts.len() == 0 {
        seq![]
    } else {
        let before = target_names(ts.drop_last());
        match ts.last() {
            TargetModel::Tag(t) => before.push(t.tag_type.name()),
            TargetModel::Type(tt) => if tt.name() == "item_id"@ {
                before
            } else {
                before.push(tt.name())
            },
        }
    }
}

/// The names of the types that the actions touch, each once.
pub open spec fn touched(actions: Seq<ActionModel>) -> Seq<Seq<char>>
    decreases actions.len(),
{
    if actions.len() == 0 {
        seq![]
    } else {
        with_names(touched(actions.drop_last()), touched_names(actions.last()))
    }
}

fn push_name(names: &mut Vec<String>, n: &str)
    ensures
        text::texts(final(names)@) == with_name(text::texts(old(names)@), n@),
{
    if !contains_text(names, n) {
        let s = n.to_owned();
        proof {
            text::lemma_texts_push(names@, s);
        }
        names.push(s);
    }
}

/// The names of the types that the actions touch, each once.
pub fn extract_action_tag_types(actions: &Vec<WriteAction>) -> (r: Vec<String>)
    ensures
        text::texts(r@) == touched(action::action_models(actions@)),
{
    let ghost ms = action::action_models(actions@);
    let mut names: Vec<String> = Vec::new();
    let mut i: usize = 0;
    proof {
        assert(ms.take(0) =~= seq![]);
        assert(text::texts(names@) =~= seq![]);
    }
    while i < actions.len()
        invariant
            i <= actions@.len(),
            ms == action::action_models(actions@),
            text::texts(names@) == touched(ms.take(i as int)),
        decreases actions@.len() - i,
    {
        let ghost start = text::texts(names@);
        let ghost more = touched_names(actions@[i as int]@);
        proof {
            assert(ms.take(i + 1).drop_last() =~= ms.take(i as int));
            assert(ms.take(i + 1).last() == actions@[i as int]@);
        }
        match &actions[i] {
            WriteAction::Add { tags, .. } => {
                let mut k: usize = 0;
                proof {
                    assert(more.take(0) =~= seq![]);
                }
                while k < tags.len()
                    invariant
                        k <= tags@.len(),
                        more == action::op_models(tags@).map_values(
                            |o: OpModel| o.tag().tag_type.name(),
                        ),
                        text::texts(names@) == with_names(start, more.take(k as int)),
                    decreases tags@.len() - k,
                {
                    proof {
                        assert(more.take(k + 1).drop_last() =~= more.take(k as int));
                        assert(more.take(k + 1).last() == tags@[k as int]@.tag().tag_type.name());
                    }
                    push_name(&mut names, tags[k].tag().tag_type.as_str());
                    k += 1;
                }
                proof {
                    assert(more.take(more.len() as int) =~= more);
                }
            },
            WriteAction::Delete { tags, .. } => {
                let ghost ts = action::target_models(tags@);
                let mut k: usize = 0;
                proof {
                    assert(ts.take(0) =~= seq![]);
                    assert(target_names(ts.take(0)) =~= seq![]);
                }
                while k < tags.len()
                    invariant
                        k <= tags@.len(),
                        ts == action::target_models(tags@),
                        text::texts(names@) == with_names(start, target_names(ts.take(k as int))),
                    decreases tags@.len() - k,
                {
                    let ghost done = target_names(ts.take(k as int));
                    proof {
                        assert(ts.take(k + 1).drop_last() =~= ts.take(k as int));
                        assert(ts.take(k + 1).last() == tags@[k as int]@);
                    }
                    match &tags[k] {
                        DeleteTarget::Tag(t) => {
                            proof {
                                assert(done.push(t@.tag_type.name()).drop_last() =~= done);
                            }
                            push_name(&mut names, t.tag_type.as_str());
                        },
                        DeleteTarget::Type(tt) => {
                            if !str_eq(tt.as_str(), "item_id") {
                                proof {
                                    assert(done.push(tt@.name()).drop_last() =~= done);
                                }
                                push_name(&mut names, tt.as_str());
                            }
                        },
                    }
                    k += 1;
                }
                proof {
                    assert(ts.take(ts.len() as int) =~= ts);
                }
            },
        }
        i += 1;
    }
    proof {
        assert(ms.take(ms.len() as int) =~= ms);
    }
    names
}

/// The items that are deleted as a whole, in order.
pub open spec fn deleted_items(actions: Seq<ActionModel>) -> Seq<ItemId>
    decreases actions.len(),
{
    if actions.len() == 0 {
        seq![]
    } else {
        deleted_items(actions.drop_last()) + (match actions.last() {
            ActionModel::Delete { item, tags } => tags.filter(
                |t: TargetModel| t == TargetModel::Type(TagTypeModel::Base(Col::ItemId)),
            ).map_values(|t: TargetModel| item),
            ActionModel::Add { .. } => seq![],
        })
    }
}

/// The items that are deleted as a whole, in order.
pub fn extract_cascade_item_ids(actions: &Vec<WriteAction>) -> (r: Vec<ItemId>)
    ensures
        r@ == deleted_items(action::action_models(actions@)),
{
    let ghost ms = action::action_models(actions@);
    let mut ids: Vec<ItemId> = Vec::new();
    let mut i: usize = 0;
    proof {
        assert(ms.take(0) =~= seq![]);
    }
    while i < actions.len()
        invariant
            i <= actions@.len(),
            ms == action::action_models(actions@),
            ids@ == deleted_items(ms.take(i as int)),
        decreases actions@.len() - i,
    {
        let ghost start = ids@;
        proof {
            assert(ms.take(i + 1).drop_last() =~= ms.take(i as int));
            assert(ms.take(i + 1).last() == actions@[i as int]@);
        }
        match &actions[i] {
            WriteAction::Delete { item, tags } => {
                let ghost ts = action::target_models(tags@);
                let ghost p = |t: TargetModel|
                    t == TargetModel::Type(TagTypeModel::Base(Col::ItemId));
                let ghost f = |t: TargetModel| *item;
                let mut k: usize = 0;
                proof {
                    reveal(Seq::filter);
                    assert(start + ts.take(0).filter(p).map_values(f) =~= start);
                }
                while k < tags.len()
                    invariant
                        k <= tags@.len(),
                        ts == action::target_models(tags@),
                        p == (|t: TargetModel|
                            t == TargetModel::Type(TagTypeModel::Base(Col::ItemId))),
                        f == (|t: TargetModel| *item),
                        ids@ == start + ts.take(k as int).filter(p).map_values(f),
                    decreases tags@.len() - k,
                {
                    proof {
                        reveal(Seq::filter);
                        assert(ts.take(k + 1).drop_last() =~= ts.take(k as int));
                        assert(ts.take(k + 1).last() == tags@[k as int]@);
                    }
                    match &tags[k] {
                        DeleteTarget::Type(tt) => {
                            if tt.is_base(Col::ItemId) {
                                let ghost done = ts.take(k as int).filter(p);
                                ids.push(*item);
                                proof {
                                    assert(done.push(tags@[k as int]@).map_values(f)
                                        =~= done.map_values(f).push(*item));
                                    assert(ids@ =~= start + done.map_values(f).push(*item));
                                }
                            }
                        },
                        DeleteTarget::Tag(_) => {},
                    }
                    k += 1;
                }
                proof {
                    assert(ts.take(ts.len() as int) =~= ts);
                }
            },
            WriteAction::Add { .. } => {
                proof {
                    assert(start + Seq::<ItemId>::empty() =~= start);
                }
            },
        }
        i += 1;
    }
    proof {
        assert(ms.take(ms.len() as int) =~= ms);
    }
    ids
}

/// The names that are not kept out of the partitioned tag files.
pub open spec fn kept_names(names: Seq<Seq<char>>, reg: Seq<tag::TagFnModel>) -> Seq<Seq<char>> {
    names.filter(|n: Seq<char>| !tag::excluded(reg, n))
}

/// The names of the types whose partitions have to be written anew: those that the actions
/// touch, the type whose values are converted, and the types that deleted items carry.
pub open spec fn partitions_of(
    actions: Seq<ActionModel>,
    cast: Option<Seq<char>>,
    cascade_types: Seq<Seq<char>>,
    reg: Seq<tag::TagFnModel>,
) -> Seq<Seq<char>> {
    let own = touched(actions);
    let with_cast = match cast {
        Some(n) => with_name(own, n),
        None => own,
    };
    let all = if deleted_items(actions).len() > 0 {
        with_names(with_cast, cascade_types)
    } else {
        with_cast
    };
    kept_names(all, reg)
}

fn modified_types(
    registry: &TagRegistry,
    actions: &Vec<WriteAction>,
    cast: &Option<(TagType, BiticalType)>,
    cascade_types: &Vec<String>,
) -> (r: Vec<String>)
    ensures
        text::texts(r@) == partitions_of(
            action::action_models(actions@),
            match *cast {
                Some(c) => Some(c.0@.name()),
                None => None,
            },
            text::texts(cascade_types@),
            registry@,
        ),
{
    let mut names = extract_action_tag_types(actions);
    match cast {
        Some(c) => {
            push_name(&mut names, c.0.as_str());
        },
        None => {},
    }
    let ids = extract_cascade_item_ids(actions);
    if ids.len() > 0 {
        let ghost start = text::texts(names@);
        let ghost more = text::texts(cascade_types@);
        let mut k: usize = 0;
        proof {
            assert(more.take(0) =~= seq![]);
        }
        while k < cascade_types.len()
            invariant
                k <= cascade_types@.len(),
                more == text::texts(cascade_types@),
                text::texts(names@) == with_names(start, more.take(k as int)),
            decreases cascade_types@.len() - k,
        {
            proof {
                assert(more.take(k + 1).drop_last() =~= more.take(k as int));
                assert(more.take(k + 1).last() == cascade_types@[k as int]@);
            }
            push_name(&mut names, cascade_types[k].as_str());
            k += 1;
        }
        proof {
            assert(more.take(more.len() as int) =~= more);
        }
    }
    let ghost all = text::texts(names@);
    let ghost p = |n: Seq<char>| !tag::excluded(registry@, n);
    let mut kept: Vec<String> = Vec::new();
    let mut i: usize = 0;
    proof {
        reveal(Seq::filter);
        assert(text::texts(kept@) =~= all.take(0).filter(p));
    }
    while i < names.len()
        invariant
            i <= names@.len(),
            all == text::texts(names@),
            p == (|n: Seq<char>| !tag::excluded(registry@, n)),
            text::texts(kept@) == all.take(i as int).filter(p),
        decreases names@.len() - i,
    {
        proof {
            reveal(Seq::filter);
            assert(all.take(i + 1).drop_last() =~= all.take(i as int));
            assert(all.take(i + 1).last() == names@[i as int]@);
        }
        if !registry.is_excluded_from_tags(names[i].as_str()) {
            let n = names[i].clone();
            proof {
                text::lemma_texts_push(kept@, n);
            }
            kept.push(n);
        }
        i += 1;
    }
    proof {
        assert(all.take(all.len() as int) =~= all);
    }
    kept
}

// ---------------------------------------------------------------------------
// All of it
// ---------------------------------------------------------------------------

/// Everything that a list of actions writes, ready to be carried out table by table: the
/// table of items, then the table of user tags, then the tables from which deleted files
/// go, then the partitions.
#[derive(Debug)]
pub struct WritePlan {
    pub changes: Changes,
    pub cast: Option<(TagType, BiticalType)>,
    pub partitions: Vec<String>,
    pub response: WriteResponse,
}

impl WritePlan {
    /// Whether the table of items that are not files is written.
    pub fn writes_items(&self) -> (r: bool)
        ensures
            r == (self.changes@.item_rows.len() > 0 || self.changes@.user_cascade.len() > 0),
    {
        self.changes.item_rows.len() > 0 || self.changes.user_cascade.len() > 0
    }

    /// The items whose user tags all go.
    pub fn all_cascade(&self) -> (r: Vec<i64>)
        ensures
            r@ == self.changes@.user_cascade + self.changes@.file_cascade,
    {
        let mut r: Vec<i64> = Vec::new();
        let mut i: usize = 0;
        let ghost whole = self.changes@.user_cascade + self.changes@.file_cascade;
        while i < self.changes.user_cascade.len()
            invariant
                i <= self.changes.user_cascade@.len(),
                whole == self.changes@.user_cascade + self.changes@.file_cascade,
                r@ == whole.take(i as int),
            decreases self.changes.user_cascade@.len() - i,
        {
            proof {
                assert(whole.take(i + 1) =~= whole.take(i as int).push(
                    self.changes.user_cascade@[i as int],
                ));
            }
            r.push(self.changes.user_cascade[i]);
            i += 1;
        }
        let mut k: usize = 0;
        while k < self.changes.file_cascade.len()
            invariant
                k <= self.changes.file_cascade@.len(),
                i == self.changes.user_cascade@.len(),
                whole == self.changes@.user_cascade + self.changes@.file_cascade,
                r@ == whole.take(i + k),
            decreases self.changes.file_cascade@.len() - k,
        {
            proof {
                assert(whole.take(i + k + 1) =~= whole.take(i + k).push(
                    self.changes.file_cascade@[k as int],
                ));
            }
            r.push(self.changes.file_cascade[k]);
            k += 1;
        }
        proof {
            assert(whole.take(whole.len() as int) =~= whole);
        }
        r
    }

    /// Whether the table of user tags is written.
    pub fn writes_tags(&self) -> (r: bool)
        ensures
            r == (self.changes@.tag_rows.len() > 0 || self.changes@.tag_deletes.len() > 0
                || self.changes@.user_cascade.len() > 0 || self.changes@.file_cascade.len() > 0
                || self.cast is Some),
    {
        self.changes.tag_rows.len() > 0 || self.changes.tag_deletes.len() > 0
            || self.changes.user_cascade.len() > 0 || self.changes.file_cascade.len() > 0
            || self.cast.is_some()
    }

    /// The tables from which the rows of deleted files go.
    pub fn cascade_tables(&self) -> (r: Vec<TargetTable>)
        ensures
            r@ == (if self.changes@.file_cascade.len() > 0 {
                seq![
                    TargetTable::FileReferences,
                    TargetTable::Locations,
                    TargetTable::TagsByLocation,
                    TargetTable::BaseTags,
                    TargetTable::RemovedFiles,
                ]
            } else {
                seq![]
            }),
    {
        let mut r: Vec<TargetTable> = Vec::new();
        if self.changes.file_cascade.len() > 0 {
            r.push(TargetTable::FileReferences);
            r.push(TargetTable::Locations);
            r.push(TargetTable::TagsByLocation);
            r.push(TargetTable::BaseTags);
            r.push(TargetTable::RemovedFiles);
        }
        r
    }

    /// Whether results that are kept from earlier searches have gone stale.
    pub fn clears_cache(&self) -> (r: bool)
        ensures
            r == (self.response.updated > 0 || self.response.deleted > 0),
    {
        self.response.updated > 0 || self.response.deleted > 0
    }
}

/// The actions as they are written: on stored items, with the definitions of built-in
/// types that have no row yet.
pub open spec fn written(
    actions: Seq<ActionModel>,
    maxima: BlockMaxima,
    reg: Seq<tag::TagFnModel>,
    existing: Seq<i64>,
) -> Seq<ActionModel> {
    defined_actions(reg, existing, stored_actions(actions, maxima))
}

/// Plans the writes of a list of actions. `maxima` are the largest ids in use, `existing`
/// the built-in ids that have a row, and `cascade_types` the types of the tags on the
/// items that are deleted.
pub fn write(
    registry: &TagRegistry,
    actions: Vec<WriteAction>,
    cast_migration: Option<(TagType, BiticalType)>,
    maxima: &BlockMaxima,
    existing: &Vec<i64>,
    cascade_types: &Vec<String>,
) -> (r: Result<WritePlan, WriteError>)
    requires
        maxima.room_for(action::action_models(actions@)),
        mentioned(written(action::action_models(actions@), *maxima, registry@, existing@))
            + new_ids(action::action_models(actions@), *maxima).len() <= usize::MAX,
    ensures
        match r {
            Err(e) => first_unstored_delete(action::action_models(actions@)) == Some(
                e->UnresolvedDelete_0,
            ),
            Ok(p) => {
                let ms = action::action_models(actions@);
                let w = written(ms, *maxima, registry@, existing@);
                &&& first_unstored_delete(ms) is None
                &&& p.changes@ == sorted(w)
                &&& p.cast == cast_migration
                &&& text::texts(p.partitions@) == partitions_of(
                    ms,
                    match cast_migration {
                        Some(c) => Some(c.0@.name()),
                        None => None,
                    },
                    text::texts(cascade_types@),
                    registry@,
                )
                &&& p.response.new_item_ids@ == new_ids(ms, *maxima)
                &&& p.response.updated == added(w) + new_ids(ms, *maxima).len()
                &&& p.response.deleted == deletions(w)
            },
        },
{
    let partitions = modified_types(registry, &actions, &cast_migration, cascade_types);
    let (resolved, new_item_ids) = match resolve_volatiles(actions, maxima) {
        Ok(p) => p,
        Err(e) => {
            return Err(e);
        },
    };
    let resolved = inject_builtin_definitions(registry, existing, resolved);
    let counts = count_changes(&resolved);
    proof {
        lemma_counts_prefix(action::action_models(resolved@), 0);
    }
    let changes = collect_changes(&resolved);
    let response = WriteResponse {
        updated: counts.0 + new_item_ids.len(),
        deleted: counts.1,
        new_item_ids,
    };
    Ok(WritePlan { changes, cast: cast_migration, partitions, response })
}

proof fn lemma_with_name(names: Seq<Seq<char>>, n: Seq<char>)
    requires
        names.no_duplicates(),
    ensures
        with_name(names, n).no_duplicates(),
        with_name(names, n).contains(n),
        forall|x: Seq<char>| names.contains(x) ==> #[trigger] with_name(names, n).contains(x),
{
    let r = with_name(names, n);
    if !names.contains(n) {
        assert(r[names.len() as int] == n);
        assert forall|x: Seq<char>| names.contains(x) implies #[trigger] r.contains(x) by {
            let k = choose|k: int| 0 <= k < names.len() && names[k] == x;
            assert(r[k] == x);
        }
    }
}

proof fn lemma_with_names(names: Seq<Seq<char>>, more: Seq<Seq<char>>)
    requires
        names.no_duplicates(),
    ensures
        with_names(names, more).no_duplicates(),
        forall|x: Seq<char>|
            names.contains(x) || more.contains(x) ==> #[trigger] with_names(names, more).contains(
                x,
            ),
    decreases more.len(),
{
    if more.len() > 0 {
        lemma_with_names(names, more.drop_last());
        lemma_with_name(with_names(names, more.drop_last()), more.last());
        assert forall|x: Seq<char>| names.contains(x) || more.contains(x) implies #[trigger] with_names(
            names,
            more,
        ).contains(x) by {
            if more.contains(x) {
                let k = choose|k: int| 0 <= k < more.len() && more[k] == x;
                if k < more.len() - 1 {
                    assert(more.drop_last()[k] == x);
                    assert(more.drop_last().contains(x));
                }
            }
        }
    }
}

/// The list of touched types names each type once, and holds the type of every tag that
/// is added.
pub proof fn law_touched_types(actions: Seq<ActionModel>, i: int, k: int)
    requires
        0 <= i < actions.len(),
        actions[i] is Add,
        0 <= k < actions[i]->Add_tags.len(),
    ensures
        touched(actions).no_duplicates(),
        touched(actions).contains(actions[i]->Add_tags[k].tag().tag_type.name()),
    decreases actions.len(),
{
    lemma_touched_once(actions);
    let t = actions.drop_last();
    lemma_touched_once(t);
    lemma_with_names(touched(t), touched_names(actions.last()));
    if i < t.len() {
        law_touched_types(t, i, k);
    } else {
        let names = touched_names(actions.last());
        assert(names[k] == actions[i]->Add_tags[k].tag().tag_type.name());
        assert(names.contains(names[k]));
    }
}

proof fn lemma_touched_once(actions: Seq<ActionModel>)
    ensures
        touched(actions).no_duplicates(),
    decreases actions.len(),
{
    if actions.len() > 0 {
        lemma_touched_once(actions.drop_last());
        lemma_with_names(touched(actions.drop_last()), touched_names(actions.last()));
    }
}

} // verus!
