//! Tags that would get several values at once: which of them is written.
use crate::config::ConflictPolicy;
use crate::edit::action;
use crate::edit::action::{ActionModel, DeleteTarget, OpModel, TagOp, TargetModel, WriteAction};
use crate::edit::prompt;
use crate::edit::prompt::{Asked, ConfirmPrompt, ReplaceModel};
use crate::item::{Label, TagModel, TagType, TagTypeModel, TypedTag};
use crate::text;
use crate::text::cat3;
use crate::types::{BiticalModel, ItemId};
use vstd::prelude::*;

verus! {

/// Why an edit is not carried out.
#[derive(Debug, PartialEq, Eq)]
pub enum ConfirmError {
    Issue(String),
    Ambiguous(String, ItemId),
    SerialReplace,
    TargetExists(String),
    Hardlinks(ItemId, Vec<String>),
    Prompt(String),
}

#[verifier::ext_equal]
pub enum ConfirmErrorModel {
    Issue(Seq<char>),
    Ambiguous(Seq<char>, ItemId),
    SerialReplace,
    TargetExists(Seq<char>),
    Hardlinks(ItemId, Seq<Seq<char>>),
    Prompt(Seq<char>),
}

impl View for ConfirmError {
    type V = ConfirmErrorModel;

    open spec fn view(&self) -> ConfirmErrorModel {
        match *self {
            ConfirmError::Issue(s) => ConfirmErrorModel::Issue(s@),
            ConfirmError::Ambiguous(s, i) => ConfirmErrorModel::Ambiguous(s@, i),
            ConfirmError::SerialReplace => ConfirmErrorModel::SerialReplace,
            ConfirmError::TargetExists(s) => ConfirmErrorModel::TargetExists(s@),
            ConfirmError::Hardlinks(i, ps) => ConfirmErrorModel::Hardlinks(i, text::texts(ps@)),
            ConfirmError::Prompt(s) => ConfirmErrorModel::Prompt(s@),
        }
    }
}

impl ConfirmErrorModel {
    /// The reason in words.
    pub open spec fn shown(self) -> Seq<char> {
        match self {
            ConfirmErrorModel::Issue(s) => s,
            ConfirmErrorModel::Ambiguous(s, i) => "ambiguous Replace for tag type '"@ + s
                + "' on item "@ + i.shown() + ": multiple distinct values from capture expansion"@,
            ConfirmErrorModel::SerialReplace => "serial policy is not supported for Replace tags"@,
            ConfirmErrorModel::TargetExists(s) => "target already exists: "@ + s,
            ConfirmErrorModel::Hardlinks(i, ps) => "item "@ + i.shown()
                + " has multiple hardlinks: "@ + text::joined(ps, ", "@),
            ConfirmErrorModel::Prompt(s) => s,
        }
    }
}

impl ConfirmError {
    /// The reason in words.
    pub fn message(&self) -> (r: String)
        ensures
            r@ == self@.shown(),
    {
        match self {
            ConfirmError::Issue(s) => s.clone(),
            ConfirmError::Ambiguous(s, i) => {
                let mut m = cat3("ambiguous Replace for tag type '", s.as_str(), "' on item ");
                m.push_str(i.show().as_str());
                m.push_str(": multiple distinct values from capture expansion");
                m
            },
            ConfirmError::SerialReplace =>
                "serial policy is not supported for Replace tags".to_owned(),
            ConfirmError::TargetExists(s) => {
                let mut m = "target already exists: ".to_owned();
                m.push_str(s.as_str());
                m
            },
            ConfirmError::Hardlinks(i, ps) => {
                let mut m = cat3("item ", i.show().as_str(), " has multiple hardlinks: ");
                m.push_str(text::join(ps, ", ").as_str());
                m
            },
            ConfirmError::Prompt(s) => s.clone(),
        }
    }
}

/// How far a decision came: to a state, to a reason to stop, or to a question that the
/// account of questions does not answer.
#[verifier::ext_equal]
pub enum Flow<S> {
    Going(S),
    /// An error, with the length of the account of questions when it came up.
    Failed(ConfirmErrorModel, nat),
    Stuck,
}

// ---------------------------------------------------------------------------
// Groups of values
// ---------------------------------------------------------------------------

/// The values that a tag of an item would get.
#[derive(Debug)]
pub struct ReplaceGroup {
    pub item: ItemId,
    pub tag_type: TagType,
    pub labels: Vec<Label>,
}

#[verifier::ext_equal]
pub struct GroupModel {
    pub item: ItemId,
    pub tag_type: TagTypeModel,
    pub labels: Seq<BiticalModel>,
}

impl View for ReplaceGroup {
    type V = GroupModel;

    open spec fn view(&self) -> GroupModel {
        GroupModel {
            item: self.item,
            tag_type: self.tag_type@,
            labels: prompt::label_models(self.labels@),
        }
    }
}

pub open spec fn group_models(v: Seq<ReplaceGroup>) -> Seq<GroupModel> {
    v.map_values(|g: ReplaceGroup| g@)
}

impl GroupModel {
    pub open spec fn is_for(self, item: ItemId, ty: TagTypeModel) -> bool {
        self.item == item && self.tag_type == ty
    }
}

/// The groups with one more value.
pub open spec fn with_value(
    groups: Seq<GroupModel>,
    item: ItemId,
    ty: TagTypeModel,
    label: BiticalModel,
) -> Seq<GroupModel>
    decreases groups.len(),
{
    if groups.len() == 0 {
        seq![GroupModel { item, tag_type: ty, labels: seq![label] }]
    } else if groups[0].is_for(item, ty) {
        seq![GroupModel { labels: groups[0].labels.push(label), ..groups[0] }] + groups.skip(1)
    } else {
        seq![groups[0]] + with_value(groups.skip(1), item, ty, label)
    }
}

proof fn lemma_with_value(
    groups: Seq<GroupModel>,
    k: int,
    item: ItemId,
    ty: TagTypeModel,
    label: BiticalModel,
)
    requires
        0 <= k <= groups.len(),
        forall|j: int| 0 <= j < k ==> !(#[trigger] groups[j]).is_for(item, ty),
        k < groups.len() ==> groups[k].is_for(item, ty),
    ensures
        k < groups.len() ==> with_value(groups, item, ty, label) == groups.update(
            k,
            GroupModel { labels: groups[k].labels.push(label), ..groups[k] },
        ),
        k == groups.len() ==> with_value(groups, item, ty, label) == groups.push(
            GroupModel { item, tag_type: ty, labels: seq![label] },
        ),
    decreases groups.len(),
{
    if groups.len() == 0 {
        assert(with_value(groups, item, ty, label) =~= groups.push(
            GroupModel { item, tag_type: ty, labels: seq![label] },
        ));
    } else if k == 0 {
        assert(with_value(groups, item, ty, label) =~= groups.update(
            0,
            GroupModel { labels: groups[0].labels.push(label), ..groups[0] },
        ));
    } else {
        let rest = groups.skip(1);
        assert forall|j: int| 0 <= j < k - 1 implies !(#[trigger] rest[j]).is_for(item, ty) by {
            assert(rest[j] == groups[j + 1]);
        }
        lemma_with_value(rest, k - 1, item, ty, label);
        assert(!groups[0].is_for(item, ty));
        if k < groups.len() {
            assert(with_value(groups, item, ty, label) =~= groups.update(
                k,
                GroupModel { labels: groups[k].labels.push(label), ..groups[k] },
            ));
        } else {
            assert(with_value(groups, item, ty, label) =~= groups.push(
                GroupModel { item, tag_type: ty, labels: seq![label] },
            ));
        }
    }
}

pub open spec fn with_ops(groups: Seq<GroupModel>, item: ItemId, ops: Seq<OpModel>) -> Seq<
    GroupModel,
>
    decreases ops.len(),
{
    if ops.len() == 0 {
        groups
    } else {
        let before = with_ops(groups, item, ops.drop_last());
        match ops.last() {
            OpModel::Replace(t) => with_value(before, item, t.tag_type, t.value),
            OpModel::Append(_) => before,
        }
    }
}

/// The values that would be put in the place of others, by item and type.
pub open spec fn grouped(actions: Seq<ActionModel>) -> Seq<GroupModel>
    decreases actions.len(),
{
    if actions.len() == 0 {
        seq![]
    } else {
        let before = grouped(actions.drop_last());
        match actions.last() {
            ActionModel::Add { item, tags } => with_ops(before, item, tags),
            ActionModel::Delete { .. } => before,
        }
    }
}

spec fn filled(v: Seq<ReplaceGroup>) -> bool {
    forall|k: int| 0 <= k < v.len() ==> (#[trigger] v[k]).labels@.len() > 0
}

fn add_value(groups: &mut Vec<ReplaceGroup>, item: ItemId, tag: &TypedTag)
    requires
        filled(old(groups)@),
    ensures
        filled(final(groups)@),
        group_models(final(groups)@) == with_value(
            group_models(old(groups)@),
            item,
            tag@.tag_type,
            tag@.value,
        ),
{
    let ghost before = group_models(groups@);
    let ty = tag.tag_type();
    let label = Label::other(tag.value());
    let mut i: usize = 0;
    while i < groups.len()
        invariant
            i <= groups@.len(),
            before == group_models(groups@),
            before == group_models(old(groups)@),
            filled(groups@),
            ty@ == tag@.tag_type,
            label@ == tag@.value,
            forall|j: int| 0 <= j < i ==> !(#[trigger] before[j]).is_for(item, ty@),
        decreases groups@.len() - i,
    {
        if groups[i].item == item && groups[i].tag_type.same(&ty) {
            let ghost v = groups@;
            let mut labels: Vec<Label> = Vec::new();
            let mut k: usize = 0;
            while k < groups[i].labels.len()
                invariant
                    i < groups@.len(),
                    k <= groups@[i as int].labels@.len(),
                    labels@.len() == k,
                    forall|j: int|
                        0 <= j < k ==> (#[trigger] labels@[j])@ == groups@[i as int].labels@[j]@,
                decreases groups@[i as int].labels@.len() - k,
            {
                labels.push(groups[i].labels[k].clone());
                k += 1;
            }
            labels.push(label);
            let g = ReplaceGroup { item, tag_type: ty, labels };
            proof {
                lemma_with_value(before, i as int, item, ty@, tag@.value);
                assert(g@.labels =~= before[i as int].labels.push(tag@.value));
                assert(group_models(v.update(i as int, g)) =~= before.update(i as int, g@));
            }
            groups.set(i, g);
            return ;
        }
        i += 1;
    }
    proof {
        lemma_with_value(before, i as int, item, ty@, tag@.value);
    }
    let ghost v = groups@;
    let mut labels: Vec<Label> = Vec::new();
    labels.push(label);
    let g = ReplaceGroup { item, tag_type: ty, labels };
    proof {
        assert(g@.labels =~= seq![tag@.value]);
        assert(group_models(v.push(g)) =~= before.push(g@));
    }
    groups.push(g);
}

fn group_values(actions: &Vec<WriteAction>) -> (r: Vec<ReplaceGroup>)
    ensures
        filled(r@),
        group_models(r@) == grouped(action::action_models(actions@)),
{
    let ghost ms = action::action_models(actions@);
    let mut r: Vec<ReplaceGroup> = Vec::new();
    let mut i: usize = 0;
    proof {
        assert(ms.take(0) =~= seq![]);
        assert(group_models(r@) =~= seq![]);
    }
    while i < actions.len()
        invariant
            i <= actions@.len(),
            ms == action::action_models(actions@),
            filled(r@),
            group_models(r@) == grouped(ms.take(i as int)),
        decreases actions@.len() - i,
    {
        proof {
            assert(ms.take(i + 1).drop_last() =~= ms.take(i as int));
            assert(ms.take(i + 1).last() == actions@[i as int]@);
        }
        match &actions[i] {
            WriteAction::Add { item, tags } => {
                let ghost os = action::op_models(tags@);
                let ghost before = group_models(r@);
                let mut k: usize = 0;
                proof {
                    assert(os.take(0) =~= seq![]);
                }
                while k < tags.len()
                    invariant
                        k <= tags@.len(),
                        os == action::op_models(tags@),
                        filled(r@),
                        group_models(r@) == with_ops(before, *item, os.take(k as int)),
                    decreases tags@.len() - k,
                {
                    proof {
                        assert(os.take(k + 1).drop_last() =~= os.take(k as int));
                        assert(os.take(k + 1).last() == tags@[k as int]@);
                    }
                    match &tags[k] {
                        TagOp::Replace(t) => {
                            add_value(&mut r, *item, t);
                        },
                        TagOp::Append(_) => {},
                    }
                    k += 1;
                }
                proof {
                    assert(os.take(os.len() as int) =~= os);
                }
            },
            WriteAction::Delete { .. } => {},
        }
        i += 1;
    }
    proof {
        assert(ms.take(ms.len() as int) =~= ms);
    }
    r
}

/// The rank of an item among items: stored ones first, by their ids.
pub open spec fn id_rank(id: ItemId) -> (int, int, int) {
    match id {
        ItemId::Stored(i) => (0, i as int, 0),
        ItemId::Volatile(c) => (1, c as int, 0),
        ItemId::Settling(o, c) => (2, o.rank(), c as int),
    }
}

/// Whether an item comes before another.
pub open spec fn id_before(a: ItemId, b: ItemId) -> bool {
    let x = id_rank(a);
    let y = id_rank(b);
    x.0 < y.0 || (x.0 == y.0 && (x.1 < y.1 || (x.1 == y.1 && x.2 < y.2)))
}

/// Whether an item comes before another.
pub fn id_is_before(a: &ItemId, b: &ItemId) -> (r: bool)
    ensures
        r == id_before(*a, *b),
{
    match a {
        ItemId::Stored(i) => match b {
            ItemId::Stored(j) => *i < *j,
            _ => true,
        },
        ItemId::Volatile(c) => match b {
            ItemId::Stored(_) => false,
            ItemId::Volatile(d) => *c < *d,
            ItemId::Settling(_, _) => true,
        },
        ItemId::Settling(o, c) => match b {
            ItemId::Settling(p, d) => {
                let x = o.order();
                let y = p.order();
                x < y || (x == y && *c < *d)
            },
            _ => false,
        },
    }
}

/// Whether a group may stand before another: by item, then by the name of the type.
pub open spec fn group_le(a: GroupModel, b: GroupModel) -> bool {
    id_before(a.item, b.item) || (!id_before(b.item, a.item) && text::text_le(
        a.tag_type.name(),
        b.tag_type.name(),
    ))
}

/// A group put where it belongs among ordered ones, after its equals.
pub open spec fn with_group(sorted: Seq<GroupModel>, g: GroupModel) -> Seq<GroupModel>
    decreases sorted.len(),
{
    if sorted.len() == 0 || group_le(sorted.last(), g) {
        sorted.push(g)
    } else {
        with_group(sorted.drop_last(), g).push(sorted.last())
    }
}

/// Groups in order.
pub open spec fn sorted_groups(groups: Seq<GroupModel>) -> Seq<GroupModel>
    decreases groups.len(),
{
    if groups.len() == 0 {
        seq![]
    } else {
        with_group(sorted_groups(groups.drop_last()), groups.last())
    }
}

proof fn lemma_with_group(sorted: Seq<GroupModel>, g: GroupModel, pos: int)
    requires
        0 <= pos <= sorted.len(),
        pos > 0 ==> group_le(sorted[pos - 1], g),
        forall|j: int| pos <= j < sorted.len() ==> !group_le(#[trigger] sorted[j], g),
    ensures
        with_group(sorted, g) == sorted.insert(pos, g),
    decreases sorted.len(),
{
    if pos == sorted.len() {
        assert(sorted.insert(pos, g) =~= sorted.push(g));
    } else {
        assert(!group_le(sorted[sorted.len() - 1], g));
        lemma_with_group(sorted.drop_last(), g, pos);
        assert(sorted.insert(pos, g) =~= sorted.drop_last().insert(pos, g).push(sorted.last()));
    }
}

fn sort_groups(groups: Vec<ReplaceGroup>) -> (r: Vec<ReplaceGroup>)
    requires
        filled(groups@),
    ensures
        filled(r@),
        group_models(r@) == sorted_groups(group_models(groups@)),
{
    let ghost all = group_models(groups@);
    let ghost whole = groups@;
    let mut rest = groups;
    let mut r: Vec<ReplaceGroup> = Vec::new();
    let ghost mut done: int = 0;
    proof {
        assert(group_models(r@) =~= seq![]);
        assert(all.take(0) =~= seq![]);
        assert(whole.skip(0) =~= whole);
    }
    while rest.len() > 0
        invariant
            0 <= done <= all.len(),
            all == group_models(whole),
            rest@ == whole.skip(done),
            filled(whole),
            filled(r@),
            group_models(r@) == sorted_groups(all.take(done)),
        decreases rest@.len(),
    {
        let g = rest.remove(0);
        proof {
            assert(g == whole[done]);
            assert(rest@ =~= whole.skip(done + 1));
            assert(all.take(done + 1).drop_last() =~= all.take(done));
            assert(all.take(done + 1).last() == g@);
        }
        let ghost v = r@;
        let ghost ms = group_models(r@);
        let mut pos: usize = r.len();
        while pos > 0 && !group_not_after(&r[pos - 1], &g)
            invariant
                pos <= r@.len(),
                r@ == v,
                ms == group_models(v),
                forall|j: int| pos <= j < ms.len() ==> !group_le(#[trigger] ms[j], g@),
            decreases pos,
        {
            pos -= 1;
        }
        proof {
            if pos > 0 {
                assert(group_le(ms[pos - 1], g@));
            }
            lemma_with_group(ms, g@, pos as int);
            assert(group_models(v.insert(pos as int, g)) =~= ms.insert(pos as int, g@));
        }
        r.insert(pos, g);
        proof {
            assert forall|k: int| 0 <= k < r@.len() implies (#[trigger] r@[k]).labels@.len()
                > 0 by {
                if k < pos {
                    assert(r@[k] == v[k]);
                } else if k > pos {
                    assert(r@[k] == v[k - 1]);
                }
            }
            done = done + 1;
        }
    }
    proof {
        assert(all.take(all.len() as int) =~= all);
    }
    r
}

fn group_not_after(a: &ReplaceGroup, b: &ReplaceGroup) -> (r: bool)
    ensures
        r == group_le(a@, b@),
{
    id_is_before(&a.item, &b.item) || (!id_is_before(&b.item, &a.item) && text::text_not_after(
        a.tag_type.as_str(),
        b.tag_type.as_str(),
    ))
}

// ---------------------------------------------------------------------------
// The values of a group
// ---------------------------------------------------------------------------

/// Whether a value is among others.
pub open spec fn holds_value(v: Seq<BiticalModel>, l: BiticalModel) -> bool {
    exists|k: int| 0 <= k < v.len() && (#[trigger] v[k]).same(l)
}

/// The values without repetitions.
pub open spec fn distinct(v: Seq<BiticalModel>) -> Seq<BiticalModel>
    decreases v.len(),
{
    if v.len() == 0 {
        seq![]
    } else {
        let before = distinct(v.drop_last());
        if holds_value(before, v.last()) {
            before
        } else {
            before.push(v.last())
        }
    }
}

/// A value put where it belongs by its text, after its equals.
pub open spec fn with_label(sorted: Seq<BiticalModel>, l: BiticalModel) -> Seq<BiticalModel>
    decreases sorted.len(),
{
    if sorted.len() == 0 || text::text_le(sorted.last().shown(), l.shown()) {
        sorted.push(l)
    } else {
        with_label(sorted.drop_last(), l).push(sorted.last())
    }
}

/// Values in the order of their texts.
pub open spec fn sorted_labels(v: Seq<BiticalModel>) -> Seq<BiticalModel>
    decreases v.len(),
{
    if v.len() == 0 {
        seq![]
    } else {
        with_label(sorted_labels(v.drop_last()), v.last())
    }
}

/// The different values of a group, in order.
pub open spec fn choices(g: GroupModel) -> Seq<BiticalModel> {
    sorted_labels(distinct(g.labels))
}

proof fn lemma_with_label(sorted: Seq<BiticalModel>, l: BiticalModel, pos: int)
    requires
        0 <= pos <= sorted.len(),
        pos > 0 ==> text::text_le(sorted[pos - 1].shown(), l.shown()),
        forall|j: int|
            pos <= j < sorted.len() ==> !text::text_le((#[trigger] sorted[j]).shown(), l.shown()),
    ensures
        with_label(sorted, l) == sorted.insert(pos, l),
    decreases sorted.len(),
{
    if pos == sorted.len() {
        assert(sorted.insert(pos, l) =~= sorted.push(l));
    } else {
        assert(!text::text_le(sorted[sorted.len() - 1].shown(), l.shown()));
        lemma_with_label(sorted.drop_last(), l, pos);
        assert(sorted.insert(pos, l) =~= sorted.drop_last().insert(pos, l).push(sorted.last()));
    }
}

fn contains_label(v: &Vec<Label>, l: &Label) -> (r: bool)
    ensures
        r == holds_value(prompt::label_models(v@), l@),
{
    let ghost ms = prompt::label_models(v@);
    let mut i: usize = 0;
    while i < v.len()
        invariant
            i <= v@.len(),
            ms == prompt::label_models(v@),
            forall|k: int| 0 <= k < i ==> !(#[trigger] ms[k]).same(l@),
        decreases v@.len() - i,
    {
        if v[i].value.same(&l.value) {
            proof {
                assert(ms[i as int].same(l@));
            }
            return true;
        }
        i += 1;
    }
    false
}

fn distinct_labels(v: &Vec<Label>) -> (r: Vec<Label>)
    ensures
        prompt::label_models(r@) == distinct(prompt::label_models(v@)),
        v@.len() > 0 ==> r@.len() > 0,
{
    let ghost ms = prompt::label_models(v@);
    let mut r: Vec<Label> = Vec::new();
    let mut i: usize = 0;
    proof {
        assert(ms.take(0) =~= seq![]);
        assert(prompt::label_models(r@) =~= seq![]);
    }
    while i < v.len()
        invariant
            i <= v@.len(),
            ms == prompt::label_models(v@),
            prompt::label_models(r@) == distinct(ms.take(i as int)),
            i > 0 ==> r@.len() > 0,
        decreases v@.len() - i,
    {
        proof {
            assert(ms.take(i + 1).drop_last() =~= ms.take(i as int));
            assert(ms.take(i + 1).last() == v@[i as int]@);
        }
        if !contains_label(&r, &v[i]) {
            let l = v[i].clone();
            proof {
                assert(prompt::label_models(r@.push(l)) =~= prompt::label_models(r@).push(l@));
            }
            r.push(l);
        } else {
            proof {
                assert(prompt::label_models(r@).len() > 0);
            }
        }
        i += 1;
    }
    proof {
        assert(ms.take(ms.len() as int) =~= ms);
    }
    r
}

fn sort_labels(v: &Vec<Label>) -> (r: Vec<Label>)
    ensures
        prompt::label_models(r@) == sorted_labels(prompt::label_models(v@)),
        r@.len() == v@.len(),
{
    let ghost all = prompt::label_models(v@);
    let mut r: Vec<Label> = Vec::new();
    let mut i: usize = 0;
    proof {
        assert(prompt::label_models(r@) =~= seq![]);
        assert(all.take(0) =~= seq![]);
    }
    while i < v.len()
        invariant
            i <= v@.len(),
            all == prompt::label_models(v@),
            r@.len() == i,
            prompt::label_models(r@) == sorted_labels(all.take(i as int)),
        decreases v@.len() - i,
    {
        let l = v[i].clone();
        let s = l.as_str();
        proof {
            assert(all.take(i + 1).drop_last() =~= all.take(i as int));
            assert(all.take(i + 1).last() == l@);
        }
        let ghost w = r@;
        let ghost ms = prompt::label_models(r@);
        let mut pos: usize = r.len();
        while pos > 0 && !text::text_not_after(r[pos - 1].as_str().as_str(), s.as_str())
            invariant
                pos <= r@.len(),
                r@ == w,
                ms == prompt::label_models(w),
                s@ == l@.shown(),
                forall|j: int|
                    pos <= j < ms.len() ==> !text::text_le((#[trigger] ms[j]).shown(), l@.shown()),
            decreases pos,
        {
            pos -= 1;
        }
        proof {
            if pos > 0 {
                assert(text::text_le(ms[pos - 1].shown(), l@.shown()));
            }
            lemma_with_label(ms, l@, pos as int);
            assert(prompt::label_models(w.insert(pos as int, l)) =~= ms.insert(pos as int, l@));
        }
        r.insert(pos, l);
        i += 1;
    }
    proof {
        assert(all.take(all.len() as int) =~= all);
    }
    r
}

// ---------------------------------------------------------------------------
// Choosing
// ---------------------------------------------------------------------------

/// The value that a tag of an item gets; none where the tag is skipped.
#[derive(Debug)]
pub struct Chosen {
    pub item: ItemId,
    pub tag_type: TagType,
    pub label: Option<Label>,
}

#[verifier::ext_equal]
pub struct ChosenModel {
    pub item: ItemId,
    pub tag_type: TagTypeModel,
    pub label: Option<BiticalModel>,
}

pub open spec fn opt_label(l: Option<Label>) -> Option<BiticalModel> {
    match l {
        Some(l) => Some(l@),
        None => None,
    }
}

impl View for Chosen {
    type V = ChosenModel;

    open spec fn view(&self) -> ChosenModel {
        ChosenModel { item: self.item, tag_type: self.tag_type@, label: opt_label(self.label) }
    }
}

pub open spec fn chosen_models(v: Seq<Chosen>) -> Seq<ChosenModel> {
    v.map_values(|c: Chosen| c@)
}

/// A choice that holds for all groups of a type with the same values.
#[derive(Debug)]
struct Remembered {
    tag_type: TagType,
    values: Vec<String>,
    label: Label,
}

#[verifier::ext_equal]
pub struct MemoryModel {
    pub tag_type: TagTypeModel,
    pub values: Seq<Seq<char>>,
    pub label: BiticalModel,
}

impl Remembered {
    spec fn model(self) -> MemoryModel {
        MemoryModel {
            tag_type: self.tag_type@,
            values: text::texts(self.values@),
            label: self.label@,
        }
    }
}

spec fn memory_models(v: Seq<Remembered>) -> Seq<MemoryModel> {
    v.map_values(|m: Remembered| m.model())
}

/// The choice that is remembered for a type and values.
pub open spec fn recalled(
    memory: Seq<MemoryModel>,
    ty: TagTypeModel,
    values: Seq<Seq<char>>,
) -> Option<BiticalModel>
    decreases memory.len(),
{
    if memory.len() == 0 {
        None
    } else if memory[0].tag_type == ty && memory[0].values == values {
        Some(memory[0].label)
    } else {
        recalled(memory.skip(1), ty, values)
    }
}

/// What has been chosen so far.
#[verifier::ext_equal]
pub struct ChoiceState {
    pub chosen: Seq<ChosenModel>,
    pub memory: Seq<MemoryModel>,
    pub used: nat,
}

impl ChoiceState {
    pub open spec fn choose_for(self, g: GroupModel, label: Option<BiticalModel>) -> ChoiceState {
        ChoiceState {
            chosen: self.chosen.push(ChosenModel { item: g.item, tag_type: g.tag_type, label }),
            ..self
        }
    }

    pub open spec fn remember(self, g: GroupModel, label: BiticalModel) -> ChoiceState {
        ChoiceState {
            memory: self.memory.push(
                MemoryModel {
                    tag_type: g.tag_type,
                    values: prompt::shown_labels(choices(g)),
                    label,
                },
            ),
            ..self
        }
    }
}

/// The choice for one more group: its only value, a remembered one, what the policy says, or
/// what the user answers.
pub open spec fn chosen_one(
    s: ChoiceState,
    g: GroupModel,
    policy: Option<ConflictPolicy>,
    interactive: bool,
    log: Seq<Asked>,
) -> Flow<ChoiceState> {
    let cs = choices(g);
    if cs.len() == 1 {
        Flow::Going(s.choose_for(g, Some(cs[0])))
    } else {
        match recalled(s.memory, g.tag_type, prompt::shown_labels(cs)) {
            Some(l) => Flow::Going(s.choose_for(g, Some(l))),
            None => match policy {
                Some(ConflictPolicy::First) => Flow::Going(
                    s.remember(g, cs[0]).choose_for(g, Some(cs[0])),
                ),
                Some(ConflictPolicy::Abort) => Flow::Failed(
                    ConfirmErrorModel::Ambiguous(g.tag_type.name(), g.item),
                    s.used,
                ),
                Some(ConflictPolicy::Skip) => Flow::Going(s.choose_for(g, None)),
                Some(ConflictPolicy::Serial) => Flow::Failed(ConfirmErrorModel::SerialReplace, s.used),
                None => if !interactive {
                    Flow::Failed(
                        ConfirmErrorModel::Ambiguous(g.tag_type.name(), g.item),
                        s.used,
                    )
                } else {
                    match replace_reply_in(log, s.used, g.item, g.tag_type, cs) {
                        None => Flow::Stuck,
                        Some(Err(e)) => Flow::Failed(ConfirmErrorModel::Prompt(e), s.used + 1),
                        Some(Ok(c)) => {
                            let t = ChoiceState { used: s.used + 1, ..s };
                            if c.for_all {
                                Flow::Going(t.remember(g, c.label).choose_for(g, Some(c.label)))
                            } else {
                                Flow::Going(t.choose_for(g, Some(c.label)))
                            }
                        },
                    }
                },
            },
        }
    }
}

/// The answer that an account holds to the question which value a tag gets.
pub open spec fn replace_reply_in(
    log: Seq<Asked>,
    at: nat,
    item: ItemId,
    ty: TagTypeModel,
    cands: Seq<BiticalModel>,
) -> Option<Result<ReplaceModel, Seq<char>>> {
    if at < log.len() {
        match log[at as int] {
            Asked::Replace(i, t, c, a) => if i == item && t == ty && c == cands {
                Some(a)
            } else {
                None
            },
            _ => None,
        }
    } else {
        None
    }
}

/// The choices for groups, one after the other.
pub open spec fn chosen_all(
    groups: Seq<GroupModel>,
    used: nat,
    policy: Option<ConflictPolicy>,
    interactive: bool,
    log: Seq<Asked>,
) -> Flow<ChoiceState>
    decreases groups.len(),
{
    if groups.len() == 0 {
        Flow::Going(ChoiceState { chosen: seq![], memory: seq![], used })
    } else {
        match chosen_all(groups.drop_last(), used, policy, interactive, log) {
            Flow::Going(s) => chosen_one(s, groups.last(), policy, interactive, log),
            other => other,
        }
    }
}

/// More questions in the account do not change what was decided before them.
pub proof fn lemma_chosen_grows(
    groups: Seq<GroupModel>,
    used: nat,
    policy: Option<ConflictPolicy>,
    interactive: bool,
    log: Seq<Asked>,
    more: Seq<Asked>,
)
    requires
        !(chosen_all(groups, used, policy, interactive, log) is Stuck),
    ensures
        chosen_all(groups, used, policy, interactive, log + more) == chosen_all(
            groups,
            used,
            policy,
            interactive,
            log,
        ),
    decreases groups.len(),
{
    if groups.len() > 0 {
        lemma_chosen_grows(groups.drop_last(), used, policy, interactive, log, more);
        match chosen_all(groups.drop_last(), used, policy, interactive, log) {
            Flow::Going(s) => {
                if s.used < log.len() {
                    assert((log + more)[s.used as int] == log[s.used as int]);
                }
            },
            _ => {},
        }
    }
}

proof fn lemma_chosen_failed(
    groups: Seq<GroupModel>,
    k: int,
    used: nat,
    policy: Option<ConflictPolicy>,
    interactive: bool,
    log: Seq<Asked>,
)
    requires
        0 <= k <= groups.len(),
        chosen_all(groups.take(k), used, policy, interactive, log) is Failed,
    ensures
        chosen_all(groups, used, policy, interactive, log) == chosen_all(
            groups.take(k),
            used,
            policy,
            interactive,
            log,
        ),
    decreases groups.len(),
{
    if k == groups.len() {
        assert(groups.take(k) =~= groups);
    } else {
        assert(groups.drop_last().take(k) =~= groups.take(k));
        lemma_chosen_failed(groups.drop_last(), k, used, policy, interactive, log);
    }
}

fn same_texts(a: &Vec<String>, b: &Vec<String>) -> (r: bool)
    ensures
        r == (text::texts(a@) == text::texts(b@)),
{
    if a.len() != b.len() {
        proof {
            assert(text::texts(a@).len() != text::texts(b@).len());
        }
        return false;
    }
    let mut i: usize = 0;
    while i < a.len()
        invariant
            i <= a@.len(),
            a@.len() == b@.len(),
            forall|k: int| 0 <= k < i ==> (#[trigger] a@[k])@ == b@[k]@,
        decreases a@.len() - i,
    {
        if !text::str_eq(a[i].as_str(), b[i].as_str()) {
            proof {
                assert(text::texts(a@)[i as int] != text::texts(b@)[i as int]);
            }
            return false;
        }
        i += 1;
    }
    proof {
        assert(text::texts(a@) =~= text::texts(b@));
    }
    true
}

fn recall(memory: &Vec<Remembered>, ty: &TagType, values: &Vec<String>) -> (r: Option<Label>)
    ensures
        opt_label(r) == recalled(memory_models(memory@), ty@, text::texts(values@)),
{
    let ghost ms = memory_models(memory@);
    let mut i: usize = 0;
    proof {
        assert(ms.skip(0) =~= ms);
    }
    while i < memory.len()
        invariant
            i <= memory@.len(),
            ms == memory_models(memory@),
            recalled(ms, ty@, text::texts(values@)) == recalled(
                ms.skip(i as int),
                ty@,
                text::texts(values@),
            ),
        decreases memory@.len() - i,
    {
        proof {
            assert(ms.skip(i as int)[0] == memory@[i as int].model());
            assert(ms.skip(i as int).skip(1) =~= ms.skip(i + 1));
        }
        if memory[i].tag_type.same(ty) && same_texts(&memory[i].values, values) {
            return Some(memory[i].label.clone());
        }
        i += 1;
    }
    None
}

fn texts_of_labels(v: &Vec<Label>) -> (r: Vec<String>)
    ensures
        text::texts(r@) == prompt::shown_labels(prompt::label_models(v@)),
{
    let mut r: Vec<String> = Vec::new();
    let mut i: usize = 0;
    while i < v.len()
        invariant
            i <= v@.len(),
            r@.len() == i,
            forall|k: int| 0 <= k < i ==> (#[trigger] r@[k])@ == v@[k]@.shown(),
        decreases v@.len() - i,
    {
        r.push(v[i].as_str());
        i += 1;
    }
    proof {
        assert(text::texts(r@) =~= prompt::shown_labels(prompt::label_models(v@)));
    }
    r
}

fn note_choice(chosen: &mut Vec<Chosen>, g: &ReplaceGroup, label: Option<Label>)
    ensures
        chosen_models(final(chosen)@) == chosen_models(old(chosen)@).push(
            ChosenModel { item: g@.item, tag_type: g@.tag_type, label: opt_label(label) },
        ),
{
    let ghost before = chosen@;
    let c = Chosen { item: g.item, tag_type: g.tag_type.clone(), label };
    proof {
        assert(chosen_models(before.push(c)) =~= chosen_models(before).push(c@));
    }
    chosen.push(c);
}

fn remember(memory: &mut Vec<Remembered>, g: &ReplaceGroup, values: Vec<String>, label: Label)
    ensures
        memory_models(final(memory)@) == memory_models(old(memory)@).push(
            MemoryModel {
                tag_type: g@.tag_type,
                values: text::texts(values@),
                label: label@,
            },
        ),
{
    let ghost before = memory@;
    let m = Remembered { tag_type: g.tag_type.clone(), values, label };
    proof {
        assert(memory_models(before.push(m)) =~= memory_models(before).push(m.model()));
    }
    memory.push(m);
}

fn choose_all<P: ConfirmPrompt>(
    groups: &Vec<ReplaceGroup>,
    policy: Option<ConflictPolicy>,
    interactive: bool,
    prompt: &mut P,
) -> (r: Result<Vec<Chosen>, ConfirmError>)
    requires
        old(prompt).valid(),
        filled(groups@),
    ensures
        final(prompt).valid(),
        final(prompt).source() == old(prompt).source(),
        old(prompt).asked().is_prefix_of(final(prompt).asked()),
        match r {
            Ok(c) => match chosen_all(
                group_models(groups@),
                old(prompt).asked().len(),
                policy,
                interactive,
                final(prompt).asked(),
            ) {
                Flow::Going(s) => s.chosen == chosen_models(c@) && s.used == final(prompt).asked().len(),
                _ => false,
            },
            Err(e) => chosen_all(
                group_models(groups@),
                old(prompt).asked().len(),
                policy,
                interactive,
                final(prompt).asked(),
            ) == Flow::<ChoiceState>::Failed(e@, final(prompt).asked().len()),
        },
{
    let ghost gs = group_models(groups@);
    let ghost start = prompt.asked().len();
    let mut chosen: Vec<Chosen> = Vec::new();
    let mut memory: Vec<Remembered> = Vec::new();
    let mut i: usize = 0;
    proof {
        assert(gs.take(0) =~= seq![]);
        assert(chosen_models(chosen@) =~= seq![]);
        assert(memory_models(memory@) =~= seq![]);
    }
    while i < groups.len()
        invariant
            i <= groups@.len(),
            gs == group_models(groups@),
            filled(groups@),
            prompt.valid(),
            prompt.source() == old(prompt).source(),
            start == old(prompt).asked().len(),
            old(prompt).asked().is_prefix_of(prompt.asked()),
            chosen_all(gs.take(i as int), start, policy, interactive, prompt.asked())
                == Flow::Going(
                ChoiceState {
                    chosen: chosen_models(chosen@),
                    memory: memory_models(memory@),
                    used: prompt.asked().len(),
                },
            ),
        decreases groups@.len() - i,
    {
        let g = &groups[i];
        let ghost log = prompt.asked();
        let ghost state = ChoiceState {
            chosen: chosen_models(chosen@),
            memory: memory_models(memory@),
            used: prompt.asked().len(),
        };
        proof {
            assert(gs.take(i + 1).drop_last() =~= gs.take(i as int));
            assert(gs.take(i + 1).last() == g@);
        }
        let unique = distinct_labels(&g.labels);
        let cs = sort_labels(&unique);
        proof {
            assert(prompt::label_models(cs@) == choices(g@));
            assert(prompt::label_models(cs@)[0] == cs@[0]@);
        }
        if cs.len() == 1 {
            note_choice(&mut chosen, g, Some(cs[0].clone()));
        } else {
            let values = texts_of_labels(&cs);
            match recall(&memory, &g.tag_type, &values) {
                Some(l) => {
                    note_choice(&mut chosen, g, Some(l));
                },
                None => match policy {
                    Some(ConflictPolicy::First) => {
                        remember(&mut memory, g, values, cs[0].clone());
                        note_choice(&mut chosen, g, Some(cs[0].clone()));
                    },
                    Some(ConflictPolicy::Abort) => {
                        proof {
                            lemma_chosen_failed(gs, i + 1, start, policy, interactive, log);
                        }
                        return Err(
                            ConfirmError::Ambiguous(g.tag_type.as_str().to_owned(), g.item),
                        );
                    },
                    Some(ConflictPolicy::Skip) => {
                        note_choice(&mut chosen, g, None);
                    },
                    Some(ConflictPolicy::Serial) => {
                        proof {
                            lemma_chosen_failed(gs, i + 1, start, policy, interactive, log);
                        }
                        return Err(ConfirmError::SerialReplace);
                    },
                    None => {
                        if !interactive {
                            proof {
                                lemma_chosen_failed(gs, i + 1, start, policy, interactive, log);
                            }
                            return Err(
                                ConfirmError::Ambiguous(g.tag_type.as_str().to_owned(), g.item),
                            );
                        }
                        let reply = prompt.ask_replace_resolution(&g.item, &g.tag_type, &cs);
                        proof {
                            let more = prompt.asked().skip(log.len() as int);
                            assert(prompt.asked() =~= log + more);
                            lemma_chosen_grows(
                                gs.take(i as int),
                                start,
                                policy,
                                interactive,
                                log,
                                more,
                            );
                            assert(prompt.asked()[log.len() as int] == Asked::Replace(
                                g@.item,
                                g@.tag_type,
                                choices(g@),
                                prompt::replace_reply(reply),
                            ));
                        }
                        match reply {
                            Err(e) => {
                                proof {
                                    lemma_chosen_failed(
                                        gs,
                                        i + 1,
                                        start,
                                        policy,
                                        interactive,
                                        prompt.asked(),
                                    );
                                }
                                return Err(ConfirmError::Prompt(e.message));
                            },
                            Ok(c) => {
                                if c.for_all {
                                    remember(&mut memory, g, values, c.label.clone());
                                }
                                note_choice(&mut chosen, g, Some(c.label));
                            },
                        }
                    },
                },
            }
        }
        i += 1;
    }
    proof {
        assert(gs.take(gs.len() as int) =~= gs);
    }
    Ok(chosen)
}

// ---------------------------------------------------------------------------
// The writes that are left
// ---------------------------------------------------------------------------

/// What was chosen for a tag of an item.
pub open spec fn chosen_for(chosen: Seq<ChosenModel>, item: ItemId, ty: TagTypeModel) -> Option<
    Option<BiticalModel>,
>
    decreases chosen.len(),
{
    if chosen.len() == 0 {
        None
    } else if chosen[0].item == item && chosen[0].tag_type == ty {
        Some(chosen[0].label)
    } else {
        chosen_for(chosen.skip(1), item, ty)
    }
}

/// The items with a tag that is skipped, after those that are skipped already.
pub open spec fn skipped_by(skipped: Seq<ItemId>, chosen: Seq<ChosenModel>) -> Seq<ItemId>
    decreases chosen.len(),
{
    if chosen.len() == 0 {
        skipped
    } else {
        let before = skipped_by(skipped, chosen.drop_last());
        if chosen.last().label is None {
            with_id(before, chosen.last().item)
        } else {
            before
        }
    }
}

/// A list of items with one more, where it is not among them.
pub open spec fn with_id(ids: Seq<ItemId>, id: ItemId) -> Seq<ItemId> {
    if ids.contains(id) {
        ids
    } else {
        ids.push(id)
    }
}

/// The tags of a write that are left: those that are added, and the value that was chosen
/// in the place of the first that would be put.
pub open spec fn kept_ops(
    item: ItemId,
    ops: Seq<OpModel>,
    chosen: Seq<ChosenModel>,
    given: Seq<(ItemId, TagTypeModel)>,
) -> (Seq<OpModel>, Seq<(ItemId, TagTypeModel)>)
    decreases ops.len(),
{
    if ops.len() == 0 {
        (seq![], given)
    } else {
        let before = kept_ops(item, ops.drop_last(), chosen, given);
        match ops.last() {
            OpModel::Append(t) => (before.0.push(OpModel::Append(t)), before.1),
            OpModel::Replace(t) => {
                let key = (item, t.tag_type);
                match chosen_for(chosen, item, t.tag_type) {
                    Some(Some(l)) => if before.1.contains(key) {
                        before
                    } else {
                        (
                            before.0.push(
                                OpModel::Replace(TagModel { tag_type: t.tag_type, value: l }),
                            ),
                            before.1.push(key),
                        )
                    },
                    _ => before,
                }
            },
        }
    }
}

/// The things to delete that are left: a type whose new value is skipped keeps its old one.
pub open spec fn kept_targets(
    item: ItemId,
    targets: Seq<TargetModel>,
    chosen: Seq<ChosenModel>,
) -> Seq<TargetModel> {
    targets.filter(
        |t: TargetModel|
            match t {
                TargetModel::Type(ty) => chosen_for(chosen, item, ty) != Some(
                    None::<BiticalModel>,
                ),
                TargetModel::Tag(_) => true,
            },
    )
}

/// The writes that are left, and the tags that were given a value.
pub open spec fn rebuilt(actions: Seq<ActionModel>, chosen: Seq<ChosenModel>) -> (
    Seq<ActionModel>,
    Seq<(ItemId, TagTypeModel)>,
)
    decreases actions.len(),
{
    if actions.len() == 0 {
        (seq![], seq![])
    } else {
        let before = rebuilt(actions.drop_last(), chosen);
        match actions.last() {
            ActionModel::Add { item, tags } => {
                let kept = kept_ops(item, tags, chosen, before.1);
                (
                    if kept.0.len() > 0 {
                        before.0.push(ActionModel::Add { item, tags: kept.0 })
                    } else {
                        before.0
                    },
                    kept.1,
                )
            },
            ActionModel::Delete { item, tags } => {
                let kept = kept_targets(item, tags, chosen);
                (
                    if kept.len() > 0 {
                        before.0.push(ActionModel::Delete { item, tags: kept })
                    } else {
                        before.0
                    },
                    before.1,
                )
            },
        }
    }
}

struct GivenKey {
    item: ItemId,
    tag_type: TagType,
}

spec fn given_models(v: Seq<GivenKey>) -> Seq<(ItemId, TagTypeModel)> {
    v.map_values(|k: GivenKey| (k.item, k.tag_type@))
}

fn is_given(v: &Vec<GivenKey>, item: ItemId, ty: &TagType) -> (r: bool)
    ensures
        r == given_models(v@).contains((item, ty@)),
{
    let ghost ms = given_models(v@);
    let mut i: usize = 0;
    while i < v.len()
        invariant
            i <= v@.len(),
            ms == given_models(v@),
            forall|k: int| 0 <= k < i ==> #[trigger] ms[k] != (item, ty@),
        decreases v@.len() - i,
    {
        if v[i].item == item && v[i].tag_type.same(ty) {
            proof {
                assert(ms[i as int] == (item, ty@));
            }
            return true;
        }
        i += 1;
    }
    false
}

fn find_chosen(chosen: &Vec<Chosen>, item: ItemId, ty: &TagType) -> (r: Option<Option<Label>>)
    ensures
        match r {
            Some(l) => chosen_for(chosen_models(chosen@), item, ty@) == Some(opt_label(l)),
            None => chosen_for(chosen_models(chosen@), item, ty@) is None,
        },
{
    let ghost ms = chosen_models(chosen@);
    let mut i: usize = 0;
    proof {
        assert(ms.skip(0) =~= ms);
    }
    while i < chosen.len()
        invariant
            i <= chosen@.len(),
            ms == chosen_models(chosen@),
            chosen_for(ms, item, ty@) == chosen_for(ms.skip(i as int), item, ty@),
        decreases chosen@.len() - i,
    {
        proof {
            assert(ms.skip(i as int)[0] == chosen@[i as int]@);
            assert(ms.skip(i as int).skip(1) =~= ms.skip(i + 1));
        }
        if chosen[i].item == item && chosen[i].tag_type.same(ty) {
            return match &chosen[i].label {
                Some(l) => Some(Some(l.clone())),
                None => Some(None),
            };
        }
        i += 1;
    }
    None
}

/// Adds an item to a list, where it is not in it.
pub fn add_id(ids: &mut Vec<ItemId>, id: ItemId)
    ensures
        final(ids)@ == with_id(old(ids)@, id),
{
    let mut i: usize = 0;
    while i < ids.len()
        invariant
            i <= ids@.len(),
            ids@ == old(ids)@,
            forall|k: int| 0 <= k < i ==> #[trigger] ids@[k] != id,
        decreases ids@.len() - i,
    {
        if ids[i] == id {
            return ;
        }
        i += 1;
    }
    ids.push(id);
}

/// Whether an item is in a list.
pub fn has_id(ids: &Vec<ItemId>, id: ItemId) -> (r: bool)
    ensures
        r == ids@.contains(id),
{
    let mut i: usize = 0;
    while i < ids.len()
        invariant
            i <= ids@.len(),
            forall|k: int| 0 <= k < i ==> #[trigger] ids@[k] != id,
        decreases ids@.len() - i,
    {
        if ids[i] == id {
            return true;
        }
        i += 1;
    }
    false
}

fn keep_ops(
    item: ItemId,
    ops: &Vec<TagOp>,
    chosen: &Vec<Chosen>,
    given: &mut Vec<GivenKey>,
) -> (r: Vec<TagOp>)
    ensures
        (action::op_models(r@), given_models(final(given)@)) == kept_ops(
            item,
            action::op_models(ops@),
            chosen_models(chosen@),
            given_models(old(given)@),
        ),
{
    let ghost os = action::op_models(ops@);
    let ghost cs = chosen_models(chosen@);
    let ghost start = given_models(given@);
    let mut r: Vec<TagOp> = Vec::new();
    let mut i: usize = 0;
    proof {
        assert(os.take(0) =~= seq![]);
        assert(action::op_models(r@) =~= seq![]);
    }
    while i < ops.len()
        invariant
            i <= ops@.len(),
            os == action::op_models(ops@),
            cs == chosen_models(chosen@),
            (action::op_models(r@), given_models(given@)) == kept_ops(
                item,
                os.take(i as int),
                cs,
                start,
            ),
        decreases ops@.len() - i,
    {
        proof {
            assert(os.take(i + 1).drop_last() =~= os.take(i as int));
            assert(os.take(i + 1).last() == ops@[i as int]@);
        }
        match &ops[i] {
            TagOp::Append(t) => {
                let o = TagOp::Append(t.clone());
                proof {
                    action::lemma_ops_push(r@, o);
                }
                r.push(o);
            },
            TagOp::Replace(t) => {
                let ty = t.tag_type();
                match find_chosen(chosen, item, &ty) {
                    Some(Some(l)) => {
                        if !is_given(given, item, &ty) {
                            let o = TagOp::Replace(TypedTag::retag(ty.clone(), &l));
                            proof {
                                action::lemma_ops_push(r@, o);
                            }
                            r.push(o);
                            let ghost v = given@;
                            let k = GivenKey { item, tag_type: ty };
                            proof {
                                assert(given_models(v.push(k)) =~= given_models(v).push(
                                    (item, k.tag_type@),
                                ));
                            }
                            given.push(k);
                        }
                    },
                    _ => {},
                }
            },
        }
        i += 1;
    }
    proof {
        assert(os.take(os.len() as int) =~= os);
    }
    r
}

fn keep_targets(item: ItemId, targets: &Vec<DeleteTarget>, chosen: &Vec<Chosen>) -> (r: Vec<
    DeleteTarget,
>)
    ensures
        action::target_models(r@) == kept_targets(
            item,
            action::target_models(targets@),
            chosen_models(chosen@),
        ),
{
    let ghost ts = action::target_models(targets@);
    let ghost cs = chosen_models(chosen@);
    let ghost p = |t: TargetModel|
        match t {
            TargetModel::Type(ty) => chosen_for(cs, item, ty) != Some(None::<BiticalModel>),
            TargetModel::Tag(_) => true,
        };
    let mut r: Vec<DeleteTarget> = Vec::new();
    let mut i: usize = 0;
    proof {
        reveal(Seq::filter);
        assert(action::target_models(r@) =~= ts.take(0).filter(p));
    }
    while i < targets.len()
        invariant
            i <= targets@.len(),
            ts == action::target_models(targets@),
            cs == chosen_models(chosen@),
            p == (|t: TargetModel|
                match t {
                    TargetModel::Type(ty) => chosen_for(cs, item, ty) != Some(
                        None::<BiticalModel>,
                    ),
                    TargetModel::Tag(_) => true,
                }),
            action::target_models(r@) == ts.take(i as int).filter(p),
        decreases targets@.len() - i,
    {
        proof {
            reveal(Seq::filter);
            assert(ts.take(i + 1).drop_last() =~= ts.take(i as int));
            assert(ts.take(i + 1).last() == targets@[i as int]@);
        }
        let keep = match &targets[i] {
            DeleteTarget::Type(ty) => match find_chosen(chosen, item, ty) {
                Some(None) => false,
                _ => true,
            },
            DeleteTarget::Tag(_) => true,
        };
        if keep {
            let t = targets[i].clone();
            proof {
                action::lemma_targets_push(r@, t);
            }
            r.push(t);
        }
        i += 1;
    }
    proof {
        assert(ts.take(ts.len() as int) =~= ts);
    }
    r
}

fn rebuild(actions: &Vec<WriteAction>, chosen: &Vec<Chosen>) -> (r: Vec<WriteAction>)
    ensures
        action::action_models(r@) == rebuilt(
            action::action_models(actions@),
            chosen_models(chosen@),
        ).0,
{
    let ghost ms = action::action_models(actions@);
    let ghost cs = chosen_models(chosen@);
    let mut r: Vec<WriteAction> = Vec::new();
    let mut given: Vec<GivenKey> = Vec::new();
    let mut i: usize = 0;
    proof {
        assert(ms.take(0) =~= seq![]);
        assert(action::action_models(r@) =~= seq![]);
        assert(given_models(given@) =~= seq![]);
    }
    while i < actions.len()
        invariant
            i <= actions@.len(),
            ms == action::action_models(actions@),
            cs == chosen_models(chosen@),
            (action::action_models(r@), given_models(given@)) == rebuilt(ms.take(i as int), cs),
        decreases actions@.len() - i,
    {
        proof {
            assert(ms.take(i + 1).drop_last() =~= ms.take(i as int));
            assert(ms.take(i + 1).last() == actions@[i as int]@);
        }
        match &actions[i] {
            WriteAction::Add { item, tags } => {
                let kept = keep_ops(*item, tags, chosen, &mut given);
                if kept.len() > 0 {
                    let a = WriteAction::Add { item: *item, tags: kept };
                    proof {
                        action::lemma_actions_push(r@, a);
                    }
                    r.push(a);
                }
            },
            WriteAction::Delete { item, tags } => {
                let kept = keep_targets(*item, tags, chosen);
                if kept.len() > 0 {
                    let a = WriteAction::Delete { item: *item, tags: kept };
                    proof {
                        action::lemma_actions_push(r@, a);
                    }
                    r.push(a);
                }
            },
        }
        i += 1;
    }
    proof {
        assert(ms.take(ms.len() as int) =~= ms);
    }
    r
}

/// What comes of resolving tags with several values: the writes that are left, the items
/// that are skipped, and the questions that were used up.
#[verifier::ext_equal]
pub struct ReplaceOutcome {
    pub actions: Seq<ActionModel>,
    pub skipped: Seq<ItemId>,
    pub used: nat,
}

/// Writes in which each tag gets one value.
pub open spec fn replace_resolved(
    actions: Seq<ActionModel>,
    skipped: Seq<ItemId>,
    policy: Option<ConflictPolicy>,
    interactive: bool,
    used: nat,
    log: Seq<Asked>,
) -> Flow<ReplaceOutcome> {
    match chosen_all(sorted_groups(grouped(actions)), used, policy, interactive, log) {
        Flow::Going(s) => Flow::Going(
            ReplaceOutcome {
                actions: rebuilt(actions, s.chosen).0,
                skipped: skipped_by(skipped, s.chosen),
                used: s.used,
            },
        ),
        Flow::Failed(e, n) => Flow::Failed(e, n),
        Flow::Stuck => Flow::Stuck,
    }
}

/// Resolves tags that would get several values, by the policy or by asking.
pub fn resolve_replace_conflicts<P: ConfirmPrompt>(
    actions: Vec<WriteAction>,
    policy_override: Option<ConflictPolicy>,
    interactive: bool,
    prompt: &mut P,
    skipped: &mut Vec<ItemId>,
) -> (r: Result<Vec<WriteAction>, ConfirmError>)
    requires
        old(prompt).valid(),
    ensures
        final(prompt).valid(),
        final(prompt).source() == old(prompt).source(),
        old(prompt).asked().is_prefix_of(final(prompt).asked()),
        match r {
            Ok(left) => replace_resolved(
                action::action_models(actions@),
                old(skipped)@,
                policy_override,
                interactive,
                old(prompt).asked().len(),
                final(prompt).asked(),
            ) == Flow::Going(
                ReplaceOutcome {
                    actions: action::action_models(left@),
                    skipped: final(skipped)@,
                    used: final(prompt).asked().len(),
                },
            ),
            Err(e) => replace_resolved(
                action::action_models(actions@),
                old(skipped)@,
                policy_override,
                interactive,
                old(prompt).asked().len(),
                final(prompt).asked(),
            ) == Flow::<ReplaceOutcome>::Failed(e@, final(prompt).asked().len()),
        },
{
    let groups = sort_groups(group_values(&actions));
    let chosen = match choose_all(&groups, policy_override, interactive, prompt) {
        Ok(c) => c,
        Err(e) => {
            return Err(e);
        },
    };
    let ghost cs = chosen_models(chosen@);
    let mut i: usize = 0;
    proof {
        assert(cs.take(0) =~= seq![]);
    }
    while i < chosen.len()
        invariant
            i <= chosen@.len(),
            cs == chosen_models(chosen@),
            skipped@ == skipped_by(old(skipped)@, cs.take(i as int)),
        decreases chosen@.len() - i,
    {
        proof {
            assert(cs.take(i + 1).drop_last() =~= cs.take(i as int));
            assert(cs.take(i + 1).last() == chosen@[i as int]@);
        }
        if chosen[i].label.is_none() {
            add_id(skipped, chosen[i].item);
        }
        i += 1;
    }
    proof {
        assert(cs.take(cs.len() as int) =~= cs);
    }
    Ok(rebuild(&actions, &chosen))
}

} // verus!
