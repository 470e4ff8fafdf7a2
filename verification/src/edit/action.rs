//! The writes that an edit comes down to.
use crate::item::{TagModel, TagType, TagTypeModel, TypedTag};
use crate::types::ItemId;
use vstd::prelude::*;

verus! {

/// One write to an item.
#[derive(Debug, PartialEq)]
pub enum WriteAction {
    Add { item: ItemId, tags: Vec<TagOp> },
    Delete { item: ItemId, tags: Vec<DeleteTarget> },
}

/// A tag to write, beside the others of its type or in their place.
#[derive(Debug, PartialEq)]
pub enum TagOp {
    Append(TypedTag),
    Replace(TypedTag),
}

/// What to delete: all tags of a type, or one tag.
#[derive(Debug, PartialEq)]
pub enum DeleteTarget {
    Type(TagType),
    Tag(TypedTag),
}

#[verifier::ext_equal]
pub enum OpModel {
    Append(TagModel),
    Replace(TagModel),
}

#[verifier::ext_equal]
pub enum TargetModel {
    Type(TagTypeModel),
    Tag(TagModel),
}

#[verifier::ext_equal]
pub enum ActionModel {
    Add { item: ItemId, tags: Seq<OpModel> },
    Delete { item: ItemId, tags: Seq<TargetModel> },
}

impl OpModel {
    pub open spec fn tag(self) -> TagModel {
        match self {
            OpModel::Append(t) => t,
            OpModel::Replace(t) => t,
        }
    }
}

impl ActionModel {
    pub open spec fn id(self) -> ItemId {
        match self {
            ActionModel::Add { item, .. } => item,
            ActionModel::Delete { item, .. } => item,
        }
    }
}

impl View for TagOp {
    type V = OpModel;

    open spec fn view(&self) -> OpModel {
        match *self {
            TagOp::Append(t) => OpModel::Append(t@),
            TagOp::Replace(t) => OpModel::Replace(t@),
        }
    }
}

impl View for DeleteTarget {
    type V = TargetModel;

    open spec fn view(&self) -> TargetModel {
        match *self {
            DeleteTarget::Type(t) => TargetModel::Type(t@),
            DeleteTarget::Tag(t) => TargetModel::Tag(t@),
        }
    }
}

pub open spec fn op_models(v: Seq<TagOp>) -> Seq<OpModel> {
    v.map_values(|o: TagOp| o@)
}

pub open spec fn target_models(v: Seq<DeleteTarget>) -> Seq<TargetModel> {
    v.map_values(|t: DeleteTarget| t@)
}

impl View for WriteAction {
    type V = ActionModel;

    open spec fn view(&self) -> ActionModel {
        match *self {
            WriteAction::Add { item, tags } => ActionModel::Add { item, tags: op_models(tags@) },
            WriteAction::Delete { item, tags } => ActionModel::Delete {
                item,
                tags: target_models(tags@),
            },
        }
    }
}

pub open spec fn action_models(v: Seq<WriteAction>) -> Seq<ActionModel> {
    v.map_values(|a: WriteAction| a@)
}

pub proof fn lemma_actions_push(v: Seq<WriteAction>, a: WriteAction)
    ensures
        action_models(v.push(a)) == action_models(v).push(a@),
{
    assert(action_models(v.push(a)) =~= action_models(v).push(a@));
}

pub proof fn lemma_ops_push(v: Seq<TagOp>, a: TagOp)
    ensures
        op_models(v.push(a)) == op_models(v).push(a@),
{
    assert(op_models(v.push(a)) =~= op_models(v).push(a@));
}

pub proof fn lemma_targets_push(v: Seq<DeleteTarget>, a: DeleteTarget)
    ensures
        target_models(v.push(a)) == target_models(v).push(a@),
{
    assert(target_models(v.push(a)) =~= target_models(v).push(a@));
}

impl Clone for TagOp {
    fn clone(&self) -> (r: Self)
        ensures
            r@ == self@,
    {
        match self {
            TagOp::Append(t) => TagOp::Append(t.clone()),
            TagOp::Replace(t) => TagOp::Replace(t.clone()),
        }
    }
}

impl Clone for DeleteTarget {
    fn clone(&self) -> (r: Self)
        ensures
            r@ == self@,
    {
        match self {
            DeleteTarget::Type(t) => DeleteTarget::Type(t.clone()),
            DeleteTarget::Tag(t) => DeleteTarget::Tag(t.clone()),
        }
    }
}

impl TagOp {
    /// The tag to write.
    pub fn tag(&self) -> (r: &TypedTag)
        ensures
            r@ == self@.tag(),
    {
        match self {
            TagOp::Append(t) => t,
            TagOp::Replace(t) => t,
        }
    }
}

/// Copies a list of tags to write.
pub fn clone_ops(v: &Vec<TagOp>) -> (r: Vec<TagOp>)
    ensures
        op_models(r@) == op_models(v@),
{
    let mut r: Vec<TagOp> = Vec::new();
    let mut i: usize = 0;
    while i < v.len()
        invariant
            i <= v@.len(),
            r@.len() == i,
            forall|k: int| 0 <= k < i ==> (#[trigger] r@[k])@ == v@[k]@,
        decreases v@.len() - i,
    {
        r.push(v[i].clone());
        i += 1;
    }
    proof {
        assert(op_models(r@) =~= op_models(v@));
    }
    r
}

/// Copies a list of things to delete.
pub fn clone_targets(v: &Vec<DeleteTarget>) -> (r: Vec<DeleteTarget>)
    ensures
        target_models(r@) == target_models(v@),
{
    let mut r: Vec<DeleteTarget> = Vec::new();
    let mut i: usize = 0;
    while i < v.len()
        invariant
            i <= v@.len(),
            r@.len() == i,
            forall|k: int| 0 <= k < i ==> (#[trigger] r@[k])@ == v@[k]@,
        decreases v@.len() - i,
    {
        r.push(v[i].clone());
        i += 1;
    }
    proof {
        assert(target_models(r@) =~= target_models(v@));
    }
    r
}

impl Clone for WriteAction {
    fn clone(&self) -> (r: Self)
        ensures
            r@ == self@,
    {
        match self {
            WriteAction::Add { item, tags } => WriteAction::Add {
                item: *item,
                tags: clone_ops(tags),
            },
            WriteAction::Delete { item, tags } => WriteAction::Delete {
                item: *item,
                tags: clone_targets(tags),
            },
        }
    }
}

impl WriteAction {
    /// The item that is written to.
    pub fn item(&self) -> (r: ItemId)
        ensures
            r == self@.id(),
    {
        match self {
            WriteAction::Add { item, .. } => *item,
            WriteAction::Delete { item, .. } => *item,
        }
    }
}

} // verus!
