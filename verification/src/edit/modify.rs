//! From an edit query to writes on the tags of an item.
use crate::col::Col;
use crate::edit::action::{
    ActionModel, DeleteTarget, OpModel, TagOp, TargetModel, WriteAction,
};
use crate::edit::action;
use crate::edit::error::{EditError, EditErrorModel};
use crate::edit::parse;
use crate::edit::parse::{EditQuery, EditQueryLeaf};
use crate::edit::QueryType;
use crate::item;
use crate::item::{Item, Label, TagModel, TagType, TagTypeModel, TypedTag};
use crate::tag;
use crate::tag::{EditStrategy, Interpreted, TagRegistry};
use crate::text;
use crate::types::{Bitical, BiticalModel, ItemId, Number};
use vstd::prelude::*;

verus! {

// ---------------------------------------------------------------------------
// Reading a query
// ---------------------------------------------------------------------------

/// The value that a text stands for: an integer, else the number in double precision
/// where it is one, else a truth value, else the text itself.
pub open spec fn read_value(s: Seq<char>, number: Option<(u64, Seq<char>)>) -> BiticalModel {
    match text::parsed_i64(s) {
        Some(i) => BiticalModel::Integer(i),
        None => match number {
            Some(n) => BiticalModel::Double(n.0, n.1),
            None => if s == "true"@ {
                BiticalModel::Boolean(true)
            } else if s == "false"@ {
                BiticalModel::Boolean(false)
            } else {
                BiticalModel::String(s)
            },
        },
    }
}

pub open spec fn number_model(n: Option<Number>) -> Option<(u64, Seq<char>)> {
    match n {
        Some(x) => Some((x.bits, x.shown@)),
        None => None,
    }
}

/// The label that a leaf stands for. A quoted leaf is a text; for a bare one `number` is
/// the number in double precision that its value reads as, if it reads as one.
pub fn build_leaf_label(leaf: &EditQueryLeaf, number: Option<Number>) -> (r: Label)
    ensures
        r@ == (if leaf@.quoted {
            BiticalModel::String(leaf@.valued())
        } else {
            read_value(leaf@.valued(), number_model(number))
        }),
{
    let s = leaf.value();
    if leaf.quoted {
        return Label::other(Bitical::String(s));
    }
    match text::parse_i64(s.as_str()) {
        Some(i) => Label::other(Bitical::Integer(i)),
        None => match number {
            Some(n) => Label::other(Bitical::Double(n)),
            None => if text::str_eq(s.as_str(), "true") {
                Label::other(Bitical::Boolean(true))
            } else if text::str_eq(s.as_str(), "false") {
                Label::other(Bitical::Boolean(false))
            } else {
                Label::other(Bitical::String(s))
            },
        },
    }
}

/// A pair of an edit query, ready to be carried out.
#[derive(Debug)]
pub struct ResolvedNode {
    pub tag_type: TagType,
    pub label: Option<Label>,
    pub strategy: EditStrategy,
}

#[verifier::ext_equal]
pub struct ResolvedModel {
    pub tag_type: TagTypeModel,
    pub label: Option<BiticalModel>,
    pub strategy: EditStrategy,
}

pub open spec fn label_model(l: Option<Label>) -> Option<BiticalModel> {
    match l {
        Some(l) => Some(l@),
        None => None,
    }
}

impl View for ResolvedNode {
    type V = ResolvedModel;

    open spec fn view(&self) -> ResolvedModel {
        ResolvedModel {
            tag_type: self.tag_type@,
            label: label_model(self.label),
            strategy: self.strategy,
        }
    }
}

pub open spec fn resolved_models(v: Seq<ResolvedNode>) -> Seq<ResolvedModel> {
    v.map_values(|n: ResolvedNode| n@)
}

/// The strategy of a type. A type that is not registered is appended to.
pub open spec fn strategy_of(name: Seq<char>, reg: Seq<tag::TagFnModel>) -> Result<
    EditStrategy,
    EditErrorModel,
> {
    match tag::find_fn(reg, name) {
        Some(f) => match f.edit {
            Some(e) => Ok(e.strategy),
            None => Err(EditErrorModel::Forbidden(name)),
        },
        None => Ok(EditStrategy::Append),
    }
}

/// Why tags of a type cannot be taken away, if they cannot.
pub open spec fn untag_error(name: Seq<char>, reg: Seq<tag::TagFnModel>) -> Option<EditErrorModel> {
    match tag::find_fn(reg, name) {
        None => None,
        Some(f) => match f.edit {
            None => Some(EditErrorModel::Forbidden(name)),
            Some(e) => if e.can_untag {
                None
            } else if e.strategy == EditStrategy::Relocate {
                Some(EditErrorModel::PartOfLocation(name))
            } else {
                Some(EditErrorModel::NoRemoval(name))
            },
        },
    }
}

fn get_strategy(tag_type: &TagType, registry: &TagRegistry) -> (r: Result<EditStrategy, EditError>)
    ensures
        match r {
            Ok(s) => strategy_of(tag_type@.name(), registry@) == Ok::<EditStrategy, EditErrorModel>(
                s,
            ),
            Err(e) => strategy_of(tag_type@.name(), registry@) == Err::<
                EditStrategy,
                EditErrorModel,
            >(e@),
        },
{
    match registry.get(tag_type.as_str()) {
        Some(f) => match &f.edit {
            Some(e) => Ok(e.strategy),
            None => Err(EditError::Forbidden(tag_type.as_str().to_owned())),
        },
        None => Ok(EditStrategy::Append),
    }
}

/// Refuses to take away tags of a type that has no removal.
pub fn check_untag_allowed(tag_type: &TagType, registry: &TagRegistry) -> (r: Result<
    (),
    EditError,
>)
    ensures
        match r {
            Ok(_) => untag_error(tag_type@.name(), registry@) is None,
            Err(e) => untag_error(tag_type@.name(), registry@) == Some(e@),
        },
{
    match registry.get(tag_type.as_str()) {
        None => Ok(()),
        Some(f) => match &f.edit {
            None => Err(EditError::Forbidden(tag_type.as_str().to_owned())),
            Some(e) => if e.can_untag {
                Ok(())
            } else if e.strategy == EditStrategy::Relocate {
                Err(EditError::PartOfLocation(tag_type.as_str().to_owned()))
            } else {
                Err(EditError::NoRemoval(tag_type.as_str().to_owned()))
            },
        },
    }
}

/// A pair made ready, or the reason why it is refused.
pub open spec fn resolved(
    n: parse::NodeModel,
    number: Option<(u64, Seq<char>)>,
    qt: QueryType,
    reg: Seq<tag::TagFnModel>,
) -> Result<ResolvedModel, EditErrorModel> {
    let name = n.tag_type.valued();
    if name.len() == 0 {
        Err(EditErrorModel::EmptyType)
    } else if qt == QueryType::Untag && untag_error(name, reg) is Some {
        Err(untag_error(name, reg)->0)
    } else {
        match strategy_of(name, reg) {
            Err(e) => Err(e),
            Ok(strategy) => Ok(
                ResolvedModel {
                    tag_type: TagTypeModel::named(name),
                    label: match n.label {
                        Some(l) => Some(
                            if l.quoted {
                                BiticalModel::String(l.valued())
                            } else {
                                read_value(l.valued(), number)
                            },
                        ),
                        None => None,
                    },
                    strategy,
                },
            ),
        }
    }
}

/// The number in double precision that the label of a pair reads as: `numbers` lists the
/// texts that read as one, with their bits and printed forms.
pub open spec fn number_of(numbers: Seq<NumberText>, n: parse::NodeModel) -> Option<
    (u64, Seq<char>),
> {
    match n.label {
        Some(l) => number_for(numbers, l.valued()),
        None => None,
    }
}

/// A text and the number in double precision that it reads as.
#[derive(Debug)]
pub struct NumberText {
    pub text: String,
    pub number: Number,
}

pub open spec fn number_for(numbers: Seq<NumberText>, s: Seq<char>) -> Option<(u64, Seq<char>)>
    decreases numbers.len(),
{
    if numbers.len() == 0 {
        None
    } else if numbers[0].text@ == s {
        Some((numbers[0].number.bits, numbers[0].number.shown@))
    } else {
        number_for(numbers.skip(1), s)
    }
}

/// The number that a text reads as.
pub fn find_number(numbers: &Vec<NumberText>, s: &str) -> (r: Option<Number>)
    ensures
        number_model(r) == number_for(numbers@, s@),
{
    let mut i: usize = 0;
    proof {
        assert(numbers@.skip(0) =~= numbers@);
    }
    while i < numbers.len()
        invariant
            i <= numbers@.len(),
            number_for(numbers@, s@) == number_for(numbers@.skip(i as int), s@),
        decreases numbers@.len() - i,
    {
        proof {
            assert(numbers@.skip(i as int).skip(1) =~= numbers@.skip(i + 1));
        }
        if text::str_eq(numbers[i].text.as_str(), s) {
            return Some(
                Number {
                    bits: numbers[i].number.bits,
                    shown: numbers[i].number.shown.clone(),
                },
            );
        }
        i += 1;
    }
    None
}

/// The pairs made ready, or the first reason why one is refused.
pub open spec fn resolved_all(
    nodes: Seq<parse::NodeModel>,
    numbers: Seq<NumberText>,
    qt: QueryType,
    reg: Seq<tag::TagFnModel>,
) -> Result<Seq<ResolvedModel>, EditErrorModel>
    decreases nodes.len(),
{
    if nodes.len() == 0 {
        Ok(seq![])
    } else {
        match resolved_all(nodes.drop_last(), numbers, qt, reg) {
            Err(e) => Err(e),
            Ok(done) => match resolved(nodes.last(), number_of(numbers, nodes.last()), qt, reg) {
                Err(e) => Err(e),
                Ok(n) => Ok(done.push(n)),
            },
        }
    }
}

proof fn lemma_resolved_error(
    nodes: Seq<parse::NodeModel>,
    k: int,
    numbers: Seq<NumberText>,
    qt: QueryType,
    reg: Seq<tag::TagFnModel>,
)
    requires
        0 <= k <= nodes.len(),
        resolved_all(nodes.take(k), numbers, qt, reg) is Err,
    ensures
        resolved_all(nodes, numbers, qt, reg) == resolved_all(nodes.take(k), numbers, qt, reg),
    decreases nodes.len(),
{
    if k == nodes.len() {
        assert(nodes.take(k) =~= nodes);
    } else {
        assert(nodes.drop_last().take(k) =~= nodes.take(k));
        lemma_resolved_error(nodes.drop_last(), k, numbers, qt, reg);
    }
}

pub open spec fn query_model(q: Option<&EditQuery>) -> Seq<parse::NodeModel> {
    match q {
        Some(q) => q@,
        None => seq![],
    }
}

/// Makes the pairs of a query ready to be carried out.
pub fn resolve_nodes(
    query: Option<&EditQuery>,
    numbers: &Vec<NumberText>,
    query_type: QueryType,
    registry: &TagRegistry,
) -> (r: Result<Vec<ResolvedNode>, EditError>)
    ensures
        match r {
            Ok(v) => resolved_all(query_model(query), numbers@, query_type, registry@) == Ok::<
                Seq<ResolvedModel>,
                EditErrorModel,
            >(resolved_models(v@)),
            Err(e) => resolved_all(query_model(query), numbers@, query_type, registry@) == Err::<
                Seq<ResolvedModel>,
                EditErrorModel,
            >(e@),
        },
{
    let mut out: Vec<ResolvedNode> = Vec::new();
    let q = match query {
        Some(q) => q,
        None => {
            proof {
                assert(resolved_models(out@) =~= seq![]);
            }
            return Ok(out);
        },
    };
    let ghost ms = q@;
    let mut i: usize = 0;
    proof {
        assert(resolved_models(out@) =~= seq![]);
        assert(ms.take(0) =~= seq![]);
    }
    while i < q.nodes.len()
        invariant
            i <= q.nodes@.len(),
            ms == q@,
            query_model(query) == ms,
            resolved_all(ms.take(i as int), numbers@, query_type, registry@) == Ok::<
                Seq<ResolvedModel>,
                EditErrorModel,
            >(resolved_models(out@)),
        decreases q.nodes@.len() - i,
    {
        let n = &q.nodes[i];
        proof {
            assert(ms.take(i + 1).drop_last() =~= ms.take(i as int));
            assert(ms.take(i + 1).last() == n@);
            if resolved_all(ms.take(i + 1), numbers@, query_type, registry@) is Err {
                lemma_resolved_error(ms, i + 1, numbers@, query_type, registry@);
            }
        }
        let name = n.tag_type.value();
        let tag_type = TagType::from(name.as_str());
        proof {
            item::law_tag_type_names(Col::Path, name@);
        }
        if name.as_str().is_empty() {
            return Err(EditError::EmptyType);
        }
        let label = match &n.label {
            Some(l) => {
                let v = l.value();
                let number = find_number(numbers, v.as_str());
                Some(build_leaf_label(l, number))
            },
            None => None,
        };
        if query_type == QueryType::Untag {
            match check_untag_allowed(&tag_type, registry) {
                Ok(_) => {},
                Err(e) => {
                    return Err(e);
                },
            }
        }
        let strategy = match get_strategy(&tag_type, registry) {
            Ok(s) => s,
            Err(e) => {
                return Err(e);
            },
        };
        let node = ResolvedNode { tag_type, label, strategy };
        proof {
            assert(resolved_models(out@.push(node)) =~= resolved_models(out@).push(node@));
        }
        out.push(node);
        i += 1;
    }
    proof {
        assert(ms.take(ms.len() as int) =~= ms);
    }
    Ok(out)
}

// ---------------------------------------------------------------------------
// Directives
// ---------------------------------------------------------------------------

/// What a pair of the query asks for.
enum Directive {
    Tag(TypedTag, EditStrategy),
    DeleteType(TagType),
    DeleteTag(TypedTag),
}

pub enum DirectiveModel {
    Tag(TagModel, EditStrategy),
    DeleteType(TagTypeModel),
    DeleteTag(TagModel),
}

impl Directive {
    spec fn model(self) -> DirectiveModel {
        match self {
            Directive::Tag(t, s) => DirectiveModel::Tag(t@, s),
            Directive::DeleteType(t) => DirectiveModel::DeleteType(t@),
            Directive::DeleteTag(t) => DirectiveModel::DeleteTag(t@),
        }
    }
}

/// A tag with its value read as its type asks for, or the reason why it cannot be.
pub open spec fn interpreted(t: TagModel, reg: Seq<tag::TagFnModel>) -> Result<
    TagModel,
    EditErrorModel,
> {
    match tag::find_fn(reg, t.tag_type.name()) {
        None => Ok(t),
        Some(f) => match tag::read_as(f.reading, t.value) {
            Some(v) => Ok(TagModel { tag_type: t.tag_type, value: v }),
            None => Err(EditErrorModel::NotSingle(t.tag_type.name(), t.value.shown())),
        },
    }
}

/// Reads the value of a tag as its type asks for.
pub fn interpret_tag_value(tag: TypedTag, registry: &TagRegistry) -> (r: Result<
    TypedTag,
    EditError,
>)
    ensures
        match r {
            Ok(t) => interpreted(tag@, registry@) == Ok::<TagModel, EditErrorModel>(t@),
            Err(e) => interpreted(tag@, registry@) == Err::<TagModel, EditErrorModel>(e@),
        },
{
    match registry.get(tag.tag_type.as_str()) {
        None => Ok(tag),
        Some(f) => match tag::interpret(f.reading, &tag.label) {
            Interpreted::Single(value) => Ok(TypedTag::retag(tag.tag_type(), &value)),
            Interpreted::NotSingle => Err(
                EditError::NotSingle(tag.tag_type.as_str().to_owned(), tag.label.as_str()),
            ),
        },
    }
}

/// What a pair asks for, or the reason why it is refused.
pub open spec fn directed(n: ResolvedModel, qt: QueryType, reg: Seq<tag::TagFnModel>) -> Result<
    DirectiveModel,
    EditErrorModel,
> {
    let name = n.tag_type.name();
    match (qt, n.label) {
        (QueryType::Tag, None) => Err(EditErrorModel::Projection(name)),
        (QueryType::Tag, Some(v)) => match strategy_of(name, reg) {
            Err(e) => Err(e),
            Ok(s) => match interpreted(TagModel { tag_type: n.tag_type, value: v }, reg) {
                Err(e) => Err(e),
                Ok(t) => Ok(DirectiveModel::Tag(t, s)),
            },
        },
        (QueryType::Untag, label) => match untag_error(name, reg) {
            Some(e) => Err(e),
            None => match label {
                None => Ok(DirectiveModel::DeleteType(n.tag_type)),
                Some(v) => Ok(
                    DirectiveModel::DeleteTag(TagModel { tag_type: n.tag_type, value: v }),
                ),
            },
        },
    }
}

impl QueryType {
    fn to_directive(&self, node: &ResolvedNode, registry: &TagRegistry) -> (r: Result<
        Directive,
        EditError,
    >)
        ensures
            match r {
                Ok(d) => directed(node@, *self, registry@) == Ok::<DirectiveModel, EditErrorModel>(
                    d.model(),
                ),
                Err(e) => directed(node@, *self, registry@) == Err::<
                    DirectiveModel,
                    EditErrorModel,
                >(e@),
            },
    {
        match self {
            QueryType::Tag => match &node.label {
                None => Err(EditError::Projection(node.tag_type.as_str().to_owned())),
                Some(v) => {
                    let strategy = match get_strategy(&node.tag_type, registry) {
                        Ok(s) => s,
                        Err(e) => {
                            return Err(e);
                        },
                    };
                    match interpret_tag_value(
                        TypedTag::retag(node.tag_type.clone(), v),
                        registry,
                    ) {
                        Ok(t) => Ok(Directive::Tag(t, strategy)),
                        Err(e) => Err(e),
                    }
                },
            },
            QueryType::Untag => match check_untag_allowed(&node.tag_type, registry) {
                Err(e) => Err(e),
                Ok(_) => match &node.label {
                    None => Ok(Directive::DeleteType(node.tag_type.clone())),
                    Some(v) => Ok(Directive::DeleteTag(TypedTag::retag(node.tag_type.clone(), v))),
                },
            },
        }
    }
}

/// Whether a tag is among the tags.
pub open spec fn has_tag(tags: Seq<TagModel>, t: TagModel) -> bool {
    exists|i: int| 0 <= i < tags.len() && (#[trigger] tags[i]).same(t)
}

/// The writes that a directive comes down to on an item with the given tags. Taking away
/// a tag that the item does not have takes no write.
pub open spec fn directive_actions(d: DirectiveModel, id: ItemId, tags: Seq<TagModel>) -> Result<
    Seq<ActionModel>,
    EditErrorModel,
> {
    match d {
        DirectiveModel::Tag(t, s) => {
            let name = t.tag_type.name();
            match s {
                EditStrategy::Append => Ok(
                    seq![ActionModel::Add { item: id, tags: seq![OpModel::Append(t)] }],
                ),
                EditStrategy::Replace => Ok(
                    seq![
                        ActionModel::Delete { item: id, tags: seq![TargetModel::Type(t.tag_type)] },
                        ActionModel::Add { item: id, tags: seq![OpModel::Replace(t)] },
                    ],
                ),
                EditStrategy::ModifyInjection => Err(EditErrorModel::ModifyInjection(name)),
                EditStrategy::Relocate | EditStrategy::SetFileAttr => Err(
                    EditErrorModel::NeedsFsOperate(name),
                ),
                EditStrategy::RemoveOnly => Err(EditErrorModel::RemoveOnly(name)),
            }
        },
        DirectiveModel::DeleteType(tt) => Ok(
            seq![ActionModel::Delete { item: id, tags: seq![TargetModel::Type(tt)] }],
        ),
        DirectiveModel::DeleteTag(t) => if has_tag(tags, t) {
            Ok(seq![ActionModel::Delete { item: id, tags: seq![TargetModel::Tag(t)] }])
        } else {
            Ok(seq![])
        },
    }
}

fn add_action(item: ItemId, op: TagOp) -> (r: WriteAction)
    ensures
        r@ == (ActionModel::Add { item, tags: seq![op@] }),
{
    let mut tags: Vec<TagOp> = Vec::new();
    tags.push(op);
    proof {
        assert(action::op_models(tags@) =~= seq![op@]);
    }
    WriteAction::Add { item, tags }
}

fn delete_action(item: ItemId, target: DeleteTarget) -> (r: WriteAction)
    ensures
        r@ == (ActionModel::Delete { item, tags: seq![target@] }),
{
    let mut tags: Vec<DeleteTarget> = Vec::new();
    tags.push(target);
    proof {
        assert(action::target_models(tags@) =~= seq![target@]);
    }
    WriteAction::Delete { item, tags }
}

fn item_has_tag(item: &Item, t: &TypedTag) -> (r: bool)
    ensures
        r == has_tag(item.tags@, t@),
{
    let mut i: usize = 0;
    while i < item.tags.entries.len()
        invariant
            i <= item.tags.entries@.len(),
            forall|k: int| 0 <= k < i ==> !(#[trigger] item.tags@[k]).same(t@),
        decreases item.tags.entries@.len() - i,
    {
        if item.tags.entries[i].typed_tag.same(t) {
            proof {
                assert(item.tags@[i as int].same(t@));
            }
            return true;
        }
        i += 1;
    }
    false
}

impl Directive {
    fn into_actions(self, id: ItemId, item: &Item) -> (r: Result<Vec<WriteAction>, EditError>)
        ensures
            match r {
                Ok(v) => directive_actions(self.model(), id, item.tags@) == Ok::<
                    Seq<ActionModel>,
                    EditErrorModel,
                >(action::action_models(v@)),
                Err(e) => directive_actions(self.model(), id, item.tags@) == Err::<
                    Seq<ActionModel>,
                    EditErrorModel,
                >(e@),
            },
    {
        let mut out: Vec<WriteAction> = Vec::new();
        match self {
            Directive::Tag(t, s) => match s {
                EditStrategy::Append => {
                    let a = add_action(id, TagOp::Append(t));
                    out.push(a);
                    proof {
                        assert(action::action_models(out@) =~= seq![a@]);
                    }
                },
                EditStrategy::Replace => {
                    let d = delete_action(id, DeleteTarget::Type(t.tag_type()));
                    let a = add_action(id, TagOp::Replace(t));
                    out.push(d);
                    out.push(a);
                    proof {
                        assert(action::action_models(out@) =~= seq![d@, a@]);
                    }
                },
                EditStrategy::ModifyInjection => {
                    return Err(EditError::ModifyInjection(t.tag_type.as_str().to_owned()));
                },
                EditStrategy::Relocate | EditStrategy::SetFileAttr => {
                    return Err(EditError::NeedsFsOperate(t.tag_type.as_str().to_owned()));
                },
                EditStrategy::RemoveOnly => {
                    return Err(EditError::RemoveOnly(t.tag_type.as_str().to_owned()));
                },
            },
            Directive::DeleteType(tt) => {
                let d = delete_action(id, DeleteTarget::Type(tt));
                out.push(d);
                proof {
                    assert(action::action_models(out@) =~= seq![d@]);
                }
            },
            Directive::DeleteTag(t) => {
                if item_has_tag(item, &t) {
                    let d = delete_action(id, DeleteTarget::Tag(t));
                    out.push(d);
                    proof {
                        assert(action::action_models(out@) =~= seq![d@]);
                    }
                } else {
                    proof {
                        assert(action::action_models(out@) =~= seq![]);
                    }
                }
            },
        }
        Ok(out)
    }
}

// ---------------------------------------------------------------------------
// Items that are not stored yet
// ---------------------------------------------------------------------------

/// The kind under which an item is stored: a tag or a type where it is known by one such
/// value, else a note.
pub open spec fn kind_text(repr: Seq<TagModel>) -> Seq<char> {
    if repr.len() == 1 && repr[0].tag_type == TagTypeModel::Base(Col::TypedTag) {
        "tag"@
    } else if repr.len() == 1 && repr[0].tag_type == TagTypeModel::Base(Col::Type) {
        "type"@
    } else {
        "note"@
    }
}

pub open spec fn shown_values(repr: Seq<TagModel>) -> Seq<Seq<char>> {
    repr.map_values(|t: TagModel| t.value.shown())
}

/// The value that the program sets for a type when an item is first stored: its kind, and
/// as content the values that it is known by.
pub open spec fn injected(name: Seq<char>, repr: Seq<TagModel>) -> Option<Seq<char>> {
    if name == Col::ItemKind.name_text() {
        Some(kind_text(repr))
    } else if name == Col::Content.name_text() && repr.len() > 0 {
        Some(text::joined(shown_values(repr), " &: "@))
    } else {
        None
    }
}

/// The tags that the program sets when an item is first stored, in the order of the
/// registry.
pub open spec fn injections(reg: Seq<tag::TagFnModel>, repr: Seq<TagModel>) -> Seq<TagModel>
    decreases reg.len(),
{
    if reg.len() == 0 {
        seq![]
    } else {
        let before = injections(reg.drop_last(), repr);
        let f = reg.last();
        if f.edit is Some && f.edit->0.strategy == EditStrategy::ModifyInjection && injected(
            f.name,
            repr,
        ) is Some {
            before.push(
                TagModel {
                    tag_type: TagTypeModel::named(f.name),
                    value: BiticalModel::String(injected(f.name, repr)->0),
                },
            )
        } else {
            before
        }
    }
}

pub open spec fn has_type(tags: Seq<TagModel>, ty: TagTypeModel) -> bool {
    exists|i: int| 0 <= i < tags.len() && (#[trigger] tags[i]).tag_type == ty
}

/// The text of the first tag of a type; empty where there is none.
pub open spec fn first_of_type(tags: Seq<TagModel>, ty: TagTypeModel) -> Seq<char>
    decreases tags.len(),
{
    if tags.len() == 0 {
        seq![]
    } else if tags[0].tag_type == ty {
        tags[0].value.shown()
    } else {
        first_of_type(tags.skip(1), ty)
    }
}

/// The name that an item without one is given: the first value that it is known by, else
/// its kind. An empty name is none.
pub open spec fn given_name(repr: Seq<TagModel>, existing: Seq<TagModel>, out: Seq<TagModel>) -> Option<
    Seq<char>,
> {
    let ty = TagTypeModel::Base(Col::Name);
    let name = if repr.len() > 0 {
        repr[0].value.shown()
    } else {
        first_of_type(out, TagTypeModel::Base(Col::ItemKind))
    };
    if has_type(existing, ty) || has_type(out, ty) || name.len() == 0 {
        None
    } else {
        Some(name)
    }
}

/// All the tags that are added when an item with the tags `existing` is first stored.
pub open spec fn registration(
    reg: Seq<tag::TagFnModel>,
    repr: Seq<TagModel>,
    existing: Seq<TagModel>,
) -> Seq<TagModel> {
    let out = injections(reg, repr);
    match given_name(repr, existing, out) {
        Some(name) => out.push(
            TagModel {
                tag_type: TagTypeModel::Base(Col::Name),
                value: BiticalModel::String(name),
            },
        ),
        None => out,
    }
}

fn any_of_type(tags: &Vec<TypedTag>, c: Col) -> (r: bool)
    ensures
        r == has_type(item::tag_models(tags@), TagTypeModel::Base(c)),
{
    let ghost ms = item::tag_models(tags@);
    let mut i: usize = 0;
    while i < tags.len()
        invariant
            i <= tags@.len(),
            ms == item::tag_models(tags@),
            forall|k: int|
                0 <= k < i ==> (#[trigger] ms[k]).tag_type != TagTypeModel::Base(c),
        decreases tags@.len() - i,
    {
        if tags[i].tag_type.is_base(c) {
            proof {
                assert(ms[i as int].tag_type == TagTypeModel::Base(c));
            }
            return true;
        }
        i += 1;
    }
    false
}

fn first_text_of_type(tags: &Vec<TypedTag>, c: Col) -> (r: String)
    ensures
        r@ == first_of_type(item::tag_models(tags@), TagTypeModel::Base(c)),
{
    let ghost ms = item::tag_models(tags@);
    let ghost ty = TagTypeModel::Base(c);
    let mut i: usize = 0;
    proof {
        assert(ms.skip(0) =~= ms);
    }
    while i < tags.len()
        invariant
            i <= tags@.len(),
            ms == item::tag_models(tags@),
            ty == TagTypeModel::Base(c),
            first_of_type(ms, ty) == first_of_type(ms.skip(i as int), ty),
        decreases tags@.len() - i,
    {
        proof {
            assert(ms.skip(i as int).skip(1) =~= ms.skip(i + 1));
            assert(ms.skip(i as int)[0] == tags@[i as int]@);
        }
        if tags[i].tag_type.is_base(c) {
            return tags[i].as_str();
        }
        i += 1;
    }
    String::new()
}

fn inject_name(item: &Item, existing: &Vec<TypedTag>, out: &mut Vec<TypedTag>)
    ensures
        item::tag_models(final(out)@) == (match given_name(
            item.repr(),
            item::tag_models(existing@),
            item::tag_models(old(out)@),
        ) {
            Some(name) => item::tag_models(old(out)@).push(
                TagModel {
                    tag_type: TagTypeModel::Base(Col::Name),
                    value: BiticalModel::String(name),
                },
            ),
            None => item::tag_models(old(out)@),
        }),
{
    if any_of_type(existing, Col::Name) || any_of_type(out, Col::Name) {
        return;
    }
    let name = if item.representative.tags.len() > 0 {
        proof {
            assert(item.repr()[0] == item.representative.tags@[0]@);
        }
        item.representative.tags[0].as_str()
    } else {
        first_text_of_type(out, Col::ItemKind)
    };
    if !name.as_str().is_empty() {
        let t = TypedTag::new(TagType::Base(Col::Name), Bitical::String(name));
        let ghost before = out@;
        out.push(t);
        proof {
            assert(item::tag_models(out@) =~= item::tag_models(before).push(t@));
        }
    }
}

fn inject(name: &str, item: &Item) -> (r: Option<String>)
    ensures
        match r {
            Some(s) => injected(name@, item.repr()) == Some(s@),
            None => injected(name@, item.repr()) is None,
        },
{
    let tags = &item.representative.tags;
    if text::str_eq(name, Col::ItemKind.name()) {
        if tags.len() == 1 {
            proof {
                assert(item.repr()[0] == tags@[0]@);
            }
            if tags[0].tag_type.is_base(Col::TypedTag) {
                return Some("tag".to_owned());
            }
            if tags[0].tag_type.is_base(Col::Type) {
                return Some("type".to_owned());
            }
        }
        return Some("note".to_owned());
    }
    if text::str_eq(name, Col::Content.name()) && tags.len() > 0 {
        let mut values: Vec<String> = Vec::new();
        let mut i: usize = 0;
        let ghost shown = shown_values(item.repr());
        while i < tags.len()
            invariant
                i <= tags@.len(),
                *tags == item.representative.tags,
                shown == shown_values(item.repr()),
                text::texts(values@) == shown.take(i as int),
            decreases tags@.len() - i,
        {
            let v = tags[i].as_str();
            proof {
                text::lemma_texts_push(values@, v);
                assert(shown[i as int] == v@);
                assert(shown.take(i + 1) =~= shown.take(i as int).push(v@));
            }
            values.push(v);
            i += 1;
        }
        proof {
            assert(shown.take(shown.len() as int) =~= shown);
        }
        return Some(text::join(&values, " &: "));
    }
    None
}

fn injection_labels(item: &Item, current_tags: &Vec<TypedTag>, registry: &TagRegistry) -> (r: Vec<
    TypedTag,
>)
    ensures
        item::tag_models(r@) == registration(
            registry@,
            item.repr(),
            item::tag_models(current_tags@),
        ),
{
    let mut out: Vec<TypedTag> = Vec::new();
    let mut i: usize = 0;
    let ghost reg = registry@;
    proof {
        assert(item::tag_models(out@) =~= injections(reg.take(0), item.repr()));
    }
    while i < registry.fns.len()
        invariant
            i <= registry.fns@.len(),
            reg == registry@,
            item::tag_models(out@) == injections(reg.take(i as int), item.repr()),
        decreases registry.fns@.len() - i,
    {
        let f = &registry.fns[i];
        proof {
            assert(reg.take(i + 1).drop_last() =~= reg.take(i as int));
            assert(reg.take(i + 1).last() == f@);
        }
        match &f.edit {
            Some(e) => {
                if e.strategy == EditStrategy::ModifyInjection {
                    match inject(f.name.as_str(), item) {
                        Some(s) => {
                            let t = TypedTag::new(
                                TagType::from(f.name.as_str()),
                                Bitical::String(s),
                            );
                            proof {
                                assert(item::tag_models(out@.push(t)) =~= item::tag_models(
                                    out@,
                                ).push(t@));
                            }
                            out.push(t);
                        },
                        None => {},
                    }
                }
            },
            None => {},
        }
        i += 1;
    }
    proof {
        assert(reg.take(reg.len() as int) =~= reg);
    }
    inject_name(item, current_tags, &mut out);
    out
}

/// The tags after one write of an action's list.
pub open spec fn after_ops(tags: Seq<TagModel>, ops: Seq<OpModel>) -> Seq<TagModel> {
    tags + ops.map_values(|o: OpModel| o.tag())
}

pub open spec fn after_target(tags: Seq<TagModel>, t: TargetModel) -> Seq<TagModel> {
    match t {
        TargetModel::Type(tt) => tags.filter(|x: TagModel| x.tag_type != tt),
        TargetModel::Tag(d) => tags.filter(|x: TagModel| !x.same(d)),
    }
}

pub open spec fn after_targets(tags: Seq<TagModel>, targets: Seq<TargetModel>) -> Seq<TagModel>
    decreases targets.len(),
{
    if targets.len() == 0 {
        tags
    } else {
        after_target(after_targets(tags, targets.drop_last()), targets.last())
    }
}

/// The tags after an action is carried out on them.
pub open spec fn after_action(tags: Seq<TagModel>, a: ActionModel) -> Seq<TagModel> {
    match a {
        ActionModel::Add { item, tags: ops } => after_ops(tags, ops),
        ActionModel::Delete { item, tags: targets } => after_targets(tags, targets),
    }
}

/// The tags after a list of actions is carried out on them.
pub open spec fn after_actions(tags: Seq<TagModel>, actions: Seq<ActionModel>) -> Seq<TagModel>
    decreases actions.len(),
{
    if actions.len() == 0 {
        tags
    } else {
        after_action(after_actions(tags, actions.drop_last()), actions.last())
    }
}

fn drop_target(tags: Vec<TypedTag>, target: &DeleteTarget) -> (r: Vec<TypedTag>)
    ensures
        item::tag_models(r@) == after_target(item::tag_models(tags@), target@),
{
    let mut out: Vec<TypedTag> = Vec::new();
    let ghost ms = item::tag_models(tags@);
    let ghost p = match target@ {
        TargetModel::Type(tt) => |x: TagModel| x.tag_type != tt,
        TargetModel::Tag(d) => |x: TagModel| !x.same(d),
    };
    let mut i: usize = 0;
    proof {
        reveal(Seq::filter);
        assert(item::tag_models(out@) =~= ms.take(0).filter(p));
    }
    while i < tags.len()
        invariant
            i <= tags@.len(),
            ms == item::tag_models(tags@),
            p == (match target@ {
                TargetModel::Type(tt) => |x: TagModel| x.tag_type != tt,
                TargetModel::Tag(d) => |x: TagModel| !x.same(d),
            }),
            item::tag_models(out@) == ms.take(i as int).filter(p),
        decreases tags@.len() - i,
    {
        let keep = match target {
            DeleteTarget::Type(tt) => !tags[i].tag_type.same(tt),
            DeleteTarget::Tag(t) => !tags[i].same(t),
        };
        proof {
            reveal(Seq::filter);
            assert(ms.take(i + 1).drop_last() =~= ms.take(i as int));
            assert(ms.take(i + 1).last() == tags@[i as int]@);
            assert(keep == p(tags@[i as int]@));
        }
        if keep {
            let t = tags[i].clone();
            proof {
                assert(item::tag_models(out@.push(t)) =~= item::tag_models(out@).push(t@));
            }
            out.push(t);
        }
        i += 1;
    }
    proof {
        assert(ms.take(ms.len() as int) =~= ms);
    }
    out
}

fn apply_action(tags: Vec<TypedTag>, a: &WriteAction) -> (r: Vec<TypedTag>)
    ensures
        item::tag_models(r@) == after_action(item::tag_models(tags@), a@),
{
    let ghost start = item::tag_models(tags@);
    let mut out = tags;
    match a {
        WriteAction::Add { item, tags: ops } => {
            let ghost added = action::op_models(ops@).map_values(|o: OpModel| o.tag());
            let mut i: usize = 0;
            proof {
                assert(start + added.take(0) =~= start);
            }
            while i < ops.len()
                invariant
                    i <= ops@.len(),
                    added == action::op_models(ops@).map_values(|o: OpModel| o.tag()),
                    item::tag_models(out@) == start + added.take(i as int),
                decreases ops@.len() - i,
            {
                let t = ops[i].tag().clone();
                proof {
                    assert(added[i as int] == t@);
                    assert(item::tag_models(out@.push(t)) =~= item::tag_models(out@).push(t@));
                    assert(start + added.take(i + 1) =~= (start + added.take(i as int)).push(t@));
                }
                out.push(t);
                i += 1;
            }
            proof {
                assert(added.take(added.len() as int) =~= added);
            }
        },
        WriteAction::Delete { item, tags: targets } => {
            let ghost ts = action::target_models(targets@);
            let mut i: usize = 0;
            while i < targets.len()
                invariant
                    i <= targets@.len(),
                    ts == action::target_models(targets@),
                    item::tag_models(out@) == after_targets(start, ts.take(i as int)),
                decreases targets@.len() - i,
            {
                proof {
                    assert(ts.take(i + 1).drop_last() =~= ts.take(i as int));
                    assert(ts.take(i + 1).last() == targets@[i as int]@);
                }
                out = drop_target(out, &targets[i]);
                i += 1;
            }
            proof {
                assert(ts.take(ts.len() as int) =~= ts);
            }
        },
    }
    out
}

/// The one write that stores an item for the first time: its tags after the actions, and
/// what the program sets.
pub open spec fn stored_first(
    reg: Seq<tag::TagFnModel>,
    id: ItemId,
    repr: Seq<TagModel>,
    tags: Seq<TagModel>,
    actions: Seq<ActionModel>,
) -> ActionModel {
    let after = after_actions(tags, actions);
    ActionModel::Add {
        item: id,
        tags: (after + registration(reg, repr, after)).map_values(
            |t: TagModel| OpModel::Append(t),
        ),
    }
}

fn fold_volatile(item: &Item, actions: &Vec<WriteAction>, registry: &TagRegistry) -> (r: Vec<
    WriteAction,
>)
    ensures
        action::action_models(r@) == seq![
            stored_first(
                registry@,
                item.id,
                item.repr(),
                item.tags@,
                action::action_models(actions@),
            ),
        ],
{
    let mut tags: Vec<TypedTag> = Vec::new();
    let mut i: usize = 0;
    while i < item.tags.entries.len()
        invariant
            i <= item.tags.entries@.len(),
            item::tag_models(tags@) == item.tags@.take(i as int),
        decreases item.tags.entries@.len() - i,
    {
        let t = item.tags.entries[i].typed_tag.clone();
        proof {
            assert(item::tag_models(tags@.push(t)) =~= item::tag_models(tags@).push(t@));
            assert(item.tags@.take(i + 1) =~= item.tags@.take(i as int).push(item.tags@[i as int]));
        }
        tags.push(t);
        i += 1;
    }
    let ghost acts = action::action_models(actions@);
    proof {
        assert(item.tags@.take(item.tags@.len() as int) =~= item.tags@);
        assert(acts.take(0) =~= seq![]);
    }
    let mut j: usize = 0;
    while j < actions.len()
        invariant
            j <= actions@.len(),
            acts == action::action_models(actions@),
            item::tag_models(tags@) == after_actions(item.tags@, acts.take(j as int)),
        decreases actions@.len() - j,
    {
        proof {
            assert(acts.take(j + 1).drop_last() =~= acts.take(j as int));
            assert(acts.take(j + 1).last() == actions@[j as int]@);
        }
        tags = apply_action(tags, &actions[j]);
        j += 1;
    }
    let ghost after = item::tag_models(tags@);
    proof {
        assert(acts.take(acts.len() as int) =~= acts);
    }
    let extra = injection_labels(item, &tags, registry);
    let ghost wanted = (after + item::tag_models(extra@)).map_values(
        |t: TagModel| OpModel::Append(t),
    );
    let mut ops: Vec<TagOp> = Vec::new();
    let mut k: usize = 0;
    proof {
        assert(action::op_models(ops@) =~= wanted.take(0));
    }
    while k < tags.len()
        invariant
            k <= tags@.len(),
            after == item::tag_models(tags@),
            wanted == (after + item::tag_models(extra@)).map_values(
                |t: TagModel| OpModel::Append(t),
            ),
            action::op_models(ops@) == wanted.take(k as int),
        decreases tags@.len() - k,
    {
        let op = TagOp::Append(tags[k].clone());
        proof {
            action::lemma_ops_push(ops@, op);
            assert(wanted[k as int] == op@);
            assert(wanted.take(k + 1) =~= wanted.take(k as int).push(op@));
        }
        ops.push(op);
        k += 1;
    }
    let mut m: usize = 0;
    while m < extra.len()
        invariant
            m <= extra@.len(),
            k == tags@.len(),
            after == item::tag_models(tags@),
            wanted == (after + item::tag_models(extra@)).map_values(
                |t: TagModel| OpModel::Append(t),
            ),
            action::op_models(ops@) == wanted.take(k + m),
        decreases extra@.len() - m,
    {
        let op = TagOp::Append(extra[m].clone());
        proof {
            action::lemma_ops_push(ops@, op);
            assert(wanted[k + m] == op@);
            assert(wanted.take(k + m + 1) =~= wanted.take(k + m).push(op@));
        }
        ops.push(op);
        m += 1;
    }
    proof {
        assert(wanted.take(wanted.len() as int) =~= wanted);
    }
    let mut out: Vec<WriteAction> = Vec::new();
    let a = WriteAction::Add { item: item.id, tags: ops };
    out.push(a);
    proof {
        assert(action::action_models(out@) =~= seq![a@]);
    }
    out
}

// ---------------------------------------------------------------------------
// All of it
// ---------------------------------------------------------------------------

/// What the pairs ask for, or the first reason why one is refused.
pub open spec fn directed_all(
    nodes: Seq<ResolvedModel>,
    qt: QueryType,
    reg: Seq<tag::TagFnModel>,
) -> Result<Seq<DirectiveModel>, EditErrorModel>
    decreases nodes.len(),
{
    if nodes.len() == 0 {
        Ok(seq![])
    } else {
        match directed_all(nodes.drop_last(), qt, reg) {
            Err(e) => Err(e),
            Ok(done) => match directed(nodes.last(), qt, reg) {
                Err(e) => Err(e),
                Ok(d) => Ok(done.push(d)),
            },
        }
    }
}

/// The writes that the directives come down to, or the first reason why one is refused.
pub open spec fn all_actions(ds: Seq<DirectiveModel>, id: ItemId, tags: Seq<TagModel>) -> Result<
    Seq<ActionModel>,
    EditErrorModel,
>
    decreases ds.len(),
{
    if ds.len() == 0 {
        Ok(seq![])
    } else {
        match all_actions(ds.drop_last(), id, tags) {
            Err(e) => Err(e),
            Ok(done) => match directive_actions(ds.last(), id, tags) {
                Err(e) => Err(e),
                Ok(more) => Ok(done + more),
            },
        }
    }
}

proof fn lemma_directed_error(
    nodes: Seq<ResolvedModel>,
    k: int,
    qt: QueryType,
    reg: Seq<tag::TagFnModel>,
)
    requires
        0 <= k <= nodes.len(),
        directed_all(nodes.take(k), qt, reg) is Err,
    ensures
        directed_all(nodes, qt, reg) == directed_all(nodes.take(k), qt, reg),
    decreases nodes.len(),
{
    if k == nodes.len() {
        assert(nodes.take(k) =~= nodes);
    } else {
        assert(nodes.drop_last().take(k) =~= nodes.take(k));
        lemma_directed_error(nodes.drop_last(), k, qt, reg);
    }
}

proof fn lemma_actions_error(ds: Seq<DirectiveModel>, k: int, id: ItemId, tags: Seq<TagModel>)
    requires
        0 <= k <= ds.len(),
        all_actions(ds.take(k), id, tags) is Err,
    ensures
        all_actions(ds, id, tags) == all_actions(ds.take(k), id, tags),
    decreases ds.len(),
{
    if k == ds.len() {
        assert(ds.take(k) =~= ds);
    } else {
        assert(ds.drop_last().take(k) =~= ds.take(k));
        lemma_actions_error(ds.drop_last(), k, id, tags);
    }
}

/// The writes that the pairs of a query come down to on an item, or why they are refused.
pub open spec fn modified(
    item: Item,
    nodes: Seq<ResolvedModel>,
    qt: QueryType,
    reg: Seq<tag::TagFnModel>,
) -> Result<Seq<ActionModel>, EditErrorModel> {
    match directed_all(nodes, qt, reg) {
        Err(e) => Err(e),
        Ok(ds) => match all_actions(ds, item.id, item.tags@) {
            Err(e) => Err(e),
            Ok(actions) => if item.id.stored() {
                Ok(actions)
            } else {
                Ok(seq![stored_first(reg, item.id, item.repr(), item.tags@, actions)])
            },
        },
    }
}

spec fn directive_models(v: Seq<Directive>) -> Seq<DirectiveModel> {
    v.map_values(|d: Directive| d.model())
}

/// Works out the writes that the pairs of a query come down to on an item. An item that
/// is not stored yet is written in one piece, with its tags and what the program sets.
pub fn modify(
    item: &Item,
    nodes: &Vec<ResolvedNode>,
    query_type: QueryType,
    registry: &TagRegistry,
) -> (r: Result<Vec<WriteAction>, EditError>)
    ensures
        match r {
            Ok(v) => modified(*item, resolved_models(nodes@), query_type, registry@) == Ok::<
                Seq<ActionModel>,
                EditErrorModel,
            >(action::action_models(v@)),
            Err(e) => modified(*item, resolved_models(nodes@), query_type, registry@) == Err::<
                Seq<ActionModel>,
                EditErrorModel,
            >(e@),
        },
{
    let ghost ms = resolved_models(nodes@);
    let mut ds: Vec<Directive> = Vec::new();
    let mut i: usize = 0;
    proof {
        assert(directive_models(ds@) =~= seq![]);
        assert(ms.take(0) =~= seq![]);
    }
    while i < nodes.len()
        invariant
            i <= nodes@.len(),
            ms == resolved_models(nodes@),
            directed_all(ms.take(i as int), query_type, registry@) == Ok::<
                Seq<DirectiveModel>,
                EditErrorModel,
            >(directive_models(ds@)),
        decreases nodes@.len() - i,
    {
        proof {
            assert(ms.take(i + 1).drop_last() =~= ms.take(i as int));
            assert(ms.take(i + 1).last() == nodes@[i as int]@);
            if directed_all(ms.take(i + 1), query_type, registry@) is Err {
                lemma_directed_error(ms, i + 1, query_type, registry@);
            }
        }
        match query_type.to_directive(&nodes[i], registry) {
            Ok(d) => {
                proof {
                    assert(directive_models(ds@.push(d)) =~= directive_models(ds@).push(
                        d.model(),
                    ));
                }
                ds.push(d);
            },
            Err(e) => {
                return Err(e);
            },
        }
        i += 1;
    }
    let ghost dm = directive_models(ds@);
    proof {
        assert(ms.take(ms.len() as int) =~= ms);
        assert(dm.take(0) =~= seq![]);
    }
    let mut actions: Vec<WriteAction> = Vec::new();
    let mut done: usize = 0;
    let total: usize = ds.len();
    proof {
        assert(action::action_models(actions@) =~= seq![]);
        assert(dm.skip(0) =~= dm);
    }
    let mut rest = ds;
    while rest.len() > 0
        invariant
            done + rest@.len() == total == dm.len(),
            directive_models(rest@) == dm.skip(done as int),
            directed_all(ms, query_type, registry@) == Ok::<Seq<DirectiveModel>, EditErrorModel>(
                dm,
            ),
            ms == resolved_models(nodes@),
            all_actions(dm.take(done as int), item.id, item.tags@) == Ok::<
                Seq<ActionModel>,
                EditErrorModel,
            >(action::action_models(actions@)),
        decreases rest@.len(),
    {
        let ghost before = rest@;
        let d = rest.remove(0);
        proof {
            assert(directive_models(before)[0] == dm.skip(done as int)[0]);
            assert(d.model() == dm[done as int]);
            assert(rest@ =~= before.skip(1));
            assert(directive_models(rest@) =~= directive_models(before).skip(1));
            assert(dm.skip(done as int).skip(1) =~= dm.skip(done + 1));
            assert(dm.take(done + 1).drop_last() =~= dm.take(done as int));
            assert(dm.take(done + 1).last() == d.model());
            if all_actions(dm.take(done + 1), item.id, item.tags@) is Err {
                lemma_actions_error(dm, done + 1, item.id, item.tags@);
            }
        }
        match d.into_actions(item.id, item) {
            Ok(more) => {
                let ghost a = actions@;
                let ghost b = more@;
                let mut more = more;
                actions.append(&mut more);
                proof {
                    assert(action::action_models(a + b) =~= action::action_models(a)
                        + action::action_models(b));
                }
            },
            Err(e) => {
                return Err(e);
            },
        }
        done += 1;
    }
    proof {
        assert(dm.take(dm.len() as int) =~= dm);
    }
    if item.id.is_stored() {
        Ok(actions)
    } else {
        Ok(fold_volatile(item, &actions, registry))
    }
}

/// An item that is not stored yet is stored in exactly one write, which adds and never
/// deletes.
pub proof fn law_unstored_item_is_one_add(
    item: Item,
    nodes: Seq<ResolvedModel>,
    qt: QueryType,
    reg: Seq<tag::TagFnModel>,
)
    requires
        !item.id.stored(),
        modified(item, nodes, qt, reg) is Ok,
    ensures
        modified(item, nodes, qt, reg)->Ok_0.len() == 1,
        modified(item, nodes, qt, reg)->Ok_0[0] is Add,
        modified(item, nodes, qt, reg)->Ok_0[0].id() == item.id,
{
}

/// Taking tags away only ever deletes, and setting tags on a stored item never names
/// another item.
pub proof fn law_actions_stay_on_the_item(ds: Seq<DirectiveModel>, id: ItemId, tags: Seq<TagModel>)
    requires
        all_actions(ds, id, tags) is Ok,
    ensures
        forall|i: int|
            0 <= i < all_actions(ds, id, tags)->Ok_0.len() ==> (#[trigger] all_actions(
                ds,
                id,
                tags,
            )->Ok_0[i]).id() == id,
    decreases ds.len(),
{
    if ds.len() > 0 {
        law_actions_stay_on_the_item(ds.drop_last(), id, tags);
        let done = all_actions(ds.drop_last(), id, tags)->Ok_0;
        let more = directive_actions(ds.last(), id, tags)->Ok_0;
        assert forall|i: int| 0 <= i < (done + more).len() implies (#[trigger] (done
            + more)[i]).id() == id by {
            if i < done.len() {
                assert((done + more)[i] == done[i]);
            } else {
                assert((done + more)[i] == more[i - done.len()]);
            }
        }
    }
}

/// After a type that holds one value is set, the item holds that value under the type
/// and no other.
pub proof fn law_replace_leaves_one(id: ItemId, tags: Seq<TagModel>, t: TagModel)
    ensures
        ({
            let actions = directive_actions(
                DirectiveModel::Tag(t, EditStrategy::Replace),
                id,
                tags,
            )->Ok_0;
            item::of_type(after_actions(tags, actions), t.tag_type) == seq![t]
        }),
{
    reveal(Seq::filter);
    let actions = directive_actions(DirectiveModel::Tag(t, EditStrategy::Replace), id, tags)->Ok_0;
    let target = TargetModel::Type(t.tag_type);
    let cleared = after_target(tags, target);
    assert(actions.drop_last().drop_last() =~= seq![]);
    assert(after_actions(tags, seq![]) == tags);
    let ts = seq![target];
    assert(ts.drop_last() =~= Seq::<TargetModel>::empty());
    assert(after_targets(tags, Seq::<TargetModel>::empty()) == tags);
    assert(after_targets(tags, ts) == cleared);
    assert(after_actions(tags, actions.drop_last()) == cleared);
    let ops = seq![OpModel::Replace(t)];
    assert(ops.map_values(|o: OpModel| o.tag()) =~= seq![t]);
    let after = after_actions(tags, actions);
    assert(after == cleared + seq![t]);
    let p = |x: TagModel| x.tag_type == t.tag_type;
    assert(after.drop_last() =~= cleared);
    lemma_filter_disjoint(tags, t.tag_type);
    assert(cleared.filter(p) =~= seq![]);
    assert(after.filter(p) =~= seq![t]);
}

proof fn lemma_filter_disjoint(tags: Seq<TagModel>, ty: TagTypeModel)
    ensures
        tags.filter(|x: TagModel| x.tag_type != ty).filter(|x: TagModel| x.tag_type == ty).len()
            == 0,
    decreases tags.len(),
{
    reveal(Seq::filter);
    let q = |x: TagModel| x.tag_type != ty;
    let p = |x: TagModel| x.tag_type == ty;
    if tags.len() > 0 {
        lemma_filter_disjoint(tags.drop_last(), ty);
        let kept = tags.drop_last().filter(q);
        if q(tags.last()) {
            assert(kept.push(tags.last()).drop_last() =~= kept);
        }
    }
}

} // verus!
