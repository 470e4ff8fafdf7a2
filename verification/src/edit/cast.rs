//! Changing the kind of value that a type holds.
use crate::col::Col;
use crate::edit::error::{EditError, EditErrorModel};
use crate::edit::modify;
use crate::edit::modify::NumberText;
use crate::edit::parse;
use crate::edit::parse::{EditQuery, EditQueryNode, NodeModel};
use crate::item::{Item, TagType, TagTypeModel};
use crate::tag;
use crate::tag::{TagRegistry, TypeConfig};
use crate::text;
use crate::text::str_eq;
use crate::types;
use crate::types::{Bitical, BiticalModel, BiticalType, Number};
use vstd::prelude::*;

verus! {

/// The value of a kind that a text reads as. `number` is the number in double precision
/// that it reads as, if it does.
pub open spec fn read_value_as(
    s: Seq<char>,
    target: BiticalType,
    number: Option<(u64, Seq<char>)>,
) -> Option<BiticalModel> {
    match target {
        BiticalType::String => Some(BiticalModel::String(s)),
        BiticalType::Integer => match text::parsed_i64(s) {
            Some(i) => Some(BiticalModel::Integer(i)),
            None => None,
        },
        BiticalType::Double => match number {
            Some(n) => Some(BiticalModel::Double(n.0, n.1)),
            None => None,
        },
        BiticalType::Boolean => if text::lowercase(s) == "true"@ {
            Some(BiticalModel::Boolean(true))
        } else if text::lowercase(s) == "false"@ {
            Some(BiticalModel::Boolean(false))
        } else {
            None
        },
        BiticalType::Uuid => match types::uuid_read(s) {
            Some(u) => Some(BiticalModel::Uuid(u)),
            None => None,
        },
    }
}

pub open spec fn opt_value(v: Option<Bitical>) -> Option<BiticalModel> {
    match v {
        Some(b) => Some(b@),
        None => None,
    }
}

impl Bitical {
    /// The value of a kind that a text reads as.
    pub fn parse_as(s: &str, target_type: BiticalType, number: Option<Number>) -> (r: Option<Self>)
        ensures
            opt_value(r) == read_value_as(s@, target_type, modify::number_model(number)),
    {
        match target_type {
            BiticalType::String => Some(Bitical::String(s.to_owned())),
            BiticalType::Integer => match text::parse_i64(s) {
                Some(i) => Some(Bitical::Integer(i)),
                None => None,
            },
            BiticalType::Double => match number {
                Some(n) => Some(Bitical::Double(n)),
                None => None,
            },
            BiticalType::Boolean => {
                let low = text::to_lower(s);
                if str_eq(low.as_str(), "true") {
                    Some(Bitical::Boolean(true))
                } else if str_eq(low.as_str(), "false") {
                    Some(Bitical::Boolean(false))
                } else {
                    None
                }
            },
            BiticalType::Uuid => match types::uuid_from_text(s) {
                Some(u) => Some(Bitical::Uuid(u)),
                None => None,
            },
        }
    }
}

/// Labels that cannot be converted.
#[derive(Debug, PartialEq, Eq)]
pub struct CastError {
    pub invalid: Vec<String>,
}

impl CastError {
    pub fn message(&self) -> (r: String)
        ensures
            r@ == "Cast aborted due to invalid labels: ["@ + text::joined(
                text::texts(self.invalid@),
                ", "@,
            ) + "]"@,
    {
        text::cat3(
            "Cast aborted due to invalid labels: [",
            text::join(&self.invalid, ", ").as_str(),
            "]",
        )
    }
}

pub open spec fn given_labels(labels: Seq<Option<String>>) -> Seq<Seq<char>>
    decreases labels.len(),
{
    if labels.len() == 0 {
        seq![]
    } else {
        match labels.last() {
            Some(s) => given_labels(labels.drop_last()).push(s@),
            None => given_labels(labels.drop_last()),
        }
    }
}

/// The labels that do not read as a kind of value.
pub open spec fn unreadable(
    labels: Seq<Seq<char>>,
    target: BiticalType,
    numbers: Seq<NumberText>,
) -> Seq<Seq<char>> {
    labels.filter(
        |s: Seq<char>| read_value_as(s, target, modify::number_for(numbers, s)) is None,
    )
}

/// Checks that the labels of a type can be converted. Gives their number, or those that
/// cannot be. Missing labels do not count.
pub fn pre_validate_cast(
    labels: &Vec<Option<String>>,
    target_type: BiticalType,
    numbers: &Vec<NumberText>,
) -> (r: Result<usize, CastError>)
    ensures
        match r {
            Ok(n) => unreadable(given_labels(labels@), target_type, numbers@).len() == 0 && n
                == given_labels(labels@).len(),
            Err(e) => unreadable(given_labels(labels@), target_type, numbers@).len() > 0
                && text::texts(e.invalid@) == unreadable(
                given_labels(labels@),
                target_type,
                numbers@,
            ),
        },
{
    let ghost p = |s: Seq<char>|
        read_value_as(s, target_type, modify::number_for(numbers@, s)) is None;
    let mut invalid: Vec<String> = Vec::new();
    let mut count: usize = 0;
    let mut i: usize = 0;
    proof {
        reveal(Seq::filter);
        assert(labels@.take(0) =~= seq![]);
        assert(text::texts(invalid@) =~= given_labels(labels@.take(0)).filter(p));
    }
    while i < labels.len()
        invariant
            i <= labels@.len(),
            count <= i,
            p == (|s: Seq<char>|
                read_value_as(s, target_type, modify::number_for(numbers@, s)) is None),
            count == given_labels(labels@.take(i as int)).len(),
            text::texts(invalid@) == given_labels(labels@.take(i as int)).filter(p),
        decreases labels@.len() - i,
    {
        let ghost before = given_labels(labels@.take(i as int));
        proof {
            reveal(Seq::filter);
            assert(labels@.take(i + 1).drop_last() =~= labels@.take(i as int));
            assert(labels@.take(i + 1).last() == labels@[i as int]);
        }
        match &labels[i] {
            None => {},
            Some(s) => {
                count += 1;
                proof {
                    assert(before.push(s@).drop_last() =~= before);
                }
                let number = modify::find_number(numbers, s.as_str());
                if Bitical::parse_as(s.as_str(), target_type, number).is_none() {
                    let c = s.clone();
                    proof {
                        text::lemma_texts_push(invalid@, c);
                    }
                    invalid.push(c);
                }
            },
        }
        i += 1;
    }
    proof {
        assert(labels@.take(labels@.len() as int) =~= labels@);
        assert(text::texts(invalid@).len() == invalid@.len());
    }
    if invalid.len() > 0 {
        return Err(CastError { invalid });
    }
    Ok(count)
}

/// A change of the kind of value that a type holds.
#[derive(Debug)]
pub struct TypeCast {
    pub tag_type: TagType,
    pub from_type: BiticalType,
    pub to_type: BiticalType,
}

#[verifier::ext_equal]
pub struct TypeCastModel {
    pub tag_type: TagTypeModel,
    pub from_type: BiticalType,
    pub to_type: BiticalType,
}

impl View for TypeCast {
    type V = TypeCastModel;

    open spec fn view(&self) -> TypeCastModel {
        TypeCastModel {
            tag_type: self.tag_type@,
            from_type: self.from_type,
            to_type: self.to_type,
        }
    }
}

pub open spec fn cast_models(v: Seq<TypeCast>) -> Seq<TypeCastModel> {
    v.map_values(|c: TypeCast| c@)
}

/// Whether an item is the definition of a type.
pub open spec fn type_item(item: Item) -> bool {
    item.repr().len() == 1 && item.repr()[0].tag_type == TagTypeModel::Base(Col::Type)
}

/// Whether an item is the definition of a type.
pub fn is_type_item(item: &Item) -> (r: bool)
    ensures
        r == type_item(*item),
{
    let tags = &item.representative.tags;
    if tags.len() != 1 {
        return false;
    }
    proof {
        assert(item.repr()[0] == tags@[0]@);
    }
    tags[0].tag_type.is_base(Col::Type)
}

/// The kind of value that a type holds: texts, where nothing is set.
pub open spec fn current_kind(configs: Seq<TypeConfig>, name: Seq<char>) -> BiticalType {
    match tag::find_config(configs, name) {
        Some(Some(t)) => t,
        _ => BiticalType::String,
    }
}

/// The change that a pair makes to a type, if it makes one.
pub open spec fn cast_of_node(n: NodeModel, name: Seq<char>, configs: Seq<TypeConfig>) -> Result<
    Option<TypeCastModel>,
    EditErrorModel,
> {
    if n.tag_type.valued() == "bitical_type"@ {
        match n.label {
            None => Ok(None),
            Some(l) => match BiticalType::named(l.valued()) {
                None => Ok(None),
                Some(BiticalType::Uuid) => Err(EditErrorModel::UuidCast),
                Some(t) => {
                    let ty = TagTypeModel::named(name);
                    let cur = current_kind(configs, ty.name());
                    if t == cur {
                        Ok(None)
                    } else {
                        Ok(Some(TypeCastModel { tag_type: ty, from_type: cur, to_type: t }))
                    }
                },
            },
        }
    } else {
        Ok(None)
    }
}

pub open spec fn casts_of_nodes(
    casts: Seq<TypeCastModel>,
    nodes: Seq<NodeModel>,
    name: Seq<char>,
    configs: Seq<TypeConfig>,
) -> Result<Seq<TypeCastModel>, EditErrorModel>
    decreases nodes.len(),
{
    if nodes.len() == 0 {
        Ok(casts)
    } else {
        match casts_of_nodes(casts, nodes.drop_last(), name, configs) {
            Err(e) => Err(e),
            Ok(before) => match cast_of_node(nodes.last(), name, configs) {
                Err(e) => Err(e),
                Ok(None) => Ok(before),
                Ok(Some(c)) => Ok(before.push(c)),
            },
        }
    }
}

/// The changes that an edit makes to types, in order.
pub open spec fn casts_of(edits: Seq<(Item, Option<EditQuery>)>, configs: Seq<TypeConfig>) -> Result<
    Seq<TypeCastModel>,
    EditErrorModel,
>
    decreases edits.len(),
{
    if edits.len() == 0 {
        Ok(seq![])
    } else {
        match casts_of(edits.drop_last(), configs) {
            Err(e) => Err(e),
            Ok(before) => match edits.last().1 {
                None => Ok(before),
                Some(q) => if type_item(edits.last().0) {
                    casts_of_nodes(
                        before,
                        q@,
                        edits.last().0.repr()[0].value.shown(),
                        configs,
                    )
                } else {
                    Ok(before)
                },
            },
        }
    }
}

proof fn lemma_casts_of_nodes_error(
    casts: Seq<TypeCastModel>,
    nodes: Seq<NodeModel>,
    k: int,
    name: Seq<char>,
    configs: Seq<TypeConfig>,
)
    requires
        0 <= k <= nodes.len(),
        casts_of_nodes(casts, nodes.take(k), name, configs) is Err,
    ensures
        casts_of_nodes(casts, nodes, name, configs) == casts_of_nodes(
            casts,
            nodes.take(k),
            name,
            configs,
        ),
    decreases nodes.len(),
{
    if k == nodes.len() {
        assert(nodes.take(k) =~= nodes);
    } else {
        assert(nodes.drop_last().take(k) =~= nodes.take(k));
        lemma_casts_of_nodes_error(casts, nodes.drop_last(), k, name, configs);
    }
}

proof fn lemma_casts_of_error(
    edits: Seq<(Item, Option<EditQuery>)>,
    k: int,
    configs: Seq<TypeConfig>,
)
    requires
        0 <= k <= edits.len(),
        casts_of(edits.take(k), configs) is Err,
    ensures
        casts_of(edits, configs) == casts_of(edits.take(k), configs),
    decreases edits.len(),
{
    if k == edits.len() {
        assert(edits.take(k) =~= edits);
    } else {
        assert(edits.drop_last().take(k) =~= edits.take(k));
        lemma_casts_of_error(edits.drop_last(), k, configs);
    }
}

fn node_cast(n: &EditQueryNode, name: &str, registry: &TagRegistry) -> (r: Result<
    Option<TypeCast>,
    EditError,
>)
    ensures
        match r {
            Ok(Some(c)) => cast_of_node(n@, name@, registry.configs@) == Ok::<
                Option<TypeCastModel>,
                EditErrorModel,
            >(Some(c@)),
            Ok(None) => cast_of_node(n@, name@, registry.configs@) == Ok::<
                Option<TypeCastModel>,
                EditErrorModel,
            >(None),
            Err(e) => cast_of_node(n@, name@, registry.configs@) == Err::<
                Option<TypeCastModel>,
                EditErrorModel,
            >(e@),
        },
{
    if !str_eq(n.tag_type.value().as_str(), "bitical_type") {
        return Ok(None);
    }
    let l = match &n.label {
        None => {
            return Ok(None);
        },
        Some(l) => l,
    };
    let to_type = match BiticalType::from_name(l.value().as_str()) {
        None => {
            return Ok(None);
        },
        Some(t) => t,
    };
    if to_type == BiticalType::Uuid {
        return Err(EditError::UuidCast);
    }
    let tag_type = TagType::from(name);
    let from_type = match registry.type_config(&tag_type) {
        Some(Some(t)) => t,
        _ => BiticalType::String,
    };
    if to_type == from_type {
        return Ok(None);
    }
    Ok(Some(TypeCast { tag_type, from_type, to_type }))
}

fn node_casts(
    casts: &mut Vec<TypeCast>,
    nodes: &Vec<EditQueryNode>,
    name: &str,
    registry: &TagRegistry,
) -> (r: Result<(), EditError>)
    ensures
        match r {
            Ok(_) => casts_of_nodes(
                cast_models(old(casts)@),
                parse::node_models(nodes@),
                name@,
                registry.configs@,
            ) == Ok::<Seq<TypeCastModel>, EditErrorModel>(cast_models(final(casts)@)),
            Err(e) => casts_of_nodes(
                cast_models(old(casts)@),
                parse::node_models(nodes@),
                name@,
                registry.configs@,
            ) == Err::<Seq<TypeCastModel>, EditErrorModel>(e@),
        },
{
    let ghost ns = parse::node_models(nodes@);
    let ghost start = cast_models(casts@);
    let ghost configs = registry.configs@;
    let mut i: usize = 0;
    proof {
        assert(ns.take(0) =~= seq![]);
    }
    while i < nodes.len()
        invariant
            i <= nodes@.len(),
            ns == parse::node_models(nodes@),
            start == cast_models(old(casts)@),
            configs == registry.configs@,
            casts_of_nodes(start, ns.take(i as int), name@, configs) == Ok::<
                Seq<TypeCastModel>,
                EditErrorModel,
            >(cast_models(casts@)),
        decreases nodes@.len() - i,
    {
        proof {
            assert(ns.take(i + 1).drop_last() =~= ns.take(i as int));
            assert(ns.take(i + 1).last() == nodes@[i as int]@);
            if casts_of_nodes(start, ns.take(i + 1), name@, configs) is Err {
                lemma_casts_of_nodes_error(start, ns, i + 1, name@, configs);
            }
        }
        match node_cast(&nodes[i], name, registry) {
            Err(e) => {
                return Err(e);
            },
            Ok(None) => {},
            Ok(Some(c)) => {
                proof {
                    assert(cast_models(casts@.push(c)) =~= cast_models(casts@).push(c@));
                }
                casts.push(c);
            },
        }
        i += 1;
    }
    proof {
        assert(ns.take(ns.len() as int) =~= ns);
    }
    Ok(())
}

/// The changes that an edit makes to types.
pub fn detect_type_casts(
    item_edits: &Vec<(Item, Option<EditQuery>)>,
    registry: &TagRegistry,
) -> (r: Result<Vec<TypeCast>, EditError>)
    ensures
        match r {
            Ok(v) => casts_of(item_edits@, registry.configs@) == Ok::<
                Seq<TypeCastModel>,
                EditErrorModel,
            >(cast_models(v@)),
            Err(e) => casts_of(item_edits@, registry.configs@) == Err::<
                Seq<TypeCastModel>,
                EditErrorModel,
            >(e@),
        },
{
    let ghost es = item_edits@;
    let ghost configs = registry.configs@;
    let mut casts: Vec<TypeCast> = Vec::new();
    let mut i: usize = 0;
    proof {
        assert(es.take(0) =~= seq![]);
        assert(cast_models(casts@) =~= seq![]);
    }
    while i < item_edits.len()
        invariant
            i <= item_edits@.len(),
            es == item_edits@,
            configs == registry.configs@,
            casts_of(es.take(i as int), configs) == Ok::<Seq<TypeCastModel>, EditErrorModel>(
                cast_models(casts@),
            ),
        decreases item_edits@.len() - i,
    {
        let e = &item_edits[i];
        proof {
            assert(es.take(i + 1).drop_last() =~= es.take(i as int));
            assert(es.take(i + 1).last() == *e);
            if casts_of(es.take(i + 1), configs) is Err {
                lemma_casts_of_error(es, i + 1, configs);
            }
        }
        match &e.1 {
            None => {},
            Some(q) => {
                if is_type_item(&e.0) {
                    proof {
                        assert(e.0.repr()[0] == e.0.representative.tags@[0]@);
                    }
                    let name = e.0.representative.tags[0].as_str();
                    match node_casts(&mut casts, &q.nodes, name.as_str(), registry) {
                        Ok(_) => {},
                        Err(err) => {
                            return Err(err);
                        },
                    }
                }
            },
        }
        i += 1;
    }
    proof {
        assert(es.take(es.len() as int) =~= es);
    }
    Ok(casts)
}

/// The one change that an edit makes to a type, if it makes one. Types that are registered
/// are not changed, and not more than one at a time.
pub open spec fn cast_target_of(
    edits: Seq<(Item, Option<EditQuery>)>,
    configs: Seq<TypeConfig>,
    reg: Seq<tag::TagFnModel>,
) -> Result<Option<TypeCastModel>, EditErrorModel> {
    match casts_of(edits, configs) {
        Err(e) => Err(e),
        Ok(casts) => if casts.len() > 1 {
            Err(EditErrorModel::MultipleCasts)
        } else if casts.len() == 0 {
            Ok(None)
        } else if tag::find_fn(reg, casts[0].tag_type.name()) is Some {
            Err(EditErrorModel::BuiltinCast(casts[0].tag_type.name()))
        } else {
            Ok(Some(casts[0]))
        },
    }
}

/// The one change that an edit makes to a type, if it makes one.
pub fn cast_target(
    item_edits: &Vec<(Item, Option<EditQuery>)>,
    registry: &TagRegistry,
) -> (r: Result<Option<TypeCast>, EditError>)
    ensures
        match r {
            Ok(Some(c)) => cast_target_of(item_edits@, registry.configs@, registry@) == Ok::<
                Option<TypeCastModel>,
                EditErrorModel,
            >(Some(c@)),
            Ok(None) => cast_target_of(item_edits@, registry.configs@, registry@) == Ok::<
                Option<TypeCastModel>,
                EditErrorModel,
            >(None),
            Err(e) => cast_target_of(item_edits@, registry.configs@, registry@) == Err::<
                Option<TypeCastModel>,
                EditErrorModel,
            >(e@),
        },
{
    let mut casts = match detect_type_casts(item_edits, registry) {
        Ok(v) => v,
        Err(e) => {
            return Err(e);
        },
    };
    proof {
        assert(cast_models(casts@).len() == casts@.len());
    }
    if casts.len() > 1 {
        return Err(EditError::MultipleCasts);
    }
    if casts.len() == 0 {
        return Ok(None);
    }
    proof {
        assert(cast_models(casts@)[0] == casts@[0]@);
    }
    let c = casts.remove(0);
    if registry.get(c.tag_type.as_str()).is_some() {
        return Err(EditError::BuiltinCast(c.tag_type.as_str().to_owned()));
    }
    Ok(Some(c))
}

} // verus!
