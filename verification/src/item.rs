//! Tags and the items that carry them.
use crate::col::Col;
use crate::text::str_eq;
use crate::types::{Bitical, BiticalModel, ItemId, Origin};
use vstd::prelude::*;

verus! {

/// The type of a tag: a built-in one, or one that a user made up.
#[derive(Debug)]
pub enum TagType {
    Base(Col),
    Custom(String),
}

/// What a tag type stands for.
#[verifier::ext_equal]
pub enum TagTypeModel {
    Base(Col),
    Custom(Seq<char>),
}

impl TagTypeModel {
    /// The name of the type.
    pub open spec fn name(self) -> Seq<char> {
        match self {
            TagTypeModel::Base(c) => c.name_text(),
            TagTypeModel::Custom(s) => s,
        }
    }

    /// The type of a name: the built-in one where there is one.
    pub open spec fn named(s: Seq<char>) -> TagTypeModel {
        match Col::named(s) {
            Some(c) => TagTypeModel::Base(c),
            None => TagTypeModel::Custom(s),
        }
    }
}

/// Naming a type and looking the name up are inverse to each other, for built-in types
/// and for every name.
pub proof fn law_tag_type_names(c: Col, s: Seq<char>)
    ensures
        TagTypeModel::named(s).name() == s,
        TagTypeModel::named(TagTypeModel::Base(c).name()) == TagTypeModel::Base(c),
{
    crate::col::law_column_names(c);
    match Col::named(s) {
        Some(d) => {
            assert(d.name_text() == s);
        },
        None => {},
    }
}

impl View for TagType {
    type V = TagTypeModel;

    open spec fn view(&self) -> TagTypeModel {
        match *self {
            TagType::Base(c) => TagTypeModel::Base(c),
            TagType::Custom(s) => TagTypeModel::Custom(s@),
        }
    }
}

impl Clone for TagType {
    fn clone(&self) -> (r: Self)
        ensures
            r@ == self@,
    {
        match self {
            TagType::Base(c) => TagType::Base(*c),
            TagType::Custom(s) => TagType::Custom(s.clone()),
        }
    }
}

impl PartialEq for TagType {
    fn eq(&self, other: &Self) -> (r: bool) {
        self.same(other)
    }
}

impl vstd::std_specs::cmp::PartialEqSpecImpl for TagType {
    open spec fn obeys_eq_spec() -> bool {
        true
    }

    open spec fn eq_spec(&self, other: &Self) -> bool {
        self@ == other@
    }
}

impl TagType {
    /// The type of a name: the built-in one where there is one.
    pub fn from(s: &str) -> (r: Self)
        ensures
            r@ == TagTypeModel::named(s@),
    {
        match Col::from_str(s) {
            Some(c) => TagType::Base(c),
            None => TagType::Custom(s.to_owned()),
        }
    }

    /// The name of the type.
    pub fn as_str(&self) -> (r: &str)
        ensures
            r@ == self@.name(),
    {
        match self {
            TagType::Base(c) => c.name(),
            TagType::Custom(s) => s.as_str(),
        }
    }

    /// Whether two types are the same.
    pub fn same(&self, other: &Self) -> (r: bool)
        ensures
            r == (self@ == other@),
    {
        match (self, other) {
            (TagType::Base(a), TagType::Base(b)) => *a == *b,
            (TagType::Custom(a), TagType::Custom(b)) => str_eq(a.as_str(), b.as_str()),
            _ => false,
        }
    }

    /// Whether the type is the built-in one of a column.
    pub fn is_base(&self, c: Col) -> (r: bool)
        ensures
            r == (self@ == TagTypeModel::Base(c)),
    {
        match self {
            TagType::Base(a) => *a == c,
            TagType::Custom(_) => false,
        }
    }
}

/// The label of a tag.
#[derive(Debug)]
pub struct Label {
    pub value: Bitical,
}

impl View for Label {
    type V = BiticalModel;

    open spec fn view(&self) -> BiticalModel {
        self.value@
    }
}

impl Clone for Label {
    fn clone(&self) -> (r: Self)
        ensures
            r@ == self@,
    {
        Label { value: self.value.clone() }
    }
}

impl PartialEq for Label {
    fn eq(&self, other: &Self) -> (r: bool) {
        self.value.same(&other.value)
    }
}

impl vstd::std_specs::cmp::PartialEqSpecImpl for Label {
    open spec fn obeys_eq_spec() -> bool {
        true
    }

    open spec fn eq_spec(&self, other: &Self) -> bool {
        self@.same(other@)
    }
}

impl Label {
    /// A label with the given value.
    pub fn other(value: Bitical) -> (r: Self)
        ensures
            r@ == value@,
    {
        Label { value }
    }

    /// A label that is a text.
    pub fn from(s: &str) -> (r: Self)
        ensures
            r@ == BiticalModel::String(s@),
    {
        Label { value: Bitical::String(s.to_owned()) }
    }

    /// The label as text.
    pub fn as_str(&self) -> (r: String)
        ensures
            r@ == self@.shown(),
    {
        self.value.as_str()
    }

    /// The label as an integer; a label of another type counts as zero.
    pub fn as_i64(&self) -> (r: i64)
        ensures
            r == (match self@ {
                BiticalModel::Integer(i) => i,
                _ => 0,
            }),
    {
        match &self.value {
            Bitical::Integer(i) => *i,
            _ => 0,
        }
    }
}

/// A label under a type.
#[derive(Debug)]
pub struct TypedTag {
    pub tag_type: TagType,
    pub label: Label,
}

/// What a tag stands for.
#[verifier::ext_equal]
pub struct TagModel {
    pub tag_type: TagTypeModel,
    pub value: BiticalModel,
}

impl TagModel {
    /// Whether two tags are equal.
    pub open spec fn same(self, o: TagModel) -> bool {
        self.tag_type == o.tag_type && self.value.same(o.value)
    }
}

impl View for TypedTag {
    type V = TagModel;

    open spec fn view(&self) -> TagModel {
        TagModel { tag_type: self.tag_type@, value: self.label@ }
    }
}

impl Clone for TypedTag {
    fn clone(&self) -> (r: Self)
        ensures
            r@ == self@,
    {
        TypedTag { tag_type: self.tag_type.clone(), label: self.label.clone() }
    }
}

impl PartialEq for TypedTag {
    fn eq(&self, other: &Self) -> (r: bool) {
        self.same(other)
    }
}

impl vstd::std_specs::cmp::PartialEqSpecImpl for TypedTag {
    open spec fn obeys_eq_spec() -> bool {
        true
    }

    open spec fn eq_spec(&self, other: &Self) -> bool {
        self@.same(other@)
    }
}

impl TypedTag {
    /// The tag of a type with a value.
    pub fn new(tag_type: TagType, value: Bitical) -> (r: Self)
        ensures
            r@ == (TagModel { tag_type: tag_type@, value: value@ }),
    {
        TypedTag { tag_type, label: Label { value } }
    }

    /// The tag of a type with a copy of a label.
    pub fn retag(tag_type: TagType, label: &Label) -> (r: Self)
        ensures
            r@ == (TagModel { tag_type: tag_type@, value: label@ }),
    {
        TypedTag { tag_type, label: label.clone() }
    }

    pub fn tag_type(&self) -> (r: TagType)
        ensures
            r@ == self@.tag_type,
    {
        self.tag_type.clone()
    }

    pub fn value(&self) -> (r: Bitical)
        ensures
            r@ == self@.value,
    {
        self.label.value.clone()
    }

    /// The label as text.
    pub fn as_str(&self) -> (r: String)
        ensures
            r@ == self@.value.shown(),
    {
        self.label.as_str()
    }

    /// Whether two tags are equal.
    pub fn same(&self, other: &Self) -> (r: bool)
        ensures
            r == self@.same(other@),
    {
        self.tag_type.same(&other.tag_type) && self.label.value.same(&other.label.value)
    }
}

/// The views of a sequence of tags.
pub open spec fn tag_models(v: Seq<TypedTag>) -> Seq<TagModel> {
    v.map_values(|t: TypedTag| t@)
}

/// Copies a list of tags.
pub fn clone_tags(v: &Vec<TypedTag>) -> (r: Vec<TypedTag>)
    ensures
        tag_models(r@) == tag_models(v@),
{
    let mut r: Vec<TypedTag> = Vec::new();
    let mut i: usize = 0;
    while i < v.len()
        invariant
            i <= v@.len(),
            tag_models(r@) == tag_models(v@).take(i as int),
        decreases v@.len() - i,
    {
        let t = v[i].clone();
        proof {
            assert(tag_models(r@.push(t)) =~= tag_models(r@).push(t@));
            assert(tag_models(v@).take(i + 1) =~= tag_models(v@).take(i as int).push(
                tag_models(v@)[i as int],
            ));
        }
        r.push(t);
        i += 1;
    }
    proof {
        assert(tag_models(v@).take(v@.len() as int) =~= tag_models(v@));
    }
    r
}

/// A tag on an item, with the origin that put it there.
#[derive(Debug)]
pub struct TagEntry {
    pub typed_tag: TypedTag,
    pub origin: Origin,
}

/// The tags of an item, in the order in which they were found.
#[derive(Debug)]
pub struct Tags {
    pub entries: Vec<TagEntry>,
}

/// The tags of a list of entries.
pub open spec fn entry_models(v: Seq<TagEntry>) -> Seq<TagModel> {
    v.map_values(|e: TagEntry| e.typed_tag@)
}

/// The origins of a list of entries.
pub open spec fn entry_origins(v: Seq<TagEntry>) -> Seq<Origin> {
    v.map_values(|e: TagEntry| e.origin)
}

impl Tags {
    /// The origins that put the tags there, one for each tag.
    pub open spec fn origins(self) -> Seq<Origin> {
        entry_origins(self.entries@)
    }
}

impl View for Tags {
    type V = Seq<TagModel>;

    open spec fn view(&self) -> Seq<TagModel> {
        entry_models(self.entries@)
    }
}

/// The tags of a type, in order.
pub open spec fn of_type(tags: Seq<TagModel>, ty: TagTypeModel) -> Seq<TagModel> {
    tags.filter(|t: TagModel| t.tag_type == ty)
}

impl Tags {
    pub fn new() -> (r: Self)
        ensures
            r@ == Seq::<TagModel>::empty(),
            r.origins() == Seq::<Origin>::empty(),
    {
        let r = Tags { entries: Vec::new() };
        proof {
            assert(r@ =~= Seq::<TagModel>::empty());
            assert(r.origins() =~= Seq::<Origin>::empty());
        }
        r
    }

    /// Adds a tag.
    pub fn push(&mut self, typed_tag: TypedTag, origin: Origin)
        ensures
            final(self)@ == old(self)@.push(typed_tag@),
            final(self).origins() == old(self).origins().push(origin),
    {
        let ghost before = self.entries@;
        let e = TagEntry { typed_tag, origin };
        proof {
            assert(entry_models(before.push(e)) =~= entry_models(before).push(typed_tag@));
            assert(entry_origins(before.push(e)) =~= entry_origins(before).push(origin));
        }
        self.entries.push(e);
    }

    /// The tags of a type, in order.
    pub fn get_values(&self, ty: &TagType) -> (r: Vec<TypedTag>)
        ensures
            tag_models(r@) == of_type(self@, ty@),
    {
        let mut r: Vec<TypedTag> = Vec::new();
        let mut i: usize = 0;
        let ghost p = |t: TagModel| t.tag_type == ty@;
        proof {
            reveal(Seq::filter);
            assert(self@.take(0).filter(p) =~= Seq::<TagModel>::empty());
            assert(tag_models(r@) =~= Seq::<TagModel>::empty());
        }
        while i < self.entries.len()
            invariant
                i <= self.entries@.len(),
                p == (|t: TagModel| t.tag_type == ty@),
                tag_models(r@) == self@.take(i as int).filter(p),
            decreases self.entries@.len() - i,
        {
            let t = &self.entries[i].typed_tag;
            proof {
                reveal(Seq::filter);
                assert(self@.take(i + 1).drop_last() =~= self@.take(i as int));
                assert(self@.take(i + 1).last() == t@);
            }
            if t.tag_type.same(ty) {
                let c = t.clone();
                proof {
                    assert(tag_models(r@.push(c)) =~= tag_models(r@).push(t@));
                }
                r.push(c);
            }
            i += 1;
        }
        proof {
            assert(self@.take(self@.len() as int) =~= self@);
        }
        r
    }
}

/// What kind of item this is.
#[derive(Clone, Copy, Debug, PartialEq, Eq, Structural)]
pub enum ItemKind {
    File,
    Note,
    Type,
    Tag,
    Volatile,
}

/// The values that an item is known by. A group of values makes a compound item.
#[derive(Debug)]
pub struct Representative {
    pub tags: Vec<TypedTag>,
}

/// An item that a search found.
#[derive(Debug)]
pub struct Item {
    pub id: ItemId,
    pub item_kind: ItemKind,
    pub representative: Representative,
    pub tags: Tags,
    pub item_count: Option<u64>,
}

impl Item {
    /// The values that the item is known by.
    pub open spec fn repr(self) -> Seq<TagModel> {
        tag_models(self.representative.tags@)
    }
}

/// Whether two items are the same in what they hold.
pub open spec fn same_item(a: Item, b: Item) -> bool {
    a.id == b.id && a.item_kind == b.item_kind && a.repr() == b.repr() && a.tags@ == b.tags@
        && a.tags.origins() == b.tags.origins() && a.item_count == b.item_count
}

impl Clone for Item {
    fn clone(&self) -> (r: Self)
        ensures
            same_item(r, *self),
    {
        let mut entries: Vec<TagEntry> = Vec::new();
        let mut i: usize = 0;
        while i < self.tags.entries.len()
            invariant
                i <= self.tags.entries@.len(),
                entries@.len() == i,
                forall|k: int|
                    0 <= k < i ==> (#[trigger] entries@[k]).typed_tag@
                        == self.tags.entries@[k].typed_tag@ && entries@[k].origin
                        == self.tags.entries@[k].origin,
            decreases self.tags.entries@.len() - i,
        {
            let e = &self.tags.entries[i];
            entries.push(TagEntry { typed_tag: e.typed_tag.clone(), origin: e.origin });
            i += 1;
        }
        proof {
            assert(entry_models(entries@) =~= entry_models(self.tags.entries@));
            assert(entry_origins(entries@) =~= entry_origins(self.tags.entries@));
        }
        Item {
            id: self.id,
            item_kind: self.item_kind,
            representative: Representative { tags: clone_tags(&self.representative.tags) },
            tags: Tags { entries },
            item_count: self.item_count,
        }
    }
}

} // verus!
