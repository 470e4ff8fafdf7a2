//! The registry of tag types: which types the program knows, how each may be edited, how
//! its values are read and what a pattern captures from them.
use crate::col::Col;
use crate::edit::glob_capture;
use crate::edit::glob_capture::glob_captures;
use crate::item::{Item, Label, TagModel, TagType, TagTypeModel, TypedTag};
use crate::text;
use crate::text::{chars_of, str_eq};
use crate::types::{Bitical, BiticalModel, BiticalType};
use vstd::prelude::*;

verus! {

/// How tags of a type are changed.
#[derive(Clone, Copy, Debug, PartialEq, Eq, Structural)]
pub enum EditStrategy {
    /// A new value stands beside the old ones.
    Append,
    /// A new value takes the place of the old ones.
    Replace,
    /// The program sets the value when an item is first stored.
    ModifyInjection,
    /// The value is part of where a file lies.
    Relocate,
    /// The value is an attribute of a file.
    SetFileAttr,
    /// The value can be taken away but not set.
    RemoveOnly,
}

/// How the values of a type are read.
#[derive(Clone, Copy, Debug, PartialEq, Eq, Structural)]
pub enum Reading {
    /// A value stands for itself.
    Plain,
    /// A number of bytes, which may be given in kilobytes, megabytes or gigabytes.
    Size,
    /// A point in time. A date stands for all the instants of a day, so for no single value.
    Time,
    /// The name of a type, which items that define types are known by.
    Type,
}

/// How a type may be edited.
#[derive(Debug)]
pub struct EditFn {
    pub strategy: EditStrategy,
    pub can_untag: bool,
    pub components: Vec<Col>,
}

#[verifier::ext_equal]
pub struct EditModel {
    pub strategy: EditStrategy,
    pub can_untag: bool,
    pub components: Seq<Col>,
}

impl View for EditFn {
    type V = EditModel;

    open spec fn view(&self) -> EditModel {
        EditModel {
            strategy: self.strategy,
            can_untag: self.can_untag,
            components: self.components@,
        }
    }
}

/// A registered tag type. A type without an [`EditFn`] cannot be edited.
#[derive(Debug)]
pub struct TagFn {
    pub name: String,
    pub reading: Reading,
    pub edit: Option<EditFn>,
    pub in_tags: bool,
}

#[verifier::ext_equal]
pub struct TagFnModel {
    pub name: Seq<char>,
    pub reading: Reading,
    pub edit: Option<EditModel>,
    pub in_tags: bool,
}

impl View for TagFn {
    type V = TagFnModel;

    open spec fn view(&self) -> TagFnModel {
        TagFnModel {
            name: self.name@,
            reading: self.reading,
            edit: match self.edit {
                Some(e) => Some(e@),
                None => None,
            },
            in_tags: self.in_tags,
        }
    }
}

/// A setting that a user made for a type.
#[derive(Debug)]
pub struct TypeConfig {
    pub name: String,
    pub bitical_type: Option<BiticalType>,
}

/// The registered types, in the order in which they are looked through, and the settings
/// of the types that users made.
#[derive(Debug)]
pub struct TagRegistry {
    pub fns: Vec<TagFn>,
    pub configs: Vec<TypeConfig>,
}

pub open spec fn fn_models(v: Seq<TagFn>) -> Seq<TagFnModel> {
    v.map_values(|f: TagFn| f@)
}

/// The first registered type of a name.
pub open spec fn find_fn(fns: Seq<TagFnModel>, name: Seq<char>) -> Option<TagFnModel>
    decreases fns.len(),
{
    if fns.len() == 0 {
        None
    } else if fns[0].name == name {
        Some(fns[0])
    } else {
        find_fn(fns.skip(1), name)
    }
}

/// The value type that a user set for a type name: the first setting counts.
pub open spec fn find_config(configs: Seq<TypeConfig>, name: Seq<char>) -> Option<
    Option<BiticalType>,
>
    decreases configs.len(),
{
    if configs.len() == 0 {
        None
    } else if configs[0].name@ == name {
        Some(configs[0].bitical_type)
    } else {
        find_config(configs.skip(1), name)
    }
}

impl View for TagRegistry {
    type V = Seq<TagFnModel>;

    open spec fn view(&self) -> Seq<TagFnModel> {
        fn_models(self.fns@)
    }
}

/// How a type may be edited, if it is registered and may be.
pub open spec fn edit_of(reg: Seq<TagFnModel>, name: Seq<char>) -> Option<EditModel> {
    match find_fn(reg, name) {
        Some(f) => f.edit,
        None => None,
    }
}

/// Whether a type is registered and may not be edited.
pub open spec fn forbidden(reg: Seq<TagFnModel>, name: Seq<char>) -> bool {
    match find_fn(reg, name) {
        Some(f) => f.edit is None,
        None => false,
    }
}

fn edit_fn(strategy: EditStrategy, can_untag: bool, components: Vec<Col>) -> (r: Option<EditFn>)
    ensures
        r is Some,
        r->0@ == (EditModel { strategy, can_untag, components: components@ }),
{
    Some(EditFn { strategy, can_untag, components })
}

fn entry(c: Col, reading: Reading, edit: Option<EditFn>, in_tags: bool) -> (r: TagFn)
    ensures
        r@.name == c.name_text(),
        r@.reading == reading,
        r.edit == edit,
        r@.in_tags == in_tags,
{
    TagFn { name: c.name().to_owned(), reading, edit, in_tags }
}

/// How the built-in type of a column may be edited.
pub open spec fn standard_edit(c: Col) -> Option<EditModel> {
    match c {
        Col::Path => Some(
            EditModel {
                strategy: EditStrategy::Relocate,
                can_untag: true,
                components: seq![Col::Parentdir, Col::Stem, Col::Extension],
            },
        ),
        Col::Parentdir => Some(
            EditModel {
                strategy: EditStrategy::Relocate,
                can_untag: false,
                components: seq![Col::Parentdir],
            },
        ),
        Col::Filename => Some(
            EditModel {
                strategy: EditStrategy::Relocate,
                can_untag: false,
                components: seq![Col::Stem, Col::Extension],
            },
        ),
        Col::Stem => Some(
            EditModel {
                strategy: EditStrategy::Relocate,
                can_untag: false,
                components: seq![Col::Stem],
            },
        ),
        Col::Extension => Some(
            EditModel {
                strategy: EditStrategy::Relocate,
                can_untag: false,
                components: seq![Col::Extension],
            },
        ),
        Col::Mtime => Some(
            EditModel {
                strategy: EditStrategy::SetFileAttr,
                can_untag: false,
                components: seq![],
            },
        ),
        Col::Rank | Col::Name => Some(
            EditModel { strategy: EditStrategy::Replace, can_untag: true, components: seq![] },
        ),
        Col::ItemKind | Col::Content => Some(
            EditModel {
                strategy: EditStrategy::ModifyInjection,
                can_untag: false,
                components: seq![],
            },
        ),
        Col::ItemId => Some(
            EditModel { strategy: EditStrategy::RemoveOnly, can_untag: true, components: seq![] },
        ),
        _ => None,
    }
}

/// The columns that are registered as types from the start, in order.
pub open spec fn standard_columns() -> Seq<Col> {
    seq![
        Col::Path,
        Col::Parentdir,
        Col::Filename,
        Col::Stem,
        Col::Extension,
        Col::Size,
        Col::Mtime,
        Col::IsDir,
        Col::FileId,
        Col::Hash,
        Col::Rank,
        Col::Name,
        Col::ItemKind,
        Col::Content,
        Col::ItemId,
        Col::Type,
        Col::Label,
        Col::TypedTag,
    ]
}

/// How the values of the built-in type of a column are read.
pub open spec fn standard_reading(c: Col) -> Reading {
    match c {
        Col::Size => Reading::Size,
        Col::Mtime => Reading::Time,
        Col::Type => Reading::Type,
        _ => Reading::Plain,
    }
}

/// The registration of a column as a type.
pub open spec fn standard_fn(c: Col) -> TagFnModel {
    TagFnModel {
        name: c.name_text(),
        reading: standard_reading(c),
        edit: standard_edit(c),
        in_tags: c != Col::Mtime && c != Col::Size,
    }
}

/// The types that are registered from the start.
pub open spec fn standard() -> Seq<TagFnModel> {
    standard_columns().map_values(|c: Col| standard_fn(c))
}

fn standard_tag_fn(c: Col) -> (r: TagFn)
    ensures
        r@ == standard_fn(c),
{
    let mut components: Vec<Col> = Vec::new();
    let edit: Option<EditFn> = match c {
        Col::Path => {
            components.push(Col::Parentdir);
            components.push(Col::Stem);
            components.push(Col::Extension);
            edit_fn(EditStrategy::Relocate, true, components)
        },
        Col::Parentdir => {
            components.push(Col::Parentdir);
            edit_fn(EditStrategy::Relocate, false, components)
        },
        Col::Filename => {
            components.push(Col::Stem);
            components.push(Col::Extension);
            edit_fn(EditStrategy::Relocate, false, components)
        },
        Col::Stem => {
            components.push(Col::Stem);
            edit_fn(EditStrategy::Relocate, false, components)
        },
        Col::Extension => {
            components.push(Col::Extension);
            edit_fn(EditStrategy::Relocate, false, components)
        },
        Col::Mtime => edit_fn(EditStrategy::SetFileAttr, false, components),
        Col::Rank | Col::Name => edit_fn(EditStrategy::Replace, true, components),
        Col::ItemKind | Col::Content => edit_fn(EditStrategy::ModifyInjection, false, components),
        Col::ItemId => edit_fn(EditStrategy::RemoveOnly, true, components),
        _ => None,
    };
    let reading = match c {
        Col::Size => Reading::Size,
        Col::Mtime => Reading::Time,
        Col::Type => Reading::Type,
        _ => Reading::Plain,
    };
    let in_tags = c != Col::Mtime && c != Col::Size;
    let r = entry(c, reading, edit, in_tags);
    proof {
        if edit is Some {
            assert(edit->0@.components =~= standard_edit(c)->0.components);
        }
        assert(r@.edit == standard_edit(c));
    }
    r
}

impl TagRegistry {
    /// The registry of the types that the program knows from the start.
    pub fn with_standard() -> (r: Self)
        ensures
            r@ == standard(),
            r.configs@.len() == 0,
    {
        let columns: [Col; 18] = [
            Col::Path,
            Col::Parentdir,
            Col::Filename,
            Col::Stem,
            Col::Extension,
            Col::Size,
            Col::Mtime,
            Col::IsDir,
            Col::FileId,
            Col::Hash,
            Col::Rank,
            Col::Name,
            Col::ItemKind,
            Col::Content,
            Col::ItemId,
            Col::Type,
            Col::Label,
            Col::TypedTag,
        ];
        let mut fns: Vec<TagFn> = Vec::new();
        let mut i: usize = 0;
        while i < 18
            invariant
                i <= 18,
                columns@ == standard_columns(),
                fn_models(fns@) == standard().take(i as int),
            decreases 18 - i,
        {
            let f = standard_tag_fn(columns[i]);
            proof {
                assert(fn_models(fns@.push(f)) =~= fn_models(fns@).push(f@));
                assert(standard().take(i + 1) =~= standard().take(i as int).push(
                    standard()[i as int],
                ));
            }
            fns.push(f);
            i += 1;
        }
        proof {
            assert(standard().take(18) =~= standard());
        }
        TagRegistry { fns, configs: Vec::new() }
    }

    /// The registered type of a name.
    pub fn get(&self, name: &str) -> (r: Option<&TagFn>)
        ensures
            match r {
                Some(f) => find_fn(self@, name@) == Some(f@),
                None => find_fn(self@, name@) is None,
            },
    {
        let mut i: usize = 0;
        proof {
            assert(self@.skip(0) =~= self@);
        }
        while i < self.fns.len()
            invariant
                i <= self.fns@.len(),
                find_fn(self@, name@) == find_fn(self@.skip(i as int), name@),
            decreases self.fns@.len() - i,
        {
            proof {
                assert(self@.skip(i as int).skip(1) =~= self@.skip(i + 1));
            }
            if str_eq(self.fns[i].name.as_str(), name) {
                return Some(&self.fns[i]);
            }
            i += 1;
        }
        None
    }

    /// How a type may be edited, if it is registered and may be.
    pub fn edit(&self, name: &str) -> (r: Option<&EditFn>)
        ensures
            match r {
                Some(e) => edit_of(self@, name@) == Some(e@),
                None => edit_of(self@, name@) is None,
            },
    {
        match self.get(name) {
            Some(f) => match &f.edit {
                Some(e) => Some(e),
                None => None,
            },
            None => None,
        }
    }

    /// The strategy of an editable type.
    pub fn strategy(&self, name: &str) -> (r: Option<EditStrategy>)
        ensures
            r == (match edit_of(self@, name@) {
                Some(e) => Some(e.strategy),
                None => None,
            }),
    {
        match self.edit(name) {
            Some(e) => Some(e.strategy),
            None => None,
        }
    }

    /// The value type that a user set for a type.
    pub fn type_config(&self, ty: &TagType) -> (r: Option<Option<BiticalType>>)
        ensures
            r == find_config(self.configs@, ty@.name()),
    {
        let name = ty.as_str();
        let mut i: usize = 0;
        proof {
            assert(self.configs@.skip(0) =~= self.configs@);
        }
        while i < self.configs.len()
            invariant
                i <= self.configs@.len(),
                name@ == ty@.name(),
                find_config(self.configs@, name@) == find_config(
                    self.configs@.skip(i as int),
                    name@,
                ),
            decreases self.configs@.len() - i,
        {
            proof {
                assert(self.configs@.skip(i as int).skip(1) =~= self.configs@.skip(i + 1));
            }
            if str_eq(self.configs[i].name.as_str(), name) {
                return Some(self.configs[i].bitical_type);
            }
            i += 1;
        }
        None
    }

    /// Whether the tags of a type are kept out of the partitioned tag files.
    pub fn is_excluded_from_tags(&self, name: &str) -> (r: bool)
        ensures
            r == excluded(self@, name@),
    {
        match self.get(name) {
            Some(f) => !f.in_tags,
            None => false,
        }
    }

    /// The names of the types that are kept out of the partitioned tag files, in order.
    pub fn get_excluded_from_tags(&self) -> (r: Vec<String>)
        ensures
            text::texts(r@) == excluded_names(self@),
    {
        let mut r: Vec<String> = Vec::new();
        let mut i: usize = 0;
        proof {
            assert(text::texts(r@) =~= excluded_names(self@.take(0)));
        }
        while i < self.fns.len()
            invariant
                i <= self.fns@.len(),
                text::texts(r@) == excluded_names(self@.take(i as int)),
            decreases self.fns@.len() - i,
        {
            proof {
                assert(self@.take(i + 1).drop_last() =~= self@.take(i as int));
                assert(self@.take(i + 1).last() == self.fns@[i as int]@);
            }
            if !self.fns[i].in_tags {
                let name = self.fns[i].name.clone();
                proof {
                    text::lemma_texts_push(r@, name);
                }
                r.push(name);
            }
            i += 1;
        }
        proof {
            assert(self@.take(self@.len() as int) =~= self@);
        }
        r
    }

    /// The name of the built-in type whose definition has the given offset in the block of
    /// built-in ids.
    pub fn builtin_name_for_offset(&self, offset: u32) -> (r: Option<String>)
        ensures
            match r {
                Some(n) => offset < self@.len() && n@ == self@[offset as int].name,
                None => offset >= self@.len(),
            },
    {
        if (offset as u64) < self.fns.len() as u64 {
            Some(self.fns[offset as usize].name.clone())
        } else {
            None
        }
    }
}

pub open spec fn excluded(reg: Seq<TagFnModel>, name: Seq<char>) -> bool {
    match find_fn(reg, name) {
        Some(f) => !f.in_tags,
        None => false,
    }
}

pub open spec fn excluded_names(reg: Seq<TagFnModel>) -> Seq<Seq<char>>
    decreases reg.len(),
{
    if reg.len() == 0 {
        seq![]
    } else if reg.last().in_tags {
        excluded_names(reg.drop_last())
    } else {
        excluded_names(reg.drop_last()).push(reg.last().name)
    }
}

// ---------------------------------------------------------------------------
// Reading values
// ---------------------------------------------------------------------------

/// The number of bytes that a unit letter stands for.
pub open spec fn unit_bytes(c: char) -> Option<int> {
    if c == 'k' || c == 'K' {
        Some(0x400)
    } else if c == 'm' || c == 'M' {
        Some(0x10_0000)
    } else if c == 'g' || c == 'G' {
        Some(0x4000_0000)
    } else {
        None
    }
}

/// The number of bytes that a text with a unit stands for.
pub open spec fn sized(s: Seq<char>) -> Option<i64> {
    if s.len() == 0 {
        None
    } else {
        match (unit_bytes(s.last()), text::parsed_i64(s.drop_last())) {
            (Some(u), Some(n)) => if i64::MIN <= n * u <= i64::MAX {
                Some((n * u) as i64)
            } else {
                None
            },
            _ => None,
        }
    }
}

/// What a value is read as.
#[derive(Debug)]
pub enum Interpreted {
    /// One value.
    Single(Label),
    /// Several values, or none in particular.
    NotSingle,
}

/// The one value that a label of a type is read as, if it is read as one.
pub open spec fn read_as(reading: Reading, v: BiticalModel) -> Option<BiticalModel> {
    match reading {
        Reading::Plain | Reading::Type => Some(v),
        Reading::Size => match v {
            BiticalModel::String(s) => match sized(s) {
                Some(n) => Some(BiticalModel::Integer(n)),
                None => Some(v),
            },
            _ => Some(v),
        },
        Reading::Time => match v {
            BiticalModel::Integer(_) => Some(v),
            _ => None,
        },
    }
}

fn size_of_text(s: &str) -> (r: Option<i64>)
    ensures
        r == sized(s@),
{
    let v = chars_of(s);
    if v.len() == 0 {
        return None;
    }
    let c = v[v.len() - 1];
    let u: i64 = if c == 'k' || c == 'K' {
        0x400
    } else if c == 'm' || c == 'M' {
        0x10_0000
    } else if c == 'g' || c == 'G' {
        0x4000_0000
    } else {
        return None;
    };
    let digits = text::slice_text(&v, 0, v.len() - 1);
    proof {
        assert(digits@ =~= s@.drop_last());
    }
    match text::parse_i64(digits.as_str()) {
        Some(n) => {
            let bytes: i128 = (n as i128) * (u as i128);
            proof {
                assert(n * u == bytes);
            }
            if (i64::MIN as i128) <= bytes && bytes <= (i64::MAX as i128) {
                Some(bytes as i64)
            } else {
                None
            }
        },
        None => None,
    }
}

/// Reads a label of a type.
pub fn interpret(reading: Reading, label: &Label) -> (r: Interpreted)
    ensures
        match r {
            Interpreted::Single(l) => read_as(reading, label@) == Some(l@),
            Interpreted::NotSingle => read_as(reading, label@) is None,
        },
{
    match reading {
        Reading::Plain | Reading::Type => Interpreted::Single(label.clone()),
        Reading::Size => match &label.value {
            Bitical::String(s) => match size_of_text(s.as_str()) {
                Some(n) => Interpreted::Single(Label::other(Bitical::Integer(n))),
                None => Interpreted::Single(label.clone()),
            },
            _ => Interpreted::Single(label.clone()),
        },
        Reading::Time => match &label.value {
            Bitical::Integer(_) => Interpreted::Single(label.clone()),
            _ => Interpreted::NotSingle,
        },
    }
}

// ---------------------------------------------------------------------------
// Capturing
// ---------------------------------------------------------------------------

/// What a pattern captures from the tags of a type, one list of pieces for each tag that
/// matches, in order.
pub open spec fn captured(tags: Seq<TagModel>, ty: TagTypeModel, pattern: Seq<char>) -> Seq<
    Seq<Seq<char>>,
>
    decreases tags.len(),
{
    if tags.len() == 0 {
        seq![]
    } else {
        let before = captured(tags.drop_last(), ty, pattern);
        let fit = glob_capture::first_fit(glob_capture::lexed(pattern), tags.last().value.shown());
        if tags.last().tag_type == ty && fit is Some {
            before.push(fit->0)
        } else {
            before
        }
    }
}

pub open spec fn piece_lists(v: Seq<Vec<String>>) -> Seq<Seq<Seq<char>>> {
    v.map_values(|p: Vec<String>| text::texts(p@))
}

/// A point in time and the texts that it is written as: the day, the month and the like, in
/// the time zone of the machine.
#[derive(Debug)]
pub struct TimeSlots {
    pub timestamp: i64,
    pub texts: Vec<String>,
}

/// The texts that a point in time is written as.
pub open spec fn written_times(slots: Seq<TimeSlots>, t: i64) -> Seq<Seq<char>>
    decreases slots.len(),
{
    if slots.len() == 0 {
        seq![]
    } else if slots[0].timestamp == t {
        text::texts(slots[0].texts@)
    } else {
        written_times(slots.skip(1), t)
    }
}

/// What a pattern captures from the first of some texts that it fits.
pub open spec fn first_text_fit(pattern: Seq<char>, texts: Seq<Seq<char>>) -> Option<
    Seq<Seq<char>>,
>
    decreases texts.len(),
{
    if texts.len() == 0 {
        None
    } else {
        match glob_capture::first_fit(glob_capture::lexed(pattern), texts[0]) {
            Some(caps) => Some(caps),
            None => first_text_fit(pattern, texts.skip(1)),
        }
    }
}

/// What a pattern captures from a point in time, which it is held against as it is written; a
/// value that is none is held against as it stands.
pub open spec fn time_fit(pattern: Seq<char>, value: BiticalModel, slots: Seq<TimeSlots>) -> Option<
    Seq<Seq<char>>,
> {
    match value {
        BiticalModel::Integer(t) => first_text_fit(pattern, written_times(slots, t)),
        _ => glob_capture::first_fit(glob_capture::lexed(pattern), value.shown()),
    }
}

/// What a pattern captures from the points in time of a type, one list of pieces for each tag
/// that matches, in order.
pub open spec fn captured_times(
    tags: Seq<TagModel>,
    ty: TagTypeModel,
    pattern: Seq<char>,
    slots: Seq<TimeSlots>,
) -> Seq<Seq<Seq<char>>>
    decreases tags.len(),
{
    if tags.len() == 0 {
        seq![]
    } else {
        let before = captured_times(tags.drop_last(), ty, pattern, slots);
        let fit = time_fit(pattern, tags.last().value, slots);
        if tags.last().tag_type == ty && fit is Some {
            before.push(fit->0)
        } else {
            before
        }
    }
}

/// What a pattern captures from the tags of an item: the tags of the type and, for the
/// type of type names, what the item is known by. Points in time are held against as they are
/// written.
pub open spec fn captured_from(
    reading: Option<Reading>,
    ty: TagTypeModel,
    pattern: Seq<char>,
    item: Item,
    slots: Seq<TimeSlots>,
) -> Seq<Seq<Seq<char>>> {
    if reading == Some(Reading::Time) {
        captured_times(item.tags@, ty, pattern, slots)
    } else if reading == Some(Reading::Type) {
        captured(item.tags@, ty, pattern) + captured(item.repr(), ty, pattern)
    } else {
        captured(item.tags@, ty, pattern)
    }
}

fn find_times(slots: &Vec<TimeSlots>, t: i64) -> (r: Option<&TimeSlots>)
    ensures
        match r {
            Some(s) => text::texts(s.texts@) == written_times(slots@, t),
            None => written_times(slots@, t).len() == 0,
        },
{
    let mut i: usize = 0;
    proof {
        assert(slots@.skip(0) =~= slots@);
    }
    while i < slots.len()
        invariant
            i <= slots@.len(),
            written_times(slots@, t) == written_times(slots@.skip(i as int), t),
        decreases slots.len() - i,
    {
        proof {
            assert(slots@.skip(i as int)[0] == slots@[i as int]);
            assert(slots@.skip(i as int).skip(1) =~= slots@.skip(i + 1));
        }
        if slots[i].timestamp == t {
            return Some(&slots[i]);
        }
        i += 1;
    }
    None
}

fn fit_texts(pattern: &str, texts: &Vec<String>) -> (r: Option<Vec<String>>)
    ensures
        glob_capture::found_as(r, first_text_fit(pattern@, text::texts(texts@))),
{
    let ghost all = text::texts(texts@);
    let mut i: usize = 0;
    proof {
        assert(all.skip(0) =~= all);
    }
    while i < texts.len()
        invariant
            i <= texts@.len(),
            all == text::texts(texts@),
            first_text_fit(pattern@, all) == first_text_fit(pattern@, all.skip(i as int)),
        decreases texts.len() - i,
    {
        proof {
            assert(all.skip(i as int)[0] == texts@[i as int]@);
            assert(all.skip(i as int).skip(1) =~= all.skip(i + 1));
        }
        match glob_captures(pattern, texts[i].as_str()) {
            Some(caps) => {
                return Some(caps);
            },
            None => {},
        }
        i += 1;
    }
    None
}

fn fit_time(pattern: &str, tag: &TypedTag, slots: &Vec<TimeSlots>) -> (r: Option<Vec<String>>)
    ensures
        glob_capture::found_as(r, time_fit(pattern@, tag@.value, slots@)),
{
    match &tag.label.value {
        Bitical::Integer(t) => match find_times(slots, *t) {
            Some(s) => fit_texts(pattern, &s.texts),
            None => None,
        },
        _ => glob_captures(pattern, tag.as_str().as_str()),
    }
}

fn capture_times(ty: &TagType, pattern: &str, item: &Item, slots: &Vec<TimeSlots>) -> (r: Vec<
    Vec<String>,
>)
    ensures
        piece_lists(r@) == captured_times(item.tags@, ty@, pattern@, slots@),
{
    let mut r: Vec<Vec<String>> = Vec::new();
    let mut i: usize = 0;
    proof {
        assert(piece_lists(r@) =~= captured_times(item.tags@.take(0), ty@, pattern@, slots@));
    }
    while i < item.tags.entries.len()
        invariant
            i <= item.tags.entries@.len(),
            piece_lists(r@) == captured_times(item.tags@.take(i as int), ty@, pattern@, slots@),
        decreases item.tags.entries@.len() - i,
    {
        proof {
            assert(item.tags@.take(i + 1).drop_last() =~= item.tags@.take(i as int));
            assert(item.tags@.take(i + 1).last() == item.tags.entries@[i as int].typed_tag@);
        }
        let tag = &item.tags.entries[i].typed_tag;
        if tag.tag_type.same(ty) {
            match fit_time(pattern, tag, slots) {
                Some(caps) => {
                    proof {
                        assert(piece_lists(r@.push(caps)) =~= piece_lists(r@).push(
                            text::texts(caps@),
                        ));
                    }
                    r.push(caps);
                },
                None => {},
            }
        }
        i += 1;
    }
    proof {
        assert(item.tags@.take(item.tags@.len() as int) =~= item.tags@);
    }
    r
}

fn capture_tag(tag: &TypedTag, ty: &TagType, pattern: &str, out: &mut Vec<Vec<String>>)
    ensures
        piece_lists(final(out)@) == ({
            let fit = glob_capture::first_fit(
                glob_capture::lexed(pattern@),
                tag@.value.shown(),
            );
            if tag@.tag_type == ty@ && fit is Some {
                piece_lists(old(out)@).push(fit->0)
            } else {
                piece_lists(old(out)@)
            }
        }),
{
    if tag.tag_type.same(ty) {
        let shown = tag.as_str();
        match glob_captures(pattern, shown.as_str()) {
            Some(caps) => {
                proof {
                    assert(piece_lists(out@.push(caps)) =~= piece_lists(out@).push(
                        text::texts(caps@),
                    ));
                }
                out.push(caps);
            },
            None => {},
        }
    }
}

/// What a pattern captures from the tags of a type on an item.
pub fn default_capture(ty: &TagType, pattern: &str, item: &Item) -> (r: Vec<Vec<String>>)
    ensures
        piece_lists(r@) == captured(item.tags@, ty@, pattern@),
{
    let mut r: Vec<Vec<String>> = Vec::new();
    let mut i: usize = 0;
    proof {
        assert(piece_lists(r@) =~= captured(item.tags@.take(0), ty@, pattern@));
    }
    while i < item.tags.entries.len()
        invariant
            i <= item.tags.entries@.len(),
            piece_lists(r@) == captured(item.tags@.take(i as int), ty@, pattern@),
        decreases item.tags.entries@.len() - i,
    {
        proof {
            assert(item.tags@.take(i + 1).drop_last() =~= item.tags@.take(i as int));
            assert(item.tags@.take(i + 1).last() == item.tags.entries@[i as int].typed_tag@);
        }
        capture_tag(&item.tags.entries[i].typed_tag, ty, pattern, &mut r);
        i += 1;
    }
    proof {
        assert(item.tags@.take(item.tags@.len() as int) =~= item.tags@);
    }
    r
}

/// What a pattern captures from an item under a type. `slots` says how points in time are
/// written.
pub fn capture(
    reg: &TagRegistry,
    ty: &TagType,
    pattern: &str,
    item: &Item,
    slots: &Vec<TimeSlots>,
) -> (r: Vec<Vec<String>>)
    ensures
        piece_lists(r@) == captured_from(
            match find_fn(reg@, ty@.name()) {
                Some(f) => Some(f.reading),
                None => None,
            },
            ty@,
            pattern@,
            *item,
            slots@,
        ),
{
    let mut r = default_capture(ty, pattern, item);
    match reg.get(ty.as_str()) {
        Some(f) => {
            if f.reading == Reading::Time {
                return capture_times(ty, pattern, item, slots);
            }
            if f.reading == Reading::Type {
                let ghost own = piece_lists(r@);
                let tags = &item.representative.tags;
                let mut i: usize = 0;
                proof {
                    assert(own + captured(item.repr().take(0), ty@, pattern@) =~= own);
                }
                while i < tags.len()
                    invariant
                        i <= tags@.len(),
                        *tags == item.representative.tags,
                        piece_lists(r@) == own + captured(
                            item.repr().take(i as int),
                            ty@,
                            pattern@,
                        ),
                    decreases tags@.len() - i,
                {
                    let ghost rep = item.repr();
                    proof {
                        assert(rep.take(i + 1).drop_last() =~= rep.take(i as int));
                        assert(rep.take(i + 1).last() == tags@[i as int]@);
                    }
                    let ghost before = piece_lists(r@);
                    capture_tag(&tags[i], ty, pattern, &mut r);
                    proof {
                        assert(piece_lists(r@) =~= own + captured(rep.take(i + 1), ty@, pattern@));
                    }
                    i += 1;
                }
                proof {
                    assert(item.repr().take(item.repr().len() as int) =~= item.repr());
                }
            }
        },
        None => {},
    }
    r
}

} // verus!
