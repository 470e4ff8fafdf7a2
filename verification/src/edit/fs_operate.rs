//! Edits that move files or set their attributes: what is to be done, what stands in the
//! way, and in which order it is carried out.
use crate::col::Col;
use crate::edit::error::{EditError, EditErrorModel};
use crate::edit::modify;
use crate::edit::modify::{ResolvedModel, ResolvedNode};
use crate::edit::QueryType;
use crate::item;
use crate::item::{Item, Label, TagType, TagTypeModel};
use crate::path;
use crate::path::{Location, PathComponents};
use crate::tag;
use crate::tag::{EditStrategy, TagRegistry};
use crate::text;
use crate::text::{cat3, show_debug, show_u64, str_eq};
use crate::types::{Bitical, BiticalModel, ItemId};
use vstd::prelude::*;

verus! {

// ---------------------------------------------------------------------------
// What a type stands for
// ---------------------------------------------------------------------------

/// The parts of a path that a type sets.
pub open spec fn components_of(reg: Seq<tag::TagFnModel>, name: Seq<char>) -> Seq<Col> {
    match tag::edit_of(reg, name) {
        Some(e) => e.components,
        None => seq![],
    }
}

/// The parts of a path that a type sets.
pub fn path_components(tag_type: &TagType, registry: &TagRegistry) -> (r: Vec<Col>)
    ensures
        r@ == components_of(registry@, tag_type@.name()),
{
    let mut r: Vec<Col> = Vec::new();
    match registry.edit(tag_type.as_str()) {
        Some(e) => {
            let mut i: usize = 0;
            while i < e.components.len()
                invariant
                    i <= e.components@.len(),
                    r@ == e.components@.take(i as int),
                decreases e.components@.len() - i,
            {
                proof {
                    assert(e.components@.take(i + 1) =~= e.components@.take(i as int).push(
                        e.components@[i as int],
                    ));
                }
                r.push(e.components[i]);
                i += 1;
            }
            proof {
                assert(e.components@.take(e.components@.len() as int) =~= e.components@);
            }
        },
        None => {},
    }
    r
}

/// The parts that a list of types sets, each with the name of the type that sets it.
pub open spec fn set_parts(reg: Seq<tag::TagFnModel>, names: Seq<Seq<char>>) -> Seq<
    (Col, Seq<char>),
>
    decreases names.len(),
{
    if names.len() == 0 {
        seq![]
    } else {
        set_parts(reg, names.drop_last()) + components_of(reg, names.last()).map_values(
            |c: Col| (c, names.last()),
        )
    }
}

/// The first of the parts that is the column `c`.
pub open spec fn part_before(parts: Seq<(Col, Seq<char>)>, c: Col) -> Option<Seq<char>>
    decreases parts.len(),
{
    if parts.len() == 0 {
        None
    } else if parts[0].0 == c {
        Some(parts[0].1)
    } else {
        part_before(parts.skip(1), c)
    }
}

/// The first clash among the parts from position `k` on: a part that is set before.
pub open spec fn first_clash(parts: Seq<(Col, Seq<char>)>, k: int) -> Option<EditErrorModel>
    decreases parts.len() - k,
{
    if k < 0 || k >= parts.len() {
        None
    } else {
        match part_before(parts.take(k), parts[k].0) {
            Some(prev) => Some(
                EditErrorModel::SameComponent(parts[k].1, prev, parts[k].0.name_text()),
            ),
            None => first_clash(parts, k + 1),
        }
    }
}

/// Why a list of types cannot be set together, if it cannot: two of them set one part.
pub open spec fn location_error(reg: Seq<tag::TagFnModel>, names: Seq<Seq<char>>) -> Option<
    EditErrorModel,
> {
    first_clash(set_parts(reg, names), 0)
}

pub open spec fn type_names(v: Seq<TagType>) -> Seq<Seq<char>> {
    v.map_values(|t: TagType| t@.name())
}

struct SetPart {
    part: Col,
    by: String,
}

spec fn part_models(v: Seq<SetPart>) -> Seq<(Col, Seq<char>)> {
    v.map_values(|p: SetPart| (p.part, p.by@))
}

fn find_part(parts: &Vec<SetPart>, n: usize, c: Col) -> (r: Option<String>)
    requires
        n <= parts@.len(),
    ensures
        match r {
            Some(s) => part_before(part_models(parts@).take(n as int), c) == Some(s@),
            None => part_before(part_models(parts@).take(n as int), c) is None,
        },
{
    let ghost ps = part_models(parts@).take(n as int);
    let mut i: usize = 0;
    proof {
        assert(ps.skip(0) =~= ps);
    }
    while i < n
        invariant
            i <= n <= parts@.len(),
            ps == part_models(parts@).take(n as int),
            part_before(ps, c) == part_before(ps.skip(i as int), c),
        decreases n - i,
    {
        proof {
            assert(ps.skip(i as int)[0] == (parts@[i as int].part, parts@[i as int].by@));
            assert(ps.skip(i as int).skip(1) =~= ps.skip(i + 1));
        }
        if parts[i].part == c {
            return Some(parts[i].by.clone());
        }
        i += 1;
    }
    None
}

/// Refuses types that set one part of a path twice.
pub fn check_location_tag(tag_types: &Vec<TagType>, registry: &TagRegistry) -> (r: Result<
    (),
    EditError,
>)
    ensures
        match r {
            Ok(_) => location_error(registry@, type_names(tag_types@)) is None,
            Err(e) => location_error(registry@, type_names(tag_types@)) == Some(e@),
        },
{
    let ghost names = type_names(tag_types@);
    let mut parts: Vec<SetPart> = Vec::new();
    let mut i: usize = 0;
    proof {
        assert(names.take(0) =~= seq![]);
        assert(part_models(parts@) =~= seq![]);
    }
    while i < tag_types.len()
        invariant
            i <= tag_types@.len(),
            names == type_names(tag_types@),
            part_models(parts@) == set_parts(registry@, names.take(i as int)),
        decreases tag_types@.len() - i,
    {
        let cs = path_components(&tag_types[i], registry);
        let ghost start = part_models(parts@);
        let ghost name = tag_types@[i as int]@.name();
        let ghost more = cs@.map_values(|c: Col| (c, name));
        proof {
            assert(names.take(i + 1).drop_last() =~= names.take(i as int));
            assert(names.take(i + 1).last() == name);
            assert(components_of(registry@, name).map_values(|c: Col| (c, names.take(i + 1).last()))
                =~= more);
            assert(start + more.take(0) =~= start);
        }
        let mut k: usize = 0;
        while k < cs.len()
            invariant
                i < tag_types@.len(),
                k <= cs@.len(),
                name == tag_types@[i as int]@.name(),
                more == cs@.map_values(|c: Col| (c, name)),
                part_models(parts@) == start + more.take(k as int),
            decreases cs@.len() - k,
        {
            let p = SetPart { part: cs[k], by: tag_types[i].as_str().to_owned() };
            proof {
                assert(part_models(parts@.push(p)) =~= part_models(parts@).push((p.part, p.by@)));
                assert(start + more.take(k + 1) =~= (start + more.take(k as int)).push(
                    more[k as int],
                ));
            }
            parts.push(p);
            k += 1;
        }
        proof {
            assert(more.take(more.len() as int) =~= more);
        }
        i += 1;
    }
    let ghost all = part_models(parts@);
    proof {
        assert(names.take(names.len() as int) =~= names);
    }
    let mut k: usize = 0;
    while k < parts.len()
        invariant
            k <= parts@.len(),
            all == part_models(parts@),
            all == set_parts(registry@, type_names(tag_types@)),
            first_clash(all, 0) == first_clash(all, k as int),
        decreases parts@.len() - k,
    {
        match find_part(&parts, k, parts[k].part) {
            Some(prev) => {
                return Err(
                    EditError::SameComponent(
                        parts[k].by.clone(),
                        prev,
                        parts[k].part.name().to_owned(),
                    ),
                );
            },
            None => {},
        }
        k += 1;
    }
    Ok(())
}

/// Whether edits with a strategy act on files.
pub open spec fn on_files(s: EditStrategy) -> bool {
    s == EditStrategy::Relocate || s == EditStrategy::SetFileAttr
}

/// Whether edits with a strategy act on files.
pub fn is_fs_strategy(s: EditStrategy) -> (r: bool)
    ensures
        r == on_files(s),
{
    match s {
        EditStrategy::Relocate | EditStrategy::SetFileAttr => true,
        _ => false,
    }
}

/// Seconds since the epoch.
#[derive(Clone, Copy, Debug, PartialEq, Eq, Structural)]
pub struct FileTimestamp(pub i64);

/// An attribute of a file to set.
#[derive(Clone, Copy, Debug, PartialEq, Eq, Structural)]
pub enum FileAttr {
    Mtime(FileTimestamp),
}

/// A text and the point in time that it stands for where the program runs.
#[derive(Debug)]
pub struct TimeText {
    pub text: String,
    pub timestamp: i64,
}

pub open spec fn time_for(times: Seq<TimeText>, s: Seq<char>) -> Option<i64>
    decreases times.len(),
{
    if times.len() == 0 {
        None
    } else if times[0].text@ == s {
        Some(times[0].timestamp)
    } else {
        time_for(times.skip(1), s)
    }
}

fn find_time(times: &Vec<TimeText>, s: &str) -> (r: Option<i64>)
    ensures
        r == time_for(times@, s@),
{
    let mut i: usize = 0;
    proof {
        assert(times@.skip(0) =~= times@);
    }
    while i < times.len()
        invariant
            i <= times@.len(),
            time_for(times@, s@) == time_for(times@.skip(i as int), s@),
        decreases times@.len() - i,
    {
        proof {
            assert(times@.skip(i as int).skip(1) =~= times@.skip(i + 1));
        }
        if str_eq(times[i].text.as_str(), s) {
            return Some(times[i].timestamp);
        }
        i += 1;
    }
    None
}

/// The attribute that a type with a label sets, or the reason why it sets none. A number
/// is a timestamp; a text is one where `times` knows it.
pub open spec fn attribute(
    reg: Seq<tag::TagFnModel>,
    times: Seq<TimeText>,
    name: Seq<char>,
    value: BiticalModel,
) -> Result<FileAttr, EditErrorModel> {
    match tag::edit_of(reg, name) {
        Some(e) => if e.strategy == EditStrategy::SetFileAttr {
            match value {
                BiticalModel::Integer(i) => Ok(FileAttr::Mtime(FileTimestamp(i))),
                v => match time_for(times, v.shown()) {
                    Some(t) => Ok(FileAttr::Mtime(FileTimestamp(t))),
                    None => Err(EditErrorModel::NotSingle(name, v.shown())),
                },
            }
        } else {
            Err(EditErrorModel::NoFileAttribute(name))
        },
        None => Err(EditErrorModel::NoFileAttribute(name)),
    }
}

/// The attribute that a type with a label sets.
pub fn file_attr_of(
    tag_type: &TagType,
    label: &Label,
    registry: &TagRegistry,
    times: &Vec<TimeText>,
) -> (r: Result<FileAttr, EditError>)
    ensures
        match r {
            Ok(a) => attribute(registry@, times@, tag_type@.name(), label@) == Ok::<
                FileAttr,
                EditErrorModel,
            >(a),
            Err(e) => attribute(registry@, times@, tag_type@.name(), label@) == Err::<
                FileAttr,
                EditErrorModel,
            >(e@),
        },
{
    match registry.edit(tag_type.as_str()) {
        Some(e) => {
            if e.strategy == EditStrategy::SetFileAttr {
                match &label.value {
                    Bitical::Integer(i) => Ok(FileAttr::Mtime(FileTimestamp(*i))),
                    _ => {
                        let s = label.as_str();
                        match find_time(times, s.as_str()) {
                            Some(t) => Ok(FileAttr::Mtime(FileTimestamp(t))),
                            None => Err(EditError::NotSingle(tag_type.as_str().to_owned(), s)),
                        }
                    },
                }
            } else {
                Err(EditError::NoFileAttribute(tag_type.as_str().to_owned()))
            }
        },
        None => Err(EditError::NoFileAttribute(tag_type.as_str().to_owned())),
    }
}

// ---------------------------------------------------------------------------
// Plans
// ---------------------------------------------------------------------------

/// A file to move. A move that crosses to another device copies and deletes.
#[derive(Debug, PartialEq, Eq)]
pub struct FsMove {
    pub item: ItemId,
    pub from: String,
    pub to: String,
    pub crossed: bool,
}

#[verifier::ext_equal]
pub struct MoveModel {
    pub item: ItemId,
    pub from: Seq<char>,
    pub to: Seq<char>,
    pub crossed: bool,
}

impl View for FsMove {
    type V = MoveModel;

    open spec fn view(&self) -> MoveModel {
        MoveModel { item: self.item, from: self.from@, to: self.to@, crossed: self.crossed }
    }
}

impl Clone for FsMove {
    fn clone(&self) -> (r: Self)
        ensures
            r@ == self@,
    {
        FsMove {
            item: self.item,
            from: self.from.clone(),
            to: self.to.clone(),
            crossed: self.crossed,
        }
    }
}

pub open spec fn move_models(v: Seq<FsMove>) -> Seq<MoveModel> {
    v.map_values(|m: FsMove| m@)
}

pub proof fn lemma_moves_push(v: Seq<FsMove>, m: FsMove)
    ensures
        move_models(v.push(m)) == move_models(v).push(m@),
{
    assert(move_models(v.push(m)) =~= move_models(v).push(m@));
}

/// Copies a list of moves.
pub fn clone_moves(v: &Vec<FsMove>) -> (r: Vec<FsMove>)
    ensures
        move_models(r@) == move_models(v@),
{
    let mut r: Vec<FsMove> = Vec::new();
    let mut i: usize = 0;
    while i < v.len()
        invariant
            i <= v@.len(),
            r@.len() == i,
            forall|k: int| 0 <= k < i ==> (#[trigger] r@[k])@ == v@[k]@,
        decreases v@.len() - i,
    {
        r.push(v[i].clone());
        i += 1;
    }
    proof {
        assert(move_models(r@) =~= move_models(v@));
    }
    r
}

/// A file whose attribute is to be set.
#[derive(Debug)]
pub struct FsAttr {
    pub item: ItemId,
    pub from: String,
    pub attr: FileAttr,
}

#[verifier::ext_equal]
pub struct AttrModel {
    pub item: ItemId,
    pub from: Seq<char>,
    pub attr: FileAttr,
}

impl View for FsAttr {
    type V = AttrModel;

    open spec fn view(&self) -> AttrModel {
        AttrModel { item: self.item, from: self.from@, attr: self.attr }
    }
}

pub open spec fn attr_models(v: Seq<FsAttr>) -> Seq<AttrModel> {
    v.map_values(|a: FsAttr| a@)
}

/// Something that stands in the way of an edit.
#[derive(Debug, PartialEq, Eq)]
pub enum FsIssue {
    SourceMissing(ItemId, String),
    ChainedMove(ItemId, String),
    TargetInsideSource(ItemId, String, String),
    TargetNotWritable(ItemId, String),
    MultipleLocations(ItemId, Vec<String>, Vec<FsMove>),
    NoLocation(ItemId),
    CreateUnsupported(ItemId),
    UntagPathUnsupported(ItemId),
    NotEnoughSpace(String, u64),
}

#[verifier::ext_equal]
pub enum IssueModel {
    SourceMissing(ItemId, Seq<char>),
    ChainedMove(ItemId, Seq<char>),
    TargetInsideSource(ItemId, Seq<char>, Seq<char>),
    TargetNotWritable(ItemId, Seq<char>),
    MultipleLocations(ItemId, Seq<Seq<char>>, Seq<MoveModel>),
    NoLocation(ItemId),
    CreateUnsupported(ItemId),
    UntagPathUnsupported(ItemId),
    NotEnoughSpace(Seq<char>, u64),
}

impl View for FsIssue {
    type V = IssueModel;

    open spec fn view(&self) -> IssueModel {
        match *self {
            FsIssue::SourceMissing(i, p) => IssueModel::SourceMissing(i, p@),
            FsIssue::ChainedMove(i, p) => IssueModel::ChainedMove(i, p@),
            FsIssue::TargetInsideSource(i, s, p) => IssueModel::TargetInsideSource(i, s@, p@),
            FsIssue::TargetNotWritable(i, p) => IssueModel::TargetNotWritable(i, p@),
            FsIssue::MultipleLocations(i, ps, ms) => IssueModel::MultipleLocations(
                i,
                text::texts(ps@),
                move_models(ms@),
            ),
            FsIssue::NoLocation(i) => IssueModel::NoLocation(i),
            FsIssue::CreateUnsupported(i) => IssueModel::CreateUnsupported(i),
            FsIssue::UntagPathUnsupported(i) => IssueModel::UntagPathUnsupported(i),
            FsIssue::NotEnoughSpace(d, n) => IssueModel::NotEnoughSpace(d@, n),
        }
    }
}

pub open spec fn issue_models(v: Seq<FsIssue>) -> Seq<IssueModel> {
    v.map_values(|i: FsIssue| i@)
}

pub open spec fn quoted_all(paths: Seq<Seq<char>>) -> Seq<Seq<char>> {
    paths.map_values(|p: Seq<char>| text::debugged(p))
}

impl IssueModel {
    /// The issue in words.
    pub open spec fn shown(self) -> Seq<char> {
        match self {
            IssueModel::SourceMissing(i, p) => i.shown() + ": source "@ + text::debugged(p)
                + " is gone"@,
            IssueModel::ChainedMove(i, p) => i.shown() + ": "@ + text::debugged(p)
                + " is another item's source in this edit"@,
            IssueModel::TargetInsideSource(i, s, p) => i.shown() + ": "@ + text::debugged(p)
                + " is inside "@ + text::debugged(s),
            IssueModel::TargetNotWritable(i, p) => i.shown() + ": cannot write "@ + text::debugged(
                p,
            ),
            IssueModel::MultipleLocations(i, ps, _) => i.shown() + ": has several paths: "@
                + text::joined(quoted_all(ps), ", "@),
            IssueModel::NoLocation(i) => i.shown() + ": has no file to act on"@,
            IssueModel::CreateUnsupported(i) => i.shown()
                + ": creating a file is not implemented yet"@,
            IssueModel::UntagPathUnsupported(i) => i.shown()
                + ": deleting a file is not implemented yet"@,
            IssueModel::NotEnoughSpace(d, n) => text::debugged(d) + ": needs "@ + text::nat_text(
                n as nat,
            ) + " bytes"@,
        }
    }

    /// Whether the issue is one that the program only warns of.
    pub open spec fn unsupported(self) -> bool {
        self is UntagPathUnsupported || self is CreateUnsupported
    }
}

fn quote_all(paths: &Vec<String>) -> (r: Vec<String>)
    ensures
        text::texts(r@) == quoted_all(text::texts(paths@)),
{
    let ghost wanted = quoted_all(text::texts(paths@));
    let mut r: Vec<String> = Vec::new();
    let mut i: usize = 0;
    proof {
        assert(text::texts(r@) =~= wanted.take(0));
    }
    while i < paths.len()
        invariant
            i <= paths@.len(),
            wanted == quoted_all(text::texts(paths@)),
            text::texts(r@) == wanted.take(i as int),
        decreases paths@.len() - i,
    {
        let q = show_debug(paths[i].as_str());
        proof {
            text::lemma_texts_push(r@, q);
            assert(wanted.take(i + 1) =~= wanted.take(i as int).push(q@));
        }
        r.push(q);
        i += 1;
    }
    proof {
        assert(wanted.take(wanted.len() as int) =~= wanted);
    }
    r
}

impl FsIssue {
    /// The issue in words.
    pub fn show(&self) -> (r: String)
        ensures
            r@ == self@.shown(),
    {
        match self {
            FsIssue::SourceMissing(i, p) => {
                let mut s = cat3(i.show().as_str(), ": source ", show_debug(p.as_str()).as_str());
                s.push_str(" is gone");
                s
            },
            FsIssue::ChainedMove(i, p) => {
                let mut s = cat3(i.show().as_str(), ": ", show_debug(p.as_str()).as_str());
                s.push_str(" is another item's source in this edit");
                s
            },
            FsIssue::TargetInsideSource(i, from, p) => {
                let mut s = cat3(i.show().as_str(), ": ", show_debug(p.as_str()).as_str());
                s.push_str(" is inside ");
                s.push_str(show_debug(from.as_str()).as_str());
                s
            },
            FsIssue::TargetNotWritable(i, p) => cat3(
                i.show().as_str(),
                ": cannot write ",
                show_debug(p.as_str()).as_str(),
            ),
            FsIssue::MultipleLocations(i, ps, _) => {
                let quoted = quote_all(ps);
                let list = text::join(&quoted, ", ");
                cat3(i.show().as_str(), ": has several paths: ", list.as_str())
            },
            FsIssue::NoLocation(i) => {
                let mut s = i.show();
                s.push_str(": has no file to act on");
                s
            },
            FsIssue::CreateUnsupported(i) => {
                let mut s = i.show();
                s.push_str(": creating a file is not implemented yet");
                s
            },
            FsIssue::UntagPathUnsupported(i) => {
                let mut s = i.show();
                s.push_str(": deleting a file is not implemented yet");
                s
            },
            FsIssue::NotEnoughSpace(d, n) => {
                let mut s = cat3(
                    show_debug(d.as_str()).as_str(),
                    ": needs ",
                    show_u64(*n).as_str(),
                );
                s.push_str(" bytes");
                s
            },
        }
    }
}

/// What an edit does to files, and what stands in its way.
#[derive(Debug)]
pub struct FsPlan {
    pub moves: Vec<FsMove>,
    pub attrs: Vec<FsAttr>,
    pub mkdirs: Vec<String>,
    pub issues: Vec<FsIssue>,
}

#[verifier::ext_equal]
pub struct PlanModel {
    pub moves: Seq<MoveModel>,
    pub attrs: Seq<AttrModel>,
    pub mkdirs: Seq<Seq<char>>,
    pub issues: Seq<IssueModel>,
}

impl View for FsPlan {
    type V = PlanModel;

    open spec fn view(&self) -> PlanModel {
        PlanModel {
            moves: move_models(self.moves@),
            attrs: attr_models(self.attrs@),
            mkdirs: text::texts(self.mkdirs@),
            issues: issue_models(self.issues@),
        }
    }
}

impl PlanModel {
    pub open spec fn nothing() -> PlanModel {
        PlanModel { moves: seq![], attrs: seq![], mkdirs: seq![], issues: seq![] }
    }

    pub open spec fn with_issue(self, i: IssueModel) -> PlanModel {
        PlanModel { issues: self.issues.push(i), ..self }
    }
}

impl Default for FsPlan {
    fn default() -> (r: Self)
        ensures
            r@ == PlanModel::nothing(),
    {
        let r = FsPlan {
            moves: Vec::new(),
            attrs: Vec::new(),
            mkdirs: Vec::new(),
            issues: Vec::new(),
        };
        proof {
            assert(r@ =~= PlanModel::nothing());
        }
        r
    }
}

/// The warnings for the issues that the program only warns of, in order.
pub open spec fn warnings_of(issues: Seq<IssueModel>) -> Seq<Seq<char>>
    decreases issues.len(),
{
    if issues.len() == 0 {
        seq![]
    } else if issues.last().unsupported() {
        warnings_of(issues.drop_last()).push(issues.last().shown() + " (not performed)"@)
    } else {
        warnings_of(issues.drop_last())
    }
}

impl FsPlan {
    fn push_issue(&mut self, issue: FsIssue)
        ensures
            final(self)@ == old(self)@.with_issue(issue@),
    {
        let ghost before = self.issues@;
        self.issues.push(issue);
        proof {
            assert(issue_models(self.issues@) =~= issue_models(before).push(issue@));
        }
    }

    /// Takes the issues that the program only warns of out of the plan, with a warning for
    /// each, and says whether there were any.
    pub fn warn_unsupported(&mut self, warnings: &mut Vec<String>) -> (r: bool)
        ensures
            final(self)@ == (PlanModel {
                issues: old(self)@.issues.filter(|i: IssueModel| !i.unsupported()),
                ..old(self)@
            }),
            text::texts(final(warnings)@) == text::texts(old(warnings)@) + warnings_of(
                old(self)@.issues,
            ),
            r == exists|k: int|
                0 <= k < old(self)@.issues.len() && (#[trigger] old(
                    self,
                )@.issues[k]).unsupported(),
    {
        let ghost all = self@.issues;
        let ghost start = text::texts(warnings@);
        let ghost p = |i: IssueModel| !i.unsupported();
        let mut kept: Vec<FsIssue> = Vec::new();
        let mut rest: Vec<FsIssue> = Vec::new();
        std::mem::swap(&mut rest, &mut self.issues);
        let ghost whole = rest@;
        let mut skipped = false;
        let ghost mut done: int = 0;
        proof {
            reveal(Seq::filter);
            assert(issue_models(kept@) =~= all.take(0).filter(p));
            assert(start + warnings_of(all.take(0)) =~= start);
            assert(whole.skip(0) =~= whole);
        }
        while rest.len() > 0
            invariant
                0 <= done <= all.len(),
                all == issue_models(whole),
                rest@ == whole.skip(done),
                p == (|i: IssueModel| !i.unsupported()),
                issue_models(kept@) == all.take(done).filter(p),
                text::texts(warnings@) == start + warnings_of(all.take(done)),
                skipped == exists|k: int| 0 <= k < done && (#[trigger] all[k]).unsupported(),
            decreases rest@.len(),
        {
            let ghost before = rest@;
            let issue = rest.remove(0);
            proof {
                reveal(Seq::filter);
                assert(issue == whole[done]);
                assert(all[done] == issue@);
                assert(rest@ =~= whole.skip(done + 1));
                assert(all.take(done + 1).drop_last() =~= all.take(done));
                assert(all.take(done + 1).last() == issue@);
            }
            let unsupported = match &issue {
                FsIssue::UntagPathUnsupported(_) | FsIssue::CreateUnsupported(_) => true,
                _ => false,
            };
            if unsupported {
                let mut w = issue.show();
                w.push_str(" (not performed)");
                proof {
                    text::lemma_texts_push(warnings@, w);
                    assert(start + warnings_of(all.take(done + 1)) =~= (start + warnings_of(
                        all.take(done),
                    )).push(w@));
                }
                warnings.push(w);
                skipped = true;
                proof {
                    assert(all[done].unsupported());
                }
            } else {
                proof {
                    assert(issue_models(kept@.push(issue)) =~= issue_models(kept@).push(issue@));
                }
                kept.push(issue);
            }
            proof {
                done = done + 1;
            }
        }
        proof {
            assert(all.take(all.len() as int) =~= all);
        }
        self.issues = kept;
        skipped
    }
}

// ---------------------------------------------------------------------------
// What is on disk
// ---------------------------------------------------------------------------

/// What is known of a path that exists.
#[derive(Debug)]
pub struct FsEntry {
    pub path: String,
    pub writable: bool,
    pub device: Option<u64>,
    pub size: Option<u64>,
    pub available: Option<u64>,
}

/// What is known of the file system: an entry for each path that was looked at and exists.
#[derive(Debug)]
pub struct FsSnapshot {
    pub entries: Vec<FsEntry>,
}

/// The entry of a path.
pub open spec fn entry_at(entries: Seq<FsEntry>, p: Seq<char>) -> Option<FsEntry>
    decreases entries.len(),
{
    if entries.len() == 0 {
        None
    } else if path::same(entries[0].path@, p) {
        Some(entries[0])
    } else {
        entry_at(entries.skip(1), p)
    }
}

pub open spec fn exists_at(fs: Seq<FsEntry>, p: Seq<char>) -> bool {
    entry_at(fs, p) is Some
}

/// The path itself where it exists, else the nearest directory above it that does; the
/// topmost one where none does.
pub open spec fn nearest(fs: Seq<FsEntry>, p: Seq<char>, steps: nat) -> Seq<char>
    decreases steps,
{
    if exists_at(fs, p) || steps == 0 {
        p
    } else {
        match path::parent_of(p) {
            Some(d) => nearest(fs, d, (steps - 1) as nat),
            None => p,
        }
    }
}

/// The path itself where it exists, else the nearest directory above it that does.
pub open spec fn existing(fs: Seq<FsEntry>, p: Seq<char>) -> Seq<char> {
    nearest(fs, p, path::parsed(p).parts.len())
}

impl FsSnapshot {
    /// The entry of a path.
    pub fn find(&self, p: &str) -> (r: Option<&FsEntry>)
        ensures
            match r {
                Some(e) => entry_at(self.entries@, p@) == Some(*e),
                None => entry_at(self.entries@, p@) is None,
            },
    {
        let mut i: usize = 0;
        proof {
            assert(self.entries@.skip(0) =~= self.entries@);
        }
        while i < self.entries.len()
            invariant
                i <= self.entries@.len(),
                entry_at(self.entries@, p@) == entry_at(self.entries@.skip(i as int), p@),
            decreases self.entries@.len() - i,
        {
            proof {
                assert(self.entries@.skip(i as int).skip(1) =~= self.entries@.skip(i + 1));
            }
            if path::same_path(self.entries[i].path.as_str(), p) {
                return Some(&self.entries[i]);
            }
            i += 1;
        }
        None
    }

    pub fn present(&self, p: &str) -> (r: bool)
        ensures
            r == exists_at(self.entries@, p@),
    {
        self.find(p).is_some()
    }
}

fn existing_parent(fs: &FsSnapshot, p: &str) -> (r: String)
    ensures
        r@ == existing(fs.entries@, p@),
{
    let mut steps: usize = path::components(p).parts.len();
    let mut cur = p.to_owned();
    while steps > 0 && !fs.present(cur.as_str())
        invariant
            existing(fs.entries@, p@) == nearest(fs.entries@, cur@, steps as nat),
        decreases steps,
    {
        match path::parent(cur.as_str()) {
            Some(d) => {
                cur = d;
                steps -= 1;
            },
            None => {
                return cur;
            },
        }
    }
    cur
}

/// Why a plan cannot be made.
#[derive(Debug)]
pub enum FsError {
    Edit(EditError),
    NoDevice(String),
    NoSize(String),
    NoSpace(String),
}

pub enum FsErrorModel {
    Edit(EditErrorModel),
    NoDevice(Seq<char>),
    NoSize(Seq<char>),
    NoSpace(Seq<char>),
}

impl View for FsError {
    type V = FsErrorModel;

    open spec fn view(&self) -> FsErrorModel {
        match *self {
            FsError::Edit(e) => FsErrorModel::Edit(e@),
            FsError::NoDevice(p) => FsErrorModel::NoDevice(p@),
            FsError::NoSize(p) => FsErrorModel::NoSize(p@),
            FsError::NoSpace(p) => FsErrorModel::NoSpace(p@),
        }
    }
}

pub open spec fn device_at(fs: Seq<FsEntry>, p: Seq<char>) -> Option<u64> {
    match entry_at(fs, p) {
        Some(e) => e.device,
        None => None,
    }
}

fn device_of(fs: &FsSnapshot, p: &str) -> (r: Option<u64>)
    ensures
        r == device_at(fs.entries@, p@),
{
    match fs.find(p) {
        Some(e) => e.device,
        None => None,
    }
}

/// Whether a move leads to another device, where both devices are known.
pub open spec fn crosses(fs: Seq<FsEntry>, from: Seq<char>, parent: Seq<char>) -> Result<
    bool,
    FsErrorModel,
> {
    let dir = existing(fs, parent);
    match device_at(fs, from) {
        None => Err(FsErrorModel::NoDevice(from)),
        Some(a) => match device_at(fs, dir) {
            None => Err(FsErrorModel::NoDevice(dir)),
            Some(b) => Ok(a != b),
        },
    }
}

fn crosses_devices(fs: &FsSnapshot, from: &str, parent: &str) -> (r: Result<bool, FsError>)
    ensures
        match r {
            Ok(b) => crosses(fs.entries@, from@, parent@) == Ok::<bool, FsErrorModel>(b),
            Err(e) => crosses(fs.entries@, from@, parent@) == Err::<bool, FsErrorModel>(e@),
        },
{
    let dir = existing_parent(fs, parent);
    match device_of(fs, from) {
        None => Err(FsError::NoDevice(from.to_owned())),
        Some(a) => match device_of(fs, dir.as_str()) {
            None => Err(FsError::NoDevice(dir)),
            Some(b) => Ok(a != b),
        },
    }
}

// ---------------------------------------------------------------------------
// Where a file goes
// ---------------------------------------------------------------------------

/// A location with the parts of it that a type sets.
pub open spec fn with_parts(l: Location, comps: Seq<Col>, value: Seq<char>) -> Location {
    if comps == seq![Col::Parentdir, Col::Stem, Col::Extension] {
        path::located(value)
    } else if comps == seq![Col::Stem, Col::Extension] {
        l.with_filename(value)
    } else if comps == seq![Col::Parentdir] {
        Location { parentdir: value, ..l }
    } else if comps == seq![Col::Stem] {
        Location { stem: value, ..l }
    } else if comps == seq![Col::Extension] {
        Location { extension: Some(value), ..l }
    } else {
        l
    }
}

fn apply_node(parts: &mut PathComponents, comps: &Vec<Col>, value: &str)
    ensures
        final(parts)@ == with_parts(old(parts)@, comps@, value@),
{
    let n = comps.len();
    if n == 3 && comps[0] == Col::Parentdir && comps[1] == Col::Stem && comps[2] == Col::Extension {
        proof {
            assert(comps@ =~= seq![Col::Parentdir, Col::Stem, Col::Extension]);
        }
        *parts = PathComponents::decompose(value);
    } else if n == 2 && comps[0] == Col::Stem && comps[1] == Col::Extension {
        proof {
            assert(comps@ =~= seq![Col::Stem, Col::Extension]);
            assert(comps@.len() != seq![Col::Parentdir, Col::Stem, Col::Extension].len());
        }
        parts.set_filename(value);
    } else if n == 1 && comps[0] == Col::Parentdir {
        proof {
            assert(comps@ =~= seq![Col::Parentdir]);
            assert(comps@.len() != seq![Col::Parentdir, Col::Stem, Col::Extension].len());
            assert(comps@.len() != seq![Col::Stem, Col::Extension].len());
        }
        parts.parentdir = value.to_owned();
    } else if n == 1 && comps[0] == Col::Stem {
        proof {
            assert(comps@ =~= seq![Col::Stem]);
            assert(comps@.len() != seq![Col::Parentdir, Col::Stem, Col::Extension].len());
            assert(comps@.len() != seq![Col::Stem, Col::Extension].len());
            assert(seq![Col::Parentdir][0] != comps@[0]);
        }
        parts.stem = value.to_owned();
    } else if n == 1 && comps[0] == Col::Extension {
        proof {
            assert(comps@ =~= seq![Col::Extension]);
            assert(comps@.len() != seq![Col::Parentdir, Col::Stem, Col::Extension].len());
            assert(comps@.len() != seq![Col::Stem, Col::Extension].len());
            assert(seq![Col::Parentdir][0] != comps@[0]);
            assert(seq![Col::Stem][0] != comps@[0]);
        }
        parts.extension = Some(value.to_owned());
    } else {
        proof {
            let a = seq![Col::Parentdir, Col::Stem, Col::Extension];
            assert(a[0] == Col::Parentdir && a[1] == Col::Stem && a[2] == Col::Extension);
            let b = seq![Col::Stem, Col::Extension];
            assert(b[0] == Col::Stem && b[1] == Col::Extension);
            assert(seq![Col::Parentdir][0] == Col::Parentdir);
            assert(seq![Col::Stem][0] == Col::Stem);
            assert(seq![Col::Extension][0] == Col::Extension);
        }
    }
}

/// Where the pairs that move a file take it, or the reason why they cannot.
pub open spec fn relocated(l: Location, nodes: Seq<ResolvedModel>, reg: Seq<tag::TagFnModel>) -> Result<
    Location,
    EditErrorModel,
>
    decreases nodes.len(),
{
    if nodes.len() == 0 {
        Ok(l)
    } else {
        match relocated(l, nodes.drop_last(), reg) {
            Err(e) => Err(e),
            Ok(at) => {
                let n = nodes.last();
                if n.strategy != EditStrategy::Relocate {
                    Ok(at)
                } else {
                    match n.label {
                        None => Err(EditErrorModel::NeedsValue(n.tag_type.name())),
                        Some(v) => Ok(
                            with_parts(at, components_of(reg, n.tag_type.name()), v.shown()),
                        ),
                    }
                }
            },
        }
    }
}

proof fn lemma_relocated_error(
    l: Location,
    nodes: Seq<ResolvedModel>,
    k: int,
    reg: Seq<tag::TagFnModel>,
)
    requires
        0 <= k <= nodes.len(),
        relocated(l, nodes.take(k), reg) is Err,
    ensures
        relocated(l, nodes, reg) == relocated(l, nodes.take(k), reg),
    decreases nodes.len(),
{
    if k == nodes.len() {
        assert(nodes.take(k) =~= nodes);
    } else {
        assert(nodes.drop_last().take(k) =~= nodes.take(k));
        lemma_relocated_error(l, nodes.drop_last(), k, reg);
    }
}

fn relocate(from: &str, nodes: &Vec<ResolvedNode>, registry: &TagRegistry) -> (r: Result<
    PathComponents,
    EditError,
>)
    ensures
        match r {
            Ok(p) => relocated(
                path::located(from@),
                modify::resolved_models(nodes@),
                registry@,
            ) == Ok::<Location, EditErrorModel>(p@),
            Err(e) => relocated(
                path::located(from@),
                modify::resolved_models(nodes@),
                registry@,
            ) == Err::<Location, EditErrorModel>(e@),
        },
{
    let ghost ns = modify::resolved_models(nodes@);
    let ghost start = path::located(from@);
    let mut parts = PathComponents::decompose(from);
    let mut i: usize = 0;
    proof {
        assert(ns.take(0) =~= seq![]);
    }
    while i < nodes.len()
        invariant
            i <= nodes@.len(),
            ns == modify::resolved_models(nodes@),
            start == path::located(from@),
            relocated(start, ns.take(i as int), registry@) == Ok::<Location, EditErrorModel>(
                parts@,
            ),
        decreases nodes@.len() - i,
    {
        let n = &nodes[i];
        proof {
            assert(ns.take(i + 1).drop_last() =~= ns.take(i as int));
            assert(ns.take(i + 1).last() == n@);
            if relocated(start, ns.take(i + 1), registry@) is Err {
                lemma_relocated_error(start, ns, i + 1, registry@);
            }
        }
        if n.strategy == EditStrategy::Relocate {
            let comps = path_components(&n.tag_type, registry);
            match &n.label {
                None => {
                    return Err(EditError::NeedsValue(n.tag_type.as_str().to_owned()));
                },
                Some(l) => {
                    let v = l.as_str();
                    apply_node(&mut parts, &comps, v.as_str());
                },
            }
        }
        i += 1;
    }
    proof {
        assert(ns.take(ns.len() as int) =~= ns);
    }
    Ok(parts)
}

/// The paths at which an item lies.
pub open spec fn locations(item: Item) -> Seq<Seq<char>> {
    item::of_type(item.tags@, TagTypeModel::Base(Col::Path)).map_values(
        |t: item::TagModel| t.value.shown(),
    )
}

fn location_paths(item: &Item) -> (r: Vec<String>)
    ensures
        text::texts(r@) == locations(*item),
{
    let tags = item.tags.get_values(&TagType::Base(Col::Path));
    let ghost wanted = locations(*item);
    let mut r: Vec<String> = Vec::new();
    let mut i: usize = 0;
    proof {
        assert(text::texts(r@) =~= wanted.take(0));
    }
    while i < tags.len()
        invariant
            i <= tags@.len(),
            wanted == locations(*item),
            item::tag_models(tags@) == item::of_type(item.tags@, TagTypeModel::Base(Col::Path)),
            text::texts(r@) == wanted.take(i as int),
        decreases tags@.len() - i,
    {
        let s = tags[i].as_str();
        proof {
            text::lemma_texts_push(r@, s);
            assert(item::tag_models(tags@)[i as int] == tags@[i as int]@);
            assert(wanted[i as int] == s@);
            assert(wanted.take(i + 1) =~= wanted.take(i as int).push(s@));
        }
        r.push(s);
        i += 1;
    }
    proof {
        assert(item::tag_models(tags@).len() == wanted.len());
        assert(wanted.take(wanted.len() as int) =~= wanted);
    }
    r
}

/// Whether some pair moves files.
pub open spec fn moves_files(nodes: Seq<ResolvedModel>) -> bool {
    exists|i: int| 0 <= i < nodes.len() && (#[trigger] nodes[i]).strategy == EditStrategy::Relocate
}

fn writes_path(nodes: &Vec<ResolvedNode>) -> (r: bool)
    ensures
        r == moves_files(modify::resolved_models(nodes@)),
{
    let ghost ns = modify::resolved_models(nodes@);
    let mut i: usize = 0;
    while i < nodes.len()
        invariant
            i <= nodes@.len(),
            ns == modify::resolved_models(nodes@),
            forall|k: int|
                0 <= k < i ==> (#[trigger] ns[k]).strategy != EditStrategy::Relocate,
        decreases nodes@.len() - i,
    {
        if nodes[i].strategy == EditStrategy::Relocate {
            proof {
                assert(ns[i as int].strategy == EditStrategy::Relocate);
            }
            return true;
        }
        i += 1;
    }
    false
}

pub open spec fn parent_or_empty(p: Seq<char>) -> Seq<char> {
    match path::parent_of(p) {
        Some(d) => d,
        None => seq![],
    }
}

/// What comes of moving one file: nothing where it stays, an issue, or a move.
pub enum Outcome {
    Stays,
    Blocked(IssueModel),
    Moves(MoveModel),
}

/// What comes of moving the file at `from` to `to`.
pub open spec fn outcome_of(fs: Seq<FsEntry>, item: ItemId, from: Seq<char>, to: Seq<char>) -> Result<
    Outcome,
    FsErrorModel,
> {
    let parent = parent_or_empty(to);
    if !exists_at(fs, from) {
        Ok(Outcome::Blocked(IssueModel::SourceMissing(item, from)))
    } else if path::same(to, from) {
        Ok(Outcome::Stays)
    } else if exists_at(fs, parent) && !(entry_at(fs, parent)->0).writable {
        Ok(Outcome::Blocked(IssueModel::TargetNotWritable(item, to)))
    } else {
        match crosses(fs, from, parent) {
            Err(e) => Err(e),
            Ok(crossed) => Ok(Outcome::Moves(MoveModel { item, from, to, crossed })),
        }
    }
}

enum Attempt {
    Stays,
    Blocked(FsIssue),
    Moves(FsMove),
}

impl Attempt {
    spec fn model(self) -> Outcome {
        match self {
            Attempt::Stays => Outcome::Stays,
            Attempt::Blocked(i) => Outcome::Blocked(i@),
            Attempt::Moves(m) => Outcome::Moves(m@),
        }
    }
}

fn attempt(fs: &FsSnapshot, item: ItemId, from: &str, to: &str) -> (r: Result<Attempt, FsError>)
    ensures
        match r {
            Ok(a) => outcome_of(fs.entries@, item, from@, to@) == Ok::<Outcome, FsErrorModel>(
                a.model(),
            ),
            Err(e) => outcome_of(fs.entries@, item, from@, to@) == Err::<Outcome, FsErrorModel>(e@),
        },
{
    if !fs.present(from) {
        return Ok(Attempt::Blocked(FsIssue::SourceMissing(item, from.to_owned())));
    }
    if path::same_path(to, from) {
        return Ok(Attempt::Stays);
    }
    let parent = match path::parent(to) {
        Some(d) => d,
        None => String::new(),
    };
    match fs.find(parent.as_str()) {
        Some(e) => {
            if !e.writable {
                return Ok(Attempt::Blocked(FsIssue::TargetNotWritable(item, to.to_owned())));
            }
        },
        None => {},
    }
    match crosses_devices(fs, from, parent.as_str()) {
        Ok(crossed) => Ok(
            Attempt::Moves(FsMove { item, from: from.to_owned(), to: to.to_owned(), crossed }),
        ),
        Err(e) => Err(e),
    }
}

// ---------------------------------------------------------------------------
// Making a plan
// ---------------------------------------------------------------------------

/// What the pairs of an edit do to the one file of an item: where they move it, and which
/// attributes they set, in order. The first pair that cannot be carried out fails.
pub open spec fn file_effects(
    item: ItemId,
    from: Seq<char>,
    nodes: Seq<ResolvedModel>,
    reg: Seq<tag::TagFnModel>,
    times: Seq<TimeText>,
) -> Result<(Location, Seq<AttrModel>), EditErrorModel>
    decreases nodes.len(),
{
    if nodes.len() == 0 {
        Ok((path::located(from), seq![]))
    } else {
        match file_effects(item, from, nodes.drop_last(), reg, times) {
            Err(e) => Err(e),
            Ok(done) => file_effect(done, item, from, nodes.last(), reg, times),
        }
    }
}

/// What one more pair adds to what the pairs before it do.
pub open spec fn file_effect(
    done: (Location, Seq<AttrModel>),
    item: ItemId,
    from: Seq<char>,
    n: ResolvedModel,
    reg: Seq<tag::TagFnModel>,
    times: Seq<TimeText>,
) -> Result<(Location, Seq<AttrModel>), EditErrorModel> {
    if !on_files(n.strategy) {
        Ok(done)
    } else {
        match n.label {
            None => Err(EditErrorModel::NeedsValue(n.tag_type.name())),
            Some(v) => if n.strategy == EditStrategy::Relocate {
                Ok(
                    (
                        with_parts(done.0, components_of(reg, n.tag_type.name()), v.shown()),
                        done.1,
                    ),
                )
            } else {
                match attribute(reg, times, n.tag_type.name(), v) {
                    Err(e) => Err(e),
                    Ok(attr) => Ok((done.0, done.1.push(AttrModel { item, from, attr }))),
                }
            },
        }
    }
}

proof fn lemma_file_effects_error(
    item: ItemId,
    from: Seq<char>,
    nodes: Seq<ResolvedModel>,
    k: int,
    reg: Seq<tag::TagFnModel>,
    times: Seq<TimeText>,
)
    requires
        0 <= k <= nodes.len(),
        file_effects(item, from, nodes.take(k), reg, times) is Err,
    ensures
        file_effects(item, from, nodes, reg, times) == file_effects(
            item,
            from,
            nodes.take(k),
            reg,
            times,
        ),
    decreases nodes.len(),
{
    if k == nodes.len() {
        assert(nodes.take(k) =~= nodes);
    } else {
        assert(nodes.drop_last().take(k) =~= nodes.take(k));
        lemma_file_effects_error(item, from, nodes.drop_last(), k, reg, times);
    }
}

fn file_work(
    item: ItemId,
    from: &str,
    nodes: &Vec<ResolvedNode>,
    registry: &TagRegistry,
    times: &Vec<TimeText>,
) -> (r: Result<(PathComponents, Vec<FsAttr>), EditError>)
    ensures
        match r {
            Ok(w) => file_effects(
                item,
                from@,
                modify::resolved_models(nodes@),
                registry@,
                times@,
            ) == Ok::<(Location, Seq<AttrModel>), EditErrorModel>((w.0@, attr_models(w.1@))),
            Err(e) => file_effects(
                item,
                from@,
                modify::resolved_models(nodes@),
                registry@,
                times@,
            ) == Err::<(Location, Seq<AttrModel>), EditErrorModel>(e@),
        },
{
    let ghost ns = modify::resolved_models(nodes@);
    let mut parts = PathComponents::decompose(from);
    let mut attrs: Vec<FsAttr> = Vec::new();
    let mut i: usize = 0;
    proof {
        assert(ns.take(0) =~= seq![]);
        assert(attr_models(attrs@) =~= seq![]);
    }
    while i < nodes.len()
        invariant
            i <= nodes@.len(),
            ns == modify::resolved_models(nodes@),
            file_effects(item, from@, ns.take(i as int), registry@, times@) == Ok::<
                (Location, Seq<AttrModel>),
                EditErrorModel,
            >((parts@, attr_models(attrs@))),
        decreases nodes@.len() - i,
    {
        let n = &nodes[i];
        proof {
            assert(ns.take(i + 1).drop_last() =~= ns.take(i as int));
            assert(ns.take(i + 1).last() == n@);
            if file_effects(item, from@, ns.take(i + 1), registry@, times@) is Err {
                lemma_file_effects_error(item, from@, ns, i + 1, registry@, times@);
            }
        }
        if is_fs_strategy(n.strategy) {
            match &n.label {
                None => {
                    return Err(EditError::NeedsValue(n.tag_type.as_str().to_owned()));
                },
                Some(l) => {
                    if n.strategy == EditStrategy::Relocate {
                        let comps = path_components(&n.tag_type, registry);
                        let v = l.as_str();
                        apply_node(&mut parts, &comps, v.as_str());
                    } else {
                        match file_attr_of(&n.tag_type, l, registry, times) {
                            Err(e) => {
                                return Err(e);
                            },
                            Ok(attr) => {
                                let a = FsAttr { item, from: from.to_owned(), attr };
                                proof {
                                    assert(attr_models(attrs@.push(a)) =~= attr_models(
                                        attrs@,
                                    ).push(a@));
                                }
                                attrs.push(a);
                            },
                        }
                    }
                },
            }
        }
        i += 1;
    }
    proof {
        assert(ns.take(ns.len() as int) =~= ns);
    }
    Ok((parts, attrs))
}

/// What comes of moving each of the paths of an item: the issues, and the moves that could
/// be made, both in order.
pub open spec fn tried(
    fs: Seq<FsEntry>,
    item: ItemId,
    paths: Seq<Seq<char>>,
    nodes: Seq<ResolvedModel>,
    reg: Seq<tag::TagFnModel>,
) -> Result<(Seq<IssueModel>, Seq<MoveModel>), FsErrorModel>
    decreases paths.len(),
{
    if paths.len() == 0 {
        Ok((seq![], seq![]))
    } else {
        match tried(fs, item, paths.drop_last(), nodes, reg) {
            Err(e) => Err(e),
            Ok(done) => tried_one(done, fs, item, paths.last(), nodes, reg),
        }
    }
}

/// What one more path adds.
pub open spec fn tried_one(
    done: (Seq<IssueModel>, Seq<MoveModel>),
    fs: Seq<FsEntry>,
    item: ItemId,
    from: Seq<char>,
    nodes: Seq<ResolvedModel>,
    reg: Seq<tag::TagFnModel>,
) -> Result<(Seq<IssueModel>, Seq<MoveModel>), FsErrorModel> {
    match relocated(path::located(from), nodes, reg) {
        Err(e) => Err(FsErrorModel::Edit(e)),
        Ok(l) => match outcome_of(fs, item, from, l.path()) {
            Err(e) => Err(e),
            Ok(Outcome::Stays) => Ok(done),
            Ok(Outcome::Blocked(i)) => Ok((done.0.push(i), done.1)),
            Ok(Outcome::Moves(m)) => Ok((done.0, done.1.push(m))),
        },
    }
}

proof fn lemma_tried_error(
    fs: Seq<FsEntry>,
    item: ItemId,
    paths: Seq<Seq<char>>,
    k: int,
    nodes: Seq<ResolvedModel>,
    reg: Seq<tag::TagFnModel>,
)
    requires
        0 <= k <= paths.len(),
        tried(fs, item, paths.take(k), nodes, reg) is Err,
    ensures
        tried(fs, item, paths, nodes, reg) == tried(fs, item, paths.take(k), nodes, reg),
    decreases paths.len(),
{
    if k == paths.len() {
        assert(paths.take(k) =~= paths);
    } else {
        assert(paths.drop_last().take(k) =~= paths.take(k));
        lemma_tried_error(fs, item, paths.drop_last(), k, nodes, reg);
    }
}

fn try_paths(
    fs: &FsSnapshot,
    item: ItemId,
    paths: &Vec<String>,
    nodes: &Vec<ResolvedNode>,
    registry: &TagRegistry,
) -> (r: Result<(Vec<FsIssue>, Vec<FsMove>), FsError>)
    ensures
        match r {
            Ok(w) => tried(
                fs.entries@,
                item,
                text::texts(paths@),
                modify::resolved_models(nodes@),
                registry@,
            ) == Ok::<(Seq<IssueModel>, Seq<MoveModel>), FsErrorModel>(
                (issue_models(w.0@), move_models(w.1@)),
            ),
            Err(e) => tried(
                fs.entries@,
                item,
                text::texts(paths@),
                modify::resolved_models(nodes@),
                registry@,
            ) == Err::<(Seq<IssueModel>, Seq<MoveModel>), FsErrorModel>(e@),
        },
{
    let ghost ps = text::texts(paths@);
    let ghost ns = modify::resolved_models(nodes@);
    let mut issues: Vec<FsIssue> = Vec::new();
    let mut moves: Vec<FsMove> = Vec::new();
    let mut i: usize = 0;
    proof {
        assert(ps.take(0) =~= seq![]);
        assert(issue_models(issues@) =~= seq![]);
        assert(move_models(moves@) =~= seq![]);
    }
    while i < paths.len()
        invariant
            i <= paths@.len(),
            ps == text::texts(paths@),
            ns == modify::resolved_models(nodes@),
            tried(fs.entries@, item, ps.take(i as int), ns, registry@) == Ok::<
                (Seq<IssueModel>, Seq<MoveModel>),
                FsErrorModel,
            >((issue_models(issues@), move_models(moves@))),
        decreases paths@.len() - i,
    {
        proof {
            assert(ps.take(i + 1).drop_last() =~= ps.take(i as int));
            assert(ps.take(i + 1).last() == paths@[i as int]@);
            if tried(fs.entries@, item, ps.take(i + 1), ns, registry@) is Err {
                lemma_tried_error(fs.entries@, item, ps, i + 1, ns, registry@);
            }
        }
        let parts = match relocate(paths[i].as_str(), nodes, registry) {
            Ok(p) => p,
            Err(e) => {
                return Err(FsError::Edit(e));
            },
        };
        let to = parts.join();
        match attempt(fs, item, paths[i].as_str(), to.as_str()) {
            Err(e) => {
                return Err(e);
            },
            Ok(Attempt::Stays) => {},
            Ok(Attempt::Blocked(issue)) => {
                proof {
                    assert(issue_models(issues@.push(issue)) =~= issue_models(issues@).push(
                        issue@,
                    ));
                }
                issues.push(issue);
            },
            Ok(Attempt::Moves(m)) => {
                proof {
                    lemma_moves_push(moves@, m);
                }
                moves.push(m);
            },
        }
        i += 1;
    }
    proof {
        assert(ps.take(ps.len() as int) =~= ps);
    }
    Ok((issues, moves))
}

pub open spec fn node_names(nodes: Seq<ResolvedModel>) -> Seq<Seq<char>> {
    nodes.map_values(|n: ResolvedModel| n.tag_type.name())
}

fn types_of(nodes: &Vec<ResolvedNode>) -> (r: Vec<TagType>)
    ensures
        type_names(r@) == node_names(modify::resolved_models(nodes@)),
{
    let mut r: Vec<TagType> = Vec::new();
    let mut i: usize = 0;
    while i < nodes.len()
        invariant
            i <= nodes@.len(),
            r@.len() == i,
            forall|k: int| 0 <= k < i ==> (#[trigger] r@[k])@ == nodes@[k].tag_type@,
        decreases nodes@.len() - i,
    {
        r.push(nodes[i].tag_type.clone());
        i += 1;
    }
    proof {
        assert(type_names(r@) =~= node_names(modify::resolved_models(nodes@)));
    }
    r
}

/// The plan after the file at `from` is to go to `to`. A directory that is missing is made.
pub open spec fn after_move(
    plan: PlanModel,
    fs: Seq<FsEntry>,
    item: ItemId,
    from: Seq<char>,
    to: Seq<char>,
) -> Result<PlanModel, FsErrorModel> {
    match outcome_of(fs, item, from, to) {
        Err(e) => Err(e),
        Ok(Outcome::Stays) => Ok(plan),
        Ok(Outcome::Blocked(i)) => Ok(plan.with_issue(i)),
        Ok(Outcome::Moves(m)) => Ok(
            PlanModel {
                mkdirs: if exists_at(fs, parent_or_empty(to)) {
                    plan.mkdirs
                } else {
                    plan.mkdirs.push(parent_or_empty(to))
                },
                moves: plan.moves.push(m),
                ..plan
            },
        ),
    }
}

fn verify(plan: &mut FsPlan, fs: &FsSnapshot, item: ItemId, from: &str, to: &str) -> (r: Result<
    (),
    FsError,
>)
    ensures
        match r {
            Ok(_) => after_move(old(plan)@, fs.entries@, item, from@, to@) == Ok::<
                PlanModel,
                FsErrorModel,
            >(final(plan)@),
            Err(e) => after_move(old(plan)@, fs.entries@, item, from@, to@) == Err::<
                PlanModel,
                FsErrorModel,
            >(e@),
        },
{
    match attempt(fs, item, from, to) {
        Err(e) => {
            return Err(e);
        },
        Ok(Attempt::Stays) => {},
        Ok(Attempt::Blocked(issue)) => {
            plan.push_issue(issue);
        },
        Ok(Attempt::Moves(m)) => {
            let parent = match path::parent(to) {
                Some(d) => d,
                None => String::new(),
            };
            if !fs.present(parent.as_str()) {
                proof {
                    text::lemma_texts_push(plan.mkdirs@, parent);
                }
                plan.mkdirs.push(parent);
            }
            proof {
                lemma_moves_push(plan.moves@, m);
            }
            plan.moves.push(m);
        },
    }
    Ok(())
}

/// An item with the pairs that are to be carried out on it: its id and its paths.
#[verifier::ext_equal]
pub struct InputModel {
    pub id: ItemId,
    pub paths: Seq<Seq<char>>,
    pub nodes: Seq<ResolvedModel>,
}

pub open spec fn input_model(item: Item, nodes: Seq<ResolvedModel>) -> InputModel {
    InputModel { id: item.id, paths: locations(item), nodes }
}

pub open spec fn input_models(v: Seq<(Item, Vec<ResolvedNode>)>) -> Seq<InputModel> {
    v.map_values(|i: (Item, Vec<ResolvedNode>)| input_model(i.0, modify::resolved_models(i.1@)))
}

/// The plan after an item with the pairs that are to be carried out on it.
pub open spec fn after_item(
    plan: PlanModel,
    input: InputModel,
    qt: QueryType,
    reg: Seq<tag::TagFnModel>,
    times: Seq<TimeText>,
    fs: Seq<FsEntry>,
) -> Result<PlanModel, FsErrorModel> {
    let id = input.id;
    let paths = input.paths;
    let nodes = input.nodes;
    if nodes.len() == 0 {
        Ok(plan)
    } else {
        match location_error(reg, node_names(nodes)) {
            Some(e) => Err(FsErrorModel::Edit(e)),
            None => if qt == QueryType::Untag {
                Ok(plan.with_issue(IssueModel::UntagPathUnsupported(id)))
            } else if paths.len() > 1 && moves_files(nodes) {
                match tried(fs, id, paths, nodes, reg) {
                    Err(e) => Err(e),
                    Ok(t) => Ok(
                        PlanModel {
                            issues: (plan.issues + t.0).push(
                                IssueModel::MultipleLocations(id, paths, t.1),
                            ),
                            ..plan
                        },
                    ),
                }
            } else if paths.len() == 0 && moves_files(nodes) {
                Ok(plan.with_issue(IssueModel::CreateUnsupported(id)))
            } else if paths.len() == 0 {
                Ok(plan.with_issue(IssueModel::NoLocation(id)))
            } else {
                match file_effects(id, paths[0], nodes, reg, times) {
                    Err(e) => Err(FsErrorModel::Edit(e)),
                    Ok(w) => after_move(
                        PlanModel { attrs: plan.attrs + w.1, ..plan },
                        fs,
                        id,
                        paths[0],
                        w.0.path(),
                    ),
                }
            },
        }
    }
}

fn append_issues(plan: &mut FsPlan, more: Vec<FsIssue>)
    ensures
        final(plan)@ == (PlanModel {
            issues: old(plan)@.issues + issue_models(more@),
            ..old(plan)@
        }),
{
    let ghost before = plan.issues@;
    let ghost added = more@;
    let mut more = more;
    plan.issues.append(&mut more);
    proof {
        assert(issue_models(plan.issues@) =~= issue_models(before) + issue_models(added));
    }
}

fn plan_item(
    plan: &mut FsPlan,
    item: &Item,
    nodes: &Vec<ResolvedNode>,
    query_type: QueryType,
    registry: &TagRegistry,
    times: &Vec<TimeText>,
    fs: &FsSnapshot,
) -> (r: Result<(), FsError>)
    ensures
        match r {
            Ok(_) => after_item(
                old(plan)@,
                input_model(*item, modify::resolved_models(nodes@)),
                query_type,
                registry@,
                times@,
                fs.entries@,
            ) == Ok::<PlanModel, FsErrorModel>(final(plan)@),
            Err(e) => after_item(
                old(plan)@,
                input_model(*item, modify::resolved_models(nodes@)),
                query_type,
                registry@,
                times@,
                fs.entries@,
            ) == Err::<PlanModel, FsErrorModel>(e@),
        },
{
    if nodes.len() == 0 {
        return Ok(());
    }
    match check_location_tag(&types_of(nodes), registry) {
        Ok(_) => {},
        Err(e) => {
            return Err(FsError::Edit(e));
        },
    }
    if query_type == QueryType::Untag {
        plan.push_issue(FsIssue::UntagPathUnsupported(item.id));
        return Ok(());
    }
    let paths = location_paths(item);
    let moving = writes_path(nodes);
    if paths.len() > 1 && moving {
        match try_paths(fs, item.id, &paths, nodes, registry) {
            Err(e) => {
                return Err(e);
            },
            Ok((issues, moves)) => {
                append_issues(plan, issues);
                plan.push_issue(FsIssue::MultipleLocations(item.id, paths, moves));
                return Ok(());
            },
        }
    }
    if paths.len() == 0 {
        if moving {
            plan.push_issue(FsIssue::CreateUnsupported(item.id));
        } else {
            plan.push_issue(FsIssue::NoLocation(item.id));
        }
        return Ok(());
    }
    proof {
        assert(text::texts(paths@)[0] == paths@[0]@);
    }
    match file_work(item.id, paths[0].as_str(), nodes, registry, times) {
        Err(e) => Err(FsError::Edit(e)),
        Ok((parts, attrs)) => {
            let ghost before = plan.attrs@;
            let ghost added = attrs@;
            let mut attrs = attrs;
            plan.attrs.append(&mut attrs);
            proof {
                assert(attr_models(plan.attrs@) =~= attr_models(before) + attr_models(added));
            }
            let to = parts.join();
            verify(plan, fs, item.id, paths[0].as_str(), to.as_str())
        },
    }
}

/// The plan for a list of items, each with the pairs to carry out on it.
pub open spec fn after_items(
    inputs: Seq<InputModel>,
    qt: QueryType,
    reg: Seq<tag::TagFnModel>,
    times: Seq<TimeText>,
    fs: Seq<FsEntry>,
) -> Result<PlanModel, FsErrorModel>
    decreases inputs.len(),
{
    if inputs.len() == 0 {
        Ok(PlanModel::nothing())
    } else {
        match after_items(inputs.drop_last(), qt, reg, times, fs) {
            Err(e) => Err(e),
            Ok(plan) => after_item(plan, inputs.last(), qt, reg, times, fs),
        }
    }
}

proof fn lemma_after_items_error(
    inputs: Seq<InputModel>,
    k: int,
    qt: QueryType,
    reg: Seq<tag::TagFnModel>,
    times: Seq<TimeText>,
    fs: Seq<FsEntry>,
)
    requires
        0 <= k <= inputs.len(),
        after_items(inputs.take(k), qt, reg, times, fs) is Err,
    ensures
        after_items(inputs, qt, reg, times, fs) == after_items(
            inputs.take(k),
            qt,
            reg,
            times,
            fs,
        ),
    decreases inputs.len(),
{
    if k == inputs.len() {
        assert(inputs.take(k) =~= inputs);
    } else {
        assert(inputs.drop_last().take(k) =~= inputs.take(k));
        lemma_after_items_error(inputs.drop_last(), k, qt, reg, times, fs);
    }
}

/// What stands in the way of a move that the others do not allow: a target inside of its
/// own source, or one that is the source of another move.
pub open spec fn verdict(moves: Seq<MoveModel>, m: MoveModel) -> Option<IssueModel> {
    if path::within(path::parsed(m.to), path::parsed(m.from)) {
        Some(IssueModel::TargetInsideSource(m.item, m.from, m.to))
    } else if exists|k: int| 0 <= k < moves.len() && path::same((#[trigger] moves[k]).from, m.to) {
        Some(IssueModel::ChainedMove(m.item, m.to))
    } else {
        None
    }
}

/// The issues that the moves of a plan raise among themselves, in order.
pub open spec fn verdicts(all: Seq<MoveModel>, moves: Seq<MoveModel>) -> Seq<IssueModel>
    decreases moves.len(),
{
    if moves.len() == 0 {
        seq![]
    } else {
        match verdict(all, moves.last()) {
            Some(i) => verdicts(all, moves.drop_last()).push(i),
            None => verdicts(all, moves.drop_last()),
        }
    }
}

/// The moves that the others allow.
pub open spec fn allowed(all: Seq<MoveModel>, moves: Seq<MoveModel>) -> Seq<MoveModel> {
    moves.filter(|m: MoveModel| verdict(all, m) is None)
}

/// A plan without the moves that the others do not allow, and with an issue for each.
pub open spec fn sorted_out(plan: PlanModel) -> PlanModel {
    PlanModel {
        moves: allowed(plan.moves, plan.moves),
        issues: plan.issues + verdicts(plan.moves, plan.moves),
        ..plan
    }
}

fn classify_one(moves: &Vec<FsMove>, m: &FsMove) -> (r: Option<FsIssue>)
    ensures
        match r {
            Some(i) => verdict(move_models(moves@), m@) == Some(i@),
            None => verdict(move_models(moves@), m@) is None,
        },
{
    if path::starts_with(m.to.as_str(), m.from.as_str()) {
        return Some(FsIssue::TargetInsideSource(m.item, m.from.clone(), m.to.clone()));
    }
    let ghost ms = move_models(moves@);
    let mut i: usize = 0;
    while i < moves.len()
        invariant
            i <= moves@.len(),
            ms == move_models(moves@),
            forall|k: int| 0 <= k < i ==> !path::same((#[trigger] ms[k]).from, m@.to),
            !path::within(path::parsed(m@.to), path::parsed(m@.from)),
        decreases moves@.len() - i,
    {
        if path::same_path(moves[i].from.as_str(), m.to.as_str()) {
            proof {
                assert(path::same(ms[i as int].from, m@.to));
            }
            return Some(FsIssue::ChainedMove(m.item, m.to.clone()));
        }
        i += 1;
    }
    None
}

fn classify_targets(plan: &mut FsPlan)
    ensures
        final(plan)@ == sorted_out(old(plan)@),
{
    let ghost before = plan@;
    let ghost all = plan@.moves;
    let ghost start = plan@.issues;
    let ghost p = |m: MoveModel| verdict(all, m) is None;
    let mut moves: Vec<FsMove> = Vec::new();
    std::mem::swap(&mut moves, &mut plan.moves);
    let mut kept: Vec<FsMove> = Vec::new();
    let mut found: Vec<FsIssue> = Vec::new();
    let mut i: usize = 0;
    proof {
        reveal(Seq::filter);
        assert(move_models(kept@) =~= all.take(0).filter(p));
        assert(issue_models(found@) =~= verdicts(all, all.take(0)));
    }
    while i < moves.len()
        invariant
            i <= moves@.len(),
            all == move_models(moves@),
            p == (|m: MoveModel| verdict(all, m) is None),
            move_models(kept@) == all.take(i as int).filter(p),
            issue_models(found@) == verdicts(all, all.take(i as int)),
        decreases moves@.len() - i,
    {
        proof {
            reveal(Seq::filter);
            assert(all.take(i + 1).drop_last() =~= all.take(i as int));
            assert(all.take(i + 1).last() == moves@[i as int]@);
        }
        match classify_one(&moves, &moves[i]) {
            Some(issue) => {
                proof {
                    assert(issue_models(found@.push(issue)) =~= issue_models(found@).push(issue@));
                }
                found.push(issue);
            },
            None => {
                let m = moves[i].clone();
                proof {
                    lemma_moves_push(kept@, m);
                }
                kept.push(m);
            },
        }
        i += 1;
    }
    proof {
        assert(all.take(all.len() as int) =~= all);
    }
    plan.moves = kept;
    append_issues(plan, found);
}

/// The bytes that moves to other devices need, by the directory that exists on the way to
/// their target.
pub open spec fn with_bytes(totals: Seq<(Seq<char>, nat)>, dir: Seq<char>, size: nat) -> Seq<
    (Seq<char>, nat),
>
    decreases totals.len(),
{
    if totals.len() == 0 {
        seq![(dir, size)]
    } else if path::same(totals[0].0, dir) {
        seq![(totals[0].0, totals[0].1 + size)] + totals.skip(1)
    } else {
        seq![totals[0]] + with_bytes(totals.skip(1), dir, size)
    }
}

pub open spec fn size_at(fs: Seq<FsEntry>, p: Seq<char>) -> Option<u64> {
    match entry_at(fs, p) {
        Some(e) => e.size,
        None => None,
    }
}

pub open spec fn bytes_needed(fs: Seq<FsEntry>, moves: Seq<MoveModel>) -> Result<
    Seq<(Seq<char>, nat)>,
    FsErrorModel,
>
    decreases moves.len(),
{
    if moves.len() == 0 {
        Ok(seq![])
    } else {
        match bytes_needed(fs, moves.drop_last()) {
            Err(e) => Err(e),
            Ok(totals) => if !moves.last().crossed {
                Ok(totals)
            } else {
                match size_at(fs, moves.last().from) {
                    None => Err(FsErrorModel::NoSize(moves.last().from)),
                    Some(n) => Ok(with_bytes(totals, existing(fs, moves.last().to), n as nat)),
                }
            },
        }
    }
}

proof fn lemma_bytes_needed_error(fs: Seq<FsEntry>, moves: Seq<MoveModel>, k: int)
    requires
        0 <= k <= moves.len(),
        bytes_needed(fs, moves.take(k)) is Err,
    ensures
        bytes_needed(fs, moves) == bytes_needed(fs, moves.take(k)),
    decreases moves.len(),
{
    if k == moves.len() {
        assert(moves.take(k) =~= moves);
    } else {
        assert(moves.drop_last().take(k) =~= moves.take(k));
        lemma_bytes_needed_error(fs, moves.drop_last(), k);
    }
}

struct DirTotal {
    dir: String,
    bytes: u128,
}

spec fn total_models(v: Seq<DirTotal>) -> Seq<(Seq<char>, nat)> {
    v.map_values(|t: DirTotal| (t.dir@, t.bytes as nat))
}

proof fn lemma_with_bytes(totals: Seq<(Seq<char>, nat)>, k: int, dir: Seq<char>, size: nat)
    requires
        0 <= k <= totals.len(),
        forall|j: int| 0 <= j < k ==> !path::same((#[trigger] totals[j]).0, dir),
        k < totals.len() ==> path::same(totals[k].0, dir),
    ensures
        k < totals.len() ==> with_bytes(totals, dir, size) == totals.update(
            k,
            (totals[k].0, totals[k].1 + size),
        ),
        k == totals.len() ==> with_bytes(totals, dir, size) == totals.push((dir, size)),
    decreases totals.len(),
{
    if totals.len() == 0 {
        assert(with_bytes(totals, dir, size) =~= totals.push((dir, size)));
    } else if k == 0 {
        assert(with_bytes(totals, dir, size) =~= totals.update(
            0,
            (totals[0].0, totals[0].1 + size),
        ));
    } else {
        let rest = totals.skip(1);
        assert forall|j: int| 0 <= j < k - 1 implies !path::same(
            (#[trigger] rest[j]).0,
            dir,
        ) by {
            assert(rest[j] == totals[j + 1]);
        }
        lemma_with_bytes(rest, k - 1, dir, size);
        assert(!path::same(totals[0].0, dir));
        if k < totals.len() {
            assert(with_bytes(totals, dir, size) =~= totals.update(
                k,
                (totals[k].0, totals[k].1 + size),
            ));
        } else {
            assert(with_bytes(totals, dir, size) =~= totals.push((dir, size)));
        }
    }
}

fn add_bytes(totals: &mut Vec<DirTotal>, dir: String, size: u64, Ghost(cap): Ghost<int>)
    requires
        forall|k: int| 0 <= k < old(totals)@.len() ==> (#[trigger] old(totals)@[k]).bytes <= cap,
        0 <= cap <= u128::MAX - u64::MAX,
    ensures
        total_models(final(totals)@) == with_bytes(
            total_models(old(totals)@),
            dir@,
            size as nat,
        ),
        forall|k: int|
            0 <= k < final(totals)@.len() ==> (#[trigger] final(totals)@[k]).bytes <= cap
                + u64::MAX,
{
    let ghost before = total_models(totals@);
    let mut i: usize = 0;
    while i < totals.len()
        invariant
            i <= totals@.len(),
            before == total_models(totals@),
            before == total_models(old(totals)@),
            forall|k: int| 0 <= k < totals@.len() ==> (#[trigger] totals@[k]).bytes <= cap,
            0 <= cap <= u128::MAX - u64::MAX,
            forall|j: int| 0 <= j < i ==> !path::same((#[trigger] before[j]).0, dir@),
        decreases totals@.len() - i,
    {
        if path::same_path(totals[i].dir.as_str(), dir.as_str()) {
            let ghost v = totals@;
            let t = DirTotal {
                dir: totals[i].dir.clone(),
                bytes: totals[i].bytes + size as u128,
            };
            proof {
                lemma_with_bytes(before, i as int, dir@, size as nat);
                assert(total_models(v.update(i as int, t)) =~= before.update(
                    i as int,
                    (before[i as int].0, before[i as int].1 + size as nat),
                ));
            }
            totals.set(i, t);
            return ;
        }
        i += 1;
    }
    proof {
        lemma_with_bytes(before, i as int, dir@, size as nat);
    }
    let ghost v = totals@;
    let t = DirTotal { dir, bytes: size as u128 };
    proof {
        assert(total_models(v.push(t)) =~= before.push((dir@, size as nat)));
    }
    totals.push(t);
}

fn bytes_per_target_dir(fs: &FsSnapshot, moves: &Vec<FsMove>) -> (r: Result<
    Vec<DirTotal>,
    FsError,
>)
    ensures
        match r {
            Ok(t) => bytes_needed(fs.entries@, move_models(moves@)) == Ok::<
                Seq<(Seq<char>, nat)>,
                FsErrorModel,
            >(total_models(t@)),
            Err(e) => bytes_needed(fs.entries@, move_models(moves@)) == Err::<
                Seq<(Seq<char>, nat)>,
                FsErrorModel,
            >(e@),
        },
{
    let ghost ms = move_models(moves@);
    let mut totals: Vec<DirTotal> = Vec::new();
    let mut i: usize = 0;
    proof {
        assert(ms.take(0) =~= seq![]);
        assert(total_models(totals@) =~= seq![]);
    }
    while i < moves.len()
        invariant
            i <= moves@.len(),
            ms == move_models(moves@),
            bytes_needed(fs.entries@, ms.take(i as int)) == Ok::<
                Seq<(Seq<char>, nat)>,
                FsErrorModel,
            >(total_models(totals@)),
            forall|k: int|
                0 <= k < totals@.len() ==> (#[trigger] totals@[k]).bytes <= i * (u64::MAX as int),
        decreases moves@.len() - i,
    {
        proof {
            assert(ms.take(i + 1).drop_last() =~= ms.take(i as int));
            assert(ms.take(i + 1).last() == moves@[i as int]@);
            if bytes_needed(fs.entries@, ms.take(i + 1)) is Err {
                lemma_bytes_needed_error(fs.entries@, ms, i + 1);
            }
            assert((i + 1) * (u64::MAX as int) == i * (u64::MAX as int) + u64::MAX)
                by (nonlinear_arith);
            assert(i * (u64::MAX as int) <= u64::MAX * (u64::MAX as int)) by (nonlinear_arith)
                requires
                    0 <= i <= u64::MAX,
            ;
        }
        let m = &moves[i];
        if m.crossed {
            let dir = existing_parent(fs, m.to.as_str());
            let size = match fs.find(m.from.as_str()) {
                Some(e) => e.size,
                None => None,
            };
            match size {
                None => {
                    return Err(FsError::NoSize(m.from.clone()));
                },
                Some(n) => {
                    add_bytes(&mut totals, dir, n, Ghost(i * (u64::MAX as int)));
                },
            }
        }
        i += 1;
    }
    proof {
        assert(ms.take(ms.len() as int) =~= ms);
    }
    Ok(totals)
}

pub open spec fn available_at(fs: Seq<FsEntry>, p: Seq<char>) -> Option<u64> {
    match entry_at(fs, p) {
        Some(e) => e.available,
        None => None,
    }
}

/// A number of bytes as it is told: capped at what sixty-four bits hold.
pub open spec fn told(n: nat) -> u64 {
    if n > u64::MAX {
        u64::MAX
    } else {
        n as u64
    }
}

/// The issues for directories that have too little space, in order.
pub open spec fn space_issues(fs: Seq<FsEntry>, totals: Seq<(Seq<char>, nat)>) -> Result<
    Seq<IssueModel>,
    FsErrorModel,
>
    decreases totals.len(),
{
    if totals.len() == 0 {
        Ok(seq![])
    } else {
        match space_issues(fs, totals.drop_last()) {
            Err(e) => Err(e),
            Ok(issues) => match available_at(fs, totals.last().0) {
                None => Err(FsErrorModel::NoSpace(totals.last().0)),
                Some(n) => if n < totals.last().1 {
                    Ok(
                        issues.push(
                            IssueModel::NotEnoughSpace(totals.last().0, told(totals.last().1)),
                        ),
                    )
                } else {
                    Ok(issues)
                },
            },
        }
    }
}

proof fn lemma_space_issues_error(fs: Seq<FsEntry>, totals: Seq<(Seq<char>, nat)>, k: int)
    requires
        0 <= k <= totals.len(),
        space_issues(fs, totals.take(k)) is Err,
    ensures
        space_issues(fs, totals) == space_issues(fs, totals.take(k)),
    decreases totals.len(),
{
    if k == totals.len() {
        assert(totals.take(k) =~= totals);
    } else {
        assert(totals.drop_last().take(k) =~= totals.take(k));
        lemma_space_issues_error(fs, totals.drop_last(), k);
    }
}

/// A plan with the issues for directories that have too little space.
pub open spec fn measured(fs: Seq<FsEntry>, plan: PlanModel) -> Result<PlanModel, FsErrorModel> {
    match bytes_needed(fs, plan.moves) {
        Err(e) => Err(e),
        Ok(totals) => match space_issues(fs, totals) {
            Err(e) => Err(e),
            Ok(issues) => Ok(PlanModel { issues: plan.issues + issues, ..plan }),
        },
    }
}

fn check_free_space(plan: &mut FsPlan, fs: &FsSnapshot) -> (r: Result<(), FsError>)
    ensures
        match r {
            Ok(_) => measured(fs.entries@, old(plan)@) == Ok::<PlanModel, FsErrorModel>(
                final(plan)@,
            ),
            Err(e) => measured(fs.entries@, old(plan)@) == Err::<PlanModel, FsErrorModel>(e@),
        },
{
    let totals = match bytes_per_target_dir(fs, &plan.moves) {
        Ok(t) => t,
        Err(e) => {
            return Err(e);
        },
    };
    let ghost ts = total_models(totals@);
    let mut found: Vec<FsIssue> = Vec::new();
    let mut i: usize = 0;
    proof {
        assert(ts.take(0) =~= seq![]);
        assert(issue_models(found@) =~= seq![]);
    }
    while i < totals.len()
        invariant
            i <= totals@.len(),
            ts == total_models(totals@),
            bytes_needed(fs.entries@, old(plan)@.moves) == Ok::<
                Seq<(Seq<char>, nat)>,
                FsErrorModel,
            >(ts),
            space_issues(fs.entries@, ts.take(i as int)) == Ok::<Seq<IssueModel>, FsErrorModel>(
                issue_models(found@),
            ),
        decreases totals@.len() - i,
    {
        let t = &totals[i];
        proof {
            assert(ts.take(i + 1).drop_last() =~= ts.take(i as int));
            assert(ts.take(i + 1).last() == (t.dir@, t.bytes as nat));
            if space_issues(fs.entries@, ts.take(i + 1)) is Err {
                lemma_space_issues_error(fs.entries@, ts, i + 1);
            }
        }
        let available = match fs.find(t.dir.as_str()) {
            Some(e) => e.available,
            None => None,
        };
        match available {
            None => {
                return Err(FsError::NoSpace(t.dir.clone()));
            },
            Some(n) => {
                if (n as u128) < t.bytes {
                    let needed: u64 = if t.bytes > u64::MAX as u128 {
                        u64::MAX
                    } else {
                        t.bytes as u64
                    };
                    let issue = FsIssue::NotEnoughSpace(t.dir.clone(), needed);
                    proof {
                        assert(issue_models(found@.push(issue)) =~= issue_models(found@).push(
                            issue@,
                        ));
                    }
                    found.push(issue);
                }
            },
        }
        i += 1;
    }
    proof {
        assert(ts.take(ts.len() as int) =~= ts);
    }
    append_issues(plan, found);
    Ok(())
}

/// The plan for an edit of files: what is moved and set, and what stands in its way.
pub open spec fn planned(
    inputs: Seq<InputModel>,
    qt: QueryType,
    reg: Seq<tag::TagFnModel>,
    times: Seq<TimeText>,
    fs: Seq<FsEntry>,
) -> Result<PlanModel, FsErrorModel> {
    match after_items(inputs, qt, reg, times, fs) {
        Err(e) => Err(e),
        Ok(plan) => measured(fs, sorted_out(plan)),
    }
}

/// Makes the plan for an edit of files, from what is known of the file system.
pub fn plan_fs(
    registry: &TagRegistry,
    inputs: Vec<(Item, Vec<ResolvedNode>)>,
    query_type: QueryType,
    times: &Vec<TimeText>,
    fs: &FsSnapshot,
) -> (r: Result<FsPlan, FsError>)
    ensures
        match r {
            Ok(p) => planned(input_models(inputs@), query_type, registry@, times@, fs.entries@) == Ok::<
                PlanModel,
                FsErrorModel,
            >(p@),
            Err(e) => planned(input_models(inputs@), query_type, registry@, times@, fs.entries@) == Err::<
                PlanModel,
                FsErrorModel,
            >(e@),
        },
{
    let ghost ins = input_models(inputs@);
    let mut plan = FsPlan::default();
    let mut i: usize = 0;
    proof {
        assert(ins.take(0) =~= seq![]);
    }
    while i < inputs.len()
        invariant
            i <= inputs@.len(),
            ins == input_models(inputs@),
            after_items(ins.take(i as int), query_type, registry@, times@, fs.entries@)
                == Ok::<PlanModel, FsErrorModel>(plan@),
        decreases inputs@.len() - i,
    {
        proof {
            assert(ins.take(i + 1).drop_last() =~= ins.take(i as int));
            assert(ins.take(i + 1).last() == input_model(
                inputs@[i as int].0,
                modify::resolved_models(inputs@[i as int].1@),
            ));
            if after_items(ins.take(i + 1), query_type, registry@, times@, fs.entries@) is Err {
                lemma_after_items_error(
                    ins,
                    i + 1,
                    query_type,
                    registry@,
                    times@,
                    fs.entries@,
                );
            }
        }
        let input = &inputs[i];
        match plan_item(&mut plan, &input.0, &input.1, query_type, registry, times, fs) {
            Ok(_) => {},
            Err(e) => {
                return Err(e);
            },
        }
        i += 1;
    }
    proof {
        assert(ins.take(ins.len() as int) =~= ins);
    }
    classify_targets(&mut plan);
    match check_free_space(&mut plan, fs) {
        Ok(_) => Ok(plan),
        Err(e) => Err(e),
    }
}

// ---------------------------------------------------------------------------
// Carrying out a plan
// ---------------------------------------------------------------------------

/// A file that was moved.
#[derive(Debug)]
pub struct Moved {
    pub item: ItemId,
    pub to: String,
    pub crossed: bool,
}

/// A file whose attribute was set.
#[derive(Clone, Debug, PartialEq, Eq)]
pub struct AttrSet {
    pub item: ItemId,
    pub path: String,
}

/// What was done to files.
#[derive(Debug)]
pub struct FsOutcome {
    pub moved: Vec<Moved>,
    pub attrs_set: Vec<AttrSet>,
}

#[verifier::ext_equal]
pub struct MovedModel {
    pub item: ItemId,
    pub to: Seq<char>,
    pub crossed: bool,
}

#[verifier::ext_equal]
pub struct OutcomeModel {
    pub moved: Seq<MovedModel>,
    pub attrs_set: Seq<(ItemId, Seq<char>)>,
}

pub open spec fn moved_models(v: Seq<Moved>) -> Seq<MovedModel> {
    v.map_values(|m: Moved| MovedModel { item: m.item, to: m.to@, crossed: m.crossed })
}

pub open spec fn attr_set_models(v: Seq<AttrSet>) -> Seq<(ItemId, Seq<char>)> {
    v.map_values(|a: AttrSet| (a.item, a.path@))
}

impl View for FsOutcome {
    type V = OutcomeModel;

    open spec fn view(&self) -> OutcomeModel {
        OutcomeModel {
            moved: moved_models(self.moved@),
            attrs_set: attr_set_models(self.attrs_set@),
        }
    }
}

/// Where the first of the moved files of an item went.
pub open spec fn target_in(moved: Seq<MovedModel>, item: ItemId) -> Option<Seq<char>>
    decreases moved.len(),
{
    if moved.len() == 0 {
        None
    } else if moved[0].item == item {
        Some(moved[0].to)
    } else {
        target_in(moved.skip(1), item)
    }
}

/// The directories of the paths that have one, each once.
pub open spec fn dirs_of(paths: Seq<Seq<char>>) -> Seq<Seq<char>>
    decreases paths.len(),
{
    if paths.len() == 0 {
        seq![]
    } else {
        let before = dirs_of(paths.drop_last());
        match path::parent_of(paths.last()) {
            None => before,
            Some(d) => if holds_path(before, d) {
                before
            } else {
                before.push(d)
            },
        }
    }
}

pub open spec fn holds_path(paths: Seq<Seq<char>>, p: Seq<char>) -> bool {
    exists|k: int| 0 <= k < paths.len() && path::same(#[trigger] paths[k], p)
}

/// Whether a path is among others.
pub fn contains_path(paths: &Vec<String>, p: &str) -> (r: bool)
    ensures
        r == holds_path(text::texts(paths@), p@),
{
    let ghost ps = text::texts(paths@);
    let mut i: usize = 0;
    while i < paths.len()
        invariant
            i <= paths@.len(),
            ps == text::texts(paths@),
            forall|k: int| 0 <= k < i ==> !path::same(#[trigger] ps[k], p@),
        decreases paths@.len() - i,
    {
        if path::same_path(paths[i].as_str(), p) {
            proof {
                assert(path::same(ps[i as int], p@));
            }
            return true;
        }
        i += 1;
    }
    false
}

fn add_dir(dirs: &mut Vec<String>, p: &str, Ghost(before): Ghost<Seq<Seq<char>>>)
    requires
        text::texts(old(dirs)@) == dirs_of(before),
    ensures
        text::texts(final(dirs)@) == dirs_of(before.push(p@)),
{
    proof {
        assert(before.push(p@).drop_last() =~= before);
    }
    match path::parent(p) {
        None => {},
        Some(d) => {
            if !contains_path(dirs, d.as_str()) {
                proof {
                    text::lemma_texts_push(dirs@, d);
                }
                dirs.push(d);
            }
        },
    }
}

/// The paths that carrying out a plan touched: targets, sources, and files with a new
/// attribute.
pub open spec fn touched(o: OutcomeModel, plan: PlanModel) -> Seq<Seq<char>> {
    o.moved.map_values(|m: MovedModel| m.to) + plan.moves.map_values(|m: MoveModel| m.from)
        + o.attrs_set.map_values(|a: (ItemId, Seq<char>)| a.1)
}

/// The new location of each file that went to another device.
pub open spec fn crossed_over(moved: Seq<MovedModel>) -> Seq<MovedModel> {
    moved.filter(|m: MovedModel| m.crossed)
}

impl Default for FsOutcome {
    fn default() -> (r: Self)
        ensures
            r@ == (OutcomeModel { moved: seq![], attrs_set: seq![] }),
    {
        let r = FsOutcome { moved: Vec::new(), attrs_set: Vec::new() };
        proof {
            assert(r@ =~= (OutcomeModel { moved: seq![], attrs_set: seq![] }));
        }
        r
    }
}

impl FsOutcome {
    /// Where a file of an item went.
    pub fn target_of(&self, item: &ItemId) -> (r: Option<&String>)
        ensures
            match r {
                Some(s) => target_in(self@.moved, *item) == Some(s@),
                None => target_in(self@.moved, *item) is None,
            },
    {
        let ghost ms = self@.moved;
        let mut i: usize = 0;
        proof {
            assert(ms.skip(0) =~= ms);
        }
        while i < self.moved.len()
            invariant
                i <= self.moved@.len(),
                ms == self@.moved,
                target_in(ms, *item) == target_in(ms.skip(i as int), *item),
            decreases self.moved@.len() - i,
        {
            proof {
                assert(ms.skip(i as int).skip(1) =~= ms.skip(i + 1));
            }
            if self.moved[i].item == *item {
                return Some(&self.moved[i].to);
            }
            i += 1;
        }
        None
    }

    /// How many files were moved or set.
    pub fn count(&self) -> (r: usize)
        requires
            self@.moved.len() + self@.attrs_set.len() <= usize::MAX,
        ensures
            r == self@.moved.len() + self@.attrs_set.len(),
    {
        self.moved.len() + self.attrs_set.len()
    }

    pub fn is_empty(&self) -> (r: bool)
        ensures
            r == (self@.moved.len() == 0 && self@.attrs_set.len() == 0),
    {
        self.moved.len() == 0 && self.attrs_set.len() == 0
    }

    /// The directories that are to be looked at again after a plan was carried out.
    pub fn touched_dirs(&self, plan: &FsPlan) -> (r: Vec<String>)
        ensures
            text::texts(r@) == dirs_of(touched(self@, plan@)),
    {
        let ghost all = touched(self@, plan@);
        let ghost a = self@.moved.len() as int;
        let ghost b = plan@.moves.len() as int;
        let mut dirs: Vec<String> = Vec::new();
        let mut i: usize = 0;
        proof {
            assert(all.take(0) =~= seq![]);
            assert(text::texts(dirs@) =~= seq![]);
        }
        while i < self.moved.len()
            invariant
                i <= self.moved@.len(),
                all == touched(self@, plan@),
                text::texts(dirs@) == dirs_of(all.take(i as int)),
            decreases self.moved@.len() - i,
        {
            add_dir(&mut dirs, self.moved[i].to.as_str(), Ghost(all.take(i as int)));
            proof {
                assert(all[i as int] == self.moved@[i as int].to@);
                assert(all.take(i + 1) =~= all.take(i as int).push(all[i as int]));
            }
            i += 1;
        }
        i = 0;
        while i < plan.moves.len()
            invariant
                i <= plan.moves@.len(),
                all == touched(self@, plan@),
                a == self@.moved.len(),
                text::texts(dirs@) == dirs_of(all.take(a + i)),
            decreases plan.moves@.len() - i,
        {
            add_dir(&mut dirs, plan.moves[i].from.as_str(), Ghost(all.take(a + i)));
            proof {
                assert(all[a + i] == plan.moves@[i as int].from@);
                assert(all.take(a + i + 1) =~= all.take(a + i).push(all[a + i]));
            }
            i += 1;
        }
        i = 0;
        while i < self.attrs_set.len()
            invariant
                i <= self.attrs_set@.len(),
                all == touched(self@, plan@),
                a == self@.moved.len(),
                b == plan@.moves.len(),
                text::texts(dirs@) == dirs_of(all.take(a + b + i)),
            decreases self.attrs_set@.len() - i,
        {
            add_dir(&mut dirs, self.attrs_set[i].path.as_str(), Ghost(all.take(a + b + i)));
            proof {
                assert(all[a + b + i] == self.attrs_set@[i as int].path@);
                assert(all.take(a + b + i + 1) =~= all.take(a + b + i).push(all[a + b + i]));
            }
            i += 1;
        }
        proof {
            assert(all.take(all.len() as int) =~= all);
        }
        dirs
    }

    /// The stored id and the new location of each file that went to another device: there
    /// its file reference is a new one.
    pub fn rebindings(&self) -> (r: Vec<(i64, String)>)
        ensures
            r@.len() == crossed_over(self@.moved).len(),
            forall|k: int|
                0 <= k < r@.len() ==> (#[trigger] r@[k]).0 == crossed_over(
                    self@.moved,
                )[k].item.raw() && r@[k].1@ == crossed_over(self@.moved)[k].to,
    {
        let ghost ms = self@.moved;
        let ghost p = |m: MovedModel| m.crossed;
        let mut r: Vec<(i64, String)> = Vec::new();
        let mut i: usize = 0;
        proof {
            reveal(Seq::filter);
            assert(ms.take(0).filter(p) =~= seq![]);
        }
        while i < self.moved.len()
            invariant
                i <= self.moved@.len(),
                ms == self@.moved,
                p == (|m: MovedModel| m.crossed),
                r@.len() == ms.take(i as int).filter(p).len(),
                forall|k: int|
                    0 <= k < r@.len() ==> (#[trigger] r@[k]).0 == ms.take(i as int).filter(
                        p,
                    )[k].item.raw() && r@[k].1@ == ms.take(i as int).filter(p)[k].to,
            decreases self.moved@.len() - i,
        {
            let m = &self.moved[i];
            proof {
                reveal(Seq::filter);
                assert(ms.take(i + 1).drop_last() =~= ms.take(i as int));
                assert(ms.take(i + 1).last() == ms[i as int]);
            }
            if m.crossed {
                r.push((m.item.as_i64(), m.to.clone()));
            }
            i += 1;
        }
        proof {
            assert(ms.take(ms.len() as int) =~= ms);
        }
        r
    }

    /// The message for a plan that failed half way: where it failed and what was done.
    pub fn abort_message(&self, failed: &str, cause: &str) -> (r: String)
        ensures
            r@ == "failed on "@ + text::debugged(failed@) + ": "@ + cause@
                + "\ncompleted before the failure:\n"@ + text::joined(
                quoted_all(self@.moved.map_values(|m: MovedModel| m.to)),
                "\n"@,
            ),
    {
        let mut targets: Vec<String> = Vec::new();
        let mut i: usize = 0;
        while i < self.moved.len()
            invariant
                i <= self.moved@.len(),
                targets@.len() == i,
                forall|k: int| 0 <= k < i ==> (#[trigger] targets@[k])@ == self.moved@[k].to@,
            decreases self.moved@.len() - i,
        {
            targets.push(self.moved[i].to.clone());
            i += 1;
        }
        proof {
            assert(text::texts(targets@) =~= self@.moved.map_values(|m: MovedModel| m.to));
        }
        let quoted = quote_all(&targets);
        let mut s = cat3("failed on ", show_debug(failed).as_str(), ": ");
        s.push_str(cause);
        s.push_str("\ncompleted before the failure:\n");
        s.push_str(text::join(&quoted, "\n").as_str());
        s
    }
}

/// The next thing to do on disk.
#[derive(Debug)]
pub enum FsStep {
    MakeDir(String),
    Rename(String, String),
    CopyAndDelete(String, String),
    SetAttr(String, FileAttr),
    Finish,
}

pub enum StepModel {
    MakeDir(Seq<char>),
    Rename(Seq<char>, Seq<char>),
    CopyAndDelete(Seq<char>, Seq<char>),
    SetAttr(Seq<char>, FileAttr),
    Finish,
}

impl View for FsStep {
    type V = StepModel;

    open spec fn view(&self) -> StepModel {
        match *self {
            FsStep::MakeDir(p) => StepModel::MakeDir(p@),
            FsStep::Rename(a, b) => StepModel::Rename(a@, b@),
            FsStep::CopyAndDelete(a, b) => StepModel::CopyAndDelete(a@, b@),
            FsStep::SetAttr(p, a) => StepModel::SetAttr(p@, a),
            FsStep::Finish => StepModel::Finish,
        }
    }
}

/// How far a plan has been carried out.
#[derive(Debug)]
pub struct FsProgress {
    pub dirs_made: usize,
    pub outcome: FsOutcome,
}

#[verifier::ext_equal]
pub struct ProgressModel {
    pub dirs_made: nat,
    pub outcome: OutcomeModel,
}

impl View for FsProgress {
    type V = ProgressModel;

    open spec fn view(&self) -> ProgressModel {
        ProgressModel { dirs_made: self.dirs_made as nat, outcome: self.outcome@ }
    }
}

impl ProgressModel {
    pub open spec fn start() -> ProgressModel {
        ProgressModel { dirs_made: 0, outcome: OutcomeModel { moved: seq![], attrs_set: seq![] } }
    }

    /// The file whose attribute `a` sets: the item's target where it was moved.
    pub open spec fn file_of(self, a: AttrModel) -> Seq<char> {
        match target_in(self.outcome.moved, a.item) {
            Some(p) => p,
            None => a.from,
        }
    }

    /// The next step of a plan: directories, then moves, then attributes.
    pub open spec fn next(self, plan: PlanModel) -> StepModel {
        if self.dirs_made < plan.mkdirs.len() {
            StepModel::MakeDir(plan.mkdirs[self.dirs_made as int])
        } else if self.outcome.moved.len() < plan.moves.len() {
            let m = plan.moves[self.outcome.moved.len() as int];
            if m.crossed {
                StepModel::CopyAndDelete(m.from, m.to)
            } else {
                StepModel::Rename(m.from, m.to)
            }
        } else if self.outcome.attrs_set.len() < plan.attrs.len() {
            let a = plan.attrs[self.outcome.attrs_set.len() as int];
            StepModel::SetAttr(self.file_of(a), a.attr)
        } else {
            StepModel::Finish
        }
    }

    /// The progress after the next step succeeded.
    pub open spec fn after_step(self, plan: PlanModel) -> ProgressModel {
        match self.next(plan) {
            StepModel::MakeDir(_) => ProgressModel { dirs_made: self.dirs_made + 1, ..self },
            StepModel::Rename(_, _) | StepModel::CopyAndDelete(_, _) => {
                let m = plan.moves[self.outcome.moved.len() as int];
                ProgressModel {
                    outcome: OutcomeModel {
                        moved: self.outcome.moved.push(
                            MovedModel { item: m.item, to: m.to, crossed: m.crossed },
                        ),
                        ..self.outcome
                    },
                    ..self
                }
            },
            StepModel::SetAttr(p, _) => {
                let a = plan.attrs[self.outcome.attrs_set.len() as int];
                ProgressModel {
                    outcome: OutcomeModel {
                        attrs_set: self.outcome.attrs_set.push((a.item, p)),
                        ..self.outcome
                    },
                    ..self
                }
            },
            StepModel::Finish => self,
        }
    }

    /// The steps that are still to be done.
    pub open spec fn left(self, plan: PlanModel) -> int {
        (plan.mkdirs.len() - self.dirs_made) + (plan.moves.len() - self.outcome.moved.len())
            + (plan.attrs.len() - self.outcome.attrs_set.len())
    }

    /// Whether what was done is the start of what the plan says.
    pub open spec fn follows(self, plan: PlanModel) -> bool {
        &&& self.dirs_made <= plan.mkdirs.len()
        &&& self.outcome.moved.len() <= plan.moves.len()
        &&& self.outcome.attrs_set.len() <= plan.attrs.len()
        &&& self.outcome.attrs_set.len() > 0 ==> self.outcome.moved.len() == plan.moves.len()
        &&& self.outcome.moved.len() > 0 ==> self.dirs_made == plan.mkdirs.len()
        &&& forall|k: int|
            0 <= k < self.outcome.moved.len() ==> (#[trigger] self.outcome.moved[k]) == (
            MovedModel {
                item: plan.moves[k].item,
                to: plan.moves[k].to,
                crossed: plan.moves[k].crossed,
            })
        &&& forall|k: int|
            0 <= k < self.outcome.attrs_set.len() ==> (#[trigger] self.outcome.attrs_set[k]).0
                == plan.attrs[k].item && self.outcome.attrs_set[k].1 == self.file_of(plan.attrs[k])
    }
}

impl FsProgress {
    pub fn start() -> (r: Self)
        ensures
            r@ == ProgressModel::start(),
    {
        FsProgress { dirs_made: 0, outcome: FsOutcome::default() }
    }

    /// The next step of a plan.
    pub fn next_step(&self, plan: &FsPlan) -> (r: FsStep)
        ensures
            r@ == self@.next(plan@),
    {
        if self.dirs_made < plan.mkdirs.len() {
            FsStep::MakeDir(plan.mkdirs[self.dirs_made].clone())
        } else if self.outcome.moved.len() < plan.moves.len() {
            let m = &plan.moves[self.outcome.moved.len()];
            if m.crossed {
                FsStep::CopyAndDelete(m.from.clone(), m.to.clone())
            } else {
                FsStep::Rename(m.from.clone(), m.to.clone())
            }
        } else if self.outcome.attrs_set.len() < plan.attrs.len() {
            let a = &plan.attrs[self.outcome.attrs_set.len()];
            let p = match self.outcome.target_of(&a.item) {
                Some(t) => t.clone(),
                None => a.from.clone(),
            };
            FsStep::SetAttr(p, a.attr)
        } else {
            FsStep::Finish
        }
    }

    /// Notes that the next step of a plan succeeded.
    pub fn succeed(&mut self, plan: &FsPlan)
        ensures
            final(self)@ == old(self)@.after_step(plan@),
    {
        match self.next_step(plan) {
            FsStep::MakeDir(_) => {
                proof {
                    vstd::std_specs::vec::axiom_spec_len(&plan.mkdirs);
                    assert(self.dirs_made < plan.mkdirs.len());
                }
                self.dirs_made = self.dirs_made + 1;
            },
            FsStep::Rename(_, _) | FsStep::CopyAndDelete(_, _) => {
                let m = &plan.moves[self.outcome.moved.len()];
                let ghost before = self.outcome.moved@;
                let d = Moved { item: m.item, to: m.to.clone(), crossed: m.crossed };
                proof {
                    assert(moved_models(before.push(d)) =~= moved_models(before).push(
                        MovedModel { item: d.item, to: d.to@, crossed: d.crossed },
                    ));
                }
                self.outcome.moved.push(d);
            },
            FsStep::SetAttr(p, _) => {
                let a = &plan.attrs[self.outcome.attrs_set.len()];
                let ghost before = self.outcome.attrs_set@;
                let d = AttrSet { item: a.item, path: p };
                proof {
                    assert(attr_set_models(before.push(d)) =~= attr_set_models(before).push(
                        (d.item, d.path@),
                    ));
                }
                self.outcome.attrs_set.push(d);
            },
            FsStep::Finish => {},
        }
    }
}

// ---------------------------------------------------------------------------
// Laws
// ---------------------------------------------------------------------------

/// No move of a finished plan leads into its own source, and none leads to the source of
/// another move of the plan.
pub proof fn law_moves_do_not_clash(
    inputs: Seq<InputModel>,
    qt: QueryType,
    reg: Seq<tag::TagFnModel>,
    times: Seq<TimeText>,
    fs: Seq<FsEntry>,
    plan: PlanModel,
    a: int,
    b: int,
)
    requires
        planned(inputs, qt, reg, times, fs) == Ok::<PlanModel, FsErrorModel>(plan),
        0 <= a < plan.moves.len(),
        0 <= b < plan.moves.len(),
    ensures
        !path::within(path::parsed(plan.moves[a].to), path::parsed(plan.moves[a].from)),
        !path::same(plan.moves[b].from, plan.moves[a].to),
{
    let first = after_items(inputs, qt, reg, times, fs)->Ok_0;
    let all = first.moves;
    let p = |m: MoveModel| verdict(all, m) is None;
    assert(plan.moves == all.filter(p));
    lemma_filtered(all, p, a);
    lemma_filtered(all, p, b);
    assert(verdict(all, plan.moves[a]) is None);
    let k = choose|k: int| 0 <= k < all.len() && all[k] == all.filter(p)[b];
    assert(!path::same(all[k].from, plan.moves[a].to));
}

pub proof fn lemma_filtered(s: Seq<MoveModel>, p: spec_fn(MoveModel) -> bool, i: int)
    requires
        0 <= i < s.filter(p).len(),
    ensures
        p(s.filter(p)[i]),
        exists|k: int| 0 <= k < s.len() && s[k] == s.filter(p)[i],
    decreases s.len(),
{
    reveal(Seq::filter);
    if s.len() > 0 {
        let t = s.drop_last();
        if i < t.filter(p).len() {
            lemma_filtered(t, p, i);
            let k = choose|k: int| 0 <= k < t.len() && t[k] == t.filter(p)[i];
            assert(s[k] == s.filter(p)[i]);
        } else {
            assert(s[s.len() - 1] == s.filter(p)[i]);
        }
    }
}

/// Taking tags away never touches a file: it only raises issues.
pub proof fn law_untagging_moves_nothing(
    inputs: Seq<InputModel>,
    reg: Seq<tag::TagFnModel>,
    times: Seq<TimeText>,
    fs: Seq<FsEntry>,
    plan: PlanModel,
)
    requires
        planned(inputs, QueryType::Untag, reg, times, fs) == Ok::<PlanModel, FsErrorModel>(plan),
    ensures
        plan.moves.len() == 0,
        plan.attrs.len() == 0,
        plan.mkdirs.len() == 0,
        forall|k: int|
            0 <= k < plan.issues.len() ==> (#[trigger] plan.issues[k]) is UntagPathUnsupported,
{
    lemma_untag_plan(inputs, reg, times, fs);
    reveal(Seq::filter);
    let first = after_items(inputs, QueryType::Untag, reg, times, fs)->Ok_0;
    assert(first.moves =~= seq![]);
    assert(sorted_out(first).moves =~= seq![]);
    assert(sorted_out(first).issues =~= first.issues);
    assert(bytes_needed(fs, sorted_out(first).moves)->Ok_0 =~= seq![]);
    assert(plan.issues =~= first.issues);
}

proof fn lemma_untag_plan(
    inputs: Seq<InputModel>,
    reg: Seq<tag::TagFnModel>,
    times: Seq<TimeText>,
    fs: Seq<FsEntry>,
)
    ensures
        match after_items(inputs, QueryType::Untag, reg, times, fs) {
            Err(_) => true,
            Ok(plan) => plan.moves.len() == 0 && plan.attrs.len() == 0 && plan.mkdirs.len() == 0
                && (forall|k: int|
                0 <= k < plan.issues.len() ==> (#[trigger] plan.issues[k]) is UntagPathUnsupported),
        },
    decreases inputs.len(),
{
    if inputs.len() > 0 {
        lemma_untag_plan(inputs.drop_last(), reg, times, fs);
    }
}

/// Each step keeps to the plan and leaves one step fewer; when none is left, every move and
/// every attribute of the plan has been carried out.
pub proof fn law_steps_follow_the_plan(p: ProgressModel, plan: PlanModel)
    requires
        p.follows(plan),
    ensures
        ProgressModel::start().follows(plan),
        p.after_step(plan).follows(plan),
        !(p.next(plan) is Finish) ==> p.after_step(plan).left(plan) == p.left(plan) - 1,
        p.next(plan) is Finish <==> p.left(plan) == 0,
        p.next(plan) is Finish ==> p.outcome.moved.len() == plan.moves.len()
            && p.outcome.attrs_set.len() == plan.attrs.len(),
{
    let q = p.after_step(plan);
    assert forall|k: int| 0 <= k < q.outcome.attrs_set.len() implies (
    #[trigger] q.outcome.attrs_set[k]).0 == plan.attrs[k].item && q.outcome.attrs_set[k].1
        == q.file_of(plan.attrs[k]) by {
        if k < p.outcome.attrs_set.len() {
            assert(q.outcome.attrs_set[k] == p.outcome.attrs_set[k]);
        }
    }
    assert forall|k: int| 0 <= k < q.outcome.moved.len() implies (#[trigger] q.outcome.moved[k])
        == (MovedModel {
        item: plan.moves[k].item,
        to: plan.moves[k].to,
        crossed: plan.moves[k].crossed,
    }) by {
        if k < p.outcome.moved.len() {
            assert(q.outcome.moved[k] == p.outcome.moved[k]);
        }
    }
}

} // verus!
