//! What can go wrong in an edit, and how it is told.
use crate::text;
use crate::text::cat3;
use vstd::prelude::*;

verus! {

/// Labels cannot be grouped where captures are edited.
pub const LABEL_GROUPING_IN_CAPTURE_EDITING: &'static str =
    "Label Grouping pattern projection cannot be used in capture editing";

/// The reason why an edit is refused.
#[derive(Debug, PartialEq, Eq)]
pub enum EditError {
    /// An edit query, and the place from which it cannot be read.
    InvalidQuery(String, usize),
    InvalidSearch(String),
    EmptyType,
    MetaType(String),
    Forbidden(String),
    Projection(String),
    AmbiguousReplace(String),
    ModifyInjection(String),
    NeedsFsOperate(String),
    RemoveOnly(String),
    PartOfLocation(String),
    NoRemoval(String),
    NotSingle(String, String),
    SameComponent(String, String, String),
    NoFileAttribute(String),
    NeedsValue(String),
    UuidCast,
    MultipleCasts,
    BuiltinCast(String),
    UnescapedGlob(String),
    ReferenceNotANumber(String),
    ReferenceZero,
    ReferenceTooLarge(usize, usize),
    LabelGrouping,
}

/// What a reason stands for.
pub enum EditErrorModel {
    InvalidQuery(Seq<char>, usize),
    InvalidSearch(Seq<char>),
    EmptyType,
    MetaType(Seq<char>),
    Forbidden(Seq<char>),
    Projection(Seq<char>),
    AmbiguousReplace(Seq<char>),
    ModifyInjection(Seq<char>),
    NeedsFsOperate(Seq<char>),
    RemoveOnly(Seq<char>),
    PartOfLocation(Seq<char>),
    NoRemoval(Seq<char>),
    NotSingle(Seq<char>, Seq<char>),
    SameComponent(Seq<char>, Seq<char>, Seq<char>),
    NoFileAttribute(Seq<char>),
    NeedsValue(Seq<char>),
    UuidCast,
    MultipleCasts,
    BuiltinCast(Seq<char>),
    UnescapedGlob(Seq<char>),
    ReferenceNotANumber(Seq<char>),
    ReferenceZero,
    ReferenceTooLarge(usize, usize),
    LabelGrouping,
}

impl View for EditError {
    type V = EditErrorModel;

    open spec fn view(&self) -> EditErrorModel {
        match *self {
            EditError::InvalidQuery(s, at) => EditErrorModel::InvalidQuery(s@, at),
            EditError::InvalidSearch(s) => EditErrorModel::InvalidSearch(s@),
            EditError::EmptyType => EditErrorModel::EmptyType,
            EditError::MetaType(s) => EditErrorModel::MetaType(s@),
            EditError::Forbidden(s) => EditErrorModel::Forbidden(s@),
            EditError::Projection(s) => EditErrorModel::Projection(s@),
            EditError::AmbiguousReplace(s) => EditErrorModel::AmbiguousReplace(s@),
            EditError::ModifyInjection(s) => EditErrorModel::ModifyInjection(s@),
            EditError::NeedsFsOperate(s) => EditErrorModel::NeedsFsOperate(s@),
            EditError::RemoveOnly(s) => EditErrorModel::RemoveOnly(s@),
            EditError::PartOfLocation(s) => EditErrorModel::PartOfLocation(s@),
            EditError::NoRemoval(s) => EditErrorModel::NoRemoval(s@),
            EditError::NotSingle(s, v) => EditErrorModel::NotSingle(s@, v@),
            EditError::SameComponent(a, b, c) => EditErrorModel::SameComponent(a@, b@, c@),
            EditError::NoFileAttribute(s) => EditErrorModel::NoFileAttribute(s@),
            EditError::NeedsValue(s) => EditErrorModel::NeedsValue(s@),
            EditError::UuidCast => EditErrorModel::UuidCast,
            EditError::MultipleCasts => EditErrorModel::MultipleCasts,
            EditError::BuiltinCast(s) => EditErrorModel::BuiltinCast(s@),
            EditError::UnescapedGlob(s) => EditErrorModel::UnescapedGlob(s@),
            EditError::ReferenceNotANumber(s) => EditErrorModel::ReferenceNotANumber(s@),
            EditError::ReferenceZero => EditErrorModel::ReferenceZero,
            EditError::ReferenceTooLarge(n, t) => EditErrorModel::ReferenceTooLarge(n, t),
            EditError::LabelGrouping => EditErrorModel::LabelGrouping,
        }
    }
}

impl EditErrorModel {
    /// The reason in words.
    pub open spec fn shown(self) -> Seq<char> {
        match self {
            EditErrorModel::InvalidQuery(s, at) => ("invalid edit query "@ + text::debugged(s)
                + ": no tag can be read behind the first "@) + text::nat_text(at as nat)
                + " characters"@,
            EditErrorModel::InvalidSearch(s) => "invalid search query "@ + text::debugged(s) + ""@,
            EditErrorModel::EmptyType => "empty tag type in EditQuery"@,
            EditErrorModel::MetaType(s) => "'"@ + s
                + "' is a meta type and cannot be used as a literal type in EditQuery"@,
            EditErrorModel::Forbidden(s) => "tag type '"@ + s
                + "' is registered but not editable (Forbidden)"@,
            EditErrorModel::Projection(s) => "Projection '"@ + s
                + ":' is not allowed in EditQuery (Tag direction)"@,
            EditErrorModel::AmbiguousReplace(s) => "tag type '"@ + s
                + "' is specified multiple times with static values (ambiguous Replace)"@,
            EditErrorModel::ModifyInjection(s) => "tag type '"@ + s
                + "' cannot be set via EditQuery (ModifyInjection)"@,
            EditErrorModel::NeedsFsOperate(s) => "tag type '"@ + s
                + "' requires fs_operate, not modify (plan contract violation)"@,
            EditErrorModel::RemoveOnly(s) => "tag type '"@ + s
                + "' cannot be added, only removed (RemoveOnly)"@,
            EditErrorModel::PartOfLocation(s) => "tag type '"@ + s
                + "' is only part of a location; remove 'path:' to remove the location itself"@,
            EditErrorModel::NoRemoval(s) => "tag type '"@ + s + "' has no removal to perform"@,
            EditErrorModel::NotSingle(s, v) => ("value '"@ + v + "' of tag type '"@) + s
                + "' is not a single value"@,
            EditErrorModel::SameComponent(a, b, c) => (("'"@ + a + "' and '"@) + b
                + "' both set the path component '"@) + c + "'"@,
            EditErrorModel::NoFileAttribute(s) => "tag type '"@ + s
                + "' sets no file attribute"@,
            EditErrorModel::NeedsValue(s) => "tag type '"@ + s + "' requires a value"@,
            EditErrorModel::UuidCast => "type cast to 'uuid' is not allowed"@,
            EditErrorModel::MultipleCasts =>
                "multiple type cast is not supported in a single command"@,
            EditErrorModel::BuiltinCast(s) => "cannot modify bitical_type of built-in/plugin type '"@
                + s + "'"@,
            EditErrorModel::UnescapedGlob(s) => "EditQuery value "@ + text::debugged(s)
                + " contains an unescaped glob metacharacter"@,
            EditErrorModel::ReferenceNotANumber(s) => "capture reference {"@ + s
                + "} is not a number"@,
            EditErrorModel::ReferenceZero =>
                "capture reference {0} is not allowed; numbering starts at 1"@,
            EditErrorModel::ReferenceTooLarge(n, t) => ("capture reference {"@ + text::nat_text(
                n as nat,
            ) + "} exceeds the number of captures ("@) + text::nat_text(t as nat) + ")"@,
            EditErrorModel::LabelGrouping =>
                "Label Grouping pattern projection cannot be used in capture editing"@,
        }
    }
}

impl EditError {
    /// The reason in words.
    pub fn message(&self) -> (r: String)
        ensures
            r@ == self@.shown(),
    {
        match self {
            EditError::InvalidQuery(s, at) => cat3(
                cat3(
                    "invalid edit query ",
                    text::show_debug(s.as_str()).as_str(),
                    ": no tag can be read behind the first ",
                ).as_str(),
                text::show_usize(*at).as_str(),
                " characters",
            ),
            EditError::InvalidSearch(s) => cat3(
                "invalid search query ",
                text::show_debug(s.as_str()).as_str(),
                "",
            ),
            EditError::EmptyType => "empty tag type in EditQuery".to_owned(),
            EditError::MetaType(s) => cat3(
                "'",
                s.as_str(),
                "' is a meta type and cannot be used as a literal type in EditQuery",
            ),
            EditError::Forbidden(s) => cat3(
                "tag type '",
                s.as_str(),
                "' is registered but not editable (Forbidden)",
            ),
            EditError::Projection(s) => cat3(
                "Projection '",
                s.as_str(),
                ":' is not allowed in EditQuery (Tag direction)",
            ),
            EditError::AmbiguousReplace(s) => cat3(
                "tag type '",
                s.as_str(),
                "' is specified multiple times with static values (ambiguous Replace)",
            ),
            EditError::ModifyInjection(s) => cat3(
                "tag type '",
                s.as_str(),
                "' cannot be set via EditQuery (ModifyInjection)",
            ),
            EditError::NeedsFsOperate(s) => cat3(
                "tag type '",
                s.as_str(),
                "' requires fs_operate, not modify (plan contract violation)",
            ),
            EditError::RemoveOnly(s) => cat3(
                "tag type '",
                s.as_str(),
                "' cannot be added, only removed (RemoveOnly)",
            ),
            EditError::PartOfLocation(s) => cat3(
                "tag type '",
                s.as_str(),
                "' is only part of a location; remove 'path:' to remove the location itself",
            ),
            EditError::NoRemoval(s) => cat3(
                "tag type '",
                s.as_str(),
                "' has no removal to perform",
            ),
            EditError::NotSingle(s, v) => cat3(
                cat3("value '", v.as_str(), "' of tag type '").as_str(),
                s.as_str(),
                "' is not a single value",
            ),
            EditError::SameComponent(a, b, c) => cat3(
                cat3(
                    cat3("'", a.as_str(), "' and '").as_str(),
                    b.as_str(),
                    "' both set the path component '",
                ).as_str(),
                c.as_str(),
                "'",
            ),
            EditError::NoFileAttribute(s) => cat3(
                "tag type '",
                s.as_str(),
                "' sets no file attribute",
            ),
            EditError::NeedsValue(s) => cat3("tag type '", s.as_str(), "' requires a value"),
            EditError::UuidCast => "type cast to 'uuid' is not allowed".to_owned(),
            EditError::MultipleCasts =>
                "multiple type cast is not supported in a single command".to_owned(),
            EditError::BuiltinCast(s) => cat3(
                "cannot modify bitical_type of built-in/plugin type '",
                s.as_str(),
                "'",
            ),
            EditError::UnescapedGlob(s) => cat3(
                "EditQuery value ",
                text::show_debug(s.as_str()).as_str(),
                " contains an unescaped glob metacharacter",
            ),
            EditError::ReferenceNotANumber(s) => cat3(
                "capture reference {",
                s.as_str(),
                "} is not a number",
            ),
            EditError::ReferenceZero =>
                "capture reference {0} is not allowed; numbering starts at 1".to_owned(),
            EditError::ReferenceTooLarge(n, t) => cat3(
                cat3(
                    "capture reference {",
                    text::show_usize(*n).as_str(),
                    "} exceeds the number of captures (",
                ).as_str(),
                text::show_usize(*t).as_str(),
                ")",
            ),
            EditError::LabelGrouping =>
                "Label Grouping pattern projection cannot be used in capture editing".to_owned(),
        }
    }
}

/// The error for a label group in an edit that captures.
pub fn label_grouping_in_capture_editing_err() -> (r: EditError)
    ensures
        r@ == EditErrorModel::LabelGrouping,
{
    EditError::LabelGrouping
}

} // verus!
