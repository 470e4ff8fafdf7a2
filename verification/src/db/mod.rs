//! The layout of the database: its tables, columns and names, and the SQL that the
//! program runs on it.
use vstd::prelude::*;

pub mod id_sql;
pub mod identifier;
pub mod meaning;
pub mod schema;
pub mod sql;
pub mod statement;
pub mod store;
pub mod tags;
pub mod tags_laws;
pub mod value;

pub use crate::col::Col;
pub use crate::col::SqlType;
pub use crate::types::BiticalType;
pub use schema::{ColumnDef, Schema, Src};
pub use sql::CustomFunc;
pub use store::Store;
pub use value::DbValue;

verus! {

/// A table that columns belong to.
#[derive(Clone, Copy, Debug, PartialEq, Eq, Structural)]
pub enum TargetTable {
    FileReferences,
    Locations,
    BaseTags,
    TagsByLocation,
    ItemReferences,
    SystemTags,
    UserTags,
    DataTypes,
    RemovedFiles,
}

impl TargetTable {
    /// The name in the database.
    pub open spec fn name_text(self) -> Seq<char> {
        match self {
            TargetTable::FileReferences => "file_references"@,
            TargetTable::Locations => "locations"@,
            TargetTable::BaseTags => "base_tags"@,
            TargetTable::TagsByLocation => "tags_by_location"@,
            TargetTable::ItemReferences => "item_references"@,
            TargetTable::SystemTags => "system_tags"@,
            TargetTable::UserTags => "user_tags"@,
            TargetTable::DataTypes => "data_types"@,
            TargetTable::RemovedFiles => "removed_files"@,
        }
    }

    /// The name in the database.
    pub fn name(self) -> (r: &'static str)
        ensures
            r@ == self.name_text(),
    {
        match self {
            TargetTable::FileReferences => "file_references",
            TargetTable::Locations => "locations",
            TargetTable::BaseTags => "base_tags",
            TargetTable::TagsByLocation => "tags_by_location",
            TargetTable::ItemReferences => "item_references",
            TargetTable::SystemTags => "system_tags",
            TargetTable::UserTags => "user_tags",
            TargetTable::DataTypes => "data_types",
            TargetTable::RemovedFiles => "removed_files",
        }
    }
}

/// The name of a table.
#[derive(Clone, Copy, Debug, PartialEq, Eq, Structural)]
pub enum Tbl {
    FileReferences,
    Locations,
    BaseTags,
    TagsByLocation,
    ItemReferences,
    SystemTags,
    UserTags,
    DataTypes,
    RemovedFiles,
    OneView,
    _OneView,
    FileReferencesDiff,
    LocationsDiff,
    BaseTagsDiff,
    TagsByLocationDiff,
    ItemReferencesDiff,
    SystemTagsDiff,
    UserTagsDiff,
    DataTypesDiff,
    Scan,
    Live,
    Item,
    IdItem,
    Target,
    Master,
    Tags,
    ItemTags,
}

impl Tbl {
    /// The name in the database.
    pub open spec fn name_text(self) -> Seq<char> {
        match self {
            Tbl::FileReferences => "file_references"@,
            Tbl::Locations => "locations"@,
            Tbl::BaseTags => "base_tags"@,
            Tbl::TagsByLocation => "tags_by_location"@,
            Tbl::ItemReferences => "item_references"@,
            Tbl::SystemTags => "system_tags"@,
            Tbl::UserTags => "user_tags"@,
            Tbl::DataTypes => "data_types"@,
            Tbl::RemovedFiles => "removed_files"@,
            Tbl::OneView => "oneview"@,
            Tbl::_OneView => "_oneview"@,
            Tbl::FileReferencesDiff => "file_references_diff"@,
            Tbl::LocationsDiff => "locations_diff"@,
            Tbl::BaseTagsDiff => "base_tags_diff"@,
            Tbl::TagsByLocationDiff => "tags_by_location_diff"@,
            Tbl::ItemReferencesDiff => "item_references_diff"@,
            Tbl::SystemTagsDiff => "system_tags_diff"@,
            Tbl::UserTagsDiff => "user_tags_diff"@,
            Tbl::DataTypesDiff => "data_types_diff"@,
            Tbl::Scan => "scan"@,
            Tbl::Live => "live"@,
            Tbl::Item => "item"@,
            Tbl::IdItem => "id_item"@,
            Tbl::Target => "target"@,
            Tbl::Master => "master"@,
            Tbl::Tags => "tags"@,
            Tbl::ItemTags => "item_tags"@,
        }
    }

    /// The name in the database.
    pub fn name(self) -> (r: &'static str)
        ensures
            r@ == self.name_text(),
    {
        match self {
            Tbl::FileReferences => "file_references",
            Tbl::Locations => "locations",
            Tbl::BaseTags => "base_tags",
            Tbl::TagsByLocation => "tags_by_location",
            Tbl::ItemReferences => "item_references",
            Tbl::SystemTags => "system_tags",
            Tbl::UserTags => "user_tags",
            Tbl::DataTypes => "data_types",
            Tbl::RemovedFiles => "removed_files",
            Tbl::OneView => "oneview",
            Tbl::_OneView => "_oneview",
            Tbl::FileReferencesDiff => "file_references_diff",
            Tbl::LocationsDiff => "locations_diff",
            Tbl::BaseTagsDiff => "base_tags_diff",
            Tbl::TagsByLocationDiff => "tags_by_location_diff",
            Tbl::ItemReferencesDiff => "item_references_diff",
            Tbl::SystemTagsDiff => "system_tags_diff",
            Tbl::UserTagsDiff => "user_tags_diff",
            Tbl::DataTypesDiff => "data_types_diff",
            Tbl::Scan => "scan",
            Tbl::Live => "live",
            Tbl::Item => "item",
            Tbl::IdItem => "id_item",
            Tbl::Target => "target",
            Tbl::Master => "master",
            Tbl::Tags => "tags",
            Tbl::ItemTags => "item_tags",
        }
    }
}

/// A name that is used inside of a query only.
#[derive(Clone, Copy, Debug, PartialEq, Eq, Structural)]
pub enum Pronoun {
    Sub,
    Diff,
    AllHits,
    TopItems,
    PickedIds,
    GroupTotal,
    Rn,
    View,
    Proj,
    Pivot,
    NvFilter,
    Pk,
    L,
    R,
    Nvalue,
    Group,
    Representative,
    Label,
    Scalar,
    Agg,
    Ctx,
    Filter,
    Tags,
    Deduped,
    Val,
    Kind,
    Key,
    Stored,
    Volatile,
    OrdSrc,
}

impl Pronoun {
    /// The name in the database.
    pub open spec fn name_text(self) -> Seq<char> {
        match self {
            Pronoun::Sub => "sub"@,
            Pronoun::Diff => "diff"@,
            Pronoun::AllHits => "all_hits"@,
            Pronoun::TopItems => "top_items"@,
            Pronoun::PickedIds => "picked_ids"@,
            Pronoun::GroupTotal => "group_total"@,
            Pronoun::Rn => "rn"@,
            Pronoun::View => "view"@,
            Pronoun::Proj => "proj"@,
            Pronoun::Pivot => "pivot"@,
            Pronoun::NvFilter => "nv_filter"@,
            Pronoun::Pk => "pk"@,
            Pronoun::L => "L"@,
            Pronoun::R => "R"@,
            Pronoun::Nvalue => "nvalue"@,
            Pronoun::Group => "group"@,
            Pronoun::Representative => "representative"@,
            Pronoun::Label => "label"@,
            Pronoun::Scalar => "scalar"@,
            Pronoun::Agg => "agg"@,
            Pronoun::Ctx => "ctx"@,
            Pronoun::Filter => "filter"@,
            Pronoun::Tags => "tags"@,
            Pronoun::Deduped => "deduped"@,
            Pronoun::Val => "val"@,
            Pronoun::Kind => "kind"@,
            Pronoun::Key => "key"@,
            Pronoun::Stored => "stored"@,
            Pronoun::Volatile => "volatile"@,
            Pronoun::OrdSrc => "ord_src"@,
        }
    }

    /// The name in the database.
    pub fn name(self) -> (r: &'static str)
        ensures
            r@ == self.name_text(),
    {
        match self {
            Pronoun::Sub => "sub",
            Pronoun::Diff => "diff",
            Pronoun::AllHits => "all_hits",
            Pronoun::TopItems => "top_items",
            Pronoun::PickedIds => "picked_ids",
            Pronoun::GroupTotal => "group_total",
            Pronoun::Rn => "rn",
            Pronoun::View => "view",
            Pronoun::Proj => "proj",
            Pronoun::Pivot => "pivot",
            Pronoun::NvFilter => "nv_filter",
            Pronoun::Pk => "pk",
            Pronoun::L => "L",
            Pronoun::R => "R",
            Pronoun::Nvalue => "nvalue",
            Pronoun::Group => "group",
            Pronoun::Representative => "representative",
            Pronoun::Label => "label",
            Pronoun::Scalar => "scalar",
            Pronoun::Agg => "agg",
            Pronoun::Ctx => "ctx",
            Pronoun::Filter => "filter",
            Pronoun::Tags => "tags",
            Pronoun::Deduped => "deduped",
            Pronoun::Val => "val",
            Pronoun::Kind => "kind",
            Pronoun::Key => "key",
            Pronoun::Stored => "stored",
            Pronoun::Volatile => "volatile",
            Pronoun::OrdSrc => "ord_src",
        }
    }
}

/// A column that only the result of a query has.
#[derive(Clone, Copy, Debug, PartialEq, Eq, Structural)]
pub enum VCol {
    Total,
}

impl VCol {
    /// The name in the database.
    pub open spec fn name_text(self) -> Seq<char> {
        match self {
            VCol::Total => "total"@,
        }
    }

    /// The name in the database.
    pub fn name(self) -> (r: &'static str)
        ensures
            r@ == self.name_text(),
    {
        match self {
            VCol::Total => "total",
        }
    }
}

/// A constant that occurs in data.
#[derive(Clone, Copy, Debug, PartialEq, Eq, Structural)]
pub enum Val {
    Builtin,
    User,
    File,
    Plugin,
    Note,
    ItemKind,
    Rank,
    Name,
    Unknown,
    Key,
    Value,
}

impl Val {
    /// The name in the database.
    pub open spec fn name_text(self) -> Seq<char> {
        match self {
            Val::Builtin => "builtin"@,
            Val::User => "user"@,
            Val::File => "file"@,
            Val::Plugin => "plugin"@,
            Val::Note => "note"@,
            Val::ItemKind => "item_kind"@,
            Val::Rank => "rank"@,
            Val::Name => "name"@,
            Val::Unknown => "unknown"@,
            Val::Key => "key"@,
            Val::Value => "value"@,
        }
    }

    /// The name in the database.
    pub fn name(self) -> (r: &'static str)
        ensures
            r@ == self.name_text(),
    {
        match self {
            Val::Builtin => "builtin",
            Val::User => "user",
            Val::File => "file",
            Val::Plugin => "plugin",
            Val::Note => "note",
            Val::ItemKind => "item_kind",
            Val::Rank => "rank",
            Val::Name => "name",
            Val::Unknown => "unknown",
            Val::Key => "key",
            Val::Value => "value",
        }
    }
}

/// A column that is made up when a result is formed.
#[derive(Clone, Copy, Debug, PartialEq, Eq, Structural)]
pub enum QueryResultCol {
    Tags,
}

impl QueryResultCol {
    /// The name in the database.
    pub open spec fn name_text(self) -> Seq<char> {
        match self {
            QueryResultCol::Tags => "tags"@,
        }
    }

    /// The name in the database.
    pub fn name(self) -> (r: &'static str)
        ensures
            r@ == self.name_text(),
    {
        match self {
            QueryResultCol::Tags => "tags",
        }
    }
}

/// A function of the database.
#[derive(Clone, Copy, Debug, PartialEq, Eq, Structural)]
pub enum DuckDbFunc {
    ReadParquet,
    Coalesce,
    List,
    Concat,
    ParquetKvMetadata,
    StructPack,
    ListSlice,
    RowNumber,
    Count,
    AnyValue,
    ListValue,
    TypeOf,
    StringAgg,
    StartsWith,
}

impl DuckDbFunc {
    /// The name in the database.
    pub open spec fn name_text(self) -> Seq<char> {
        match self {
            DuckDbFunc::ReadParquet => "read_parquet"@,
            DuckDbFunc::Coalesce => "coalesce"@,
            DuckDbFunc::List => "list"@,
            DuckDbFunc::Concat => "concat"@,
            DuckDbFunc::ParquetKvMetadata => "parquet_kv_metadata"@,
            DuckDbFunc::StructPack => "struct_pack"@,
            DuckDbFunc::ListSlice => "list_slice"@,
            DuckDbFunc::RowNumber => "row_number"@,
            DuckDbFunc::Count => "count"@,
            DuckDbFunc::AnyValue => "any_value"@,
            DuckDbFunc::ListValue => "list_value"@,
            DuckDbFunc::TypeOf => "typeof"@,
            DuckDbFunc::StringAgg => "string_agg"@,
            DuckDbFunc::StartsWith => "starts_with"@,
        }
    }

    /// The name in the database.
    pub fn name(self) -> (r: &'static str)
        ensures
            r@ == self.name_text(),
    {
        match self {
            DuckDbFunc::ReadParquet => "read_parquet",
            DuckDbFunc::Coalesce => "coalesce",
            DuckDbFunc::List => "list",
            DuckDbFunc::Concat => "concat",
            DuckDbFunc::ParquetKvMetadata => "parquet_kv_metadata",
            DuckDbFunc::StructPack => "struct_pack",
            DuckDbFunc::ListSlice => "list_slice",
            DuckDbFunc::RowNumber => "row_number",
            DuckDbFunc::Count => "count",
            DuckDbFunc::AnyValue => "any_value",
            DuckDbFunc::ListValue => "list_value",
            DuckDbFunc::TypeOf => "typeof",
            DuckDbFunc::StringAgg => "string_agg",
            DuckDbFunc::StartsWith => "starts_with",
        }
    }
}

/// A keyword of the database.
#[derive(Clone, Copy, Debug, PartialEq, Eq, Structural)]
pub enum DuckDbKeyword {
    DistinctOn,
}

impl DuckDbKeyword {
    /// The name in the database.
    pub open spec fn name_text(self) -> Seq<char> {
        match self {
            DuckDbKeyword::DistinctOn => "DISTINCT ON"@,
        }
    }

    /// The name in the database.
    pub fn name(self) -> (r: &'static str)
        ensures
            r@ == self.name_text(),
    {
        match self {
            DuckDbKeyword::DistinctOn => "DISTINCT ON",
        }
    }
}

} // verus!
