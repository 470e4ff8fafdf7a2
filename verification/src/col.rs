//! The columns of the index, which are also the built-in tag types.
use crate::text::str_eq;
use vstd::prelude::*;

verus! {

/// A column of the index. Every built-in tag type is one of these.
#[derive(Clone, Copy, Debug, PartialEq, Eq, PartialOrd, Ord, Hash, Structural)]
pub enum Col {
    ItemId,
    Rank,
    Name,
    ItemKind,
    Content,
    Type,
    Types,
    Label,
    LabelStr,
    LabelInt,
    LabelDouble,
    LabelBool,
    Origin,
    TypedTag,
    DataType,
    Path,
    Parentdir,
    Filename,
    Stem,
    Extension,
    IsDir,
    Size,
    Mtime,
    FileId,
    Hash,
    TypeFromExt,
    SizeStr,
    ModifiedStr,
    ScanHash,
    BasenameScanHash,
    RemovedFileAt,
    RemovedFilePath,
    RemovedFileSize,
    RemovedFileMtime,
    RemovedFileIsDir,
}

/// A built-in tag type is named by the column that holds it.
pub type SType = Col;

/// The storage types of the database, by their SQL names.
#[derive(Clone, Copy, Debug, PartialEq, Eq, Structural)]
#[allow(non_camel_case_types)]
pub enum SqlType {
    VARCHAR,
    BIGINT,
    DOUBLE,
    BOOLEAN,
    UUID,
}

impl SqlType {
    pub open spec fn name_text(self) -> Seq<char> {
        match self {
            SqlType::VARCHAR => "VARCHAR"@,
            SqlType::BIGINT => "BIGINT"@,
            SqlType::DOUBLE => "DOUBLE"@,
            SqlType::BOOLEAN => "BOOLEAN"@,
            SqlType::UUID => "UUID"@,
        }
    }

    /// The name of the type in SQL.
    pub fn name(self) -> (r: &'static str)
        ensures
            r@ == self.name_text(),
    {
        match self {
            SqlType::VARCHAR => "VARCHAR",
            SqlType::BIGINT => "BIGINT",
            SqlType::DOUBLE => "DOUBLE",
            SqlType::BOOLEAN => "BOOLEAN",
            SqlType::UUID => "UUID",
        }
    }

    /// The number under which the table of data types knows the type.
    pub fn id(self) -> (r: i32)
        ensures
            r == (match self {
                SqlType::VARCHAR => 1i32,
                SqlType::BIGINT => 2i32,
                SqlType::DOUBLE => 3i32,
                SqlType::BOOLEAN => 4i32,
                SqlType::UUID => 5i32,
            }),
    {
        match self {
            SqlType::VARCHAR => 1,
            SqlType::BIGINT => 2,
            SqlType::DOUBLE => 3,
            SqlType::BOOLEAN => 4,
            SqlType::UUID => 5,
        }
    }
}

impl Col {
    /// The name of the column.
    pub open spec fn name_text(self) -> Seq<char> {
        match self {
            Col::ItemId => "item_id"@,
            Col::Rank => "rank"@,
            Col::Name => "name"@,
            Col::ItemKind => "item_kind"@,
            Col::Content => "content"@,
            Col::Type => "type"@,
            Col::Types => "types"@,
            Col::Label => "label"@,
            Col::LabelStr => "label_str"@,
            Col::LabelInt => "label_int"@,
            Col::LabelDouble => "label_double"@,
            Col::LabelBool => "label_bool"@,
            Col::Origin => "origin"@,
            Col::TypedTag => "tag"@,
            Col::DataType => "data_type"@,
            Col::Path => "path"@,
            Col::Parentdir => "parentdir"@,
            Col::Filename => "filename"@,
            Col::Stem => "stem"@,
            Col::Extension => "extension"@,
            Col::IsDir => "is_dir"@,
            Col::Size => "size"@,
            Col::Mtime => "mtime"@,
            Col::FileId => "file_id"@,
            Col::Hash => "hash"@,
            Col::TypeFromExt => "type_from_ext"@,
            Col::SizeStr => "size_str"@,
            Col::ModifiedStr => "modified_str"@,
            Col::ScanHash => "scan_hash"@,
            Col::BasenameScanHash => "basename_scan_hash"@,
            Col::RemovedFileAt => "removed_file_at"@,
            Col::RemovedFilePath => "removed_file_path"@,
            Col::RemovedFileSize => "removed_file_size"@,
            Col::RemovedFileMtime => "removed_file_mtime"@,
            Col::RemovedFileIsDir => "removed_file_is_dir"@,
        }
    }

    /// The column of a name, if there is one.
    pub open spec fn named(s: Seq<char>) -> Option<Col> {
        if s == "item_id"@ {
            Some(Col::ItemId)
        } else if s == "rank"@ {
            Some(Col::Rank)
        } else if s == "name"@ {
            Some(Col::Name)
        } else if s == "item_kind"@ {
            Some(Col::ItemKind)
        } else if s == "content"@ {
            Some(Col::Content)
        } else if s == "type"@ {
            Some(Col::Type)
        } else if s == "types"@ {
            Some(Col::Types)
        } else if s == "label"@ {
            Some(Col::Label)
        } else if s == "label_str"@ {
            Some(Col::LabelStr)
        } else if s == "label_int"@ {
            Some(Col::LabelInt)
        } else if s == "label_double"@ {
            Some(Col::LabelDouble)
        } else if s == "label_bool"@ {
            Some(Col::LabelBool)
        } else if s == "origin"@ {
            Some(Col::Origin)
        } else if s == "tag"@ {
            Some(Col::TypedTag)
        } else if s == "data_type"@ {
            Some(Col::DataType)
        } else if s == "path"@ {
            Some(Col::Path)
        } else if s == "parentdir"@ {
            Some(Col::Parentdir)
        } else if s == "filename"@ {
            Some(Col::Filename)
        } else if s == "stem"@ {
            Some(Col::Stem)
        } else if s == "extension"@ {
            Some(Col::Extension)
        } else if s == "is_dir"@ {
            Some(Col::IsDir)
        } else if s == "size"@ {
            Some(Col::Size)
        } else if s == "mtime"@ {
            Some(Col::Mtime)
        } else if s == "file_id"@ {
            Some(Col::FileId)
        } else if s == "hash"@ {
            Some(Col::Hash)
        } else if s == "type_from_ext"@ {
            Some(Col::TypeFromExt)
        } else if s == "size_str"@ {
            Some(Col::SizeStr)
        } else if s == "modified_str"@ {
            Some(Col::ModifiedStr)
        } else if s == "scan_hash"@ {
            Some(Col::ScanHash)
        } else if s == "basename_scan_hash"@ {
            Some(Col::BasenameScanHash)
        } else if s == "removed_file_at"@ {
            Some(Col::RemovedFileAt)
        } else if s == "removed_file_path"@ {
            Some(Col::RemovedFilePath)
        } else if s == "removed_file_size"@ {
            Some(Col::RemovedFileSize)
        } else if s == "removed_file_mtime"@ {
            Some(Col::RemovedFileMtime)
        } else if s == "removed_file_is_dir"@ {
            Some(Col::RemovedFileIsDir)
        } else {
            None
        }
    }

    /// The name of the column.
    pub fn name(self) -> (r: &'static str)
        ensures
            r@ == self.name_text(),
    {
        match self {
            Col::ItemId => "item_id",
            Col::Rank => "rank",
            Col::Name => "name",
            Col::ItemKind => "item_kind",
            Col::Content => "content",
            Col::Type => "type",
            Col::Types => "types",
            Col::Label => "label",
            Col::LabelStr => "label_str",
            Col::LabelInt => "label_int",
            Col::LabelDouble => "label_double",
            Col::LabelBool => "label_bool",
            Col::Origin => "origin",
            Col::TypedTag => "tag",
            Col::DataType => "data_type",
            Col::Path => "path",
            Col::Parentdir => "parentdir",
            Col::Filename => "filename",
            Col::Stem => "stem",
            Col::Extension => "extension",
            Col::IsDir => "is_dir",
            Col::Size => "size",
            Col::Mtime => "mtime",
            Col::FileId => "file_id",
            Col::Hash => "hash",
            Col::TypeFromExt => "type_from_ext",
            Col::SizeStr => "size_str",
            Col::ModifiedStr => "modified_str",
            Col::ScanHash => "scan_hash",
            Col::BasenameScanHash => "basename_scan_hash",
            Col::RemovedFileAt => "removed_file_at",
            Col::RemovedFilePath => "removed_file_path",
            Col::RemovedFileSize => "removed_file_size",
            Col::RemovedFileMtime => "removed_file_mtime",
            Col::RemovedFileIsDir => "removed_file_is_dir",
        }
    }

    /// The column of a name, if there is one.
    pub fn from_str(s: &str) -> (r: Option<Self>)
        ensures
            r == Col::named(s@),
    {
        if str_eq(s, "item_id") {
            Some(Col::ItemId)
        } else if str_eq(s, "rank") {
            Some(Col::Rank)
        } else if str_eq(s, "name") {
            Some(Col::Name)
        } else if str_eq(s, "item_kind") {
            Some(Col::ItemKind)
        } else if str_eq(s, "content") {
            Some(Col::Content)
        } else if str_eq(s, "type") {
            Some(Col::Type)
        } else if str_eq(s, "types") {
            Some(Col::Types)
        } else if str_eq(s, "label") {
            Some(Col::Label)
        } else if str_eq(s, "label_str") {
            Some(Col::LabelStr)
        } else if str_eq(s, "label_int") {
            Some(Col::LabelInt)
        } else if str_eq(s, "label_double") {
            Some(Col::LabelDouble)
        } else if str_eq(s, "label_bool") {
            Some(Col::LabelBool)
        } else if str_eq(s, "origin") {
            Some(Col::Origin)
        } else if str_eq(s, "tag") {
            Some(Col::TypedTag)
        } else if str_eq(s, "data_type") {
            Some(Col::DataType)
        } else if str_eq(s, "path") {
            Some(Col::Path)
        } else if str_eq(s, "parentdir") {
            Some(Col::Parentdir)
        } else if str_eq(s, "filename") {
            Some(Col::Filename)
        } else if str_eq(s, "stem") {
            Some(Col::Stem)
        } else if str_eq(s, "extension") {
            Some(Col::Extension)
        } else if str_eq(s, "is_dir") {
            Some(Col::IsDir)
        } else if str_eq(s, "size") {
            Some(Col::Size)
        } else if str_eq(s, "mtime") {
            Some(Col::Mtime)
        } else if str_eq(s, "file_id") {
            Some(Col::FileId)
        } else if str_eq(s, "hash") {
            Some(Col::Hash)
        } else if str_eq(s, "type_from_ext") {
            Some(Col::TypeFromExt)
        } else if str_eq(s, "size_str") {
            Some(Col::SizeStr)
        } else if str_eq(s, "modified_str") {
            Some(Col::ModifiedStr)
        } else if str_eq(s, "scan_hash") {
            Some(Col::ScanHash)
        } else if str_eq(s, "basename_scan_hash") {
            Some(Col::BasenameScanHash)
        } else if str_eq(s, "removed_file_at") {
            Some(Col::RemovedFileAt)
        } else if str_eq(s, "removed_file_path") {
            Some(Col::RemovedFilePath)
        } else if str_eq(s, "removed_file_size") {
            Some(Col::RemovedFileSize)
        } else if str_eq(s, "removed_file_mtime") {
            Some(Col::RemovedFileMtime)
        } else if str_eq(s, "removed_file_is_dir") {
            Some(Col::RemovedFileIsDir)
        } else {
            None
        }
    }

    /// The columns of the table of items that are not files.
    pub fn item_references_columns() -> (r: [Self; 5])
        ensures
            r@ == seq![Col::ItemId, Col::Rank, Col::Name, Col::ItemKind, Col::Content],
    {
        [Col::ItemId, Col::Rank, Col::Name, Col::ItemKind, Col::Content]
    }

    /// The columns that hold labels, one for each physical type.
    pub open spec fn typed_labels() -> Seq<Col> {
        seq![Col::LabelStr, Col::LabelInt, Col::LabelDouble, Col::LabelBool]
    }

    /// The columns that hold labels, one for each physical type.
    pub fn typed_label_columns() -> (r: [Self; 4])
        ensures
            r@ == Col::typed_labels(),
    {
        [Col::LabelStr, Col::LabelInt, Col::LabelDouble, Col::LabelBool]
    }

    /// The columns of an aggregated tag value.
    pub fn tag_value_columns() -> (r: Vec<Self>)
        ensures
            r@ == seq![Col::Types] + Col::typed_labels() + seq![Col::Origin, Col::TypedTag],
    {
        let mut v: Vec<Self> = Vec::new();
        v.push(Col::Types);
        let labels = Col::typed_label_columns();
        v.push(labels[0]);
        v.push(labels[1]);
        v.push(labels[2]);
        v.push(labels[3]);
        v.push(Col::Origin);
        v.push(Col::TypedTag);
        proof {
            assert(v@ =~= seq![Col::Types] + Col::typed_labels() + seq![
                Col::Origin,
                Col::TypedTag,
            ]);
        }
        v
    }

    /// The columns of a tag row as it is stored.
    pub fn raw_tag_row_columns() -> (r: [Self; 8])
        ensures
            r@ == seq![Col::ItemId, Col::ItemKind, Col::Type] + Col::typed_labels() + seq![
                Col::Origin,
            ],
    {
        let r = [
            Col::ItemId,
            Col::ItemKind,
            Col::Type,
            Col::LabelStr,
            Col::LabelInt,
            Col::LabelDouble,
            Col::LabelBool,
            Col::Origin,
        ];
        proof {
            assert(r@ =~= seq![Col::ItemId, Col::ItemKind, Col::Type] + Col::typed_labels() + seq![
                Col::Origin,
            ]);
        }
        r
    }

    /// The columns of the table of removed files, each with the column it is filled from.
    pub fn removed_file_columns() -> (r: [(Col, Col); 5])
        ensures
            r@ == seq![
                (Col::RemovedFileAt, Col::RemovedFileAt),
                (Col::RemovedFilePath, Col::Path),
                (Col::RemovedFileSize, Col::Size),
                (Col::RemovedFileMtime, Col::Mtime),
                (Col::RemovedFileIsDir, Col::IsDir),
            ],
    {
        [
            (Col::RemovedFileAt, Col::RemovedFileAt),
            (Col::RemovedFilePath, Col::Path),
            (Col::RemovedFileSize, Col::Size),
            (Col::RemovedFileMtime, Col::Mtime),
            (Col::RemovedFileIsDir, Col::IsDir),
        ]
    }

    /// The label column for a storage type. A UUID is kept as text.
    pub open spec fn for_sql_type(st: SqlType) -> Col {
        match st {
            SqlType::VARCHAR | SqlType::UUID => Col::LabelStr,
            SqlType::BIGINT => Col::LabelInt,
            SqlType::DOUBLE => Col::LabelDouble,
            SqlType::BOOLEAN => Col::LabelBool,
        }
    }

    /// The label column for a storage type. A UUID is kept as text.
    pub fn from_sql_type(st: SqlType) -> (r: Self)
        ensures
            r == Col::for_sql_type(st),
    {
        match st {
            SqlType::VARCHAR | SqlType::UUID => Col::LabelStr,
            SqlType::BIGINT => Col::LabelInt,
            SqlType::DOUBLE => Col::LabelDouble,
            SqlType::BOOLEAN => Col::LabelBool,
        }
    }

    /// The storage type of a column.
    pub open spec fn stored_as(self) -> SqlType {
        match self {
            Col::LabelInt | Col::ItemId | Col::Rank | Col::ScanHash => SqlType::BIGINT,
            Col::LabelDouble => SqlType::DOUBLE,
            Col::LabelBool => SqlType::BOOLEAN,
            _ => SqlType::VARCHAR,
        }
    }

    /// The storage type of a column.
    pub fn sql_type(&self) -> (r: SqlType)
        ensures
            r == self.stored_as(),
    {
        match self {
            Col::LabelStr => SqlType::VARCHAR,
            Col::LabelInt | Col::ItemId | Col::Rank | Col::ScanHash => SqlType::BIGINT,
            Col::LabelDouble => SqlType::DOUBLE,
            Col::LabelBool => SqlType::BOOLEAN,
            _ => SqlType::VARCHAR,
        }
    }
}

/// Every column is found under its name, so no two columns share one.
pub proof fn law_column_names(c: Col)
    ensures
        Col::named(c.name_text()) == Some(c),
{
    reveal_strlit("item_id");
    reveal_strlit("rank");
    reveal_strlit("name");
    reveal_strlit("item_kind");
    reveal_strlit("content");
    reveal_strlit("type");
    reveal_strlit("types");
    reveal_strlit("label");
    reveal_strlit("label_str");
    reveal_strlit("label_int");
    reveal_strlit("label_double");
    reveal_strlit("label_bool");
    reveal_strlit("origin");
    reveal_strlit("tag");
    reveal_strlit("data_type");
    reveal_strlit("path");
    reveal_strlit("parentdir");
    reveal_strlit("filename");
    reveal_strlit("stem");
    reveal_strlit("extension");
    reveal_strlit("is_dir");
    reveal_strlit("size");
    reveal_strlit("mtime");
    reveal_strlit("file_id");
    reveal_strlit("hash");
    reveal_strlit("type_from_ext");
    reveal_strlit("size_str");
    reveal_strlit("modified_str");
    reveal_strlit("scan_hash");
    reveal_strlit("basename_scan_hash");
    reveal_strlit("removed_file_at");
    reveal_strlit("removed_file_path");
    reveal_strlit("removed_file_size");
    reveal_strlit("removed_file_mtime");
    reveal_strlit("removed_file_is_dir");
    let s = c.name_text();
    let n = s.len();

    assert("name"@[0] != "rank"@[0]);
    assert("content"@[0] != "item_id"@[0]);
    assert("type"@[0] != "rank"@[0]);
    assert("type"@[0] != "name"@[0]);
    assert("label"@[0] != "types"@[0]);
    assert("label_str"@[0] != "item_kind"@[0]);
    assert("label_int"@[0] != "item_kind"@[0]);
    assert("label_int"@[6] != "label_str"@[6]);
    assert("data_type"@[0] != "item_kind"@[0]);
    assert("data_type"@[0] != "label_str"@[0]);
    assert("data_type"@[0] != "label_int"@[0]);
    assert("path"@[0] != "rank"@[0]);
    assert("path"@[0] != "name"@[0]);
    assert("path"@[0] != "type"@[0]);
    assert("parentdir"@[0] != "item_kind"@[0]);
    assert("parentdir"@[0] != "label_str"@[0]);
    assert("parentdir"@[0] != "label_int"@[0]);
    assert("parentdir"@[0] != "data_type"@[0]);
    assert("stem"@[0] != "rank"@[0]);
    assert("stem"@[0] != "name"@[0]);
    assert("stem"@[0] != "type"@[0]);
    assert("stem"@[0] != "path"@[0]);
    assert("extension"@[0] != "item_kind"@[0]);
    assert("extension"@[0] != "label_str"@[0]);
    assert("extension"@[0] != "label_int"@[0]);
    assert("extension"@[0] != "data_type"@[0]);
    assert("extension"@[0] != "parentdir"@[0]);
    assert("is_dir"@[0] != "origin"@[0]);
    assert("size"@[0] != "rank"@[0]);
    assert("size"@[0] != "name"@[0]);
    assert("size"@[0] != "type"@[0]);
    assert("size"@[0] != "path"@[0]);
    assert("size"@[1] != "stem"@[1]);
    assert("mtime"@[0] != "types"@[0]);
    assert("mtime"@[0] != "label"@[0]);
    assert("file_id"@[0] != "item_id"@[0]);
    assert("file_id"@[0] != "content"@[0]);
    assert("hash"@[0] != "rank"@[0]);
    assert("hash"@[0] != "name"@[0]);
    assert("hash"@[0] != "type"@[0]);
    assert("hash"@[0] != "path"@[0]);
    assert("hash"@[0] != "stem"@[0]);
    assert("hash"@[0] != "size"@[0]);
    assert("size_str"@[0] != "filename"@[0]);
    assert("modified_str"@[0] != "label_double"@[0]);
    assert("scan_hash"@[0] != "item_kind"@[0]);
    assert("scan_hash"@[0] != "label_str"@[0]);
    assert("scan_hash"@[0] != "label_int"@[0]);
    assert("scan_hash"@[0] != "data_type"@[0]);
    assert("scan_hash"@[0] != "parentdir"@[0]);
    assert("scan_hash"@[0] != "extension"@[0]);
    assert("removed_file_size"@[13] != "removed_file_path"@[13]);
    assert("removed_file_mtime"@[0] != "basename_scan_hash"@[0]);
}

/// A label column read by its storage type is the column that the type is written to.
pub proof fn law_label_columns_hold_their_type(st: SqlType)
    ensures
        st != SqlType::UUID ==> Col::for_sql_type(st).stored_as() == st,
        Col::typed_labels().contains(Col::for_sql_type(st)),
{
    let t = Col::typed_labels();
    assert(t[0] == Col::LabelStr && t[1] == Col::LabelInt && t[2] == Col::LabelDouble && t[3]
        == Col::LabelBool);
}

} // verus!
