//! Indexing: what a scan finds is compared with what is stored, tagged and merged.
use crate::col::Col;
use crate::db::schema;
use crate::db::schema::{parquet_query, ColumnDef, ColumnDefModel};
use crate::db::statement;
use crate::db::statement::{
    ColumnTerm, FromTerm, JoinTerm, KindTerm, SelectTerm, TableTerm, Term,
};
use crate::db::store;
use crate::db::store::Store;
use crate::db::tags;
use crate::db::{DuckDbFunc, TargetTable, Tbl};
use crate::edit::sql;
use crate::edit::sql::copy_ids;
use crate::functions;
use crate::functions::{
    rebuild_values_from_path, FileSize, InodeFunction, ModifiedTsFunction,
    PathFunction, SafeMetadata, ScanColumn, ScanRole, SizeBytesFunction, TagDefinition, TagError,
    TagValue, TagValueModel,
};
use crate::path;
use crate::text;
use crate::types::BiticalType;
use vstd::prelude::*;

verus! {

/// How far indexing has come.
#[derive(Clone, Copy, Debug, PartialEq, Eq, Structural)]
pub enum IndexProgress {
    Scanning { count: usize },
    Diffing,
    Extracting { current: usize, total: usize },
    Merging,
}

// ---------------------------------------------------------------------------
// Scanning
// ---------------------------------------------------------------------------

/// A file that a scan found.
#[derive(Debug)]
pub struct ScanEntry {
    pub path: String,
    pub inode: u128,
    pub size: FileSize,
    pub mtime: i64,
}

#[verifier::ext_equal]
pub struct EntryModel {
    pub path: Seq<char>,
    pub inode: u128,
    pub size: i64,
    pub mtime: i64,
}

impl View for ScanEntry {
    type V = EntryModel;

    open spec fn view(&self) -> EntryModel {
        EntryModel { path: self.path@, inode: self.inode, size: self.size.0, mtime: self.mtime }
    }
}

/// The columns of a scan with what they are for.
pub open spec fn scan_schema() -> Seq<(Col, ScanRole)> {
    seq![
        (Col::Path, ScanRole::Location),
        (Col::FileId, ScanRole::ScanId),
        (Col::Size, ScanRole::Integrity),
        (Col::Mtime, ScanRole::Integrity),
    ]
}

impl ScanEntry {
    /// The columns of a scan.
    pub fn schema() -> (r: [ScanColumn; 4])
        ensures
            forall|i: int|
                0 <= i < 4 ==> (#[trigger] r@[i]).name@ == scan_schema()[i].0.name_text()
                    && r@[i].role == scan_schema()[i].1,
            r@[0].bitical_type == BiticalType::String,
            r@[1].bitical_type == BiticalType::Uuid,
            r@[2].bitical_type == BiticalType::Integer,
            r@[3].bitical_type == BiticalType::Integer,
    {
        [
            ScanColumn {
                name: Col::Path.name(),
                bitical_type: BiticalType::String,
                role: ScanRole::Location,
            },
            ScanColumn {
                name: Col::FileId.name(),
                bitical_type: BiticalType::Uuid,
                role: ScanRole::ScanId,
            },
            ScanColumn {
                name: Col::Size.name(),
                bitical_type: BiticalType::Integer,
                role: ScanRole::Integrity,
            },
            ScanColumn {
                name: Col::Mtime.name(),
                bitical_type: BiticalType::Integer,
                role: ScanRole::Integrity,
            },
        ]
    }

    /// The entry of a file, by its path and by what is known of it; none without an identity.
    pub fn from_path_metadata(path: &str, m: &SafeMetadata) -> (r: Result<ScanEntry, TagError>)
        ensures
            match m@.file_ref {
                Some(u) => r matches Ok(e) && e@ == (EntryModel {
                    path: path@,
                    inode: u,
                    size: m@.len,
                    mtime: m@.modified,
                }),
                None => r matches Err(e) && e == TagError::NoFileId,
            },
    {
        let p = match PathFunction::generate(path, m) {
            Ok(p) => p,
            Err(e) => {
                return Err(e);
            },
        };
        let inode = match InodeFunction::generate(path, m) {
            Ok(u) => u,
            Err(e) => {
                return Err(e);
            },
        };
        let size = match SizeBytesFunction::generate(path, m) {
            Ok(s) => s,
            Err(e) => {
                return Err(e);
            },
        };
        let mtime = match ModifiedTsFunction::generate(path, m) {
            Ok(t) => t,
            Err(e) => {
                return Err(e);
            },
        };
        Ok(ScanEntry { path: p, inode, size, mtime: mtime.0 })
    }
}

/// Whether a file belongs to the database itself, which is not indexed. A file whose full
/// path is not known does not.
pub fn is_db_dir(full_path: Option<&str>, db_dir: &str) -> (r: bool)
    ensures
        r == match full_path {
            Some(p) => path::within(path::parsed(p@), path::parsed(db_dir@)),
            None => false,
        },
{
    match full_path {
        Some(p) => path::starts_with(p, db_dir),
        None => false,
    }
}

/// Whether the number of files is told while scanning: at every thousandth.
pub fn reports_count(count: usize) -> (r: bool)
    ensures
        r == (count % 1000 == 0),
{
    count % 1000 == 0
}

// ---------------------------------------------------------------------------
// Comparing a scan with what is stored
// ---------------------------------------------------------------------------

/// Whether a column is the same in two tables.
pub open spec fn same_column(left: Tbl, right: Tbl, c: Col) -> Term {
    Term::Eq(Box::new(tags::col_of(left, c)), Box::new(tags::col_of(right, c)))
}

fn columns_agree(left: Tbl, right: Tbl, c: Col) -> (r: sea_query::SimpleExpr)
    ensures
        statement::expr_term(r) == same_column(left, right, c),
{
    statement::equal(tags::column_of(left, c), tags::column_of(right, c))
}

/// Whether two rows are of the same file.
pub open spec fn same_file(left: Tbl, right: Tbl) -> Term {
    same_column(left, right, Col::FileId)
}

/// Whether a file is as it was: of the same size and time.
pub open spec fn unmodified(left: Tbl, right: Tbl) -> Term {
    Term::And(
        Box::new(same_column(left, right, Col::Size)),
        Box::new(same_column(left, right, Col::Mtime)),
    )
}

fn identity(left: Tbl, right: Tbl) -> (r: sea_query::SimpleExpr)
    ensures
        statement::expr_term(r) == same_file(left, right),
{
    columns_agree(left, right, Col::FileId)
}

fn integrity(left: Tbl, right: Tbl) -> (r: sea_query::SimpleExpr)
    ensures
        statement::expr_term(r) == unmodified(left, right),
{
    statement::both(columns_agree(left, right, Col::Size), columns_agree(left, right, Col::Mtime))
}

/// The rows of a file, under the name of a table.
pub open spec fn rows_as(file: Seq<char>, t: Tbl) -> FromTerm {
    FromTerm::Select(Box::new(schema::all_rows(file)), t.name_text())
}

fn add_rows_as(q: &mut sea_query::SelectStatement, file: &str, t: Tbl)
    ensures
        statement::select_term(*final(q)) == statement::select_term(*old(q)).with_from(
            rows_as(file@, t),
        ),
{
    statement::from_select(q, parquet_query(file), t.name());
}

/// Everything that a scan found.
pub open spec fn all_scanned(scan: Seq<char>) -> SelectTerm {
    SelectTerm::nothing().with_plain(sql::plain(Col::Path)).with_plain(sql::plain(Col::FileId)).with_plain(
        sql::plain(Col::Size),
    ).with_plain(sql::plain(Col::Mtime)).with_from(rows_as(scan, Tbl::Scan))
}

/// What a scan found that is not stored as it is now: new files and changed ones.
pub open spec fn to_tag_rows(scan: Seq<char>, refs: Seq<char>) -> SelectTerm {
    let stored = SelectTerm::nothing().with_plain(Term::Int(1)).with_from(
        rows_as(refs, Tbl::FileReferences),
    ).with_where(same_file(Tbl::FileReferences, Tbl::Scan)).with_where(
        unmodified(Tbl::FileReferences, Tbl::Scan),
    );
    SelectTerm::nothing().with_plain(tags::col_of(Tbl::Scan, Col::Path)).with_plain(
        tags::col_of(Tbl::Scan, Col::FileId),
    ).with_plain(tags::col_of(Tbl::Scan, Col::Size)).with_plain(
        tags::col_of(Tbl::Scan, Col::Mtime),
    ).with_from(rows_as(scan, Tbl::Scan)).with_where(
        Term::Not(Box::new(Term::Exists(Box::new(stored)))),
    )
}

/// Stored files that a scan found as they were, with where they were and where they are.
pub open spec fn found_again(
    start: SelectTerm,
    scan: Seq<char>,
    refs: Seq<char>,
    locs: Seq<char>,
) -> SelectTerm {
    start.with_from(rows_as(refs, Tbl::FileReferences)).with_join(
        JoinTerm::Inner,
        schema::all_rows(scan),
        Tbl::Scan.name_text(),
        same_file(Tbl::FileReferences, Tbl::Scan),
    ).with_join(
        JoinTerm::Inner,
        schema::all_rows(locs),
        Tbl::Locations.name_text(),
        same_column(Tbl::FileReferences, Tbl::Locations, Col::ItemId),
    )
}

/// Files that lie elsewhere than before and are else as they were: their ids and new paths.
pub open spec fn moved_rows(scan: Seq<char>, refs: Seq<char>, locs: Seq<char>) -> SelectTerm {
    found_again(
        SelectTerm::nothing().with_plain(tags::col_of(Tbl::FileReferences, Col::ItemId)).with_plain(
            tags::col_of(Tbl::Scan, Col::Path),
        ),
        scan,
        refs,
        locs,
    ).with_where(
        Term::Ne(
            Box::new(tags::col_of(Tbl::Locations, Col::Path)),
            Box::new(tags::col_of(Tbl::Scan, Col::Path)),
        ),
    ).with_where(unmodified(Tbl::FileReferences, Tbl::Scan))
}

/// Files that lie where they lay and are as they were: their ids.
pub open spec fn unchanged_rows(scan: Seq<char>, refs: Seq<char>, locs: Seq<char>) -> SelectTerm {
    found_again(
        SelectTerm::nothing().with_plain(tags::col_of(Tbl::FileReferences, Col::ItemId)),
        scan,
        refs,
        locs,
    ).with_where(
        Term::Eq(
            Box::new(tags::col_of(Tbl::Locations, Col::Path)),
            Box::new(tags::col_of(Tbl::Scan, Col::Path)),
        ),
    ).with_where(unmodified(Tbl::FileReferences, Tbl::Scan))
}

/// Stored files that a scan did not find as they were: their ids.
pub open spec fn deleted_rows(scan: Seq<char>, refs: Seq<char>) -> SelectTerm {
    SelectTerm::nothing().with_plain(tags::col_of(Tbl::FileReferences, Col::ItemId)).with_from(
        rows_as(refs, Tbl::FileReferences),
    ).with_join(
        JoinTerm::Left,
        schema::all_rows(scan),
        Tbl::Scan.name_text(),
        Term::And(
            Box::new(same_file(Tbl::FileReferences, Tbl::Scan)),
            Box::new(unmodified(Tbl::FileReferences, Tbl::Scan)),
        ),
    ).with_where(Term::IsNull(Box::new(tags::col_of(Tbl::Scan, Col::Path))))
}

/// A file that was found again is either where it was or elsewhere: the two queries differ in
/// nothing but whether the path is the same.
pub proof fn law_moved_or_unchanged(scan: Seq<char>, refs: Seq<char>, locs: Seq<char>)
    ensures
        ({
            let m = moved_rows(scan, refs, locs);
            let u = unchanged_rows(scan, refs, locs);
            &&& m.from == u.from && m.joins == u.joins
            &&& m.wheres.len() == 2 && u.wheres.len() == 2
            &&& m.wheres[1] == u.wheres[1]
            &&& m.wheres[0] matches Term::Ne(a, b) && u.wheres[0] == Term::Eq(a, b)
        }),
{
}

/// Compares what a scan found with what is stored.
#[derive(Debug)]
pub struct DiffAuditor {
    pub scan: String,
    pub refs: String,
    pub locs: String,
}

impl DiffAuditor {
    /// Compares the scan of a database with its references and locations.
    pub fn new(store: &Store) -> (r: Self)
        ensures
            r.scan@ == path::joined_to(store.db_dir@, "current_scan.parquet"@),
            r.refs@ == path::joined_to(store.db_dir@, store::table_file(TargetTable::FileReferences)),
            r.locs@ == path::joined_to(store.db_dir@, store::table_file(TargetTable::Locations)),
    {
        DiffAuditor {
            scan: store.temp_scan_path(),
            refs: store.path_for_target(TargetTable::FileReferences),
            locs: store.path_for_target(TargetTable::Locations),
        }
    }

    /// The query for everything that a scan found, where nothing is stored yet.
    pub fn query_all(&self) -> (r: sea_query::SelectStatement)
        ensures
            statement::select_term(r) == all_scanned(self.scan@),
            statement::select_fits(statement::select_term(r)),
    {
        broadcast use statement::group_fits;

        let mut q = statement::select();
        statement::add_plain(&mut q, sql::column(Col::Path));
        statement::add_plain(&mut q, sql::column(Col::FileId));
        statement::add_plain(&mut q, sql::column(Col::Size));
        statement::add_plain(&mut q, sql::column(Col::Mtime));
        add_rows_as(&mut q, self.scan.as_str(), Tbl::Scan);
        q
    }

    /// The query for new files and changed ones.
    pub fn query_to_tag(&self) -> (r: sea_query::SelectStatement)
        ensures
            statement::select_term(r) == to_tag_rows(self.scan@, self.refs@),
            statement::select_fits(statement::select_term(r)),
    {
        broadcast use statement::group_fits;

        let mut stored = statement::select();
        statement::add_plain(&mut stored, statement::int_value(1));
        add_rows_as(&mut stored, self.refs.as_str(), Tbl::FileReferences);
        statement::and_where(&mut stored, identity(Tbl::FileReferences, Tbl::Scan));
        statement::and_where(&mut stored, integrity(Tbl::FileReferences, Tbl::Scan));

        let mut q = statement::select();
        statement::add_plain(&mut q, tags::column_of(Tbl::Scan, Col::Path));
        statement::add_plain(&mut q, tags::column_of(Tbl::Scan, Col::FileId));
        statement::add_plain(&mut q, tags::column_of(Tbl::Scan, Col::Size));
        statement::add_plain(&mut q, tags::column_of(Tbl::Scan, Col::Mtime));
        add_rows_as(&mut q, self.scan.as_str(), Tbl::Scan);
        statement::and_where(&mut q, statement::negate(statement::has_rows(stored)));
        q
    }

    fn join_found(&self, q: &mut sea_query::SelectStatement)
        ensures
            statement::select_term(*final(q)) == found_again(
                statement::select_term(*old(q)),
                self.scan@,
                self.refs@,
                self.locs@,
            ),
    {
        add_rows_as(q, self.refs.as_str(), Tbl::FileReferences);
        statement::inner_join(
            q,
            parquet_query(self.scan.as_str()),
            Tbl::Scan.name(),
            identity(Tbl::FileReferences, Tbl::Scan),
        );
        statement::inner_join(
            q,
            parquet_query(self.locs.as_str()),
            Tbl::Locations.name(),
            columns_agree(Tbl::FileReferences, Tbl::Locations, Col::ItemId),
        );
    }

    /// The query for files that lie elsewhere than before.
    pub fn query_moved(&self) -> (r: sea_query::SelectStatement)
        ensures
            statement::select_term(r) == moved_rows(self.scan@, self.refs@, self.locs@),
            statement::select_fits(statement::select_term(r)),
    {
        broadcast use statement::group_fits;

        let mut q = statement::select();
        statement::add_plain(&mut q, tags::column_of(Tbl::FileReferences, Col::ItemId));
        statement::add_plain(&mut q, tags::column_of(Tbl::Scan, Col::Path));
        self.join_found(&mut q);
        let elsewhere = statement::unequal(
            tags::column_of(Tbl::Locations, Col::Path),
            tags::column_of(Tbl::Scan, Col::Path),
        );
        statement::and_where(&mut q, elsewhere);
        statement::and_where(&mut q, integrity(Tbl::FileReferences, Tbl::Scan));
        q
    }

    /// The query for files that are as and where they were.
    pub fn query_unchanged(&self) -> (r: sea_query::SelectStatement)
        ensures
            statement::select_term(r) == unchanged_rows(self.scan@, self.refs@, self.locs@),
            statement::select_fits(statement::select_term(r)),
    {
        broadcast use statement::group_fits;

        let mut q = statement::select();
        statement::add_plain(&mut q, tags::column_of(Tbl::FileReferences, Col::ItemId));
        self.join_found(&mut q);
        let there = statement::equal(
            tags::column_of(Tbl::Locations, Col::Path),
            tags::column_of(Tbl::Scan, Col::Path),
        );
        statement::and_where(&mut q, there);
        statement::and_where(&mut q, integrity(Tbl::FileReferences, Tbl::Scan));
        q
    }

    /// The query for files that are gone or changed.
    pub fn query_deleted(&self) -> (r: sea_query::SelectStatement)
        ensures
            statement::select_term(r) == deleted_rows(self.scan@, self.refs@),
            statement::select_fits(statement::select_term(r)),
    {
        broadcast use statement::group_fits;

        let mut q = statement::select();
        statement::add_plain(&mut q, tags::column_of(Tbl::FileReferences, Col::ItemId));
        add_rows_as(&mut q, self.refs.as_str(), Tbl::FileReferences);
        let as_was = statement::both(
            identity(Tbl::FileReferences, Tbl::Scan),
            integrity(Tbl::FileReferences, Tbl::Scan),
        );
        statement::left_join(
            &mut q,
            parquet_query(self.scan.as_str()),
            Tbl::Scan.name(),
            as_was,
        );
        statement::and_where(&mut q, statement::missing(tags::column_of(Tbl::Scan, Col::Path)));
        q
    }
}

// ---------------------------------------------------------------------------
// Sorting values into tables
// ---------------------------------------------------------------------------

/// A row of values for an item.
#[derive(Debug)]
pub struct DynamicRow {
    pub id: i64,
    pub values: Vec<TagValue>,
}

/// A tag for an item.
#[derive(Debug, PartialEq, Eq)]
pub struct TagRow {
    pub item_id: i64,
    pub tag_type: String,
    pub label: String,
}

#[verifier::ext_equal]
pub struct TagRowModel {
    pub item_id: i64,
    pub tag_type: Seq<char>,
    pub label: Seq<char>,
}

impl View for TagRow {
    type V = TagRowModel;

    open spec fn view(&self) -> TagRowModel {
        TagRowModel { item_id: self.item_id, tag_type: self.tag_type@, label: self.label@ }
    }
}

/// What is stored of a file: what it is, where it lies and its tags.
#[derive(Debug)]
pub struct TaggingResult {
    pub entity_row: DynamicRow,
    pub location_row: DynamicRow,
    pub tags: Vec<TagRow>,
}

/// What is stored of a file with an id.
#[verifier::ext_equal]
pub struct TaggingModel {
    pub id: i64,
    pub entity: Seq<TagValueModel>,
    pub location: Seq<TagValueModel>,
    pub tags: Seq<TagRowModel>,
}

pub open spec fn tag_row_models(v: Seq<TagRow>) -> Seq<TagRowModel> {
    v.map_values(|t: TagRow| t@)
}

impl TaggingResult {
    /// Whether the result stands for what is stored of a file.
    pub open spec fn is(self, m: TaggingModel) -> bool {
        &&& self.entity_row.id == m.id
        &&& self.location_row.id == m.id
        &&& functions::value_models(self.entity_row.values@) == m.entity
        &&& functions::value_models(self.location_row.values@) == m.location
        &&& tag_row_models(self.tags@) == m.tags
    }
}

/// Where a value of a file goes.
#[derive(Debug)]
pub enum TriagePiece {
    Entity(TagValue),
    Location(TagValue),
    Tag(TagRow),
    Nothing,
}

#[verifier::ext_equal]
pub enum PieceModel {
    Entity(TagValueModel),
    Location(TagValueModel),
    Tag(TagRowModel),
    Nothing,
}

impl View for TriagePiece {
    type V = PieceModel;

    open spec fn view(&self) -> PieceModel {
        match *self {
            TriagePiece::Entity(v) => PieceModel::Entity(v@),
            TriagePiece::Location(v) => PieceModel::Location(v@),
            TriagePiece::Tag(t) => PieceModel::Tag(t@),
            TriagePiece::Nothing => PieceModel::Nothing,
        }
    }
}

/// A value as a tag; a missing or empty one is none.
pub open spec fn as_tag(id: i64, v: TagValueModel, name: Seq<char>) -> PieceModel {
    match v.shown() {
        Some(s) if s.len() > 0 => PieceModel::Tag(
            TagRowModel { item_id: id, tag_type: name, label: s },
        ),
        _ => PieceModel::Nothing,
    }
}

/// Where a value goes, by the table of its column.
pub open spec fn placed(id: i64, v: TagValueModel, c: ColumnDefModel) -> PieceModel {
    match c.target_table {
        TargetTable::FileReferences => PieceModel::Entity(v),
        TargetTable::Locations => PieceModel::Location(v),
        TargetTable::BaseTags => as_tag(id, v, c.name),
        _ => PieceModel::Nothing,
    }
}

/// What is stored with one more piece.
pub open spec fn with_piece(m: TaggingModel, p: PieceModel) -> TaggingModel {
    match p {
        PieceModel::Entity(v) => TaggingModel { entity: m.entity.push(v), ..m },
        PieceModel::Location(v) => TaggingModel { location: m.location.push(v), ..m },
        PieceModel::Tag(t) => TaggingModel { tags: m.tags.push(t), ..m },
        PieceModel::Nothing => m,
    }
}

/// What is stored of a file by its first `n` values: it starts with a rank of zero.
pub open spec fn triaged(
    id: i64,
    values: Seq<TagValueModel>,
    cols: Seq<ColumnDefModel>,
    n: nat,
) -> TaggingModel
    decreases n,
{
    if n == 0 {
        TaggingModel {
            id,
            entity: seq![TagValueModel::BigInt(0)],
            location: seq![],
            tags: seq![],
        }
    } else {
        with_piece(
            triaged(id, values, cols, (n - 1) as nat),
            placed(id, values[n - 1], cols[n - 1]),
        )
    }
}

pub open spec fn shorter(a: nat, b: nat) -> nat {
    if a < b {
        a
    } else {
        b
    }
}

/// What is stored of a file, by its values and their columns.
pub open spec fn stored(id: i64, values: Seq<TagValueModel>, cols: Seq<ColumnDefModel>) -> TaggingModel {
    triaged(id, values, cols, shorter(values.len(), cols.len()))
}

/// No tag that is stored is empty, and every one is a tag of the file.
pub proof fn law_stored_tags(id: i64, values: Seq<TagValueModel>, cols: Seq<ColumnDefModel>)
    ensures
        forall|i: int|
            0 <= i < stored(id, values, cols).tags.len() ==> (#[trigger] stored(
                id,
                values,
                cols,
            ).tags[i]).label.len() > 0 && stored(id, values, cols).tags[i].item_id == id,
{
    lemma_triaged_tags(id, values, cols, shorter(values.len(), cols.len()));
}

proof fn lemma_triaged_tags(
    id: i64,
    values: Seq<TagValueModel>,
    cols: Seq<ColumnDefModel>,
    n: nat,
)
    ensures
        forall|i: int|
            0 <= i < triaged(id, values, cols, n).tags.len() ==> (#[trigger] triaged(
                id,
                values,
                cols,
                n,
            ).tags[i]).label.len() > 0 && triaged(id, values, cols, n).tags[i].item_id == id,
    decreases n,
{
    if n > 0 {
        lemma_triaged_tags(id, values, cols, (n - 1) as nat);
        let before = triaged(id, values, cols, (n - 1) as nat);
        let now = triaged(id, values, cols, n);
        assert forall|i: int| 0 <= i < now.tags.len() implies (#[trigger] now.tags[i]).label.len()
            > 0 && now.tags[i].item_id == id by {
            if i < before.tags.len() {
                assert(now.tags[i] == before.tags[i]);
            }
        }
    }
}

/// Takes a value as a tag; a missing or empty one is none.
pub fn triage_base_tag(id: i64, val: TagValue, name: &str) -> (r: TriagePiece)
    ensures
        r@ == as_tag(id, val@, name@),
{
    match val.into_string() {
        None => TriagePiece::Nothing,
        Some(label) => {
            if text::chars_of(label.as_str()).len() == 0 {
                TriagePiece::Nothing
            } else {
                TriagePiece::Tag(TagRow { item_id: id, tag_type: name.to_string(), label })
            }
        },
    }
}

/// Decides where a value goes, by the table of its column.
pub fn classify(id: i64, val: TagValue, col: &ColumnDef) -> (r: TriagePiece)
    ensures
        r@ == placed(id, val@, col@),
{
    match col.target_table {
        TargetTable::FileReferences => TriagePiece::Entity(val),
        TargetTable::Locations => TriagePiece::Location(val),
        TargetTable::BaseTags => triage_base_tag(id, val, col.name.as_str()),
        _ => TriagePiece::Nothing,
    }
}

fn collect(acc: &mut TaggingResult, piece: TriagePiece, Ghost(m): Ghost<TaggingModel>)
    requires
        old(acc).is(m),
    ensures
        final(acc).is(with_piece(m, piece@)),
{
    match piece {
        TriagePiece::Entity(v) => {
            let ghost before = acc.entity_row.values@;
            acc.entity_row.values.push(v);
            proof {
                assert(functions::value_models(acc.entity_row.values@)
                    =~= functions::value_models(before).push(v@));
            }
        },
        TriagePiece::Location(v) => {
            let ghost before = acc.location_row.values@;
            acc.location_row.values.push(v);
            proof {
                assert(functions::value_models(acc.location_row.values@)
                    =~= functions::value_models(before).push(v@));
            }
        },
        TriagePiece::Tag(t) => {
            let ghost before = acc.tags@;
            acc.tags.push(t);
            proof {
                assert(tag_row_models(acc.tags@) =~= tag_row_models(before).push(t@));
            }
        },
        TriagePiece::Nothing => {},
    }
}

/// Sorts the values of a file into what is stored of it.
pub fn triage_item(id: i64, values: Vec<TagValue>, cols: &Vec<ColumnDef>) -> (r: TaggingResult)
    ensures
        r.is(stored(id, functions::value_models(values@), schema::def_models(cols@))),
{
    let ghost vs = functions::value_models(values@);
    let ghost cs = schema::def_models(cols@);
    let ghost whole = values@;
    let mut first: Vec<TagValue> = Vec::new();
    first.push(TagValue::BigInt(0));
    let none: Vec<TagValue> = Vec::new();
    let no_tags: Vec<TagRow> = Vec::new();
    let mut acc = TaggingResult {
        entity_row: DynamicRow { id, values: first },
        location_row: DynamicRow { id, values: none },
        tags: no_tags,
    };
    let mut rest = values;
    let mut i: usize = 0;
    proof {
        assert(functions::value_models(acc.entity_row.values@) =~= seq![TagValueModel::BigInt(0)]);
        assert(functions::value_models(acc.location_row.values@) =~= seq![]);
        assert(tag_row_models(acc.tags@) =~= seq![]);
        assert(whole.skip(0) =~= whole);
    }
    while rest.len() > 0 && i < cols.len()
        invariant
            i <= cols@.len(),
            i <= whole.len(),
            rest@ == whole.skip(i as int),
            vs == functions::value_models(whole),
            cs == schema::def_models(cols@),
            acc.is(triaged(id, vs, cs, i as nat)),
        decreases rest@.len(),
    {
        let v = rest.remove(0);
        proof {
            assert(v == whole[i as int]);
            assert(vs[i as int] == v@);
            assert(cs[i as int] == cols@[i as int]@);
            assert(rest@ =~= whole.skip(i + 1));
        }
        let piece = classify(id, v, &cols[i]);
        collect(&mut acc, piece, Ghost(triaged(id, vs, cs, i as nat)));
        i += 1;
    }
    proof {
        assert(vs.len() == whole.len());
        assert(cs.len() == cols@.len());
        assert(i as nat == shorter(vs.len(), cs.len()));
    }
    acc
}

pub open spec fn value_lists(v: Seq<Vec<TagValue>>) -> Seq<Seq<TagValueModel>> {
    v.map_values(|x: Vec<TagValue>| functions::value_models(x@))
}

/// Gives files the ids after the largest one, in their order, and sorts their values.
pub fn assemble_records(all_values: Vec<Vec<TagValue>>, max_id: i64, cols: &Vec<ColumnDef>) -> (r:
    Vec<TaggingResult>)
    requires
        max_id + all_values@.len() <= i64::MAX,
    ensures
        r@.len() == all_values@.len(),
        forall|i: int|
            0 <= i < r@.len() ==> (#[trigger] r@[i]).is(
                stored(
                    (max_id + i + 1) as i64,
                    value_lists(all_values@)[i],
                    schema::def_models(cols@),
                ),
            ),
{
    let ghost whole = all_values@;
    let mut rest = all_values;
    let mut out: Vec<TaggingResult> = Vec::new();
    let mut id = max_id;
    proof {
        assert(whole.skip(0) =~= whole);
    }
    while rest.len() > 0
        invariant
            max_id + whole.len() <= i64::MAX,
            out@.len() <= whole.len(),
            id == max_id + out@.len(),
            rest@ == whole.skip(out@.len() as int),
            forall|i: int|
                0 <= i < out@.len() ==> (#[trigger] out@[i]).is(
                    stored(
                        (max_id + i + 1) as i64,
                        value_lists(whole)[i],
                        schema::def_models(cols@),
                    ),
                ),
        decreases rest@.len(),
    {
        let values = rest.remove(0);
        proof {
            assert(values == whole[out@.len() as int]);
            assert(rest@ =~= whole.skip(out@.len() as int + 1));
        }
        id += 1;
        let res = triage_item(id, values, cols);
        out.push(res);
    }
    out
}

/// New files get ids of their own, above all ids that were given before.
pub proof fn law_new_files_get_new_ids(max_id: i64, i: int, j: int, n: int)
    requires
        0 <= i < j < n,
        max_id + n <= i64::MAX,
    ensures
        max_id < (max_id + i + 1) as i64,
        (max_id + i + 1) as i64 != (max_id + j + 1) as i64,
{
}

/// Where files that were moved lie now.
pub fn rebuild_moved_locations(moved: &Vec<(i64, String)>) -> (r: Vec<DynamicRow>)
    ensures
        r@.len() == moved@.len(),
        forall|i: int|
            0 <= i < r@.len() ==> (#[trigger] r@[i]).id == moved@[i].0 && functions::value_models(
                r@[i].values@,
            ) == location_of(moved@[i].1@),
{
    let mut out: Vec<DynamicRow> = Vec::new();
    let mut i: usize = 0;
    while i < moved.len()
        invariant
            i <= moved@.len(),
            out@.len() == i,
            forall|k: int|
                0 <= k < i ==> (#[trigger] out@[k]).id == moved@[k].0 && functions::value_models(
                    out@[k].values@,
                ) == location_of(moved@[k].1@),
        decreases moved.len() - i,
    {
        let values = rebuild_values_from_path(moved[i].1.as_str());
        out.push(DynamicRow { id: moved[i].0, values });
        i += 1;
    }
    out
}

/// Where a file lies, by its path.
pub open spec fn location_of(p: Seq<char>) -> Seq<TagValueModel> {
    functions::location_part(PathFunction, p) + functions::location_part(
        functions::ParentDirFunction,
        p,
    ) + functions::location_part(functions::FilenameFunction, p) + functions::location_part(
        functions::ExtensionFunction,
        p,
    )
}

// ---------------------------------------------------------------------------
// Merging
// ---------------------------------------------------------------------------

/// Which of the stored rows stay.
#[derive(Debug)]
pub enum Keep {
    /// All but those of some items.
    Except(Vec<i64>),
    /// Those of some items only.
    Only(Vec<i64>),
}

pub open spec fn kept(q: SelectTerm, keep: Keep) -> SelectTerm {
    match keep {
        Keep::Except(ids) => if ids@.len() == 0 {
            q
        } else {
            q.with_where(Term::NotIn(Box::new(sql::plain(Col::ItemId)), statement::int_terms(ids@)))
        },
        Keep::Only(ids) => if ids@.len() == 0 {
            q.with_where(Term::Eq(Box::new(Term::Int(1)), Box::new(Term::Int(0))))
        } else {
            q.with_where(Term::In(Box::new(sql::plain(Col::ItemId)), statement::int_terms(ids@)))
        },
    }
}

/// How the stored tables change: which rows stay, and whether there may be new tags.
#[derive(Debug)]
pub struct MergePlan {
    pub references: Keep,
    pub locations: Keep,
    pub tags: Keep,
    pub has_updates: bool,
}

/// The change of the stored tables, if anything is new, moved or gone. What is gone leaves
/// the references and the tags; of the locations only those of unchanged files stay.
pub fn plan_merge(
    results: &Vec<TaggingResult>,
    moved: &Vec<DynamicRow>,
    deleted_ids: &Vec<i64>,
    unchanged_ids: &Vec<i64>,
) -> (r: Option<MergePlan>)
    ensures
        r is None <==> results@.len() == 0 && moved@.len() == 0 && deleted_ids@.len() == 0,
        r matches Some(p) ==> {
            &&& p.references matches Keep::Except(ids) && ids@ == deleted_ids@
            &&& p.locations matches Keep::Only(ids) && ids@ == unchanged_ids@
            &&& p.tags matches Keep::Except(ids) && ids@ == deleted_ids@
            &&& p.has_updates == (results@.len() > 0 || moved@.len() > 0)
        },
{
    if results.len() == 0 && moved.len() == 0 && deleted_ids.len() == 0 {
        return None;
    }
    Some(
        MergePlan {
            references: Keep::Except(copy_ids(deleted_ids)),
            locations: Keep::Only(copy_ids(unchanged_ids)),
            tags: Keep::Except(copy_ids(deleted_ids)),
            has_updates: results.len() > 0 || moved.len() > 0,
        },
    )
}

/// All rows of a table that is at hand.
pub open spec fn at_hand(table: Tbl) -> SelectTerm {
    SelectTerm::nothing().with_plain(Term::Raw("*"@)).with_from(FromTerm::Table(table.name_text()))
}

/// The stored rows that stay, with the new ones; only those where nothing is stored.
pub open spec fn merged_rows(file: Option<Seq<char>>, table: Tbl, keep: Keep) -> SelectTerm {
    match file {
        Some(f) => kept(schema::all_rows(f), keep).with_union(at_hand(table)),
        None => at_hand(table),
    }
}

fn at_hand_query(table: Tbl) -> (r: sea_query::SelectStatement)
    ensures
        statement::select_term(r) == at_hand(table),
        statement::select_fits(statement::select_term(r)),
{
    broadcast use statement::group_fits;

    let mut q = statement::select();
    statement::add_plain(&mut q, statement::raw("*".to_string()));
    statement::from_table(&mut q, table.name());
    q
}

/// The query for the rows of a table afterwards. `stored_in` is the file of the table, if it
/// has been written.
pub fn merge_query(stored_in: Option<&str>, temp_table: Tbl, keep: Keep) -> (r:
    sea_query::SelectStatement)
    ensures
        statement::select_term(r) == merged_rows(
            match stored_in {
                Some(f) => Some(f@),
                None => None,
            },
            temp_table,
            keep,
        ),
        statement::select_fits(statement::select_term(r)),
{
    broadcast use statement::group_fits;

    match stored_in {
        None => at_hand_query(temp_table),
        Some(f) => {
            let mut q = parquet_query(f);
            match keep {
                Keep::Except(ids) => {
                    if ids.len() > 0 {
                        let cond = statement::not_among_ints(sql::column(Col::ItemId), ids);
                        statement::and_where(&mut q, cond);
                    }
                },
                Keep::Only(ids) => {
                    if ids.len() == 0 {
                        let never = statement::equal(
                            statement::int_value(1),
                            statement::int_value(0),
                        );
                        statement::and_where(&mut q, never);
                    } else {
                        let cond = statement::among_ints(sql::column(Col::ItemId), ids);
                        statement::and_where(&mut q, cond);
                    }
                },
            }
            statement::union_all(&mut q, at_hand_query(temp_table));
            q
        },
    }
}

// ---------------------------------------------------------------------------
// Items for types, labels and tags
// ---------------------------------------------------------------------------

/// The type and the label of each new tag: of the tags at hand, and of the columns that say
/// where files lie.
pub open spec fn diff_tags_rows(cols: Seq<ColumnDefModel>) -> SelectTerm
    decreases cols.len(),
{
    if cols.len() == 0 {
        SelectTerm::nothing().with_item(sql::plain(Col::Type), Col::Type.name_text()).with_item(
            sql::plain(Col::Label),
            Col::Label.name_text(),
        ).with_from(FromTerm::Table(Tbl::BaseTagsDiff.name_text()))
    } else {
        let before = diff_tags_rows(cols.drop_last());
        if cols.last().target_table == TargetTable::Locations {
            before.with_distinct_union(location_tags(cols.last().name))
        } else {
            before
        }
    }
}

/// A column of the locations at hand as tags.
pub open spec fn location_tags(name: Seq<char>) -> SelectTerm {
    SelectTerm::nothing().with_item(Term::Text(name), Col::Type.name_text()).with_item(
        Term::Cast(Box::new(Term::Col(None, name)), BiticalType::String.sql_text()),
        Col::Label.name_text(),
    ).with_from(FromTerm::Table(Tbl::LocationsDiff.name_text())).with_where(
        Term::IsNotNull(Box::new(Term::Col(None, name))),
    )
}

fn location_tags_query(name: &str) -> (r: sea_query::SelectStatement)
    ensures
        statement::select_term(r) == location_tags(name@),
        statement::select_fits(statement::select_term(r)),
{
    broadcast use statement::group_fits;

    let mut q = statement::select();
    statement::add_item(&mut q, statement::text_value(name), Col::Type.name());
    let label = statement::cast(statement::column(name), BiticalType::String.sql_name());
    statement::add_item(&mut q, label, Col::Label.name());
    statement::from_table(&mut q, Tbl::LocationsDiff.name());
    statement::and_where(&mut q, statement::given(statement::column(name)));
    q
}

/// The query for the type and the label of each new tag.
pub fn diff_tags(all_cols: &Vec<ColumnDef>) -> (r: sea_query::SelectStatement)
    ensures
        statement::select_term(r) == diff_tags_rows(schema::def_models(all_cols@)),
        statement::select_fits(statement::select_term(r)),
{
    broadcast use statement::group_fits;

    let ghost ms = schema::def_models(all_cols@);
    let mut q = statement::select();
    statement::add_item(&mut q, sql::column(Col::Type), Col::Type.name());
    statement::add_item(&mut q, sql::column(Col::Label), Col::Label.name());
    statement::from_table(&mut q, Tbl::BaseTagsDiff.name());
    let mut i: usize = 0;
    while i < all_cols.len()
        invariant
            i <= all_cols@.len(),
            ms == schema::def_models(all_cols@),
            statement::select_term(q) == diff_tags_rows(ms.take(i as int)),
            statement::select_fits(statement::select_term(q)),
        decreases all_cols.len() - i,
    {
        broadcast use statement::group_fits;

        proof {
            assert(ms.take(i + 1).drop_last() =~= ms.take(i as int));
            assert(ms.take(i + 1).last() == all_cols@[i as int]@);
        }
        if all_cols[i].target_table == TargetTable::Locations {
            let sub = location_tags_query(all_cols[i].name.as_str());
            statement::union_distinct(&mut q, sub);
        }
        i += 1;
    }
    proof {
        assert(ms.take(ms.len() as int) =~= ms);
    }
    q
}

/// A kind of item for each tag: its type, its label, or both together.
pub open spec fn variant(
    kind: Seq<char>,
    content: Term,
    ty: Option<Term>,
    label: Option<Term>,
    source: SelectTerm,
) -> SelectTerm {
    let start = SelectTerm::nothing().with_item(Term::Text(kind), Col::ItemKind.name_text()).with_item(
        content,
        Col::Content.name_text(),
    );
    let typed = match ty {
        Some(t) => start.with_plain(t),
        None => start.with_item(Term::Raw("NULL"@), Col::Type.name_text()),
    };
    let labelled = match label {
        Some(t) => typed.with_plain(t),
        None => typed.with_item(Term::Raw("NULL"@), Col::Label.name_text()),
    };
    labelled.with_from(FromTerm::Select(Box::new(source), crate::db::Pronoun::Diff.name_text()))
}

/// The items that tags ask for: one for each type, one for each label and one for each tag.
pub open spec fn variants(source: SelectTerm) -> SelectTerm {
    let ty = sql::plain(Col::Type);
    let label = sql::plain(Col::Label);
    variant("type"@, ty, Some(ty), None, source).with_distinct_union(
        variant("label"@, label, None, Some(label), source),
    ).with_distinct_union(
        variant(
            "typedtag"@,
            Term::Filled("$1 || ':' || $2"@, seq![ty, label]),
            Some(ty),
            Some(label),
            source,
        ),
    )
}

fn variant_query(
    kind: &str,
    content: sea_query::SimpleExpr,
    has_type: bool,
    has_label: bool,
    source: sea_query::SelectStatement,
) -> (r: sea_query::SelectStatement)
    ensures
        statement::select_term(r) == variant(
            kind@,
            statement::expr_term(content),
            if has_type {
                Some(sql::plain(Col::Type))
            } else {
                None
            },
            if has_label {
                Some(sql::plain(Col::Label))
            } else {
                None
            },
            statement::select_term(source),
        ),
        statement::term_fits(statement::expr_term(content)) && statement::select_fits(
            statement::select_term(source),
        ) ==> statement::select_fits(statement::select_term(r)),
{
    broadcast use statement::group_fits;

    let mut q = statement::select();
    statement::add_item(&mut q, statement::text_value(kind), Col::ItemKind.name());
    statement::add_item(&mut q, content, Col::Content.name());
    if has_type {
        statement::add_plain(&mut q, sql::column(Col::Type));
    } else {
        statement::add_item(&mut q, statement::raw("NULL".to_string()), Col::Type.name());
    }
    if has_label {
        statement::add_plain(&mut q, sql::column(Col::Label));
    } else {
        statement::add_item(&mut q, statement::raw("NULL".to_string()), Col::Label.name());
    }
    statement::from_select(&mut q, source, crate::db::Pronoun::Diff.name());
    q
}

/// The query for the items that tags ask for.
pub fn expand_variants(source: sea_query::SelectStatement) -> (r: sea_query::SelectStatement)
    ensures
        statement::select_term(r) == variants(statement::select_term(source)),
        statement::select_fits(statement::select_term(source)) ==> statement::select_fits(
            statement::select_term(r),
        ),
{
    broadcast use statement::group_fits;

    let for_types = statement::copy_select(&source);
    let for_labels = statement::copy_select(&source);
    let mut q = variant_query("type", sql::column(Col::Type), true, false, for_types);
    statement::union_distinct(
        &mut q,
        variant_query("label", sql::column(Col::Label), false, true, for_labels),
    );
    let mut args: Vec<sea_query::SimpleExpr> = Vec::new();
    args.push(sql::column(Col::Type));
    args.push(sql::column(Col::Label));
    proof {
        assert(statement::expr_terms(args@) =~= seq![sql::plain(Col::Type), sql::plain(Col::Label)]);
        reveal_strlit("$1 || ':' || $2");
        assert(statement::places_fit("$1 || ':' || $2"@, 2));
    }
    let both = statement::filled("$1 || ':' || $2".to_string(), args);
    statement::union_distinct(&mut q, variant_query("typedtag", both, true, true, source));
    q
}

/// The item that a type of tag asks for.
pub open spec fn type_item(name: Seq<char>) -> SelectTerm {
    SelectTerm::nothing().with_item(Term::Text("type"@), Col::ItemKind.name_text()).with_item(
        Term::Text(name),
        Col::Content.name_text(),
    ).with_item(Term::Text(name), Col::Type.name_text()).with_item(
        Term::Raw("NULL"@),
        Col::Label.name_text(),
    )
}

/// The items that the known types of tags ask for; without types a query that has no rows.
pub open spec fn type_items(names: Seq<Seq<char>>) -> SelectTerm
    decreases names.len(),
{
    if names.len() == 0 {
        SelectTerm::nothing().with_plain(Term::Int(1)).with_where(
            Term::Eq(Box::new(Term::Int(1)), Box::new(Term::Int(0))),
        )
    } else if names.len() == 1 {
        type_item(names[0])
    } else {
        type_items(names.drop_last()).with_distinct_union(type_item(names.last()))
    }
}

fn type_item_query(name: &str) -> (r: sea_query::SelectStatement)
    ensures
        statement::select_term(r) == type_item(name@),
        statement::select_fits(statement::select_term(r)),
{
    broadcast use statement::group_fits;

    let mut q = statement::select();
    statement::add_item(&mut q, statement::text_value("type"), Col::ItemKind.name());
    statement::add_item(&mut q, statement::text_value(name), Col::Content.name());
    statement::add_item(&mut q, statement::text_value(name), Col::Type.name());
    statement::add_item(&mut q, statement::raw("NULL".to_string()), Col::Label.name());
    q
}

/// The query for the items that the known types of tags ask for.
pub fn registry_variants(names: &Vec<String>) -> (r: sea_query::SelectStatement)
    ensures
        statement::select_term(r) == type_items(text::texts(names@)),
        statement::select_fits(statement::select_term(r)),
{
    broadcast use statement::group_fits;

    let ghost ns = text::texts(names@);
    if names.len() == 0 {
        let mut q = statement::select();
        statement::add_plain(&mut q, statement::int_value(1));
        let never = statement::equal(statement::int_value(1), statement::int_value(0));
        statement::and_where(&mut q, never);
        return q;
    }
    let mut q = type_item_query(names[0].as_str());
    let mut i: usize = 1;
    proof {
        assert(ns.take(1)[0] == names@[0]@);
    }
    while i < names.len()
        invariant
            1 <= i <= names@.len(),
            ns == text::texts(names@),
            statement::select_term(q) == type_items(ns.take(i as int)),
            statement::select_fits(statement::select_term(q)),
        decreases names.len() - i,
    {
        broadcast use statement::group_fits;

        let sub = type_item_query(names[i].as_str());
        statement::union_distinct(&mut q, sub);
        proof {
            assert(ns.take(i + 1).drop_last() =~= ns.take(i as int));
            assert(ns.take(i + 1).last() == names@[i as int]@);
        }
        i += 1;
    }
    proof {
        assert(ns.take(ns.len() as int) =~= ns);
    }
    q
}

/// Everything that may become an item: the known types of tags, and what new tags ask for.
pub open spec fn all_candidates(names: Seq<Seq<char>>, data: Option<SelectTerm>) -> SelectTerm {
    match data {
        Some(d) => type_items(names).with_distinct_union(d),
        None => type_items(names),
    }
}

pub open spec fn optional_select(o: Option<sea_query::SelectStatement>) -> Option<SelectTerm> {
    match o {
        Some(q) => Some(statement::select_term(q)),
        None => None,
    }
}

/// The query for everything that may become an item.
pub fn item_candidates(names: &Vec<String>, data_candidates: Option<sea_query::SelectStatement>) -> (r:
    sea_query::SelectStatement)
    ensures
        statement::select_term(r) == all_candidates(
            text::texts(names@),
            optional_select(data_candidates),
        ),
        (data_candidates matches Some(d) ==> statement::select_fits(statement::select_term(d)))
            ==> statement::select_fits(statement::select_term(r)),
{
    broadcast use statement::group_fits;

    let mut all = registry_variants(names);
    match data_candidates {
        Some(data) => {
            statement::union_distinct(&mut all, data);
        },
        None => {},
    }
    all
}

/// The items that are asked for and not stored yet.
pub open spec fn new_items(candidates: SelectTerm, items: Seq<char>) -> SelectTerm {
    let start = SelectTerm::nothing().with_plain(tags::col_of(Tbl::Item, Col::ItemKind)).with_plain(
        tags::col_of(Tbl::Item, Col::Content),
    ).with_plain(tags::col_of(Tbl::Item, Col::Type)).with_plain(
        tags::col_of(Tbl::Item, Col::Label),
    );
    SelectTerm { distinct: true, ..start }.with_from(
        FromTerm::Select(Box::new(candidates), Tbl::Item.name_text()),
    ).with_join(
        JoinTerm::Left,
        schema::all_rows(items),
        Tbl::ItemReferences.name_text(),
        Term::And(
            Box::new(same_column(Tbl::Item, Tbl::ItemReferences, Col::ItemKind)),
            Box::new(same_column(Tbl::Item, Tbl::ItemReferences, Col::Content)),
        ),
    ).with_where(Term::IsNull(Box::new(tags::col_of(Tbl::ItemReferences, Col::ItemId))))
}

/// The query for the items that are asked for and not stored yet.
pub fn filter_new(candidates: sea_query::SelectStatement, items_path: &str) -> (r:
    sea_query::SelectStatement)
    ensures
        statement::select_term(r) == new_items(statement::select_term(candidates), items_path@),
        statement::select_fits(statement::select_term(candidates)) ==> statement::select_fits(
            statement::select_term(r),
        ),
{
    broadcast use statement::group_fits;

    let mut q = statement::select();
    statement::add_plain(&mut q, tags::column_of(Tbl::Item, Col::ItemKind));
    statement::add_plain(&mut q, tags::column_of(Tbl::Item, Col::Content));
    statement::add_plain(&mut q, tags::column_of(Tbl::Item, Col::Type));
    statement::add_plain(&mut q, tags::column_of(Tbl::Item, Col::Label));
    proof {
        assert(statement::select_fits(statement::select_term(q)));
    }
    statement::set_distinct(&mut q);
    proof {
        assert(statement::select_fits(statement::select_term(q)));
    }
    statement::from_select(&mut q, candidates, Tbl::Item.name());
    let on = statement::both(
        columns_agree(Tbl::Item, Tbl::ItemReferences, Col::ItemKind),
        columns_agree(Tbl::Item, Tbl::ItemReferences, Col::Content),
    );
    proof {
        assert(forall|a: Tbl, b: Tbl, c: Col| statement::term_fits(#[trigger] same_column(a, b, c)));
    }
    statement::left_join(&mut q, parquet_query(items_path), Tbl::ItemReferences.name(), on);
    statement::and_where(
        &mut q,
        statement::missing(tags::column_of(Tbl::ItemReferences, Col::ItemId)),
    );
    q
}

/// New items with their ids, counted down from `start`, and their ranks.
pub open spec fn numbered_items(start: i64, rank: Term) -> SelectTerm {
    SelectTerm::nothing().with_item(
        Term::Filled("$1 - (row_number() OVER () - 1)"@, seq![Term::Int(start as int)]),
        Col::ItemId.name_text(),
    ).with_item(rank, Col::Rank.name_text()).with_plain(sql::plain(Col::ItemKind)).with_plain(
        sql::plain(Col::Content),
    ).with_plain(sql::plain(Col::Type)).with_plain(sql::plain(Col::Label)).with_from(
        FromTerm::Table(Tbl::Item.name_text()),
    )
}

/// The query for new items with their ids and ranks.
pub fn assign_ids(start_id: i64, rank_expr: sea_query::SimpleExpr) -> (r:
    sea_query::SelectStatement)
    ensures
        statement::select_term(r) == numbered_items(start_id, statement::expr_term(rank_expr)),
        statement::term_fits(statement::expr_term(rank_expr)) ==> statement::select_fits(
            statement::select_term(r),
        ),
{
    broadcast use statement::group_fits;

    let mut args: Vec<sea_query::SimpleExpr> = Vec::new();
    args.push(statement::int_value(start_id));
    proof {
        assert(statement::expr_terms(args@) =~= seq![Term::Int(start_id as int)]);
        reveal_strlit("$1 - (row_number() OVER () - 1)");
        assert(statement::places_fit("$1 - (row_number() OVER () - 1)"@, 1));
    }
    let id = statement::filled("$1 - (row_number() OVER () - 1)".to_string(), args);
    let mut q = statement::select();
    statement::add_item(&mut q, id, Col::ItemId.name());
    statement::add_item(&mut q, rank_expr, Col::Rank.name());
    statement::add_plain(&mut q, sql::column(Col::ItemKind));
    statement::add_plain(&mut q, sql::column(Col::Content));
    statement::add_plain(&mut q, sql::column(Col::Type));
    statement::add_plain(&mut q, sql::column(Col::Label));
    statement::from_table(&mut q, Tbl::Item.name());
    q
}

/// The tags of new items: what they are, and for a tag its label.
pub open spec fn item_tags() -> SelectTerm {
    let is_tag = Term::Eq(Box::new(sql::plain(Col::ItemKind)), Box::new(Term::Text("typedtag"@)));
    let kinds = SelectTerm::nothing().with_plain(sql::plain(Col::ItemId)).with_item(
        Term::Text("type"@),
        Col::Type.name_text(),
    ).with_item(
        Term::Case(seq![(is_tag, sql::plain(Col::Type))], Box::new(sql::plain(Col::ItemKind))),
        Col::Label.name_text(),
    ).with_from(FromTerm::Table(Tbl::IdItem.name_text()));
    let labels = SelectTerm::nothing().with_plain(sql::plain(Col::ItemId)).with_item(
        Term::Text("label"@),
        Col::Type.name_text(),
    ).with_plain(sql::plain(Col::Label)).with_from(
        FromTerm::Table(Tbl::IdItem.name_text()),
    ).with_where(is_tag);
    kinds.with_union(labels)
}

fn is_typed_tag() -> (r: sea_query::SimpleExpr)
    ensures
        statement::expr_term(r) == Term::Eq(
            Box::new(sql::plain(Col::ItemKind)),
            Box::new(Term::Text("typedtag"@)),
        ),
{
    statement::equal(sql::column(Col::ItemKind), statement::text_value("typedtag"))
}

/// The query for the tags of new items.
pub fn metadata_tags() -> (r: sea_query::SelectStatement)
    ensures
        statement::select_term(r) == item_tags(),
        statement::select_fits(statement::select_term(r)),
{
    broadcast use statement::group_fits;

    let mut meta = statement::select();
    statement::add_plain(&mut meta, sql::column(Col::ItemId));
    statement::add_item(&mut meta, statement::text_value("type"), Col::Type.name());
    let cs = statement::when(statement::cases(), is_typed_tag(), sql::column(Col::Type));
    proof {
        assert(statement::case_term(cs) =~= seq![
            (
                Term::Eq(Box::new(sql::plain(Col::ItemKind)), Box::new(Term::Text("typedtag"@))),
                sql::plain(Col::Type),
            ),
        ]);
    }
    let kind = statement::otherwise(cs, sql::column(Col::ItemKind));
    statement::add_item(&mut meta, kind, Col::Label.name());
    statement::from_table(&mut meta, Tbl::IdItem.name());

    let mut label = statement::select();
    statement::add_plain(&mut label, sql::column(Col::ItemId));
    statement::add_item(&mut label, statement::text_value("label"), Col::Type.name());
    statement::add_plain(&mut label, sql::column(Col::Label));
    statement::from_table(&mut label, Tbl::IdItem.name());
    statement::and_where(&mut label, is_typed_tag());

    statement::union_all(&mut meta, label);
    meta
}

/// All items, the stored ones and the new ones.
pub open spec fn items_afterwards(file: Seq<char>) -> SelectTerm {
    schema::all_rows(file).with_union(
        SelectTerm::nothing().with_plain(sql::plain(Col::ItemId)).with_plain(sql::plain(Col::Rank)).with_plain(
            sql::plain(Col::ItemKind),
        ).with_plain(sql::plain(Col::Content)).with_from(FromTerm::Table(Tbl::IdItem.name_text())),
    )
}

/// The query for all items, the stored ones and the new ones.
pub fn items_query(items_path: &str) -> (r: sea_query::SelectStatement)
    ensures
        statement::select_term(r) == items_afterwards(items_path@),
        statement::select_fits(statement::select_term(r)),
{
    broadcast use statement::group_fits;

    let mut fresh = statement::select();
    statement::add_plain(&mut fresh, sql::column(Col::ItemId));
    statement::add_plain(&mut fresh, sql::column(Col::Rank));
    statement::add_plain(&mut fresh, sql::column(Col::ItemKind));
    statement::add_plain(&mut fresh, sql::column(Col::Content));
    statement::from_table(&mut fresh, Tbl::IdItem.name());
    let mut q = parquet_query(items_path);
    statement::union_all(&mut q, fresh);
    q
}

/// The query for all tags of items, the stored ones and the new ones.
pub fn system_tags_query(tags_path: &str) -> (r: sea_query::SelectStatement)
    ensures
        statement::select_term(r) == schema::all_rows(tags_path@).with_union(item_tags()),
        statement::select_fits(statement::select_term(r)),
{
    broadcast use statement::group_fits;

    let mut q = parquet_query(tags_path);
    statement::union_all(&mut q, metadata_tags());
    q
}

/// New items never displace a stored one: all stored items come first.
pub proof fn law_items_are_only_added(file: Seq<char>)
    ensures
        items_afterwards(file).from == schema::all_rows(file).from,
        items_afterwards(file).items == schema::all_rows(file).items,
        items_afterwards(file).wheres == schema::all_rows(file).wheres,
        items_afterwards(file).joins == schema::all_rows(file).joins,
        items_afterwards(file).unions.take(schema::all_rows(file).unions.len() as int)
            == schema::all_rows(file).unions,
{
    assert(items_afterwards(file).unions.take(schema::all_rows(file).unions.len() as int)
        =~= schema::all_rows(file).unions);
}

/// The first id for new items, below all ids that are stored and below zero.
pub open spec fn first_new_id(min: i64) -> int {
    if min > -1 {
        -1
    } else {
        min - 1
    }
}

/// The first id for new items, by the smallest id that is stored.
pub fn next_item_id(min_id: i64) -> (r: i64)
    requires
        min_id > i64::MIN,
    ensures
        r == first_new_id(min_id),
        r < 0,
        r < min_id,
{
    if min_id > -1 {
        -1
    } else {
        min_id - 1
    }
}

/// The query for the largest or the smallest id of a table; zero for an empty one.
pub open spec fn extreme_id(function: Seq<char>, file: Seq<char>, t: Tbl) -> SelectTerm {
    SelectTerm::nothing().with_plain(
        Term::Call(
            DuckDbFunc::Coalesce.name_text(),
            seq![Term::Call(function, seq![sql::plain(Col::ItemId)]), Term::Int(0)],
        ),
    ).with_from(rows_as(file, t))
}

fn extreme_id_query(function: &str, file: &str, t: Tbl) -> (r: sea_query::SelectStatement)
    ensures
        statement::select_term(r) == extreme_id(function@, file@, t),
        statement::select_fits(statement::select_term(r)),
{
    broadcast use statement::group_fits;

    let mut inner: Vec<sea_query::SimpleExpr> = Vec::new();
    inner.push(sql::column(Col::ItemId));
    proof {
        assert(statement::expr_terms(inner@) =~= seq![sql::plain(Col::ItemId)]);
    }
    let mut args: Vec<sea_query::SimpleExpr> = Vec::new();
    args.push(statement::call(function, inner));
    args.push(statement::int_value(0));
    proof {
        assert(statement::expr_terms(args@) =~= seq![
            Term::Call(function@, seq![sql::plain(Col::ItemId)]),
            Term::Int(0),
        ]);
        assert(statement::term_fits(Term::Call(function@, seq![sql::plain(Col::ItemId)])));
    }
    let mut q = statement::select();
    statement::add_plain(&mut q, statement::call(DuckDbFunc::Coalesce.name(), args));
    add_rows_as(&mut q, file, t);
    q
}

/// The query for the largest id of a file.
pub fn max_id_query(refs_path: &str) -> (r: sea_query::SelectStatement)
    ensures
        statement::select_term(r) == extreme_id("MAX"@, refs_path@, Tbl::FileReferences),
        statement::select_fits(statement::select_term(r)),
{
    broadcast use statement::group_fits;

    extreme_id_query("MAX", refs_path, Tbl::FileReferences)
}

/// The query for the smallest id of an item.
pub fn min_id_query(items_path: &str) -> (r: sea_query::SelectStatement)
    ensures
        statement::select_term(r) == extreme_id("MIN"@, items_path@, Tbl::ItemReferences),
        statement::select_fits(statement::select_term(r)),
{
    broadcast use statement::group_fits;

    extreme_id_query("MIN", items_path, Tbl::ItemReferences)
}

/// The type of a column of an indexed table: numbers and truth values have their own, the
/// rest is text.
pub open spec fn indexed_kind(t: BiticalType) -> KindTerm {
    match t {
        BiticalType::Integer => KindTerm::BigInteger,
        BiticalType::Boolean => KindTerm::Boolean,
        _ => KindTerm::String,
    }
}

/// The columns that tags contribute to a table, in order.
pub open spec fn indexed_columns(columns: Seq<ColumnDefModel>, target: TargetTable) -> Seq<
    ColumnTerm,
>
    decreases columns.len(),
{
    if columns.len() == 0 {
        Seq::empty()
    } else {
        let before = indexed_columns(columns.drop_last(), target);
        let c = columns.last();
        if c.target_table == target {
            before.push(ColumnTerm { name: c.name, kind: indexed_kind(c.bitical_type) })
        } else {
            before
        }
    }
}

/// The columns of a table as indexing fills it. The tables that it does not fill are as they
/// are stored.
pub open spec fn staged_columns(target: TargetTable, columns: Seq<ColumnDefModel>) -> Seq<
    ColumnTerm,
> {
    let id = schema::column_with(Col::ItemId, KindTerm::BigInteger);
    let rank = schema::column_with(Col::Rank, KindTerm::BigInteger);
    match target {
        TargetTable::FileReferences => seq![id, rank] + indexed_columns(columns, target),
        TargetTable::Locations => seq![id] + indexed_columns(columns, target),
        TargetTable::BaseTags
        | TargetTable::TagsByLocation
        | TargetTable::SystemTags
        | TargetTable::UserTags => seq![
            id,
            schema::column_with(Col::Type, KindTerm::String),
            schema::column_with(Col::Label, KindTerm::String),
        ],
        TargetTable::ItemReferences => seq![
            id,
            rank,
            schema::column_with(Col::ItemKind, KindTerm::String),
            schema::column_with(Col::Content, KindTerm::String),
        ],
        TargetTable::DataTypes | TargetTable::RemovedFiles => schema::table_columns(
            target,
            columns,
        ),
    }
}

proof fn lemma_indexed_fit(columns: Seq<ColumnDefModel>, target: TargetTable)
    ensures
        forall|i: int|
            0 <= i < indexed_columns(columns, target).len() ==> !((#[trigger] indexed_columns(
                columns,
                target,
            )[i]).kind is Other),
    decreases columns.len(),
{
    if columns.len() > 0 {
        lemma_indexed_fit(columns.drop_last(), target);
    }
}

fn add_indexed(t: &mut sea_query::TableCreateStatement, columns: &Vec<ColumnDef>, target: TargetTable)
    ensures
        statement::table_term(*final(t)) == (TableTerm {
            columns: statement::table_term(*old(t)).columns + indexed_columns(
                schema::def_models(columns@),
                target,
            ),
            ..statement::table_term(*old(t))
        }),
{
    let ghost start = statement::table_term(*t);
    let ghost ms = schema::def_models(columns@);
    let mut i: usize = 0;
    proof {
        assert(start.columns + indexed_columns(ms.take(0), target) =~= start.columns);
    }
    while i < columns.len()
        invariant
            i <= columns@.len(),
            ms == schema::def_models(columns@),
            statement::table_term(*t) == (TableTerm {
                columns: start.columns + indexed_columns(ms.take(i as int), target),
                ..start
            }),
        decreases columns.len() - i,
    {
        let c = &columns[i];
        proof {
            assert(ms.take(i + 1).drop_last() =~= ms.take(i as int));
            assert(ms.take(i + 1).last() == columns@[i as int]@);
        }
        if c.target_table == target {
            match c.bitical_type {
                BiticalType::Integer => statement::add_big_integer(t, c.name.as_str()),
                BiticalType::Boolean => statement::add_boolean(t, c.name.as_str()),
                _ => statement::add_string(t, c.name.as_str()),
            }
            proof {
                assert(statement::table_term(*t).columns =~= start.columns + indexed_columns(
                    ms.take(i + 1),
                    target,
                ));
            }
        }
        i += 1;
    }
    proof {
        assert(ms.take(ms.len() as int) =~= ms);
    }
}

/// The creation of a table as indexing fills it, under a name.
pub fn build_table_schema(target: TargetTable, name: &str, columns: &Vec<ColumnDef>) -> (r:
    sea_query::TableCreateStatement)
    ensures
        statement::table_term(r) == (TableTerm {
            name: name@,
            columns: staged_columns(target, schema::def_models(columns@)),
        }),
        statement::table_fits(statement::table_term(r)),
{
    match target {
        TargetTable::DataTypes | TargetTable::RemovedFiles => {
            return schema::Schema::build_table(target, name, columns);
        },
        _ => {},
    }
    let mut t = statement::create_table(name);
    statement::add_big_integer(&mut t, Col::ItemId.name());
    match target {
        TargetTable::FileReferences => {
            statement::add_big_integer(&mut t, Col::Rank.name());
            add_indexed(&mut t, columns, target);
        },
        TargetTable::Locations => {
            add_indexed(&mut t, columns, target);
        },
        TargetTable::ItemReferences => {
            statement::add_big_integer(&mut t, Col::Rank.name());
            statement::add_string(&mut t, Col::ItemKind.name());
            statement::add_string(&mut t, Col::Content.name());
        },
        _ => {
            statement::add_string(&mut t, Col::Type.name());
            statement::add_string(&mut t, Col::Label.name());
        },
    }
    proof {
        assert(statement::table_term(t).columns =~= staged_columns(
            target,
            schema::def_models(columns@),
        ));
        lemma_indexed_fit(schema::def_models(columns@), target);
    }
    t
}

/// The columns that new tags are read from are there: the table of new tags has a type and a
/// label.
pub proof fn law_new_tags_have_a_type_and_a_label(columns: Seq<ColumnDefModel>)
    ensures
        staged_columns(TargetTable::BaseTags, columns).contains(
            schema::column_with(Col::Type, KindTerm::String),
        ),
        staged_columns(TargetTable::BaseTags, columns).contains(
            schema::column_with(Col::Label, KindTerm::String),
        ),
{
    let cols = staged_columns(TargetTable::BaseTags, columns);
    assert(cols[1] == schema::column_with(Col::Type, KindTerm::String));
    assert(cols[2] == schema::column_with(Col::Label, KindTerm::String));
}

/// The tables that must be there before anything is indexed, in the order in which they are
/// made.
pub fn initial_tables() -> (r: [TargetTable; 6])
    ensures
        r@ == seq![
            TargetTable::FileReferences,
            TargetTable::Locations,
            TargetTable::BaseTags,
            TargetTable::ItemReferences,
            TargetTable::SystemTags,
            TargetTable::UserTags,
        ],
{
    [
        TargetTable::FileReferences,
        TargetTable::Locations,
        TargetTable::BaseTags,
        TargetTable::ItemReferences,
        TargetTable::SystemTags,
        TargetTable::UserTags,
    ]
}

} // verus!
