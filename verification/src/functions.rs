//! The tags that every file has: how each is read from a path and from what is known of the
//! file, and where it is stored.
use crate::col::Col;
use crate::db::schema;
use crate::db::schema::{ColumnDef, ColumnDefModel};
use crate::db::TargetTable;
use crate::edit::fs_operate::FileTimestamp;
use crate::path;
use crate::text;
use crate::types;
use crate::types::{BiticalType, Number};
use vstd::prelude::*;

verus! {

/// What stands for a number that could not be read.
pub const METADATA_ERROR: i64 = -1;

/// What is known of a file: whether it is a directory, its size in bytes, the second in which
/// it was changed, its identity, and the form in which its size is shown.
#[derive(Debug, Clone, PartialEq, Eq)]
pub struct SafeMetadata {
    pub is_dir: bool,
    pub len: i64,
    pub modified: i64,
    pub file_ref: Option<u128>,
    pub size_text: String,
}

#[verifier::ext_equal]
pub struct MetadataModel {
    pub is_dir: bool,
    pub len: i64,
    pub modified: i64,
    pub file_ref: Option<u128>,
    pub size_text: Seq<char>,
}

impl View for SafeMetadata {
    type V = MetadataModel;

    open spec fn view(&self) -> MetadataModel {
        MetadataModel {
            is_dir: self.is_dir,
            len: self.len,
            modified: self.modified,
            file_ref: self.file_ref,
            size_text: self.size_text@,
        }
    }
}

/// What is known of a file that cannot be read.
pub open spec fn unknown_file() -> MetadataModel {
    MetadataModel {
        is_dir: false,
        len: METADATA_ERROR,
        modified: METADATA_ERROR,
        file_ref: None,
        size_text: Seq::empty(),
    }
}

impl SafeMetadata {
    /// What is known of a file that cannot be read.
    pub fn recovered() -> (r: Self)
        ensures
            r@ == unknown_file(),
    {
        SafeMetadata {
            is_dir: false,
            len: METADATA_ERROR,
            modified: METADATA_ERROR,
            file_ref: None,
            size_text: String::new(),
        }
    }

    fn copied(&self) -> (r: Self)
        ensures
            r@ == self@,
    {
        SafeMetadata {
            is_dir: self.is_dir,
            len: self.len,
            modified: self.modified,
            file_ref: self.file_ref,
            size_text: self.size_text.clone(),
        }
    }
}

/// What came of looking at a file.
#[derive(Debug)]
pub enum FileStat {
    Found(SafeMetadata),
    NotFound,
    Unreadable,
}

/// Why a file has no tag.
#[derive(Clone, Copy, Debug, PartialEq, Eq, Structural)]
pub enum TagError {
    NotFound,
    NoFileId,
}

/// What is known of a file after looking at it: a file that is not there has no tags, one that
/// cannot be read has those of an unknown one.
pub open spec fn known(stat: FileStat) -> Result<MetadataModel, TagError> {
    match stat {
        FileStat::Found(m) => Ok(m@),
        FileStat::NotFound => Err(TagError::NotFound),
        FileStat::Unreadable => Ok(unknown_file()),
    }
}

fn metadata_of(stat: &FileStat) -> (r: Result<SafeMetadata, TagError>)
    ensures
        match r {
            Ok(m) => known(*stat) == Ok::<MetadataModel, TagError>(m@),
            Err(e) => known(*stat) == Err::<MetadataModel, TagError>(e),
        },
{
    match stat {
        FileStat::Found(m) => Ok(m.copied()),
        FileStat::NotFound => Err(TagError::NotFound),
        FileStat::Unreadable => Ok(SafeMetadata::recovered()),
    }
}

/// A value of a tag.
#[derive(Debug, PartialEq, Eq)]
pub enum TagValue {
    Text(String),
    BigInt(i64),
    Boolean(bool),
    Double(Number),
    Uuid(u128),
    Null,
}

#[verifier::ext_equal]
pub enum TagValueModel {
    Text(Seq<char>),
    BigInt(i64),
    Boolean(bool),
    Double(u64, Seq<char>),
    Uuid(u128),
    Null,
}

impl View for TagValue {
    type V = TagValueModel;

    open spec fn view(&self) -> TagValueModel {
        match *self {
            TagValue::Text(s) => TagValueModel::Text(s@),
            TagValue::BigInt(i) => TagValueModel::BigInt(i),
            TagValue::Boolean(b) => TagValueModel::Boolean(b),
            TagValue::Double(n) => TagValueModel::Double(n.bits, n.shown@),
            TagValue::Uuid(u) => TagValueModel::Uuid(u),
            TagValue::Null => TagValueModel::Null,
        }
    }
}

impl TagValueModel {
    /// The value as text; a missing one has none.
    pub open spec fn shown(self) -> Option<Seq<char>> {
        match self {
            TagValueModel::Text(s) => Some(s),
            TagValueModel::BigInt(i) => Some(text::int_text(i as int)),
            TagValueModel::Boolean(b) => Some(types::bool_text(b)),
            TagValueModel::Double(_, s) => Some(s),
            TagValueModel::Uuid(u) => Some(types::uuid_shown(u)),
            TagValueModel::Null => None,
        }
    }
}

impl TagValue {
    /// The value as text; a missing one has none.
    pub fn into_string(self) -> (r: Option<String>)
        ensures
            match r {
                Some(s) => self@.shown() == Some(s@),
                None => self@.shown() is None,
            },
    {
        match self {
            TagValue::Text(s) => Some(s),
            TagValue::BigInt(i) => Some(text::show_i64(i)),
            TagValue::Boolean(b) => Some(
                if b {
                    "true".to_string()
                } else {
                    "false".to_string()
                },
            ),
            TagValue::Double(n) => Some(n.shown),
            TagValue::Uuid(u) => Some(types::uuid_to_text(u)),
            TagValue::Null => None,
        }
    }
}

pub open spec fn value_models(v: Seq<TagValue>) -> Seq<TagValueModel> {
    v.map_values(|t: TagValue| t@)
}

pub open spec fn tags_model(r: Result<Vec<TagValue>, TagError>) -> Result<
    Seq<TagValueModel>,
    TagError,
> {
    match r {
        Ok(v) => Ok(value_models(v@)),
        Err(e) => Err(e),
    }
}

pub open spec fn value_model(o: Option<TagValue>) -> Option<TagValueModel> {
    match o {
        Some(v) => Some(v@),
        None => None,
    }
}

fn only(v: TagValue) -> (r: Vec<TagValue>)
    ensures
        value_models(r@) == seq![v@],
{
    let mut out: Vec<TagValue> = Vec::new();
    out.push(v);
    proof {
        assert(value_models(out@) =~= seq![v@]);
    }
    out
}

/// What a tag is for when files are compared with those of the last scan: where a file lies,
/// which file it is, whether it was changed, or nothing. Some types of tags are only defined,
/// and no file has them.
#[derive(Debug, PartialEq, Eq, Clone, Copy, Structural)]
pub enum ScanRole {
    Location,
    ScanId,
    Integrity,
    Other,
    DefinitionOnly,
}

/// A rank that the program gives to a type of tag.
#[derive(Debug, PartialEq, Eq, Clone, Copy, Structural)]
pub enum SystemRank {
    Default,
    Path,
    ParentDir,
    Filename,
    TypeFromExt,
    SizeStr,
    ModifiedStr,
    Name,
    ItemKind,
    Content,
}

/// A column of a scan.
#[derive(Debug, Clone, Copy)]
pub struct ScanColumn {
    pub name: &'static str,
    pub bitical_type: BiticalType,
    pub role: ScanRole,
}

/// A type of tag that files have or that is only defined.
pub trait IndexingFunction {
    spec fn column(&self) -> Col;

    spec fn scan_role(&self) -> ScanRole;

    spec fn rank(&self) -> SystemRank;

    spec fn defs(&self) -> Seq<ColumnDefModel>;

    spec fn from_path(&self, path: Seq<char>) -> Option<TagValueModel>;

    /// Whether the tags can be told of a file of which so much is known.
    spec fn tells(&self, m: MetadataModel) -> bool;

    /// Whether a file with a path, at which `stat` was found, may have some tags.
    spec fn tags(
        &self,
        path: Seq<char>,
        stat: FileStat,
        r: Result<Seq<TagValueModel>, TagError>,
    ) -> bool;

    /// The type of the tag.
    fn name(&self) -> (r: Col)
        ensures
            r == self.column(),
    ;

    /// What the tag is for when files are compared.
    fn role(&self) -> (r: ScanRole)
        ensures
            r == self.scan_role(),
    ;

    /// The rank of the type.
    fn default_rank(&self) -> (r: SystemRank)
        ensures
            r == self.rank(),
    ;

    /// The columns that the tag is stored in.
    fn get_columns(&self) -> (r: Vec<ColumnDef>)
        ensures
            schema::def_models(r@) == self.defs(),
    ;

    /// The tag of a file that is known by its path only, if the path gives it.
    fn generate_from_path(&self, path: &str) -> (r: Option<TagValue>)
        ensures
            value_model(r) == self.from_path(path@),
    ;

    /// The tags of a file.
    fn tag_file(&self, path: &str, stat: &FileStat) -> (r: Result<Vec<TagValue>, TagError>)
        requires
            known(*stat) matches Ok(m) ==> self.tells(m),
        ensures
            self.tags(path@, *stat, tags_model(r)),
    ;
}

/// A type of tag whose values are of one type.
pub trait TagDefinition {
    type RustType;

    spec fn defined_as() -> Col;

    spec fn defined_role() -> ScanRole;

    /// Whether the value can be told of a file of which so much is known.
    spec fn tells_of(m: MetadataModel) -> bool;

    /// Whether a value may come of a path and of what is known of its file.
    spec fn generates(path: Seq<char>, m: MetadataModel, r: Result<Self::RustType, TagError>) -> bool;

    /// The type of the tag.
    fn tag_name() -> (r: Col)
        ensures
            r == Self::defined_as(),
    ;

    /// The part that the tag plays in scans.
    fn tag_role() -> (r: ScanRole)
        ensures
            r == Self::defined_role(),
    ;

    /// The value of the tag.
    fn generate(path: &str, metadata: &SafeMetadata) -> (r: Result<Self::RustType, TagError>)
        requires
            Self::tells_of(metadata@),
        ensures
            Self::generates(path@, metadata@, r),
    ;
}

/// A value of a type of tag.
pub struct Field<D: TagDefinition> {
    pub value: D::RustType,
}

/// The size of a file in bytes.
#[derive(Clone, Copy, Debug, PartialEq, Eq, Structural)]
pub struct FileSize(pub i64);

fn one_column(c: Col, ty: BiticalType, table: TargetTable) -> (r: Vec<ColumnDef>)
    ensures
        schema::def_models(r@) == column_defs(c, ty, table),
{
    let mut v: Vec<ColumnDef> = Vec::new();
    v.push(ColumnDef { name: c.name().to_string(), bitical_type: ty, target_table: table });
    proof {
        assert(schema::def_models(v@) =~= column_defs(c, ty, table));
    }
    v
}

pub open spec fn column_defs(c: Col, ty: BiticalType, table: TargetTable) -> Seq<ColumnDefModel> {
    seq![ColumnDefModel { name: c.name_text(), bitical_type: ty, target_table: table }]
}

// ---------------------------------------------------------------------------
// What the tags are
// ---------------------------------------------------------------------------

/// The directory that a path lies in; nothing for a path that lies in none.
pub open spec fn parent_text(p: Seq<char>) -> Seq<char> {
    match path::parent_of(p) {
        Some(d) => d,
        None => Seq::empty(),
    }
}

pub open spec fn name_text(p: Seq<char>) -> Seq<char> {
    match path::file_name_of(p) {
        Some(n) => n,
        None => Seq::empty(),
    }
}

pub open spec fn stem_text(p: Seq<char>) -> Seq<char> {
    match path::stem_of(p) {
        Some(n) => n,
        None => Seq::empty(),
    }
}

/// The extension of a file in small letters.
pub open spec fn lower_extension(p: Seq<char>) -> Option<Seq<char>> {
    match path::extension_of(p) {
        Some(e) => Some(text::lowercase(e)),
        None => None,
    }
}

/// The kind of a file by its extension.
pub open spec fn kind_text(p: Seq<char>, is_dir: bool) -> Seq<char> {
    if is_dir {
        "Folder"@
    } else {
        match path::extension_of(p) {
            Some(e) => text::uppercase(e),
            None => "File"@,
        }
    }
}

pub open spec fn or_nothing(o: Option<Seq<char>>) -> Seq<char> {
    match o {
        Some(s) => s,
        None => Seq::empty(),
    }
}

/// The size of a file as it is shown; a dash where it could not be read.
pub open spec fn size_shown(m: MetadataModel) -> Seq<char> {
    if m.len == METADATA_ERROR {
        "-"@
    } else {
        m.size_text
    }
}

/// Whether the time of a change can be shown: it is not known, or a second of the calendar.
pub open spec fn showable(modified: i64) -> bool {
    modified == METADATA_ERROR || 0 <= modified <= 8_210_000_000_000
}

/// Whether the time of a change can be shown.
pub fn can_show_time(modified: i64) -> (r: bool)
    ensures
        r == showable(modified),
{
    modified == METADATA_ERROR || (0 <= modified && modified <= 8_210_000_000_000)
}

pub open spec fn is_leap_year(y: int) -> bool {
    y % 4 == 0 && (y % 100 != 0 || y % 400 == 0)
}

pub open spec fn year_days(y: int) -> int {
    if is_leap_year(y) {
        366
    } else {
        365
    }
}

pub open spec fn month_days(y: int, m: int) -> int {
    if m == 2 {
        if is_leap_year(y) {
            29
        } else {
            28
        }
    } else if m == 4 || m == 6 || m == 9 || m == 11 {
        30
    } else {
        31
    }
}

/// The year of a day that is counted from the start of the year `y`, and the day counted from
/// the start of its own year.
pub open spec fn year_and_day(day: int, y: int) -> (int, int)
    decreases day,
{
    if day < year_days(y) {
        (y, day)
    } else {
        year_and_day(day - year_days(y), y + 1)
    }
}

/// The month of a day that is counted from the start of the month `m`, and its day in that
/// month.
pub open spec fn month_and_day(day: int, y: int, m: int) -> (int, int)
    decreases 12 - m,
{
    if m >= 12 || day < month_days(y, m) {
        (m, day + 1)
    } else {
        month_and_day(day - month_days(y, m), y, m + 1)
    }
}

/// A number with two digits at least.
pub open spec fn two_digits(n: int) -> Seq<char> {
    if n < 10 {
        "0"@ + text::nat_text(n as nat)
    } else {
        text::nat_text(n as nat)
    }
}

/// A year, with a sign where it has more than four digits.
pub open spec fn year_text(y: int) -> Seq<char> {
    if y > 9999 {
        "+"@ + text::nat_text(y as nat)
    } else {
        text::nat_text(y as nat)
    }
}

/// The day and the minute that a second lies in, by the calendar and the clock. Seconds are
/// counted from the start of the year 1970; none lies before 1969.
pub open spec fn minute_text(secs: int) -> Seq<char> {
    let of_year = year_and_day(secs / 86_400 + 365, 1969);
    let of_month = month_and_day(of_year.1, of_year.0, 1);
    let minute = secs % 86_400 / 60;
    year_text(of_year.0) + "-"@ + two_digits(of_month.0) + "-"@ + two_digits(of_month.1) + " "@
        + two_digits(minute / 60) + ":"@ + two_digits(minute % 60)
}

/// Whether a text is the minute of a second in a time zone, whose clock is off by less than a
/// day.
pub open spec fn minute_in_zone(secs: int, offset: int, shown: Seq<char>) -> bool {
    -86_400 < offset < 86_400 && shown == minute_text(secs + offset)
}

/// The time of a change as it is shown, in a form that it was written in; a dash where it
/// could not be read.
pub open spec fn time_shown(modified: i64, written: Seq<char>) -> Seq<char> {
    if modified == METADATA_ERROR {
        "-"@
    } else {
        written
    }
}

/// The time of a change as it is shown, in a form that it was written in.
pub fn show_time(modified: i64, written: String) -> (r: String)
    ensures
        r@ == time_shown(modified, written@),
{
    if modified == METADATA_ERROR {
        "-".to_string()
    } else {
        written
    }
}

/// `DateTime::<Local>::from` and `DateTime::format` of the `chrono` crate: a second as a day
/// and a minute in the time zone of the machine, which is off by less than a day. Which zone
/// that is, nothing is said of.
#[verifier::external_body]
fn local_minute(secs: u64) -> (r: String)
    requires
        secs <= 8_210_000_000_000,
    ensures
        exists|offset: int| #[trigger] minute_in_zone(secs as int, offset, r@),
{
    let at = std::time::UNIX_EPOCH + std::time::Duration::from_secs(secs);
    let local: chrono::DateTime<chrono::Local> = at.into();
    local.format("%Y-%m-%d %H:%M").to_string()
}

fn parent_or_nothing(p: &str) -> (r: String)
    ensures
        r@ == parent_text(p@),
{
    match path::parent(p) {
        Some(d) => d,
        None => String::new(),
    }
}

fn name_or_nothing(p: &str) -> (r: String)
    ensures
        r@ == name_text(p@),
{
    match path::file_name(p) {
        Some(n) => n,
        None => String::new(),
    }
}

fn stem_or_nothing(p: &str) -> (r: String)
    ensures
        r@ == stem_text(p@),
{
    match path::file_stem(p) {
        Some(n) => n,
        None => String::new(),
    }
}

fn extension_lower(p: &str) -> (r: Option<String>)
    ensures
        match r {
            Some(s) => lower_extension(p@) == Some(s@),
            None => lower_extension(p@) is None,
        },
{
    match path::extension(p) {
        Some(e) => Some(text::to_lower(e.as_str())),
        None => None,
    }
}

fn kind_of_file(p: &str, is_dir: bool) -> (r: String)
    ensures
        r@ == kind_text(p@, is_dir),
{
    if is_dir {
        return "Folder".to_string();
    }
    match path::extension(p) {
        Some(e) => text::to_upper(e.as_str()),
        None => "File".to_string(),
    }
}

/// Whether the tags of a file are some value that is a function of what is known of it.
pub open spec fn from_known(
    stat: FileStat,
    f: spec_fn(MetadataModel) -> TagValueModel,
    r: Result<Seq<TagValueModel>, TagError>,
) -> bool {
    r == match known(stat) {
        Ok(m) => Ok::<Seq<TagValueModel>, TagError>(seq![f(m)]),
        Err(e) => Err(e),
    }
}

fn no_values() -> (r: Vec<TagValue>)
    ensures
        value_models(r@) == Seq::<TagValueModel>::empty(),
{
    let v: Vec<TagValue> = Vec::new();
    proof {
        assert(value_models(v@) =~= Seq::empty());
    }
    v
}

fn shown_size(m: &SafeMetadata) -> (r: String)
    ensures
        r@ == size_shown(m@),
{
    if m.len == METADATA_ERROR {
        "-".to_string()
    } else {
        m.size_text.clone()
    }
}

/// Whether a text is a form in which the time of a change, where it is known, is written: its
/// day and minute in some time zone.
pub open spec fn holds_time(modified: i64, written: Seq<char>) -> bool {
    showable(modified) && (modified != METADATA_ERROR ==> exists|offset: int| #[trigger]
        minute_in_zone(modified as int, offset, written))
}

fn local_time(modified: i64) -> (r: (String, Ghost<Seq<char>>))
    requires
        showable(modified),
    ensures
        r.0@ == time_shown(modified, r.1@),
        holds_time(modified, r.1@),
{
    if modified == METADATA_ERROR {
        let none = Ghost(Seq::<char>::empty());
        return (show_time(modified, String::new()), none);
    }
    let written = local_minute(modified as u64);
    let ghost w = written@;
    (show_time(modified, written), Ghost(w))
}

// ---------------------------------------------------------------------------
// PathFunction
// ---------------------------------------------------------------------------

/// The path of a file.
#[derive(Debug)]
pub struct PathFunction;

impl PathFunction {
    pub fn new() -> (r: Self)
        ensures
            r == PathFunction,
    {
        PathFunction
    }
}

impl IndexingFunction for PathFunction {
    open spec fn column(&self) -> Col {
        Col::Path
    }

    open spec fn scan_role(&self) -> ScanRole {
        ScanRole::Location
    }

    open spec fn rank(&self) -> SystemRank {
        SystemRank::Path
    }

    open spec fn defs(&self) -> Seq<ColumnDefModel> {
        column_defs(Col::Path, BiticalType::String, TargetTable::Locations)
    }

    open spec fn from_path(&self, path: Seq<char>) -> Option<TagValueModel> {
        Some(TagValueModel::Text(path))
    }

    open spec fn tells(&self, m: MetadataModel) -> bool {
        true
    }

    open spec fn tags(
        &self,
        path: Seq<char>,
        stat: FileStat,
        r: Result<Seq<TagValueModel>, TagError>,
    ) -> bool {
        r == Ok::<Seq<TagValueModel>, TagError>(seq![TagValueModel::Text(path)])
    }

    fn name(&self) -> (r: Col) {
        Col::Path
    }

    fn role(&self) -> (r: ScanRole) {
        ScanRole::Location
    }

    fn default_rank(&self) -> (r: SystemRank) {
        SystemRank::Path
    }

    fn get_columns(&self) -> (r: Vec<ColumnDef>) {
        one_column(Col::Path, BiticalType::String, TargetTable::Locations)
    }

    fn generate_from_path(&self, path: &str) -> (r: Option<TagValue>) {
        Some(TagValue::Text(path.to_string()))
    }

    fn tag_file(&self, path: &str, _stat: &FileStat) -> (r: Result<Vec<TagValue>, TagError>) {
        Ok(only(TagValue::Text(path.to_string())))
    }
}

impl TagDefinition for PathFunction {
    type RustType = String;

    open spec fn defined_as() -> Col {
        Col::Path
    }

    open spec fn defined_role() -> ScanRole {
        ScanRole::Location
    }

    open spec fn tells_of(m: MetadataModel) -> bool {
        true
    }

    open spec fn generates(path: Seq<char>, m: MetadataModel, r: Result<String, TagError>) -> bool {
        r matches Ok(s) && s@ == path
    }

    fn tag_name() -> (r: Col) {
        Col::Path
    }

    fn tag_role() -> (r: ScanRole) {
        ScanRole::Location
    }

    fn generate(path: &str, _metadata: &SafeMetadata) -> (r: Result<String, TagError>) {
        Ok(path.to_string())
    }
}

// ---------------------------------------------------------------------------
// ParentDirFunction
// ---------------------------------------------------------------------------

/// The directory that a file lies in.
#[derive(Debug)]
pub struct ParentDirFunction;

impl ParentDirFunction {
    pub fn new() -> (r: Self)
        ensures
            r == ParentDirFunction,
    {
        ParentDirFunction
    }
}

impl IndexingFunction for ParentDirFunction {
    open spec fn column(&self) -> Col {
        Col::Parentdir
    }

    open spec fn scan_role(&self) -> ScanRole {
        ScanRole::Location
    }

    open spec fn rank(&self) -> SystemRank {
        SystemRank::ParentDir
    }

    open spec fn defs(&self) -> Seq<ColumnDefModel> {
        column_defs(Col::Parentdir, BiticalType::String, TargetTable::Locations)
    }

    open spec fn from_path(&self, path: Seq<char>) -> Option<TagValueModel> {
        match path::parent_of(path) {
            Some(d) => Some(TagValueModel::Text(d)),
            None => None,
        }
    }

    open spec fn tells(&self, m: MetadataModel) -> bool {
        true
    }

    open spec fn tags(
        &self,
        path: Seq<char>,
        stat: FileStat,
        r: Result<Seq<TagValueModel>, TagError>,
    ) -> bool {
        r == Ok::<Seq<TagValueModel>, TagError>(seq![TagValueModel::Text(parent_text(path))])
    }

    fn name(&self) -> (r: Col) {
        Col::Parentdir
    }

    fn role(&self) -> (r: ScanRole) {
        ScanRole::Location
    }

    fn default_rank(&self) -> (r: SystemRank) {
        SystemRank::ParentDir
    }

    fn get_columns(&self) -> (r: Vec<ColumnDef>) {
        one_column(Col::Parentdir, BiticalType::String, TargetTable::Locations)
    }

    fn generate_from_path(&self, path: &str) -> (r: Option<TagValue>) {
        match path::parent(path) {
            Some(d) => Some(TagValue::Text(d)),
            None => None,
        }
    }

    fn tag_file(&self, path: &str, _stat: &FileStat) -> (r: Result<Vec<TagValue>, TagError>) {
        Ok(only(TagValue::Text(parent_or_nothing(path))))
    }
}

impl TagDefinition for ParentDirFunction {
    type RustType = String;

    open spec fn defined_as() -> Col {
        Col::Parentdir
    }

    open spec fn defined_role() -> ScanRole {
        ScanRole::Location
    }

    open spec fn tells_of(m: MetadataModel) -> bool {
        true
    }

    open spec fn generates(path: Seq<char>, m: MetadataModel, r: Result<String, TagError>) -> bool {
        r matches Ok(s) && s@ == parent_text(path)
    }

    fn tag_name() -> (r: Col) {
        Col::Parentdir
    }

    fn tag_role() -> (r: ScanRole) {
        ScanRole::Location
    }

    fn generate(path: &str, _metadata: &SafeMetadata) -> (r: Result<String, TagError>) {
        Ok(parent_or_nothing(path))
    }
}

// ---------------------------------------------------------------------------
// FilenameFunction
// ---------------------------------------------------------------------------

/// The name of a file.
#[derive(Debug)]
pub struct FilenameFunction;

impl FilenameFunction {
    pub fn new() -> (r: Self)
        ensures
            r == FilenameFunction,
    {
        FilenameFunction
    }
}

impl IndexingFunction for FilenameFunction {
    open spec fn column(&self) -> Col {
        Col::Filename
    }

    open spec fn scan_role(&self) -> ScanRole {
        ScanRole::Location
    }

    open spec fn rank(&self) -> SystemRank {
        SystemRank::Filename
    }

    open spec fn defs(&self) -> Seq<ColumnDefModel> {
        column_defs(Col::Filename, BiticalType::String, TargetTable::Locations)
    }

    open spec fn from_path(&self, path: Seq<char>) -> Option<TagValueModel> {
        Some(TagValueModel::Text(name_text(path)))
    }

    open spec fn tells(&self, m: MetadataModel) -> bool {
        true
    }

    open spec fn tags(
        &self,
        path: Seq<char>,
        stat: FileStat,
        r: Result<Seq<TagValueModel>, TagError>,
    ) -> bool {
        from_known(stat, |_m: MetadataModel| TagValueModel::Text(name_text(path)), r)
    }

    fn name(&self) -> (r: Col) {
        Col::Filename
    }

    fn role(&self) -> (r: ScanRole) {
        ScanRole::Location
    }

    fn default_rank(&self) -> (r: SystemRank) {
        SystemRank::Filename
    }

    fn get_columns(&self) -> (r: Vec<ColumnDef>) {
        one_column(Col::Filename, BiticalType::String, TargetTable::Locations)
    }

    fn generate_from_path(&self, path: &str) -> (r: Option<TagValue>) {
        Some(TagValue::Text(name_or_nothing(path)))
    }

    fn tag_file(&self, path: &str, stat: &FileStat) -> (r: Result<Vec<TagValue>, TagError>) {
        match metadata_of(stat) {
            Ok(_) => Ok(only(TagValue::Text(name_or_nothing(path)))),
            Err(e) => Err(e),
        }
    }
}

impl TagDefinition for FilenameFunction {
    type RustType = String;

    open spec fn defined_as() -> Col {
        Col::Filename
    }

    open spec fn defined_role() -> ScanRole {
        ScanRole::Location
    }

    open spec fn tells_of(m: MetadataModel) -> bool {
        true
    }

    open spec fn generates(path: Seq<char>, m: MetadataModel, r: Result<String, TagError>) -> bool {
        r matches Ok(s) && s@ == name_text(path)
    }

    fn tag_name() -> (r: Col) {
        Col::Filename
    }

    fn tag_role() -> (r: ScanRole) {
        ScanRole::Location
    }

    fn generate(path: &str, _metadata: &SafeMetadata) -> (r: Result<String, TagError>) {
        Ok(name_or_nothing(path))
    }
}

// ---------------------------------------------------------------------------
// StemFunction
// ---------------------------------------------------------------------------

/// The name of a file without its extension.
#[derive(Debug)]
pub struct StemFunction;

impl StemFunction {
    pub fn new() -> (r: Self)
        ensures
            r == StemFunction,
    {
        StemFunction
    }
}

impl IndexingFunction for StemFunction {
    open spec fn column(&self) -> Col {
        Col::Stem
    }

    open spec fn scan_role(&self) -> ScanRole {
        ScanRole::Other
    }

    open spec fn rank(&self) -> SystemRank {
        SystemRank::Default
    }

    open spec fn defs(&self) -> Seq<ColumnDefModel> {
        column_defs(Col::Stem, BiticalType::String, TargetTable::BaseTags)
    }

    open spec fn from_path(&self, path: Seq<char>) -> Option<TagValueModel> {
        None
    }

    open spec fn tells(&self, m: MetadataModel) -> bool {
        true
    }

    open spec fn tags(
        &self,
        path: Seq<char>,
        stat: FileStat,
        r: Result<Seq<TagValueModel>, TagError>,
    ) -> bool {
        r == Ok::<Seq<TagValueModel>, TagError>(seq![TagValueModel::Text(stem_text(path))])
    }

    fn name(&self) -> (r: Col) {
        Col::Stem
    }

    fn role(&self) -> (r: ScanRole) {
        ScanRole::Other
    }

    fn default_rank(&self) -> (r: SystemRank) {
        SystemRank::Default
    }

    fn get_columns(&self) -> (r: Vec<ColumnDef>) {
        one_column(Col::Stem, BiticalType::String, TargetTable::BaseTags)
    }

    fn generate_from_path(&self, _path: &str) -> (r: Option<TagValue>) {
        None
    }

    fn tag_file(&self, path: &str, _stat: &FileStat) -> (r: Result<Vec<TagValue>, TagError>) {
        Ok(only(TagValue::Text(stem_or_nothing(path))))
    }
}

impl TagDefinition for StemFunction {
    type RustType = String;

    open spec fn defined_as() -> Col {
        Col::Stem
    }

    open spec fn defined_role() -> ScanRole {
        ScanRole::Other
    }

    open spec fn tells_of(m: MetadataModel) -> bool {
        true
    }

    open spec fn generates(path: Seq<char>, m: MetadataModel, r: Result<String, TagError>) -> bool {
        r matches Ok(s) && s@ == stem_text(path)
    }

    fn tag_name() -> (r: Col) {
        Col::Stem
    }

    fn tag_role() -> (r: ScanRole) {
        ScanRole::Other
    }

    fn generate(path: &str, _metadata: &SafeMetadata) -> (r: Result<String, TagError>) {
        Ok(stem_or_nothing(path))
    }
}

// ---------------------------------------------------------------------------
// ExtensionFunction
// ---------------------------------------------------------------------------

/// The extension of a file, in small letters. A file without one has no such tag.
#[derive(Debug)]
pub struct ExtensionFunction;

impl ExtensionFunction {
    pub fn new() -> (r: Self)
        ensures
            r == ExtensionFunction,
    {
        ExtensionFunction
    }
}

impl IndexingFunction for ExtensionFunction {
    open spec fn column(&self) -> Col {
        Col::Extension
    }

    open spec fn scan_role(&self) -> ScanRole {
        ScanRole::Location
    }

    open spec fn rank(&self) -> SystemRank {
        SystemRank::Default
    }

    open spec fn defs(&self) -> Seq<ColumnDefModel> {
        column_defs(Col::Extension, BiticalType::String, TargetTable::Locations)
    }

    open spec fn from_path(&self, path: Seq<char>) -> Option<TagValueModel> {
        match lower_extension(path) {
            Some(e) => Some(TagValueModel::Text(e)),
            None => None,
        }
    }

    open spec fn tells(&self, m: MetadataModel) -> bool {
        true
    }

    open spec fn tags(
        &self,
        path: Seq<char>,
        stat: FileStat,
        r: Result<Seq<TagValueModel>, TagError>,
    ) -> bool {
        r == Ok::<Seq<TagValueModel>, TagError>(
            seq![
                match lower_extension(path) {
                    Some(e) => TagValueModel::Text(e),
                    None => TagValueModel::Null,
                },
            ],
        )
    }

    fn name(&self) -> (r: Col) {
        Col::Extension
    }

    fn role(&self) -> (r: ScanRole) {
        ScanRole::Location
    }

    fn default_rank(&self) -> (r: SystemRank) {
        SystemRank::Default
    }

    fn get_columns(&self) -> (r: Vec<ColumnDef>) {
        one_column(Col::Extension, BiticalType::String, TargetTable::Locations)
    }

    fn generate_from_path(&self, path: &str) -> (r: Option<TagValue>) {
        match extension_lower(path) {
            Some(e) => Some(TagValue::Text(e)),
            None => None,
        }
    }

    fn tag_file(&self, path: &str, _stat: &FileStat) -> (r: Result<Vec<TagValue>, TagError>) {
        match extension_lower(path) {
            Some(e) => Ok(only(TagValue::Text(e))),
            None => Ok(only(TagValue::Null)),
        }
    }
}

impl TagDefinition for ExtensionFunction {
    type RustType = String;

    open spec fn defined_as() -> Col {
        Col::Extension
    }

    open spec fn defined_role() -> ScanRole {
        ScanRole::Location
    }

    open spec fn tells_of(m: MetadataModel) -> bool {
        true
    }

    open spec fn generates(path: Seq<char>, m: MetadataModel, r: Result<String, TagError>) -> bool {
        r matches Ok(s) && s@ == or_nothing(lower_extension(path))
    }

    fn tag_name() -> (r: Col) {
        Col::Extension
    }

    fn tag_role() -> (r: ScanRole) {
        ScanRole::Location
    }

    fn generate(path: &str, _metadata: &SafeMetadata) -> (r: Result<String, TagError>) {
        match extension_lower(path) {
            Some(e) => Ok(e),
            None => Ok(String::new()),
        }
    }
}

// ---------------------------------------------------------------------------
// DirectoryFunction
// ---------------------------------------------------------------------------

/// Whether a file is a directory.
#[derive(Debug)]
pub struct DirectoryFunction;

impl DirectoryFunction {
    pub fn new() -> (r: Self)
        ensures
            r == DirectoryFunction,
    {
        DirectoryFunction
    }
}

impl IndexingFunction for DirectoryFunction {
    open spec fn column(&self) -> Col {
        Col::IsDir
    }

    open spec fn scan_role(&self) -> ScanRole {
        ScanRole::Other
    }

    open spec fn rank(&self) -> SystemRank {
        SystemRank::Default
    }

    open spec fn defs(&self) -> Seq<ColumnDefModel> {
        column_defs(Col::IsDir, BiticalType::Boolean, TargetTable::BaseTags)
    }

    open spec fn from_path(&self, path: Seq<char>) -> Option<TagValueModel> {
        None
    }

    open spec fn tells(&self, m: MetadataModel) -> bool {
        true
    }

    open spec fn tags(
        &self,
        path: Seq<char>,
        stat: FileStat,
        r: Result<Seq<TagValueModel>, TagError>,
    ) -> bool {
        r == Ok::<Seq<TagValueModel>, TagError>(
            seq![
                TagValueModel::Boolean(
                    match stat {
                        FileStat::Found(m) => m.is_dir,
                        _ => false,
                    },
                ),
            ],
        )
    }

    fn name(&self) -> (r: Col) {
        Col::IsDir
    }

    fn role(&self) -> (r: ScanRole) {
        ScanRole::Other
    }

    fn default_rank(&self) -> (r: SystemRank) {
        SystemRank::Default
    }

    fn get_columns(&self) -> (r: Vec<ColumnDef>) {
        one_column(Col::IsDir, BiticalType::Boolean, TargetTable::BaseTags)
    }

    fn generate_from_path(&self, _path: &str) -> (r: Option<TagValue>) {
        None
    }

    fn tag_file(&self, _path: &str, stat: &FileStat) -> (r: Result<Vec<TagValue>, TagError>) {
        let is_dir = match stat {
            FileStat::Found(m) => m.is_dir,
            _ => false,
        };
        Ok(only(TagValue::Boolean(is_dir)))
    }
}

impl TagDefinition for DirectoryFunction {
    type RustType = bool;

    open spec fn defined_as() -> Col {
        Col::IsDir
    }

    open spec fn defined_role() -> ScanRole {
        ScanRole::Other
    }

    open spec fn tells_of(m: MetadataModel) -> bool {
        true
    }

    open spec fn generates(path: Seq<char>, m: MetadataModel, r: Result<bool, TagError>) -> bool {
        r == Ok::<bool, TagError>(m.is_dir)
    }

    fn tag_name() -> (r: Col) {
        Col::IsDir
    }

    fn tag_role() -> (r: ScanRole) {
        ScanRole::Other
    }

    fn generate(_path: &str, metadata: &SafeMetadata) -> (r: Result<bool, TagError>) {
        Ok(metadata.is_dir)
    }
}

// ---------------------------------------------------------------------------
// SizeBytesFunction
// ---------------------------------------------------------------------------

/// The size of a file in bytes.
#[derive(Debug)]
pub struct SizeBytesFunction;

impl SizeBytesFunction {
    pub fn new() -> (r: Self)
        ensures
            r == SizeBytesFunction,
    {
        SizeBytesFunction
    }
}

impl IndexingFunction for SizeBytesFunction {
    open spec fn column(&self) -> Col {
        Col::Size
    }

    open spec fn scan_role(&self) -> ScanRole {
        ScanRole::Integrity
    }

    open spec fn rank(&self) -> SystemRank {
        SystemRank::Default
    }

    open spec fn defs(&self) -> Seq<ColumnDefModel> {
        column_defs(Col::Size, BiticalType::Integer, TargetTable::FileReferences)
    }

    open spec fn from_path(&self, path: Seq<char>) -> Option<TagValueModel> {
        None
    }

    open spec fn tells(&self, m: MetadataModel) -> bool {
        true
    }

    open spec fn tags(
        &self,
        path: Seq<char>,
        stat: FileStat,
        r: Result<Seq<TagValueModel>, TagError>,
    ) -> bool {
        from_known(stat, |m: MetadataModel| TagValueModel::BigInt(m.len), r)
    }

    fn name(&self) -> (r: Col) {
        Col::Size
    }

    fn role(&self) -> (r: ScanRole) {
        ScanRole::Integrity
    }

    fn default_rank(&self) -> (r: SystemRank) {
        SystemRank::Default
    }

    fn get_columns(&self) -> (r: Vec<ColumnDef>) {
        one_column(Col::Size, BiticalType::Integer, TargetTable::FileReferences)
    }

    fn generate_from_path(&self, _path: &str) -> (r: Option<TagValue>) {
        None
    }

    fn tag_file(&self, _path: &str, stat: &FileStat) -> (r: Result<Vec<TagValue>, TagError>) {
        match metadata_of(stat) {
            Ok(m) => Ok(only(TagValue::BigInt(m.len))),
            Err(e) => Err(e),
        }
    }
}

impl TagDefinition for SizeBytesFunction {
    type RustType = FileSize;

    open spec fn defined_as() -> Col {
        Col::Size
    }

    open spec fn defined_role() -> ScanRole {
        ScanRole::Integrity
    }

    open spec fn tells_of(m: MetadataModel) -> bool {
        true
    }

    open spec fn generates(path: Seq<char>, m: MetadataModel, r: Result<FileSize, TagError>) -> bool {
        r == Ok::<FileSize, TagError>(FileSize(m.len))
    }

    fn tag_name() -> (r: Col) {
        Col::Size
    }

    fn tag_role() -> (r: ScanRole) {
        ScanRole::Integrity
    }

    fn generate(_path: &str, metadata: &SafeMetadata) -> (r: Result<FileSize, TagError>) {
        Ok(FileSize(metadata.len))
    }
}

// ---------------------------------------------------------------------------
// ModifiedTsFunction
// ---------------------------------------------------------------------------

/// The second in which a file was changed.
#[derive(Debug)]
pub struct ModifiedTsFunction;

impl ModifiedTsFunction {
    pub fn new() -> (r: Self)
        ensures
            r == ModifiedTsFunction,
    {
        ModifiedTsFunction
    }
}

impl IndexingFunction for ModifiedTsFunction {
    open spec fn column(&self) -> Col {
        Col::Mtime
    }

    open spec fn scan_role(&self) -> ScanRole {
        ScanRole::Integrity
    }

    open spec fn rank(&self) -> SystemRank {
        SystemRank::Default
    }

    open spec fn defs(&self) -> Seq<ColumnDefModel> {
        column_defs(Col::Mtime, BiticalType::Integer, TargetTable::FileReferences)
    }

    open spec fn from_path(&self, path: Seq<char>) -> Option<TagValueModel> {
        None
    }

    open spec fn tells(&self, m: MetadataModel) -> bool {
        true
    }

    open spec fn tags(
        &self,
        path: Seq<char>,
        stat: FileStat,
        r: Result<Seq<TagValueModel>, TagError>,
    ) -> bool {
        from_known(stat, |m: MetadataModel| TagValueModel::BigInt(m.modified), r)
    }

    fn name(&self) -> (r: Col) {
        Col::Mtime
    }

    fn role(&self) -> (r: ScanRole) {
        ScanRole::Integrity
    }

    fn default_rank(&self) -> (r: SystemRank) {
        SystemRank::Default
    }

    fn get_columns(&self) -> (r: Vec<ColumnDef>) {
        one_column(Col::Mtime, BiticalType::Integer, TargetTable::FileReferences)
    }

    fn generate_from_path(&self, _path: &str) -> (r: Option<TagValue>) {
        None
    }

    fn tag_file(&self, _path: &str, stat: &FileStat) -> (r: Result<Vec<TagValue>, TagError>) {
        match metadata_of(stat) {
            Ok(m) => Ok(only(TagValue::BigInt(m.modified))),
            Err(e) => Err(e),
        }
    }
}

impl TagDefinition for ModifiedTsFunction {
    type RustType = FileTimestamp;

    open spec fn defined_as() -> Col {
        Col::Mtime
    }

    open spec fn defined_role() -> ScanRole {
        ScanRole::Integrity
    }

    open spec fn tells_of(m: MetadataModel) -> bool {
        true
    }

    open spec fn generates(path: Seq<char>, m: MetadataModel, r: Result<FileTimestamp, TagError>) -> bool {
        r == Ok::<FileTimestamp, TagError>(FileTimestamp(m.modified))
    }

    fn tag_name() -> (r: Col) {
        Col::Mtime
    }

    fn tag_role() -> (r: ScanRole) {
        ScanRole::Integrity
    }

    fn generate(_path: &str, metadata: &SafeMetadata) -> (r: Result<FileTimestamp, TagError>) {
        Ok(FileTimestamp(metadata.modified))
    }
}

// ---------------------------------------------------------------------------
// InodeFunction
// ---------------------------------------------------------------------------

/// The identity of a file, which it keeps when it is moved.
#[derive(Debug)]
pub struct InodeFunction;

impl InodeFunction {
    pub fn new() -> (r: Self)
        ensures
            r == InodeFunction,
    {
        InodeFunction
    }
}

impl IndexingFunction for InodeFunction {
    open spec fn column(&self) -> Col {
        Col::FileId
    }

    open spec fn scan_role(&self) -> ScanRole {
        ScanRole::ScanId
    }

    open spec fn rank(&self) -> SystemRank {
        SystemRank::Default
    }

    open spec fn defs(&self) -> Seq<ColumnDefModel> {
        column_defs(Col::FileId, BiticalType::Uuid, TargetTable::FileReferences)
    }

    open spec fn from_path(&self, path: Seq<char>) -> Option<TagValueModel> {
        None
    }

    open spec fn tells(&self, m: MetadataModel) -> bool {
        true
    }

    open spec fn tags(
        &self,
        path: Seq<char>,
        stat: FileStat,
        r: Result<Seq<TagValueModel>, TagError>,
    ) -> bool {
        r == match stat {
            FileStat::Found(m) if m.file_ref is Some => Ok::<Seq<TagValueModel>, TagError>(
                seq![TagValueModel::Uuid(m.file_ref->0)],
            ),
            _ => Err(TagError::NoFileId),
        }
    }

    fn name(&self) -> (r: Col) {
        Col::FileId
    }

    fn role(&self) -> (r: ScanRole) {
        ScanRole::ScanId
    }

    fn default_rank(&self) -> (r: SystemRank) {
        SystemRank::Default
    }

    fn get_columns(&self) -> (r: Vec<ColumnDef>) {
        one_column(Col::FileId, BiticalType::Uuid, TargetTable::FileReferences)
    }

    fn generate_from_path(&self, _path: &str) -> (r: Option<TagValue>) {
        None
    }

    fn tag_file(&self, _path: &str, stat: &FileStat) -> (r: Result<Vec<TagValue>, TagError>) {
        if let FileStat::Found(m) = stat {
            if let Some(u) = m.file_ref {
                return Ok(only(TagValue::Uuid(u)));
            }
        }
        Err(TagError::NoFileId)
    }
}

impl TagDefinition for InodeFunction {
    type RustType = u128;

    open spec fn defined_as() -> Col {
        Col::FileId
    }

    open spec fn defined_role() -> ScanRole {
        ScanRole::ScanId
    }

    open spec fn tells_of(m: MetadataModel) -> bool {
        true
    }

    open spec fn generates(path: Seq<char>, m: MetadataModel, r: Result<u128, TagError>) -> bool {
        r == match m.file_ref {
            Some(u) => Ok::<u128, TagError>(u),
            None => Err(TagError::NoFileId),
        }
    }

    fn tag_name() -> (r: Col) {
        Col::FileId
    }

    fn tag_role() -> (r: ScanRole) {
        ScanRole::ScanId
    }

    fn generate(_path: &str, metadata: &SafeMetadata) -> (r: Result<u128, TagError>) {
        match metadata.file_ref {
            Some(u) => Ok(u),
            None => Err(TagError::NoFileId),
        }
    }
}

// ---------------------------------------------------------------------------
// TypeFromExtFunction
// ---------------------------------------------------------------------------

/// The kind of a file by its extension: `Folder` for a directory.
#[derive(Debug)]
pub struct TypeFromExtFunction;

impl TypeFromExtFunction {
    pub fn new() -> (r: Self)
        ensures
            r == TypeFromExtFunction,
    {
        TypeFromExtFunction
    }
}

impl IndexingFunction for TypeFromExtFunction {
    open spec fn column(&self) -> Col {
        Col::TypeFromExt
    }

    open spec fn scan_role(&self) -> ScanRole {
        ScanRole::Other
    }

    open spec fn rank(&self) -> SystemRank {
        SystemRank::TypeFromExt
    }

    open spec fn defs(&self) -> Seq<ColumnDefModel> {
        column_defs(Col::TypeFromExt, BiticalType::String, TargetTable::BaseTags)
    }

    open spec fn from_path(&self, path: Seq<char>) -> Option<TagValueModel> {
        None
    }

    open spec fn tells(&self, m: MetadataModel) -> bool {
        true
    }

    open spec fn tags(
        &self,
        path: Seq<char>,
        stat: FileStat,
        r: Result<Seq<TagValueModel>, TagError>,
    ) -> bool {
        from_known(stat, |m: MetadataModel| TagValueModel::Text(kind_text(path, m.is_dir)), r)
    }

    fn name(&self) -> (r: Col) {
        Col::TypeFromExt
    }

    fn role(&self) -> (r: ScanRole) {
        ScanRole::Other
    }

    fn default_rank(&self) -> (r: SystemRank) {
        SystemRank::TypeFromExt
    }

    fn get_columns(&self) -> (r: Vec<ColumnDef>) {
        one_column(Col::TypeFromExt, BiticalType::String, TargetTable::BaseTags)
    }

    fn generate_from_path(&self, _path: &str) -> (r: Option<TagValue>) {
        None
    }

    fn tag_file(&self, path: &str, stat: &FileStat) -> (r: Result<Vec<TagValue>, TagError>) {
        match metadata_of(stat) {
            Ok(m) => Ok(only(TagValue::Text(kind_of_file(path, m.is_dir)))),
            Err(e) => Err(e),
        }
    }
}

impl TagDefinition for TypeFromExtFunction {
    type RustType = String;

    open spec fn defined_as() -> Col {
        Col::TypeFromExt
    }

    open spec fn defined_role() -> ScanRole {
        ScanRole::Other
    }

    open spec fn tells_of(m: MetadataModel) -> bool {
        true
    }

    open spec fn generates(path: Seq<char>, m: MetadataModel, r: Result<String, TagError>) -> bool {
        r matches Ok(s) && s@ == kind_text(path, m.is_dir)
    }

    fn tag_name() -> (r: Col) {
        Col::TypeFromExt
    }

    fn tag_role() -> (r: ScanRole) {
        ScanRole::Other
    }

    fn generate(path: &str, metadata: &SafeMetadata) -> (r: Result<String, TagError>) {
        Ok(kind_of_file(path, metadata.is_dir))
    }
}

// ---------------------------------------------------------------------------
// SizeStrFunction
// ---------------------------------------------------------------------------

/// The size of a file as it is shown.
#[derive(Debug)]
pub struct SizeStrFunction;

impl SizeStrFunction {
    pub fn new() -> (r: Self)
        ensures
            r == SizeStrFunction,
    {
        SizeStrFunction
    }
}

impl IndexingFunction for SizeStrFunction {
    open spec fn column(&self) -> Col {
        Col::SizeStr
    }

    open spec fn scan_role(&self) -> ScanRole {
        ScanRole::Other
    }

    open spec fn rank(&self) -> SystemRank {
        SystemRank::SizeStr
    }

    open spec fn defs(&self) -> Seq<ColumnDefModel> {
        column_defs(Col::SizeStr, BiticalType::String, TargetTable::BaseTags)
    }

    open spec fn from_path(&self, path: Seq<char>) -> Option<TagValueModel> {
        None
    }

    open spec fn tells(&self, m: MetadataModel) -> bool {
        true
    }

    open spec fn tags(
        &self,
        path: Seq<char>,
        stat: FileStat,
        r: Result<Seq<TagValueModel>, TagError>,
    ) -> bool {
        from_known(stat, |m: MetadataModel| TagValueModel::Text(size_shown(m)), r)
    }

    fn name(&self) -> (r: Col) {
        Col::SizeStr
    }

    fn role(&self) -> (r: ScanRole) {
        ScanRole::Other
    }

    fn default_rank(&self) -> (r: SystemRank) {
        SystemRank::SizeStr
    }

    fn get_columns(&self) -> (r: Vec<ColumnDef>) {
        one_column(Col::SizeStr, BiticalType::String, TargetTable::BaseTags)
    }

    fn generate_from_path(&self, _path: &str) -> (r: Option<TagValue>) {
        None
    }

    fn tag_file(&self, _path: &str, stat: &FileStat) -> (r: Result<Vec<TagValue>, TagError>) {
        match metadata_of(stat) {
            Ok(m) => Ok(only(TagValue::Text(shown_size(&m)))),
            Err(e) => Err(e),
        }
    }
}

impl TagDefinition for SizeStrFunction {
    type RustType = String;

    open spec fn defined_as() -> Col {
        Col::SizeStr
    }

    open spec fn defined_role() -> ScanRole {
        ScanRole::Other
    }

    open spec fn tells_of(m: MetadataModel) -> bool {
        true
    }

    open spec fn generates(path: Seq<char>, m: MetadataModel, r: Result<String, TagError>) -> bool {
        r matches Ok(s) && s@ == size_shown(m)
    }

    fn tag_name() -> (r: Col) {
        Col::SizeStr
    }

    fn tag_role() -> (r: ScanRole) {
        ScanRole::Other
    }

    fn generate(_path: &str, metadata: &SafeMetadata) -> (r: Result<String, TagError>) {
        Ok(shown_size(metadata))
    }
}

// ---------------------------------------------------------------------------
// ModifiedStrFunction
// ---------------------------------------------------------------------------

/// The time in which a file was changed as it is shown, in the time zone of the machine.
#[derive(Debug)]
pub struct ModifiedStrFunction;

impl ModifiedStrFunction {
    pub fn new() -> (r: Self)
        ensures
            r == ModifiedStrFunction,
    {
        ModifiedStrFunction
    }
}

impl IndexingFunction for ModifiedStrFunction {
    open spec fn column(&self) -> Col {
        Col::ModifiedStr
    }

    open spec fn scan_role(&self) -> ScanRole {
        ScanRole::Other
    }

    open spec fn rank(&self) -> SystemRank {
        SystemRank::ModifiedStr
    }

    open spec fn defs(&self) -> Seq<ColumnDefModel> {
        column_defs(Col::ModifiedStr, BiticalType::String, TargetTable::BaseTags)
    }

    open spec fn from_path(&self, path: Seq<char>) -> Option<TagValueModel> {
        None
    }

    open spec fn tells(&self, m: MetadataModel) -> bool {
        showable(m.modified)
    }

    open spec fn tags(
        &self,
        path: Seq<char>,
        stat: FileStat,
        r: Result<Seq<TagValueModel>, TagError>,
    ) -> bool {
        match known(stat) {
            Ok(m) => exists|written: Seq<char>| #[trigger]
                holds_time(m.modified, written) && r == Ok::<Seq<TagValueModel>, TagError>(
                    seq![TagValueModel::Text(time_shown(m.modified, written))],
                ),
            Err(e) => r == Err::<Seq<TagValueModel>, TagError>(e),
        }
    }

    fn name(&self) -> (r: Col) {
        Col::ModifiedStr
    }

    fn role(&self) -> (r: ScanRole) {
        ScanRole::Other
    }

    fn default_rank(&self) -> (r: SystemRank) {
        SystemRank::ModifiedStr
    }

    fn get_columns(&self) -> (r: Vec<ColumnDef>) {
        one_column(Col::ModifiedStr, BiticalType::String, TargetTable::BaseTags)
    }

    fn generate_from_path(&self, _path: &str) -> (r: Option<TagValue>) {
        None
    }

    fn tag_file(&self, _path: &str, stat: &FileStat) -> (r: Result<Vec<TagValue>, TagError>) {
        match metadata_of(stat) {
            Err(e) => Err(e),
            Ok(m) => {
                let (shown, Ghost(written)) = local_time(m.modified);
                proof {
                    assert(holds_time(m.modified, written));
                }
                Ok(only(TagValue::Text(shown)))
            },
        }
    }
}

impl TagDefinition for ModifiedStrFunction {
    type RustType = String;

    open spec fn defined_as() -> Col {
        Col::ModifiedStr
    }

    open spec fn defined_role() -> ScanRole {
        ScanRole::Other
    }

    open spec fn tells_of(m: MetadataModel) -> bool {
        showable(m.modified)
    }

    open spec fn generates(path: Seq<char>, m: MetadataModel, r: Result<String, TagError>) -> bool {
        exists|written: Seq<char>| #[trigger]
            holds_time(m.modified, written) && (r matches Ok(s) && s@ == time_shown(
                m.modified,
                written,
            ))
    }

    fn tag_name() -> (r: Col) {
        Col::ModifiedStr
    }

    fn tag_role() -> (r: ScanRole) {
        ScanRole::Other
    }

    fn generate(_path: &str, metadata: &SafeMetadata) -> (r: Result<String, TagError>) {
        let (shown, Ghost(written)) = local_time(metadata.modified);
        proof {
            assert(holds_time(metadata.modified, written));
        }
        Ok(shown)
    }
}

// ---------------------------------------------------------------------------
// NameIndexingFunction
// ---------------------------------------------------------------------------

/// The name that an item is shown by, which no file has by itself.
#[derive(Debug)]
pub struct NameIndexingFunction;

impl IndexingFunction for NameIndexingFunction {
    open spec fn column(&self) -> Col {
        Col::Name
    }

    open spec fn scan_role(&self) -> ScanRole {
        ScanRole::DefinitionOnly
    }

    open spec fn rank(&self) -> SystemRank {
        SystemRank::Name
    }

    open spec fn defs(&self) -> Seq<ColumnDefModel> {
        Seq::empty()
    }

    open spec fn from_path(&self, path: Seq<char>) -> Option<TagValueModel> {
        None
    }

    open spec fn tells(&self, m: MetadataModel) -> bool {
        true
    }

    open spec fn tags(
        &self,
        path: Seq<char>,
        stat: FileStat,
        r: Result<Seq<TagValueModel>, TagError>,
    ) -> bool {
        r == Ok::<Seq<TagValueModel>, TagError>(Seq::empty())
    }

    fn name(&self) -> (r: Col) {
        Col::Name
    }

    fn role(&self) -> (r: ScanRole) {
        ScanRole::DefinitionOnly
    }

    fn default_rank(&self) -> (r: SystemRank) {
        SystemRank::Name
    }

    fn get_columns(&self) -> (r: Vec<ColumnDef>) {
        let v: Vec<ColumnDef> = Vec::new();
        proof {
            assert(schema::def_models(v@) =~= Seq::empty());
        }
        v
    }

    fn generate_from_path(&self, _path: &str) -> (r: Option<TagValue>) {
        None
    }

    fn tag_file(&self, _path: &str, _stat: &FileStat) -> (r: Result<Vec<TagValue>, TagError>) {
        Ok(no_values())
    }
}

// ---------------------------------------------------------------------------
// KindIndexingFunction
// ---------------------------------------------------------------------------

/// The kind of an item.
#[derive(Debug)]
pub struct KindIndexingFunction;

impl IndexingFunction for KindIndexingFunction {
    open spec fn column(&self) -> Col {
        Col::ItemKind
    }

    open spec fn scan_role(&self) -> ScanRole {
        ScanRole::DefinitionOnly
    }

    open spec fn rank(&self) -> SystemRank {
        SystemRank::ItemKind
    }

    open spec fn defs(&self) -> Seq<ColumnDefModel> {
        Seq::empty()
    }

    open spec fn from_path(&self, path: Seq<char>) -> Option<TagValueModel> {
        None
    }

    open spec fn tells(&self, m: MetadataModel) -> bool {
        true
    }

    open spec fn tags(
        &self,
        path: Seq<char>,
        stat: FileStat,
        r: Result<Seq<TagValueModel>, TagError>,
    ) -> bool {
        r == Ok::<Seq<TagValueModel>, TagError>(Seq::empty())
    }

    fn name(&self) -> (r: Col) {
        Col::ItemKind
    }

    fn role(&self) -> (r: ScanRole) {
        ScanRole::DefinitionOnly
    }

    fn default_rank(&self) -> (r: SystemRank) {
        SystemRank::ItemKind
    }

    fn get_columns(&self) -> (r: Vec<ColumnDef>) {
        let v: Vec<ColumnDef> = Vec::new();
        proof {
            assert(schema::def_models(v@) =~= Seq::empty());
        }
        v
    }

    fn generate_from_path(&self, _path: &str) -> (r: Option<TagValue>) {
        None
    }

    fn tag_file(&self, _path: &str, _stat: &FileStat) -> (r: Result<Vec<TagValue>, TagError>) {
        Ok(no_values())
    }
}

// ---------------------------------------------------------------------------
// ContentIndexingFunction
// ---------------------------------------------------------------------------

/// The content of an item.
#[derive(Debug)]
pub struct ContentIndexingFunction;

impl IndexingFunction for ContentIndexingFunction {
    open spec fn column(&self) -> Col {
        Col::Content
    }

    open spec fn scan_role(&self) -> ScanRole {
        ScanRole::DefinitionOnly
    }

    open spec fn rank(&self) -> SystemRank {
        SystemRank::Content
    }

    open spec fn defs(&self) -> Seq<ColumnDefModel> {
        Seq::empty()
    }

    open spec fn from_path(&self, path: Seq<char>) -> Option<TagValueModel> {
        None
    }

    open spec fn tells(&self, m: MetadataModel) -> bool {
        true
    }

    open spec fn tags(
        &self,
        path: Seq<char>,
        stat: FileStat,
        r: Result<Seq<TagValueModel>, TagError>,
    ) -> bool {
        r == Ok::<Seq<TagValueModel>, TagError>(Seq::empty())
    }

    fn name(&self) -> (r: Col) {
        Col::Content
    }

    fn role(&self) -> (r: ScanRole) {
        ScanRole::DefinitionOnly
    }

    fn default_rank(&self) -> (r: SystemRank) {
        SystemRank::Content
    }

    fn get_columns(&self) -> (r: Vec<ColumnDef>) {
        let v: Vec<ColumnDef> = Vec::new();
        proof {
            assert(schema::def_models(v@) =~= Seq::empty());
        }
        v
    }

    fn generate_from_path(&self, _path: &str) -> (r: Option<TagValue>) {
        None
    }

    fn tag_file(&self, _path: &str, _stat: &FileStat) -> (r: Result<Vec<TagValue>, TagError>) {
        Ok(no_values())
    }
}

// ---------------------------------------------------------------------------
// Files that are moved
// ---------------------------------------------------------------------------

/// What a tag contributes to where a file lies: a value for each of its columns there, read
/// from the path, and nothing where the path does not give it.
pub open spec fn location_part<F: IndexingFunction>(f: F, path: Seq<char>) -> Seq<TagValueModel> {
    location_values_in(f.defs(), f.from_path(path))
}

pub open spec fn location_values_in(defs: Seq<ColumnDefModel>, v: Option<TagValueModel>) -> Seq<
    TagValueModel,
>
    decreases defs.len(),
{
    if defs.len() == 0 {
        Seq::empty()
    } else {
        let before = location_values_in(defs.drop_last(), v);
        if defs.last().target_table == TargetTable::Locations {
            before.push(
                match v {
                    Some(x) => x,
                    None => TagValueModel::Null,
                },
            )
        } else {
            before
        }
    }
}

/// Adds what a tag contributes to where a file lies.
pub fn add_location_values<F: IndexingFunction>(f: &F, path: &str, out: &mut Vec<TagValue>)
    ensures
        value_models(final(out)@) == value_models(old(out)@) + location_part(*f, path@),
{
    let cols = f.get_columns();
    let ghost defs = schema::def_models(cols@);
    let ghost start = value_models(out@);
    let ghost v = f.from_path(path@);
    let mut i: usize = 0;
    proof {
        assert(start + location_values_in(defs.take(0), v) =~= start);
    }
    while i < cols.len()
        invariant
            i <= cols@.len(),
            defs == schema::def_models(cols@),
            v == f.from_path(path@),
            value_models(out@) == start + location_values_in(defs.take(i as int), v),
        decreases cols.len() - i,
    {
        proof {
            assert(defs.take(i + 1).drop_last() =~= defs.take(i as int));
            assert(defs.take(i + 1).last() == cols@[i as int]@);
        }
        if cols[i].target_table == TargetTable::Locations {
            let x = match f.generate_from_path(path) {
                Some(x) => x,
                None => TagValue::Null,
            };
            let ghost before = out@;
            out.push(x);
            proof {
                assert(value_models(out@) =~= value_models(before).push(x@));
                assert(value_models(out@) =~= start + location_values_in(defs.take(i + 1), v));
            }
        }
        i += 1;
    }
    proof {
        assert(defs.take(defs.len() as int) =~= defs);
    }
}

/// Where a file lies, by its path: the path, the directory, the name and the extension.
pub fn rebuild_values_from_path(path: &str) -> (r: Vec<TagValue>)
    ensures
        value_models(r@) == location_part(PathFunction, path@) + location_part(
            ParentDirFunction,
            path@,
        ) + location_part(FilenameFunction, path@) + location_part(ExtensionFunction, path@),
{
    let mut out: Vec<TagValue> = Vec::new();
    add_location_values(&PathFunction, path, &mut out);
    add_location_values(&ParentDirFunction, path, &mut out);
    add_location_values(&FilenameFunction, path, &mut out);
    add_location_values(&ExtensionFunction, path, &mut out);
    proof {
        assert(value_models(out@) =~= location_part(PathFunction, path@) + location_part(
            ParentDirFunction,
            path@,
        ) + location_part(FilenameFunction, path@) + location_part(ExtensionFunction, path@));
    }
    out
}

/// A file that is moved has the same tags of its location as one that is found there.
pub proof fn law_moved_files_are_tagged_by_their_path(path: Seq<char>, stat: FileStat)
    requires
        path::file_name_of(path) is Some,
        known(stat) is Ok,
    ensures
        PathFunction.tags(path, stat, Ok(location_part(PathFunction, path))),
        FilenameFunction.tags(path, stat, Ok(location_part(FilenameFunction, path))),
        ParentDirFunction.tags(path, stat, Ok(location_part(ParentDirFunction, path))),
        ExtensionFunction.tags(path, stat, Ok(location_part(ExtensionFunction, path))),
{
    reveal_with_fuel(location_values_in, 2);
    path::law_parents_lose_the_last_component(path);
    assert(location_part(PathFunction, path) =~= seq![TagValueModel::Text(path)]);
    assert(location_part(FilenameFunction, path) =~= seq![TagValueModel::Text(name_text(path))]);
    assert(location_part(ParentDirFunction, path) =~= seq![
        TagValueModel::Text(parent_text(path)),
    ]);
    assert(location_part(ExtensionFunction, path) =~= seq![
        match lower_extension(path) {
            Some(e) => TagValueModel::Text(e),
            None => TagValueModel::Null,
        },
    ]);
}

/// Whether some of the columns belong to where files lie.
pub open spec fn in_locations(defs: Seq<ColumnDefModel>) -> bool {
    exists|i: int| 0 <= i < defs.len() && (#[trigger] defs[i]).target_table == TargetTable::Locations
}

/// Where a file lies is told by its path alone: no tag but the four that a moved file gets
/// anew has a column there, and each of those has one.
pub proof fn law_paths_tell_all_of_a_location(path: Seq<char>)
    ensures
        location_part(PathFunction, path).len() == 1,
        location_part(ParentDirFunction, path).len() == 1,
        location_part(FilenameFunction, path).len() == 1,
        location_part(ExtensionFunction, path).len() == 1,
        !in_locations(StemFunction.defs()),
        !in_locations(DirectoryFunction.defs()),
        !in_locations(SizeBytesFunction.defs()),
        !in_locations(ModifiedTsFunction.defs()),
        !in_locations(InodeFunction.defs()),
        !in_locations(TypeFromExtFunction.defs()),
        !in_locations(SizeStrFunction.defs()),
        !in_locations(ModifiedStrFunction.defs()),
        !in_locations(NameIndexingFunction.defs()),
        !in_locations(KindIndexingFunction.defs()),
        !in_locations(ContentIndexingFunction.defs()),
{
    reveal_with_fuel(location_values_in, 2);
}

} // verus!
