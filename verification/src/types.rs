//! The values that tags are made of: origins and their id blocks, typed labels, tag types,
//! tags and items.
use crate::text;
use crate::col::Col;
use crate::text::{cat3, show_i64, show_u64, str_eq};
use vstd::prelude::*;

verus! {

// ---------------------------------------------------------------------------
// Origins and item ids
// ---------------------------------------------------------------------------

/// The nominal width of an id block, 2^58.
pub const BLOCK: i64 = 0x0400_0000_0000_0000;

/// Where an item comes from. Each origin owns one block of item ids.
#[derive(Clone, Copy, Debug, PartialEq, Eq, PartialOrd, Ord, Hash, Structural)]
pub enum Origin {
    Builtin,
    User,
    File,
    Plugin,
}

impl Origin {
    /// The place of the origin among the origins.
    pub open spec fn rank(self) -> int {
        match self {
            Origin::Builtin => 0,
            Origin::User => 1,
            Origin::File => 2,
            Origin::Plugin => 3,
        }
    }

    /// The place of the origin among the origins.
    pub fn order(self) -> (r: u8)
        ensures
            r == self.rank(),
    {
        match self {
            Origin::Builtin => 0,
            Origin::User => 1,
            Origin::File => 2,
            Origin::Plugin => 3,
        }
    }

    /// The first id of the block.
    pub open spec fn lo(self) -> int {
        match self {
            Origin::Builtin => -(BLOCK as int),
            Origin::User => 0,
            Origin::File => 8 * BLOCK as int,
            Origin::Plugin => 16 * BLOCK as int,
        }
    }

    /// The first id after the block.
    pub open spec fn hi(self) -> int {
        match self {
            Origin::Builtin => 0,
            Origin::User => 8 * BLOCK as int,
            Origin::File => 16 * BLOCK as int,
            Origin::Plugin => i64::MAX as int,
        }
    }

    pub open spec fn short_text(self) -> Seq<char> {
        match self {
            Origin::Builtin => "Sys"@,
            Origin::User => "User"@,
            Origin::File => "File"@,
            Origin::Plugin => "Plg"@,
        }
    }

    pub open spec fn name_text(self) -> Seq<char> {
        match self {
            Origin::Builtin => "builtin"@,
            Origin::User => "user"@,
            Origin::File => "file"@,
            Origin::Plugin => "plugin"@,
        }
    }

    /// The origin whose block starts at or directly below `id`; ids below every block
    /// belong to the lowest one.
    pub open spec fn of_id(id: int) -> Origin {
        if id >= Origin::Plugin.lo() {
            Origin::Plugin
        } else if id >= Origin::File.lo() {
            Origin::File
        } else if id >= Origin::User.lo() {
            Origin::User
        } else {
            Origin::Builtin
        }
    }

    /// The id at `offset` in the block, if the block holds it.
    pub open spec fn at_offset(self, offset: int) -> Option<i64> {
        if 0 <= offset && self.lo() + offset < self.hi() {
            Some((self.lo() + offset) as i64)
        } else {
            None
        }
    }

    /// The first id of the block.
    pub fn block_lo(self) -> (r: i64)
        ensures
            r == self.lo(),
    {
        match self {
            Origin::Builtin => -BLOCK,
            Origin::User => 0,
            Origin::File => 8 * BLOCK,
            Origin::Plugin => 16 * BLOCK,
        }
    }

    /// The first id after the block.
    pub fn block_hi(self) -> (r: i64)
        ensures
            r == self.hi(),
    {
        match self {
            Origin::Builtin => 0,
            Origin::User => 8 * BLOCK,
            Origin::File => 16 * BLOCK,
            Origin::Plugin => i64::MAX,
        }
    }

    /// The label used in the local form of an id.
    pub fn short(self) -> (r: &'static str)
        ensures
            r@ == self.short_text(),
    {
        match self {
            Origin::Builtin => "Sys",
            Origin::User => "User",
            Origin::File => "File",
            Origin::Plugin => "Plg",
        }
    }

    /// The name of the origin.
    pub fn name(self) -> (r: &'static str)
        ensures
            r@ == self.name_text(),
    {
        match self {
            Origin::Builtin => "builtin",
            Origin::User => "user",
            Origin::File => "file",
            Origin::Plugin => "plugin",
        }
    }

    /// The origin that owns `id`.
    pub fn within(id: i64) -> (r: Origin)
        ensures
            r == Origin::of_id(id as int),
    {
        if id >= Origin::Plugin.block_lo() {
            Origin::Plugin
        } else if id >= Origin::File.block_lo() {
            Origin::File
        } else if id >= Origin::User.block_lo() {
            Origin::User
        } else {
            Origin::Builtin
        }
    }

    /// The id at `offset` in the block, if the block holds it.
    pub fn id_at_offset(self, offset: i64) -> (r: Option<i64>)
        ensures
            r == self.at_offset(offset as int),
    {
        let lo = self.block_lo();
        let hi = self.block_hi();
        if offset < 0 {
            return None;
        }
        if (lo as i128) + (offset as i128) < hi as i128 {
            Some(lo + offset)
        } else {
            None
        }
    }
}

/// The blocks follow one another without gap or overlap.
pub proof fn law_blocks_tile()
    ensures
        Origin::Builtin.hi() == Origin::User.lo(),
        Origin::User.hi() == Origin::File.lo(),
        Origin::File.hi() == Origin::Plugin.lo(),
        forall|o: Origin| #[trigger] o.lo() < o.hi(),
{
}

/// An id belongs to an origin exactly when it lies in that origin's block.
pub proof fn law_within_is_the_block(id: int, o: Origin)
    requires
        Origin::Builtin.lo() <= id < Origin::Plugin.hi(),
    ensures
        Origin::of_id(id) == o <==> o.lo() <= id < o.hi(),
{
}

/// The short labels tell the origins apart.
pub proof fn law_short_labels_distinct(a: Origin, b: Origin)
    ensures
        a.short_text() == b.short_text() ==> a == b,
{
    reveal_strlit("Sys");
    reveal_strlit("User");
    reveal_strlit("File");
    reveal_strlit("Plg");
    if a.short_text() == b.short_text() {
        assert(a.short_text().len() == b.short_text().len());
        assert(a.short_text()[0] == b.short_text()[0]);
    }
}

/// The identity of an item: stored under an id, only found by a search, or found by a
/// search and due to be stored in a given block.
#[derive(Clone, Copy, Debug, PartialEq, Eq, PartialOrd, Ord, Hash, Structural)]
pub enum ItemId {
    Stored(i64),
    Volatile(u64),
    Settling(Origin, u64),
}

/// The local form of a stored id: the short label of its origin and the offset in the block.
pub open spec fn id_text(id: int) -> Seq<char> {
    let o = Origin::of_id(id);
    o.short_text() + "("@ + text::int_text(id - o.lo()) + ")"@
}

/// The local form of a stored id.
pub fn show_id(id: i64) -> (r: String)
    ensures
        r@ == id_text(id as int),
{
    let o = Origin::within(id);
    let mut s = o.short().to_owned();
    s.push_str("(");
    s.push_str(show_i64(id - o.block_lo()).as_str());
    s.push_str(")");
    s
}

impl ItemId {
    pub open spec fn stored(self) -> bool {
        self is Stored
    }

    pub open spec fn raw(self) -> int {
        match self {
            ItemId::Stored(i) => i as int,
            ItemId::Volatile(_) => -1,
            ItemId::Settling(_, _) => -1,
        }
    }

    pub open spec fn shown(self) -> Seq<char> {
        match self {
            ItemId::Stored(i) => id_text(i as int),
            ItemId::Volatile(c) => "Volatile("@ + text::nat_text(c as nat) + ")"@,
            ItemId::Settling(o, c) => "Settling("@ + o.short_text() + ", "@ + text::nat_text(c as nat)
                + ")"@,
        }
    }

    pub fn is_stored(&self) -> (r: bool)
        ensures
            r == self.stored(),
    {
        match self {
            ItemId::Stored(_) => true,
            _ => false,
        }
    }

    /// The stored id; an item that is not stored has none and answers -1.
    pub fn as_i64(&self) -> (r: i64)
        ensures
            r == self.raw(),
    {
        match self {
            ItemId::Stored(i) => *i,
            _ => -1,
        }
    }

    /// A volatile item made due to be stored in the block of `origin`.
    pub fn settle(self, origin: Origin) -> (r: ItemId)
        ensures
            r == (match self {
                ItemId::Volatile(c) => ItemId::Settling(origin, c),
                other => other,
            }),
    {
        match self {
            ItemId::Volatile(c) => ItemId::Settling(origin, c),
            other => other,
        }
    }

    /// The id for messages.
    pub fn show(&self) -> (r: String)
        ensures
            r@ == self.shown(),
    {
        match self {
            ItemId::Stored(i) => show_id(*i),
            ItemId::Volatile(c) => cat3("Volatile(", show_u64(*c).as_str(), ")"),
            ItemId::Settling(o, c) => {
                let mut s = cat3("Settling(", o.short(), ", ");
                s.push_str(show_u64(*c).as_str());
                s.push_str(")");
                s
            },
        }
    }
}

// ---------------------------------------------------------------------------
// Progress
// ---------------------------------------------------------------------------

/// How far a search has come.
#[derive(Clone, Copy, Debug, PartialEq, Eq)]
pub struct Progress {
    pub current: u64,
    pub total: Option<u64>,
    pub is_done: bool,
}

impl Default for Progress {
    fn default() -> (r: Self)
        ensures
            r == (Progress { current: 0, total: None, is_done: false }),
    {
        Progress { current: 0, total: None, is_done: false }
    }
}

// ---------------------------------------------------------------------------
// Values
// ---------------------------------------------------------------------------

/// The type of a value.
#[derive(Clone, Copy, Debug, PartialEq, Eq, PartialOrd, Ord, Hash, Structural)]
pub enum BiticalType {
    String,
    Integer,
    Double,
    Boolean,
    Uuid,
}

impl BiticalType {
    /// The name of the type.
    pub open spec fn name_text(self) -> Seq<char> {
        match self {
            BiticalType::String => "string"@,
            BiticalType::Integer => "integer"@,
            BiticalType::Double => "double"@,
            BiticalType::Boolean => "boolean"@,
            BiticalType::Uuid => "uuid"@,
        }
    }

    /// The name of the type in SQL.
    pub open spec fn sql_text(self) -> Seq<char> {
        match self {
            BiticalType::String => "VARCHAR"@,
            BiticalType::Integer => "BIGINT"@,
            BiticalType::Double => "DOUBLE"@,
            BiticalType::Boolean => "BOOLEAN"@,
            BiticalType::Uuid => "UUID"@,
        }
    }

    /// The type of a name, if there is one.
    pub open spec fn named(s: Seq<char>) -> Option<BiticalType> {
        if s == "string"@ {
            Some(BiticalType::String)
        } else if s == "integer"@ {
            Some(BiticalType::Integer)
        } else if s == "double"@ {
            Some(BiticalType::Double)
        } else if s == "boolean"@ {
            Some(BiticalType::Boolean)
        } else if s == "uuid"@ {
            Some(BiticalType::Uuid)
        } else {
            None
        }
    }

    /// The name of the type.
    pub fn name(self) -> (r: &'static str)
        ensures
            r@ == self.name_text(),
    {
        match self {
            BiticalType::String => "string",
            BiticalType::Integer => "integer",
            BiticalType::Double => "double",
            BiticalType::Boolean => "boolean",
            BiticalType::Uuid => "uuid",
        }
    }

    /// The name of the type in SQL.
    pub fn sql_name(self) -> (r: &'static str)
        ensures
            r@ == self.sql_text(),
    {
        match self {
            BiticalType::String => "VARCHAR",
            BiticalType::Integer => "BIGINT",
            BiticalType::Double => "DOUBLE",
            BiticalType::Boolean => "BOOLEAN",
            BiticalType::Uuid => "UUID",
        }
    }

    /// The type of a name, if there is one.
    pub fn from_name(s: &str) -> (r: Option<Self>)
        ensures
            r == BiticalType::named(s@),
    {
        if str_eq(s, "string") {
            Some(BiticalType::String)
        } else if str_eq(s, "integer") {
            Some(BiticalType::Integer)
        } else if str_eq(s, "double") {
            Some(BiticalType::Double)
        } else if str_eq(s, "boolean") {
            Some(BiticalType::Boolean)
        } else if str_eq(s, "uuid") {
            Some(BiticalType::Uuid)
        } else {
            None
        }
    }

    /// The number under which the table of data types knows the type.
    pub fn id(self) -> (r: i32)
        ensures
            r == (match self {
                BiticalType::String => 1i32,
                BiticalType::Integer => 2i32,
                BiticalType::Double => 3i32,
                BiticalType::Boolean => 4i32,
                BiticalType::Uuid => 5i32,
            }),
    {
        match self {
            BiticalType::String => 1,
            BiticalType::Integer => 2,
            BiticalType::Double => 3,
            BiticalType::Boolean => 4,
            BiticalType::Uuid => 5,
        }
    }

    /// The label column that holds values of the type. A UUID is kept as text.
    pub open spec fn column(self) -> Col {
        match self {
            BiticalType::String | BiticalType::Uuid => Col::LabelStr,
            BiticalType::Integer => Col::LabelInt,
            BiticalType::Double => Col::LabelDouble,
            BiticalType::Boolean => Col::LabelBool,
        }
    }

    /// The label column that holds values of the type. A UUID is kept as text.
    pub fn to_column(self) -> (r: Col)
        ensures
            r == self.column(),
    {
        match self {
            BiticalType::String | BiticalType::Uuid => Col::LabelStr,
            BiticalType::Integer => Col::LabelInt,
            BiticalType::Double => Col::LabelDouble,
            BiticalType::Boolean => Col::LabelBool,
        }
    }

    /// The type of the values that a column holds.
    pub open spec fn of_col(col: Col) -> BiticalType {
        match col {
            Col::LabelInt | Col::ItemId | Col::Rank | Col::ScanHash | Col::BasenameScanHash =>
                BiticalType::Integer,
            Col::LabelDouble => BiticalType::Double,
            Col::LabelBool => BiticalType::Boolean,
            _ => BiticalType::String,
        }
    }

    /// The type of the values that a column holds.
    pub fn from_col(col: Col) -> (r: Self)
        ensures
            r == BiticalType::of_col(col),
    {
        match col {
            Col::LabelStr => BiticalType::String,
            Col::LabelInt | Col::ItemId | Col::Rank | Col::ScanHash | Col::BasenameScanHash =>
                BiticalType::Integer,
            Col::LabelDouble => BiticalType::Double,
            Col::LabelBool => BiticalType::Boolean,
            _ => BiticalType::String,
        }
    }

    /// The type name that the database reports for values of the type, where it is fixed.
    /// Sums of integers come back wider, so integers have none.
    pub fn to_typeofstr(&self) -> (r: Option<&'static str>)
        ensures
            match r {
                Some(t) => (*self == BiticalType::Boolean || *self == BiticalType::Double || *self
                    == BiticalType::String) && t@ == self.sql_text(),
                None => *self == BiticalType::Integer || *self == BiticalType::Uuid,
            },
    {
        match self {
            BiticalType::Boolean => Some("BOOLEAN"),
            BiticalType::Double => Some("DOUBLE"),
            BiticalType::String => Some("VARCHAR"),
            BiticalType::Integer | BiticalType::Uuid => None,
        }
    }

    /// The arm of the tag value union that holds values of the type.
    pub open spec fn arm(self) -> BiticalType {
        match self {
            BiticalType::Uuid => BiticalType::String,
            other => other,
        }
    }

    /// The arm of the tag value union that holds values of the type.
    pub fn union_arm(&self) -> (r: BiticalType)
        ensures
            r == self.arm(),
    {
        match self {
            BiticalType::Uuid => BiticalType::String,
            other => *other,
        }
    }
}

/// Values are read back from a label column under the type of the union arm they were
/// written to.
pub proof fn law_column_round_trip(t: BiticalType)
    ensures
        BiticalType::of_col(t.column()) == t.arm(),
        t.column() == t.arm().column(),
{
}

/// Every type is found under its name.
pub proof fn law_type_names(t: BiticalType)
    ensures
        BiticalType::named(t.name_text()) == Some(t),
{
    reveal_strlit("string");
    reveal_strlit("integer");
    reveal_strlit("double");
    reveal_strlit("boolean");
    reveal_strlit("uuid");
    assert("string"@[0] != "double"@[0]);
    assert("integer"@[0] != "boolean"@[0]);
}

/// A number in double precision: its IEEE 754 bits and its printed form.
#[derive(Debug, PartialEq, Eq)]
pub struct Number {
    pub bits: u64,
    pub shown: String,
}

/// Whether two IEEE 754 bit patterns are the same number: equal patterns that are no
/// NaN, or the two zeros.
pub open spec fn same_number(a: u64, b: u64) -> bool {
    &&& a % 0x8000_0000_0000_0000u64 <= 0x7ff0_0000_0000_0000u64
    &&& b % 0x8000_0000_0000_0000u64 <= 0x7ff0_0000_0000_0000u64
    &&& (a == b || (a % 0x8000_0000_0000_0000u64 == 0 && b % 0x8000_0000_0000_0000u64 == 0))
}

/// A typed value.
#[derive(Debug)]
pub enum Bitical {
    String(String),
    Integer(i64),
    Double(Number),
    Boolean(bool),
    Uuid(u128),
}

/// What a typed value stands for.
#[verifier::ext_equal]
pub enum BiticalModel {
    String(Seq<char>),
    Integer(i64),
    Double(u64, Seq<char>),
    Boolean(bool),
    Uuid(u128),
}

/// The hexadecimal digit of a number below sixteen.
pub open spec fn hex_digit(d: int) -> char {
    if d < 10 {
        ('0' as int + d) as char
    } else {
        ('a' as int + d - 10) as char
    }
}

/// How many hyphens of a UUID come before a place.
pub open spec fn hyphens_before(i: int) -> int {
    if i <= 8 {
        0
    } else if i <= 13 {
        1
    } else if i <= 18 {
        2
    } else if i <= 23 {
        3
    } else {
        4
    }
}

/// The hyphenated lower-case form of a UUID: its digits from the highest one, in groups of
/// eight, four, four, four and twelve.
pub open spec fn uuid_shown(u: u128) -> Seq<char> {
    Seq::new(
        36,
        |i: int|
            if i == 8 || i == 13 || i == 18 || i == 23 {
                '-'
            } else {
                hex_digit(
                    (u as int / vstd::arithmetic::power::pow(
                        16,
                        (31 - (i - hyphens_before(i))) as nat,
                    )) % 16,
                )
            },
    )
}

/// `Uuid::to_string` of the `uuid` crate, on the UUID with the given bits.
#[verifier::external_body]
pub(crate) fn uuid_to_text(u: u128) -> (r: String)
    ensures
        r@ == uuid_shown(u),
{
    uuid::Uuid::from_u128(u).to_string()
}

/// The UUID that a text stands for, if it stands for one.
pub uninterp spec fn uuid_read(s: Seq<char>) -> Option<u128>;

/// `Uuid::parse_str` of the `uuid` crate: the bits of the UUID, or nothing for a text that
/// is not one.
#[verifier::external_body]
pub(crate) fn uuid_from_text(s: &str) -> (r: Option<u128>)
    ensures
        r == uuid_read(s@),
{
    match uuid::Uuid::parse_str(s) {
        Ok(u) => Some(u.as_u128()),
        Err(_) => None,
    }
}

pub open spec fn bool_text(b: bool) -> Seq<char> {
    if b {
        "true"@
    } else {
        "false"@
    }
}

impl BiticalModel {
    /// Whether two values are equal: of one type, and the same text, number, truth value
    /// or UUID.
    pub open spec fn same(self, o: BiticalModel) -> bool {
        match (self, o) {
            (BiticalModel::Double(a, _), BiticalModel::Double(b, _)) => same_number(a, b),
            _ => self == o,
        }
    }

    pub open spec fn kind(self) -> BiticalType {
        match self {
            BiticalModel::String(_) => BiticalType::String,
            BiticalModel::Integer(_) => BiticalType::Integer,
            BiticalModel::Double(_, _) => BiticalType::Double,
            BiticalModel::Boolean(_) => BiticalType::Boolean,
            BiticalModel::Uuid(_) => BiticalType::Uuid,
        }
    }

    /// The value as text.
    pub open spec fn shown(self) -> Seq<char> {
        match self {
            BiticalModel::String(s) => s,
            BiticalModel::Integer(i) => text::int_text(i as int),
            BiticalModel::Double(_, s) => s,
            BiticalModel::Boolean(b) => bool_text(b),
            BiticalModel::Uuid(u) => uuid_shown(u),
        }
    }

    /// The form in which a value is kept in its label column: a UUID as text, any other
    /// value as it is.
    pub open spec fn stored(self) -> BiticalModel {
        match self {
            BiticalModel::Uuid(u) => BiticalModel::String(uuid_shown(u)),
            other => other,
        }
    }
}

impl View for Bitical {
    type V = BiticalModel;

    open spec fn view(&self) -> BiticalModel {
        match *self {
            Bitical::String(s) => BiticalModel::String(s@),
            Bitical::Integer(i) => BiticalModel::Integer(i),
            Bitical::Double(n) => BiticalModel::Double(n.bits, n.shown@),
            Bitical::Boolean(b) => BiticalModel::Boolean(b),
            Bitical::Uuid(u) => BiticalModel::Uuid(u),
        }
    }
}

impl Clone for Bitical {
    fn clone(&self) -> (r: Self)
        ensures
            r@ == self@,
    {
        match self {
            Bitical::String(s) => Bitical::String(s.clone()),
            Bitical::Integer(i) => Bitical::Integer(*i),
            Bitical::Double(n) => Bitical::Double(
                Number { bits: n.bits, shown: n.shown.clone() },
            ),
            Bitical::Boolean(b) => Bitical::Boolean(*b),
            Bitical::Uuid(u) => Bitical::Uuid(*u),
        }
    }
}

impl PartialEq for Bitical {
    fn eq(&self, other: &Self) -> (r: bool) {
        self.same(other)
    }
}

impl vstd::std_specs::cmp::PartialEqSpecImpl for Bitical {
    open spec fn obeys_eq_spec() -> bool {
        true
    }

    open spec fn eq_spec(&self, other: &Self) -> bool {
        self@.same(other@)
    }
}

impl Bitical {
    /// Whether two values are equal.
    pub fn same(&self, other: &Self) -> (r: bool)
        ensures
            r == self@.same(other@),
    {
        match (self, other) {
            (Bitical::String(a), Bitical::String(b)) => str_eq(a.as_str(), b.as_str()),
            (Bitical::Integer(a), Bitical::Integer(b)) => *a == *b,
            (Bitical::Double(a), Bitical::Double(b)) => {
                let x = a.bits % 0x8000_0000_0000_0000u64;
                let y = b.bits % 0x8000_0000_0000_0000u64;
                x <= 0x7ff0_0000_0000_0000u64 && y <= 0x7ff0_0000_0000_0000u64 && (a.bits == b.bits
                    || (x == 0 && y == 0))
            },
            (Bitical::Boolean(a), Bitical::Boolean(b)) => *a == *b,
            (Bitical::Uuid(a), Bitical::Uuid(b)) => *a == *b,
            _ => false,
        }
    }

    /// The type of the value.
    pub fn name(&self) -> (r: BiticalType)
        ensures
            r == self@.kind(),
    {
        match self {
            Bitical::String(_) => BiticalType::String,
            Bitical::Integer(_) => BiticalType::Integer,
            Bitical::Double(_) => BiticalType::Double,
            Bitical::Boolean(_) => BiticalType::Boolean,
            Bitical::Uuid(_) => BiticalType::Uuid,
        }
    }

    /// The value as text.
    pub fn as_str(&self) -> (r: String)
        ensures
            r@ == self@.shown(),
    {
        match self {
            Bitical::String(s) => s.clone(),
            Bitical::Integer(i) => show_i64(*i),
            Bitical::Double(n) => n.shown.clone(),
            Bitical::Boolean(b) => if *b {
                "true".to_owned()
            } else {
                "false".to_owned()
            },
            Bitical::Uuid(u) => uuid_to_text(*u),
        }
    }

    /// The label column that the value is written to, and the value in the form that the
    /// column keeps.
    pub fn to_col_value(&self) -> (r: (Col, Bitical))
        ensures
            r.0 == self@.kind().column(),
            r.1@ == self@.stored(),
    {
        let value = match self {
            Bitical::Uuid(u) => Bitical::String(uuid_to_text(*u)),
            other => other.clone(),
        };
        (self.name().to_column(), value)
    }
}

/// A stored value has the type that its column is read under, and storing it again
/// changes nothing.
pub proof fn law_stored_value_fits_its_column(v: BiticalModel)
    ensures
        BiticalType::of_col(v.kind().column()) == v.stored().kind(),
        v.stored().kind().column() == v.kind().column(),
        v.stored().stored() == v.stored(),
{
}

/// Equality of values is symmetric, and reflexive but for a NaN.
pub proof fn law_same_value(a: BiticalModel, b: BiticalModel)
    ensures
        a.same(b) == b.same(a),
        !(a is Double) ==> a.same(a),
{
}

} // verus!
