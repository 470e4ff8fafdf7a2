//! The tables of the database and where queries read from.
use crate::col::{Col, SqlType};
use crate::db::statement;
use crate::db::statement::{ColumnTerm, FromTerm, KindTerm, SelectTerm, TableTerm, Term};
use crate::db::{DuckDbFunc, TargetTable, Tbl};
use crate::text;
use crate::types::BiticalType;
use vstd::prelude::*;

verus! {

/// A column that a plugin or a standard tag adds to a table.
#[derive(Debug)]
pub struct ColumnDef {
    pub name: String,
    pub bitical_type: BiticalType,
    pub target_table: TargetTable,
}

#[verifier::ext_equal]
pub struct ColumnDefModel {
    pub name: Seq<char>,
    pub bitical_type: BiticalType,
    pub target_table: TargetTable,
}

impl View for ColumnDef {
    type V = ColumnDefModel;

    open spec fn view(&self) -> ColumnDefModel {
        ColumnDefModel {
            name: self.name@,
            bitical_type: self.bitical_type,
            target_table: self.target_table,
        }
    }
}

pub open spec fn def_models(v: Seq<ColumnDef>) -> Seq<ColumnDefModel> {
    v.map_values(|c: ColumnDef| c@)
}

/// The type of a column that holds values of a type.
pub open spec fn kind_of(t: BiticalType) -> KindTerm {
    match t {
        BiticalType::String => KindTerm::String,
        BiticalType::Integer => KindTerm::BigInteger,
        BiticalType::Double => KindTerm::Double,
        BiticalType::Boolean => KindTerm::Boolean,
        BiticalType::Uuid => KindTerm::Named(BiticalType::Uuid.sql_text()),
    }
}

impl BiticalType {
    /// Adds a column to a table, of the type that holds values of this type.
    pub fn prepare_column(&self, t: &mut sea_query::TableCreateStatement, name: &str)
        ensures
            statement::table_term(*final(t)) == statement::with_column(
                statement::table_term(*old(t)),
                name@,
                kind_of(*self),
            ),
    {
        match self {
            BiticalType::String => statement::add_string(t, name),
            BiticalType::Integer => statement::add_big_integer(t, name),
            BiticalType::Double => statement::add_double(t, name),
            BiticalType::Boolean => statement::add_boolean(t, name),
            BiticalType::Uuid => statement::add_named(t, name, BiticalType::Uuid.sql_name()),
        }
    }
}

/// The type of a column of an SQL type.
pub open spec fn sql_kind(t: SqlType) -> KindTerm {
    match t {
        SqlType::VARCHAR => KindTerm::String,
        SqlType::BIGINT => KindTerm::BigInteger,
        SqlType::DOUBLE => KindTerm::Double,
        SqlType::BOOLEAN => KindTerm::Boolean,
        SqlType::UUID => KindTerm::Named(SqlType::UUID.name_text()),
    }
}

impl SqlType {
    /// Adds a column of this type to a table.
    pub fn prepare_column(&self, t: &mut sea_query::TableCreateStatement, name: &str)
        ensures
            statement::table_term(*final(t)) == statement::with_column(
                statement::table_term(*old(t)),
                name@,
                sql_kind(*self),
            ),
    {
        match self {
            SqlType::VARCHAR => statement::add_string(t, name),
            SqlType::BIGINT => statement::add_big_integer(t, name),
            SqlType::DOUBLE => statement::add_double(t, name),
            SqlType::BOOLEAN => statement::add_boolean(t, name),
            SqlType::UUID => statement::add_named(t, name, SqlType::UUID.name()),
        }
    }
}

/// A column under its name, with the type that holds its values.
pub open spec fn typed_column(c: Col) -> ColumnTerm {
    ColumnTerm { name: c.name_text(), kind: kind_of(BiticalType::of_col(c)) }
}

pub open spec fn column_with(c: Col, kind: KindTerm) -> ColumnTerm {
    ColumnTerm { name: c.name_text(), kind }
}

/// The columns that are added to a table, in their order.
pub open spec fn added_columns(columns: Seq<ColumnDefModel>, target: TargetTable) -> Seq<ColumnTerm>
    decreases columns.len(),
{
    if columns.len() == 0 {
        Seq::empty()
    } else {
        let before = added_columns(columns.drop_last(), target);
        let c = columns.last();
        if c.target_table == target {
            before.push(ColumnTerm { name: c.name, kind: kind_of(c.bitical_type) })
        } else {
            before
        }
    }
}

/// The columns of a table.
pub open spec fn table_columns(target: TargetTable, columns: Seq<ColumnDefModel>) -> Seq<
    ColumnTerm,
> {
    let id = column_with(Col::ItemId, KindTerm::BigInteger);
    match target {
        TargetTable::FileReferences => seq![id, column_with(Col::Rank, KindTerm::BigInteger)]
            + added_columns(columns, target),
        TargetTable::Locations => seq![id] + added_columns(columns, target) + seq![
            column_with(Col::ScanHash, KindTerm::BigInteger),
            column_with(Col::BasenameScanHash, KindTerm::BigInteger),
        ],
        TargetTable::BaseTags
        | TargetTable::TagsByLocation
        | TargetTable::SystemTags
        | TargetTable::UserTags => seq![id, column_with(Col::Type, KindTerm::String)]
            + Col::typed_labels().map_values(|c: Col| typed_column(c)),
        TargetTable::ItemReferences => seq![
            typed_column(Col::ItemId),
            typed_column(Col::Rank),
            typed_column(Col::Name),
            typed_column(Col::ItemKind),
            typed_column(Col::Content),
        ],
        TargetTable::DataTypes => seq![
            column_with(Col::Type, KindTerm::String),
            column_with(Col::DataType, KindTerm::Integer),
        ],
        TargetTable::RemovedFiles => seq![
            id,
            column_with(Col::Rank, KindTerm::BigInteger),
            column_with(Col::FileId, kind_of(BiticalType::Uuid)),
            column_with(Col::ScanHash, KindTerm::BigInteger),
            column_with(Col::BasenameScanHash, KindTerm::BigInteger),
            column_with(Col::Path, KindTerm::String),
            column_with(Col::Size, KindTerm::BigInteger),
            column_with(Col::Mtime, KindTerm::BigInteger),
            column_with(Col::IsDir, KindTerm::Boolean),
            column_with(Col::RemovedFileAt, KindTerm::BigInteger),
        ],
    }
}

/// Every table whose rows belong to items has a column for the item, but the table of the
/// types of data.
pub proof fn law_tables_hold_items(target: TargetTable, columns: Seq<ColumnDefModel>)
    requires
        target != TargetTable::DataTypes,
    ensures
        table_columns(target, columns).len() > 0,
        table_columns(target, columns)[0] == column_with(Col::ItemId, KindTerm::BigInteger),
{
}

proof fn lemma_added_fit(columns: Seq<ColumnDefModel>, target: TargetTable)
    ensures
        forall|i: int|
            0 <= i < added_columns(columns, target).len() ==> !((#[trigger] added_columns(
                columns,
                target,
            )[i]).kind is Other),
    decreases columns.len(),
{
    if columns.len() > 0 {
        lemma_added_fit(columns.drop_last(), target);
    }
}

fn add_own(t: &mut sea_query::TableCreateStatement, columns: &Vec<ColumnDef>, target: TargetTable)
    ensures
        statement::table_term(*final(t)) == (TableTerm {
            columns: statement::table_term(*old(t)).columns + added_columns(
                def_models(columns@),
                target,
            ),
            ..statement::table_term(*old(t))
        }),
{
    let ghost start = statement::table_term(*t);
    let ghost ms = def_models(columns@);
    let mut i: usize = 0;
    proof {
        assert(start.columns + added_columns(ms.take(0), target) =~= start.columns);
    }
    while i < columns.len()
        invariant
            i <= columns@.len(),
            ms == def_models(columns@),
            statement::table_term(*t) == (TableTerm {
                columns: start.columns + added_columns(ms.take(i as int), target),
                ..start
            }),
        decreases columns.len() - i,
    {
        let c = &columns[i];
        proof {
            assert(ms.take(i + 1).drop_last() =~= ms.take(i as int));
            assert(ms.take(i + 1).last() == columns@[i as int]@);
        }
        if c.target_table == target {
            c.bitical_type.prepare_column(t, c.name.as_str());
            proof {
                assert(statement::table_term(*t).columns =~= start.columns + added_columns(
                    ms.take(i + 1),
                    target,
                ));
            }
        }
        i += 1;
    }
    proof {
        assert(ms.take(ms.len() as int) =~= ms);
    }
}

fn add_typed_all(t: &mut sea_query::TableCreateStatement, cols: &[Col])
    ensures
        statement::table_term(*final(t)) == (TableTerm {
            columns: statement::table_term(*old(t)).columns + cols@.map_values(
                |c: Col| typed_column(c),
            ),
            ..statement::table_term(*old(t))
        }),
{
    let ghost start = statement::table_term(*t);
    let ghost all = cols@.map_values(|c: Col| typed_column(c));
    let mut i: usize = 0;
    proof {
        assert(start.columns + all.take(0) =~= start.columns);
    }
    while i < cols.len()
        invariant
            i <= cols@.len(),
            all == cols@.map_values(|c: Col| typed_column(c)),
            statement::table_term(*t) == (TableTerm {
                columns: start.columns + all.take(i as int),
                ..start
            }),
        decreases cols.len() - i,
    {
        BiticalType::from_col(cols[i]).prepare_column(t, cols[i].name());
        proof {
            assert(statement::table_term(*t).columns =~= start.columns + all.take(i + 1));
        }
        i += 1;
    }
    proof {
        assert(all.take(all.len() as int) =~= all);
    }
}

/// The tables of the database.
pub struct Schema;

impl Schema {
    /// The creation of a table under a name.
    pub fn build_table(target: TargetTable, name: &str, columns: &Vec<ColumnDef>) -> (r:
        sea_query::TableCreateStatement)
        ensures
            statement::table_term(r) == (TableTerm {
                name: name@,
                columns: table_columns(target, def_models(columns@)),
            }),
            statement::table_fits(statement::table_term(r)),
    {
        let mut t = statement::create_table(name);
        match target {
            TargetTable::FileReferences => {
                BiticalType::Integer.prepare_column(&mut t, Col::ItemId.name());
                BiticalType::Integer.prepare_column(&mut t, Col::Rank.name());
                add_own(&mut t, columns, target);
            },
            TargetTable::Locations => {
                BiticalType::Integer.prepare_column(&mut t, Col::ItemId.name());
                add_own(&mut t, columns, target);
                BiticalType::Integer.prepare_column(&mut t, Col::ScanHash.name());
                BiticalType::Integer.prepare_column(&mut t, Col::BasenameScanHash.name());
            },
            TargetTable::BaseTags
            | TargetTable::TagsByLocation
            | TargetTable::SystemTags
            | TargetTable::UserTags => {
                BiticalType::Integer.prepare_column(&mut t, Col::ItemId.name());
                BiticalType::String.prepare_column(&mut t, Col::Type.name());
                add_typed_all(&mut t, &Col::typed_label_columns());
            },
            TargetTable::ItemReferences => {
                add_typed_all(&mut t, &Col::item_references_columns());
            },
            TargetTable::DataTypes => {
                BiticalType::String.prepare_column(&mut t, Col::Type.name());
                statement::add_integer(&mut t, Col::DataType.name());
            },
            TargetTable::RemovedFiles => {
                BiticalType::Integer.prepare_column(&mut t, Col::ItemId.name());
                BiticalType::Integer.prepare_column(&mut t, Col::Rank.name());
                BiticalType::Uuid.prepare_column(&mut t, Col::FileId.name());
                BiticalType::Integer.prepare_column(&mut t, Col::ScanHash.name());
                BiticalType::Integer.prepare_column(&mut t, Col::BasenameScanHash.name());
                BiticalType::String.prepare_column(&mut t, Col::Path.name());
                BiticalType::Integer.prepare_column(&mut t, Col::Size.name());
                BiticalType::Integer.prepare_column(&mut t, Col::Mtime.name());
                BiticalType::Boolean.prepare_column(&mut t, Col::IsDir.name());
                BiticalType::Integer.prepare_column(&mut t, Col::RemovedFileAt.name());
            },
        }
        proof {
            assert(statement::table_term(t).columns =~= table_columns(
                target,
                def_models(columns@),
            ));
            lemma_added_fit(def_models(columns@), target);
        }
        t
    }
}

// ---------------------------------------------------------------------------
// Where queries read from
// ---------------------------------------------------------------------------

/// A text with each single quote written twice.
pub open spec fn doubled(s: Seq<char>) -> Seq<char>
    decreases s.len(),
{
    if s.len() == 0 {
        Seq::empty()
    } else if s.last() == '\'' {
        doubled(s.drop_last()) + seq!['\'', '\'']
    } else {
        doubled(s.drop_last()).push(s.last())
    }
}

/// Writes each single quote twice, as a text inside of SQL needs it.
pub fn double_quotes(s: &str) -> (r: String)
    ensures
        r@ == doubled(s@),
{
    let cs = text::chars_of(s);
    let mut out: Vec<char> = Vec::new();
    let mut i: usize = 0;
    while i < cs.len()
        invariant
            i <= cs@.len(),
            out@ == doubled(cs@.take(i as int)),
        decreases cs.len() - i,
    {
        proof {
            assert(cs@.take(i + 1).drop_last() =~= cs@.take(i as int));
            assert(cs@.take(i + 1).last() == cs@[i as int]);
        }
        if cs[i] == '\'' {
            out.push('\'');
            out.push('\'');
            proof {
                assert(out@ =~= doubled(cs@.take(i as int)) + seq!['\'', '\'']);
            }
        } else {
            out.push(cs[i]);
        }
        i += 1;
    }
    proof {
        assert(cs@.take(cs@.len() as int) =~= cs@);
    }
    text::text_of(&out)
}

/// A text without single quotes is written as it is.
pub proof fn law_doubled_keeps_the_rest(s: Seq<char>)
    requires
        !s.contains('\''),
    ensures
        doubled(s) == s,
    decreases s.len(),
{
    if s.len() > 0 {
        assert(s.last() == s[s.len() - 1]);
        assert forall|c: char| s.drop_last().contains(c) implies s.contains(c) by {
            let i = choose|i: int| 0 <= i < s.drop_last().len() && s.drop_last()[i] == c;
            assert(s[i] == c);
        }
        law_doubled_keeps_the_rest(s.drop_last());
        assert(s =~= s.drop_last().push(s.last()));
    } else {
        assert(doubled(s) =~= s);
    }
}

/// Where a query reads its rows from.
#[derive(Debug)]
pub enum Src {
    OneView,
    Parquet(String),
}

pub enum SrcModel {
    OneView,
    Parquet(Seq<char>),
}

impl View for Src {
    type V = SrcModel;

    open spec fn view(&self) -> SrcModel {
        match *self {
            Src::OneView => SrcModel::OneView,
            Src::Parquet(p) => SrcModel::Parquet(p@),
        }
    }
}

impl SrcModel {
    pub open spec fn table_text(self) -> Seq<char> {
        match self {
            SrcModel::OneView => Tbl::OneView.name_text(),
            SrcModel::Parquet(p) => "read_parquet('"@ + doubled(p) + "')"@,
        }
    }

    /// What a selection takes its rows from.
    pub open spec fn source(self) -> FromTerm {
        match self {
            SrcModel::OneView => FromTerm::Table(Tbl::OneView.name_text()),
            SrcModel::Parquet(p) => parquet_source(p, "src"@),
        }
    }
}

/// The rows of a Parquet file, under a name.
pub open spec fn parquet_source(path: Seq<char>, name: Seq<char>) -> FromTerm {
    FromTerm::Call(DuckDbFunc::ReadParquet.name_text(), seq![Term::Text(path)], name)
}

/// Takes the rows of a Parquet file, under a name.
pub(crate) fn from_parquet(q: &mut sea_query::SelectStatement, path: &str, name: &str)
    ensures
        statement::select_term(*final(q)) == statement::select_term(*old(q)).with_from(
            parquet_source(path@, name@),
        ),
{
    let mut args: Vec<sea_query::SimpleExpr> = Vec::new();
    args.push(statement::text_value(path));
    proof {
        assert(statement::expr_terms(args@) =~= seq![Term::Text(path@)]);
    }
    statement::from_call(q, DuckDbFunc::ReadParquet.name(), args, name);
}

impl Src {
    /// The source as SQL that stands where a table can stand.
    pub fn table_str(&self) -> (r: String)
        ensures
            r@ == self@.table_text(),
    {
        match self {
            Src::OneView => Tbl::OneView.name().to_string(),
            Src::Parquet(p) => {
                let d = double_quotes(p.as_str());
                text::cat3("read_parquet('", d.as_str(), "')")
            },
        }
    }

    /// Lets a selection take its rows from the source.
    pub fn feed(&self, q: &mut sea_query::SelectStatement)
        ensures
            statement::select_term(*final(q)) == statement::select_term(*old(q)).with_from(
                self@.source(),
            ),
    {
        match self {
            Src::OneView => statement::from_table(q, Tbl::OneView.name()),
            Src::Parquet(p) => from_parquet(q, p.as_str(), "src"),
        }
    }
}

/// All rows of a Parquet file.
pub open spec fn all_rows(path: Seq<char>) -> SelectTerm {
    SelectTerm::nothing().with_all().with_from(SrcModel::Parquet(path).source())
}

/// A selection of all rows of a Parquet file.
pub fn parquet_query(path: &str) -> (r: sea_query::SelectStatement)
    ensures
        statement::select_term(r) == all_rows(path@),
        statement::select_fits(statement::select_term(r)),
{
    broadcast use statement::group_fits;

    let mut q = statement::select();
    statement::add_all(&mut q);
    from_parquet(&mut q, path, "src");
    q
}

/// Values of different types are kept in columns of different types, and a column of an SQL type
/// holds the values that the type is for.
pub proof fn law_columns_fit_their_values(a: BiticalType, b: BiticalType, s: SqlType, t: SqlType)
    ensures
        kind_of(a) == kind_of(b) ==> a == b,
        sql_kind(s) == sql_kind(t) ==> s == t,
        kind_of(BiticalType::Integer) == sql_kind(SqlType::BIGINT),
        kind_of(BiticalType::Double) == sql_kind(SqlType::DOUBLE),
        kind_of(BiticalType::Boolean) == sql_kind(SqlType::BOOLEAN),
        kind_of(BiticalType::String) == sql_kind(SqlType::VARCHAR),
        kind_of(BiticalType::Uuid) == sql_kind(SqlType::UUID),
{
}

/// A column that is added to the table of files or to that of locations is there, with its type,
/// and every further column of such a table is one that was added to it.
pub proof fn law_added_columns_are_there(
    target: TargetTable,
    columns: Seq<ColumnDefModel>,
    k: int,
    c: ColumnTerm,
)
    requires
        target == TargetTable::FileReferences || target == TargetTable::Locations,
    ensures
        0 <= k < columns.len() && columns[k].target_table == target ==> table_columns(
            target,
            columns,
        ).contains(ColumnTerm { name: columns[k].name, kind: kind_of(columns[k].bitical_type) }),
        table_columns(target, columns).contains(c) ==> (table_columns(
            target,
            Seq::empty(),
        ).contains(c) || exists|i: int|
            0 <= i < columns.len() && (#[trigger] columns[i]).target_table == target && c == (
            ColumnTerm { name: columns[i].name, kind: kind_of(columns[i].bitical_type) })),
{
    let own = added_columns(columns, target);
    let none = Seq::<ColumnDefModel>::empty();
    let all = table_columns(target, columns);
    let first = table_columns(target, none);
    lemma_added_columns(columns, target, c);
    assert(added_columns(none, target) =~= Seq::<ColumnTerm>::empty());
    let at = if target == TargetTable::FileReferences {
        2int
    } else {
        1int
    };
    if 0 <= k < columns.len() && columns[k].target_table == target {
        let x = ColumnTerm { name: columns[k].name, kind: kind_of(columns[k].bitical_type) };
        lemma_added_columns(columns, target, x);
        assert(own.contains(x));
        let i = choose|i: int| 0 <= i < own.len() && own[i] == x;
        assert(all[at + i] == x);
    }
    if all.contains(c) {
        let i = choose|i: int| 0 <= i < all.len() && all[i] == c;
        if at <= i < at + own.len() {
            assert(own[i - at] == c);
        } else if i < at {
            assert(first[i] == c);
        } else {
            assert(first[i - own.len()] == c);
        }
    }
}

proof fn lemma_added_columns(columns: Seq<ColumnDefModel>, target: TargetTable, c: ColumnTerm)
    ensures
        added_columns(columns, target).contains(c) <==> exists|i: int|
            0 <= i < columns.len() && (#[trigger] columns[i]).target_table == target && c == (
            ColumnTerm { name: columns[i].name, kind: kind_of(columns[i].bitical_type) }),
    decreases columns.len(),
{
    if columns.len() > 0 {
        let front = columns.drop_last();
        let last = columns.len() - 1;
        let before = added_columns(front, target);
        let x = ColumnTerm { name: columns[last].name, kind: kind_of(columns[last].bitical_type) };
        lemma_added_columns(front, target, c);
        assert(before.push(x)[before.len() as int] == x);
        if before.contains(c) {
            let k = choose|k: int| 0 <= k < before.len() && before[k] == c;
            assert(before.push(x)[k] == c);
            let i = choose|i: int|
                0 <= i < front.len() && (#[trigger] front[i]).target_table == target && c == (
                ColumnTerm { name: front[i].name, kind: kind_of(front[i].bitical_type) });
            assert(columns[i] == front[i]);
        }
        if before.push(x).contains(c) && !before.contains(c) {
            let k = choose|k: int| 0 <= k < before.push(x).len() && before.push(x)[k] == c;
            assert(k < before.len() ==> before[k] == c);
            assert(c == x);
        }
        if exists|i: int|
            0 <= i < columns.len() && (#[trigger] columns[i]).target_table == target && c == (
            ColumnTerm { name: columns[i].name, kind: kind_of(columns[i].bitical_type) }) {
            let i = choose|i: int|
                0 <= i < columns.len() && (#[trigger] columns[i]).target_table == target && c == (
                ColumnTerm { name: columns[i].name, kind: kind_of(columns[i].bitical_type) });
            if i < last {
                assert(front[i] == columns[i]);
            }
        }
    }
}

/// A text with its quotes doubled is that of its parts, one behind the other, and a quote is
/// written as two: so that the text is known from it.
pub proof fn law_doubled_texts_are_told_apart(a: Seq<char>, b: Seq<char>)
    ensures
        doubled(a + b) == doubled(a) + doubled(b),
        doubled(seq!['\'']) == seq!['\'', '\''],
        doubled(a) == doubled(b) ==> a == b,
    decreases a.len() + b.len(),
{
    lemma_doubled_parts(a, b);
    let one: Seq<char> = seq!['\''];
    assert(one.drop_last() =~= Seq::<char>::empty());
    assert(doubled(Seq::<char>::empty()) =~= Seq::<char>::empty());
    assert(doubled(one) =~= seq!['\'', '\'']);
    lemma_doubled_tail(a);
    lemma_doubled_tail(b);
    if doubled(a) == doubled(b) {
        if a.len() == 0 || b.len() == 0 {
            assert(a =~= b);
        } else {
            let x = a.drop_last();
            let y = b.drop_last();
            assert(a.last() == doubled(a).last());
            assert(b.last() == doubled(b).last());
            let n = if a.last() == '\'' {
                2int
            } else {
                1int
            };
            assert(doubled(x) =~= doubled(a).take(doubled(a).len() - n));
            assert(doubled(y) =~= doubled(b).take(doubled(b).len() - n));
            law_doubled_texts_are_told_apart(x, y);
            assert(a =~= x.push(a.last()));
            assert(b =~= y.push(b.last()));
        }
    }
}

proof fn lemma_doubled_parts(a: Seq<char>, b: Seq<char>)
    ensures
        doubled(a + b) == doubled(a) + doubled(b),
    decreases b.len(),
{
    if b.len() == 0 {
        assert(a + b =~= a);
        assert(doubled(a) + doubled(b) =~= doubled(a));
    } else {
        let y = b.drop_last();
        lemma_doubled_parts(a, y);
        assert((a + b).drop_last() =~= a + y);
        assert((a + b).last() == b.last());
        assert(doubled(a + b) =~= doubled(a) + doubled(b));
    }
}

proof fn lemma_doubled_tail(s: Seq<char>)
    ensures
        s.len() > 0 ==> doubled(s).len() > 0 && doubled(s).last() == s.last(),
{
}

} // verus!
