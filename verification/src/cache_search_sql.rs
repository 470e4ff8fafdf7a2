//! Queries on the kept result of a search: how often each label occurs, and which items have
//! a label.
use crate::col::Col;
use crate::db::meaning;
use crate::db::meaning::{Data, Row, Val};
use crate::db::schema;
use crate::db::schema::from_parquet;
use crate::db::statement;
use crate::db::statement::{FromTerm, SelectTerm, Term};
use crate::db::{Pronoun, Tbl, VCol};
use crate::item::TagType;
use crate::types::Number;
use vstd::prelude::*;

verus! {

/// Where the labels of a type of tag are stored.
#[derive(Debug)]
pub enum StorageMapping {
    /// In a column of their own.
    Fixed(Col),
    /// In the label column of the rows of a type.
    Basic { tag_type: String, column: Col },
    /// Nowhere: they are put together from others.
    Composite,
}

pub enum StorageModel {
    Fixed(Col),
    Basic(Seq<char>, Col),
    Composite,
}

impl View for StorageMapping {
    type V = StorageModel;

    open spec fn view(&self) -> StorageModel {
        match *self {
            StorageMapping::Fixed(c) => StorageModel::Fixed(c),
            StorageMapping::Basic { tag_type, column } => StorageModel::Basic(tag_type@, column),
            StorageMapping::Composite => StorageModel::Composite,
        }
    }
}

/// A label that items are looked for by.
#[derive(Debug)]
pub enum LabelValue {
    Integer(i64),
    Boolean(bool),
    Double(Number),
    Null,
    String(String),
    Literal(String),
}

/// What a selection takes its rows from: the items at hand, or the file that a result is
/// kept in.
pub open spec fn with_source(q: SelectTerm, from_table: bool, path: Option<Seq<char>>) -> SelectTerm {
    if from_table {
        q.with_from(FromTerm::Table(Tbl::OneView.name_text())).with_where(
            Term::InSelect(
                Box::new(plain(Col::ItemId)),
                Box::new(
                    SelectTerm::nothing().with_plain(plain(Col::ItemId)).with_from(
                        FromTerm::Table(Pronoun::Sub.name_text()),
                    ),
                ),
            ),
        )
    } else {
        match path {
            Some(p) => q.with_from(schema::parquet_source(p, Pronoun::Diff.name_text())),
            None => q,
        }
    }
}

pub open spec fn plain(c: Col) -> Term {
    Term::Col(None, c.name_text())
}

pub open spec fn path_model(p: Option<&str>) -> Option<Seq<char>> {
    match p {
        Some(s) => Some(s@),
        None => None,
    }
}

fn add_source(q: &mut sea_query::SelectStatement, from_table: bool, path_str: Option<&str>)
    ensures
        statement::select_term(*final(q)) == with_source(
            statement::select_term(*old(q)),
            from_table,
            path_model(path_str),
        ),
{
    if from_table {
        statement::from_table(q, Tbl::OneView.name());
        let mut ids = statement::select();
        statement::add_plain(&mut ids, statement::column(Col::ItemId.name()));
        statement::from_table(&mut ids, Pronoun::Sub.name());
        let cond = statement::among_rows(statement::column(Col::ItemId.name()), ids);
        statement::and_where(q, cond);
    } else if let Some(path) = path_str {
        from_parquet(q, path, Pronoun::Diff.name());
    }
}

/// The column that a label column is read from: the label column itself, or the column of
/// its own where that holds values of the type.
pub open spec fn read_from(storage: StorageModel, label: Col) -> Term {
    match storage {
        StorageModel::Fixed(c) => if Col::for_sql_type(c.stored_as()) == label {
            plain(c)
        } else {
            Term::Null
        },
        _ => plain(label),
    }
}

fn source_of(storage: &StorageMapping, label: Col) -> (r: sea_query::SimpleExpr)
    ensures
        statement::expr_term(r) == read_from(storage@, label),
{
    match storage {
        StorageMapping::Fixed(c) => {
            if Col::from_sql_type(c.sql_type()) == label {
                statement::column(c.name())
            } else {
                statement::null_value()
            }
        },
        _ => statement::column(label.name()),
    }
}

/// The rows of the type only, where labels share their column with other types.
pub open spec fn of_stored_type(q: SelectTerm, storage: StorageModel) -> SelectTerm {
    match storage {
        StorageModel::Basic(ty, _) => q.with_where(
            Term::Eq(Box::new(plain(Col::Type)), Box::new(Term::Text(ty))),
        ),
        _ => q,
    }
}

fn keep_stored_type(q: &mut sea_query::SelectStatement, storage: &StorageMapping)
    ensures
        statement::select_term(*final(q)) == of_stored_type(
            statement::select_term(*old(q)),
            storage@,
        ),
{
    if let StorageMapping::Basic { tag_type, .. } = storage {
        let cond = statement::equal(
            statement::column(Col::Type.name()),
            statement::text_value(tag_type.as_str()),
        );
        statement::and_where(q, cond);
    }
}

/// What rows are grouped by: what their label is read from.
pub open spec fn grouped(q: SelectTerm, storage: StorageModel) -> SelectTerm {
    match storage {
        StorageModel::Fixed(c) => q.with_group(plain(c)),
        _ => q.with_group(plain(Col::LabelStr)).with_group(plain(Col::LabelInt)).with_group(
            plain(Col::LabelDouble),
        ).with_group(plain(Col::LabelBool)),
    }
}

/// Each label with the number of rows that have it, `n` of them and one more after the first
/// `offset`; all for no `n`.
pub open spec fn label_counts(
    storage: StorageModel,
    from_table: bool,
    path: Option<Seq<char>>,
    n: usize,
    offset: usize,
) -> SelectTerm {
    let listed = SelectTerm::nothing().with_item(
        read_from(storage, Col::LabelStr),
        Col::LabelStr.name_text(),
    ).with_item(read_from(storage, Col::LabelInt), Col::LabelInt.name_text()).with_item(
        read_from(storage, Col::LabelDouble),
        Col::LabelDouble.name_text(),
    ).with_item(read_from(storage, Col::LabelBool), Col::LabelBool.name_text()).with_item(
        Term::Raw("COUNT(*)"@),
        VCol::Total.name_text(),
    );
    let q = grouped(of_stored_type(with_source(listed, from_table, path), storage), storage)
        .with_order(plain(Col::LabelStr), true);
    SelectTerm {
        limit: if n > 0 {
            Some((n + 1) as u64)
        } else {
            None
        },
        offset: if offset > 0 {
            Some(offset as u64)
        } else {
            None
        },
        ..q
    }
}

/// Asks for one row more than a page holds, so that it shows whether there is a next page.
pub proof fn law_one_more_than_a_page(
    storage: StorageModel,
    from_table: bool,
    path: Option<Seq<char>>,
    n: usize,
    offset: usize,
)
    requires
        0 < n < usize::MAX,
    ensures
        label_counts(storage, from_table, path, n, offset).limit == Some((n + 1) as u64),
        (n + 1) as u64 > n,
{
}

/// The query for each label of a type of tag and the number of rows that have it.
pub fn build_label_counts(
    _proj_type: &TagType,
    storage: &StorageMapping,
    from_table: bool,
    path_str: Option<&str>,
    n: usize,
    offset: usize,
) -> (r: sea_query::SelectStatement)
    requires
        n < usize::MAX,
    ensures
        statement::select_term(r) == label_counts(
            storage@,
            from_table,
            path_model(path_str),
            n,
            offset,
        ),
        statement::select_fits(statement::select_term(r)),
{
    broadcast use statement::group_fits;

    let mut q = statement::select();
    statement::add_item(&mut q, source_of(storage, Col::LabelStr), Col::LabelStr.name());
    statement::add_item(&mut q, source_of(storage, Col::LabelInt), Col::LabelInt.name());
    statement::add_item(&mut q, source_of(storage, Col::LabelDouble), Col::LabelDouble.name());
    statement::add_item(&mut q, source_of(storage, Col::LabelBool), Col::LabelBool.name());
    statement::add_item(&mut q, statement::raw("COUNT(*)".to_string()), VCol::Total.name());
    add_source(&mut q, from_table, path_str);
    keep_stored_type(&mut q, storage);
    match storage {
        StorageMapping::Fixed(c) => {
            statement::group_by(&mut q, statement::column(c.name()));
        },
        _ => {
            statement::group_by(&mut q, statement::column(Col::LabelStr.name()));
            statement::group_by(&mut q, statement::column(Col::LabelInt.name()));
            statement::group_by(&mut q, statement::column(Col::LabelDouble.name()));
            statement::group_by(&mut q, statement::column(Col::LabelBool.name()));
        },
    }
    statement::order_by(&mut q, statement::column(Col::LabelStr.name()));
    proof {
        assert(forall|label: Col| statement::term_fits(#[trigger] read_from(storage@, label)));
        assert(statement::select_fits(statement::select_term(q)));
    }
    if n > 0 {
        statement::set_limit(&mut q, (n + 1) as u64);
    }
    if offset > 0 {
        statement::set_offset(&mut q, offset as u64);
    }
    q
}

/// Whether a column holds a label.
pub open spec fn holds_label(c: Col, label: LabelValue) -> Term {
    match label {
        LabelValue::Integer(i) => Term::Eq(Box::new(plain(c)), Box::new(Term::Int(i as int))),
        LabelValue::Boolean(b) => Term::Eq(Box::new(plain(c)), Box::new(Term::Bool(b))),
        LabelValue::Double(n) => Term::Eq(Box::new(plain(c)), Box::new(Term::Number(statement::double_read(n.shown@)))),
        LabelValue::Null => Term::IsNull(Box::new(plain(c))),
        LabelValue::String(s) | LabelValue::Literal(s) => Term::Eq(
            Box::new(plain(c)),
            Box::new(Term::Text(s@)),
        ),
    }
}

fn apply_label_filter(q: &mut sea_query::SelectStatement, col: Col, label: &LabelValue)
    ensures
        statement::select_term(*final(q)) == statement::select_term(*old(q)).with_where(
            holds_label(col, *label),
        ),
{
    let column = statement::column(col.name());
    let cond = match label {
        LabelValue::Integer(i) => statement::equal(column, statement::int_value(*i)),
        LabelValue::Boolean(b) => statement::equal(column, statement::bool_value(*b)),
        LabelValue::Double(n) => statement::equal(column, statement::number_value(n)),
        LabelValue::Null => statement::missing(column),
        LabelValue::String(s) => statement::equal(column, statement::text_value(s.as_str())),
        LabelValue::Literal(s) => statement::equal(column, statement::text_value(s.as_str())),
    };
    statement::and_where(q, cond);
}

/// The items that have a label; none for labels that are put together from others.
pub open spec fn label_items(
    storage: StorageModel,
    label: LabelValue,
    from_table: bool,
    path: Option<Seq<char>>,
) -> SelectTerm {
    let start = SelectTerm { distinct: true, ..SelectTerm::nothing() }.with_plain(
        plain(Col::ItemId),
    );
    let q = with_source(start, from_table, path);
    match storage {
        StorageModel::Fixed(c) => q.with_where(holds_label(c, label)),
        StorageModel::Basic(_, c) => of_stored_type(q, storage).with_where(holds_label(c, label)),
        StorageModel::Composite => q.with_where(
            Term::Eq(Box::new(Term::Int(1)), Box::new(Term::Int(0))),
        ),
    }
}

/// The query for the items that have a label.
pub fn build_label_expansion_sql(
    _proj_type: &TagType,
    label: &LabelValue,
    storage: &StorageMapping,
    from_table: bool,
    path_str: Option<&str>,
) -> (r: sea_query::SelectStatement)
    ensures
        statement::select_term(r) == label_items(
            storage@,
            *label,
            from_table,
            path_model(path_str),
        ),
        statement::select_fits(statement::select_term(r)),
{
    broadcast use statement::group_fits;

    let mut q = statement::select();
    statement::set_distinct(&mut q);
    statement::add_plain(&mut q, statement::column(Col::ItemId.name()));
    add_source(&mut q, from_table, path_str);
    match storage {
        StorageMapping::Fixed(c) => {
            apply_label_filter(&mut q, *c, label);
        },
        StorageMapping::Basic { column, .. } => {
            keep_stored_type(&mut q, storage);
            apply_label_filter(&mut q, *column, label);
        },
        StorageMapping::Composite => {
            let never = statement::equal(statement::int_value(1), statement::int_value(0));
            statement::and_where(&mut q, never);
        },
    }
    q
}

// ---------------------------------------------------------------------------
// Laws
// ---------------------------------------------------------------------------

/// Whether a row holds a label in a column.
pub open spec fn row_has_label(row: Row, c: Col, label: LabelValue) -> bool {
    let found = meaning::cell(row, c.name_text());
    match label {
        LabelValue::Integer(i) => found == Val::Int(i as int),
        LabelValue::Boolean(b) => found == Val::Bool(b),
        LabelValue::Double(n) => found is Number && statement::double_read(n.shown@) == Some(
            found->Number_0,
        ),
        LabelValue::Null => found is Null,
        LabelValue::String(s) => found == Val::Text(s@),
        LabelValue::Literal(s) => found == Val::Text(s@),
    }
}

/// Whether a row is one that a result is made of: of the kept file, or of the items at hand.
pub open spec fn row_at_hand(d: Data, from_table: bool, path: Option<Seq<char>>, row: Row) -> bool {
    let id = Col::ItemId.name_text();
    if from_table {
        &&& (d.tables)(Tbl::OneView.name_text()).contains(row)
        &&& !(meaning::cell(row, id) is Null)
        &&& exists|k: int|
            0 <= k < (d.tables)(Pronoun::Sub.name_text()).len() && meaning::cell(
                #[trigger] (d.tables)(Pronoun::Sub.name_text())[k],
                id,
            ) == meaning::cell(row, id)
    } else {
        path is Some && (d.files)(path->0).contains(row)
    }
}

/// Whether the rows of the items at hand tell which items they are.
pub open spec fn ids_are_told(d: Data) -> bool {
    forall|k: int|
        0 <= k < (d.tables)(Pronoun::Sub.name_text()).len() ==> (#[trigger] (d.tables)(
            Pronoun::Sub.name_text(),
        )[k]).dom().contains(Col::ItemId.name_text())
}

/// The rows that a source brings, by what they hold.
proof fn lemma_source(q: SelectTerm, from_table: bool, path: Option<Seq<char>>, d: Data, row: Row)
    requires
        q.from.len() == 0,
        q.joins.len() == 0,
        q.wheres.len() == 0,
        from_table || path is Some,
        ids_are_told(d),
    ensures
        ({
            let t = with_source(q, from_table, path);
            let inner = meaning::one_row(meaning::name_of(t.from[0]), row);
            &&& t.from.len() == 1
            &&& t.joins.len() == 0
            &&& row_at_hand(d, from_table, path, row) <==> {
                &&& meaning::source_has(t.from[0], d, seq![], row)
                &&& forall|i: int|
                    0 <= i < t.wheres.len() ==> meaning::is_true(
                        meaning::value(#[trigger] t.wheres[i], d, inner),
                    )
            }
        }),
{
    let t = with_source(q, from_table, path);
    let inner = meaning::one_row(meaning::name_of(t.from[0]), row);
    let id = Col::ItemId.name_text();
    meaning::lemma_own_cell(meaning::name_of(t.from[0]), row, id);
    if from_table {
        let sub = SelectTerm::nothing().with_plain(plain(Col::ItemId)).with_from(
            FromTerm::Table(Pronoun::Sub.name_text()),
        );
        let others = (d.tables)(Pronoun::Sub.name_text());
        let none = Seq::<crate::db::statement::ItemTerm>::empty();
        let it = crate::db::statement::ItemTerm::One(plain(Col::ItemId), None);
        assert(sub.items =~= none.push(it));
        assert forall|k: int| 0 <= k < others.len() implies meaning::projected(
            sub.items,
            d,
            inner + meaning::one_row(Pronoun::Sub.name_text(), #[trigger] others[k]),
            others[k],
        ) == Map::<Seq<char>, Val>::empty().insert(id, others[k][id]) by {
            let all = inner + meaning::one_row(Pronoun::Sub.name_text(), others[k]);
            meaning::lemma_projected_push(none, it, d, all, others[k]);
            assert(all.last() == meaning::one_row(Pronoun::Sub.name_text(), others[k])[0]);
            assert(meaning::value(plain(Col::ItemId), d, all) == others[k][id]);
        }
        let cond = Term::InSelect(Box::new(plain(Col::ItemId)), Box::new(sub));
        assert(t.wheres =~= seq![cond]);
        assert(t.wheres[0] == cond);
        assert(meaning::value(plain(Col::ItemId), d, inner) == meaning::cell(row, id));
        if meaning::is_true(meaning::value(cond, d, inner)) {
            let (other, c) = choose|other: Row, c: Seq<char>|
                #![trigger other.dom().contains(c)]
                meaning::gives(sub, d, inner, other) && other.dom().contains(c)
                    && meaning::is_true(
                    meaning::equal_vals(
                        meaning::value(plain(Col::ItemId), d, inner),
                        other[c],
                    ),
                );
            meaning::lemma_gives_one(sub, d, inner, other);
            let r = choose|r: Row|
                {
                    let more = meaning::one_row(Pronoun::Sub.name_text(), r);
                    &&& #[trigger] meaning::some_row(r)
                    &&& meaning::source_has(sub.from[0], d, inner, r)
                    &&& other == meaning::projected(sub.items, d, inner + more, r)
                };
            let k = choose|k: int| 0 <= k < others.len() && others[k] == r;
            assert(others[k] == r);
            assert(meaning::cell(others[k], id) == meaning::cell(row, id));
        }
        if row_at_hand(d, from_table, path, row) {
            let k = choose|k: int|
                0 <= k < others.len() && meaning::cell(#[trigger] others[k], id) == meaning::cell(
                    row,
                    id,
                );
            let r = others[k];
            let other = Map::<Seq<char>, Val>::empty().insert(id, r[id]);
            meaning::lemma_gives_one(sub, d, inner, other);
            assert(meaning::some_row(r));
            assert(meaning::source_has(sub.from[0], d, inner, r));
            assert(meaning::gives(sub, d, inner, other));
            assert(other.dom().contains(id));
            assert(meaning::is_true(meaning::value(cond, d, inner)));
        }
    } else {
        assert(t.wheres =~= q.wheres);
    }
}

/// An item is given for a label exactly where some row of it at hand holds the label in the
/// column and, where the column is shared with other types, is a row of the type asked for.
/// Nothing is given of it but which item it is.
pub proof fn law_items_have_type_and_label(
    storage: StorageModel,
    label: LabelValue,
    from_table: bool,
    path: Option<Seq<char>>,
    d: Data,
    out: Row,
)
    requires
        from_table || path is Some,
        ids_are_told(d),
    ensures
        meaning::gives(label_items(storage, label, from_table, path), d, seq![], out) <==> exists|
            row: Row,
        |
            {
                &&& #[trigger] meaning::some_row(row)
                &&& row_at_hand(d, from_table, path, row)
                &&& match storage {
                    StorageModel::Fixed(c) => row_has_label(row, c, label),
                    StorageModel::Basic(ty, c) => meaning::cell(row, Col::Type.name_text())
                        == Val::Text(ty) && row_has_label(row, c, label),
                    StorageModel::Composite => false,
                }
                &&& out == map![Col::ItemId.name_text() => meaning::cell(row, Col::ItemId.name_text())]
            },
{
    let q = label_items(storage, label, from_table, path);
    let start = SelectTerm { distinct: true, ..SelectTerm::nothing() }.with_plain(
        plain(Col::ItemId),
    );
    let src = with_source(start, from_table, path);
    let id = Col::ItemId.name_text();
    let name = meaning::name_of(q.from[0]);
    let none = Seq::<crate::db::statement::ItemTerm>::empty();
    let it = crate::db::statement::ItemTerm::One(plain(Col::ItemId), None);
    assert(start.items =~= none.push(it));
    assert forall|row: Row| #[trigger] meaning::some_row(row) implies {
        let inner = meaning::one_row(name, row);
        &&& meaning::projected(q.items, d, seq![] + inner, row) == map![id => meaning::cell(row, id)]
        &&& (row_at_hand(d, from_table, path, row) && match storage {
            StorageModel::Fixed(c) => row_has_label(row, c, label),
            StorageModel::Basic(ty, c) => meaning::cell(row, Col::Type.name_text()) == Val::Text(ty)
                && row_has_label(row, c, label),
            StorageModel::Composite => false,
        }) <==> (meaning::source_has(q.from[0], d, seq![], row) && forall|i: int|
            0 <= i < q.wheres.len() ==> meaning::is_true(
                meaning::value(#[trigger] q.wheres[i], d, seq![] + inner),
            ))
    } by {
        let inner = meaning::one_row(name, row);
        assert(Seq::<(Seq<char>, Row)>::empty() + inner =~= inner);
        lemma_source(start, from_table, path, d, row);
        meaning::lemma_own_cell(name, row, id);
        meaning::lemma_own_cell(name, row, Col::Type.name_text());
        meaning::lemma_projected_push(none, it, d, inner, row);
        assert(meaning::projected(q.items, d, inner, row) =~= map![id => meaning::cell(row, id)]);
        let n = src.wheres.len() as int;
        assert(forall|i: int| 0 <= i < n ==> #[trigger] src.wheres[i] == q.wheres[i]);
        match storage {
            StorageModel::Fixed(c) => {
                meaning::lemma_own_cell(name, row, c.name_text());
                assert(q.wheres[n] == holds_label(c, label));
                assert(meaning::is_true(meaning::value(holds_label(c, label), d, inner))
                    <==> row_has_label(row, c, label)) by {
                    reveal_with_fuel(meaning::value, 3);
                }
            },
            StorageModel::Basic(ty, c) => {
                meaning::lemma_own_cell(name, row, c.name_text());
                let same = Term::Eq(Box::new(plain(Col::Type)), Box::new(Term::Text(ty)));
                assert(q.wheres[n] == same);
                assert(q.wheres[n + 1] == holds_label(c, label));
                assert(meaning::is_true(meaning::value(holds_label(c, label), d, inner))
                    <==> row_has_label(row, c, label)) by {
                    reveal_with_fuel(meaning::value, 3);
                }
                assert(meaning::is_true(meaning::value(same, d, inner)) <==> meaning::cell(
                    row,
                    Col::Type.name_text(),
                ) == Val::Text(ty)) by {
                    reveal_with_fuel(meaning::value, 3);
                }
            },
            StorageModel::Composite => {
                let never = Term::Eq(Box::new(Term::Int(1)), Box::new(Term::Int(0)));
                assert(q.wheres[n] == never);
                assert(!meaning::is_true(meaning::value(never, d, inner))) by {
                    reveal_with_fuel(meaning::value, 3);
                }
            },
        }
    }
    meaning::lemma_gives_one(q, d, seq![], out);
}

/// The labels of a type are counted over the rows at hand that are of the type, where types
/// share a column, and over all rows at hand where the labels have a column of their own.
pub proof fn law_counted_rows_are_of_the_type(
    storage: StorageModel,
    from_table: bool,
    path: Option<Seq<char>>,
    n: usize,
    offset: usize,
    d: Data,
    row: Row,
)
    requires
        from_table || path is Some,
        ids_are_told(d),
    ensures
        meaning::keeps(
            label_counts(storage, from_table, path, n, offset),
            d,
            seq![],
            meaning::one_row(
                if from_table {
                    Tbl::OneView.name_text()
                } else {
                    Pronoun::Diff.name_text()
                },
                row,
            ),
        ) <==> row_at_hand(d, from_table, path, row) && match storage {
            StorageModel::Basic(ty, _) => meaning::cell(row, Col::Type.name_text()) == Val::Text(
                ty,
            ),
            _ => true,
        },
{
    let q = label_counts(storage, from_table, path, n, offset);
    let listed = counted_items(storage);
    let src = with_source(listed, from_table, path);
    let name = meaning::name_of(q.from[0]);
    let inner = meaning::one_row(name, row);
    assert(Seq::<(Seq<char>, Row)>::empty() + inner =~= inner);
    lemma_source(listed, from_table, path, d, row);
    meaning::lemma_own_cell(name, row, Col::Type.name_text());
    let k = src.wheres.len() as int;
    assert(forall|i: int| 0 <= i < k ==> #[trigger] src.wheres[i] == q.wheres[i]);
    if let StorageModel::Basic(ty, _) = storage {
        let same = Term::Eq(Box::new(plain(Col::Type)), Box::new(Term::Text(ty)));
        assert(q.wheres[k] == same);
        assert(meaning::is_true(meaning::value(same, d, inner)) <==> meaning::cell(
            row,
            Col::Type.name_text(),
        ) == Val::Text(ty)) by {
            reveal_with_fuel(meaning::value, 3);
        }
    }
    meaning::lemma_one_source(q, d, seq![], inner);
}

/// The columns that are listed with the counts.
spec fn counted_items(storage: StorageModel) -> SelectTerm {
    SelectTerm::nothing().with_item(
        read_from(storage, Col::LabelStr),
        Col::LabelStr.name_text(),
    ).with_item(read_from(storage, Col::LabelInt), Col::LabelInt.name_text()).with_item(
        read_from(storage, Col::LabelDouble),
        Col::LabelDouble.name_text(),
    ).with_item(read_from(storage, Col::LabelBool), Col::LabelBool.name_text()).with_item(
        Term::Raw("COUNT(*)"@),
        VCol::Total.name_text(),
    )
}

/// Rows are counted together exactly where they have the same label: the same value in the
/// column of their own, or the same values in all four label columns.
pub proof fn law_same_labels_are_counted_together(
    storage: StorageModel,
    from_table: bool,
    path: Option<Seq<char>>,
    n: usize,
    offset: usize,
    d: Data,
    name: Seq<char>,
    a: Row,
    b: Row,
)
    ensures
        ({
            let groups = label_counts(storage, from_table, path, n, offset).groups;
            (forall|i: int|
                0 <= i < groups.len() ==> meaning::value(
                    #[trigger] groups[i],
                    d,
                    meaning::one_row(name, a),
                ) == meaning::value(groups[i], d, meaning::one_row(name, b))) <==> match storage {
                StorageModel::Fixed(c) => meaning::cell(a, c.name_text()) == meaning::cell(
                    b,
                    c.name_text(),
                ),
                _ => {
                    &&& meaning::cell(a, Col::LabelStr.name_text()) == meaning::cell(
                        b,
                        Col::LabelStr.name_text(),
                    )
                    &&& meaning::cell(a, Col::LabelInt.name_text()) == meaning::cell(
                        b,
                        Col::LabelInt.name_text(),
                    )
                    &&& meaning::cell(a, Col::LabelDouble.name_text()) == meaning::cell(
                        b,
                        Col::LabelDouble.name_text(),
                    )
                    &&& meaning::cell(a, Col::LabelBool.name_text()) == meaning::cell(
                        b,
                        Col::LabelBool.name_text(),
                    )
                },
            }
        }),
{
    let groups = label_counts(storage, from_table, path, n, offset).groups;
    assert forall|c: Col| #[trigger]
        meaning::value(plain(c), d, meaning::one_row(name, a)) == meaning::cell(a, c.name_text())
            && meaning::value(plain(c), d, meaning::one_row(name, b)) == meaning::cell(
            b,
            c.name_text(),
        ) by {
        meaning::lemma_own_cell(name, a, c.name_text());
        meaning::lemma_own_cell(name, b, c.name_text());
    }
    match storage {
        StorageModel::Fixed(c) => {
            assert(groups =~= seq![plain(c)]);
            assert(groups[0] == plain(c));
        },
        _ => {
            assert(groups =~= seq![
                plain(Col::LabelStr),
                plain(Col::LabelInt),
                plain(Col::LabelDouble),
                plain(Col::LabelBool),
            ]);
            assert(groups[0] == plain(Col::LabelStr) && groups[1] == plain(Col::LabelInt)
                && groups[2] == plain(Col::LabelDouble) && groups[3] == plain(Col::LabelBool));
        },
    }
}

} // verus!
