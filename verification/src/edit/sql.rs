//! The queries that edits are written with: each gives the rows that a table has afterwards.
use crate::col::Col;
use crate::db::schema;
use crate::db::schema::parquet_query;
use crate::db::statement;
use crate::db::statement::{Cell, CellTerm, FromTerm, SelectTerm, Term, UpdateTerm};
use crate::db::store;
use crate::db::tags;
use crate::db::value;
use crate::db::{Pronoun, Store, TargetTable, Tbl};
use crate::edit::lens_schema;
use crate::edit::lens_schema::EavModel;
use crate::edit::write::{ItemRow, UserTagDelete, UserTagDeleteModel, UserTagRow};
use crate::item::TagModel;
use crate::path;
use crate::tag;
use crate::tag::TagRegistry;
use crate::text;
use crate::types::{Bitical, BiticalType, ItemId};
use vstd::prelude::*;

verus! {

pub open spec fn plain(c: Col) -> Term {
    Term::Col(None, c.name_text())
}

pub(crate) fn column(c: Col) -> (r: sea_query::SimpleExpr)
    ensures
        statement::expr_term(r) == plain(c),
{
    statement::column(c.name())
}

/// The rows of a file without those of some items.
pub open spec fn rows_without(file: Seq<char>, ids: Seq<i64>) -> SelectTerm {
    if ids.len() == 0 {
        schema::all_rows(file)
    } else {
        schema::all_rows(file).with_where(Term::NotIn(Box::new(plain(Col::ItemId)), statement::int_terms(ids)))
    }
}

/// The query for the rows of a file without those of some items.
pub fn query_without(file: &str, ids: &Vec<i64>) -> (r: sea_query::SelectStatement)
    ensures
        statement::select_term(r) == rows_without(file@, ids@),
        statement::select_fits(statement::select_term(r)),
{
    broadcast use statement::group_fits;

    let mut q = parquet_query(file);
    if ids.len() > 0 {
        let cond = statement::not_among_ints(column(Col::ItemId), copy_ids(ids));
        statement::and_where(&mut q, cond);
    }
    q
}

pub(crate) fn copy_ids(ids: &Vec<i64>) -> (r: Vec<i64>)
    ensures
        r@ == ids@,
{
    let mut out: Vec<i64> = Vec::new();
    let mut i: usize = 0;
    while i < ids.len()
        invariant
            i <= ids@.len(),
            out@ == ids@.take(i as int),
        decreases ids.len() - i,
    {
        out.push(ids[i]);
        proof {
            assert(out@ =~= ids@.take(i + 1));
        }
        i += 1;
    }
    proof {
        assert(ids@.take(ids@.len() as int) =~= ids@);
    }
    out
}

/// Adds rows that are written out, where there are any.
pub open spec fn with_rows(q: SelectTerm, rows: Seq<Seq<CellTerm>>) -> SelectTerm {
    if rows.len() == 0 {
        q
    } else {
        q.with_union(
            SelectTerm::nothing().with_all().with_from(
                FromTerm::Rows(rows, Pronoun::Sub.name_text()),
            ),
        )
    }
}

fn add_rows(q: &mut sea_query::SelectStatement, rows: Vec<Vec<Cell>>)
    ensures
        statement::select_term(*final(q)) == with_rows(
            statement::select_term(*old(q)),
            statement::row_terms(rows@),
        ),
{
    if rows.len() > 0 {
        let mut added = statement::select();
        statement::add_all(&mut added);
        statement::from_rows(&mut added, rows, Pronoun::Sub.name());
        statement::union_all(q, added);
    }
}

// ---------------------------------------------------------------------------
// Items
// ---------------------------------------------------------------------------

/// A new item as a row: without a rank and a name.
pub open spec fn item_row(r: (i64, Seq<char>, Seq<char>)) -> Seq<CellTerm> {
    seq![
        CellTerm::Int(r.0),
        CellTerm::NullInt,
        CellTerm::NullText,
        CellTerm::Text(r.1),
        CellTerm::Text(r.2),
    ]
}

/// The rows of the table of items afterwards: without the deleted ones, with the new ones,
/// ordered by their ids.
pub open spec fn items_after(
    file: Seq<char>,
    inserts: Seq<(i64, Seq<char>, Seq<char>)>,
    deleted: Seq<i64>,
) -> SelectTerm {
    with_rows(
        rows_without(file, deleted),
        inserts.map_values(|r: (i64, Seq<char>, Seq<char>)| item_row(r)),
    ).with_order(plain(Col::ItemId), true)
}

/// The query for the rows of the table of items afterwards.
pub fn item_references_write(path: &str, inserts: &Vec<ItemRow>, cascade_ids: &Vec<i64>) -> (r:
    sea_query::SelectStatement)
    ensures
        statement::select_term(r) == items_after(
            path@,
            crate::edit::write::item_row_models(inserts@),
            cascade_ids@,
        ),
        statement::select_fits(statement::select_term(r)),
{
    broadcast use statement::group_fits;

    let mut q = query_without(path, cascade_ids);
    let ghost ms = crate::edit::write::item_row_models(inserts@);
    let ghost terms = ms.map_values(|r: (i64, Seq<char>, Seq<char>)| item_row(r));
    let mut rows: Vec<Vec<Cell>> = Vec::new();
    let mut i: usize = 0;
    while i < inserts.len()
        invariant
            i <= inserts@.len(),
            rows@.len() == i,
            ms == crate::edit::write::item_row_models(inserts@),
            terms == ms.map_values(|r: (i64, Seq<char>, Seq<char>)| item_row(r)),
            forall|k: int|
                0 <= k < i ==> statement::cell_terms((#[trigger] rows@[k])@) == terms[k],
        decreases inserts.len() - i,
    {
        let ins = &inserts[i];
        let mut row: Vec<Cell> = Vec::new();
        row.push(Cell::Int(Some(ins.item_id)));
        row.push(Cell::Int(None));
        row.push(Cell::Text(None));
        row.push(Cell::Text(Some(ins.item_kind.clone())));
        row.push(Cell::Text(Some(ins.content.clone())));
        proof {
            assert(statement::cell_terms(row@) =~= item_row(ms[i as int]));
        }
        rows.push(row);
        i += 1;
    }
    proof {
        assert(statement::row_terms(rows@) =~= terms);
    }
    add_rows(&mut q, rows);
    statement::order_by(&mut q, column(Col::ItemId));
    q
}

// ---------------------------------------------------------------------------
// Tags
// ---------------------------------------------------------------------------

/// Whether a row is to go: it is of the item and the type, and has the value where one is
/// given.
pub open spec fn row_goes(d: UserTagDeleteModel) -> Term {
    let of_type = Term::And(
        Box::new(Term::Eq(Box::new(plain(Col::ItemId)), Box::new(Term::Int(d.item_id as int)))),
        Box::new(Term::Eq(Box::new(plain(Col::Type)), Box::new(Term::Text(d.tag_type)))),
    );
    match d.value {
        None => of_type,
        Some(v) => Term::And(
            Box::new(of_type),
            Box::new(
                Term::Eq(
                    Box::new(plain(v.kind().column())),
                    Box::new(value::value_expr(v)),
                ),
            ),
        ),
    }
}

/// The rows without those that are to go.
pub open spec fn without_tags(q: SelectTerm, deletes: Seq<UserTagDeleteModel>) -> SelectTerm
    decreases deletes.len(),
{
    if deletes.len() == 0 {
        q
    } else {
        without_tags(q, deletes.drop_last()).with_where(
            Term::Not(Box::new(row_goes(deletes.last()))),
        )
    }
}

/// A new tag as a row: its value in the label column of its type.
pub open spec fn tag_row(r: (i64, TagModel)) -> Seq<CellTerm> {
    let e = EavModel::of(Some(r.1.value));
    seq![
        CellTerm::Int(r.0),
        CellTerm::Text(r.1.tag_type.name()),
        match e.label_str {
            Some(s) => CellTerm::Text(s),
            None => CellTerm::NullText,
        },
        match e.label_int {
            Some(i) => CellTerm::Int(i),
            None => CellTerm::NullInt,
        },
        match e.label_double {
            Some(n) => CellTerm::Number(statement::double_read(n.1)),
            None => CellTerm::Number(None),
        },
        match e.label_bool {
            Some(b) => CellTerm::Bool(b),
            None => CellTerm::NullBool,
        },
    ]
}

/// The rows of the table of tags afterwards: without those of deleted items, without the
/// deleted ones, with the new ones, in the order of the table.
pub open spec fn tags_after(
    file: Seq<char>,
    inserts: Seq<(i64, TagModel)>,
    deletes: Seq<UserTagDeleteModel>,
    deleted: Seq<i64>,
) -> SelectTerm {
    with_rows(
        without_tags(rows_without(file, deleted), deletes),
        inserts.map_values(|r: (i64, TagModel)| tag_row(r)),
    ).with_order(plain(Col::Type), true).with_order(plain(Col::LabelInt), true).with_order(
        plain(Col::LabelStr),
        true,
    ).with_order(plain(Col::ItemId), true)
}

proof fn lemma_without_tags_shape(q: SelectTerm, deletes: Seq<UserTagDeleteModel>)
    ensures
        without_tags(q, deletes).unions == q.unions,
        without_tags(q, deletes).wheres.len() == q.wheres.len() + deletes.len(),
    decreases deletes.len(),
{
    if deletes.len() > 0 {
        lemma_without_tags_shape(q, deletes.drop_last());
    }
}

/// However many rows are added, they are added by one union, and the query for no new rows
/// has none.
pub proof fn law_new_rows_make_one_union(
    file: Seq<char>,
    items: Seq<(i64, Seq<char>, Seq<char>)>,
    tags: Seq<(i64, TagModel)>,
    deletes: Seq<UserTagDeleteModel>,
    deleted: Seq<i64>,
)
    ensures
        items_after(file, items, deleted).unions.len() == if items.len() > 0 {
            1nat
        } else {
            0nat
        },
        tags_after(file, tags, deletes, deleted).unions.len() == if tags.len() > 0 {
            1nat
        } else {
            0nat
        },
{
    lemma_without_tags_shape(rows_without(file, deleted), deletes);
}

fn delete_match(d: &UserTagDelete) -> (r: sea_query::SimpleExpr)
    ensures
        statement::expr_term(r) == row_goes(d@),
        statement::term_fits(statement::expr_term(r)),
{
    broadcast use statement::group_fits;

    let row_match = statement::both(
        statement::equal(column(Col::ItemId), statement::int_value(d.item_id)),
        statement::equal(column(Col::Type), statement::text_value(d.tag_type.as_str())),
    );
    match &d.value {
        None => row_match,
        Some(v) => {
            let (c, e) = v.to_col_expr();
            statement::both(row_match, statement::equal(column(c), e))
        },
    }
}

fn tag_row_of(ins: &UserTagRow) -> (r: Vec<Cell>)
    ensures
        statement::cell_terms(r@) == tag_row((ins.item_id, ins.tag@)),
{
    let ty = ins.tag.tag_type();
    let (ls, li, ld, lb) = Bitical::to_eav_columns(Some(ins.tag.value()));
    let ghost e = lens_schema::eav_model((ls, li, ld, lb));
    let mut row: Vec<Cell> = Vec::new();
    row.push(Cell::Int(Some(ins.item_id)));
    row.push(Cell::Text(Some(ty.as_str().to_string())));
    row.push(Cell::Text(ls));
    row.push(Cell::Int(li));
    row.push(Cell::Number(ld));
    row.push(Cell::Bool(lb));
    proof {
        assert(statement::cell_terms(row@) =~= tag_row((ins.item_id, ins.tag@)));
    }
    row
}

/// The query for the rows of the table of user tags afterwards.
pub fn user_tags_write(
    path: &str,
    inserts: &Vec<UserTagRow>,
    deletes: &Vec<UserTagDelete>,
    cascade_ids: &Vec<i64>,
) -> (r: sea_query::SelectStatement)
    ensures
        statement::select_term(r) == tags_after(
            path@,
            crate::edit::write::tag_row_models(inserts@),
            crate::edit::write::tag_delete_models(deletes@),
            cascade_ids@,
        ),
        statement::select_fits(statement::select_term(r)),
{
    broadcast use statement::group_fits;

    let mut q = query_without(path, cascade_ids);
    let ghost start = statement::select_term(q);
    let ghost ds = crate::edit::write::tag_delete_models(deletes@);
    let mut i: usize = 0;
    while i < deletes.len()
        invariant
            i <= deletes@.len(),
            ds == crate::edit::write::tag_delete_models(deletes@),
            statement::select_term(q) == without_tags(start, ds.take(i as int)),
            statement::select_fits(statement::select_term(q)),
        decreases deletes.len() - i,
    {
        broadcast use statement::group_fits;

        let goes = delete_match(&deletes[i]);
        statement::and_where(&mut q, statement::negate(goes));
        proof {
            assert(ds.take(i + 1).drop_last() =~= ds.take(i as int));
            assert(ds.take(i + 1).last() == deletes@[i as int]@);
        }
        i += 1;
    }
    proof {
        assert(ds.take(ds.len() as int) =~= ds);
    }
    let ghost ms = crate::edit::write::tag_row_models(inserts@);
    let ghost terms = ms.map_values(|r: (i64, TagModel)| tag_row(r));
    let mut rows: Vec<Vec<Cell>> = Vec::new();
    let mut j: usize = 0;
    while j < inserts.len()
        invariant
            j <= inserts@.len(),
            rows@.len() == j,
            ms == crate::edit::write::tag_row_models(inserts@),
            terms == ms.map_values(|r: (i64, TagModel)| tag_row(r)),
            forall|k: int|
                0 <= k < j ==> statement::cell_terms((#[trigger] rows@[k])@) == terms[k],
        decreases inserts.len() - j,
    {
        rows.push(tag_row_of(&inserts[j]));
        j += 1;
    }
    proof {
        assert(statement::row_terms(rows@) =~= terms);
    }
    add_rows(&mut q, rows);
    statement::order_by(&mut q, column(Col::Type));
    statement::order_by(&mut q, column(Col::LabelInt));
    statement::order_by(&mut q, column(Col::LabelStr));
    statement::order_by(&mut q, column(Col::ItemId));
    q
}

// ---------------------------------------------------------------------------
// Ranks
// ---------------------------------------------------------------------------

/// The case of an item: its new rank.
pub open spec fn rank_case(u: (i64, i64)) -> (Term, Term) {
    (
        Term::Eq(Box::new(plain(Col::ItemId)), Box::new(Term::Int(u.0 as int))),
        Term::Int(u.1 as int),
    )
}

/// The update that gives some items new ranks and leaves the others as they are.
pub open spec fn ranks_update(table: Tbl, updates: Seq<(i64, i64)>) -> UpdateTerm {
    UpdateTerm {
        table: table.name_text(),
        values: seq![
            (
                Col::Rank.name_text(),
                Term::Case(
                    updates.map_values(|u: (i64, i64)| rank_case(u)),
                    Box::new(plain(Col::Rank)),
                ),
            ),
        ],
        wheres: seq![
            Term::In(
                Box::new(plain(Col::ItemId)),
                statement::int_terms(updates.map_values(|u: (i64, i64)| u.0)),
            ),
        ],
    }
}

/// The update that gives some items new ranks.
pub fn rank_case_update(tmp: Tbl, updates: &Vec<(i64, i64)>) -> (r: sea_query::UpdateStatement)
    ensures
        statement::update_term(r) == ranks_update(tmp, updates@),
        statement::update_fits(statement::update_term(r)),
{
    broadcast use statement::group_fits;

    let ghost all = updates@.map_values(|u: (i64, i64)| rank_case(u));
    let ghost all_ids = updates@.map_values(|u: (i64, i64)| u.0);
    let mut cs = statement::cases();
    let mut ids: Vec<i64> = Vec::new();
    let mut i: usize = 0;
    proof {
        assert(statement::case_term(cs) =~= all.take(0));
        assert(ids@ =~= all_ids.take(0));
    }
    while i < updates.len()
        invariant
            i <= updates@.len(),
            all == updates@.map_values(|u: (i64, i64)| rank_case(u)),
            all_ids == updates@.map_values(|u: (i64, i64)| u.0),
            statement::case_term(cs) == all.take(i as int),
            statement::cases_fit(statement::case_term(cs)),
            ids@ == all_ids.take(i as int),
        decreases updates.len() - i,
    {
        broadcast use statement::group_fits;

        let (id, rank) = updates[i];
        let of_item = statement::equal(column(Col::ItemId), statement::int_value(id));
        cs = statement::when(cs, of_item, statement::int_value(rank));
        ids.push(id);
        proof {
            assert(statement::case_term(cs) =~= all.take(i + 1));
            assert(ids@ =~= all_ids.take(i + 1));
        }
        i += 1;
    }
    proof {
        assert(all.take(all.len() as int) =~= all);
        assert(all_ids.take(all_ids.len() as int) =~= all_ids);
    }
    let rank_expr = statement::otherwise(cs, column(Col::Rank));
    let mut u = statement::update(tmp.name());
    statement::set_column(&mut u, Col::Rank.name(), rank_expr);
    statement::update_where(&mut u, statement::among_ints(column(Col::ItemId), ids));
    proof {
        let t = statement::update_term(u);
        let want = ranks_update(tmp, updates@);
        assert(t.values =~= want.values);
        assert(t.wheres =~= want.wheres);
    }
    u
}

// ---------------------------------------------------------------------------
// Columns
// ---------------------------------------------------------------------------

/// The case of an item: its new value.
pub open spec fn value_case(u: (i64, Bitical)) -> (Term, Term) {
    (
        Term::Eq(Box::new(plain(Col::ItemId)), Box::new(Term::Int(u.0 as int))),
        value::value_expr(u.1@),
    )
}

/// The update that gives some items new values in a column and leaves the others as they are.
pub open spec fn column_update(table: Tbl, col: Col, updates: Seq<(i64, Bitical)>) -> UpdateTerm {
    UpdateTerm {
        table: table.name_text(),
        values: seq![
            (
                col.name_text(),
                Term::Case(
                    updates.map_values(|u: (i64, Bitical)| value_case(u)),
                    Box::new(plain(col)),
                ),
            ),
        ],
        wheres: seq![
            Term::In(
                Box::new(plain(Col::ItemId)),
                statement::int_terms(updates.map_values(|u: (i64, Bitical)| u.0)),
            ),
        ],
    }
}

/// The update that gives some items new values in a column.
pub fn column_case_update(tmp: Tbl, col: Col, updates: &Vec<(i64, Bitical)>) -> (r:
    sea_query::UpdateStatement)
    ensures
        statement::update_term(r) == column_update(tmp, col, updates@),
        statement::update_fits(statement::update_term(r)),
{
    broadcast use statement::group_fits;

    let ghost all = updates@.map_values(|u: (i64, Bitical)| value_case(u));
    let ghost all_ids = updates@.map_values(|u: (i64, Bitical)| u.0);
    let mut cs = statement::cases();
    let mut ids: Vec<i64> = Vec::new();
    let mut i: usize = 0;
    proof {
        assert(statement::case_term(cs) =~= all.take(0));
        assert(ids@ =~= all_ids.take(0));
    }
    while i < updates.len()
        invariant
            i <= updates@.len(),
            all == updates@.map_values(|u: (i64, Bitical)| value_case(u)),
            all_ids == updates@.map_values(|u: (i64, Bitical)| u.0),
            statement::case_term(cs) == all.take(i as int),
            statement::cases_fit(statement::case_term(cs)),
            ids@ == all_ids.take(i as int),
        decreases updates.len() - i,
    {
        broadcast use statement::group_fits;

        let id = updates[i].0;
        let of_item = statement::equal(column(Col::ItemId), statement::int_value(id));
        cs = statement::when(cs, of_item, updates[i].1.to_simple_expr());
        ids.push(id);
        proof {
            assert(statement::case_term(cs) =~= all.take(i + 1));
            assert(ids@ =~= all_ids.take(i + 1));
        }
        i += 1;
    }
    proof {
        assert(all.take(all.len() as int) =~= all);
        assert(all_ids.take(all_ids.len() as int) =~= all_ids);
    }
    let value_of = statement::otherwise(cs, column(col));
    let mut u = statement::update(tmp.name());
    statement::set_column(&mut u, col.name(), value_of);
    statement::update_where(&mut u, statement::among_ints(column(Col::ItemId), ids));
    proof {
        let t = statement::update_term(u);
        let want = column_update(tmp, col, updates@);
        assert(t.values =~= want.values);
        assert(t.wheres =~= want.wheres);
    }
    u
}

/// All rows of a table, ordered by the ids of their items.
pub open spec fn ordered_rows(table: Tbl) -> SelectTerm {
    SelectTerm::nothing().with_all().with_from(FromTerm::Table(table.name_text())).with_order(
        plain(Col::ItemId),
        true,
    )
}

/// The query for all rows of a table, ordered by the ids of their items.
pub fn ordered_query(table: Tbl) -> (r: sea_query::SelectStatement)
    ensures
        statement::select_term(r) == ordered_rows(table),
        statement::select_fits(statement::select_term(r)),
{
    broadcast use statement::group_fits;

    let mut q = statement::select();
    statement::add_all(&mut q);
    statement::from_table(&mut q, table.name());
    statement::order_by(&mut q, column(Col::ItemId));
    q
}

/// Those of some items that are among the stored ones.
pub open spec fn stored_among(file: Seq<char>, ids: Seq<i64>) -> SelectTerm {
    SelectTerm::nothing().with_plain(plain(Col::ItemId)).with_from(
        FromTerm::Select(Box::new(schema::all_rows(file)), Tbl::ItemReferences.name_text()),
    ).with_where(Term::In(Box::new(plain(Col::ItemId)), statement::int_terms(ids)))
}

/// The query for those of some items that are among the stored ones.
pub fn existing_ids_query(items_path: &str, ids: &Vec<i64>) -> (r: sea_query::SelectStatement)
    ensures
        statement::select_term(r) == stored_among(items_path@, ids@),
        statement::select_fits(statement::select_term(r)),
{
    broadcast use statement::group_fits;

    let mut q = statement::select();
    statement::add_plain(&mut q, column(Col::ItemId));
    statement::from_select(&mut q, parquet_query(items_path), Tbl::ItemReferences.name());
    statement::and_where(&mut q, statement::among_ints(column(Col::ItemId), copy_ids(ids)));
    q
}

/// What a label column holds after the labels of a table were converted to a kind of value:
/// the converted label in the column of that kind, nothing in the others.
pub open spec fn converted(table: Tbl, to: BiticalType, col: Col) -> (Seq<char>, Term) {
    (
        col.name_text(),
        if col == to.column() {
            Term::Cast(Box::new(tags::label_text(table)), to.arm().sql_text())
        } else {
            Term::Null
        },
    )
}

/// The update that converts the labels of a type to a kind of value.
pub open spec fn label_conversion(table: Tbl, ty: Seq<char>, to: BiticalType) -> UpdateTerm {
    UpdateTerm {
        table: table.name_text(),
        values: seq![
            converted(table, to, Col::LabelStr),
            converted(table, to, Col::LabelInt),
            converted(table, to, Col::LabelDouble),
            converted(table, to, Col::LabelBool),
        ],
        wheres: seq![Term::Eq(Box::new(plain(Col::Type)), Box::new(Term::Text(ty)))],
    }
}

fn convert_column(u: &mut sea_query::UpdateStatement, table: Tbl, to: BiticalType, col: Col)
    ensures
        statement::update_term(*final(u)) == (UpdateTerm {
            values: statement::update_term(*old(u)).values.push(converted(table, to, col)),
            ..statement::update_term(*old(u))
        }),
        statement::update_fits(statement::update_term(*old(u))) ==> statement::update_fits(
            statement::update_term(*final(u)),
        ),
{
    broadcast use statement::group_fits;

    let e = if col == to.to_column() {
        statement::cast(tags::build_label_str_expr(table), to.union_arm().sql_name())
    } else {
        statement::null_value()
    };
    statement::set_column(u, col.name(), e);
}

/// The update that converts the labels of a type to a kind of value.
pub fn cast_update(tmp: Tbl, ty: &str, to: BiticalType) -> (r: sea_query::UpdateStatement)
    ensures
        statement::update_term(r) == label_conversion(tmp, ty@, to),
        statement::update_fits(statement::update_term(r)),
{
    broadcast use statement::group_fits;

    let mut u = statement::update(tmp.name());
    convert_column(&mut u, tmp, to, Col::LabelStr);
    convert_column(&mut u, tmp, to, Col::LabelInt);
    convert_column(&mut u, tmp, to, Col::LabelDouble);
    convert_column(&mut u, tmp, to, Col::LabelBool);
    statement::update_where(&mut u, statement::equal(column(Col::Type), statement::text_value(ty)));
    proof {
        let want = label_conversion(tmp, ty@, to);
        assert(statement::update_term(u).values =~= want.values);
        assert(statement::update_term(u).wheres =~= want.wheres);
    }
    u
}

/// The labels of a type in the table of user tags, as texts.
pub open spec fn labels_of(file: Seq<char>, ty: Seq<char>) -> SelectTerm {
    SelectTerm::nothing().with_plain(tags::label_text(Tbl::UserTags)).with_from(
        FromTerm::Select(Box::new(schema::all_rows(file)), Tbl::UserTags.name_text()),
    ).with_where(Term::Eq(Box::new(plain(Col::Type)), Box::new(Term::Text(ty))))
}

/// The query for the labels of a type in the table of user tags.
pub fn labels_query(user_tags_path: &str, ty: &str) -> (r: sea_query::SelectStatement)
    ensures
        statement::select_term(r) == labels_of(user_tags_path@, ty@),
        statement::select_fits(statement::select_term(r)),
{
    broadcast use statement::group_fits;

    let mut q = statement::select();
    statement::add_plain(&mut q, tags::build_label_str_expr(Tbl::UserTags));
    statement::from_select(&mut q, parquet_query(user_tags_path), Tbl::UserTags.name());
    statement::and_where(&mut q, statement::equal(column(Col::Type), statement::text_value(ty)));
    q
}

// ---------------------------------------------------------------------------
// The types of the tags of some items
// ---------------------------------------------------------------------------

/// Which of the tables of tags have been written.
#[derive(Clone, Copy, Debug)]
pub struct TagTables {
    pub by_location: bool,
    pub user: bool,
    pub base: bool,
}

/// The types of the tags that some items have in a table.
pub open spec fn types_in(table: Tbl, file: Seq<char>, ids: Seq<i64>) -> SelectTerm {
    SelectTerm::nothing().with_plain(plain(Col::Type)).with_from(
        FromTerm::Select(Box::new(schema::all_rows(file)), table.name_text()),
    ).with_where(Term::In(Box::new(plain(Col::ItemId)), statement::int_terms(ids)))
}

/// The same, without the types that are no tags.
pub open spec fn base_types(file: Seq<char>, ids: Seq<i64>, excluded: Seq<Seq<char>>) -> SelectTerm {
    let q = types_in(Tbl::BaseTags, file, ids);
    if excluded.len() == 0 {
        q
    } else {
        q.with_where(Term::NotIn(Box::new(plain(Col::Type)), statement::text_terms(excluded)))
    }
}

/// A query for each table that is there.
pub open spec fn type_queries(
    dir: Seq<char>,
    ids: Seq<i64>,
    excluded: Seq<Seq<char>>,
    there: TagTables,
) -> Seq<SelectTerm> {
    let file = |t: TargetTable| path::joined_to(dir, store::table_file(t));
    let a = if there.by_location {
        seq![types_in(Tbl::TagsByLocation, file(TargetTable::TagsByLocation), ids)]
    } else {
        seq![]
    };
    let b = if there.user {
        a.push(types_in(Tbl::UserTags, file(TargetTable::UserTags), ids))
    } else {
        a
    };
    if there.base {
        b.push(base_types(file(TargetTable::BaseTags), ids, excluded))
    } else {
        b
    }
}

/// The first query with the rows of the others.
pub open spec fn united(qs: Seq<SelectTerm>) -> SelectTerm
    recommends
        qs.len() > 0,
    decreases qs.len(),
{
    if qs.len() <= 1 {
        qs[0]
    } else {
        united(qs.drop_last()).with_union(qs.last())
    }
}

/// Each type once, of the tags that some items have; nothing to ask for without items or
/// tables.
pub open spec fn types_of(
    dir: Seq<char>,
    ids: Seq<i64>,
    excluded: Seq<Seq<char>>,
    there: TagTables,
) -> Option<SelectTerm> {
    let qs = type_queries(dir, ids, excluded, there);
    if ids.len() == 0 || qs.len() == 0 {
        None
    } else {
        Some(
            SelectTerm { distinct: true, ..SelectTerm::nothing() }.with_plain(
                plain(Col::Type),
            ).with_from(
                FromTerm::Select(Box::new(united(qs)), Tbl::ItemTags.name_text()),
            ),
        )
    }
}

pub open spec fn raw_ids(ids: Seq<ItemId>) -> Seq<i64> {
    ids.map_values(|i: ItemId| i.raw() as i64)
}

fn types_query(table: Tbl, file: &str, ids: &Vec<i64>) -> (r: sea_query::SelectStatement)
    ensures
        statement::select_term(r) == types_in(table, file@, ids@),
        statement::select_fits(statement::select_term(r)),
{
    broadcast use statement::group_fits;

    let mut q = statement::select();
    statement::add_plain(&mut q, column(Col::Type));
    statement::from_select(&mut q, parquet_query(file), table.name());
    statement::and_where(&mut q, statement::among_ints(column(Col::ItemId), copy_ids(ids)));
    q
}

fn base_query(file: &str, ids: &Vec<i64>, registry: &TagRegistry) -> (r: sea_query::SelectStatement)
    ensures
        statement::select_term(r) == base_types(file@, ids@, tag::excluded_names(registry@)),
        statement::select_fits(statement::select_term(r)),
{
    broadcast use statement::group_fits;

    let mut q = types_query(Tbl::BaseTags, file, ids);
    let excluded = registry.get_excluded_from_tags();
    proof {
        assert(excluded@.len() == text::texts(excluded@).len());
    }
    if excluded.len() > 0 {
        statement::and_where(&mut q, statement::not_among_texts(column(Col::Type), excluded));
    }
    q
}

/// Takes in one more query: as the first one, or with its rows added to those before.
fn unite(q: Option<sea_query::SelectStatement>, more: sea_query::SelectStatement, Ghost(qs): Ghost<
    Seq<SelectTerm>,
>) -> (r: Option<sea_query::SelectStatement>)
    requires
        q is None <==> qs.len() == 0,
        q matches Some(a) ==> statement::select_term(a) == united(qs),
    ensures
        r matches Some(a) && statement::select_term(a) == united(
            qs.push(statement::select_term(more)),
        ),
        (q matches Some(a) ==> statement::select_fits(statement::select_term(a)))
            && statement::select_fits(statement::select_term(more)) ==> (r matches Some(a)
            && statement::select_fits(statement::select_term(a))),
{
    broadcast use statement::group_fits;

    let ghost term = statement::select_term(more);
    proof {
        assert(qs.push(term).drop_last() =~= qs);
    }
    match q {
        None => Some(more),
        Some(mut a) => {
            statement::union_all(&mut a, more);
            Some(a)
        },
    }
}

pub open spec fn select_model(q: Option<sea_query::SelectStatement>) -> Option<SelectTerm> {
    match q {
        Some(a) => Some(statement::select_term(a)),
        None => None,
    }
}

/// The query for the types of the tags that some items have; none where there is nothing to
/// ask for.
pub fn collect_types_for_items(
    store: &Store,
    registry: &TagRegistry,
    item_ids: &Vec<ItemId>,
    there: TagTables,
) -> (r: Option<sea_query::SelectStatement>)
    ensures
        select_model(r) == types_of(
            store.db_dir@,
            raw_ids(item_ids@),
            tag::excluded_names(registry@),
            there,
        ),
        r matches Some(q) ==> statement::select_fits(statement::select_term(q)),
{
    broadcast use statement::group_fits;

    if item_ids.len() == 0 {
        return None;
    }
    let mut ids: Vec<i64> = Vec::new();
    let mut i: usize = 0;
    while i < item_ids.len()
        invariant
            i <= item_ids@.len(),
            ids@ == raw_ids(item_ids@).take(i as int),
        decreases item_ids.len() - i,
    {
        ids.push(item_ids[i].as_i64());
        proof {
            assert(ids@ =~= raw_ids(item_ids@).take(i + 1));
        }
        i += 1;
    }
    proof {
        assert(raw_ids(item_ids@).take(item_ids@.len() as int) =~= raw_ids(item_ids@));
    }
    let ghost file = |t: TargetTable| path::joined_to(store.db_dir@, store::table_file(t));
    let ghost mut qs: Seq<SelectTerm> = seq![];
    let mut combined: Option<sea_query::SelectStatement> = None;
    if there.by_location {
        let f = store.path_for_target(TargetTable::TagsByLocation);
        let q = types_query(Tbl::TagsByLocation, f.as_str(), &ids);
        let ghost t = statement::select_term(q);
        combined = unite(combined, q, Ghost(qs));
        proof {
            qs = qs.push(t);
        }
    }
    if there.user {
        let f = store.path_for_target(TargetTable::UserTags);
        let q = types_query(Tbl::UserTags, f.as_str(), &ids);
        let ghost t = statement::select_term(q);
        combined = unite(combined, q, Ghost(qs));
        proof {
            qs = qs.push(t);
        }
    }
    if there.base {
        let f = store.path_for_target(TargetTable::BaseTags);
        let q = base_query(f.as_str(), &ids, registry);
        let ghost t = statement::select_term(q);
        combined = unite(combined, q, Ghost(qs));
        proof {
            qs = qs.push(t);
        }
    }
    proof {
        assert(qs =~= type_queries(
            store.db_dir@,
            ids@,
            tag::excluded_names(registry@),
            there,
        ));
    }
    match combined {
        None => None,
        Some(c) => {
            let mut q = statement::select();
            statement::set_distinct(&mut q);
            statement::add_plain(&mut q, column(Col::Type));
            statement::from_select(&mut q, c, Tbl::ItemTags.name());
            Some(q)
        },
    }
}

} // verus!
