//! What the queries of an edit promise, told by the rows of the tables before and after.
use crate::col::Col;
use crate::db::meaning;
use crate::db::meaning::{Data, Row, Val};
use crate::db::schema;
use crate::db::statement;
use crate::db::statement::{CellTerm, FromTerm, ItemTerm, SelectTerm, Term, UpdateTerm};
use crate::db::store;
use crate::db::tags;
use crate::db::{TargetTable, Tbl};
use crate::edit::sql;
use crate::edit::sql::TagTables;
use crate::edit::write::UserTagDeleteModel;
use crate::item::TagModel;
use crate::path;
use crate::types;
use crate::types::{Bitical, BiticalModel, BiticalType};
use vstd::prelude::*;

verus! {

/// A value as a table holds it.
pub open spec fn stored_val(v: BiticalModel) -> Val {
    match v {
        BiticalModel::String(s) => Val::Text(s),
        BiticalModel::Integer(i) => Val::Int(i as int),
        BiticalModel::Double(_, shown) => match statement::double_read(shown) {
            Some(bits) => Val::Number(bits),
            None => Val::Null,
        },
        BiticalModel::Boolean(b) => Val::Bool(b),
        BiticalModel::Uuid(u) => Val::Text(types::uuid_shown(u)),
    }
}

/// The column in which a value is held as a label.
pub open spec fn label_column(v: BiticalModel) -> Col {
    match v {
        BiticalModel::String(_) => Col::LabelStr,
        BiticalModel::Integer(_) => Col::LabelInt,
        BiticalModel::Double(_, _) => Col::LabelDouble,
        BiticalModel::Boolean(_) => Col::LabelBool,
        BiticalModel::Uuid(_) => Col::LabelStr,
    }
}

/// Whether a delete names the row of a tag: its item, its type and, where a value is given, its
/// label. A label that is not known in the column of the value is not told apart from it.
pub open spec fn names_row(del: UserTagDeleteModel, id: int, ty: Seq<char>, row: Row) -> bool {
    &&& del.item_id == id
    &&& del.tag_type == ty
    &&& match del.value {
        None => true,
        Some(v) => {
            let label = meaning::cell(row, label_column(v).name_text());
            label is Null || stored_val(v) is Null || label == stored_val(v)
        },
    }
}

/// The rows that are left of a table without some items.
proof fn lemma_rows_without(file: Seq<char>, deleted: Seq<i64>, d: Data, row: Row, id: int)
    requires
        meaning::cell(row, Col::ItemId.name_text()) == Val::Int(id),
    ensures
        ({
            let q = sql::rows_without(file, deleted);
            let inner = meaning::one_row("src"@, row);
            &&& q.from.len() == 1 && q.joins.len() == 0
            &&& meaning::name_of(q.from[0]) == "src"@
            &&& q.items == seq![ItemTerm::All]
            &&& q.unions.len() == 0
            &&& meaning::source_has(q.from[0], d, seq![], row) <==> (d.files)(file).contains(row)
            &&& (forall|i: int|
                0 <= i < q.wheres.len() ==> meaning::is_true(
                    meaning::value(#[trigger] q.wheres[i], d, inner),
                )) <==> !(exists|i: int| 0 <= i < deleted.len() && #[trigger] deleted[i] == id)
        }),
{
    let q = sql::rows_without(file, deleted);
    let inner = meaning::one_row("src"@, row);
    meaning::lemma_own_cell("src"@, row, Col::ItemId.name_text());
    assert(q.items =~= seq![ItemTerm::All]);
    if deleted.len() > 0 {
        meaning::lemma_among_ints(id, deleted, d, inner);
        let cond = Term::NotIn(Box::new(sql::plain(Col::ItemId)), statement::int_terms(deleted));
        assert(q.wheres.len() == 1);
        assert(q.wheres[0] == cond);
        assert(meaning::value(sql::plain(Col::ItemId), d, inner) == Val::Int(id));
        assert(meaning::value(cond, d, inner) == meaning::not_val(
            meaning::among(Val::Int(id), statement::int_terms(deleted), d, inner),
        ));
    }
}

/// A stored item stays after the write exactly where it was not deleted.
pub proof fn law_items_stay_unless_deleted(
    file: Seq<char>,
    inserts: Seq<(i64, Seq<char>, Seq<char>)>,
    deleted: Seq<i64>,
    d: Data,
    row: Row,
    id: int,
)
    requires
        meaning::cell(row, Col::ItemId.name_text()) == Val::Int(id),
    ensures
        meaning::keeps(
            sql::items_after(file, inserts, deleted),
            d,
            seq![],
            meaning::one_row("src"@, row),
        ) <==> (d.files)(file).contains(row) && !(exists|i: int|
            0 <= i < deleted.len() && #[trigger] deleted[i] == id),
        sql::items_after(file, inserts, deleted).items == seq![ItemTerm::All],
{
    let q = sql::items_after(file, inserts, deleted);
    let inner = meaning::one_row("src"@, row);
    assert(Seq::<(Seq<char>, Row)>::empty() + inner =~= inner);
    lemma_rows_without(file, deleted, d, row, id);
    assert(q.wheres == sql::rows_without(file, deleted).wheres);
    meaning::lemma_one_source(q, d, seq![], inner);
}

/// The condition under which a delete takes a row, for a row of a known item and type.
proof fn lemma_row_goes(del: UserTagDeleteModel, d: Data, row: Row, id: int, ty: Seq<char>)
    requires
        meaning::cell(row, Col::ItemId.name_text()) == Val::Int(id),
        meaning::cell(row, Col::Type.name_text()) == Val::Text(ty),
    ensures
        meaning::is_true(
            meaning::value(
                Term::Not(Box::new(sql::row_goes(del))),
                d,
                meaning::one_row("src"@, row),
            ),
        ) <==> !names_row(del, id, ty, row),
{
    let inner = meaning::one_row("src"@, row);
    meaning::lemma_own_cell("src"@, row, Col::ItemId.name_text());
    meaning::lemma_own_cell("src"@, row, Col::Type.name_text());
    reveal_with_fuel(meaning::value, 5);
    if let Some(v) = del.value {
        meaning::lemma_own_cell("src"@, row, label_column(v).name_text());
        assert(v.kind().column() == label_column(v));
        assert(meaning::value(crate::db::value::value_expr(v), d, inner) == stored_val(v));
    }
}

proof fn lemma_without_tags(
    q: SelectTerm,
    deletes: Seq<UserTagDeleteModel>,
    d: Data,
    row: Row,
    id: int,
    ty: Seq<char>,
)
    requires
        meaning::cell(row, Col::ItemId.name_text()) == Val::Int(id),
        meaning::cell(row, Col::Type.name_text()) == Val::Text(ty),
    ensures
        ({
            let w = sql::without_tags(q, deletes);
            let inner = meaning::one_row("src"@, row);
            &&& w.from == q.from && w.joins == q.joins && w.items == q.items && w.unions == q.unions
            &&& (forall|i: int|
                0 <= i < w.wheres.len() ==> meaning::is_true(
                    meaning::value(#[trigger] w.wheres[i], d, inner),
                )) <==> {
                &&& forall|i: int|
                    0 <= i < q.wheres.len() ==> meaning::is_true(
                        meaning::value(#[trigger] q.wheres[i], d, inner),
                    )
                &&& forall|i: int|
                    0 <= i < deletes.len() ==> !names_row(#[trigger] deletes[i], id, ty, row)
            }
        }),
    decreases deletes.len(),
{
    let w = sql::without_tags(q, deletes);
    let inner = meaning::one_row("src"@, row);
    if deletes.len() > 0 {
        let rest = deletes.drop_last();
        lemma_without_tags(q, rest, d, row, id, ty);
        lemma_row_goes(deletes.last(), d, row, id, ty);
        let before = sql::without_tags(q, rest);
        let n = before.wheres.len() as int;
        let last = Term::Not(Box::new(sql::row_goes(deletes.last())));
        assert(w.wheres == before.wheres.push(last));
        assert(w.wheres[n] == last);
        assert(deletes[deletes.len() - 1] == deletes.last());
        assert(forall|i: int| 0 <= i < n ==> #[trigger] before.wheres[i] == w.wheres[i]);
        assert(forall|i: int| 0 <= i < rest.len() ==> #[trigger] rest[i] == deletes[i]);
        if forall|i: int|
            0 <= i < w.wheres.len() ==> meaning::is_true(
                meaning::value(#[trigger] w.wheres[i], d, inner),
            ) {
            assert forall|i: int| 0 <= i < n implies meaning::is_true(
                meaning::value(#[trigger] before.wheres[i], d, inner),
            ) by {
                assert(meaning::is_true(meaning::value(w.wheres[i], d, inner)));
            }
            assert(meaning::is_true(meaning::value(w.wheres[n], d, inner)));
            assert forall|i: int| 0 <= i < deletes.len() implies !names_row(
                #[trigger] deletes[i],
                id,
                ty,
                row,
            ) by {
                if i < rest.len() {
                    assert(!names_row(rest[i], id, ty, row));
                }
            }
        }
        if (forall|i: int|
            0 <= i < q.wheres.len() ==> meaning::is_true(
                meaning::value(#[trigger] q.wheres[i], d, inner),
            )) && (forall|i: int|
            0 <= i < deletes.len() ==> !names_row(#[trigger] deletes[i], id, ty, row)) {
            assert forall|i: int| 0 <= i < rest.len() implies !names_row(
                #[trigger] rest[i],
                id,
                ty,
                row,
            ) by {
                assert(!names_row(deletes[i], id, ty, row));
            }
            assert forall|i: int| 0 <= i < w.wheres.len() implies meaning::is_true(
                meaning::value(#[trigger] w.wheres[i], d, inner),
            ) by {
                if i < n {
                    assert(meaning::is_true(meaning::value(before.wheres[i], d, inner)));
                }
            }
        }
    }
}

/// A stored tag stays after the write exactly where its item was not deleted and no delete
/// names its item, its type and, where a value is given, its label.
pub proof fn law_tags_stay_unless_named(
    file: Seq<char>,
    inserts: Seq<(i64, TagModel)>,
    deletes: Seq<UserTagDeleteModel>,
    deleted: Seq<i64>,
    d: Data,
    row: Row,
    id: int,
    ty: Seq<char>,
)
    requires
        meaning::cell(row, Col::ItemId.name_text()) == Val::Int(id),
        meaning::cell(row, Col::Type.name_text()) == Val::Text(ty),
    ensures
        meaning::keeps(
            sql::tags_after(file, inserts, deletes, deleted),
            d,
            seq![],
            meaning::one_row("src"@, row),
        ) <==> {
            &&& (d.files)(file).contains(row)
            &&& !(exists|i: int| 0 <= i < deleted.len() && #[trigger] deleted[i] == id)
            &&& forall|i: int|
                0 <= i < deletes.len() ==> !names_row(#[trigger] deletes[i], id, ty, row)
        },
        sql::tags_after(file, inserts, deletes, deleted).items == seq![ItemTerm::All],
{
    let q = sql::tags_after(file, inserts, deletes, deleted);
    let inner = meaning::one_row("src"@, row);
    assert(Seq::<(Seq<char>, Row)>::empty() + inner =~= inner);
    let start = sql::rows_without(file, deleted);
    lemma_rows_without(file, deleted, d, row, id);
    lemma_without_tags(start, deletes, d, row, id, ty);
    assert(q.wheres == sql::without_tags(start, deletes).wheres);
    meaning::lemma_one_source(q, d, seq![], inner);
}

/// All stored tags of an item stay that was not deleted and that no delete speaks of, whatever
/// else is written.
pub proof fn law_tags_of_other_items_stay(
    file: Seq<char>,
    inserts: Seq<(i64, TagModel)>,
    deletes: Seq<UserTagDeleteModel>,
    deleted: Seq<i64>,
    d: Data,
    row: Row,
    id: int,
    ty: Seq<char>,
)
    requires
        meaning::cell(row, Col::ItemId.name_text()) == Val::Int(id),
        meaning::cell(row, Col::Type.name_text()) == Val::Text(ty),
        (d.files)(file).contains(row),
        forall|i: int| 0 <= i < deleted.len() ==> #[trigger] deleted[i] != id,
        forall|i: int| 0 <= i < deletes.len() ==> (#[trigger] deletes[i]).item_id != id,
    ensures
        meaning::keeps(
            sql::tags_after(file, inserts, deletes, deleted),
            d,
            seq![],
            meaning::one_row("src"@, row),
        ),
{
    law_tags_stay_unless_named(file, inserts, deletes, deleted, d, row, id, ty);
}

/// Each new tag is written as one row: the item, the type and the value in the one label column
/// of its kind, with nothing in the others.
pub proof fn law_new_tags_are_written_as_rows(
    file: Seq<char>,
    inserts: Seq<(i64, TagModel)>,
    deletes: Seq<UserTagDeleteModel>,
    deleted: Seq<i64>,
    i: int,
)
    requires
        0 <= i < inserts.len(),
    ensures
        ({
            let q = sql::tags_after(file, inserts, deletes, deleted);
            let added = q.unions[0].1;
            let nothing = CellTerm::Number(None);
            &&& q.unions.len() == 1
            &&& added.items == seq![ItemTerm::All]
            &&& added.from.len() == 1 && added.joins.len() == 0 && added.wheres.len() == 0
            &&& added.unions.len() == 0
            &&& added.from[0] matches FromTerm::Rows(rows, _) && {
                let cells = rows[i];
                &&& rows.len() == inserts.len()
                &&& cells.len() == 6
                &&& cells[0] == CellTerm::Int(inserts[i].0)
                &&& cells[1] == CellTerm::Text(inserts[i].1.tag_type.name())
                &&& cells[2] == match inserts[i].1.value {
                    BiticalModel::String(s) => CellTerm::Text(s),
                    BiticalModel::Uuid(u) => CellTerm::Text(types::uuid_shown(u)),
                    _ => CellTerm::NullText,
                }
                &&& cells[3] == match inserts[i].1.value {
                    BiticalModel::Integer(n) => CellTerm::Int(n),
                    _ => CellTerm::NullInt,
                }
                &&& cells[4] == match inserts[i].1.value {
                    BiticalModel::Double(_, shown) => CellTerm::Number(
                        statement::double_read(shown),
                    ),
                    _ => nothing,
                }
                &&& cells[5] == match inserts[i].1.value {
                    BiticalModel::Boolean(b) => CellTerm::Bool(b),
                    _ => CellTerm::NullBool,
                }
            }
        }),
{
    let q = sql::tags_after(file, inserts, deletes, deleted);
    let start = sql::rows_without(file, deleted);
    lemma_no_unions(start, deletes);
    assert(q.unions[0].1.items =~= seq![ItemTerm::All]);
}

proof fn lemma_no_unions(q: SelectTerm, deletes: Seq<UserTagDeleteModel>)
    ensures
        sql::without_tags(q, deletes).unions == q.unions,
    decreases deletes.len(),
{
    if deletes.len() > 0 {
        lemma_no_unions(q, deletes.drop_last());
    }
}

/// Each new item is written as one row: its id, no rank and no name, its kind and its content.
pub proof fn law_new_items_are_written_as_rows(
    file: Seq<char>,
    inserts: Seq<(i64, Seq<char>, Seq<char>)>,
    deleted: Seq<i64>,
    i: int,
)
    requires
        0 <= i < inserts.len(),
    ensures
        ({
            let q = sql::items_after(file, inserts, deleted);
            let added = q.unions[0].1;
            &&& q.unions.len() == 1
            &&& added.items == seq![ItemTerm::All]
            &&& added.from.len() == 1 && added.joins.len() == 0 && added.wheres.len() == 0
            &&& added.unions.len() == 0
            &&& added.from[0] matches FromTerm::Rows(rows, _) && {
                &&& rows.len() == inserts.len()
                &&& rows[i].len() == 5
                &&& rows[i][0] == CellTerm::Int(inserts[i].0)
                &&& rows[i][1] is NullInt
                &&& rows[i][2] is NullText
                &&& rows[i][3] == CellTerm::Text(inserts[i].1)
                &&& rows[i][4] == CellTerm::Text(inserts[i].2)
            }
        }),
{
    let q = sql::items_after(file, inserts, deleted);
    assert(q.unions[0].1.items =~= seq![ItemTerm::All]);
}

/// An update of one column by cases of items.
proof fn lemma_case_update(
    u: UpdateTerm,
    ids: Seq<i64>,
    col: Col,
    arms: Seq<(Term, Term)>,
    d: Data,
    row: Row,
    id: int,
)
    requires
        meaning::cell(row, Col::ItemId.name_text()) == Val::Int(id),
        arms.len() == ids.len(),
        forall|i: int|
            0 <= i < arms.len() ==> (#[trigger] arms[i]).0 == Term::Eq(
                Box::new(sql::plain(Col::ItemId)),
                Box::new(Term::Int(ids[i] as int)),
            ),
        u.values =~= seq![(col.name_text(), Term::Case(arms, Box::new(sql::plain(col))))],
        u.wheres =~= seq![Term::In(Box::new(sql::plain(Col::ItemId)), statement::int_terms(ids))],
    ensures
        (forall|i: int| 0 <= i < ids.len() ==> #[trigger] ids[i] != id) ==> meaning::updated(
            u,
            d,
            row,
        ) == row,
        forall|k: int|
            0 <= k < ids.len() && #[trigger] ids[k] == id && (forall|j: int|
                0 <= j < k ==> #[trigger] ids[j] != id) ==> meaning::updated(u, d, row)
                == row.insert(
                col.name_text(),
                meaning::value(arms[k].1, d, meaning::one_row(u.table, row)),
            ),
{
    let inner = meaning::one_row(u.table, row);
    meaning::lemma_own_cell(u.table, row, Col::ItemId.name_text());
    meaning::lemma_among_ints(id, ids, d, inner);
    let cond = Term::In(Box::new(sql::plain(Col::ItemId)), statement::int_terms(ids));
    assert(u.wheres[0] == cond);
    assert(meaning::value(sql::plain(Col::ItemId), d, inner) == Val::Int(id));
    assert(meaning::value(cond, d, inner) == meaning::among(
        Val::Int(id),
        statement::int_terms(ids),
        d,
        inner,
    ));
    assert forall|i: int| 0 <= i < arms.len() implies meaning::value(
        (#[trigger] arms[i]).0,
        d,
        inner,
    ) == Val::Bool(ids[i] == id) by {
        reveal_with_fuel(meaning::value, 3);
    }
    assert forall|k: int|
        0 <= k < ids.len() && #[trigger] ids[k] == id && (forall|j: int|
            0 <= j < k ==> #[trigger] ids[j] != id) implies meaning::updated(u, d, row)
        == row.insert(col.name_text(), meaning::value(arms[k].1, d, inner)) by {
        assert(meaning::is_true(meaning::value(arms[k].0, d, inner)));
        assert forall|j: int| 0 <= j < k implies !meaning::is_true(
            meaning::value((#[trigger] arms[j]).0, d, inner),
        ) by {
            assert(ids[j] != id);
        }
        let other = meaning::value(sql::plain(col), d, inner);
        meaning::lemma_first_case(arms, other, d, inner, k);
        assert(meaning::touches(u, d, row));
        reveal_with_fuel(meaning::assigned, 2);
        assert(u.values.drop_last() =~= Seq::empty());
        assert(u.values.last() == (col.name_text(), Term::Case(arms, Box::new(sql::plain(col)))));
        assert(meaning::value(Term::Case(arms, Box::new(sql::plain(col))), d, inner)
            == meaning::cased(arms, other, d, inner));
    }
    if forall|i: int| 0 <= i < ids.len() ==> #[trigger] ids[i] != id {
        assert(!meaning::is_true(meaning::value(u.wheres[0], d, inner)));
        assert(!meaning::touches(u, d, row));
    }
}

/// An item for which a rank is given has it afterwards, and nothing else of it is changed; all
/// other items are left as they are. Of two ranks for one item the first counts.
pub proof fn law_ranks_are_given(
    table: Tbl,
    updates: Seq<(i64, i64)>,
    d: Data,
    row: Row,
    id: int,
)
    requires
        meaning::cell(row, Col::ItemId.name_text()) == Val::Int(id),
    ensures
        (forall|i: int| 0 <= i < updates.len() ==> (#[trigger] updates[i]).0 != id)
            ==> meaning::updated(sql::ranks_update(table, updates), d, row) == row,
        forall|k: int|
            0 <= k < updates.len() && (#[trigger] updates[k]).0 == id && (forall|j: int|
                0 <= j < k ==> (#[trigger] updates[j]).0 != id) ==> meaning::updated(
                sql::ranks_update(table, updates),
                d,
                row,
            ) == row.insert(Col::Rank.name_text(), Val::Int(updates[k].1 as int)),
{
    let ids = updates.map_values(|u: (i64, i64)| u.0);
    let arms = updates.map_values(|u: (i64, i64)| sql::rank_case(u));
    let u = sql::ranks_update(table, updates);
    lemma_case_update(u, ids, Col::Rank, arms, d, row, id);
    assert(forall|i: int| 0 <= i < ids.len() ==> #[trigger] ids[i] == updates[i].0);
    assert forall|k: int|
        0 <= k < updates.len() && (#[trigger] updates[k]).0 == id && (forall|j: int|
            0 <= j < k ==> (#[trigger] updates[j]).0 != id) implies meaning::updated(u, d, row)
        == row.insert(Col::Rank.name_text(), Val::Int(updates[k].1 as int)) by {
        assert(ids[k] == id);
        assert(arms[k].1 == Term::Int(updates[k].1 as int));
        assert forall|j: int| 0 <= j < k implies #[trigger] ids[j] != id by {
            assert(updates[j].0 != id);
        }
    }
    if forall|i: int| 0 <= i < updates.len() ==> (#[trigger] updates[i]).0 != id {
        assert forall|i: int| 0 <= i < ids.len() implies #[trigger] ids[i] != id by {
            assert(updates[i].0 != id);
        }
    }
}

/// An item for which a value is given has it afterwards in the column, and nothing else of it is
/// changed; all other items are left as they are. Of two values for one item the first counts.
pub proof fn law_columns_are_given(
    table: Tbl,
    col: Col,
    updates: Seq<(i64, Bitical)>,
    d: Data,
    row: Row,
    id: int,
)
    requires
        meaning::cell(row, Col::ItemId.name_text()) == Val::Int(id),
    ensures
        (forall|i: int| 0 <= i < updates.len() ==> (#[trigger] updates[i]).0 != id)
            ==> meaning::updated(sql::column_update(table, col, updates), d, row) == row,
        forall|k: int|
            0 <= k < updates.len() && (#[trigger] updates[k]).0 == id && (forall|j: int|
                0 <= j < k ==> (#[trigger] updates[j]).0 != id) ==> meaning::updated(
                sql::column_update(table, col, updates),
                d,
                row,
            ) == row.insert(col.name_text(), stored_val(updates[k].1@)),
{
    let ids = updates.map_values(|u: (i64, Bitical)| u.0);
    let arms = updates.map_values(|u: (i64, Bitical)| sql::value_case(u));
    let u = sql::column_update(table, col, updates);
    lemma_case_update(u, ids, col, arms, d, row, id);
    assert(forall|i: int| 0 <= i < ids.len() ==> #[trigger] ids[i] == updates[i].0);
    assert forall|k: int|
        0 <= k < updates.len() && (#[trigger] updates[k]).0 == id && (forall|j: int|
            0 <= j < k ==> (#[trigger] updates[j]).0 != id) implies meaning::updated(u, d, row)
        == row.insert(col.name_text(), stored_val(updates[k].1@)) by {
        assert(ids[k] == id);
        assert(arms[k].1 == crate::db::value::value_expr(updates[k].1@));
        assert forall|j: int| 0 <= j < k implies #[trigger] ids[j] != id by {
            assert(updates[j].0 != id);
        }
    }
    if forall|i: int| 0 <= i < updates.len() ==> (#[trigger] updates[i]).0 != id {
        assert forall|i: int| 0 <= i < ids.len() implies #[trigger] ids[i] != id by {
            assert(updates[i].0 != id);
        }
    }
}

/// One column of the rows of a file that meet a condition.
proof fn lemma_column_of_rows(
    q: SelectTerm,
    c: Col,
    file: Seq<char>,
    name: Seq<char>,
    p: spec_fn(Row) -> bool,
    d: Data,
    out: Row,
)
    requires
        q.from =~= seq![FromTerm::Select(Box::new(schema::all_rows(file)), name)],
        q.joins.len() == 0,
        q.unions.len() == 0,
        q.items =~= seq![ItemTerm::One(sql::plain(c), None)],
        forall|row: Row|
            (forall|i: int|
                0 <= i < q.wheres.len() ==> meaning::is_true(
                    meaning::value(#[trigger] q.wheres[i], d, meaning::one_row(name, row)),
                )) <==> #[trigger] p(row),
    ensures
        meaning::gives(q, d, seq![], out) <==> exists|row: Row|
            (d.files)(file).contains(row) && #[trigger] p(row) && out == map![
                c.name_text() => meaning::cell(row, c.name_text()),
            ],
{
    let none = Seq::<(Seq<char>, Row)>::empty();
    let n = c.name_text();
    let empty = Seq::<ItemTerm>::empty();
    let it = ItemTerm::One(sql::plain(c), None);
    assert(q.items =~= empty.push(it));
    assert forall|row: Row| #[trigger] meaning::some_row(row) implies {
        let inner = meaning::one_row(name, row);
        &&& none + inner == inner
        &&& meaning::source_has(q.from[0], d, none, row) <==> (d.files)(file).contains(row)
        &&& meaning::projected(q.items, d, none + inner, row) == map![n => meaning::cell(row, n)]
    } by {
        let inner = meaning::one_row(name, row);
        assert(none + inner =~= inner);
        assert(q.from[0] == FromTerm::Select(Box::new(schema::all_rows(file)), name));
        meaning::lemma_all_rows(file, d, none, row);
        meaning::lemma_own_cell(name, row, n);
        meaning::lemma_projected_push(empty, it, d, inner, row);
        assert(meaning::projected(q.items, d, inner, row) =~= map![n => meaning::cell(row, n)]);
    }
    meaning::lemma_gives_one(q, d, none, out);
    assert(meaning::name_of(q.from[0]) == name);
    if meaning::gives(q, d, none, out) {
        let row = choose|row: Row|
            {
                let inner = meaning::one_row(meaning::name_of(q.from[0]), row);
                &&& #[trigger] meaning::some_row(row)
                &&& meaning::source_has(q.from[0], d, none, row)
                &&& forall|i: int|
                    0 <= i < q.wheres.len() ==> meaning::is_true(
                        meaning::value(#[trigger] q.wheres[i], d, none + inner),
                    )
                &&& out == meaning::projected(q.items, d, none + inner, row)
            };
        assert(none + meaning::one_row(name, row) == meaning::one_row(name, row));
        assert(p(row));
    }
    if exists|row: Row|
        (d.files)(file).contains(row) && #[trigger] p(row) && out == map![
            n => meaning::cell(row, n),
        ] {
        let row = choose|row: Row|
            (d.files)(file).contains(row) && #[trigger] p(row) && out == map![
                n => meaning::cell(row, n),
            ];
        assert(meaning::some_row(row));
    }
}

/// Whether a row is one of some items.
pub open spec fn of_items(row: Row, ids: Seq<i64>) -> bool {
    exists|i: int|
        0 <= i < ids.len() && meaning::cell(row, Col::ItemId.name_text()) == Val::Int(
            #[trigger] ids[i] as int,
        )
}

/// Whether a row is of a type.
pub open spec fn of_type(row: Row, ty: Seq<char>) -> bool {
    meaning::cell(row, Col::Type.name_text()) == Val::Text(ty)
}

proof fn lemma_of_items(name: Seq<char>, ids: Seq<i64>, d: Data, row: Row)
    ensures
        meaning::is_true(
            meaning::value(
                Term::In(Box::new(sql::plain(Col::ItemId)), statement::int_terms(ids)),
                d,
                meaning::one_row(name, row),
            ),
        ) <==> of_items(row, ids),
{
    let inner = meaning::one_row(name, row);
    let x = meaning::cell(row, Col::ItemId.name_text());
    meaning::lemma_own_cell(name, row, Col::ItemId.name_text());
    assert(meaning::value(sql::plain(Col::ItemId), d, inner) == x);
    let v = statement::int_terms(ids);
    assert(meaning::value(Term::In(Box::new(sql::plain(Col::ItemId)), v), d, inner)
        == meaning::among(x, v, d, inner));
    assert forall|i: int| 0 <= i < v.len() implies meaning::value(#[trigger] v[i], d, inner)
        == Val::Int(ids[i] as int) by {
    }
    if of_items(row, ids) {
        let i = choose|i: int| 0 <= i < ids.len() && x == Val::Int(#[trigger] ids[i] as int);
        assert(meaning::is_true(meaning::equal_vals(x, meaning::value(v[i], d, inner))));
    }
    if meaning::is_true(meaning::among(x, v, d, inner)) {
        let i = choose|i: int|
            0 <= i < v.len() && meaning::is_true(
                meaning::equal_vals(x, meaning::value(#[trigger] v[i], d, inner)),
            );
        assert(x == Val::Int(ids[i] as int));
    }
}

/// Of some items, those are found again that have a row in the file of items.
pub proof fn law_stored_items_are_found(file: Seq<char>, ids: Seq<i64>, d: Data, out: Row)
    ensures
        meaning::gives(sql::stored_among(file, ids), d, seq![], out) <==> exists|row: Row|
            (d.files)(file).contains(row) && #[trigger] of_items(row, ids) && out == map![
                Col::ItemId.name_text() => meaning::cell(row, Col::ItemId.name_text()),
            ],
{
    let q = sql::stored_among(file, ids);
    let name = Tbl::ItemReferences.name_text();
    let p = |row: Row| of_items(row, ids);
    let cond = Term::In(Box::new(sql::plain(Col::ItemId)), statement::int_terms(ids));
    assert(q.wheres =~= seq![cond]);
    assert forall|row: Row|
        (forall|i: int|
            0 <= i < q.wheres.len() ==> meaning::is_true(
                meaning::value(#[trigger] q.wheres[i], d, meaning::one_row(name, row)),
            )) <==> #[trigger] p(row) by {
        lemma_of_items(name, ids, d, row);
        assert(q.wheres[0] == cond);
    }
    lemma_column_of_rows(q, Col::ItemId, file, name, p, d, out);
    if exists|row: Row|
        (d.files)(file).contains(row) && #[trigger] of_items(row, ids) && out == map![
            Col::ItemId.name_text() => meaning::cell(row, Col::ItemId.name_text()),
        ] {
        let row = choose|row: Row|
            (d.files)(file).contains(row) && #[trigger] of_items(row, ids) && out == map![
                Col::ItemId.name_text() => meaning::cell(row, Col::ItemId.name_text()),
            ];
        assert(p(row));
    }
}

proof fn lemma_types_in(table: Tbl, file: Seq<char>, ids: Seq<i64>, d: Data, out: Row)
    ensures
        meaning::gives(sql::types_in(table, file, ids), d, seq![], out) <==> exists|row: Row|
            (d.files)(file).contains(row) && #[trigger] of_items(row, ids) && out == map![
                Col::Type.name_text() => meaning::cell(row, Col::Type.name_text()),
            ],
{
    let q = sql::types_in(table, file, ids);
    let name = table.name_text();
    let p = |row: Row| of_items(row, ids);
    let cond = Term::In(Box::new(sql::plain(Col::ItemId)), statement::int_terms(ids));
    assert(q.wheres =~= seq![cond]);
    assert forall|row: Row|
        (forall|i: int|
            0 <= i < q.wheres.len() ==> meaning::is_true(
                meaning::value(#[trigger] q.wheres[i], d, meaning::one_row(name, row)),
            )) <==> #[trigger] p(row) by {
        lemma_of_items(name, ids, d, row);
        assert(q.wheres[0] == cond);
    }
    lemma_column_of_rows(q, Col::Type, file, name, p, d, out);
    if exists|row: Row|
        (d.files)(file).contains(row) && #[trigger] of_items(row, ids) && out == map![
            Col::Type.name_text() => meaning::cell(row, Col::Type.name_text()),
        ] {
        let row = choose|row: Row|
            (d.files)(file).contains(row) && #[trigger] of_items(row, ids) && out == map![
                Col::Type.name_text() => meaning::cell(row, Col::Type.name_text()),
            ];
        assert(p(row));
    }
}

/// Whether a row of the table of base tags counts: its type is known to be none that is no tag.
pub open spec fn counts_as_tag(row: Row, excluded: Seq<Seq<char>>) -> bool {
    excluded.len() > 0 ==> {
        let ty = meaning::cell(row, Col::Type.name_text());
        &&& !(ty is Null)
        &&& forall|i: int| 0 <= i < excluded.len() ==> ty != Val::Text(#[trigger] excluded[i])
    }
}

proof fn lemma_counts_as_tag(name: Seq<char>, excluded: Seq<Seq<char>>, d: Data, row: Row)
    requires
        excluded.len() > 0,
    ensures
        meaning::is_true(
            meaning::value(
                Term::NotIn(Box::new(sql::plain(Col::Type)), statement::text_terms(excluded)),
                d,
                meaning::one_row(name, row),
            ),
        ) <==> counts_as_tag(row, excluded),
{
    let inner = meaning::one_row(name, row);
    let x = meaning::cell(row, Col::Type.name_text());
    let v = statement::text_terms(excluded);
    meaning::lemma_own_cell(name, row, Col::Type.name_text());
    assert(meaning::value(sql::plain(Col::Type), d, inner) == x);
    assert(meaning::value(Term::NotIn(Box::new(sql::plain(Col::Type)), v), d, inner)
        == meaning::not_val(meaning::among(x, v, d, inner)));
    assert forall|i: int| 0 <= i < v.len() implies meaning::value(#[trigger] v[i], d, inner)
        == Val::Text(excluded[i]) by {
    }
    if counts_as_tag(row, excluded) {
        assert forall|i: int| 0 <= i < v.len() implies meaning::equal_vals(
            x,
            meaning::value(#[trigger] v[i], d, inner),
        ) == Val::Bool(false) by {
            assert(x != Val::Text(excluded[i]));
        }
        assert(meaning::among(x, v, d, inner) == Val::Bool(false));
    } else if x is Null {
        assert(meaning::equal_vals(x, meaning::value(v[0], d, inner)) is Null);
        assert forall|i: int| 0 <= i < v.len() implies !meaning::is_true(
            meaning::equal_vals(x, meaning::value(#[trigger] v[i], d, inner)),
        ) by {
        }
        assert(meaning::among(x, v, d, inner) is Null);
    } else {
        let i = choose|i: int| 0 <= i < excluded.len() && x == Val::Text(#[trigger] excluded[i]);
        assert(meaning::is_true(meaning::equal_vals(x, meaning::value(v[i], d, inner))));
        assert(meaning::among(x, v, d, inner) == Val::Bool(true));
    }
}

proof fn lemma_base_types(
    file: Seq<char>,
    ids: Seq<i64>,
    excluded: Seq<Seq<char>>,
    d: Data,
    out: Row,
)
    ensures
        meaning::gives(sql::base_types(file, ids, excluded), d, seq![], out) <==> exists|row: Row|
            (d.files)(file).contains(row) && #[trigger] of_items(row, ids) && counts_as_tag(
                row,
                excluded,
            ) && out == map![
                Col::Type.name_text() => meaning::cell(row, Col::Type.name_text()),
            ],
{
    if excluded.len() == 0 {
        lemma_types_in(Tbl::BaseTags, file, ids, d, out);
    } else {
        let q = sql::base_types(file, ids, excluded);
        let name = Tbl::BaseTags.name_text();
        let p = |row: Row| of_items(row, ids) && counts_as_tag(row, excluded);
        let cond = Term::In(Box::new(sql::plain(Col::ItemId)), statement::int_terms(ids));
        let other = Term::NotIn(Box::new(sql::plain(Col::Type)), statement::text_terms(excluded));
        assert(q.wheres =~= seq![cond, other]);
        assert forall|row: Row|
            (forall|i: int|
                0 <= i < q.wheres.len() ==> meaning::is_true(
                    meaning::value(#[trigger] q.wheres[i], d, meaning::one_row(name, row)),
                )) <==> #[trigger] p(row) by {
            lemma_of_items(name, ids, d, row);
            lemma_counts_as_tag(name, excluded, d, row);
            assert(q.wheres[0] == cond && q.wheres[1] == other);
        }
        lemma_column_of_rows(q, Col::Type, file, name, p, d, out);
        if exists|row: Row|
            (d.files)(file).contains(row) && #[trigger] of_items(row, ids) && counts_as_tag(
                row,
                excluded,
            ) && out == map![
                Col::Type.name_text() => meaning::cell(row, Col::Type.name_text()),
            ] {
            let row = choose|row: Row|
                (d.files)(file).contains(row) && #[trigger] of_items(row, ids) && counts_as_tag(
                    row,
                    excluded,
                ) && out == map![
                    Col::Type.name_text() => meaning::cell(row, Col::Type.name_text()),
                ];
            assert(p(row));
        }
    }
}

/// What united queries give: what one of them gives.
proof fn lemma_united(qs: Seq<SelectTerm>, d: Data, out: Row)
    requires
        qs.len() > 0,
        forall|i: int| 0 <= i < qs.len() ==> (#[trigger] qs[i]).unions.len() == 0,
    ensures
        meaning::gives(sql::united(qs), d, seq![], out) <==> exists|i: int|
            0 <= i < qs.len() && meaning::gives(#[trigger] qs[i], d, seq![], out),
        sql::united(qs).from == qs[0].from,
        sql::united(qs).unions.len() == qs.len() - 1,
        forall|i: int|
            0 <= i < qs.len() - 1 ==> (#[trigger] sql::united(qs).unions[i]).1 == qs[i + 1],
    decreases qs.len(),
{
    let none = Seq::<(Seq<char>, Row)>::empty();
    if qs.len() == 1 {
        if meaning::gives(sql::united(qs), d, none, out) {
            assert(meaning::gives(qs[0], d, none, out));
        }
    } else {
        let rest = qs.drop_last();
        assert forall|i: int| 0 <= i < rest.len() implies (#[trigger] rest[i]).unions.len() == 0 by {
            assert(rest[i] == qs[i]);
        }
        lemma_united(rest, d, out);
        let before = sql::united(rest);
        let q = sql::united(qs);
        assert(q == before.with_union(qs.last()));
        let n = before.unions.len() as int;
        assert(q.unions.len() == n + 1);
        assert(q.unions[n].1 == qs.last());
        assert forall|i: int| 0 <= i < n implies #[trigger] before.unions[i] == q.unions[i] by {
        }
        assert forall|i: int| 0 <= i < qs.len() - 1 implies (#[trigger] q.unions[i]).1 == qs[i
            + 1] by {
            if i < n {
                assert(before.unions[i] == q.unions[i]);
                assert(rest[i + 1] == qs[i + 1]);
            }
        }
        lemma_more_unions(before, q, d, out);
        if meaning::gives(q, d, none, out) {
            if meaning::gives(before, d, none, out) {
                let i = choose|i: int|
                    0 <= i < rest.len() && meaning::gives(#[trigger] rest[i], d, none, out);
                assert(meaning::gives(qs[i], d, none, out));
            } else {
                assert(meaning::gives(qs[qs.len() - 1], d, none, out));
            }
        }
        if exists|i: int| 0 <= i < qs.len() && meaning::gives(#[trigger] qs[i], d, none, out) {
            let i = choose|i: int|
                0 <= i < qs.len() && meaning::gives(#[trigger] qs[i], d, none, out);
            if i < rest.len() {
                assert(meaning::gives(rest[i], d, none, out));
            }
        }
    }
}

/// A union adds what its selection gives.
proof fn lemma_more_unions(before: SelectTerm, q: SelectTerm, d: Data, out: Row)
    requires
        q.unions.len() == before.unions.len() + 1,
        q == (SelectTerm { unions: q.unions, ..before }),
        forall|i: int|
            0 <= i < before.unions.len() ==> #[trigger] before.unions[i] == q.unions[i],
    ensures
        meaning::gives(q, d, seq![], out) <==> meaning::gives(before, d, seq![], out)
            || meaning::gives(q.unions[before.unions.len() as int].1, d, seq![], out),
{
    let none = Seq::<(Seq<char>, Row)>::empty();
    let n = before.unions.len() as int;
    assert forall|inner: meaning::Scope| #[trigger]
        meaning::some_rows(inner) implies (meaning::keeps(q, d, none, inner) <==> meaning::keeps(
        before,
        d,
        none,
        inner,
    )) by {
        assert(meaning::joined_up(q, d, none, inner) <==> meaning::joined_up(
            before,
            d,
            none,
            inner,
        ));
    }
    if meaning::gives(before, d, none, out) {
        if exists|i: int|
            0 <= i < n && meaning::gives((#[trigger] before.unions[i]).1, d, none, out) {
            let i = choose|i: int|
                0 <= i < n && meaning::gives((#[trigger] before.unions[i]).1, d, none, out);
            assert(meaning::gives(q.unions[i].1, d, none, out));
        } else {
            let inner = choose|inner: meaning::Scope|
                #[trigger] meaning::some_rows(inner) && meaning::keeps(before, d, none, inner)
                    && out == meaning::projected(
                    before.items,
                    d,
                    none + inner,
                    if inner.len() > 0 {
                        inner[0].1
                    } else {
                        Map::empty()
                    },
                );
            assert(meaning::some_rows(inner) && meaning::keeps(q, d, none, inner));
        }
    }
    if meaning::gives(q, d, none, out) {
        if exists|i: int| 0 <= i < n + 1 && meaning::gives((#[trigger] q.unions[i]).1, d, none, out) {
            let i = choose|i: int|
                0 <= i < n + 1 && meaning::gives((#[trigger] q.unions[i]).1, d, none, out);
            if i < n {
                assert(before.unions[i] == q.unions[i]);
                assert(meaning::gives(before.unions[i].1, d, none, out));
            }
        } else {
            let inner = choose|inner: meaning::Scope|
                #[trigger] meaning::some_rows(inner) && meaning::keeps(q, d, none, inner) && out
                    == meaning::projected(
                    q.items,
                    d,
                    none + inner,
                    if inner.len() > 0 {
                        inner[0].1
                    } else {
                        Map::empty()
                    },
                );
            assert(meaning::some_rows(inner) && meaning::keeps(before, d, none, inner));
        }
    }
}

/// Whether a row of a table of tags tells of a type that items have.
pub open spec fn tells_type(
    dir: Seq<char>,
    ids: Seq<i64>,
    excluded: Seq<Seq<char>>,
    there: TagTables,
    d: Data,
    row: Row,
) -> bool {
    let rows = |t: TargetTable| (d.files)(path::joined_to(dir, store::table_file(t)));
    &&& of_items(row, ids)
    &&& {
        ||| there.by_location && rows(TargetTable::TagsByLocation).contains(row)
        ||| there.user && rows(TargetTable::UserTags).contains(row)
        ||| there.base && rows(TargetTable::BaseTags).contains(row) && counts_as_tag(row, excluded)
    }
}

/// The types of some items are those of their rows in the tables of tags that are there, without
/// the types of the base tags that are no tags. Without items or tables nothing is asked.
pub proof fn law_types_are_those_of_the_items(
    dir: Seq<char>,
    ids: Seq<i64>,
    excluded: Seq<Seq<char>>,
    there: TagTables,
    d: Data,
    out: Row,
)
    ensures
        match sql::types_of(dir, ids, excluded, there) {
            None => ids.len() == 0 || (!there.by_location && !there.user && !there.base),
            Some(q) => {
                &&& ids.len() > 0 && (there.by_location || there.user || there.base)
                &&& q.distinct
                &&& meaning::gives(q, d, seq![], out) <==> exists|row: Row|
                    #[trigger] tells_type(dir, ids, excluded, there, d, row) && out == map![
                        Col::Type.name_text() => meaning::cell(row, Col::Type.name_text()),
                    ]
            },
        },
{
    let qs = sql::type_queries(dir, ids, excluded, there);
    if let Some(q) = sql::types_of(dir, ids, excluded, there) {
        let none = Seq::<(Seq<char>, Row)>::empty();
        let ty = Col::Type.name_text();
        let name = Tbl::ItemTags.name_text();
        let file = |t: TargetTable| path::joined_to(dir, store::table_file(t));
        let by_location = sql::types_in(
            Tbl::TagsByLocation,
            file(TargetTable::TagsByLocation),
            ids,
        );
        let user = sql::types_in(Tbl::UserTags, file(TargetTable::UserTags), ids);
        let base = sql::base_types(file(TargetTable::BaseTags), ids, excluded);
        assert forall|i: int| 0 <= i < qs.len() implies {
            ||| there.by_location && #[trigger] qs[i] == by_location
            ||| there.user && qs[i] == user
            ||| there.base && qs[i] == base
        } by {
        }
        assert(there.by_location ==> qs[0] == by_location);
        assert(there.user ==> qs[if there.by_location {
            1int
        } else {
            0int
        }] == user);
        assert(there.base ==> qs[qs.len() - 1] == base);
        assert forall|r: Row| #[trigger] meaning::some_row(r) implies (meaning::gives(
            sql::united(qs),
            d,
            none,
            r,
        ) <==> exists|row: Row|
            #[trigger] tells_type(dir, ids, excluded, there, d, row) && r == map![
                ty => meaning::cell(row, ty),
            ]) by {
            lemma_united(qs, d, r);
            lemma_types_in(
                Tbl::TagsByLocation,
                file(TargetTable::TagsByLocation),
                ids,
                d,
                r,
            );
            lemma_types_in(Tbl::UserTags, file(TargetTable::UserTags), ids, d, r);
            lemma_base_types(file(TargetTable::BaseTags), ids, excluded, d, r);
            if meaning::gives(sql::united(qs), d, none, r) {
                let i = choose|i: int|
                    0 <= i < qs.len() && meaning::gives(#[trigger] qs[i], d, none, r);
                if there.base && qs[i] == base {
                    let row = choose|row: Row|
                        (d.files)(file(TargetTable::BaseTags)).contains(row) && #[trigger]
                        of_items(row, ids) && counts_as_tag(row, excluded) && r == map![
                            ty => meaning::cell(row, ty),
                        ];
                    assert(tells_type(dir, ids, excluded, there, d, row));
                } else if there.user && qs[i] == user {
                    let row = choose|row: Row|
                        (d.files)(file(TargetTable::UserTags)).contains(row) && #[trigger]
                        of_items(row, ids) && r == map![ty => meaning::cell(row, ty)];
                    assert(tells_type(dir, ids, excluded, there, d, row));
                } else {
                    let row = choose|row: Row|
                        (d.files)(file(TargetTable::TagsByLocation)).contains(row) && #[trigger]
                        of_items(row, ids) && r == map![ty => meaning::cell(row, ty)];
                    assert(tells_type(dir, ids, excluded, there, d, row));
                }
            }
            if exists|row: Row|
                #[trigger] tells_type(dir, ids, excluded, there, d, row) && r == map![
                    ty => meaning::cell(row, ty),
                ] {
                let row = choose|row: Row|
                    #[trigger] tells_type(dir, ids, excluded, there, d, row) && r == map![
                        ty => meaning::cell(row, ty),
                    ];
                assert(of_items(row, ids));
                if there.by_location && (d.files)(file(TargetTable::TagsByLocation)).contains(row) {
                    assert(meaning::gives(qs[0], d, none, r));
                } else if there.user && (d.files)(file(TargetTable::UserTags)).contains(row) {
                    assert(meaning::gives(
                        qs[if there.by_location {
                            1int
                        } else {
                            0int
                        }],
                        d,
                        none,
                        r,
                    ));
                } else {
                    assert(meaning::gives(qs[qs.len() - 1], d, none, r));
                }
            }
        }
        let empty = Seq::<ItemTerm>::empty();
        let it = ItemTerm::One(sql::plain(Col::Type), None);
        assert(q.items =~= empty.push(it));
        assert forall|r: Row| #[trigger] meaning::some_row(r) implies meaning::projected(
            q.items,
            d,
            none + meaning::one_row(name, r),
            r,
        ) == map![ty => meaning::cell(r, ty)] by {
            let inner = meaning::one_row(name, r);
            assert(none + inner =~= inner);
            meaning::lemma_own_cell(name, r, ty);
            meaning::lemma_projected_push(empty, it, d, inner, r);
            assert(meaning::projected(q.items, d, inner, r) =~= map![ty => meaning::cell(r, ty)]);
        }
        meaning::lemma_gives_one(q, d, none, out);
        if meaning::gives(q, d, none, out) {
            let r = choose|r: Row|
                {
                    let inner = meaning::one_row(meaning::name_of(q.from[0]), r);
                    &&& #[trigger] meaning::some_row(r)
                    &&& meaning::source_has(q.from[0], d, none, r)
                    &&& forall|i: int|
                        0 <= i < q.wheres.len() ==> meaning::is_true(
                            meaning::value(#[trigger] q.wheres[i], d, none + inner),
                        )
                    &&& out == meaning::projected(q.items, d, none + inner, r)
                };
            assert(meaning::gives(sql::united(qs), d, none, r));
            let row = choose|row: Row|
                #[trigger] tells_type(dir, ids, excluded, there, d, row) && r == map![
                    ty => meaning::cell(row, ty),
                ];
            assert(out =~= map![ty => meaning::cell(row, ty)]);
        }
        if exists|row: Row|
            #[trigger] tells_type(dir, ids, excluded, there, d, row) && out == map![
                ty => meaning::cell(row, ty),
            ] {
            let row = choose|row: Row|
                #[trigger] tells_type(dir, ids, excluded, there, d, row) && out == map![
                    ty => meaning::cell(row, ty),
                ];
            assert(meaning::some_row(out));
            assert(meaning::gives(sql::united(qs), d, none, out));
            assert(meaning::source_has(q.from[0], d, none, out));
            assert(map![ty => meaning::cell(out, ty)] =~= out);
        }
    }
}

/// The labels of a type are read of the rows of the type, and of no others.
pub proof fn law_labels_are_those_of_the_type(file: Seq<char>, ty: Seq<char>, d: Data, row: Row)
    ensures
        meaning::keeps(
            sql::labels_of(file, ty),
            d,
            seq![],
            meaning::one_row(Tbl::UserTags.name_text(), row),
        ) <==> (d.files)(file).contains(row) && of_type(row, ty),
        sql::labels_of(file, ty).items == seq![ItemTerm::One(tags::label_text(Tbl::UserTags), None)],
        sql::labels_of(file, ty).unions.len() == 0,
{
    let q = sql::labels_of(file, ty);
    let name = Tbl::UserTags.name_text();
    let inner = meaning::one_row(name, row);
    let none = Seq::<(Seq<char>, Row)>::empty();
    let cond = Term::Eq(Box::new(sql::plain(Col::Type)), Box::new(Term::Text(ty)));
    assert(none + inner =~= inner);
    assert(q.items =~= seq![ItemTerm::One(tags::label_text(Tbl::UserTags), None)]);
    assert(q.wheres =~= seq![cond]);
    assert(q.wheres[0] == cond);
    meaning::lemma_own_cell(name, row, Col::Type.name_text());
    assert(meaning::is_true(meaning::value(cond, d, inner)) <==> of_type(row, ty)) by {
        reveal_with_fuel(meaning::value, 3);
    }
    meaning::lemma_all_rows(file, d, none, row);
    meaning::lemma_one_source(q, d, none, inner);
}

/// A table is taken whole.
pub proof fn law_ordered_rows_are_all_rows(table: Tbl, d: Data, row: Row)
    ensures
        meaning::gives(sql::ordered_rows(table), d, seq![], row) <==> (d.tables)(
            table.name_text(),
        ).contains(row),
{
    let q = sql::ordered_rows(table);
    let none = Seq::<(Seq<char>, Row)>::empty();
    let name = table.name_text();
    let empty = Seq::<ItemTerm>::empty();
    assert(q.items =~= empty.push(ItemTerm::All));
    assert forall|r: Row| #[trigger] meaning::some_row(r) implies meaning::projected(
        q.items,
        d,
        none + meaning::one_row(name, r),
        r,
    ) == r by {
        meaning::lemma_projected_push(
            empty,
            ItemTerm::All,
            d,
            none + meaning::one_row(name, r),
            r,
        );
        assert(meaning::projected(q.items, d, none + meaning::one_row(name, r), r) =~= r);
    }
    meaning::lemma_gives_one(q, d, none, row);
    assert(meaning::some_row(row));
}

/// The label of a row as text is a text that it holds, or else what the engine writes of the
/// first number or truth value that it holds; it is missing where it holds none.
pub proof fn law_label_is_that_of_the_row(table: Tbl, d: Data, row: Row)
    ensures
        ({
            let s = meaning::one_row(table.name_text(), row);
            let label = meaning::value(tags::label_text(table), d, s);
            let held = |c: Col| meaning::cell(row, c.name_text());
            let shown = |c: Col| (d.engine)(
                Term::Cast(
                    Box::new(Term::Col(Some(table.name_text()), c.name_text())),
                    BiticalType::String.arm().sql_text(),
                ),
                s,
            );
            &&& !(held(Col::LabelStr) is Null) ==> label == held(Col::LabelStr)
            &&& held(Col::LabelStr) is Null && !(held(Col::LabelInt) is Null) && !(shown(
                Col::LabelInt,
            ) is Null) ==> label == shown(Col::LabelInt)
            &&& held(Col::LabelStr) is Null && held(Col::LabelInt) is Null && !(held(
                Col::LabelDouble,
            ) is Null) && !(shown(Col::LabelDouble) is Null) ==> label == shown(Col::LabelDouble)
            &&& held(Col::LabelStr) is Null && held(Col::LabelInt) is Null && held(
                Col::LabelDouble,
            ) is Null && !(held(Col::LabelBool) is Null) ==> label == shown(Col::LabelBool)
            &&& held(Col::LabelStr) is Null && held(Col::LabelInt) is Null && held(
                Col::LabelDouble,
            ) is Null && held(Col::LabelBool) is Null ==> label is Null
        }),
{
    let s = meaning::one_row(table.name_text(), row);
    let a = tags::col_of(table, Col::LabelStr);
    let b = tags::as_text(table, Col::LabelInt);
    let c = tags::as_text(table, Col::LabelDouble);
    let e = tags::as_text(table, Col::LabelBool);
    assert forall|col: Col| true implies meaning::value(#[trigger] tags::col_of(table, col), d, s)
        == meaning::cell(row, col.name_text()) by {
        meaning::lemma_own_cell(table.name_text(), row, col.name_text());
    }
    let all = seq![a, b, c, e];
    assert(all.subrange(1, 4) =~= seq![b, c, e]);
    assert(seq![b, c, e].subrange(1, 3) =~= seq![c, e]);
    assert(seq![c, e].subrange(1, 2) =~= seq![e]);
    assert(seq![e].subrange(1, 1) =~= Seq::empty());
    assert(meaning::value(tags::label_text(table), d, s) == meaning::first_known(all, d, s));
    assert(meaning::first_known(Seq::<Term>::empty(), d, s) is Null);
    assert(meaning::first_known(seq![e], d, s) == meaning::value(e, d, s));
    assert(meaning::first_known(seq![c, e], d, s) == if !(meaning::value(c, d, s) is Null) {
        meaning::value(c, d, s)
    } else {
        meaning::value(e, d, s)
    });
    assert(meaning::first_known(seq![b, c, e], d, s) == if !(meaning::value(b, d, s) is Null) {
        meaning::value(b, d, s)
    } else {
        meaning::first_known(seq![c, e], d, s)
    });
    assert(meaning::value(b, d, s) == if meaning::cell(row, Col::LabelInt.name_text()) is Null {
        Val::Null
    } else {
        (d.engine)(b, s)
    });
    assert(meaning::value(c, d, s) == if meaning::cell(row, Col::LabelDouble.name_text()) is Null {
        Val::Null
    } else {
        (d.engine)(c, s)
    });
    assert(meaning::value(e, d, s) == if meaning::cell(row, Col::LabelBool.name_text()) is Null {
        Val::Null
    } else {
        (d.engine)(e, s)
    });
}

/// Converting the labels of a type changes no row of another type. In a row of the type the
/// label is moved to the column of the kind asked for, as what the engine makes of its text, the
/// other label columns are emptied, and all else is kept.
pub proof fn law_conversion_moves_the_label(
    table: Tbl,
    ty: Seq<char>,
    to: BiticalType,
    d: Data,
    row: Row,
)
    ensures
        ({
            let u = sql::label_conversion(table, ty, to);
            let s = meaning::one_row(table.name_text(), row);
            let label = meaning::value(
                Term::Cast(Box::new(tags::label_text(table)), to.arm().sql_text()),
                d,
                s,
            );
            let held = |kind: bool| if kind {
                label
            } else {
                Val::Null
            };
            meaning::updated(u, d, row) == if of_type(row, ty) {
                row.insert(
                    Col::LabelStr.name_text(),
                    held(to == BiticalType::String || to == BiticalType::Uuid),
                ).insert(Col::LabelInt.name_text(), held(to == BiticalType::Integer)).insert(
                    Col::LabelDouble.name_text(),
                    held(to == BiticalType::Double),
                ).insert(Col::LabelBool.name_text(), held(to == BiticalType::Boolean))
            } else {
                row
            }
        }),
{
    let u = sql::label_conversion(table, ty, to);
    let name = table.name_text();
    let s = meaning::one_row(name, row);
    let cond = Term::Eq(Box::new(sql::plain(Col::Type)), Box::new(Term::Text(ty)));
    assert(u.wheres[0] == cond);
    meaning::lemma_own_cell(name, row, Col::Type.name_text());
    assert(meaning::is_true(meaning::value(cond, d, s)) <==> of_type(row, ty)) by {
        reveal_with_fuel(meaning::value, 3);
    }
    assert(meaning::touches(u, d, row) <==> of_type(row, ty));
    let a = sql::converted(table, to, Col::LabelStr);
    let b = sql::converted(table, to, Col::LabelInt);
    let c = sql::converted(table, to, Col::LabelDouble);
    let e = sql::converted(table, to, Col::LabelBool);
    assert(u.values.drop_last() =~= seq![a, b, c]);
    assert(seq![a, b, c].drop_last() =~= seq![a, b]);
    assert(seq![a, b].drop_last() =~= seq![a]);
    assert(seq![a].drop_last() =~= Seq::empty());
    assert(meaning::assigned(Seq::empty(), d, s, row) == row);
    assert(meaning::assigned(seq![a], d, s, row) == row.insert(a.0, meaning::value(a.1, d, s)));
    assert(meaning::assigned(seq![a, b], d, s, row) == meaning::assigned(
        seq![a],
        d,
        s,
        row,
    ).insert(b.0, meaning::value(b.1, d, s)));
    assert(meaning::assigned(seq![a, b, c], d, s, row) == meaning::assigned(
        seq![a, b],
        d,
        s,
        row,
    ).insert(c.0, meaning::value(c.1, d, s)));
}

} // verus!
