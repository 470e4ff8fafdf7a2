//! What comparing a scan with what is stored promises, told by the rows of the three tables.
use crate::col::Col;
use crate::db::meaning;
use crate::db::meaning::{Data, Row, Scope, Val};
use crate::db::schema;
use crate::db::schema::ColumnDefModel;
use crate::db::statement;
use crate::db::statement::{FromTerm, ItemTerm, SelectTerm, Term};
use crate::db::tags;
use crate::db::{TargetTable, Tbl};
use crate::functions::TagValueModel;
use crate::indexing;
use crate::indexing::{Keep, TagRowModel};
use vstd::prelude::*;

verus! {

/// Whether two rows are known to have the same value in a column.
pub open spec fn same_cell(a: Row, b: Row, c: Col) -> bool {
    &&& !(meaning::cell(a, c.name_text()) is Null)
    &&& meaning::cell(a, c.name_text()) == meaning::cell(b, c.name_text())
}

/// Whether a scanned file is a stored one as it was: the same file, of the same size and time.
pub open spec fn as_it_was(stored: Row, scanned: Row) -> bool {
    &&& same_cell(stored, scanned, Col::FileId)
    &&& same_cell(stored, scanned, Col::Size)
    &&& same_cell(stored, scanned, Col::Mtime)
}

/// Whether some row of a file of stored references is the scanned file as it was.
pub open spec fn stored_as_it_is(d: Data, refs: Seq<char>, scanned: Row) -> bool {
    exists|k: int| 0 <= k < (d.files)(refs).len() && as_it_was(#[trigger] (d.files)(refs)[k], scanned)
}

/// Whether some row of a scan is the stored file as it was.
pub open spec fn scanned_as_it_was(d: Data, scan: Seq<char>, stored: Row) -> bool {
    exists|k: int| 0 <= k < (d.files)(scan).len() && as_it_was(stored, #[trigger] (d.files)(scan)[k])
}

/// What is handed on of a scanned file.
pub open spec fn scanned_columns(row: Row) -> Row {
    map![
        Col::Path.name_text() => meaning::cell(row, Col::Path.name_text()),
        Col::FileId.name_text() => meaning::cell(row, Col::FileId.name_text()),
        Col::Size.name_text() => meaning::cell(row, Col::Size.name_text()),
        Col::Mtime.name_text() => meaning::cell(row, Col::Mtime.name_text()),
    ]
}

/// Whether each scanned row tells where its file is.
pub open spec fn paths_are_told(d: Data, scan: Seq<char>) -> bool {
    forall|k: int|
        0 <= k < (d.files)(scan).len() ==> !(meaning::cell(
            #[trigger] (d.files)(scan)[k],
            Col::Path.name_text(),
        ) is Null)
}

proof fn lemma_names()
    ensures
        Tbl::FileReferences.name_text() != Tbl::Scan.name_text(),
        Tbl::FileReferences.name_text() != Tbl::Locations.name_text(),
        Tbl::Scan.name_text() != Tbl::Locations.name_text(),
{
    reveal_strlit("file_references");
    reveal_strlit("scan");
    reveal_strlit("locations");
    assert("file_references"@.len() == 15);
    assert("scan"@.len() == 4);
    assert("locations"@.len() == 9);
}

/// The row of a table that is the last under its name.
proof fn lemma_last_named(s: Scope, name: Seq<char>, row: Row, c: Seq<char>)
    ensures
        meaning::cell_of(s.push((name, row)), name, c) == meaning::cell(row, c),
{
}

/// A row under another name hides nothing.
proof fn lemma_other_name(s: Scope, name: Seq<char>, row: Row, other: Seq<char>, c: Seq<char>)
    requires
        name != other,
    ensures
        meaning::cell_of(s.push((name, row)), other, c) == meaning::cell_of(s, other, c),
{
    assert(s.push((name, row)).drop_last() =~= s);
}

spec fn stored_and_scanned(stored: Row, scanned: Row) -> Scope {
    seq![(Tbl::FileReferences.name_text(), stored), (Tbl::Scan.name_text(), scanned)]
}

spec fn scanned_and_stored(scanned: Row, stored: Row) -> Scope {
    seq![(Tbl::Scan.name_text(), scanned), (Tbl::FileReferences.name_text(), stored)]
}

spec fn three_rows(stored: Row, scanned: Row, located: Row) -> Scope {
    seq![
        (Tbl::FileReferences.name_text(), stored),
        (Tbl::Scan.name_text(), scanned),
        (Tbl::Locations.name_text(), located),
    ]
}

proof fn lemma_cells(stored: Row, scanned: Row, located: Row, c: Seq<char>)
    ensures
        meaning::cell_of(
            meaning::one_row(Tbl::Scan.name_text(), scanned),
            Tbl::Scan.name_text(),
            c,
        ) == meaning::cell(scanned, c),
        meaning::cell_of(
            stored_and_scanned(stored, scanned),
            Tbl::FileReferences.name_text(),
            c,
        ) == meaning::cell(stored, c),
        meaning::cell_of(stored_and_scanned(stored, scanned), Tbl::Scan.name_text(), c)
            == meaning::cell(scanned, c),
        meaning::cell_of(
            scanned_and_stored(scanned, stored),
            Tbl::FileReferences.name_text(),
            c,
        ) == meaning::cell(stored, c),
        meaning::cell_of(scanned_and_stored(scanned, stored), Tbl::Scan.name_text(), c)
            == meaning::cell(scanned, c),
        meaning::cell_of(
            three_rows(stored, scanned, located),
            Tbl::FileReferences.name_text(),
            c,
        ) == meaning::cell(stored, c),
        meaning::cell_of(three_rows(stored, scanned, located), Tbl::Scan.name_text(), c)
            == meaning::cell(scanned, c),
        meaning::cell_of(three_rows(stored, scanned, located), Tbl::Locations.name_text(), c)
            == meaning::cell(located, c),
{
    lemma_names();
    let f = Tbl::FileReferences.name_text();
    let s = Tbl::Scan.name_text();
    let l = Tbl::Locations.name_text();
    let none = Seq::<(Seq<char>, Row)>::empty();
    assert(meaning::one_row(s, scanned) =~= none.push((s, scanned)));
    assert(stored_and_scanned(stored, scanned) =~= none.push((f, stored)).push((s, scanned)));
    assert(scanned_and_stored(scanned, stored) =~= none.push((s, scanned)).push((f, stored)));
    assert(three_rows(stored, scanned, located) =~= stored_and_scanned(stored, scanned).push(
        (l, located),
    ));
    lemma_last_named(none, s, scanned, c);
    lemma_last_named(none, f, stored, c);
    lemma_last_named(none.push((f, stored)), s, scanned, c);
    lemma_other_name(none.push((f, stored)), s, scanned, f, c);
    lemma_last_named(none.push((s, scanned)), f, stored, c);
    lemma_other_name(none.push((s, scanned)), f, stored, s, c);
    lemma_last_named(stored_and_scanned(stored, scanned), l, located, c);
    lemma_other_name(stored_and_scanned(stored, scanned), l, located, f, c);
    lemma_other_name(stored_and_scanned(stored, scanned), l, located, s, c);
}

/// A condition that compares a column of two tables, for rows of them.
proof fn lemma_same_column(l: Tbl, r: Tbl, c: Col, d: Data, s: Scope, a: Row, b: Row)
    requires
        meaning::cell_of(s, l.name_text(), c.name_text()) == meaning::cell(a, c.name_text()),
        meaning::cell_of(s, r.name_text(), c.name_text()) == meaning::cell(b, c.name_text()),
    ensures
        meaning::value(indexing::same_column(l, r, c), d, s) == meaning::equal_vals(
            meaning::cell(a, c.name_text()),
            meaning::cell(b, c.name_text()),
        ),
        meaning::is_true(meaning::value(indexing::same_column(l, r, c), d, s)) <==> same_cell(a, b, c),
{
    reveal_with_fuel(meaning::value, 3);
}

/// The conditions on size and time, for rows of the two tables.
proof fn lemma_unmodified(d: Data, s: Scope, stored: Row, scanned: Row)
    requires
        forall|c: Col|
            meaning::cell_of(s, Tbl::FileReferences.name_text(), #[trigger] c.name_text())
                == meaning::cell(stored, c.name_text()),
        forall|c: Col|
            meaning::cell_of(s, Tbl::Scan.name_text(), #[trigger] c.name_text()) == meaning::cell(
                scanned,
                c.name_text(),
            ),
    ensures
        meaning::is_true(
            meaning::value(indexing::unmodified(Tbl::FileReferences, Tbl::Scan), d, s),
        ) <==> same_cell(stored, scanned, Col::Size) && same_cell(stored, scanned, Col::Mtime),
        meaning::is_true(
            meaning::value(indexing::same_file(Tbl::FileReferences, Tbl::Scan), d, s),
        ) <==> same_cell(stored, scanned, Col::FileId),
{
    lemma_same_column(Tbl::FileReferences, Tbl::Scan, Col::Size, d, s, stored, scanned);
    lemma_same_column(Tbl::FileReferences, Tbl::Scan, Col::Mtime, d, s, stored, scanned);
    lemma_same_column(Tbl::FileReferences, Tbl::Scan, Col::FileId, d, s, stored, scanned);
}

/// What the inner query of the files to tag finds for a scanned row.
proof fn lemma_stored(d: Data, refs: Seq<char>, scanned: Row)
    ensures
        ({
            let stored = SelectTerm::nothing().with_plain(Term::Int(1)).with_from(
                indexing::rows_as(refs, Tbl::FileReferences),
            ).with_where(indexing::same_file(Tbl::FileReferences, Tbl::Scan)).with_where(
                indexing::unmodified(Tbl::FileReferences, Tbl::Scan),
            );
            meaning::value(
                Term::Exists(Box::new(stored)),
                d,
                meaning::one_row(Tbl::Scan.name_text(), scanned),
            ) == Val::Bool(stored_as_it_is(d, refs, scanned))
        }),
{
    let s = meaning::one_row(Tbl::Scan.name_text(), scanned);
    let q = SelectTerm::nothing().with_plain(Term::Int(1)).with_from(
        indexing::rows_as(refs, Tbl::FileReferences),
    ).with_where(indexing::same_file(Tbl::FileReferences, Tbl::Scan)).with_where(
        indexing::unmodified(Tbl::FileReferences, Tbl::Scan),
    );
    let rows = (d.files)(refs);
    assert(q.wheres[0] == indexing::same_file(Tbl::FileReferences, Tbl::Scan));
    assert(q.wheres[1] == indexing::unmodified(Tbl::FileReferences, Tbl::Scan));
    assert forall|row: Row| #[trigger] meaning::some_row(row) implies {
        let inner = meaning::one_row(Tbl::FileReferences.name_text(), row);
        &&& meaning::source_has(q.from[0], d, s, row) <==> rows.contains(row)
        &&& (forall|i: int|
            0 <= i < q.wheres.len() ==> meaning::is_true(
                meaning::value(#[trigger] q.wheres[i], d, s + inner),
            )) <==> as_it_was(row, scanned)
    } by {
        let inner = meaning::one_row(Tbl::FileReferences.name_text(), row);
        meaning::lemma_all_rows(refs, d, s, row);
        assert(s + inner =~= scanned_and_stored(scanned, row));
        assert forall|c: Col| true implies meaning::cell_of(
            s + inner,
            Tbl::FileReferences.name_text(),
            #[trigger] c.name_text(),
        ) == meaning::cell(row, c.name_text()) && meaning::cell_of(
            s + inner,
            Tbl::Scan.name_text(),
            c.name_text(),
        ) == meaning::cell(scanned, c.name_text()) by {
            lemma_cells(row, scanned, row, c.name_text());
        }
        lemma_unmodified(d, s + inner, row, scanned);
        assert(meaning::value(q.wheres[0], d, s + inner) == meaning::value(
            q.wheres[0],
            d,
            s + inner,
        ));
        assert(meaning::value(q.wheres[1], d, s + inner) == meaning::value(
            q.wheres[1],
            d,
            s + inner,
        ));
    }
    if stored_as_it_is(d, refs, scanned) {
        let k = choose|k: int| 0 <= k < rows.len() && as_it_was(#[trigger] rows[k], scanned);
        let row = rows[k];
        assert(meaning::some_row(row));
        let inner = meaning::one_row(Tbl::FileReferences.name_text(), row);
        let out = meaning::projected(q.items, d, s + inner, row);
        meaning::lemma_gives_one(q, d, s, out);
        assert(meaning::some_row(out) && meaning::gives(q, d, s, out));
    }
    if exists|out: Row| #[trigger] meaning::some_row(out) && meaning::gives(q, d, s, out) {
        let out = choose|out: Row| #[trigger]
            meaning::some_row(out) && meaning::gives(q, d, s, out);
        meaning::lemma_gives_one(q, d, s, out);
        let row = choose|row: Row|
            {
                let inner = meaning::one_row(meaning::name_of(q.from[0]), row);
                &&& #[trigger] meaning::some_row(row)
                &&& meaning::source_has(q.from[0], d, s, row)
                &&& forall|i: int|
                    0 <= i < q.wheres.len() ==> meaning::is_true(
                        meaning::value(#[trigger] q.wheres[i], d, s + inner),
                    )
                &&& out == meaning::projected(q.items, d, s + inner, row)
            };
        let k = choose|k: int| 0 <= k < rows.len() && rows[k] == row;
        assert(as_it_was(rows[k], scanned));
    }
}

proof fn lemma_four_items(q: SelectTerm, d: Data, s: Scope, row: Row, own: Row, t: Option<Seq<char>>)
    requires
        q.items =~= seq![
            ItemTerm::One(Term::Col(t, Col::Path.name_text()), None),
            ItemTerm::One(Term::Col(t, Col::FileId.name_text()), None),
            ItemTerm::One(Term::Col(t, Col::Size.name_text()), None),
            ItemTerm::One(Term::Col(t, Col::Mtime.name_text()), None),
        ],
        forall|c: Col|
            meaning::value(Term::Col(t, #[trigger] c.name_text()), d, s) == meaning::cell(
                row,
                c.name_text(),
            ),
    ensures
        meaning::projected(q.items, d, s, own) == scanned_columns(row),
{
    let none = Seq::<ItemTerm>::empty();
    let i0 = ItemTerm::One(Term::Col(t, Col::Path.name_text()), None);
    let i1 = ItemTerm::One(Term::Col(t, Col::FileId.name_text()), None);
    let i2 = ItemTerm::One(Term::Col(t, Col::Size.name_text()), None);
    let i3 = ItemTerm::One(Term::Col(t, Col::Mtime.name_text()), None);
    assert(q.items =~= none.push(i0).push(i1).push(i2).push(i3));
    meaning::lemma_projected_push(none, i0, d, s, own);
    meaning::lemma_projected_push(none.push(i0), i1, d, s, own);
    meaning::lemma_projected_push(none.push(i0).push(i1), i2, d, s, own);
    meaning::lemma_projected_push(none.push(i0).push(i1).push(i2), i3, d, s, own);
    assert(meaning::projected(q.items, d, s, own) =~= scanned_columns(row));
}

/// A scanned file is to be tagged exactly where no stored reference agrees with it in identity,
/// size and time. Of each, its path, identity, size and time are handed on.
pub proof fn law_to_tag_is_what_is_not_stored(scan: Seq<char>, refs: Seq<char>, d: Data, out: Row)
    ensures
        meaning::gives(indexing::to_tag_rows(scan, refs), d, seq![], out) <==> exists|k: int|
            0 <= k < (d.files)(scan).len() && !stored_as_it_is(
                d,
                refs,
                #[trigger] (d.files)(scan)[k],
            ) && out == scanned_columns((d.files)(scan)[k]),
{
    let q = indexing::to_tag_rows(scan, refs);
    let rows = (d.files)(scan);
    let none = Seq::<(Seq<char>, Row)>::empty();
    let name = Tbl::Scan.name_text();
    assert forall|row: Row| #[trigger] meaning::some_row(row) implies {
        let inner = meaning::one_row(name, row);
        &&& meaning::source_has(q.from[0], d, none, row) <==> rows.contains(row)
        &&& (forall|i: int|
            0 <= i < q.wheres.len() ==> meaning::is_true(
                meaning::value(#[trigger] q.wheres[i], d, none + inner),
            )) <==> !stored_as_it_is(d, refs, row)
        &&& meaning::projected(q.items, d, none + inner, row) == scanned_columns(row)
    } by {
        let inner = meaning::one_row(name, row);
        assert(none + inner =~= inner);
        meaning::lemma_all_rows(scan, d, none, row);
        lemma_stored(d, refs, row);
        assert(q.wheres.len() == 1);
        assert(meaning::value(q.wheres[0], d, inner) == Val::Bool(!stored_as_it_is(d, refs, row)));
        assert forall|c: Col| true implies meaning::value(
            Term::Col(Some(name), #[trigger] c.name_text()),
            d,
            inner,
        ) == meaning::cell(row, c.name_text()) by {
            lemma_cells(row, row, row, c.name_text());
        }
        lemma_four_items(q, d, inner, row, row, Some(name));
    }
    meaning::lemma_gives_one(q, d, none, out);
    if exists|k: int|
        0 <= k < rows.len() && !stored_as_it_is(d, refs, #[trigger] rows[k]) && out
            == scanned_columns(rows[k]) {
        let k = choose|k: int|
            0 <= k < rows.len() && !stored_as_it_is(d, refs, #[trigger] rows[k]) && out
                == scanned_columns(rows[k]);
        assert(meaning::some_row(rows[k]));
    }
    if meaning::gives(q, d, none, out) {
        let row = choose|row: Row|
            {
                let inner = meaning::one_row(meaning::name_of(q.from[0]), row);
                &&& #[trigger] meaning::some_row(row)
                &&& meaning::source_has(q.from[0], d, none, row)
                &&& forall|i: int|
                    0 <= i < q.wheres.len() ==> meaning::is_true(
                        meaning::value(#[trigger] q.wheres[i], d, none + inner),
                    )
                &&& out == meaning::projected(q.items, d, none + inner, row)
            };
        let k = choose|k: int| 0 <= k < rows.len() && rows[k] == row;
        assert(out == scanned_columns(rows[k]));
    }
}

/// Where nothing is stored yet, every scanned file is taken.
pub proof fn law_all_scanned_is_taken(scan: Seq<char>, d: Data, out: Row)
    ensures
        meaning::gives(indexing::all_scanned(scan), d, seq![], out) <==> exists|k: int|
            0 <= k < (d.files)(scan).len() && out == scanned_columns(
                #[trigger] (d.files)(scan)[k],
            ),
{
    let q = indexing::all_scanned(scan);
    let rows = (d.files)(scan);
    let none = Seq::<(Seq<char>, Row)>::empty();
    let name = Tbl::Scan.name_text();
    assert forall|row: Row| #[trigger] meaning::some_row(row) implies {
        let inner = meaning::one_row(name, row);
        &&& meaning::source_has(q.from[0], d, none, row) <==> rows.contains(row)
        &&& meaning::projected(q.items, d, none + inner, row) == scanned_columns(row)
    } by {
        let inner = meaning::one_row(name, row);
        assert(none + inner =~= inner);
        meaning::lemma_all_rows(scan, d, none, row);
        assert forall|c: Col| true implies meaning::value(
            Term::Col(None, #[trigger] c.name_text()),
            d,
            inner,
        ) == meaning::cell(row, c.name_text()) by {
            reveal_with_fuel(meaning::cell_in, 2);
            assert(inner.drop_last() =~= none);
        }
        lemma_four_items(q, d, inner, row, row, None);
    }
    meaning::lemma_gives_one(q, d, none, out);
    if exists|k: int| 0 <= k < rows.len() && out == scanned_columns(#[trigger] rows[k]) {
        let k = choose|k: int| 0 <= k < rows.len() && out == scanned_columns(#[trigger] rows[k]);
        assert(meaning::some_row(rows[k]));
    }
    if meaning::gives(q, d, none, out) {
        let row = choose|row: Row|
            {
                let inner = meaning::one_row(meaning::name_of(q.from[0]), row);
                &&& #[trigger] meaning::some_row(row)
                &&& meaning::source_has(q.from[0], d, none, row)
                &&& forall|i: int|
                    0 <= i < q.wheres.len() ==> meaning::is_true(
                        meaning::value(#[trigger] q.wheres[i], d, none + inner),
                    )
                &&& out == meaning::projected(q.items, d, none + inner, row)
            };
        let k = choose|k: int| 0 <= k < rows.len() && rows[k] == row;
        assert(out == scanned_columns(rows[k]));
    }
}

/// Whether a stored file was found again as it was: a reference, a scanned row that agrees with
/// it in identity, size and time, and the location of the same item.
pub open spec fn found(
    d: Data,
    scan: Seq<char>,
    refs: Seq<char>,
    locs: Seq<char>,
    stored: Row,
    scanned: Row,
    located: Row,
) -> bool {
    &&& (d.files)(refs).contains(stored)
    &&& (d.files)(scan).contains(scanned)
    &&& (d.files)(locs).contains(located)
    &&& as_it_was(stored, scanned)
    &&& same_cell(stored, located, Col::ItemId)
}

/// Whether a file lies elsewhere than before; both places are known.
pub open spec fn lies_elsewhere(located: Row, scanned: Row) -> bool {
    &&& !(meaning::cell(located, Col::Path.name_text()) is Null)
    &&& !(meaning::cell(scanned, Col::Path.name_text()) is Null)
    &&& meaning::cell(located, Col::Path.name_text()) != meaning::cell(
        scanned,
        Col::Path.name_text(),
    )
}

/// The rows that belong together in a query on files that were found again.
proof fn lemma_found(
    q: SelectTerm,
    start: SelectTerm,
    path_cond: Term,
    scan: Seq<char>,
    refs: Seq<char>,
    locs: Seq<char>,
    d: Data,
    stored: Row,
    scanned: Row,
    located: Row,
)
    requires
        start.from.len() == 0,
        start.joins.len() == 0,
        start.wheres.len() == 0,
        q == indexing::found_again(start, scan, refs, locs).with_where(path_cond).with_where(
            indexing::unmodified(Tbl::FileReferences, Tbl::Scan),
        ),
    ensures
        meaning::keeps(q, d, seq![], three_rows(stored, scanned, located)) <==> found(
            d,
            scan,
            refs,
            locs,
            stored,
            scanned,
            located,
        ) && meaning::is_true(
            meaning::value(path_cond, d, three_rows(stored, scanned, located)),
        ),
{
    let none = Seq::<(Seq<char>, Row)>::empty();
    let inner = three_rows(stored, scanned, located);
    assert(none + inner =~= inner);
    assert((none + inner.take(1)).push(inner[1]) =~= stored_and_scanned(stored, scanned));
    assert((none + inner.take(2)).push(inner[2]) =~= inner);
    meaning::lemma_all_rows(refs, d, none, stored);
    meaning::lemma_all_rows(scan, d, none, scanned);
    meaning::lemma_all_rows(locs, d, none, located);
    assert forall|c: Col| true implies {
        let n = #[trigger] c.name_text();
        &&& meaning::cell_of(inner, Tbl::FileReferences.name_text(), n) == meaning::cell(stored, n)
        &&& meaning::cell_of(inner, Tbl::Scan.name_text(), n) == meaning::cell(scanned, n)
        &&& meaning::cell_of(inner, Tbl::Locations.name_text(), n) == meaning::cell(located, n)
        &&& meaning::cell_of(
            stored_and_scanned(stored, scanned),
            Tbl::FileReferences.name_text(),
            n,
        ) == meaning::cell(stored, n)
        &&& meaning::cell_of(stored_and_scanned(stored, scanned), Tbl::Scan.name_text(), n)
            == meaning::cell(scanned, n)
    } by {
        lemma_cells(stored, scanned, located, c.name_text());
    }
    lemma_unmodified(d, inner, stored, scanned);
    lemma_unmodified(d, stored_and_scanned(stored, scanned), stored, scanned);
    lemma_same_column(
        Tbl::FileReferences,
        Tbl::Locations,
        Col::ItemId,
        d,
        inner,
        stored,
        located,
    );
    assert(q.wheres[0] == path_cond);
    assert(q.wheres[1] == indexing::unmodified(Tbl::FileReferences, Tbl::Scan));
    assert(q.from[0] == indexing::rows_as(refs, Tbl::FileReferences));
    assert(q.joins[0].0 is Inner && q.joins[1].0 is Inner);
    assert(q.joins[0].1 == schema::all_rows(scan));
    assert(q.joins[1].1 == schema::all_rows(locs));
    if meaning::joined_up(q, d, none, inner) {
        assert(meaning::source_has(q.from[0], d, none, inner[0].1));
        assert(meaning::gives(q.joins[0].1, d, none, inner[1].1));
        assert(meaning::gives(q.joins[1].1, d, none, inner[2].1));
    }
    if found(d, scan, refs, locs, stored, scanned, located) {
        assert(meaning::joined_up(q, d, none, inner));
    }
}

proof fn lemma_three_sources(q: SelectTerm, d: Data, inner: Scope)
    requires
        q.from.len() == 1,
        q.joins.len() == 2,
        meaning::name_of(q.from[0]) == Tbl::FileReferences.name_text(),
        q.joins[0].2 == Tbl::Scan.name_text(),
        q.joins[1].2 == Tbl::Locations.name_text(),
        meaning::joined_up(q, d, seq![], inner),
    ensures
        inner == three_rows(inner[0].1, inner[1].1, inner[2].1),
{
    assert(inner[0].0 == meaning::name_of(q.from[0]));
    assert(q.joins[0].2 == inner[1].0);
    assert(q.joins[1].2 == inner[2].0);
    assert(inner =~= three_rows(inner[0].1, inner[1].1, inner[2].1));
}

/// A stored file counts as moved exactly where it was found again as it was and lies elsewhere
/// than before: its item is given with the path where it is now.
pub proof fn law_moved_lies_elsewhere(
    scan: Seq<char>,
    refs: Seq<char>,
    locs: Seq<char>,
    d: Data,
    out: Row,
)
    ensures
        meaning::gives(indexing::moved_rows(scan, refs, locs), d, seq![], out) <==> exists|
            stored: Row,
            scanned: Row,
            located: Row,
        |
            {
                &&& #[trigger] found(d, scan, refs, locs, stored, scanned, located)
                &&& lies_elsewhere(located, scanned)
                &&& out == map![
                    Col::ItemId.name_text() => meaning::cell(stored, Col::ItemId.name_text()),
                    Col::Path.name_text() => meaning::cell(scanned, Col::Path.name_text()),
                ]
            },
{
    let q = indexing::moved_rows(scan, refs, locs);
    let start = SelectTerm::nothing().with_plain(
        tags::col_of(Tbl::FileReferences, Col::ItemId),
    ).with_plain(tags::col_of(Tbl::Scan, Col::Path));
    let differ = Term::Ne(
        Box::new(tags::col_of(Tbl::Locations, Col::Path)),
        Box::new(tags::col_of(Tbl::Scan, Col::Path)),
    );
    let none = Seq::<(Seq<char>, Row)>::empty();
    assert forall|stored: Row, scanned: Row, located: Row| #[trigger]
        meaning::some_rows(three_rows(stored, scanned, located)) implies {
        let inner = three_rows(stored, scanned, located);
        &&& meaning::keeps(q, d, none, inner) <==> found(
            d,
            scan,
            refs,
            locs,
            stored,
            scanned,
            located,
        ) && lies_elsewhere(located, scanned)
        &&& meaning::projected(q.items, d, none + inner, inner[0].1) == map![
            Col::ItemId.name_text() => meaning::cell(stored, Col::ItemId.name_text()),
            Col::Path.name_text() => meaning::cell(scanned, Col::Path.name_text()),
        ]
    } by {
        let inner = three_rows(stored, scanned, located);
        assert(none + inner =~= inner);
        lemma_found(q, start, differ, scan, refs, locs, d, stored, scanned, located);
        lemma_cells(stored, scanned, located, Col::Path.name_text());
        lemma_cells(stored, scanned, located, Col::ItemId.name_text());
        assert(meaning::is_true(meaning::value(differ, d, inner)) <==> lies_elsewhere(
            located,
            scanned,
        )) by {
            reveal_with_fuel(meaning::value, 3);
        }
        let i0 = ItemTerm::One(tags::col_of(Tbl::FileReferences, Col::ItemId), None);
        let i1 = ItemTerm::One(tags::col_of(Tbl::Scan, Col::Path), None);
        let empty = Seq::<ItemTerm>::empty();
        assert(q.items =~= empty.push(i0).push(i1));
        meaning::lemma_projected_push(empty, i0, d, inner, stored);
        meaning::lemma_projected_push(empty.push(i0), i1, d, inner, stored);
        assert(meaning::projected(q.items, d, inner, stored) =~= map![
            Col::ItemId.name_text() => meaning::cell(stored, Col::ItemId.name_text()),
            Col::Path.name_text() => meaning::cell(scanned, Col::Path.name_text()),
        ]);
    }
    if meaning::gives(q, d, none, out) {
        let inner = choose|inner: Scope|
            #[trigger] meaning::some_rows(inner) && meaning::keeps(q, d, none, inner) && out
                == meaning::projected(
                q.items,
                d,
                none + inner,
                if inner.len() > 0 {
                    inner[0].1
                } else {
                    Map::empty()
                },
            );
        lemma_three_sources(q, d, inner);
        assert(meaning::some_rows(three_rows(inner[0].1, inner[1].1, inner[2].1)));
        assert(found(d, scan, refs, locs, inner[0].1, inner[1].1, inner[2].1));
    }
    assert forall|stored: Row, scanned: Row, located: Row|
        {
            &&& #[trigger] found(d, scan, refs, locs, stored, scanned, located)
            &&& lies_elsewhere(located, scanned)
            &&& out == map![
                Col::ItemId.name_text() => meaning::cell(stored, Col::ItemId.name_text()),
                Col::Path.name_text() => meaning::cell(scanned, Col::Path.name_text()),
            ]
        } implies meaning::gives(q, d, none, out) by {
        let inner = three_rows(stored, scanned, located);
        assert(meaning::some_rows(inner) && meaning::keeps(q, d, none, inner));
    }
}

/// A stored file counts as unchanged exactly where it was found again as it was and lies where
/// it lay: its item is given.
pub proof fn law_unchanged_lies_where_it_lay(
    scan: Seq<char>,
    refs: Seq<char>,
    locs: Seq<char>,
    d: Data,
    out: Row,
)
    ensures
        meaning::gives(indexing::unchanged_rows(scan, refs, locs), d, seq![], out) <==> exists|
            stored: Row,
            scanned: Row,
            located: Row,
        |
            {
                &&& #[trigger] found(d, scan, refs, locs, stored, scanned, located)
                &&& same_cell(located, scanned, Col::Path)
                &&& out == map![
                    Col::ItemId.name_text() => meaning::cell(stored, Col::ItemId.name_text()),
                ]
            },
{
    let q = indexing::unchanged_rows(scan, refs, locs);
    let start = SelectTerm::nothing().with_plain(tags::col_of(Tbl::FileReferences, Col::ItemId));
    let agree = indexing::same_column(Tbl::Locations, Tbl::Scan, Col::Path);
    let none = Seq::<(Seq<char>, Row)>::empty();
    assert forall|stored: Row, scanned: Row, located: Row| #[trigger]
        meaning::some_rows(three_rows(stored, scanned, located)) implies {
        let inner = three_rows(stored, scanned, located);
        &&& meaning::keeps(q, d, none, inner) <==> found(
            d,
            scan,
            refs,
            locs,
            stored,
            scanned,
            located,
        ) && same_cell(located, scanned, Col::Path)
        &&& meaning::projected(q.items, d, none + inner, inner[0].1) == map![
            Col::ItemId.name_text() => meaning::cell(stored, Col::ItemId.name_text()),
        ]
    } by {
        let inner = three_rows(stored, scanned, located);
        assert(none + inner =~= inner);
        lemma_found(q, start, agree, scan, refs, locs, d, stored, scanned, located);
        lemma_cells(stored, scanned, located, Col::Path.name_text());
        lemma_cells(stored, scanned, located, Col::ItemId.name_text());
        lemma_same_column(Tbl::Locations, Tbl::Scan, Col::Path, d, inner, located, scanned);
        let i0 = ItemTerm::One(tags::col_of(Tbl::FileReferences, Col::ItemId), None);
        let empty = Seq::<ItemTerm>::empty();
        assert(q.items =~= empty.push(i0));
        meaning::lemma_projected_push(empty, i0, d, inner, stored);
        assert(meaning::projected(q.items, d, inner, stored) =~= map![
            Col::ItemId.name_text() => meaning::cell(stored, Col::ItemId.name_text()),
        ]);
    }
    if meaning::gives(q, d, none, out) {
        let inner = choose|inner: Scope|
            #[trigger] meaning::some_rows(inner) && meaning::keeps(q, d, none, inner) && out
                == meaning::projected(
                q.items,
                d,
                none + inner,
                if inner.len() > 0 {
                    inner[0].1
                } else {
                    Map::empty()
                },
            );
        lemma_three_sources(q, d, inner);
        assert(meaning::some_rows(three_rows(inner[0].1, inner[1].1, inner[2].1)));
        assert(found(d, scan, refs, locs, inner[0].1, inner[1].1, inner[2].1));
    }
    assert forall|stored: Row, scanned: Row, located: Row|
        {
            &&& #[trigger] found(d, scan, refs, locs, stored, scanned, located)
            &&& same_cell(located, scanned, Col::Path)
            &&& out == map![
                Col::ItemId.name_text() => meaning::cell(stored, Col::ItemId.name_text()),
            ]
        } implies meaning::gives(q, d, none, out) by {
        let inner = three_rows(stored, scanned, located);
        assert(meaning::some_rows(inner) && meaning::keeps(q, d, none, inner));
    }
}

/// A stored file counts as deleted exactly where no scanned file agrees with it in identity,
/// size and time: its item is given.
pub proof fn law_deleted_is_what_was_not_scanned(
    scan: Seq<char>,
    refs: Seq<char>,
    d: Data,
    out: Row,
)
    requires
        paths_are_told(d, scan),
    ensures
        meaning::gives(indexing::deleted_rows(scan, refs), d, seq![], out) <==> exists|k: int|
            0 <= k < (d.files)(refs).len() && !scanned_as_it_was(
                d,
                scan,
                #[trigger] (d.files)(refs)[k],
            ) && out == map![
                Col::ItemId.name_text() => meaning::cell(
                    (d.files)(refs)[k],
                    Col::ItemId.name_text(),
                ),
            ],
{
    let q = indexing::deleted_rows(scan, refs);
    let none = Seq::<(Seq<char>, Row)>::empty();
    let nothing = Map::<Seq<char>, Val>::empty();
    let stores = (d.files)(refs);
    let scans = (d.files)(scan);
    let on = Term::And(
        Box::new(indexing::same_file(Tbl::FileReferences, Tbl::Scan)),
        Box::new(indexing::unmodified(Tbl::FileReferences, Tbl::Scan)),
    );
    let free = Term::IsNull(Box::new(tags::col_of(Tbl::Scan, Col::Path)));
    let item = Col::ItemId.name_text();
    assert(q.wheres[0] == free);
    assert(q.from[0] == indexing::rows_as(refs, Tbl::FileReferences));
    assert(q.joins[0].0 is Left && q.joins[0].1 == schema::all_rows(scan) && q.joins[0].3 == on);
    assert forall|stored: Row, scanned: Row| #[trigger]
        meaning::some_rows(stored_and_scanned(stored, scanned)) implies {
        let inner = stored_and_scanned(stored, scanned);
        &&& meaning::is_true(meaning::value(on, d, inner)) <==> as_it_was(stored, scanned)
        &&& meaning::is_true(meaning::value(free, d, none + inner)) <==> meaning::cell(
            scanned,
            Col::Path.name_text(),
        ) is Null
        &&& meaning::projected(q.items, d, none + inner, stored) == map![
            item => meaning::cell(stored, item),
        ]
        &&& (none + inner.take(1)).push((Tbl::Scan.name_text(), scanned)) == inner
        &&& none + inner == inner
    } by {
        let inner = stored_and_scanned(stored, scanned);
        assert(none + inner =~= inner);
        assert((none + inner.take(1)).push((Tbl::Scan.name_text(), scanned)) =~= inner);
        assert forall|c: Col| true implies meaning::cell_of(
            inner,
            Tbl::FileReferences.name_text(),
            #[trigger] c.name_text(),
        ) == meaning::cell(stored, c.name_text()) && meaning::cell_of(
            inner,
            Tbl::Scan.name_text(),
            c.name_text(),
        ) == meaning::cell(scanned, c.name_text()) by {
            lemma_cells(stored, scanned, scanned, c.name_text());
        }
        lemma_unmodified(d, inner, stored, scanned);
        lemma_cells(stored, scanned, scanned, Col::Path.name_text());
        lemma_cells(stored, scanned, scanned, item);
        assert(meaning::value(free, d, inner) == Val::Bool(
            meaning::cell(scanned, Col::Path.name_text()) is Null,
        )) by {
            reveal_with_fuel(meaning::value, 2);
        }
        let i0 = ItemTerm::One(tags::col_of(Tbl::FileReferences, Col::ItemId), None);
        let empty = Seq::<ItemTerm>::empty();
        assert(q.items =~= empty.push(i0));
        meaning::lemma_projected_push(empty, i0, d, inner, stored);
        assert(meaning::projected(q.items, d, inner, stored) =~= map![
            item => meaning::cell(stored, item),
        ]);
    }
    assert forall|stored: Row| #[trigger] meaning::some_row(stored) implies (meaning::keeps(
        q,
        d,
        none,
        stored_and_scanned(stored, nothing),
    ) <==> stores.contains(stored) && !scanned_as_it_was(d, scan, stored)) by {
        let inner = stored_and_scanned(stored, nothing);
        assert(meaning::some_rows(inner));
        meaning::lemma_all_rows(refs, d, none, stored);
        assert(!as_it_was(stored, nothing));
        assert((none + inner.take(1)).push(inner[1]) == inner);
        assert forall|row: Row| #[trigger] meaning::some_row(row) implies {
            &&& meaning::gives(q.joins[0].1, d, none, row) <==> scans.contains(row)
            &&& meaning::is_true(
                meaning::value(on, d, (none + inner.take(1)).push((q.joins[0].2, row))),
            ) <==> as_it_was(stored, row)
        } by {
            meaning::lemma_all_rows(scan, d, none, row);
            assert(meaning::some_rows(stored_and_scanned(stored, row)));
            assert((none + inner.take(1)).push((q.joins[0].2, row)) =~= stored_and_scanned(
                stored,
                row,
            ));
        }
        if scanned_as_it_was(d, scan, stored) {
            let k = choose|k: int| 0 <= k < scans.len() && as_it_was(stored, #[trigger] scans[k]);
            assert(scans.contains(scans[k]));
            assert(meaning::some_row(scans[k]));
            if meaning::joined_up(q, d, none, inner) {
                assert(q.joins[0].2 == inner[1].0);
                assert(false);
            }
        } else if stores.contains(stored) {
            assert(meaning::joined_up(q, d, none, inner));
        } else {
            if meaning::joined_up(q, d, none, inner) {
                assert(meaning::source_has(q.from[0], d, none, inner[0].1));
                assert(false);
            }
        }
    }
    if meaning::gives(q, d, none, out) {
        let inner = choose|inner: Scope|
            #[trigger] meaning::some_rows(inner) && meaning::keeps(q, d, none, inner) && out
                == meaning::projected(
                q.items,
                d,
                none + inner,
                if inner.len() > 0 {
                    inner[0].1
                } else {
                    Map::empty()
                },
            );
        let stored = inner[0].1;
        let scanned = inner[1].1;
        assert(inner[0].0 == meaning::name_of(q.from[0]));
        assert(q.joins[0].2 == inner[1].0);
        assert(inner =~= stored_and_scanned(stored, scanned));
        assert(meaning::some_rows(stored_and_scanned(stored, scanned)));
        meaning::lemma_all_rows(scan, d, none, scanned);
        assert(meaning::is_true(meaning::value(q.wheres[0], d, none + inner)));
        assert(!scans.contains(scanned)) by {
            if scans.contains(scanned) {
                let k = choose|k: int| 0 <= k < scans.len() && scans[k] == scanned;
                assert(!(meaning::cell(scans[k], Col::Path.name_text()) is Null));
            }
        }
        assert(scanned == nothing);
        assert(meaning::some_row(stored));
        let k = choose|k: int| 0 <= k < stores.len() && stores[k] == stored;
        assert(stores[k] == stored);
    }
    if exists|k: int|
        0 <= k < stores.len() && !scanned_as_it_was(d, scan, #[trigger] stores[k]) && out == map![
            item => meaning::cell(stores[k], item),
        ] {
        let k = choose|k: int|
            0 <= k < stores.len() && !scanned_as_it_was(d, scan, #[trigger] stores[k]) && out
                == map![item => meaning::cell(stores[k], item)];
        let stored = stores[k];
        assert(stores.contains(stored));
        assert(meaning::some_row(stored));
        let inner = stored_and_scanned(stored, nothing);
        assert(meaning::some_rows(inner) && meaning::keeps(q, d, none, inner));
        assert(inner[0].1 == stored);
        assert(meaning::gives(q, d, none, out));
    }
}

/// Every scanned file is either to be tagged or stored as it is, never both.
pub proof fn law_scanned_is_tagged_or_stored(
    scan: Seq<char>,
    refs: Seq<char>,
    d: Data,
    k: int,
)
    requires
        0 <= k < (d.files)(scan).len(),
    ensures
        stored_as_it_is(d, refs, (d.files)(scan)[k]) || meaning::gives(
            indexing::to_tag_rows(scan, refs),
            d,
            seq![],
            scanned_columns((d.files)(scan)[k]),
        ),
        stored_as_it_is(d, refs, (d.files)(scan)[k]) ==> !meaning::gives(
            indexing::to_tag_rows(scan, refs),
            d,
            seq![],
            scanned_columns((d.files)(scan)[k]),
        ),
{
    let row = (d.files)(scan)[k];
    law_to_tag_is_what_is_not_stored(scan, refs, d, scanned_columns(row));
    let q = indexing::to_tag_rows(scan, refs);
    if meaning::gives(q, d, seq![], scanned_columns(row)) {
        let j = choose|j: int|
            0 <= j < (d.files)(scan).len() && !stored_as_it_is(
                d,
                refs,
                #[trigger] (d.files)(scan)[j],
            ) && scanned_columns(row) == scanned_columns((d.files)(scan)[j]);
        let other = (d.files)(scan)[j];
        assert forall|c: Col| c == Col::FileId || c == Col::Size || c == Col::Mtime implies
            meaning::cell(other, #[trigger] c.name_text()) == meaning::cell(row, c.name_text()) by {
            lemma_column_names();
            assert(scanned_columns(row)[c.name_text()] == meaning::cell(row, c.name_text()));
            assert(scanned_columns(other)[c.name_text()] == meaning::cell(other, c.name_text()));
        }
        if stored_as_it_is(d, refs, row) {
            let i = choose|i: int|
                0 <= i < (d.files)(refs).len() && as_it_was(#[trigger] (d.files)(refs)[i], row);
            assert(as_it_was((d.files)(refs)[i], other));
        }
    }
}

proof fn lemma_column_names()
    ensures
        Col::Path.name_text() != Col::FileId.name_text(),
        Col::Path.name_text() != Col::Size.name_text(),
        Col::Path.name_text() != Col::Mtime.name_text(),
        Col::FileId.name_text() != Col::Size.name_text(),
        Col::FileId.name_text() != Col::Mtime.name_text(),
        Col::Size.name_text() != Col::Mtime.name_text(),
{
    reveal_strlit("path");
    reveal_strlit("file_id");
    reveal_strlit("size");
    reveal_strlit("mtime");
    assert("path"@[0] == 'p');
    assert("size"@[0] == 's');
    assert("file_id"@.len() == 7);
    assert("mtime"@.len() == 5);
}

/// A stored file that counts as deleted while its identity is scanned is to be tagged anew, so
/// that no scanned file is lost.
pub proof fn law_deleted_and_scanned_is_tagged(
    scan: Seq<char>,
    refs: Seq<char>,
    d: Data,
    i: int,
    k: int,
)
    requires
        0 <= i < (d.files)(refs).len(),
        0 <= k < (d.files)(scan).len(),
        !scanned_as_it_was(d, scan, (d.files)(refs)[i]),
        same_cell((d.files)(refs)[i], (d.files)(scan)[k], Col::FileId),
        forall|j: int|
            0 <= j < (d.files)(refs).len() && same_cell(
                (d.files)(refs)[i],
                #[trigger] (d.files)(refs)[j],
                Col::FileId,
            ) ==> j == i,
    ensures
        meaning::gives(
            indexing::to_tag_rows(scan, refs),
            d,
            seq![],
            scanned_columns((d.files)(scan)[k]),
        ),
{
    let row = (d.files)(scan)[k];
    law_scanned_is_tagged_or_stored(scan, refs, d, k);
    if stored_as_it_is(d, refs, row) {
        let j = choose|j: int|
            0 <= j < (d.files)(refs).len() && as_it_was(#[trigger] (d.files)(refs)[j], row);
        assert(same_cell((d.files)(refs)[i], (d.files)(refs)[j], Col::FileId));
        assert(as_it_was((d.files)(refs)[i], (d.files)(scan)[k]));
    }
}

/// A stored file that was found again is either moved or unchanged, by whether it lies where it
/// lay.
pub proof fn law_found_again_is_moved_or_unchanged(
    scan: Seq<char>,
    refs: Seq<char>,
    locs: Seq<char>,
    d: Data,
    stored: Row,
    scanned: Row,
    located: Row,
)
    requires
        found(d, scan, refs, locs, stored, scanned, located),
        !(meaning::cell(located, Col::Path.name_text()) is Null),
        !(meaning::cell(scanned, Col::Path.name_text()) is Null),
    ensures
        if meaning::cell(located, Col::Path.name_text()) == meaning::cell(
            scanned,
            Col::Path.name_text(),
        ) {
            meaning::gives(
                indexing::unchanged_rows(scan, refs, locs),
                d,
                seq![],
                map![Col::ItemId.name_text() => meaning::cell(stored, Col::ItemId.name_text())],
            )
        } else {
            meaning::gives(
                indexing::moved_rows(scan, refs, locs),
                d,
                seq![],
                map![
                    Col::ItemId.name_text() => meaning::cell(stored, Col::ItemId.name_text()),
                    Col::Path.name_text() => meaning::cell(scanned, Col::Path.name_text()),
                ],
            )
        },
{
    law_unchanged_lies_where_it_lay(
        scan,
        refs,
        locs,
        d,
        map![Col::ItemId.name_text() => meaning::cell(stored, Col::ItemId.name_text())],
    );
    law_moved_lies_elsewhere(
        scan,
        refs,
        locs,
        d,
        map![
            Col::ItemId.name_text() => meaning::cell(stored, Col::ItemId.name_text()),
            Col::Path.name_text() => meaning::cell(scanned, Col::Path.name_text()),
        ],
    );
}

/// Whether a stored row stays, by the id of its item.
pub open spec fn stays(keep: Keep, id: int) -> bool {
    match keep {
        Keep::Except(ids) => !(exists|i: int| 0 <= i < ids@.len() && #[trigger] ids@[i] == id),
        Keep::Only(ids) => exists|i: int| 0 <= i < ids@.len() && #[trigger] ids@[i] == id,
    }
}

/// After a merge, a stored row is there exactly where its item is one of those whose rows stay;
/// all rows that are at hand are added, and nothing else.
pub proof fn law_merging_keeps_and_adds(
    file: Seq<char>,
    table: Tbl,
    keep: Keep,
    d: Data,
    row: Row,
    id: int,
)
    requires
        meaning::cell(row, Col::ItemId.name_text()) == Val::Int(id),
    ensures
        ({
            let q = indexing::merged_rows(Some(file), table, keep);
            &&& meaning::keeps(q, d, seq![], meaning::one_row("src"@, row)) <==> (d.files)(
                file,
            ).contains(row) && stays(keep, id)
            &&& q.items == seq![ItemTerm::All]
            &&& q.unions.len() == 1
            &&& meaning::keeps(
                q.unions[0].1,
                d,
                seq![],
                meaning::one_row(table.name_text(), row),
            ) <==> (d.tables)(table.name_text()).contains(row)
            &&& q.unions[0].1 == indexing::merged_rows(None, table, keep)
        }),
{
    let q = indexing::merged_rows(Some(file), table, keep);
    let none = Seq::<(Seq<char>, Row)>::empty();
    let inner = meaning::one_row("src"@, row);
    assert(none + inner =~= inner);
    assert(q.items =~= seq![ItemTerm::All]);
    meaning::lemma_own_cell("src"@, row, Col::ItemId.name_text());
    meaning::lemma_one_source(q, d, none, inner);
    let column = Term::Col(None, Col::ItemId.name_text());
    assert(meaning::value(column, d, inner) == Val::Int(id));
    match keep {
        Keep::Except(ids) => {
            if ids@.len() > 0 {
                let cond = Term::NotIn(Box::new(column), statement::int_terms(ids@));
                assert(q.wheres =~= seq![cond]);
                assert(q.wheres[0] == cond);
                meaning::lemma_among_ints(id, ids@, d, inner);
                assert(meaning::value(cond, d, inner) == meaning::not_val(
                    meaning::among(Val::Int(id), statement::int_terms(ids@), d, inner),
                ));
            } else {
                assert(q.wheres.len() == 0);
            }
        },
        Keep::Only(ids) => {
            if ids@.len() > 0 {
                let cond = Term::In(Box::new(column), statement::int_terms(ids@));
                assert(q.wheres =~= seq![cond]);
                assert(q.wheres[0] == cond);
                meaning::lemma_among_ints(id, ids@, d, inner);
                assert(meaning::value(cond, d, inner) == meaning::among(
                    Val::Int(id),
                    statement::int_terms(ids@),
                    d,
                    inner,
                ));
            } else {
                let never = Term::Eq(Box::new(Term::Int(1)), Box::new(Term::Int(0)));
                assert(q.wheres =~= seq![never]);
                assert(q.wheres[0] == never);
                assert(!meaning::is_true(meaning::value(never, d, inner))) by {
                    reveal_with_fuel(meaning::value, 3);
                }
            }
        },
    }
    let more = meaning::one_row(table.name_text(), row);
    assert(none + more =~= more);
    meaning::lemma_one_source(q.unions[0].1, d, none, more);
}

/// Whether a stored row is the item that another row asks for: of the same kind and content.
pub open spec fn same_item(asked: Row, stored: Row) -> bool {
    same_cell(asked, stored, Col::ItemKind) && same_cell(asked, stored, Col::Content)
}

spec fn asked_and_stored(asked: Row, stored: Row) -> Scope {
    seq![(Tbl::Item.name_text(), asked), (Tbl::ItemReferences.name_text(), stored)]
}

proof fn lemma_asked_cells(asked: Row, stored: Row, c: Seq<char>)
    ensures
        meaning::cell_of(asked_and_stored(asked, stored), Tbl::Item.name_text(), c)
            == meaning::cell(asked, c),
        meaning::cell_of(asked_and_stored(asked, stored), Tbl::ItemReferences.name_text(), c)
            == meaning::cell(stored, c),
{
    let a = Tbl::Item.name_text();
    let b = Tbl::ItemReferences.name_text();
    reveal_strlit("item");
    reveal_strlit("item_references");
    assert(a.len() != b.len());
    let none = Seq::<(Seq<char>, Row)>::empty();
    assert(asked_and_stored(asked, stored) =~= none.push((a, asked)).push((b, stored)));
    lemma_last_named(none, a, asked, c);
    lemma_last_named(none.push((a, asked)), b, stored, c);
    lemma_other_name(none.push((a, asked)), b, stored, a, c);
}

/// An item that is asked for is new exactly where no stored item has its kind and content.
pub proof fn law_new_items_are_not_stored(
    candidates: SelectTerm,
    items: Seq<char>,
    d: Data,
    asked: Row,
)
    requires
        forall|k: int|
            0 <= k < (d.files)(items).len() ==> !(meaning::cell(
                #[trigger] (d.files)(items)[k],
                Col::ItemId.name_text(),
            ) is Null),
    ensures
        (exists|stored: Row|
            #[trigger] meaning::some_row(stored) && meaning::keeps(
                indexing::new_items(candidates, items),
                d,
                seq![],
                seq![(Tbl::Item.name_text(), asked), (Tbl::ItemReferences.name_text(), stored)],
            )) <==> meaning::gives(candidates, d, seq![], asked) && !(exists|k: int|
            0 <= k < (d.files)(items).len() && same_item(asked, #[trigger] (d.files)(items)[k])),
{
    let q = indexing::new_items(candidates, items);
    let none = Seq::<(Seq<char>, Row)>::empty();
    let nothing = Map::<Seq<char>, Val>::empty();
    let rows = (d.files)(items);
    let on = Term::And(
        Box::new(indexing::same_column(Tbl::Item, Tbl::ItemReferences, Col::ItemKind)),
        Box::new(indexing::same_column(Tbl::Item, Tbl::ItemReferences, Col::Content)),
    );
    let free = Term::IsNull(Box::new(tags::col_of(Tbl::ItemReferences, Col::ItemId)));
    assert(q.wheres[0] == free);
    assert(q.from[0] == FromTerm::Select(Box::new(candidates), Tbl::Item.name_text()));
    assert(q.joins[0].0 is Left && q.joins[0].1 == schema::all_rows(items) && q.joins[0].3 == on);
    assert forall|stored: Row| #[trigger] meaning::some_row(stored) implies {
        let inner = asked_and_stored(asked, stored);
        &&& none + inner == inner
        &&& (none + inner.take(1)).push((Tbl::ItemReferences.name_text(), stored)) == inner
        &&& meaning::is_true(meaning::value(on, d, inner)) <==> same_item(asked, stored)
        &&& meaning::is_true(meaning::value(free, d, inner)) <==> meaning::cell(
            stored,
            Col::ItemId.name_text(),
        ) is Null
        &&& meaning::gives(schema::all_rows(items), d, none, stored) <==> rows.contains(stored)
    } by {
        let inner = asked_and_stored(asked, stored);
        assert(none + inner =~= inner);
        assert((none + inner.take(1)).push((Tbl::ItemReferences.name_text(), stored)) =~= inner);
        lemma_asked_cells(asked, stored, Col::ItemKind.name_text());
        lemma_asked_cells(asked, stored, Col::Content.name_text());
        lemma_asked_cells(asked, stored, Col::ItemId.name_text());
        lemma_same_column(Tbl::Item, Tbl::ItemReferences, Col::ItemKind, d, inner, asked, stored);
        lemma_same_column(Tbl::Item, Tbl::ItemReferences, Col::Content, d, inner, asked, stored);
        assert(meaning::value(free, d, inner) == Val::Bool(
            meaning::cell(stored, Col::ItemId.name_text()) is Null,
        )) by {
            reveal_with_fuel(meaning::value, 2);
        }
        meaning::lemma_all_rows(items, d, none, stored);
    }
    let there = exists|k: int| 0 <= k < rows.len() && same_item(asked, #[trigger] rows[k]);
    let empty = asked_and_stored(asked, nothing);
    assert(meaning::some_row(nothing));
    assert(!same_item(asked, nothing));
    assert forall|row: Row| #[trigger] meaning::some_row(row) implies (empty.take(1)
        == asked_and_stored(asked, row).take(1)) by {
        assert(empty.take(1) =~= asked_and_stored(asked, row).take(1));
    }
    if meaning::gives(candidates, d, none, asked) && !there {
        assert forall|row: Row| #[trigger]
            meaning::some_row(row) && meaning::gives(q.joins[0].1, d, none, row) implies !meaning::is_true(
            meaning::value(on, d, (none + empty.take(1)).push((q.joins[0].2, row))),
        ) by {
            assert(!same_item(asked, row)) by {
                if same_item(asked, row) {
                    let k = choose|k: int| 0 <= k < rows.len() && rows[k] == row;
                    assert(same_item(asked, rows[k]));
                }
            }
        }
        assert(meaning::joined_up(q, d, none, empty));
        assert(meaning::keeps(q, d, none, empty));
    }
    assert forall|stored: Row| #[trigger]
        meaning::some_row(stored) && meaning::keeps(
            q,
            d,
            none,
            asked_and_stored(asked, stored),
        ) implies meaning::gives(candidates, d, none, asked) && !there by {
        let inner = asked_and_stored(asked, stored);
        assert(meaning::source_has(q.from[0], d, none, inner[0].1));
        assert(q.joins[0].2 == inner[1].0);
        assert(meaning::is_true(meaning::value(q.wheres[0], d, none + inner)));
        assert(!rows.contains(stored)) by {
            if rows.contains(stored) {
                let k = choose|k: int| 0 <= k < rows.len() && rows[k] == stored;
                assert(!(meaning::cell(rows[k], Col::ItemId.name_text()) is Null));
            }
        }
        if there {
            let k = choose|k: int| 0 <= k < rows.len() && same_item(asked, #[trigger] rows[k]);
            assert(meaning::some_row(rows[k]));
            assert(rows.contains(rows[k]));
            assert(false);
        }
    }
}

/// Where a value of a file goes: what belongs to the file itself and to its location goes there,
/// in order, and after a rank of zero; a tag is stored for each other value that is there and
/// not empty.
pub proof fn law_values_go_to_their_tables(
    id: i64,
    values: Seq<TagValueModel>,
    cols: Seq<ColumnDefModel>,
    t: TagRowModel,
    v: TagValueModel,
)
    requires
        values.len() == cols.len(),
    ensures
        ({
            let m = indexing::stored(id, values, cols);
            &&& m.id == id
            &&& m.tags.contains(t) <==> t.item_id == id && t.label.len() > 0 && exists|i: int|
                0 <= i < cols.len() && (#[trigger] cols[i]).target_table == TargetTable::BaseTags
                    && cols[i].name == t.tag_type && values[i].shown() == Some(t.label)
            &&& m.entity.len() > 0 && m.entity[0] == TagValueModel::BigInt(0)
            &&& m.entity.skip(1).contains(v) <==> exists|i: int|
                0 <= i < cols.len() && (#[trigger] cols[i]).target_table
                    == TargetTable::FileReferences && values[i] == v
            &&& m.location.contains(v) <==> exists|i: int|
                0 <= i < cols.len() && (#[trigger] cols[i]).target_table == TargetTable::Locations
                    && values[i] == v
        }),
{
    lemma_triaged(id, values, cols, cols.len(), t, v);
}

proof fn lemma_push_has<T>(s: Seq<T>, y: T, x: T)
    ensures
        s.push(y).contains(x) <==> s.contains(x) || x == y,
{
    let all = s.push(y);
    assert(all[s.len() as int] == y);
    if s.contains(x) {
        let i = choose|i: int| 0 <= i < s.len() && s[i] == x;
        assert(all[i] == x);
    }
    if all.contains(x) && x != y {
        let i = choose|i: int| 0 <= i < all.len() && all[i] == x;
        assert(s[i] == x);
    }
}

spec fn goes_to(
    values: Seq<TagValueModel>,
    cols: Seq<ColumnDefModel>,
    n: nat,
    target: TargetTable,
    v: TagValueModel,
) -> bool {
    exists|i: int|
        0 <= i < n && (#[trigger] cols[i]).target_table == target && values[i] == v
}

spec fn tagged_as(
    values: Seq<TagValueModel>,
    cols: Seq<ColumnDefModel>,
    n: nat,
    t: TagRowModel,
) -> bool {
    exists|i: int|
        0 <= i < n && (#[trigger] cols[i]).target_table == TargetTable::BaseTags && cols[i].name
            == t.tag_type && values[i].shown() == Some(t.label)
}

proof fn lemma_triaged(
    id: i64,
    values: Seq<TagValueModel>,
    cols: Seq<ColumnDefModel>,
    n: nat,
    t: TagRowModel,
    v: TagValueModel,
)
    requires
        n <= values.len(),
        n <= cols.len(),
    ensures
        ({
            let m = indexing::triaged(id, values, cols, n);
            &&& m.id == id
            &&& m.tags.contains(t) <==> t.item_id == id && t.label.len() > 0 && tagged_as(
                values,
                cols,
                n,
                t,
            )
            &&& m.entity.len() > 0 && m.entity[0] == TagValueModel::BigInt(0)
            &&& m.entity.skip(1).contains(v) <==> goes_to(
                values,
                cols,
                n,
                TargetTable::FileReferences,
                v,
            )
            &&& m.location.contains(v) <==> goes_to(values, cols, n, TargetTable::Locations, v)
        }),
    decreases n,
{
    let m = indexing::triaged(id, values, cols, n);
    if n == 0 {
        assert(m.entity.skip(1).len() == 0);
    } else {
        let k = (n - 1) as nat;
        lemma_triaged(id, values, cols, k, t, v);
        let before = indexing::triaged(id, values, cols, k);
        let c = cols[k as int];
        let x = values[k as int];
        assert(tagged_as(values, cols, n, t) <==> tagged_as(values, cols, k, t) || (c.target_table
            == TargetTable::BaseTags && c.name == t.tag_type && x.shown() == Some(t.label)));
        assert(goes_to(values, cols, n, TargetTable::FileReferences, v) <==> goes_to(
            values,
            cols,
            k,
            TargetTable::FileReferences,
            v,
        ) || (c.target_table == TargetTable::FileReferences && x == v));
        assert(goes_to(values, cols, n, TargetTable::Locations, v) <==> goes_to(
            values,
            cols,
            k,
            TargetTable::Locations,
            v,
        ) || (c.target_table == TargetTable::Locations && x == v));
        if c.target_table == TargetTable::FileReferences {
            lemma_push_has(before.entity.skip(1), x, v);
            assert(m.entity.skip(1) =~= before.entity.skip(1).push(x));
        } else if c.target_table == TargetTable::Locations {
            lemma_push_has(before.location, x, v);
        } else if c.target_table == TargetTable::BaseTags {
            if let Some(s) = x.shown() {
                let row = TagRowModel { item_id: id, tag_type: c.name, label: s };
                lemma_push_has(before.tags, row, t);
            }
        }
    }
}

} // verus!
