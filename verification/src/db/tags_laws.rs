//! What the queries for tags promise, told by the rows of the tables that they read.
use crate::col::Col;
use crate::db::meaning;
use crate::db::meaning::{Data, Row, Val};
use crate::db::statement;
use crate::db::statement::{ItemTerm, SelectTerm, Term};
use crate::db::store;
use crate::db::tags;
use crate::db::{DuckDbFunc, TargetTable, Tbl};
use crate::path;
use vstd::prelude::*;

verus! {

/// Whether a row is of the type that is asked for; any is where none is.
pub open spec fn is_asked_for(row: Row, target: Option<Seq<char>>) -> bool {
    target matches Some(ty) ==> meaning::cell(row, Col::Type.name_text()) == Val::Text(ty)
}

/// Whether a row is known to be of none of some types.
pub open spec fn is_none_of(row: Row, excluded: Seq<Seq<char>>) -> bool {
    excluded.len() > 0 ==> {
        let ty = meaning::cell(row, Col::Type.name_text());
        &&& !(ty is Null)
        &&& forall|i: int| 0 <= i < excluded.len() ==> ty != Val::Text(#[trigger] excluded[i])
    }
}

/// What a row of a table is as a tag: its type is kept, and its label is what `label` says.
pub open spec fn shows_tag(q: SelectTerm, t: Tbl, d: Data, row: Row, label: Val) -> bool {
    let s = meaning::one_row(t.name_text(), row);
    let out = meaning::projected(q.items, d, s, row);
    &&& meaning::cell(out, Col::Type.name_text()) == meaning::cell(row, Col::Type.name_text())
    &&& meaning::cell(out, Col::Label.name_text()) == label
    &&& out.dom().contains(Col::TypedTag.name_text())
}

proof fn lemma_names_differ()
    ensures
        Col::Type.name_text() != Col::Label.name_text(),
        Col::Type.name_text() != Col::TypedTag.name_text(),
        Col::Label.name_text() != Col::TypedTag.name_text(),
{
    reveal_strlit("type");
    reveal_strlit("label");
    reveal_strlit("tag");
    assert("type"@.len() == 4);
    assert("label"@.len() == 5);
    assert("tag"@.len() == 3);
}

proof fn lemma_typed_rows(t: Tbl, file: Seq<char>, label: Term, d: Data, row: Row)
    ensures
        ({
            let q = tags::typed_rows(t, file, label);
            let s = meaning::one_row(t.name_text(), row);
            &&& q.from.len() == 1 && q.joins.len() == 0 && q.wheres.len() == 0
            &&& q.unions.len() == 0
            &&& meaning::name_of(q.from[0]) == t.name_text()
            &&& meaning::source_has(q.from[0], d, seq![], row) <==> (d.files)(file).contains(row)
            &&& shows_tag(q, t, d, row, meaning::value(label, d, s))
        }),
{
    let q = tags::typed_rows(t, file, label);
    let s = meaning::one_row(t.name_text(), row);
    meaning::lemma_all_rows(file, d, seq![], row);
    meaning::lemma_own_cell(t.name_text(), row, Col::Type.name_text());
    let none = Seq::<ItemTerm>::empty();
    let i0 = ItemTerm::One(tags::col_of(t, Col::Type), None);
    let i1 = ItemTerm::One(label, Some(Col::Label.name_text()));
    let both = Term::Call(
        DuckDbFunc::Concat.name_text(),
        seq![tags::col_of(t, Col::Type), Term::Text(":"@), label],
    );
    let i2 = ItemTerm::One(both, Some(Col::TypedTag.name_text()));
    assert(q.items =~= none.push(i0).push(i1).push(i2));
    meaning::lemma_projected_push(none, i0, d, s, row);
    meaning::lemma_projected_push(none.push(i0), i1, d, s, row);
    meaning::lemma_projected_push(none.push(i0).push(i1), i2, d, s, row);
    lemma_names_differ();
}

proof fn lemma_of_type(q: SelectTerm, t: Tbl, target: Option<Seq<char>>, d: Data, row: Row)
    requires
        q.from.len() == 1,
        q.joins.len() == 0,
        meaning::name_of(q.from[0]) == t.name_text(),
    ensures
        ({
            let w = tags::of_type(q, t, target);
            let s = meaning::one_row(t.name_text(), row);
            &&& w.items == q.items && w.unions == q.unions
            &&& meaning::keeps(w, d, seq![], s) <==> meaning::keeps(q, d, seq![], s)
                && is_asked_for(row, target)
        }),
{
    let w = tags::of_type(q, t, target);
    let s = meaning::one_row(t.name_text(), row);
    let none = Seq::<(Seq<char>, Row)>::empty();
    assert(none + s =~= s);
    meaning::lemma_one_source(q, d, none, s);
    meaning::lemma_one_source(w, d, none, s);
    meaning::lemma_own_cell(t.name_text(), row, Col::Type.name_text());
    if let Some(ty) = target {
        let cond = Term::Eq(Box::new(tags::col_of(t, Col::Type)), Box::new(Term::Text(ty)));
        let n = q.wheres.len() as int;
        assert(w.wheres[n] == cond);
        assert(forall|i: int| 0 <= i < n ==> #[trigger] q.wheres[i] == w.wheres[i]);
        assert(meaning::is_true(meaning::value(cond, d, s)) <==> is_asked_for(row, target)) by {
            reveal_with_fuel(meaning::value, 3);
        }
        if meaning::keeps(w, d, none, s) {
            assert(meaning::is_true(meaning::value(w.wheres[n], d, none + s)));
            assert forall|i: int| 0 <= i < n implies meaning::is_true(
                meaning::value(#[trigger] q.wheres[i], d, none + s),
            ) by {
                assert(meaning::is_true(meaning::value(w.wheres[i], d, none + s)));
            }
        }
        if meaning::keeps(q, d, none, s) && is_asked_for(row, target) {
            assert forall|i: int| 0 <= i < w.wheres.len() implies meaning::is_true(
                meaning::value(#[trigger] w.wheres[i], d, none + s),
            ) by {
                if i < n {
                    assert(meaning::is_true(meaning::value(q.wheres[i], d, none + s)));
                }
            }
        }
    }
}

proof fn lemma_base_rows(file: Seq<char>, excluded: Seq<Seq<char>>, d: Data, row: Row)
    ensures
        ({
            let q = tags::base_rows(file, excluded);
            let s = meaning::one_row(Tbl::BaseTags.name_text(), row);
            &&& q.from.len() == 1 && q.joins.len() == 0
            &&& meaning::name_of(q.from[0]) == Tbl::BaseTags.name_text()
            &&& q.items == tags::typed_rows(
                Tbl::BaseTags,
                file,
                tags::label_text(Tbl::BaseTags),
            ).items
            &&& meaning::keeps(q, d, seq![], s) <==> (d.files)(file).contains(row) && is_none_of(
                row,
                excluded,
            )
        }),
{
    let q = tags::base_rows(file, excluded);
    let name = Tbl::BaseTags.name_text();
    let s = meaning::one_row(name, row);
    let none = Seq::<(Seq<char>, Row)>::empty();
    assert(none + s =~= s);
    lemma_typed_rows(Tbl::BaseTags, file, tags::label_text(Tbl::BaseTags), d, row);
    meaning::lemma_one_source(q, d, none, s);
    if excluded.len() > 0 {
        let x = meaning::cell(row, Col::Type.name_text());
        let v = statement::text_terms(excluded);
        let column = tags::col_of(Tbl::BaseTags, Col::Type);
        let cond = Term::NotIn(Box::new(column), v);
        assert(q.wheres =~= seq![cond]);
        assert(q.wheres[0] == cond);
        meaning::lemma_own_cell(name, row, Col::Type.name_text());
        assert(meaning::value(column, d, s) == x);
        assert(meaning::value(cond, d, s) == meaning::not_val(meaning::among(x, v, d, s)));
        assert forall|i: int| 0 <= i < v.len() implies meaning::value(#[trigger] v[i], d, s)
            == Val::Text(excluded[i]) by {
        }
        if is_none_of(row, excluded) {
            assert forall|i: int| 0 <= i < v.len() implies meaning::equal_vals(
                x,
                meaning::value(#[trigger] v[i], d, s),
            ) == Val::Bool(false) by {
                assert(x != Val::Text(excluded[i]));
            }
            assert(meaning::among(x, v, d, s) == Val::Bool(false));
        } else if x is Null {
            assert(meaning::equal_vals(x, meaning::value(v[0], d, s)) is Null);
            assert(meaning::among(x, v, d, s) is Null);
        } else {
            let i = choose|i: int| 0 <= i < excluded.len() && x == Val::Text(#[trigger] excluded[i]);
            assert(meaning::is_true(meaning::equal_vals(x, meaning::value(v[i], d, s))));
            assert(meaning::among(x, v, d, s) == Val::Bool(true));
        }
    }
}

/// The tags are those of the rows of three tables that are of the type asked for: of the tags by
/// location, of the tags of the user and of the base tags, but for base tags of types that are
/// no tags. Each keeps its type and its label. The ranks of files are among them exactly where
/// there are files and no other type is asked for.
pub proof fn law_tags_are_those_of_the_tables(
    dir: Seq<char>,
    excluded: Seq<Seq<char>>,
    target: Option<Seq<char>>,
    has_files: bool,
    d: Data,
    row: Row,
)
    ensures
        ({
            let q = tags::all_tags(dir, excluded, target, has_files);
            let rows = |t: TargetTable| (d.files)(path::joined_to(dir, store::table_file(t)));
            let at = |t: Tbl| meaning::one_row(t.name_text(), row);
            let text = |t: Tbl| meaning::value(tags::label_text(t), d, at(t));
            &&& meaning::keeps(q, d, seq![], at(Tbl::TagsByLocation)) <==> rows(
                TargetTable::TagsByLocation,
            ).contains(row) && is_asked_for(row, target)
            &&& shows_tag(
                q,
                Tbl::TagsByLocation,
                d,
                row,
                meaning::cell(row, Col::LabelStr.name_text()),
            )
            &&& q.unions.len() == if has_files && (target is None || target == Some("rank"@)) {
                3nat
            } else {
                2nat
            }
            &&& meaning::keeps(q.unions[0].1, d, seq![], at(Tbl::UserTags)) <==> rows(
                TargetTable::UserTags,
            ).contains(row) && is_asked_for(row, target)
            &&& shows_tag(q.unions[0].1, Tbl::UserTags, d, row, text(Tbl::UserTags))
            &&& meaning::keeps(q.unions[1].1, d, seq![], at(Tbl::BaseTags)) <==> rows(
                TargetTable::BaseTags,
            ).contains(row) && is_asked_for(row, target) && is_none_of(row, excluded)
            &&& shows_tag(q.unions[1].1, Tbl::BaseTags, d, row, text(Tbl::BaseTags))
            &&& q.unions.len() == 3 ==> (meaning::keeps(
                q.unions[2].1,
                d,
                seq![],
                at(Tbl::FileReferences),
            ) <==> rows(TargetTable::FileReferences).contains(row))
        }),
{
    let q = tags::all_tags(dir, excluded, target, has_files);
    let none = Seq::<(Seq<char>, Row)>::empty();
    let file = |t: TargetTable| path::joined_to(dir, store::table_file(t));
    let at = |t: Tbl| meaning::one_row(t.name_text(), row);
    let label = tags::col_of(Tbl::TagsByLocation, Col::LabelStr);
    let l0 = tags::typed_rows(Tbl::TagsByLocation, file(TargetTable::TagsByLocation), label);
    let located = tags::of_type(l0, Tbl::TagsByLocation, target);
    let u0 = tags::typed_rows(
        Tbl::UserTags,
        file(TargetTable::UserTags),
        tags::label_text(Tbl::UserTags),
    );
    let given = tags::of_type(u0, Tbl::UserTags, target);
    let b0 = tags::base_rows(file(TargetTable::BaseTags), excluded);
    let base = tags::of_type(b0, Tbl::BaseTags, target);
    lemma_typed_rows(Tbl::TagsByLocation, file(TargetTable::TagsByLocation), label, d, row);
    lemma_of_type(l0, Tbl::TagsByLocation, target, d, row);
    lemma_typed_rows(
        Tbl::UserTags,
        file(TargetTable::UserTags),
        tags::label_text(Tbl::UserTags),
        d,
        row,
    );
    lemma_of_type(u0, Tbl::UserTags, target, d, row);
    lemma_base_rows(file(TargetTable::BaseTags), excluded, d, row);
    lemma_typed_rows(
        Tbl::BaseTags,
        file(TargetTable::BaseTags),
        tags::label_text(Tbl::BaseTags),
        d,
        row,
    );
    lemma_of_type(b0, Tbl::BaseTags, target, d, row);
    meaning::lemma_own_cell(Tbl::TagsByLocation.name_text(), row, Col::LabelStr.name_text());
    assert(none + at(Tbl::TagsByLocation) =~= at(Tbl::TagsByLocation));
    assert(none + at(Tbl::UserTags) =~= at(Tbl::UserTags));
    meaning::lemma_one_source(l0, d, none, at(Tbl::TagsByLocation));
    meaning::lemma_one_source(u0, d, none, at(Tbl::UserTags));
    meaning::lemma_one_source(located, d, none, at(Tbl::TagsByLocation));
    meaning::lemma_one_source(q, d, none, at(Tbl::TagsByLocation));
    assert(located.unions.len() == 0);
    assert(q.unions[0].1 == given);
    assert(q.unions[1].1 == base);
    assert(q.wheres == located.wheres && q.from == located.from);
    if q.unions.len() == 3 {
        let r = tags::rank_rows(file(TargetTable::FileReferences));
        assert(q.unions[2].1 == r);
        meaning::lemma_all_rows(file(TargetTable::FileReferences), d, none, row);
        meaning::lemma_one_source(r, d, none, at(Tbl::FileReferences));
    }
}

/// The items that stand for tags are those of that kind.
pub proof fn law_tag_items_are_tags(file: Seq<char>, d: Data, row: Row)
    ensures
        meaning::keeps(
            tags::tag_items(file),
            d,
            seq![],
            meaning::one_row(Tbl::ItemReferences.name_text(), row),
        ) <==> (d.files)(file).contains(row) && meaning::cell(row, Col::ItemKind.name_text())
            == Val::Text("tag"@),
{
    let q = tags::tag_items(file);
    let name = Tbl::ItemReferences.name_text();
    let s = meaning::one_row(name, row);
    let none = Seq::<(Seq<char>, Row)>::empty();
    let cond = Term::Eq(
        Box::new(Term::Col(None, Col::ItemKind.name_text())),
        Box::new(Term::Text("tag"@)),
    );
    assert(none + s =~= s);
    assert(q.wheres =~= seq![cond]);
    assert(q.wheres[0] == cond);
    meaning::lemma_own_cell(name, row, Col::ItemKind.name_text());
    assert(meaning::is_true(meaning::value(cond, d, s)) <==> meaning::cell(
        row,
        Col::ItemKind.name_text(),
    ) == Val::Text("tag"@)) by {
        reveal_with_fuel(meaning::value, 3);
    }
    meaning::lemma_all_rows(file, d, none, row);
    meaning::lemma_one_source(q, d, none, s);
}

} // verus!
