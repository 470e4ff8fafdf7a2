//! What selections mean: which rows they give of the rows that are stored.
//!
//! Conditions are true, false or unknown, as in SQL: what is compared with a missing value is
//! unknown, and a row is kept where all conditions are true. Grouping, order and limits, which
//! decide how rows are put together and in what order, are left aside.
use crate::db::schema;
use crate::db::statement;
use crate::db::statement::{FromTerm, ItemTerm, JoinTerm, SelectTerm, Term, UpdateTerm};
use crate::db::DuckDbFunc;
use vstd::prelude::*;

verus! {

/// A value in a row. Numbers in double precision are known by their bits.
pub enum Val {
    Null,
    Int(int),
    Text(Seq<char>),
    Bool(bool),
    Number(u64),
    Uuid(u128),
}

/// A row: its columns with their values.
pub type Row = Map<Seq<char>, Val>;

/// The rows at hand, each under the name of its table, the innermost last.
pub type Scope = Seq<(Seq<char>, Row)>;

/// What is stored, and what an expression is that only the database engine knows.
pub struct Data {
    pub files: spec_fn(Seq<char>) -> Seq<Row>,
    pub tables: spec_fn(Seq<char>) -> Seq<Row>,
    pub engine: spec_fn(Term, Scope) -> Val,
}

/// The value of a row in a column; a column that it does not have is missing.
pub open spec fn cell(row: Row, column: Seq<char>) -> Val {
    if row.dom().contains(column) {
        row[column]
    } else {
        Val::Null
    }
}

/// The value of a column of a table: that of the innermost row under the name.
pub open spec fn cell_of(s: Scope, table: Seq<char>, column: Seq<char>) -> Val
    decreases s.len(),
{
    if s.len() == 0 {
        Val::Null
    } else if s.last().0 == table {
        cell(s.last().1, column)
    } else {
        cell_of(s.drop_last(), table, column)
    }
}

/// The value of a column whose table is not written: that of the innermost row that has it.
pub open spec fn cell_in(s: Scope, column: Seq<char>) -> Val
    decreases s.len(),
{
    if s.len() == 0 {
        Val::Null
    } else if s.last().1.dom().contains(column) {
        s.last().1[column]
    } else {
        cell_in(s.drop_last(), column)
    }
}

pub open spec fn is_true(v: Val) -> bool {
    v == Val::Bool(true)
}

/// Whether two values are equal; unknown where one is missing.
pub open spec fn equal_vals(a: Val, b: Val) -> Val {
    if a is Null || b is Null {
        Val::Null
    } else {
        Val::Bool(a == b)
    }
}

pub open spec fn not_val(a: Val) -> Val {
    match a {
        Val::Bool(b) => Val::Bool(!b),
        _ => Val::Null,
    }
}

pub open spec fn and_vals(a: Val, b: Val) -> Val {
    if a == Val::Bool(false) || b == Val::Bool(false) {
        Val::Bool(false)
    } else if a == Val::Bool(true) && b == Val::Bool(true) {
        Val::Bool(true)
    } else {
        Val::Null
    }
}

pub open spec fn less_vals(a: Val, b: Val) -> Val {
    match (a, b) {
        (Val::Int(x), Val::Int(y)) => Val::Bool(x < y),
        _ => Val::Null,
    }
}

/// Any row.
pub open spec fn some_row(row: Row) -> bool {
    true
}

/// Any rows.
pub open spec fn some_rows(s: Scope) -> bool {
    true
}

/// What an expression is for the rows at hand.
pub open spec fn value(t: Term, d: Data, s: Scope) -> Val
    decreases t,
{
    match t {
        Term::Col(Some(table), c) => cell_of(s, table, c),
        Term::Col(None, c) => cell_in(s, c),
        Term::Text(x) => Val::Text(x),
        Term::Int(i) => Val::Int(i),
        Term::Bool(b) => Val::Bool(b),
        Term::Number(Some(bits)) => Val::Number(bits),
        Term::Number(None) => Val::Null,
        Term::Null => Val::Null,
        Term::Eq(a, b) => equal_vals(value(*a, d, s), value(*b, d, s)),
        Term::Ne(a, b) => not_val(equal_vals(value(*a, d, s), value(*b, d, s))),
        Term::Ge(a, b) => not_val(less_vals(value(*a, d, s), value(*b, d, s))),
        Term::Lt(a, b) => less_vals(value(*a, d, s), value(*b, d, s)),
        Term::And(a, b) => and_vals(value(*a, d, s), value(*b, d, s)),
        Term::Not(a) => not_val(value(*a, d, s)),
        Term::IsNull(a) => Val::Bool(value(*a, d, s) is Null),
        Term::IsNotNull(a) => Val::Bool(!(value(*a, d, s) is Null)),
        Term::In(a, v) => among(value(*a, d, s), v, d, s),
        Term::NotIn(a, v) => not_val(among(value(*a, d, s), v, d, s)),
        Term::InSelect(a, q) => Val::Bool(
            exists|row: Row, c: Seq<char>|
                #![trigger row.dom().contains(c)]
                gives(*q, d, s, row) && row.dom().contains(c) && is_true(
                    equal_vals(value(*a, d, s), row[c]),
                ),
        ),
        Term::Exists(q) => Val::Bool(exists|row: Row| #[trigger] some_row(row) && gives(*q, d, s, row)),
        Term::Cast(a, _) => if value(*a, d, s) is Null {
            Val::Null
        } else {
            (d.engine)(t, s)
        },
        Term::Call(name, args) => if name == DuckDbFunc::Coalesce.name_text() {
            first_known(args, d, s)
        } else {
            (d.engine)(t, s)
        },
        Term::Case(arms, other) => cased(arms, value(*other, d, s), d, s),
        _ => (d.engine)(t, s),
    }
}

/// The first of some values that is not missing.
pub open spec fn first_known(v: Seq<Term>, d: Data, s: Scope) -> Val
    decreases v,
{
    if v.len() == 0 {
        Val::Null
    } else if !(value(v[0], d, s) is Null) {
        value(v[0], d, s)
    } else {
        first_known(v.subrange(1, v.len() as int), d, s)
    }
}

/// The value of the first case whose condition holds, or another where none does.
pub open spec fn cased(arms: Seq<(Term, Term)>, other: Val, d: Data, s: Scope) -> Val
    decreases arms,
{
    if arms.len() == 0 {
        other
    } else if is_true(value(arms[0].0, d, s)) {
        value(arms[0].1, d, s)
    } else {
        cased(arms.subrange(1, arms.len() as int), other, d, s)
    }
}

/// Whether a value is one of some; unknown where it or one of the others is missing and it is
/// none of them.
pub open spec fn among(x: Val, v: Seq<Term>, d: Data, s: Scope) -> Val
    decreases v,
{
    if exists|i: int| 0 <= i < v.len() && is_true(equal_vals(x, value(#[trigger] v[i], d, s))) {
        Val::Bool(true)
    } else if exists|i: int| 0 <= i < v.len() && equal_vals(x, value(#[trigger] v[i], d, s)) is Null {
        Val::Null
    } else {
        Val::Bool(false)
    }
}

/// The name under which rows are taken.
pub open spec fn name_of(f: FromTerm) -> Seq<char> {
    match f {
        FromTerm::Table(n) => n,
        FromTerm::Select(_, n) => n,
        FromTerm::Call(_, _, n) => n,
        FromTerm::Rows(_, n) => n,
    }
}

/// Whether a row is among those that are taken from somewhere. Rows that are written out have
/// no names for their columns and are told apart by their place alone.
pub open spec fn source_has(f: FromTerm, d: Data, s: Scope, row: Row) -> bool
    decreases f,
{
    match f {
        FromTerm::Table(n) => (d.tables)(n).contains(row),
        FromTerm::Select(q, _) => gives(*q, d, s, row),
        FromTerm::Call(name, args, _) => name == DuckDbFunc::ReadParquet.name_text() && args.len()
            == 1 && args[0] is Text && (d.files)(args[0]->Text_0).contains(row),
        FromTerm::Rows(_, _) => false,
    }
}

/// Whether `inner` holds one row of each source of a selection that belong together: rows that
/// are joined meet their condition, and a row without a partner is joined with nothing.
pub open spec fn joined_up(q: SelectTerm, d: Data, s: Scope, inner: Scope) -> bool
    decreases q, 0nat,
{
    let n = q.from.len();
    &&& inner.len() == n + q.joins.len()
    &&& forall|i: int|
        #![trigger q.from[i]]
        0 <= i < n ==> inner[i].0 == name_of(q.from[i]) && source_has(q.from[i], d, s, inner[i].1)
    &&& forall|j: int|
        #![trigger q.joins[j]]
        0 <= j < q.joins.len() ==> {
            let before = s + inner.take(n + j);
            let here = inner[n + j];
            &&& here.0 == q.joins[j].2
            &&& if gives(q.joins[j].1, d, s, here.1) && is_true(
                value(q.joins[j].3, d, before.push(here)),
            ) {
                true
            } else {
                &&& q.joins[j].0 is Left
                &&& here.1 == Map::<Seq<char>, Val>::empty()
                &&& forall|row: Row| #[trigger]
                    some_row(row) && gives(q.joins[j].1, d, s, row) ==> !is_true(
                        value(q.joins[j].3, d, before.push((q.joins[j].2, row))),
                    )
            }
        }
}

/// Whether a selection keeps the rows `inner` of its sources: they belong together and all its
/// conditions hold.
pub open spec fn keeps(q: SelectTerm, d: Data, s: Scope, inner: Scope) -> bool
    decreases q, 1nat,
{
    joined_up(q, d, s, inner) && forall|i: int|
        0 <= i < q.wheres.len() ==> is_true(value(#[trigger] q.wheres[i], d, s + inner))
}

/// The row that the items of a selection make.
pub open spec fn projected(items: Seq<ItemTerm>, d: Data, s: Scope, own: Row) -> Row
    decreases items,
{
    if items.len() == 0 {
        Map::empty()
    } else {
        let rest = items.subrange(0, items.len() - 1);
        let before = projected(rest, d, s, own);
        match items[items.len() - 1] {
            ItemTerm::All => before.union_prefer_right(own),
            ItemTerm::One(e, Some(name)) => before.insert(name, value(e, d, s)),
            ItemTerm::One(e, None) => match e {
                Term::Col(_, c) => before.insert(c, value(e, d, s)),
                _ => before,
            },
        }
    }
}

/// Whether a row is among those that a selection gives.
pub open spec fn gives(q: SelectTerm, d: Data, s: Scope, row: Row) -> bool
    decreases q, 2nat,
{
    ||| exists|inner: Scope|
        #[trigger] some_rows(inner) && keeps(q, d, s, inner) && row == projected(
            q.items,
            d,
            s + inner,
            if inner.len() > 0 {
                inner[0].1
            } else {
                Map::empty()
            },
        )
    ||| exists|i: int|
        0 <= i < q.unions.len() && gives((#[trigger] q.unions[i]).1, d, s, row)
}

pub open spec fn one_row(name: Seq<char>, row: Row) -> Scope {
    seq![(name, row)]
}

pub broadcast proof fn lemma_projected_push(
    items: Seq<ItemTerm>,
    it: ItemTerm,
    d: Data,
    s: Scope,
    own: Row,
)
    ensures
        #[trigger] projected(items.push(it), d, s, own) == match it {
            ItemTerm::All => projected(items, d, s, own).union_prefer_right(own),
            ItemTerm::One(e, Some(name)) => projected(items, d, s, own).insert(
                name,
                value(e, d, s),
            ),
            ItemTerm::One(e, None) => match e {
                Term::Col(_, c) => projected(items, d, s, own).insert(c, value(e, d, s)),
                _ => projected(items, d, s, own),
            },
        },
{
    let all = items.push(it);
    assert(all.subrange(0, all.len() - 1) =~= items);
}

/// A selection from one source keeps a row of it where its conditions hold.
pub proof fn lemma_one_source(q: SelectTerm, d: Data, s: Scope, inner: Scope)
    requires
        q.from.len() == 1,
        q.joins.len() == 0,
    ensures
        keeps(q, d, s, inner) <==> {
            &&& inner.len() == 1
            &&& inner == one_row(name_of(q.from[0]), inner[0].1)
            &&& source_has(q.from[0], d, s, inner[0].1)
            &&& forall|i: int|
                0 <= i < q.wheres.len() ==> is_true(value(#[trigger] q.wheres[i], d, s + inner))
        },
{
    if inner.len() == 1 {
        if joined_up(q, d, s, inner) {
            assert(inner[0].0 == name_of(q.from[0]));
            assert(inner =~= one_row(name_of(q.from[0]), inner[0].1));
        }
        if inner == one_row(name_of(q.from[0]), inner[0].1) {
            assert(inner[0].0 == name_of(q.from[0]));
        }
    }
}

/// All rows of a file are given as they are.
pub broadcast proof fn lemma_all_rows(file: Seq<char>, d: Data, s: Scope, row: Row)
    ensures
        #[trigger] gives(schema::all_rows(file), d, s, row) <==> (d.files)(file).contains(row),
{
    let q = schema::all_rows(file);
    let f = q.from[0];
    assert(source_has(f, d, s, row) <==> (d.files)(file).contains(row));
    let none = Seq::<ItemTerm>::empty();
    assert(q.items =~= none.push(ItemTerm::All));
    assert forall|inner: Scope| inner.len() == 1 implies #[trigger] projected(
        q.items,
        d,
        s + inner,
        inner[0].1,
    ) == inner[0].1 by {
        lemma_projected_push(none, ItemTerm::All, d, s + inner, inner[0].1);
        assert(projected(q.items, d, s + inner, inner[0].1) =~= inner[0].1);
    }
    if (d.files)(file).contains(row) {
        let inner = one_row(name_of(f), row);
        lemma_one_source(q, d, s, inner);
        assert(some_rows(inner) && keeps(q, d, s, inner));
        assert(projected(q.items, d, s + inner, inner[0].1) == row);
    }
    if gives(q, d, s, row) {
        let inner = choose|inner: Scope|
            #[trigger] some_rows(inner) && keeps(q, d, s, inner) && row == projected(
                q.items,
                d,
                s + inner,
                if inner.len() > 0 {
                    inner[0].1
                } else {
                    Map::empty()
                },
            );
        lemma_one_source(q, d, s, inner);
        assert(projected(q.items, d, s + inner, inner[0].1) == inner[0].1);
    }
}

/// What a selection from one source gives: what its items make of the rows for which its
/// conditions hold.
pub proof fn lemma_gives_one(q: SelectTerm, d: Data, s: Scope, out: Row)
    requires
        q.from.len() == 1,
        q.joins.len() == 0,
        q.unions.len() == 0,
    ensures
        gives(q, d, s, out) <==> exists|row: Row|
            {
                let inner = one_row(name_of(q.from[0]), row);
                &&& #[trigger] some_row(row)
                &&& source_has(q.from[0], d, s, row)
                &&& forall|i: int|
                    0 <= i < q.wheres.len() ==> is_true(value(#[trigger] q.wheres[i], d, s + inner))
                &&& out == projected(q.items, d, s + inner, row)
            },
{
    if gives(q, d, s, out) {
        let inner = choose|inner: Scope|
            #[trigger] some_rows(inner) && keeps(q, d, s, inner) && out == projected(
                q.items,
                d,
                s + inner,
                if inner.len() > 0 {
                    inner[0].1
                } else {
                    Map::empty()
                },
            );
        lemma_one_source(q, d, s, inner);
        assert(some_row(inner[0].1));
    }
    if exists|row: Row|
        {
            let inner = one_row(name_of(q.from[0]), row);
            &&& #[trigger] some_row(row)
            &&& source_has(q.from[0], d, s, row)
            &&& forall|i: int|
                0 <= i < q.wheres.len() ==> is_true(value(#[trigger] q.wheres[i], d, s + inner))
            &&& out == projected(q.items, d, s + inner, row)
        } {
        let row = choose|row: Row|
            {
                let inner = one_row(name_of(q.from[0]), row);
                &&& #[trigger] some_row(row)
                &&& source_has(q.from[0], d, s, row)
                &&& forall|i: int|
                    0 <= i < q.wheres.len() ==> is_true(value(#[trigger] q.wheres[i], d, s + inner))
                &&& out == projected(q.items, d, s + inner, row)
            };
        let inner = one_row(name_of(q.from[0]), row);
        lemma_one_source(q, d, s, inner);
        assert(some_rows(inner) && keeps(q, d, s, inner));
    }
}

/// Among cases, the first whose condition holds decides.
pub proof fn lemma_first_case(arms: Seq<(Term, Term)>, other: Val, d: Data, s: Scope, k: int)
    requires
        0 <= k < arms.len(),
        is_true(value(arms[k].0, d, s)),
        forall|j: int| 0 <= j < k ==> !is_true(value((#[trigger] arms[j]).0, d, s)),
    ensures
        cased(arms, other, d, s) == value(arms[k].1, d, s),
    decreases k,
{
    if k > 0 {
        let rest = arms.subrange(1, arms.len() as int);
        assert(!is_true(value(arms[0].0, d, s)));
        assert forall|j: int| 0 <= j < k - 1 implies !is_true(value((#[trigger] rest[j]).0, d, s)) by {
            assert(rest[j] == arms[j + 1]);
        }
        assert(rest[k - 1] == arms[k]);
        lemma_first_case(rest, other, d, s, k - 1);
    }
}

/// Where no case holds, the other value is taken.
pub proof fn lemma_no_case(arms: Seq<(Term, Term)>, other: Val, d: Data, s: Scope)
    requires
        forall|j: int| 0 <= j < arms.len() ==> !is_true(value((#[trigger] arms[j]).0, d, s)),
    ensures
        cased(arms, other, d, s) == other,
    decreases arms.len(),
{
    if arms.len() > 0 {
        let rest = arms.subrange(1, arms.len() as int);
        assert(!is_true(value(arms[0].0, d, s)));
        assert forall|j: int| 0 <= j < rest.len() implies !is_true(
            value((#[trigger] rest[j]).0, d, s),
        ) by {
            assert(rest[j] == arms[j + 1]);
        }
        lemma_no_case(rest, other, d, s);
    }
}

/// Whether an update changes a row: all its conditions hold.
pub open spec fn touches(u: UpdateTerm, d: Data, row: Row) -> bool {
    forall|i: int|
        0 <= i < u.wheres.len() ==> is_true(
            value(#[trigger] u.wheres[i], d, one_row(u.table, row)),
        )
}

/// A row with new values in some columns. All are reckoned from the row as it was.
pub open spec fn assigned(values: Seq<(Seq<char>, Term)>, d: Data, s: Scope, row: Row) -> Row
    decreases values.len(),
{
    if values.len() == 0 {
        row
    } else {
        assigned(values.drop_last(), d, s, row).insert(
            values.last().0,
            value(values.last().1, d, s),
        )
    }
}

/// What becomes of a row by an update.
pub open spec fn updated(u: UpdateTerm, d: Data, row: Row) -> Row {
    if touches(u, d, row) {
        assigned(u.values, d, one_row(u.table, row), row)
    } else {
        row
    }
}

/// The only row at hand has its columns.
pub proof fn lemma_own_cell(name: Seq<char>, row: Row, column: Seq<char>)
    ensures
        cell_in(one_row(name, row), column) == cell(row, column),
        cell_of(one_row(name, row), name, column) == cell(row, column),
{
    reveal_with_fuel(cell_in, 2);
    assert(one_row(name, row).drop_last() =~= Seq::empty());
}

/// Whether a number is one of some.
pub proof fn lemma_among_ints(x: int, ids: Seq<i64>, d: Data, s: Scope)
    ensures
        among(Val::Int(x), statement::int_terms(ids), d, s) == Val::Bool(
            exists|i: int| 0 <= i < ids.len() && #[trigger] ids[i] == x,
        ),
{
    let v = statement::int_terms(ids);
    assert forall|i: int| 0 <= i < v.len() implies value(#[trigger] v[i], d, s) == Val::Int(
        ids[i] as int,
    ) by {
    }
    if exists|i: int| 0 <= i < ids.len() && #[trigger] ids[i] == x {
        let i = choose|i: int| 0 <= i < ids.len() && #[trigger] ids[i] == x;
        assert(is_true(equal_vals(Val::Int(x), value(v[i], d, s))));
    } else {
        assert forall|i: int| 0 <= i < v.len() implies equal_vals(
            Val::Int(x),
            value(#[trigger] v[i], d, s),
        ) == Val::Bool(false) by {
            assert(ids[i] != x);
        }
    }
}

/// Whether a text is one of some.
pub proof fn lemma_among_texts(x: Seq<char>, names: Seq<Seq<char>>, d: Data, s: Scope)
    ensures
        among(Val::Text(x), statement::text_terms(names), d, s) == Val::Bool(names.contains(x)),
{
    let v = statement::text_terms(names);
    assert forall|i: int| 0 <= i < v.len() implies value(#[trigger] v[i], d, s) == Val::Text(
        names[i],
    ) by {
    }
    if names.contains(x) {
        let i = choose|i: int| 0 <= i < names.len() && names[i] == x;
        assert(is_true(equal_vals(Val::Text(x), value(v[i], d, s))));
    } else {
        assert forall|i: int| 0 <= i < v.len() implies equal_vals(
            Val::Text(x),
            value(#[trigger] v[i], d, s),
        ) == Val::Bool(false) by {
            assert(names[i] != x);
        }
    }
}

} // verus!
