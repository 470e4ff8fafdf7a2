//! Statements and expressions of SQL, as the `sea_query` crate holds them.
//!
//! What an expression or a statement of `sea_query` holds is a [`Term`], a [`SelectTerm`],
//! an [`UpdateTerm`] or a [`TableTerm`]. The functions of this module each make one call of
//! `sea_query`, and their contracts say what the call puts where. How a statement is written
//! out as text is left to `sea_query`: the text of what a statement holds has a name.
use crate::text;
use crate::types::Number;
use sea_query::{
    Alias, BinOper, Expr, Func, JoinType, Order, PostgresQueryBuilder, Query, Table, UnionType,
};
use vstd::prelude::*;

verus! {

// ---------------------------------------------------------------------------
// What expressions and statements hold
// ---------------------------------------------------------------------------

/// What an expression holds.
pub enum Term {
    /// A column, with its table where that is written.
    Col(Option<Seq<char>>, Seq<char>),
    Text(Seq<char>),
    Int(int),
    Bool(bool),
    /// A number in double precision by its bits; nothing where it is missing.
    Number(Option<u64>),
    Null,
    Eq(Box<Term>, Box<Term>),
    Ne(Box<Term>, Box<Term>),
    Ge(Box<Term>, Box<Term>),
    Lt(Box<Term>, Box<Term>),
    And(Box<Term>, Box<Term>),
    Glob(Box<Term>, Box<Term>),
    Not(Box<Term>),
    IsNull(Box<Term>),
    IsNotNull(Box<Term>),
    In(Box<Term>, Seq<Term>),
    NotIn(Box<Term>, Seq<Term>),
    InSelect(Box<Term>, Box<SelectTerm>),
    Exists(Box<SelectTerm>),
    /// A cast to a type.
    Cast(Box<Term>, Seq<char>),
    /// A call of a function.
    Call(Seq<char>, Seq<Term>),
    /// SQL as it is written.
    Raw(Seq<char>),
    /// SQL as it is written, with numbered places that expressions are put into.
    Filled(Seq<char>, Seq<Term>),
    /// Conditions with their values, and the value where none holds.
    Case(Seq<(Term, Term)>, Box<Term>),
    /// Anything that no function of this module makes.
    Other,
}

/// A value in a row that is written out.
pub enum CellTerm {
    Int(i64),
    Text(Seq<char>),
    Bool(bool),
    /// A number in double precision by its bits; nothing where it is missing.
    Number(Option<u64>),
    NullInt,
    NullText,
    NullBool,
}

/// Where a selection takes its rows from.
pub enum FromTerm {
    Table(Seq<char>),
    Select(Box<SelectTerm>, Seq<char>),
    Call(Seq<char>, Seq<Term>, Seq<char>),
    Rows(Seq<Seq<CellTerm>>, Seq<char>),
}

/// What a selection holds.
pub struct SelectTerm {
    pub distinct: bool,
    /// All columns, or an expression under a name where it has one.
    pub items: Seq<ItemTerm>,
    pub from: Seq<FromTerm>,
    /// Selections that are joined, with their names and conditions.
    pub joins: Seq<(JoinTerm, SelectTerm, Seq<char>, Term)>,
    pub wheres: Seq<Term>,
    pub groups: Seq<Term>,
    /// Selections whose rows come as well: all of them, or each row once.
    pub unions: Seq<(UnionTerm, SelectTerm)>,
    /// What rows are ordered by, ascending or descending.
    pub orders: Seq<(Term, bool)>,
    pub limit: Option<u64>,
    pub offset: Option<u64>,
}

/// How rows are joined: those that have a partner, or all.
pub enum JoinTerm {
    Inner,
    Left,
}

pub enum UnionTerm {
    All,
    Distinct,
}

pub enum ItemTerm {
    All,
    One(Term, Option<Seq<char>>),
}

impl SelectTerm {
    pub open spec fn nothing() -> SelectTerm {
        SelectTerm {
            distinct: false,
            items: seq![],
            from: seq![],
            joins: seq![],
            wheres: seq![],
            groups: seq![],
            unions: seq![],
            orders: seq![],
            limit: None,
            offset: None,
        }
    }

    pub open spec fn with_item(self, e: Term, name: Seq<char>) -> SelectTerm {
        SelectTerm { items: self.items.push(ItemTerm::One(e, Some(name))), ..self }
    }

    pub open spec fn with_plain(self, e: Term) -> SelectTerm {
        SelectTerm { items: self.items.push(ItemTerm::One(e, None)), ..self }
    }

    pub open spec fn with_all(self) -> SelectTerm {
        SelectTerm { items: self.items.push(ItemTerm::All), ..self }
    }

    pub open spec fn with_from(self, f: FromTerm) -> SelectTerm {
        SelectTerm { from: self.from.push(f), ..self }
    }

    pub open spec fn with_where(self, e: Term) -> SelectTerm {
        SelectTerm { wheres: self.wheres.push(e), ..self }
    }

    pub open spec fn with_order(self, e: Term, ascending: bool) -> SelectTerm {
        SelectTerm { orders: self.orders.push((e, ascending)), ..self }
    }

    pub open spec fn with_union(self, s: SelectTerm) -> SelectTerm {
        SelectTerm { unions: self.unions.push((UnionTerm::All, s)), ..self }
    }

    pub open spec fn with_distinct_union(self, s: SelectTerm) -> SelectTerm {
        SelectTerm { unions: self.unions.push((UnionTerm::Distinct, s)), ..self }
    }

    pub open spec fn with_join(
        self,
        kind: JoinTerm,
        s: SelectTerm,
        name: Seq<char>,
        on: Term,
    ) -> SelectTerm {
        SelectTerm { joins: self.joins.push((kind, s, name, on)), ..self }
    }

    pub open spec fn with_group(self, e: Term) -> SelectTerm {
        SelectTerm { groups: self.groups.push(e), ..self }
    }
}

/// What an update holds.
pub struct UpdateTerm {
    pub table: Seq<char>,
    pub values: Seq<(Seq<char>, Term)>,
    pub wheres: Seq<Term>,
}

/// The type of a column.
pub enum KindTerm {
    String,
    Integer,
    BigInteger,
    Double,
    Boolean,
    Named(Seq<char>),
    /// Anything that no function of this module makes.
    Other,
}

/// What the definition of a column holds.
pub struct ColumnTerm {
    pub name: Seq<char>,
    pub kind: KindTerm,
}

/// What the creation of a table holds.
pub struct TableTerm {
    pub name: Seq<char>,
    pub columns: Seq<ColumnTerm>,
}

// ---------------------------------------------------------------------------
// The types of the crate
// ---------------------------------------------------------------------------

/// An expression of `sea_query`.
#[verifier::external_type_specification]
#[verifier::external_body]
pub struct ExSimpleExpr(sea_query::SimpleExpr);

/// A selection of `sea_query`.
#[verifier::external_type_specification]
#[verifier::external_body]
pub struct ExSelectStatement(sea_query::SelectStatement);

/// An update of `sea_query`.
#[verifier::external_type_specification]
#[verifier::external_body]
pub struct ExUpdateStatement(sea_query::UpdateStatement);

/// A case distinction of `sea_query`.
#[verifier::external_type_specification]
#[verifier::external_body]
pub struct ExCaseStatement(sea_query::CaseStatement);

/// The creation of a table of `sea_query`.
#[verifier::external_type_specification]
#[verifier::external_body]
pub struct ExTableCreateStatement(sea_query::TableCreateStatement);

/// What an expression holds.
pub uninterp spec fn expr_term(e: sea_query::SimpleExpr) -> Term;

/// What a selection holds.
pub uninterp spec fn select_term(q: sea_query::SelectStatement) -> SelectTerm;

/// What an update holds.
pub uninterp spec fn update_term(u: sea_query::UpdateStatement) -> UpdateTerm;

/// The conditions of a case distinction with their values.
pub uninterp spec fn case_term(c: sea_query::CaseStatement) -> Seq<(Term, Term)>;

/// What the creation of a table holds.
pub uninterp spec fn table_term(t: sea_query::TableCreateStatement) -> TableTerm;

pub open spec fn expr_terms(v: Seq<sea_query::SimpleExpr>) -> Seq<Term> {
    v.map_values(|e: sea_query::SimpleExpr| expr_term(e))
}

pub proof fn lemma_terms_push(v: Seq<sea_query::SimpleExpr>, e: sea_query::SimpleExpr)
    ensures
        expr_terms(v.push(e)) == expr_terms(v).push(expr_term(e)),
{
    assert(expr_terms(v.push(e)) =~= expr_terms(v).push(expr_term(e)));
}

// ---------------------------------------------------------------------------
// Expressions
// ---------------------------------------------------------------------------

/// `Expr::val` with a text: the expression is that text as a value.
#[verifier::external_body]
pub(crate) fn text_value(s: &str) -> (r: sea_query::SimpleExpr)
    ensures
        expr_term(r) == Term::Text(s@),
{
    Expr::val(s).into()
}

/// `Expr::val` with an integer: the expression is that integer as a value.
#[verifier::external_body]
pub(crate) fn int_value(i: i64) -> (r: sea_query::SimpleExpr)
    ensures
        expr_term(r) == Term::Int(i as int),
{
    Expr::val(i).into()
}

/// `Expr::val` with a truth value: the expression is that truth value.
#[verifier::external_body]
pub(crate) fn bool_value(b: bool) -> (r: sea_query::SimpleExpr)
    ensures
        expr_term(r) == Term::Bool(b),
{
    Expr::val(b).into()
}

/// `Expr::val` with a value that holds a number: the expression is that number.
#[verifier::external_body]
fn value_expr(v: sea_query::Value) -> (r: sea_query::SimpleExpr)
    requires
        value_term(v) is Number,
    ensures
        expr_term(r) == Term::Number(value_term(v)->Number_0),
{
    Expr::val(v).into()
}

/// A number as a value.
pub(crate) fn number_value(n: &Number) -> (r: sea_query::SimpleExpr)
    ensures
        expr_term(r) == Term::Number(double_read(n.shown@)),
{
    value_expr(double_cell(n.shown.as_str()))
}

/// `Expr::val` with no text: the expression is the missing value.
#[verifier::external_body]
pub(crate) fn null_value() -> (r: sea_query::SimpleExpr)
    ensures
        expr_term(r) == Term::Null,
{
    Expr::val(Option::<String>::None).into()
}

/// `Expr::col` with a name: the expression is that column.
#[verifier::external_body]
pub(crate) fn column(name: &str) -> (r: sea_query::SimpleExpr)
    ensures
        expr_term(r) == Term::Col(None, name@),
{
    Expr::col(Alias::new(name)).into()
}

/// `Expr::col` with a table and a name: the expression is that column of the table.
#[verifier::external_body]
pub(crate) fn column_of(table: &str, name: &str) -> (r: sea_query::SimpleExpr)
    ensures
        expr_term(r) == Term::Col(Some(table@), name@),
{
    Expr::col((Alias::new(table), Alias::new(name))).into()
}

/// `SimpleExpr::eq`: whether two expressions are equal.
#[verifier::external_body]
pub(crate) fn equal(a: sea_query::SimpleExpr, b: sea_query::SimpleExpr) -> (r:
    sea_query::SimpleExpr)
    ensures
        expr_term(r) == Term::Eq(Box::new(expr_term(a)), Box::new(expr_term(b))),
{
    a.eq(b)
}

/// `SimpleExpr::ne`: whether two expressions differ.
#[verifier::external_body]
pub(crate) fn unequal(a: sea_query::SimpleExpr, b: sea_query::SimpleExpr) -> (r:
    sea_query::SimpleExpr)
    ensures
        expr_term(r) == Term::Ne(Box::new(expr_term(a)), Box::new(expr_term(b))),
{
    a.ne(b)
}

/// `ExprTrait::gte`: whether an expression is at least another.
#[verifier::external_body]
pub(crate) fn at_least(a: sea_query::SimpleExpr, b: sea_query::SimpleExpr) -> (r:
    sea_query::SimpleExpr)
    ensures
        expr_term(r) == Term::Ge(Box::new(expr_term(a)), Box::new(expr_term(b))),
{
    sea_query::ExprTrait::gte(a, b)
}

/// `ExprTrait::lt`: whether an expression is less than another.
#[verifier::external_body]
pub(crate) fn below(a: sea_query::SimpleExpr, b: sea_query::SimpleExpr) -> (r:
    sea_query::SimpleExpr)
    ensures
        expr_term(r) == Term::Lt(Box::new(expr_term(a)), Box::new(expr_term(b))),
{
    sea_query::ExprTrait::lt(a, b)
}

/// `Expr::exists`: whether a selection has rows.
#[verifier::external_body]
pub(crate) fn has_rows(q: sea_query::SelectStatement) -> (r: sea_query::SimpleExpr)
    ensures
        expr_term(r) == Term::Exists(Box::new(select_term(q))),
{
    Expr::exists(q)
}

/// `SimpleExpr::and`: whether two expressions both hold.
#[verifier::external_body]
pub(crate) fn both(a: sea_query::SimpleExpr, b: sea_query::SimpleExpr) -> (r:
    sea_query::SimpleExpr)
    ensures
        expr_term(r) == Term::And(Box::new(expr_term(a)), Box::new(expr_term(b))),
{
    a.and(b)
}

/// `SimpleExpr::binary` with the operator `GLOB`.
#[verifier::external_body]
pub(crate) fn glob(a: sea_query::SimpleExpr, b: sea_query::SimpleExpr) -> (r:
    sea_query::SimpleExpr)
    ensures
        expr_term(r) == Term::Glob(Box::new(expr_term(a)), Box::new(expr_term(b))),
{
    a.binary(BinOper::Custom("GLOB"), b)
}

/// `SimpleExpr::not`: whether an expression does not hold.
#[verifier::external_body]
pub(crate) fn negate(a: sea_query::SimpleExpr) -> (r: sea_query::SimpleExpr)
    ensures
        expr_term(r) == Term::Not(Box::new(expr_term(a))),
{
    a.not()
}

/// `Expr::is_null` on an expression.
#[verifier::external_body]
pub(crate) fn missing(a: sea_query::SimpleExpr) -> (r: sea_query::SimpleExpr)
    ensures
        expr_term(r) == Term::IsNull(Box::new(expr_term(a))),
{
    Expr::expr(a).is_null()
}

/// `Expr::is_not_null` on an expression.
#[verifier::external_body]
pub(crate) fn given(a: sea_query::SimpleExpr) -> (r: sea_query::SimpleExpr)
    ensures
        expr_term(r) == Term::IsNotNull(Box::new(expr_term(a))),
{
    Expr::expr(a).is_not_null()
}

/// `Expr::is_in`: whether an expression is one of several.
#[verifier::external_body]
fn among(a: sea_query::SimpleExpr, v: Vec<sea_query::SimpleExpr>) -> (r: sea_query::SimpleExpr)
    ensures
        expr_term(r) == Term::In(Box::new(expr_term(a)), expr_terms(v@)),
{
    Expr::expr(a).is_in(v)
}

/// `Expr::is_not_in`: whether an expression is none of several.
#[verifier::external_body]
fn not_among(a: sea_query::SimpleExpr, v: Vec<sea_query::SimpleExpr>) -> (r: sea_query::SimpleExpr)
    ensures
        expr_term(r) == Term::NotIn(Box::new(expr_term(a)), expr_terms(v@)),
{
    Expr::expr(a).is_not_in(v)
}

pub open spec fn int_terms(v: Seq<i64>) -> Seq<Term> {
    v.map_values(|i: i64| Term::Int(i as int))
}

pub open spec fn text_terms(v: Seq<Seq<char>>) -> Seq<Term> {
    v.map_values(|s: Seq<char>| Term::Text(s))
}

fn int_values(v: Vec<i64>) -> (r: Vec<sea_query::SimpleExpr>)
    ensures
        expr_terms(r@) == int_terms(v@),
{
    let mut out: Vec<sea_query::SimpleExpr> = Vec::new();
    let mut i: usize = 0;
    while i < v.len()
        invariant
            i <= v@.len(),
            out@.len() == i,
            forall|k: int| 0 <= k < i ==> expr_term(#[trigger] out@[k]) == Term::Int(v@[k] as int),
        decreases v.len() - i,
    {
        out.push(int_value(v[i]));
        i += 1;
    }
    proof {
        assert(expr_terms(out@) =~= int_terms(v@));
    }
    out
}

fn text_values(v: Vec<String>) -> (r: Vec<sea_query::SimpleExpr>)
    ensures
        expr_terms(r@) == text_terms(text::texts(v@)),
{
    let mut out: Vec<sea_query::SimpleExpr> = Vec::new();
    let mut i: usize = 0;
    while i < v.len()
        invariant
            i <= v@.len(),
            out@.len() == i,
            forall|k: int| 0 <= k < i ==> expr_term(#[trigger] out@[k]) == Term::Text(v@[k]@),
        decreases v.len() - i,
    {
        out.push(text_value(v[i].as_str()));
        i += 1;
    }
    proof {
        assert(expr_terms(out@) =~= text_terms(text::texts(v@)));
    }
    out
}

/// Whether an expression is one of some integers.
pub(crate) fn among_ints(a: sea_query::SimpleExpr, v: Vec<i64>) -> (r: sea_query::SimpleExpr)
    ensures
        expr_term(r) == Term::In(Box::new(expr_term(a)), int_terms(v@)),
{
    among(a, int_values(v))
}

/// Whether an expression is none of some integers.
pub(crate) fn not_among_ints(a: sea_query::SimpleExpr, v: Vec<i64>) -> (r: sea_query::SimpleExpr)
    ensures
        expr_term(r) == Term::NotIn(Box::new(expr_term(a)), int_terms(v@)),
{
    not_among(a, int_values(v))
}

/// Whether an expression is none of some texts.
pub(crate) fn not_among_texts(a: sea_query::SimpleExpr, v: Vec<String>) -> (r:
    sea_query::SimpleExpr)
    ensures
        expr_term(r) == Term::NotIn(Box::new(expr_term(a)), text_terms(text::texts(v@))),
{
    not_among(a, text_values(v))
}

/// `Expr::in_subquery`: whether an expression is among the rows of a selection.
#[verifier::external_body]
pub(crate) fn among_rows(a: sea_query::SimpleExpr, q: sea_query::SelectStatement) -> (r:
    sea_query::SimpleExpr)
    ensures
        expr_term(r) == Term::InSelect(Box::new(expr_term(a)), Box::new(select_term(q))),
{
    Expr::expr(a).in_subquery(q)
}

/// `SimpleExpr::cast_as`: an expression as another type.
#[verifier::external_body]
pub(crate) fn cast(a: sea_query::SimpleExpr, ty: &str) -> (r: sea_query::SimpleExpr)
    ensures
        expr_term(r) == Term::Cast(Box::new(expr_term(a)), ty@),
{
    a.cast_as(Alias::new(ty))
}

/// `Func::cust` and `FunctionCall::args`: a call of a function.
#[verifier::external_body]
pub(crate) fn call(name: &str, args: Vec<sea_query::SimpleExpr>) -> (r: sea_query::SimpleExpr)
    ensures
        expr_term(r) == Term::Call(name@, expr_terms(args@)),
{
    Func::cust(Alias::new(name)).args(args).into()
}

/// `Expr::cust`: SQL as it is written.
#[verifier::external_body]
pub(crate) fn raw(sql: String) -> (r: sea_query::SimpleExpr)
    ensures
        expr_term(r) == Term::Raw(sql@),
{
    Expr::cust(sql)
}

/// `Expr::cust_with_exprs`: SQL as it is written, with expressions for its numbered places.
#[verifier::external_body]
pub(crate) fn filled(sql: String, args: Vec<sea_query::SimpleExpr>) -> (r: sea_query::SimpleExpr)
    ensures
        expr_term(r) == Term::Filled(sql@, expr_terms(args@)),
{
    Expr::cust_with_exprs(sql, args)
}

/// `SimpleExpr::clone`: the same expression.
#[verifier::external_body]
pub(crate) fn copy_expr(e: &sea_query::SimpleExpr) -> (r: sea_query::SimpleExpr)
    ensures
        expr_term(r) == expr_term(*e),
{
    e.clone()
}

/// `SelectStatement::clone`: the same selection.
#[verifier::external_body]
pub(crate) fn copy_select(q: &sea_query::SelectStatement) -> (r: sea_query::SelectStatement)
    ensures
        select_term(r) == select_term(*q),
{
    q.clone()
}

/// `CaseStatement::new`: a case distinction without cases.
#[verifier::external_body]
pub(crate) fn cases() -> (r: sea_query::CaseStatement)
    ensures
        case_term(r) == Seq::<(Term, Term)>::empty(),
{
    sea_query::CaseStatement::new()
}

/// `CaseStatement::case`: a case distinction with one more case at its end.
#[verifier::external_body]
pub(crate) fn when(
    c: sea_query::CaseStatement,
    cond: sea_query::SimpleExpr,
    value: sea_query::SimpleExpr,
) -> (r: sea_query::CaseStatement)
    ensures
        case_term(r) == case_term(c).push((expr_term(cond), expr_term(value))),
{
    c.case(cond, value)
}

/// `CaseStatement::finally`: a case distinction as an expression, with the value where no
/// case holds.
#[verifier::external_body]
pub(crate) fn otherwise(c: sea_query::CaseStatement, value: sea_query::SimpleExpr) -> (r:
    sea_query::SimpleExpr)
    ensures
        expr_term(r) == Term::Case(case_term(c), Box::new(expr_term(value))),
{
    c.finally(value).into()
}

// ---------------------------------------------------------------------------
// Selections
// ---------------------------------------------------------------------------

/// `Query::select`: a selection of nothing.
#[verifier::external_body]
pub(crate) fn select() -> (r: sea_query::SelectStatement)
    ensures
        select_term(r) == SelectTerm::nothing(),
{
    Query::select()
}

/// `SelectStatement::expr_as`: one more expression, under a name.
#[verifier::external_body]
pub(crate) fn add_item(q: &mut sea_query::SelectStatement, e: sea_query::SimpleExpr, name: &str)
    ensures
        select_term(*final(q)) == select_term(*old(q)).with_item(expr_term(e), name@),
{
    q.expr_as(e, Alias::new(name));
}

/// `SelectStatement::expr`: one more expression.
#[verifier::external_body]
pub(crate) fn add_plain(q: &mut sea_query::SelectStatement, e: sea_query::SimpleExpr)
    ensures
        select_term(*final(q)) == select_term(*old(q)).with_plain(expr_term(e)),
{
    q.expr(e);
}

/// `SelectStatement::column` with `Asterisk`: all columns.
#[verifier::external_body]
pub(crate) fn add_all(q: &mut sea_query::SelectStatement)
    ensures
        select_term(*final(q)) == select_term(*old(q)).with_all(),
{
    q.column(sea_query::Asterisk);
}

/// `SelectStatement::distinct`: each row once.
#[verifier::external_body]
pub(crate) fn set_distinct(q: &mut sea_query::SelectStatement)
    ensures
        select_term(*final(q)) == (SelectTerm { distinct: true, ..select_term(*old(q)) }),
{
    q.distinct();
}

/// `SelectStatement::from`: rows of a table.
#[verifier::external_body]
pub(crate) fn from_table(q: &mut sea_query::SelectStatement, table: &str)
    ensures
        select_term(*final(q)) == select_term(*old(q)).with_from(FromTerm::Table(table@)),
{
    q.from(Alias::new(table));
}

/// `SelectStatement::from_subquery`: rows of another selection, under a name.
#[verifier::external_body]
pub(crate) fn from_select(
    q: &mut sea_query::SelectStatement,
    sub: sea_query::SelectStatement,
    name: &str,
)
    ensures
        select_term(*final(q)) == select_term(*old(q)).with_from(
            FromTerm::Select(Box::new(select_term(sub)), name@),
        ),
{
    q.from_subquery(sub, Alias::new(name));
}

/// `SelectStatement::from_function`: rows that a function gives, under a name.
#[verifier::external_body]
pub(crate) fn from_call(
    q: &mut sea_query::SelectStatement,
    function: &str,
    args: Vec<sea_query::SimpleExpr>,
    name: &str,
)
    ensures
        select_term(*final(q)) == select_term(*old(q)).with_from(
            FromTerm::Call(function@, expr_terms(args@), name@),
        ),
{
    q.from_function(Func::cust(Alias::new(function)).args(args), Alias::new(name));
}

/// `SelectStatement::join_subquery` on the left: rows of another selection where a condition
/// holds, under a name.
#[verifier::external_body]
pub(crate) fn left_join(
    q: &mut sea_query::SelectStatement,
    sub: sea_query::SelectStatement,
    name: &str,
    on: sea_query::SimpleExpr,
)
    ensures
        select_term(*final(q)) == select_term(*old(q)).with_join(
            JoinTerm::Left,
            select_term(sub),
            name@,
            expr_term(on),
        ),
{
    q.join_subquery(JoinType::LeftJoin, sub, Alias::new(name), on);
}

/// `SelectStatement::join_subquery` of rows that have a partner: rows of another selection
/// where a condition holds, under a name.
#[verifier::external_body]
pub(crate) fn inner_join(
    q: &mut sea_query::SelectStatement,
    sub: sea_query::SelectStatement,
    name: &str,
    on: sea_query::SimpleExpr,
)
    ensures
        select_term(*final(q)) == select_term(*old(q)).with_join(
            JoinTerm::Inner,
            select_term(sub),
            name@,
            expr_term(on),
        ),
{
    q.join_subquery(JoinType::InnerJoin, sub, Alias::new(name), on);
}

/// `SelectStatement::and_where`: one more condition on the rows.
#[verifier::external_body]
pub(crate) fn and_where(q: &mut sea_query::SelectStatement, e: sea_query::SimpleExpr)
    ensures
        select_term(*final(q)) == select_term(*old(q)).with_where(expr_term(e)),
{
    q.and_where(e);
}

/// `SelectStatement::add_group_by`: one more expression that rows are grouped by.
#[verifier::external_body]
pub(crate) fn group_by(q: &mut sea_query::SelectStatement, e: sea_query::SimpleExpr)
    ensures
        select_term(*final(q)) == select_term(*old(q)).with_group(expr_term(e)),
{
    q.add_group_by([e]);
}

/// `SelectStatement::union` of all rows: the rows of another selection as well.
#[verifier::external_body]
pub(crate) fn union_all(q: &mut sea_query::SelectStatement, other: sea_query::SelectStatement)
    ensures
        select_term(*final(q)) == select_term(*old(q)).with_union(select_term(other)),
{
    q.union(UnionType::All, other);
}

/// `SelectStatement::union` of rows that differ: the rows of another selection as well, each
/// row once.
#[verifier::external_body]
pub(crate) fn union_distinct(q: &mut sea_query::SelectStatement, other: sea_query::SelectStatement)
    ensures
        select_term(*final(q)) == select_term(*old(q)).with_distinct_union(select_term(other)),
{
    q.union(UnionType::Distinct, other);
}

/// `SelectStatement::order_by_expr`, ascending: one more expression that rows are ordered by.
#[verifier::external_body]
pub(crate) fn order_by(q: &mut sea_query::SelectStatement, e: sea_query::SimpleExpr)
    ensures
        select_term(*final(q)) == select_term(*old(q)).with_order(expr_term(e), true),
{
    q.order_by_expr(e, Order::Asc);
}

/// `SelectStatement::limit`: at most so many rows.
#[verifier::external_body]
pub(crate) fn set_limit(q: &mut sea_query::SelectStatement, n: u64)
    ensures
        select_term(*final(q)) == (SelectTerm { limit: Some(n), ..select_term(*old(q)) }),
{
    q.limit(n);
}

/// `SelectStatement::offset`: without so many rows at the start.
#[verifier::external_body]
pub(crate) fn set_offset(q: &mut sea_query::SelectStatement, n: u64)
    ensures
        select_term(*final(q)) == (SelectTerm { offset: Some(n), ..select_term(*old(q)) }),
{
    q.offset(n);
}

/// A value in a row that is written out.
#[derive(Debug)]
pub enum Cell {
    Int(Option<i64>),
    Text(Option<String>),
    Bool(Option<bool>),
    Number(Option<Number>),
}

impl View for Cell {
    type V = CellTerm;

    open spec fn view(&self) -> CellTerm {
        match *self {
            Cell::Int(Some(i)) => CellTerm::Int(i),
            Cell::Int(None) => CellTerm::NullInt,
            Cell::Text(Some(s)) => CellTerm::Text(s@),
            Cell::Text(None) => CellTerm::NullText,
            Cell::Bool(Some(b)) => CellTerm::Bool(b),
            Cell::Bool(None) => CellTerm::NullBool,
            Cell::Number(Some(n)) => CellTerm::Number(double_read(n.shown@)),
            Cell::Number(None) => CellTerm::Number(None),
        }
    }
}

pub open spec fn cell_terms(v: Seq<Cell>) -> Seq<CellTerm> {
    v.map_values(|c: Cell| c@)
}

pub open spec fn row_terms(v: Seq<Vec<Cell>>) -> Seq<Seq<CellTerm>> {
    v.map_values(|r: Vec<Cell>| cell_terms(r@))
}

/// The value of `sea_query` that a value in a row stands for.
#[verifier::external_type_specification]
#[verifier::external_body]
pub struct ExValue(sea_query::Value);

/// What a value holds.
pub uninterp spec fn value_term(v: sea_query::Value) -> CellTerm;

pub open spec fn value_terms(v: Seq<sea_query::Value>) -> Seq<CellTerm> {
    v.map_values(|x: sea_query::Value| value_term(x))
}

pub open spec fn value_rows(v: Seq<Vec<sea_query::Value>>) -> Seq<Seq<CellTerm>> {
    v.map_values(|r: Vec<sea_query::Value>| value_terms(r@))
}

/// `Value::from` on an integer, which may be missing.
#[verifier::external_body]
fn int_cell(v: Option<i64>) -> (r: sea_query::Value)
    ensures
        value_term(r) == Cell::Int(v)@,
{
    sea_query::Value::from(v)
}

/// `Value::from` on a text, which may be missing.
#[verifier::external_body]
fn text_cell(v: Option<String>) -> (r: sea_query::Value)
    ensures
        value_term(r) == Cell::Text(v)@,
{
    sea_query::Value::from(v)
}

/// `Value::from` on a truth value, which may be missing.
#[verifier::external_body]
fn bool_cell(v: Option<bool>) -> (r: sea_query::Value)
    ensures
        value_term(r) == Cell::Bool(v)@,
{
    sea_query::Value::from(v)
}

/// `Value::Double` without a number.
#[verifier::external_body]
fn missing_number() -> (r: sea_query::Value)
    ensures
        value_term(r) == CellTerm::Number(None),
{
    sea_query::Value::Double(None)
}

/// The bits of the number in double precision that a text is read as, if it is read as one.
pub uninterp spec fn double_read(s: Seq<char>) -> Option<u64>;

/// `Value::Double` with the number that `str::parse` reads a text as. A text that is read as
/// no number makes a missing one.
#[verifier::external_body]
fn double_cell(s: &str) -> (r: sea_query::Value)
    ensures
        value_term(r) == CellTerm::Number(double_read(s@)),
{
    sea_query::Value::Double(s.parse().ok())
}

fn cell_value(c: Cell) -> (r: sea_query::Value)
    ensures
        value_term(r) == c@,
{
    match c {
        Cell::Int(v) => int_cell(v),
        Cell::Text(v) => text_cell(v),
        Cell::Bool(v) => bool_cell(v),
        Cell::Number(Some(n)) => double_cell(n.shown.as_str()),
        Cell::Number(None) => missing_number(),
    }
}

fn row_values(row: Vec<Cell>) -> (r: Vec<sea_query::Value>)
    ensures
        value_terms(r@) == cell_terms(row@),
{
    let ghost whole = row@;
    let mut rest = row;
    let mut out: Vec<sea_query::Value> = Vec::new();
    let ghost mut done: int = 0;
    proof {
        assert(whole.skip(0) =~= whole);
        assert(value_terms(out@) =~= cell_terms(whole).take(0));
    }
    while rest.len() > 0
        invariant
            0 <= done <= whole.len(),
            rest@ == whole.skip(done),
            value_terms(out@) == cell_terms(whole).take(done),
        decreases rest@.len(),
    {
        let c = rest.remove(0);
        proof {
            assert(c == whole[done]);
            assert(rest@ =~= whole.skip(done + 1));
        }
        let v = cell_value(c);
        proof {
            assert(value_terms(out@.push(v)) =~= value_terms(out@).push(value_term(v)));
            assert(cell_terms(whole).take(done + 1) =~= cell_terms(whole).take(done).push(
                whole[done]@,
            ));
        }
        out.push(v);
        proof {
            done = done + 1;
        }
    }
    proof {
        assert(cell_terms(whole).take(whole.len() as int) =~= cell_terms(whole));
    }
    out
}

/// `SelectStatement::from_values`: rows that are written out, under a name. There must be
/// one.
#[verifier::external_body]
fn from_value_rows(q: &mut sea_query::SelectStatement, rows: Vec<Vec<sea_query::Value>>, name: &str)
    requires
        rows@.len() > 0,
    ensures
        select_term(*final(q)) == select_term(*old(q)).with_from(
            FromTerm::Rows(value_rows(rows@), name@),
        ),
{
    q.from_values(rows.into_iter().map(sea_query::ValueTuple::Many), Alias::new(name));
}

/// Takes rows that are written out, under a name. There must be one.
pub(crate) fn from_rows(q: &mut sea_query::SelectStatement, rows: Vec<Vec<Cell>>, name: &str)
    requires
        rows@.len() > 0,
    ensures
        select_term(*final(q)) == select_term(*old(q)).with_from(
            FromTerm::Rows(row_terms(rows@), name@),
        ),
{
    let ghost whole = rows@;
    let mut rest = rows;
    let mut out: Vec<Vec<sea_query::Value>> = Vec::new();
    let ghost mut done: int = 0;
    proof {
        assert(whole.skip(0) =~= whole);
        assert(value_rows(out@) =~= row_terms(whole).take(0));
    }
    while rest.len() > 0
        invariant
            0 <= done <= whole.len(),
            rest@ == whole.skip(done),
            value_rows(out@) == row_terms(whole).take(done),
            out@.len() == done,
        decreases rest@.len(),
    {
        let r = rest.remove(0);
        proof {
            assert(r == whole[done]);
            assert(rest@ =~= whole.skip(done + 1));
        }
        let v = row_values(r);
        proof {
            assert(value_rows(out@.push(v)) =~= value_rows(out@).push(value_terms(v@)));
            assert(row_terms(whole).take(done + 1) =~= row_terms(whole).take(done).push(
                cell_terms(whole[done]@),
            ));
        }
        out.push(v);
        proof {
            done = done + 1;
        }
    }
    proof {
        assert(row_terms(whole).take(whole.len() as int) =~= row_terms(whole));
    }
    from_value_rows(q, out, name);
}

// ---------------------------------------------------------------------------
// Updates and tables
// ---------------------------------------------------------------------------

/// `Query::update` and `UpdateStatement::table`: an update of a table.
#[verifier::external_body]
pub(crate) fn update(table: &str) -> (r: sea_query::UpdateStatement)
    ensures
        update_term(r) == (UpdateTerm { table: table@, values: seq![], wheres: seq![] }),
{
    Query::update().table(Alias::new(table)).to_owned()
}

/// `UpdateStatement::value`: one more column that is set.
#[verifier::external_body]
pub(crate) fn set_column(u: &mut sea_query::UpdateStatement, name: &str, e: sea_query::SimpleExpr)
    ensures
        update_term(*final(u)) == (UpdateTerm {
            values: update_term(*old(u)).values.push((name@, expr_term(e))),
            ..update_term(*old(u))
        }),
{
    u.value(Alias::new(name), e);
}

/// `UpdateStatement::and_where`: one more condition on the rows.
#[verifier::external_body]
pub(crate) fn update_where(u: &mut sea_query::UpdateStatement, e: sea_query::SimpleExpr)
    ensures
        update_term(*final(u)) == (UpdateTerm {
            wheres: update_term(*old(u)).wheres.push(expr_term(e)),
            ..update_term(*old(u))
        }),
{
    u.and_where(e);
}

/// `Table::create` and `TableCreateStatement::table`: the creation of a table without
/// columns.
#[verifier::external_body]
pub(crate) fn create_table(name: &str) -> (r: sea_query::TableCreateStatement)
    ensures
        table_term(r) == (TableTerm { name: name@, columns: seq![] }),
{
    Table::create().table(Alias::new(name)).to_owned()
}

pub open spec fn with_column(t: TableTerm, name: Seq<char>, kind: KindTerm) -> TableTerm {
    TableTerm { columns: t.columns.push(ColumnTerm { name, kind }), ..t }
}

/// `TableCreateStatement::col` with a column that `ColumnDef::string` gave its type: one more column.
#[verifier::external_body]
pub(crate) fn add_string(t: &mut sea_query::TableCreateStatement, name: &str)
    ensures
        table_term(*final(t)) == with_column(table_term(*old(t)), name@, KindTerm::String),
{
    t.col(sea_query::ColumnDef::new(Alias::new(name)).string());
}

/// `TableCreateStatement::col` with a column that `ColumnDef::integer` gave its type: one more column.
#[verifier::external_body]
pub(crate) fn add_integer(t: &mut sea_query::TableCreateStatement, name: &str)
    ensures
        table_term(*final(t)) == with_column(table_term(*old(t)), name@, KindTerm::Integer),
{
    t.col(sea_query::ColumnDef::new(Alias::new(name)).integer());
}

/// `TableCreateStatement::col` with a column that `ColumnDef::big_integer` gave its type: one more column.
#[verifier::external_body]
pub(crate) fn add_big_integer(t: &mut sea_query::TableCreateStatement, name: &str)
    ensures
        table_term(*final(t)) == with_column(table_term(*old(t)), name@, KindTerm::BigInteger),
{
    t.col(sea_query::ColumnDef::new(Alias::new(name)).big_integer());
}

/// `TableCreateStatement::col` with a column that `ColumnDef::double` gave its type: one more column.
#[verifier::external_body]
pub(crate) fn add_double(t: &mut sea_query::TableCreateStatement, name: &str)
    ensures
        table_term(*final(t)) == with_column(table_term(*old(t)), name@, KindTerm::Double),
{
    t.col(sea_query::ColumnDef::new(Alias::new(name)).double());
}

/// `TableCreateStatement::col` with a column that `ColumnDef::boolean` gave its type: one more column.
#[verifier::external_body]
pub(crate) fn add_boolean(t: &mut sea_query::TableCreateStatement, name: &str)
    ensures
        table_term(*final(t)) == with_column(table_term(*old(t)), name@, KindTerm::Boolean),
{
    t.col(sea_query::ColumnDef::new(Alias::new(name)).boolean());
}

/// `TableCreateStatement::col` with a column that `ColumnDef::custom` gave its type by name:
/// one more column.
#[verifier::external_body]
pub(crate) fn add_named(t: &mut sea_query::TableCreateStatement, name: &str, ty: &str)
    ensures
        table_term(*final(t)) == with_column(table_term(*old(t)), name@, KindTerm::Named(ty@)),
{
    t.col(sea_query::ColumnDef::new(Alias::new(name)).custom(Alias::new(ty)));
}

// ---------------------------------------------------------------------------
// Statements as text
// ---------------------------------------------------------------------------

/// Whether each of the numbered places of a text is one of the first `n`: a dollar sign with
/// its digit, behind which the text ends or goes on with a blank, a comma or a bracket.
pub open spec fn places_fit(sql: Seq<char>, n: nat) -> bool {
    forall|i: int|
        0 <= i < sql.len() && #[trigger] sql[i] == '$' ==> {
            &&& i + 1 < sql.len()
            &&& '1' <= sql[i + 1] <= '9'
            &&& sql[i + 1] as int - '0' as int <= n
            &&& i + 2 < sql.len() ==> (sql[i + 2] == ' ' || sql[i + 2] == ',' || sql[i + 2] == ')')
        }
}

/// Whether there is an expression for each place of the texts in an expression, which holds
/// nothing but what this module makes.
pub open spec fn term_fits(t: Term) -> bool
    decreases t,
{
    match t {
        Term::Col(_, _) => true,
        Term::Text(_) => true,
        Term::Int(_) => true,
        Term::Bool(_) => true,
        Term::Number(_) => true,
        Term::Null => true,
        Term::Raw(_) => true,
        Term::Eq(a, b) => term_fits(*a) && term_fits(*b),
        Term::Ne(a, b) => term_fits(*a) && term_fits(*b),
        Term::Ge(a, b) => term_fits(*a) && term_fits(*b),
        Term::Lt(a, b) => term_fits(*a) && term_fits(*b),
        Term::And(a, b) => term_fits(*a) && term_fits(*b),
        Term::Glob(a, b) => term_fits(*a) && term_fits(*b),
        Term::Not(a) => term_fits(*a),
        Term::IsNull(a) => term_fits(*a),
        Term::IsNotNull(a) => term_fits(*a),
        Term::In(a, v) => term_fits(*a) && terms_fit(v),
        Term::NotIn(a, v) => term_fits(*a) && terms_fit(v),
        Term::InSelect(a, q) => term_fits(*a) && select_fits(*q),
        Term::Exists(q) => select_fits(*q),
        Term::Cast(a, _) => term_fits(*a),
        Term::Call(_, v) => terms_fit(v),
        Term::Filled(sql, v) => places_fit(sql, v.len()) && terms_fit(v),
        Term::Case(v, otherwise) => term_fits(*otherwise) && cases_fit(v),
        Term::Other => false,
    }
}

/// Whether there is an expression for each place of the texts in some expressions.
pub open spec fn terms_fit(v: Seq<Term>) -> bool
    decreases v,
{
    forall|i: int| 0 <= i < v.len() ==> term_fits(#[trigger] v[i])
}

/// Whether there is an expression for each place of the texts in some cases.
pub open spec fn cases_fit(v: Seq<(Term, Term)>) -> bool
    decreases v,
{
    forall|i: int| 0 <= i < v.len() ==> term_fits((#[trigger] v[i]).0) && term_fits(v[i].1)
}

/// Whether there is an expression for each place of the texts in what rows are taken from.
pub open spec fn from_fits(f: FromTerm) -> bool
    decreases f,
{
    match f {
        FromTerm::Table(_) => true,
        FromTerm::Select(q, _) => select_fits(*q),
        FromTerm::Call(_, v, _) => terms_fit(v),
        FromTerm::Rows(_, _) => true,
    }
}

/// Whether there is an expression for each place of the texts in an item.
pub open spec fn item_fits(t: ItemTerm) -> bool
    decreases t,
{
    match t {
        ItemTerm::All => true,
        ItemTerm::One(e, _) => term_fits(e),
    }
}

/// Whether there is an expression for each place of the texts in a selection.
pub open spec fn select_fits(q: SelectTerm) -> bool
    decreases q,
{
    &&& forall|i: int| 0 <= i < q.items.len() ==> item_fits(#[trigger] q.items[i])
    &&& forall|i: int| 0 <= i < q.from.len() ==> from_fits(#[trigger] q.from[i])
    &&& forall|i: int|
        0 <= i < q.joins.len() ==> select_fits((#[trigger] q.joins[i]).1) && term_fits(q.joins[i].3)
    &&& forall|i: int| 0 <= i < q.wheres.len() ==> term_fits(#[trigger] q.wheres[i])
    &&& forall|i: int| 0 <= i < q.groups.len() ==> term_fits(#[trigger] q.groups[i])
    &&& forall|i: int| 0 <= i < q.unions.len() ==> select_fits((#[trigger] q.unions[i]).1)
    &&& forall|i: int| 0 <= i < q.orders.len() ==> term_fits((#[trigger] q.orders[i]).0)
}

/// What is made of parts that fit fits.
pub broadcast group group_fits {
    lemma_fits_eq,
    lemma_fits_ne,
    lemma_fits_ge,
    lemma_fits_lt,
    lemma_fits_and,
    lemma_fits_glob,
    lemma_fits_not,
    lemma_fits_missing,
    lemma_fits_given,
    lemma_fits_cast,
    lemma_fits_among,
    lemma_fits_not_among,
    lemma_fits_in_select,
    lemma_fits_exists,
    lemma_fits_call,
    lemma_fits_filled,
    lemma_fits_case,
    lemma_fits_push,
    lemma_fits_cases_push,
    lemma_ints_fit,
    lemma_texts_fit,
    lemma_fits_from_select,
    lemma_fits_from_call,
    lemma_fits_with_item,
    lemma_fits_with_plain,
    lemma_fits_with_all,
    lemma_fits_with_from,
    lemma_fits_with_where,
    lemma_fits_with_order,
    lemma_fits_with_group,
    lemma_fits_with_union,
    lemma_fits_with_distinct_union,
    lemma_fits_with_join,
}

pub broadcast proof fn lemma_fits_eq(a: Box<Term>, b: Box<Term>)
    ensures
        #[trigger] term_fits(Term::Eq(a, b)) == (term_fits(*a) && term_fits(*b)),
{
}

pub broadcast proof fn lemma_fits_ne(a: Box<Term>, b: Box<Term>)
    ensures
        #[trigger] term_fits(Term::Ne(a, b)) == (term_fits(*a) && term_fits(*b)),
{
}

pub broadcast proof fn lemma_fits_ge(a: Box<Term>, b: Box<Term>)
    ensures
        #[trigger] term_fits(Term::Ge(a, b)) == (term_fits(*a) && term_fits(*b)),
{
}

pub broadcast proof fn lemma_fits_lt(a: Box<Term>, b: Box<Term>)
    ensures
        #[trigger] term_fits(Term::Lt(a, b)) == (term_fits(*a) && term_fits(*b)),
{
}

pub broadcast proof fn lemma_fits_and(a: Box<Term>, b: Box<Term>)
    ensures
        #[trigger] term_fits(Term::And(a, b)) == (term_fits(*a) && term_fits(*b)),
{
}

pub broadcast proof fn lemma_fits_glob(a: Box<Term>, b: Box<Term>)
    ensures
        #[trigger] term_fits(Term::Glob(a, b)) == (term_fits(*a) && term_fits(*b)),
{
}

pub broadcast proof fn lemma_fits_not(a: Box<Term>)
    ensures
        #[trigger] term_fits(Term::Not(a)) == term_fits(*a),
{
}

pub broadcast proof fn lemma_fits_missing(a: Box<Term>)
    ensures
        #[trigger] term_fits(Term::IsNull(a)) == term_fits(*a),
{
}

pub broadcast proof fn lemma_fits_given(a: Box<Term>)
    ensures
        #[trigger] term_fits(Term::IsNotNull(a)) == term_fits(*a),
{
}

pub broadcast proof fn lemma_fits_cast(a: Box<Term>, ty: Seq<char>)
    ensures
        #[trigger] term_fits(Term::Cast(a, ty)) == term_fits(*a),
{
}

pub broadcast proof fn lemma_fits_among(a: Box<Term>, v: Seq<Term>)
    ensures
        #[trigger] term_fits(Term::In(a, v)) == (term_fits(*a) && terms_fit(v)),
{
}

pub broadcast proof fn lemma_fits_not_among(a: Box<Term>, v: Seq<Term>)
    ensures
        #[trigger] term_fits(Term::NotIn(a, v)) == (term_fits(*a) && terms_fit(v)),
{
}

pub broadcast proof fn lemma_fits_in_select(a: Box<Term>, q: Box<SelectTerm>)
    ensures
        #[trigger] term_fits(Term::InSelect(a, q)) == (term_fits(*a) && select_fits(*q)),
{
}

pub broadcast proof fn lemma_fits_exists(q: Box<SelectTerm>)
    ensures
        #[trigger] term_fits(Term::Exists(q)) == select_fits(*q),
{
}

pub broadcast proof fn lemma_fits_call(name: Seq<char>, v: Seq<Term>)
    ensures
        #[trigger] term_fits(Term::Call(name, v)) == terms_fit(v),
{
}

pub broadcast proof fn lemma_fits_filled(sql: Seq<char>, v: Seq<Term>)
    ensures
        #[trigger] term_fits(Term::Filled(sql, v)) == (places_fit(sql, v.len()) && terms_fit(v)),
{
}

pub broadcast proof fn lemma_fits_case(v: Seq<(Term, Term)>, otherwise: Box<Term>)
    ensures
        #[trigger] term_fits(Term::Case(v, otherwise)) == (term_fits(*otherwise) && cases_fit(v)),
{
}

pub broadcast proof fn lemma_fits_push(v: Seq<Term>, t: Term)
    requires
        terms_fit(v),
        term_fits(t),
    ensures
        #[trigger] terms_fit(v.push(t)),
{
}

pub broadcast proof fn lemma_fits_cases_push(v: Seq<(Term, Term)>, t: (Term, Term))
    requires
        cases_fit(v),
        term_fits(t.0),
        term_fits(t.1),
    ensures
        #[trigger] cases_fit(v.push(t)),
{
}

pub broadcast proof fn lemma_ints_fit(v: Seq<i64>)
    ensures
        #[trigger] terms_fit(int_terms(v)),
{
    assert forall|i: int| 0 <= i < v.len() implies term_fits(#[trigger] int_terms(v)[i]) by {
        assert(int_terms(v)[i] == Term::Int(v[i] as int));
    }
}

pub broadcast proof fn lemma_texts_fit(v: Seq<Seq<char>>)
    ensures
        #[trigger] terms_fit(text_terms(v)),
{
    assert forall|i: int| 0 <= i < v.len() implies term_fits(#[trigger] text_terms(v)[i]) by {
        assert(text_terms(v)[i] == Term::Text(v[i]));
    }
}

pub broadcast proof fn lemma_fits_from_select(q: Box<SelectTerm>, name: Seq<char>)
    ensures
        #[trigger] from_fits(FromTerm::Select(q, name)) == select_fits(*q),
{
}

pub broadcast proof fn lemma_fits_from_call(f: Seq<char>, v: Seq<Term>, name: Seq<char>)
    ensures
        #[trigger] from_fits(FromTerm::Call(f, v, name)) == terms_fit(v),
{
}

pub broadcast proof fn lemma_fits_with_item(q: SelectTerm, e: Term, name: Seq<char>)
    requires
        select_fits(q),
        term_fits(e),
    ensures
        #[trigger] select_fits(q.with_item(e, name)),
{
    let a = q.with_item(e, name);
    assert forall|i: int| 0 <= i < a.items.len() implies item_fits(#[trigger] a.items[i]) by {
        if i < q.items.len() {
            assert(a.items[i] == q.items[i]);
        }
    }
}

pub broadcast proof fn lemma_fits_with_plain(q: SelectTerm, e: Term)
    requires
        select_fits(q),
        term_fits(e),
    ensures
        #[trigger] select_fits(q.with_plain(e)),
{
    let a = q.with_plain(e);
    assert forall|i: int| 0 <= i < a.items.len() implies item_fits(#[trigger] a.items[i]) by {
        if i < q.items.len() {
            assert(a.items[i] == q.items[i]);
        }
    }
}

pub broadcast proof fn lemma_fits_with_all(q: SelectTerm)
    requires
        select_fits(q),
    ensures
        #[trigger] select_fits(q.with_all()),
{
    let a = q.with_all();
    assert forall|i: int| 0 <= i < a.items.len() implies item_fits(#[trigger] a.items[i]) by {
        if i < q.items.len() {
            assert(a.items[i] == q.items[i]);
        }
    }
}

pub broadcast proof fn lemma_fits_with_from(q: SelectTerm, f: FromTerm)
    requires
        select_fits(q),
        from_fits(f),
    ensures
        #[trigger] select_fits(q.with_from(f)),
{
    let a = q.with_from(f);
    assert forall|i: int| 0 <= i < a.from.len() implies from_fits(#[trigger] a.from[i]) by {
        if i < q.from.len() {
            assert(a.from[i] == q.from[i]);
        }
    }
}

pub broadcast proof fn lemma_fits_with_where(q: SelectTerm, e: Term)
    requires
        select_fits(q),
        term_fits(e),
    ensures
        #[trigger] select_fits(q.with_where(e)),
{
    let a = q.with_where(e);
    assert forall|i: int| 0 <= i < a.wheres.len() implies term_fits(#[trigger] a.wheres[i]) by {
        if i < q.wheres.len() {
            assert(a.wheres[i] == q.wheres[i]);
        }
    }
}

pub broadcast proof fn lemma_fits_with_order(q: SelectTerm, e: Term, up: bool)
    requires
        select_fits(q),
        term_fits(e),
    ensures
        #[trigger] select_fits(q.with_order(e, up)),
{
    let a = q.with_order(e, up);
    assert forall|i: int| 0 <= i < a.orders.len() implies term_fits((#[trigger] a.orders[i]).0) by {
        if i < q.orders.len() {
            assert(a.orders[i] == q.orders[i]);
        }
    }
}

pub broadcast proof fn lemma_fits_with_group(q: SelectTerm, e: Term)
    requires
        select_fits(q),
        term_fits(e),
    ensures
        #[trigger] select_fits(q.with_group(e)),
{
    let a = q.with_group(e);
    assert forall|i: int| 0 <= i < a.groups.len() implies term_fits(#[trigger] a.groups[i]) by {
        if i < q.groups.len() {
            assert(a.groups[i] == q.groups[i]);
        }
    }
}

pub broadcast proof fn lemma_fits_with_union(q: SelectTerm, s: SelectTerm)
    requires
        select_fits(q),
        select_fits(s),
    ensures
        #[trigger] select_fits(q.with_union(s)),
{
    let a = q.with_union(s);
    assert forall|i: int| 0 <= i < a.unions.len() implies select_fits((#[trigger] a.unions[i]).1) by {
        if i < q.unions.len() {
            assert(a.unions[i] == q.unions[i]);
        }
    }
}

pub broadcast proof fn lemma_fits_with_distinct_union(q: SelectTerm, s: SelectTerm)
    requires
        select_fits(q),
        select_fits(s),
    ensures
        #[trigger] select_fits(q.with_distinct_union(s)),
{
    let a = q.with_distinct_union(s);
    assert forall|i: int| 0 <= i < a.unions.len() implies select_fits((#[trigger] a.unions[i]).1) by {
        if i < q.unions.len() {
            assert(a.unions[i] == q.unions[i]);
        }
    }
}

pub broadcast proof fn lemma_fits_with_join(
    q: SelectTerm,
    kind: JoinTerm,
    s: SelectTerm,
    name: Seq<char>,
    on: Term,
)
    requires
        select_fits(q),
        select_fits(s),
        term_fits(on),
    ensures
        #[trigger] select_fits(q.with_join(kind, s, name, on)),
{
    let a = q.with_join(kind, s, name, on);
    assert forall|i: int| 0 <= i < a.joins.len() implies select_fits((#[trigger] a.joins[i]).1)
        && term_fits(a.joins[i].3) by {
        if i < q.joins.len() {
            assert(a.joins[i] == q.joins[i]);
        }
    }
}

/// Whether there is an expression for each place of the texts in an update.
pub open spec fn update_fits(u: UpdateTerm) -> bool {
    &&& forall|i: int| 0 <= i < u.values.len() ==> term_fits((#[trigger] u.values[i]).1)
    &&& forall|i: int| 0 <= i < u.wheres.len() ==> term_fits(#[trigger] u.wheres[i])
}

/// Whether the columns of a table are of the kinds that this module gives them.
pub open spec fn table_fits(t: TableTerm) -> bool {
    forall|i: int| 0 <= i < t.columns.len() ==> !((#[trigger] t.columns[i]).kind is Other)
}

/// The text of a selection, as `sea_query` writes it for PostgreSQL.
pub uninterp spec fn select_text(q: SelectTerm) -> Seq<char>;

/// The text of an update, as `sea_query` writes it for PostgreSQL.
pub uninterp spec fn update_text(u: UpdateTerm) -> Seq<char>;

/// The text of the creation of a table, as `sea_query` writes it for PostgreSQL.
pub uninterp spec fn table_text(t: TableTerm) -> Seq<char>;

/// `SelectStatement::to_string` with `PostgresQueryBuilder`: the text of what the selection
/// holds. A place without an expression would make it fail.
#[verifier::external_body]
fn write_select(q: &sea_query::SelectStatement) -> (r: String)
    requires
        select_fits(select_term(*q)),
    ensures
        r@ == select_text(select_term(*q)),
{
    q.to_string(PostgresQueryBuilder)
}

/// `UpdateStatement::to_string` with `PostgresQueryBuilder`: the text of what the update
/// holds. A place without an expression would make it fail.
#[verifier::external_body]
fn write_update(u: &sea_query::UpdateStatement) -> (r: String)
    requires
        update_fits(update_term(*u)),
    ensures
        r@ == update_text(update_term(*u)),
{
    u.to_string(PostgresQueryBuilder)
}

/// `TableCreateStatement::to_string` with `PostgresQueryBuilder`: the text of what the
/// creation holds. There are kinds of columns that PostgreSQL lacks, at which it would fail.
#[verifier::external_body]
fn write_table(t: &sea_query::TableCreateStatement) -> (r: String)
    requires
        table_fits(table_term(*t)),
    ensures
        r@ == table_text(table_term(*t)),
{
    t.to_string(PostgresQueryBuilder)
}

/// The SQL of a selection.
pub fn select_sql(q: &sea_query::SelectStatement) -> (r: String)
    requires
        select_fits(select_term(*q)),
    ensures
        r@ == select_text(select_term(*q)),
{
    write_select(q)
}

/// The SQL of an update.
pub fn update_sql(u: &sea_query::UpdateStatement) -> (r: String)
    requires
        update_fits(update_term(*u)),
    ensures
        r@ == update_text(update_term(*u)),
{
    write_update(u)
}

/// The SQL of the creation of a table.
pub fn table_sql(t: &sea_query::TableCreateStatement) -> (r: String)
    requires
        table_fits(table_term(*t)),
    ensures
        r@ == table_text(table_term(*t)),
{
    write_table(t)
}

} // verus!
