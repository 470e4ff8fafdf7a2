//! Expressions of SQL that the database engine has beyond the usual ones.
use crate::col::Col;
use crate::db::statement;
use crate::db::statement::Term;
use crate::db::{DuckDbFunc, Tbl};
use crate::text;
use crate::types::{BiticalType, Origin};
use vstd::prelude::*;

verus! {

/// A direction that rows are ordered in.
#[derive(Clone, Copy, Debug, PartialEq, Eq, Structural)]
pub enum Order {
    Asc,
    Desc,
}

/// A name in double quotes.
pub open spec fn quoted(name: Seq<char>) -> Seq<char> {
    "\""@ + name + "\""@
}

fn quote(name: &str) -> (r: String)
    ensures
        r@ == quoted(name@),
{
    text::cat3("\"", name, "\"")
}

pub open spec fn quoted_all(names: Seq<Seq<char>>) -> Seq<Seq<char>> {
    names.map_values(|n: Seq<char>| quoted(n))
}

fn quote_all(names: &Vec<String>) -> (r: Vec<String>)
    ensures
        text::texts(r@) == quoted_all(text::texts(names@)),
{
    let mut out: Vec<String> = Vec::new();
    let mut i: usize = 0;
    while i < names.len()
        invariant
            i <= names@.len(),
            out@.len() == i,
            forall|k: int| 0 <= k < i ==> (#[trigger] out@[k])@ == quoted(names@[k]@),
        decreases names.len() - i,
    {
        out.push(quote(names[i].as_str()));
        i += 1;
    }
    proof {
        assert(text::texts(out@) =~= quoted_all(text::texts(names@)));
    }
    out
}

/// A column with the direction it orders in.
pub open spec fn directed(o: (Seq<char>, Order)) -> Seq<char> {
    quoted(o.0) + (match o.1 {
        Order::Asc => " ASC"@,
        Order::Desc => " DESC"@,
    })
}

pub open spec fn order_models(v: Seq<(String, Order)>) -> Seq<(Seq<char>, Order)> {
    v.map_values(|o: (String, Order)| (o.0@, o.1))
}

pub open spec fn directed_all(v: Seq<(Seq<char>, Order)>) -> Seq<Seq<char>> {
    v.map_values(|o: (Seq<char>, Order)| directed(o))
}

/// What is written for the order of rows: nothing where none is asked for.
pub open spec fn order_clause(v: Seq<(Seq<char>, Order)>) -> Seq<char> {
    if v.len() == 0 {
        Seq::empty()
    } else {
        " ORDER BY "@ + text::joined(directed_all(v), ", "@)
    }
}

fn add_order_clause(sql: &mut String, order_bys: &Vec<(String, Order)>)
    ensures
        final(sql)@ == old(sql)@ + order_clause(order_models(order_bys@)),
{
    if order_bys.len() == 0 {
        proof {
            assert(sql@ =~= sql@ + order_clause(order_models(order_bys@)));
        }
        return ;
    }
    let mut parts: Vec<String> = Vec::new();
    let mut i: usize = 0;
    while i < order_bys.len()
        invariant
            i <= order_bys@.len(),
            parts@.len() == i,
            forall|k: int|
                0 <= k < i ==> (#[trigger] parts@[k])@ == directed(order_models(order_bys@)[k]),
        decreases order_bys.len() - i,
    {
        let mut part = quote(order_bys[i].0.as_str());
        match order_bys[i].1 {
            Order::Asc => part.append(" ASC"),
            Order::Desc => part.append(" DESC"),
        }
        proof {
            assert(part@ =~= directed(order_models(order_bys@)[i as int]));
        }
        parts.push(part);
        i += 1;
    }
    proof {
        assert(text::texts(parts@) =~= directed_all(order_models(order_bys@)));
    }
    let listed = text::join(&parts, ", ");
    sql.append(" ORDER BY ");
    sql.append(listed.as_str());
    proof {
        assert(sql@ =~= old(sql)@ + order_clause(order_models(order_bys@)));
    }
}

fn one(e: sea_query::SimpleExpr) -> (r: Vec<sea_query::SimpleExpr>)
    ensures
        statement::expr_terms(r@) == seq![statement::expr_term(e)],
{
    let mut v: Vec<sea_query::SimpleExpr> = Vec::new();
    v.push(e);
    proof {
        assert(statement::expr_terms(v@) =~= seq![statement::expr_term(e)]);
    }
    v
}

fn two(a: sea_query::SimpleExpr, b: sea_query::SimpleExpr) -> (r: Vec<sea_query::SimpleExpr>)
    ensures
        statement::expr_terms(r@) == seq![statement::expr_term(a), statement::expr_term(b)],
{
    let mut v = one(a);
    proof {
        statement::lemma_terms_push(v@, b);
    }
    v.push(b);
    proof {
        assert(statement::expr_terms(v@) =~= seq![
            statement::expr_term(a),
            statement::expr_term(b),
        ]);
    }
    v
}

pub(crate) fn three(
    a: sea_query::SimpleExpr,
    b: sea_query::SimpleExpr,
    c: sea_query::SimpleExpr,
) -> (r: Vec<sea_query::SimpleExpr>)
    ensures
        statement::expr_terms(r@) == seq![
            statement::expr_term(a),
            statement::expr_term(b),
            statement::expr_term(c),
        ],
{
    let mut v = two(a, b);
    proof {
        statement::lemma_terms_push(v@, c);
    }
    v.push(c);
    proof {
        assert(statement::expr_terms(v@) =~= seq![
            statement::expr_term(a),
            statement::expr_term(b),
            statement::expr_term(c),
        ]);
    }
    v
}

/// The types that a tag value is one of, in the order of the arms.
pub open spec fn tag_arms() -> Seq<BiticalType> {
    seq![BiticalType::String, BiticalType::Integer, BiticalType::Double, BiticalType::Boolean]
}

/// All types, in the order of the arms.
pub open spec fn all_arms() -> Seq<BiticalType> {
    tag_arms().push(BiticalType::Uuid)
}

/// An arm of a union of types: its name and its type.
pub open spec fn arm_text(t: BiticalType) -> Seq<char> {
    quoted(t.name_text()) + " "@ + t.sql_text()
}

/// The union of some types.
pub open spec fn union_text(arms: Seq<BiticalType>) -> Seq<char> {
    "UNION("@ + text::joined(arms.map_values(|t: BiticalType| arm_text(t)), ", "@) + ")"@
}

fn union_of(arms: &[BiticalType]) -> (r: String)
    ensures
        r@ == union_text(arms@),
{
    let mut parts: Vec<String> = Vec::new();
    let mut i: usize = 0;
    while i < arms.len()
        invariant
            i <= arms@.len(),
            parts@.len() == i,
            forall|k: int| 0 <= k < i ==> (#[trigger] parts@[k])@ == arm_text(arms@[k]),
        decreases arms.len() - i,
    {
        let name = quote(arms[i].name());
        parts.push(text::cat3(name.as_str(), " ", arms[i].sql_name()));
        i += 1;
    }
    proof {
        assert(text::texts(parts@) =~= arms@.map_values(|t: BiticalType| arm_text(t)));
    }
    let listed = text::join(&parts, ", ");
    text::cat3("UNION(", listed.as_str(), ")")
}

/// A value as an arm of the union of tag values.
pub open spec fn union_value_text(t: BiticalType) -> Seq<char> {
    "union_value("@ + quoted(t.arm().name_text()) + " := $1)::"@ + union_text(tag_arms())
}

/// The origins from the last block of ids to the first one.
pub open spec fn origins_down() -> Seq<Origin> {
    seq![Origin::Plugin, Origin::File, Origin::User, Origin::Builtin]
}

/// The SQL that gives, for the id that `id` stands for, the text that goes with its origin:
/// nothing for no id.
pub open spec fn origin_case(id: Seq<char>, values: Seq<Seq<char>>) -> Seq<char> {
    "CASE WHEN "@ + id + " IS NULL THEN NULL"@ + origin_whens(id, values, 3) + " ELSE "@ + values[3]
        + " END"@
}

/// The cases of the first `n` origins.
pub open spec fn origin_whens(id: Seq<char>, values: Seq<Seq<char>>, n: nat) -> Seq<char>
    decreases n,
{
    if n == 0 {
        Seq::empty()
    } else {
        origin_whens(id, values, (n - 1) as nat) + " WHEN "@ + id + " >= "@ + text::int_text(
            origins_down()[n - 1].lo(),
        ) + " THEN "@ + values[n - 1]
    }
}

/// The SQL that shows an id in the block of `o`.
pub open spec fn id_in_block(id: Seq<char>, o: Origin) -> Seq<char> {
    "CONCAT('"@ + o.short_text() + "(', CAST("@ + id + " - ("@ + text::int_text(o.lo())
        + ") AS VARCHAR), ')')"@
}

pub open spec fn id_display_text(id: Seq<char>) -> Seq<char> {
    origin_case(id, origins_down().map_values(|o: Origin| id_in_block(id, o)))
}

pub open spec fn id_origin_text(id: Seq<char>) -> Seq<char> {
    origin_case(id, origins_down().map_values(|o: Origin| "'"@ + o.name_text() + "'"@))
}

/// The cases of the SQL that gives the origin of an id stand for the block that the id is in.
pub proof fn law_origin_cases(id: int)
    ensures
        forall|i: int|
            0 <= i < 3 ==> (Origin::of_id(id) == #[trigger] origins_down()[i] <==> id
                >= origins_down()[i].lo() && forall|k: int|
                0 <= k < i ==> id < #[trigger] origins_down()[k].lo()),
        (forall|k: int| 0 <= k < 3 ==> id < #[trigger] origins_down()[k].lo())
            ==> Origin::of_id(id) == origins_down()[3],
{
    let d = origins_down();
    assert(d[0] == Origin::Plugin && d[1] == Origin::File && d[2] == Origin::User && d[3]
        == Origin::Builtin);
}

fn origin_list() -> (r: [Origin; 4])
    ensures
        r@ == origins_down(),
{
    [Origin::Plugin, Origin::File, Origin::User, Origin::Builtin]
}

fn origin_case_of(id: &str, values: &Vec<String>) -> (r: String)
    requires
        values@.len() == 4,
    ensures
        r@ == origin_case(id@, text::texts(values@)),
{
    let origins = origin_list();
    let mut sql = text::cat3("CASE WHEN ", id, " IS NULL THEN NULL");
    let ghost head = "CASE WHEN "@ + id@ + " IS NULL THEN NULL"@;
    let ghost vs = text::texts(values@);
    let mut i: usize = 0;
    proof {
        assert(sql@ =~= head + origin_whens(id@, vs, 0));
    }
    while i < 3
        invariant
            i <= 3,
            values@.len() == 4,
            vs == text::texts(values@),
            origins@ == origins_down(),
            head == "CASE WHEN "@ + id@ + " IS NULL THEN NULL"@,
            sql@ == head + origin_whens(id@, vs, i as nat),
        decreases 3 - i,
    {
        let lo = text::show_i64(origins[i].block_lo());
        let ghost before = sql@;
        sql.append(" WHEN ");
        sql.append(id);
        sql.append(" >= ");
        sql.append(lo.as_str());
        sql.append(" THEN ");
        sql.append(values[i].as_str());
        proof {
            assert(vs[i as int] == values@[i as int]@);
            assert(sql@ =~= head + origin_whens(id@, vs, (i + 1) as nat));
        }
        i += 1;
    }
    sql.append(" ELSE ");
    sql.append(values[3].as_str());
    sql.append(" END");
    proof {
        assert(vs[3] == values@[3]@);
        assert(sql@ =~= origin_case(id@, vs));
    }
    sql
}

/// The columns that labels are looked for in, in this order.
pub open spec fn scan_order() -> Seq<Col> {
    seq![Col::LabelInt, Col::LabelStr, Col::LabelBool, Col::LabelDouble]
}

/// The case of a label column: where it holds a value, that value as an arm.
pub open spec fn eav_arm(c: Col) -> (Term, Term) {
    let column = Term::Col(None, c.name_text());
    (
        Term::IsNotNull(Box::new(column)),
        Term::Filled(union_value_text(BiticalType::of_col(c)), seq![column]),
    )
}

impl BiticalType {
    /// The columns that labels are looked for in, in this order.
    pub fn to_columns_scan_order() -> (r: [Col; 4])
        ensures
            r@ == scan_order(),
    {
        [Col::LabelInt, Col::LabelStr, Col::LabelBool, Col::LabelDouble]
    }
}

/// Expressions that the database engine has beyond the usual ones.
pub struct CustomFunc;

impl CustomFunc {
    /// `TRY_CAST(expr AS BIGINT)`.
    pub fn try_cast_bigint(expr: sea_query::SimpleExpr) -> (r: sea_query::SimpleExpr)
        ensures
            statement::expr_term(r) == Term::Filled(
                "TRY_CAST($1 AS BIGINT)"@,
                seq![statement::expr_term(expr)],
            ),
    {
        statement::filled("TRY_CAST($1 AS BIGINT)".to_string(), one(expr))
    }

    /// `TRY_CAST(expr AS DOUBLE)`.
    pub fn try_cast_double(expr: sea_query::SimpleExpr) -> (r: sea_query::SimpleExpr)
        ensures
            statement::expr_term(r) == Term::Filled(
                "TRY_CAST($1 AS DOUBLE)"@,
                seq![statement::expr_term(expr)],
            ),
    {
        statement::filled("TRY_CAST($1 AS DOUBLE)".to_string(), one(expr))
    }

    /// `list(expr)`.
    pub fn list(expr: sea_query::SimpleExpr) -> (r: sea_query::SimpleExpr)
        ensures
            statement::expr_term(r) == Term::Call(
                DuckDbFunc::List.name_text(),
                seq![statement::expr_term(expr)],
            ),
    {
        statement::call(DuckDbFunc::List.name(), one(expr))
    }

    /// `list(expr ORDER BY ..)`.
    pub fn list_with_order(expr: sea_query::SimpleExpr, order_bys: &Vec<(String, Order)>) -> (r:
        sea_query::SimpleExpr)
        ensures
            statement::expr_term(r) == Term::Filled(
                "list($1"@ + order_clause(order_models(order_bys@)) + ")"@,
                seq![statement::expr_term(expr)],
            ),
    {
        let mut sql = "list($1".to_string();
        add_order_clause(&mut sql, order_bys);
        sql.append(")");
        statement::filled(sql, one(expr))
    }

    /// `struct_pack(col := col, ..)`.
    pub fn struct_pack(columns: &Vec<String>) -> (r: sea_query::SimpleExpr)
        ensures
            statement::expr_term(r) == Term::Raw(
                "struct_pack("@ + text::joined(packed(text::texts(columns@)), ", "@) + ")"@,
            ),
    {
        let mut fields: Vec<String> = Vec::new();
        let mut i: usize = 0;
        while i < columns.len()
            invariant
                i <= columns@.len(),
                fields@.len() == i,
                forall|k: int|
                    0 <= k < i ==> (#[trigger] fields@[k])@ == quoted(columns@[k]@) + " := "@
                        + quoted(columns@[k]@),
            decreases columns.len() - i,
        {
            let name = quote(columns[i].as_str());
            fields.push(text::cat3(name.as_str(), " := ", name.as_str()));
            i += 1;
        }
        proof {
            assert(text::texts(fields@) =~= packed(text::texts(columns@)));
        }
        let listed = text::join(&fields, ", ");
        statement::raw(text::cat3("struct_pack(", listed.as_str(), ")"))
    }

    /// `list_slice(list, start, end)`.
    pub fn list_slice(expr: sea_query::SimpleExpr, start: usize, end: usize) -> (r:
        sea_query::SimpleExpr)
        ensures
            statement::expr_term(r) == Term::Call(
                DuckDbFunc::ListSlice.name_text(),
                seq![
                    statement::expr_term(expr),
                    Term::Int((start as i64) as int),
                    Term::Int((end as i64) as int),
                ],
            ),
    {
        statement::call(
            DuckDbFunc::ListSlice.name(),
            three(expr, statement::int_value(start as i64), statement::int_value(end as i64)),
        )
    }

    /// `MAX(expr) FILTER (WHERE cond)`.
    pub fn max_filter(expr: sea_query::SimpleExpr, filter_expr: sea_query::SimpleExpr) -> (r:
        sea_query::SimpleExpr)
        ensures
            statement::expr_term(r) == Term::Filled(
                "MAX($1) FILTER (WHERE $2)"@,
                seq![statement::expr_term(expr), statement::expr_term(filter_expr)],
            ),
    {
        statement::filled("MAX($1) FILTER (WHERE $2)".to_string(), two(expr, filter_expr))
    }

    /// `ANY_VALUE(expr) FILTER (WHERE cond)`.
    pub fn any_value_filter(expr: sea_query::SimpleExpr, filter_expr: sea_query::SimpleExpr) -> (r:
        sea_query::SimpleExpr)
        ensures
            statement::expr_term(r) == Term::Filled(
                "ANY_VALUE($1) FILTER (WHERE $2)"@,
                seq![statement::expr_term(expr), statement::expr_term(filter_expr)],
            ),
    {
        statement::filled("ANY_VALUE($1) FILTER (WHERE $2)".to_string(), two(expr, filter_expr))
    }

    /// `any_value(expr)`.
    pub fn any_value(expr: sea_query::SimpleExpr) -> (r: sea_query::SimpleExpr)
        ensures
            statement::expr_term(r) == Term::Call(
                DuckDbFunc::AnyValue.name_text(),
                seq![statement::expr_term(expr)],
            ),
    {
        statement::call(DuckDbFunc::AnyValue.name(), one(expr))
    }

    /// Ids that are counted up from `start_id`, for rows in the order of their ranks and
    /// contents.
    pub fn assign_id_window(start_id: i64) -> (r: sea_query::SimpleExpr)
        ensures
            statement::expr_term(r) == Term::Filled(
                "$1 + (row_number() OVER (ORDER BY rank DESC, content ASC) - 1)"@,
                seq![Term::Int(start_id as int)],
            ),
    {
        statement::filled(
            "$1 + (row_number() OVER (ORDER BY rank DESC, content ASC) - 1)".to_string(),
            one(statement::int_value(start_id)),
        )
    }

    /// The SQL that shows an id by its origin and its place in the origin's block.
    pub fn item_id_display(item_id_expr: &str) -> (r: String)
        ensures
            r@ == id_display_text(item_id_expr@),
    {
        let origins = origin_list();
        let mut values: Vec<String> = Vec::new();
        let mut i: usize = 0;
        while i < 4
            invariant
                i <= 4,
                origins@ == origins_down(),
                values@.len() == i,
                forall|k: int|
                    0 <= k < i ==> (#[trigger] values@[k])@ == id_in_block(
                        item_id_expr@,
                        origins_down()[k],
                    ),
            decreases 4 - i,
        {
            let lo = text::show_i64(origins[i].block_lo());
            let mut v = text::cat3("CONCAT('", origins[i].short(), "(', CAST(");
            v.append(item_id_expr);
            v.append(" - (");
            v.append(lo.as_str());
            v.append(") AS VARCHAR), ')')");
            proof {
                assert(v@ =~= id_in_block(item_id_expr@, origins_down()[i as int]));
            }
            values.push(v);
            i += 1;
        }
        proof {
            assert(text::texts(values@) =~= origins_down().map_values(
                |o: Origin| id_in_block(item_id_expr@, o),
            ));
        }
        origin_case_of(item_id_expr, &values)
    }

    /// The SQL that names the origin of an id.
    pub fn item_id_origin(item_id_expr: &str) -> (r: String)
        ensures
            r@ == id_origin_text(item_id_expr@),
    {
        let origins = origin_list();
        let mut values: Vec<String> = Vec::new();
        let mut i: usize = 0;
        while i < 4
            invariant
                i <= 4,
                origins@ == origins_down(),
                values@.len() == i,
                forall|k: int|
                    0 <= k < i ==> (#[trigger] values@[k])@ == "'"@ + origins_down()[k].name_text()
                        + "'"@,
            decreases 4 - i,
        {
            values.push(text::cat3("'", origins[i].name(), "'"));
            i += 1;
        }
        proof {
            assert(text::texts(values@) =~= origins_down().map_values(
                |o: Origin| "'"@ + o.name_text() + "'"@,
            ));
        }
        origin_case_of(item_id_expr, &values)
    }

    /// The SQL that names the origin of the id in a column of a table.
    pub fn item_id_origin_qualified(tbl: Tbl, col: Col) -> (r: String)
        ensures
            r@ == id_origin_text(tbl.name_text() + "."@ + col.name_text()),
    {
        let qualified = text::cat3(tbl.name(), ".", col.name());
        Self::item_id_origin(qualified.as_str())
    }

    /// `row_number() OVER (PARTITION BY .. ORDER BY ..)` with one column.
    pub fn row_number_over(partition_by: &str, order_bys: &Vec<(String, Order)>) -> (r:
        sea_query::SimpleExpr)
        ensures
            statement::expr_term(r) == Term::Raw(
                "row_number() OVER (PARTITION BY "@ + quoted(partition_by@) + order_clause(
                    order_models(order_bys@),
                ) + ")"@,
            ),
    {
        let mut sql = "row_number() OVER (PARTITION BY ".to_string();
        let name = quote(partition_by);
        sql.append(name.as_str());
        add_order_clause(&mut sql, order_bys);
        sql.append(")");
        statement::raw(sql)
    }

    /// The union that a tag value is of.
    pub fn union_type() -> (r: String)
        ensures
            r@ == union_text(tag_arms()),
    {
        union_of(
            &[
                BiticalType::String,
                BiticalType::Integer,
                BiticalType::Double,
                BiticalType::Boolean,
            ],
        )
    }

    /// A value as the arm of its type in the union that a tag value is of.
    pub fn union_value(bitical_type: BiticalType, expr: sea_query::SimpleExpr) -> (r:
        sea_query::SimpleExpr)
        ensures
            statement::expr_term(r) == Term::Filled(
                union_value_text(bitical_type),
                seq![statement::expr_term(expr)],
            ),
    {
        let arm = quote(bitical_type.union_arm().name());
        let ty = Self::union_type();
        let mut sql = text::cat3("union_value(", arm.as_str(), " := $1)::");
        sql.append(ty.as_str());
        statement::filled(sql, one(expr))
    }

    /// `struct_pack("tag_type" := t, "value" := v, "origin" := o)`.
    pub fn struct_pack_tag(
        tag_type: sea_query::SimpleExpr,
        value: sea_query::SimpleExpr,
        origin: sea_query::SimpleExpr,
    ) -> (r: sea_query::SimpleExpr)
        ensures
            statement::expr_term(r) == Term::Filled(
                "struct_pack(\"tag_type\" := $1, \"value\" := $2, \"origin\" := $3)"@,
                seq![
                    statement::expr_term(tag_type),
                    statement::expr_term(value),
                    statement::expr_term(origin),
                ],
            ),
    {
        statement::filled(
            "struct_pack(\"tag_type\" := $1, \"value\" := $2, \"origin\" := $3)".to_string(),
            three(tag_type, value, origin),
        )
    }

    /// `list_value(v1, v2, ..)`.
    pub fn list_value(exprs: Vec<sea_query::SimpleExpr>) -> (r: sea_query::SimpleExpr)
        ensures
            statement::expr_term(r) == Term::Call(
                DuckDbFunc::ListValue.name_text(),
                statement::expr_terms(exprs@),
            ),
    {
        statement::call(DuckDbFunc::ListValue.name(), exprs)
    }

    /// The union that the representative values of an item are of.
    pub fn representative_union_type() -> (r: String)
        ensures
            r@ == union_text(all_arms()),
    {
        let arms = [
            BiticalType::String,
            BiticalType::Integer,
            BiticalType::Double,
            BiticalType::Boolean,
            BiticalType::Uuid,
        ];
        proof {
            assert(arms@ =~= all_arms());
        }
        union_of(&arms)
    }

    /// A value as a list of representative values.
    pub fn as_representative(expr: sea_query::SimpleExpr) -> (r: sea_query::SimpleExpr)
        ensures
            statement::expr_term(r) == Term::Filled(
                "list_value(CAST($1 AS "@ + union_text(all_arms()) + "))"@,
                seq![statement::expr_term(expr)],
            ),
    {
        let ty = Self::representative_union_type();
        statement::filled(text::cat3("list_value(CAST($1 AS ", ty.as_str(), "))"), one(expr))
    }

    /// All columns, with `value` in place of the column `col`.
    pub fn star_replace(col: Col, value: sea_query::SimpleExpr) -> (r: sea_query::SimpleExpr)
        ensures
            statement::expr_term(r) == Term::Filled(
                "* REPLACE($1 AS \""@ + col.name_text() + "\")"@,
                seq![statement::expr_term(value)],
            ),
    {
        statement::filled(text::cat3("* REPLACE($1 AS \"", col.name(), "\")"), one(value))
    }

    /// `typeof(expr)`.
    pub fn type_of(expr: sea_query::SimpleExpr) -> (r: sea_query::SimpleExpr)
        ensures
            statement::expr_term(r) == Term::Call(
                DuckDbFunc::TypeOf.name_text(),
                seq![statement::expr_term(expr)],
            ),
    {
        statement::call(DuckDbFunc::TypeOf.name(), one(expr))
    }

    /// The value of the first label column that holds one, as the arm of its type.
    pub fn eav_union_value() -> (r: sea_query::SimpleExpr)
        ensures
            statement::expr_term(r) == Term::Case(
                scan_order().map_values(|c: Col| eav_arm(c)),
                Box::new(Term::Null),
            ),
    {
        let cols = BiticalType::to_columns_scan_order();
        let ghost arms = scan_order().map_values(|c: Col| eav_arm(c));
        let mut cs = statement::cases();
        let mut i: usize = 0;
        proof {
            assert(statement::case_term(cs) =~= arms.take(0));
        }
        while i < 4
            invariant
                i <= 4,
                cols@ == scan_order(),
                arms == scan_order().map_values(|c: Col| eav_arm(c)),
                statement::case_term(cs) == arms.take(i as int),
            decreases 4 - i,
        {
            let c = cols[i];
            let value = Self::union_value(
                BiticalType::from_col(c),
                statement::column(c.name()),
            );
            cs = statement::when(cs, statement::given(statement::column(c.name())), value);
            proof {
                assert(arms[i as int] == eav_arm(c));
                assert(statement::case_term(cs) =~= arms.take(i + 1));
            }
            i += 1;
        }
        proof {
            assert(arms.take(4) =~= arms);
        }
        statement::otherwise(cs, statement::null_value())
    }

    /// `count(*)`.
    pub fn count_star() -> (r: sea_query::SimpleExpr)
        ensures
            statement::expr_term(r) == Term::Call(
                DuckDbFunc::Count.name_text(),
                seq![Term::Raw("*"@)],
            ),
    {
        statement::call(DuckDbFunc::Count.name(), one(statement::raw("*".to_string())))
    }

    /// `string_agg(expr, separator)`.
    pub fn string_agg(expr: sea_query::SimpleExpr, separator: sea_query::SimpleExpr) -> (r:
        sea_query::SimpleExpr)
        ensures
            statement::expr_term(r) == Term::Call(
                DuckDbFunc::StringAgg.name_text(),
                seq![statement::expr_term(expr), statement::expr_term(separator)],
            ),
    {
        statement::call(DuckDbFunc::StringAgg.name(), two(expr, separator))
    }

    /// `count(*) OVER (PARTITION BY col)`.
    pub fn count_over(partition_by: &str) -> (r: sea_query::SimpleExpr)
        ensures
            statement::expr_term(r) == Term::Raw(
                "count(*) OVER (PARTITION BY "@ + quoted(partition_by@) + ")"@,
            ),
    {
        let mut cols: Vec<String> = Vec::new();
        cols.push(partition_by.to_string());
        let r = Self::count_over_multi(&cols);
        proof {
            let names = quoted_all(text::texts(cols@));
            assert(names =~= seq![quoted(partition_by@)]);
            reveal_with_fuel(text::joined, 2);
            assert(text::joined(names, ", "@) =~= quoted(partition_by@));
        }
        r
    }

    /// `count(*) OVER (PARTITION BY col1, col2, ..)`.
    pub fn count_over_multi(partition_cols: &Vec<String>) -> (r: sea_query::SimpleExpr)
        ensures
            statement::expr_term(r) == Term::Raw(
                "count(*) OVER (PARTITION BY "@ + text::joined(
                    quoted_all(text::texts(partition_cols@)),
                    ", "@,
                ) + ")"@,
            ),
    {
        let names = quote_all(partition_cols);
        let listed = text::join(&names, ", ");
        statement::raw(text::cat3("count(*) OVER (PARTITION BY ", listed.as_str(), ")"))
    }

    /// `row_number() OVER (PARTITION BY col1, col2, .. ORDER BY ..)`.
    pub fn row_number_over_multi(
        partition_cols: &Vec<String>,
        order_bys: &Vec<(String, Order)>,
    ) -> (r: sea_query::SimpleExpr)
        ensures
            statement::expr_term(r) == Term::Raw(
                "row_number() OVER (PARTITION BY "@ + text::joined(
                    quoted_all(text::texts(partition_cols@)),
                    ", "@,
                ) + order_clause(order_models(order_bys@)) + ")"@,
            ),
    {
        let names = quote_all(partition_cols);
        let listed = text::join(&names, ", ");
        let mut sql = "row_number() OVER (PARTITION BY ".to_string();
        sql.append(listed.as_str());
        add_order_clause(&mut sql, order_bys);
        sql.append(")");
        statement::raw(sql)
    }
}

/// Fields that hold the columns of their names.
pub open spec fn packed(columns: Seq<Seq<char>>) -> Seq<Seq<char>> {
    columns.map_values(|c: Seq<char>| quoted(c) + " := "@ + quoted(c))
}

} // verus!
