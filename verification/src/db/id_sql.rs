//! What the SQL that tells an id gives for each id: the expressions that it is made of, how
//! they are written, and what they evaluate to.
use crate::db::identifier;
use crate::db::sql;
use crate::text;
use crate::types;
use crate::types::Origin;
use vstd::prelude::*;

verus! {

/// An expression over an id.
pub enum IdExpr {
    /// The missing value.
    Null,
    /// A text, which holds no quote.
    Text(Seq<char>),
    /// The id less a number.
    Less(int),
    /// An expression as text.
    AsText(Box<IdExpr>),
    /// Three expressions joined as texts.
    Joined(Box<IdExpr>, Box<IdExpr>, Box<IdExpr>),
    /// Whether the id is missing.
    IsMissing,
    /// Whether the id is at least a number.
    AtLeast(int),
}

/// A case distinction over an id.
pub enum IdCases {
    /// A condition with its value, and the cases after it.
    When(IdExpr, IdExpr, Box<IdCases>),
    /// The value where no condition holds.
    Else(IdExpr),
}

/// What an expression evaluates to.
pub enum IdValue {
    Missing,
    Number(int),
    Text(Seq<char>),
    Truth(bool),
    /// A number that the type of ids does not hold.
    OutOfRange,
}

impl IdExpr {
    /// How an expression is written, with `id` for the id.
    pub open spec fn written(self, id: Seq<char>) -> Seq<char>
        decreases self,
    {
        match self {
            IdExpr::Null => "NULL"@,
            IdExpr::Text(s) => "'"@ + s + "'"@,
            IdExpr::Less(n) => id + " - ("@ + text::int_text(n) + ")"@,
            IdExpr::AsText(e) => "CAST("@ + e.written(id) + " AS VARCHAR)"@,
            IdExpr::Joined(a, b, c) => "CONCAT("@ + a.written(id) + ", "@ + b.written(id) + ", "@
                + c.written(id) + ")"@,
            IdExpr::IsMissing => id + " IS NULL"@,
            IdExpr::AtLeast(n) => id + " >= "@ + text::int_text(n),
        }
    }

    /// What an expression evaluates to. An operation on the missing value gives it again;
    /// joined with texts, it is left out.
    pub open spec fn value(self, id: Option<i64>) -> IdValue
        decreases self,
    {
        match self {
            IdExpr::Null => IdValue::Missing,
            IdExpr::Text(s) => IdValue::Text(s),
            IdExpr::Less(n) => match id {
                None => IdValue::Missing,
                Some(i) => if i64::MIN <= i - n <= i64::MAX {
                    IdValue::Number(i - n)
                } else {
                    IdValue::OutOfRange
                },
            },
            IdExpr::AsText(e) => match e.value(id) {
                IdValue::Number(i) => IdValue::Text(text::int_text(i)),
                IdValue::Truth(b) => IdValue::Text(types::bool_text(b)),
                other => other,
            },
            IdExpr::Joined(a, b, c) => joined(joined(a.value(id), b.value(id)), c.value(id)),
            IdExpr::IsMissing => IdValue::Truth(id is None),
            IdExpr::AtLeast(n) => match id {
                None => IdValue::Missing,
                Some(i) => IdValue::Truth(i >= n),
            },
        }
    }
}

/// Two values joined as texts.
pub open spec fn joined(a: IdValue, b: IdValue) -> IdValue {
    match (a, b) {
        (IdValue::OutOfRange, _) => IdValue::OutOfRange,
        (_, IdValue::OutOfRange) => IdValue::OutOfRange,
        _ => IdValue::Text(as_text(a) + as_text(b)),
    }
}

/// A value in a text that it is joined to.
pub open spec fn as_text(v: IdValue) -> Seq<char> {
    match v {
        IdValue::Missing => seq![],
        IdValue::Number(i) => text::int_text(i),
        IdValue::Text(s) => s,
        IdValue::Truth(b) => types::bool_text(b),
        IdValue::OutOfRange => seq![],
    }
}

impl IdCases {
    /// How the cases are written.
    pub open spec fn written(self, id: Seq<char>) -> Seq<char>
        decreases self,
    {
        match self {
            IdCases::When(c, v, rest) => " WHEN "@ + c.written(id) + " THEN "@ + v.written(id)
                + rest.written(id),
            IdCases::Else(v) => " ELSE "@ + v.written(id) + " END"@,
        }
    }

    /// What the cases evaluate to: the value of the first condition that is true.
    pub open spec fn value(self, id: Option<i64>) -> IdValue
        decreases self,
    {
        match self {
            IdCases::When(c, v, rest) => match c.value(id) {
                IdValue::Truth(true) => v.value(id),
                _ => rest.value(id),
            },
            IdCases::Else(v) => v.value(id),
        }
    }
}

/// The cases that give the value of the block that an id lies in; the missing value for no id.
pub open spec fn by_block(value: spec_fn(Origin) -> IdExpr) -> IdCases {
    IdCases::When(
        IdExpr::IsMissing,
        IdExpr::Null,
        Box::new(
            IdCases::When(
                IdExpr::AtLeast(Origin::Plugin.lo()),
                value(Origin::Plugin),
                Box::new(
                    IdCases::When(
                        IdExpr::AtLeast(Origin::File.lo()),
                        value(Origin::File),
                        Box::new(
                            IdCases::When(
                                IdExpr::AtLeast(Origin::User.lo()),
                                value(Origin::User),
                                Box::new(IdCases::Else(value(Origin::Builtin))),
                            ),
                        ),
                    ),
                ),
            ),
        ),
    )
}

/// The local form of an id in a block.
pub open spec fn local_form(o: Origin) -> IdExpr {
    IdExpr::Joined(
        Box::new(IdExpr::Text(o.short_text() + "("@)),
        Box::new(IdExpr::AsText(Box::new(IdExpr::Less(o.lo())))),
        Box::new(IdExpr::Text(")"@)),
    )
}

/// The cases that show an id.
pub open spec fn display_cases() -> IdCases {
    by_block(|o: Origin| local_form(o))
}

/// The cases that name the origin of an id.
pub open spec fn origin_cases() -> IdCases {
    by_block(|o: Origin| IdExpr::Text(o.name_text()))
}

/// A condition on the block of an id with its value, as it is written.
spec fn written_case(id: Seq<char>, lo: int, value: Seq<char>) -> Seq<char> {
    " WHEN "@ + (id + " >= "@ + text::int_text(lo)) + " THEN "@ + value
}

proof fn lemma_whens_step(id: Seq<char>, texts: Seq<Seq<char>>, n: nat)
    requires
        n < 3,
    ensures
        sql::origin_whens(id, texts, n + 1) == sql::origin_whens(id, texts, n) + written_case(
            id,
            sql::origins_down()[n as int].lo(),
            texts[n as int],
        ),
{
    assert(sql::origin_whens(id, texts, n + 1) =~= sql::origin_whens(id, texts, n) + written_case(
        id,
        sql::origins_down()[n as int].lo(),
        texts[n as int],
    ));
}

proof fn lemma_regrouped(
    h: Seq<char>,
    p: Seq<char>,
    q: Seq<char>,
    r: Seq<char>,
    e: Seq<char>,
    t: Seq<char>,
    end: Seq<char>,
)
    ensures
        h + (p + q + r) + e + t + end == h + (p + (q + (r + (e + t + end)))),
{
    assert(h + (p + q + r) + e + t + end =~= h + (p + (q + (r + (e + t + end)))));
}

proof fn lemma_by_block_written(
    id: Seq<char>,
    value: spec_fn(Origin) -> IdExpr,
    texts: Seq<Seq<char>>,
)
    requires
        texts == sql::origins_down().map_values(|o: Origin| value(o).written(id)),
    ensures
        sql::origin_case(id, texts) == "CASE"@ + by_block(value).written(id),
{
    let d = sql::origins_down();
    assert(d[0] == Origin::Plugin && d[1] == Origin::File && d[2] == Origin::User && d[3]
        == Origin::Builtin);
    assert(texts[0] == value(Origin::Plugin).written(id));
    assert(texts[1] == value(Origin::File).written(id));
    assert(texts[2] == value(Origin::User).written(id));
    assert(texts[3] == value(Origin::Builtin).written(id));
    let p = written_case(id, Origin::Plugin.lo(), texts[0]);
    let f = written_case(id, Origin::File.lo(), texts[1]);
    let u = written_case(id, Origin::User.lo(), texts[2]);
    let e = " ELSE "@ + texts[3] + " END"@;
    let h = " WHEN "@ + (id + " IS NULL"@) + " THEN "@ + "NULL"@;
    assert(by_block(value).written(id) == h + (p + (f + (u + e)))) by {
        reveal_with_fuel(IdCases::written, 6);
    }
    let head = "CASE WHEN "@ + id + " IS NULL THEN NULL"@;
    assert(head == "CASE"@ + h) by {
        reveal_strlit("CASE WHEN ");
        reveal_strlit("CASE");
        reveal_strlit(" WHEN ");
        reveal_strlit(" IS NULL THEN NULL");
        reveal_strlit(" IS NULL");
        reveal_strlit(" THEN ");
        reveal_strlit("NULL");
        assert("CASE WHEN "@ =~= "CASE"@ + " WHEN "@);
        assert(" IS NULL THEN NULL"@ =~= " IS NULL"@ + " THEN "@ + "NULL"@);
        assert(head =~= "CASE"@ + h);
    }
    let whens = sql::origin_whens(id, texts, 3);
    assert(whens == p + f + u) by {
        lemma_whens_step(id, texts, 0);
        lemma_whens_step(id, texts, 1);
        lemma_whens_step(id, texts, 2);
        assert(sql::origin_whens(id, texts, 0) + p =~= p);
    }
    lemma_regrouped(head, p, f, u, " ELSE "@, texts[3], " END"@);
    assert("CASE"@ + h + (p + (f + (u + e))) =~= "CASE"@ + (h + (p + (f + (u + e)))));
}

proof fn lemma_local_form_written(id: Seq<char>, o: Origin)
    ensures
        local_form(o).written(id) == sql::id_in_block(id, o),
{
    reveal_with_fuel(IdExpr::written, 3);
    reveal_strlit("CONCAT('");
    reveal_strlit("CONCAT(");
    reveal_strlit("'");
    reveal_strlit("(");
    reveal_strlit("(', CAST(");
    reveal_strlit(", ");
    reveal_strlit("CAST(");
    reveal_strlit(") AS VARCHAR), ')')");
    reveal_strlit(")");
    reveal_strlit(" AS VARCHAR)");
    assert("CONCAT('"@ =~= "CONCAT("@ + "'"@);
    assert("(', CAST("@ =~= "("@ + "'"@ + ", "@ + "CAST("@);
    assert(") AS VARCHAR), ')')"@ =~= ")"@ + " AS VARCHAR)"@ + ", "@ + "'"@ + ")"@ + "'"@ + ")"@);
    assert(local_form(o).written(id) =~= sql::id_in_block(id, o));
}

/// The SQL that shows ids gives the local form of the id, which is read as the id again, and
/// nothing for no id.
pub proof fn law_shown_ids_are_read_back(expr: Seq<char>, id: i64)
    requires
        Origin::Builtin.lo() <= id < Origin::Plugin.hi(),
    ensures
        sql::id_display_text(expr) == "CASE"@ + display_cases().written(expr),
        display_cases().value(Some(id)) == IdValue::Text(types::id_text(id as int)),
        identifier::id_of(types::id_text(id as int)) == Ok::<i64, identifier::IdErrorModel>(id),
        display_cases().value(None) is Missing,
{
    let value = |o: Origin| local_form(o);
    let texts = sql::origins_down().map_values(|o: Origin| sql::id_in_block(expr, o));
    assert forall|i: int| 0 <= i < 4 implies texts[i] == local_form(
        #[trigger] sql::origins_down()[i],
    ).written(expr) by {
        lemma_local_form_written(expr, sql::origins_down()[i]);
    }
    assert(texts =~= sql::origins_down().map_values(|o: Origin| value(o).written(expr)));
    lemma_by_block_written(expr, value, texts);
    identifier::law_local_form_round_trip(id);
    types::law_within_is_the_block(id as int, Origin::of_id(id as int));
    reveal_with_fuel(IdCases::value, 6);
    reveal_with_fuel(IdExpr::value, 4);
    let o = Origin::of_id(id as int);
    assert(local_form(o).value(Some(id)) == IdValue::Text(
        o.short_text() + "("@ + text::int_text(id - o.lo()) + ")"@,
    ));
    assert(display_cases().value(Some(id)) == local_form(o).value(Some(id)));
}

/// The SQL that names origins gives the name of the origin whose block the id lies in, and
/// nothing for no id.
pub proof fn law_named_origins_are_those_of_the_block(expr: Seq<char>, id: i64)
    ensures
        sql::id_origin_text(expr) == "CASE"@ + origin_cases().written(expr),
        origin_cases().value(Some(id)) == IdValue::Text(Origin::of_id(id as int).name_text()),
        origin_cases().value(None) is Missing,
{
    let value = |o: Origin| IdExpr::Text(o.name_text());
    let texts = sql::origins_down().map_values(|o: Origin| "'"@ + o.name_text() + "'"@);
    assert(texts =~= sql::origins_down().map_values(|o: Origin| value(o).written(expr)));
    lemma_by_block_written(expr, value, texts);
    reveal_with_fuel(IdCases::value, 6);
}

} // verus!
