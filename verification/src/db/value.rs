//! Values that come from the database and values that go into it.
use crate::col::Col;
use crate::db::statement;
use crate::db::statement::Term;
use crate::types;
use crate::types::{Bitical, BiticalModel, Number};
use vstd::prelude::*;

verus! {

/// A value as the database hands it out. A value of a kind that is not told apart here is
/// held by its description.
#[derive(Debug)]
pub enum DbValue {
    Null,
    Boolean(bool),
    Int(i32),
    BigInt(i64),
    HugeInt(i128),
    Float(Number),
    Double(Number),
    Text(String),
    Union(Box<DbValue>),
    List(Vec<DbValue>),
    Other(String),
}

/// The value that a value of the database stands for: that of its arm for a union, that of
/// its first element for a list, and its description for a kind that is not told apart.
pub open spec fn read_value(v: DbValue) -> Option<BiticalModel>
    decreases v,
{
    match v {
        DbValue::Null => None,
        DbValue::Boolean(b) => Some(BiticalModel::Boolean(b)),
        DbValue::Int(i) => Some(BiticalModel::Integer(i as i64)),
        DbValue::BigInt(i) => Some(BiticalModel::Integer(i)),
        DbValue::HugeInt(i) => Some(BiticalModel::Integer(i as i64)),
        DbValue::Float(n) | DbValue::Double(n) => Some(BiticalModel::Double(n.bits, n.shown@)),
        DbValue::Text(s) => Some(BiticalModel::String(s@)),
        DbValue::Union(inner) => read_value(*inner),
        DbValue::List(l) => if l@.len() == 0 {
            None
        } else {
            read_value(l@[0])
        },
        DbValue::Other(s) => Some(BiticalModel::String(s@)),
    }
}

/// Whether a value is a single value of a kind that is told apart.
pub open spec fn is_scalar(v: DbValue) -> bool {
    match v {
        DbValue::Boolean(_)
        | DbValue::Int(_)
        | DbValue::BigInt(_)
        | DbValue::Float(_)
        | DbValue::Double(_)
        | DbValue::Text(_) => true,
        _ => false,
    }
}

pub open spec fn opt_model(o: Option<Bitical>) -> Option<BiticalModel> {
    match o {
        Some(b) => Some(b@),
        None => None,
    }
}

fn read_db_value(v: &DbValue) -> (r: Option<Bitical>)
    ensures
        opt_model(r) == read_value(*v),
    decreases v,
{
    match v {
        DbValue::Null => None,
        DbValue::Boolean(b) => Some(Bitical::Boolean(*b)),
        DbValue::Int(i) => Some(Bitical::Integer(*i as i64)),
        DbValue::BigInt(i) => Some(Bitical::Integer(*i)),
        DbValue::HugeInt(i) => Some(
            Bitical::Integer(
                #[verifier::truncate]
                (*i as i64),
            ),
        ),
        DbValue::Float(n) => Some(
            Bitical::Double(Number { bits: n.bits, shown: n.shown.clone() }),
        ),
        DbValue::Double(n) => Some(
            Bitical::Double(Number { bits: n.bits, shown: n.shown.clone() }),
        ),
        DbValue::Text(s) => Some(Bitical::String(s.clone())),
        DbValue::Union(inner) => read_db_value(inner),
        DbValue::List(l) => if l.len() == 0 {
            None
        } else {
            read_db_value(&l[0])
        },
        DbValue::Other(s) => Some(Bitical::String(s.clone())),
    }
}

/// How a value is written in an expression.
pub open spec fn value_expr(v: BiticalModel) -> Term {
    match v {
        BiticalModel::String(s) => Term::Text(s),
        BiticalModel::Integer(i) => Term::Int(i as int),
        BiticalModel::Double(_, shown) => Term::Number(statement::double_read(shown)),
        BiticalModel::Boolean(b) => Term::Bool(b),
        BiticalModel::Uuid(u) => Term::Text(types::uuid_shown(u)),
    }
}

/// The column that a value is matched in where labels are asked for.
pub open spec fn matched_column(v: BiticalModel, tag: Col) -> Col {
    match v {
        BiticalModel::Integer(_) => if tag == Col::Label {
            Col::LabelInt
        } else {
            tag
        },
        BiticalModel::Boolean(_) => Col::LabelBool,
        BiticalModel::Double(_, _) => Col::LabelDouble,
        BiticalModel::String(_) | BiticalModel::Uuid(_) => if tag == Col::Label {
            Col::LabelStr
        } else {
            tag
        },
    }
}

/// Whether a column holds a value: a text is a pattern, any other value is compared.
pub open spec fn match_expr(v: BiticalModel, tag: Col) -> Term {
    let column = Term::Col(None, matched_column(v, tag).name_text());
    match v {
        BiticalModel::String(_) => Term::Glob(Box::new(column), Box::new(value_expr(v))),
        _ => Term::Eq(Box::new(column), Box::new(value_expr(v))),
    }
}

impl Bitical {
    /// The value that a value of the database stands for; nothing for a missing one.
    pub fn from_db_value(v: DbValue) -> (r: Option<Bitical>)
        ensures
            opt_model(r) == read_value(v),
    {
        read_db_value(&v)
    }

    /// The value that a single value of the database stands for; nothing for anything else.
    pub fn from_scalar_db_value(v: &DbValue) -> (r: Option<Bitical>)
        ensures
            opt_model(r) == if is_scalar(*v) {
                read_value(*v)
            } else {
                None
            },
    {
        match v {
            DbValue::Boolean(_)
            | DbValue::Int(_)
            | DbValue::BigInt(_)
            | DbValue::Float(_)
            | DbValue::Double(_)
            | DbValue::Text(_) => read_db_value(v),
            _ => None,
        }
    }

    /// The value in an expression.
    pub fn to_simple_expr(&self) -> (r: sea_query::SimpleExpr)
        ensures
            statement::expr_term(r) == value_expr(self@),
    {
        match self {
            Bitical::String(s) => statement::text_value(s.as_str()),
            Bitical::Integer(i) => statement::int_value(*i),
            Bitical::Double(n) => statement::number_value(n),
            Bitical::Boolean(b) => statement::bool_value(*b),
            Bitical::Uuid(u) => {
                let s = types::uuid_to_text(*u);
                statement::text_value(s.as_str())
            },
        }
    }

    /// The label column of the value, and the value in an expression.
    pub fn to_col_expr(&self) -> (r: (Col, sea_query::SimpleExpr))
        ensures
            r.0 == self@.kind().column(),
            statement::expr_term(r.1) == value_expr(self@),
    {
        (self.name().to_column(), self.to_simple_expr())
    }

    /// Whether a column holds the value.
    pub fn to_column_match_expr(&self, tag: Col) -> (r: sea_query::SimpleExpr)
        ensures
            statement::expr_term(r) == match_expr(self@, tag),
    {
        let value = self.to_simple_expr();
        match self {
            Bitical::Integer(_) => {
                let t = if tag == Col::Label {
                    Col::LabelInt
                } else {
                    tag
                };
                statement::equal(statement::column(t.name()), value)
            },
            Bitical::String(_) => {
                let t = if tag == Col::Label {
                    Col::LabelStr
                } else {
                    tag
                };
                statement::glob(statement::column(t.name()), value)
            },
            Bitical::Boolean(_) => statement::equal(
                statement::column(Col::LabelBool.name()),
                value,
            ),
            Bitical::Double(_) => statement::equal(
                statement::column(Col::LabelDouble.name()),
                value,
            ),
            Bitical::Uuid(_) => {
                let t = if tag == Col::Label {
                    Col::LabelStr
                } else {
                    tag
                };
                statement::equal(statement::column(t.name()), value)
            },
        }
    }
}

/// A value is matched in the column in which labels like it are kept, where labels are asked
/// for.
pub proof fn law_values_are_matched_where_they_are_kept(v: BiticalModel)
    ensures
        matched_column(v, Col::Label) == v.kind().column(),
{
}

} // verus!
