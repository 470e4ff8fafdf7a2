//! Values in the four columns that labels are stored in.
use crate::edit::cast;
use crate::types::{Bitical, BiticalModel, Number};
use vstd::prelude::*;

verus! {

/// A value in the columns for texts, integers, numbers and truth values.
#[verifier::ext_equal]
pub struct EavModel {
    pub label_str: Option<Seq<char>>,
    pub label_int: Option<i64>,
    pub label_double: Option<(u64, Seq<char>)>,
    pub label_bool: Option<bool>,
}

impl EavModel {
    pub open spec fn nothing() -> EavModel {
        EavModel { label_str: None, label_int: None, label_double: None, label_bool: None }
    }

    /// A value in the column that its stored form belongs to.
    pub open spec fn of(v: Option<BiticalModel>) -> EavModel {
        match v {
            None => EavModel::nothing(),
            Some(b) => match b.stored() {
                BiticalModel::String(s) => EavModel { label_str: Some(s), ..EavModel::nothing() },
                BiticalModel::Integer(i) => EavModel {
                    label_int: Some(i),
                    ..EavModel::nothing()
                },
                BiticalModel::Double(d, s) => EavModel {
                    label_double: Some((d, s)),
                    ..EavModel::nothing()
                },
                BiticalModel::Boolean(b) => EavModel {
                    label_bool: Some(b),
                    ..EavModel::nothing()
                },
                BiticalModel::Uuid(_) => EavModel::nothing(),
            },
        }
    }
}

pub open spec fn eav_model(
    t: (Option<String>, Option<i64>, Option<Number>, Option<bool>),
) -> EavModel {
    EavModel {
        label_str: match t.0 {
            Some(s) => Some(s@),
            None => None,
        },
        label_int: t.1,
        label_double: match t.2 {
            Some(n) => Some((n.bits, n.shown@)),
            None => None,
        },
        label_bool: t.3,
    }
}

impl Bitical {
    /// Takes a value apart into the four columns.
    pub fn to_eav_columns(v: Option<Bitical>) -> (r: (
        Option<String>,
        Option<i64>,
        Option<Number>,
        Option<bool>,
    ))
        ensures
            eav_model(r) == EavModel::of(cast::opt_value(v)),
    {
        match v {
            None => (None, None, None, None),
            Some(b) => {
                let (_, stored) = b.to_col_value();
                match stored {
                    Bitical::String(s) => (Some(s), None, None, None),
                    Bitical::Integer(i) => (None, Some(i), None, None),
                    Bitical::Double(n) => (None, None, Some(n), None),
                    Bitical::Boolean(b) => (None, None, None, Some(b)),
                    Bitical::Uuid(_) => (None, None, None, None),
                }
            },
        }
    }
}

/// Every value goes to exactly one of the columns.
pub proof fn law_one_column_for_a_value(v: BiticalModel)
    ensures
        ({
            let e = EavModel::of(Some(v));
            let s: int = if e.label_str is Some {
                1
            } else {
                0
            };
            let i: int = if e.label_int is Some {
                1
            } else {
                0
            };
            let d: int = if e.label_double is Some {
                1
            } else {
                0
            };
            let b: int = if e.label_bool is Some {
                1
            } else {
                0
            };
            s + i + d + b == 1
        }),
{
}

} // verus!
