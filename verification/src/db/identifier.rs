//! Item ids: reading them from text, and handing out new ones.
use crate::col::Col;
use crate::db::schema;
use crate::db::statement;
use crate::db::statement::{FromTerm, SelectTerm, Term};
use crate::db::{DuckDbFunc, TargetTable, Tbl};
use crate::edit::sql;
use crate::text;
use crate::text::{find_char, parse_i64_chars, slice_text, str_eq, trim_chars};
use crate::types;
use crate::types::Origin;
use vstd::prelude::*;

verus! {

/// Why a text is no item id.
#[derive(Debug, PartialEq, Eq)]
pub enum IdError {
    MalformedLocalForm(String),
    InvalidOffset(String),
    UnknownOrigin(String),
    OffsetOutsideBlock(String, String),
    InvalidId(String),
}

pub enum IdErrorModel {
    MalformedLocalForm(Seq<char>),
    InvalidOffset(Seq<char>),
    UnknownOrigin(Seq<char>),
    OffsetOutsideBlock(Seq<char>, Seq<char>),
    InvalidId(Seq<char>),
}

impl View for IdError {
    type V = IdErrorModel;

    open spec fn view(&self) -> IdErrorModel {
        match *self {
            IdError::MalformedLocalForm(s) => IdErrorModel::MalformedLocalForm(s@),
            IdError::InvalidOffset(s) => IdErrorModel::InvalidOffset(s@),
            IdError::UnknownOrigin(s) => IdErrorModel::UnknownOrigin(s@),
            IdError::OffsetOutsideBlock(l, s) => IdErrorModel::OffsetOutsideBlock(l@, s@),
            IdError::InvalidId(s) => IdErrorModel::InvalidId(s@),
        }
    }
}

impl IdErrorModel {
    /// The reason in words.
    pub open spec fn shown(self) -> Seq<char> {
        match self {
            IdErrorModel::MalformedLocalForm(s) => "malformed item_id local form: "@ + s,
            IdErrorModel::InvalidOffset(s) => "invalid item_id offset: "@ + s,
            IdErrorModel::UnknownOrigin(s) => "unknown item_id origin: "@ + s,
            IdErrorModel::OffsetOutsideBlock(l, s) => "item_id offset outside "@ + l + " block: "@
                + s,
            IdErrorModel::InvalidId(s) => "invalid item_id: "@ + s,
        }
    }
}

impl IdError {
    /// The reason in words.
    pub fn message(&self) -> (r: String)
        ensures
            r@ == self@.shown(),
    {
        match self {
            IdError::MalformedLocalForm(s) => {
                let mut m = "malformed item_id local form: ".to_owned();
                m.push_str(s.as_str());
                m
            },
            IdError::InvalidOffset(s) => {
                let mut m = "invalid item_id offset: ".to_owned();
                m.push_str(s.as_str());
                m
            },
            IdError::UnknownOrigin(s) => {
                let mut m = "unknown item_id origin: ".to_owned();
                m.push_str(s.as_str());
                m
            },
            IdError::OffsetOutsideBlock(l, s) => {
                let mut m = "item_id offset outside ".to_owned();
                m.push_str(l.as_str());
                m.push_str(" block: ");
                m.push_str(s.as_str());
                m
            },
            IdError::InvalidId(s) => {
                let mut m = "invalid item_id: ".to_owned();
                m.push_str(s.as_str());
                m
            },
        }
    }
}

/// The origin of a short label.
pub open spec fn origin_of_label(l: Seq<char>) -> Option<Origin> {
    if l == Origin::Builtin.short_text() {
        Some(Origin::Builtin)
    } else if l == Origin::User.short_text() {
        Some(Origin::User)
    } else if l == Origin::File.short_text() {
        Some(Origin::File)
    } else if l == Origin::Plugin.short_text() {
        Some(Origin::Plugin)
    } else {
        None
    }
}

/// What a text without white space around it stands for: a raw id, or an id in the local
/// form of a label and an offset in brackets.
pub open spec fn id_of_bare(s: Seq<char>) -> Result<i64, IdErrorModel> {
    let open = text::find_from(s, '(', 0);
    if open < s.len() {
        let label = s.take(open);
        if s.last() != ')' {
            Err(IdErrorModel::MalformedLocalForm(s))
        } else {
            match text::parsed_i64(s.subrange(open + 1, s.len() - 1)) {
                None => Err(IdErrorModel::InvalidOffset(s)),
                Some(offset) => match origin_of_label(label) {
                    None => Err(IdErrorModel::UnknownOrigin(label)),
                    Some(o) => match o.at_offset(offset as int) {
                        Some(id) => Ok(id),
                        None => Err(IdErrorModel::OffsetOutsideBlock(label, s)),
                    },
                },
            }
        }
    } else {
        match text::parsed_i64(s) {
            Some(id) => Ok(id),
            None => Err(IdErrorModel::InvalidId(s)),
        }
    }
}

/// The id that a text stands for.
pub open spec fn id_of(s: Seq<char>) -> Result<i64, IdErrorModel> {
    id_of_bare(text::trimmed(s))
}

/// Reads an item id: a raw id, or the local form such as `User(10)`.
pub fn parse(s: &str) -> (r: Result<i64, IdError>)
    ensures
        match r {
            Ok(id) => id_of(s@) == Ok::<i64, IdErrorModel>(id),
            Err(e) => id_of(s@) == Err::<i64, IdErrorModel>(e@),
        },
{
    let v = trim_chars(s);
    let bare = text::text_of(&v);
    let open = find_char(&v, '(', 0);
    if open < v.len() {
        if v[v.len() - 1] != ')' {
            return Err(IdError::MalformedLocalForm(bare));
        }
        let label = slice_text(&v, 0, open);
        let inside = slice_text(&v, open + 1, v.len() - 1);
        proof {
            assert(label@ =~= v@.take(open as int));
        }
        let offset: i64 = match text::parse_i64(inside.as_str()) {
            Some(n) => n,
            None => {
                return Err(IdError::InvalidOffset(bare));
            },
        };
        let origin = if str_eq(label.as_str(), Origin::Builtin.short()) {
            Origin::Builtin
        } else if str_eq(label.as_str(), Origin::User.short()) {
            Origin::User
        } else if str_eq(label.as_str(), Origin::File.short()) {
            Origin::File
        } else if str_eq(label.as_str(), Origin::Plugin.short()) {
            Origin::Plugin
        } else {
            return Err(IdError::UnknownOrigin(label));
        };
        return match origin.id_at_offset(offset) {
            Some(id) => Ok(id),
            None => Err(IdError::OffsetOutsideBlock(label, bare)),
        };
    }
    match parse_i64_chars(&v) {
        Some(id) => Ok(id),
        None => Err(IdError::InvalidId(bare)),
    }
}

proof fn lemma_find_from(s: Seq<char>, c: char, from: int, at: int)
    requires
        0 <= from <= at < s.len(),
        s[at] == c,
        forall|k: int| from <= k < at ==> s[k] != c,
    ensures
        text::find_from(s, c, from) == at,
    decreases at - from,
{
    if from < at {
        lemma_find_from(s, c, from + 1, at);
    }
}

proof fn lemma_int_text_chars(i: int)
    requires
        i >= 0,
    ensures
        text::int_text(i).len() > 0,
        text::all_digits(text::int_text(i)),
{
    text::lemma_nat_text_digits(i as nat);
}

/// Reading back the local form of an id in one of the blocks gives the id.
pub proof fn law_local_form_round_trip(id: i64)
    requires
        Origin::Builtin.lo() <= id < Origin::Plugin.hi(),
    ensures
        id_of(types::id_text(id as int)) == Ok::<i64, IdErrorModel>(id),
{
    let o = Origin::of_id(id as int);
    let offset = id - o.lo();
    let s = types::id_text(id as int);
    let label = o.short_text();
    let number = text::int_text(offset);
    reveal_strlit("Sys");
    reveal_strlit("User");
    reveal_strlit("File");
    reveal_strlit("Plg");
    reveal_strlit("(");
    reveal_strlit(")");
    types::law_within_is_the_block(id as int, o);
    lemma_int_text_chars(offset);
    assert(s[0] == label[0]);
    assert(s.last() == ')');
    text::lemma_trimmed_bare(s);
    let open = label.len() as int;
    assert(s[open] == '(');
    assert forall|k: int| 0 <= k < open implies s[k] != '(' by {
        assert(s[k] == label[k]);
    }
    lemma_find_from(s, '(', 0, open);
    assert(s.take(open) =~= label);
    assert(s.subrange(open + 1, s.len() - 1) =~= number);
    text::law_show_parse_i64(offset as i64);
    types::law_short_labels_distinct(o, Origin::Builtin);
    types::law_short_labels_distinct(o, Origin::User);
    types::law_short_labels_distinct(o, Origin::File);
    types::law_short_labels_distinct(o, Origin::Plugin);
}

/// Reading back the decimal form of any id gives the id.
pub proof fn law_raw_form_round_trip(id: i64)
    ensures
        id_of(text::int_text(id as int)) == Ok::<i64, IdErrorModel>(id),
{
    let s = text::int_text(id as int);
    text::law_show_parse_i64(id);
    let n = if id < 0 {
        (-(id as int)) as nat
    } else {
        id as nat
    };
    text::lemma_nat_text_digits(n);
    let t = text::nat_text(n);
    assert(text::is_digit(t.last()));
    assert(s.last() == t.last());
    if id >= 0 {
        assert(text::is_digit(t[0]));
    }
    text::lemma_trimmed_bare(s);
    assert forall|k: int| 0 <= k < s.len() implies s[k] != '(' by {
        if id < 0 {
            if k > 0 {
                assert(s[k] == t[k - 1]);
            }
        } else {
            assert(s[k] == t[k]);
        }
    }
    lemma_find_none(s, '(', 0);
}

proof fn lemma_find_none(s: Seq<char>, c: char, from: int)
    requires
        0 <= from <= s.len(),
        forall|k: int| from <= k < s.len() ==> s[k] != c,
    ensures
        text::find_from(s, c, from) == s.len(),
    decreases s.len() - from,
{
    if from < s.len() {
        lemma_find_none(s, c, from + 1);
    }
}

/// The tables in which the ids of an origin are in use, each with its alias.
pub fn source_tables(origin: Origin) -> (r: Vec<(TargetTable, Tbl)>)
    ensures
        r@ == (if origin == Origin::File {
            seq![
                (TargetTable::FileReferences, Tbl::FileReferences),
                (TargetTable::RemovedFiles, Tbl::RemovedFiles),
            ]
        } else {
            seq![(TargetTable::ItemReferences, Tbl::ItemReferences)]
        }),
{
    let mut r: Vec<(TargetTable, Tbl)> = Vec::new();
    match origin {
        Origin::File => {
            r.push((TargetTable::FileReferences, Tbl::FileReferences));
            r.push((TargetTable::RemovedFiles, Tbl::RemovedFiles));
        },
        Origin::Builtin | Origin::User | Origin::Plugin => {
            r.push((TargetTable::ItemReferences, Tbl::ItemReferences));
        },
    }
    r
}

/// The largest id of a table within the block of an origin; the id just below the block where
/// the table has none there.
pub open spec fn largest_in_block(origin: Origin, file: Seq<char>, t: Tbl) -> SelectTerm {
    SelectTerm::nothing().with_plain(
        Term::Call(
            DuckDbFunc::Coalesce.name_text(),
            seq![Term::Call("MAX"@, seq![sql::plain(Col::ItemId)]), Term::Int(origin.lo() - 1)],
        ),
    ).with_from(FromTerm::Select(Box::new(schema::all_rows(file)), t.name_text())).with_where(
        Term::Ge(Box::new(sql::plain(Col::ItemId)), Box::new(Term::Int(origin.lo()))),
    ).with_where(
        Term::Lt(Box::new(sql::plain(Col::ItemId)), Box::new(Term::Int(origin.hi()))),
    )
}

/// The query for the largest id of a table within the block of an origin.
pub fn block_max_query(origin: Origin, path: &str, alias: Tbl) -> (r: sea_query::SelectStatement)
    ensures
        statement::select_term(r) == largest_in_block(origin, path@, alias),
        statement::select_fits(statement::select_term(r)),
{
    broadcast use statement::group_fits;

    let lo = origin.block_lo();
    let hi = origin.block_hi();
    let mut inner: Vec<sea_query::SimpleExpr> = Vec::new();
    inner.push(sql::column(Col::ItemId));
    proof {
        assert(statement::expr_terms(inner@) =~= seq![sql::plain(Col::ItemId)]);
    }
    let mut args: Vec<sea_query::SimpleExpr> = Vec::new();
    args.push(statement::call("MAX", inner));
    args.push(statement::int_value(lo - 1));
    proof {
        assert(statement::expr_terms(args@) =~= seq![
            Term::Call("MAX"@, seq![sql::plain(Col::ItemId)]),
            Term::Int(origin.lo() - 1),
        ]);
        assert(statement::term_fits(Term::Call("MAX"@, seq![sql::plain(Col::ItemId)])));
    }
    let mut q = statement::select();
    statement::add_plain(&mut q, statement::call(DuckDbFunc::Coalesce.name(), args));
    statement::from_select(&mut q, schema::parquet_query(path), alias.name());
    statement::and_where(
        &mut q,
        statement::at_least(sql::column(Col::ItemId), statement::int_value(lo)),
    );
    statement::and_where(
        &mut q,
        statement::below(sql::column(Col::ItemId), statement::int_value(hi)),
    );
    q
}

/// The largest of the values, and at least `start`.
pub open spec fn largest(start: int, found: Seq<i64>) -> int
    decreases found.len(),
{
    if found.len() == 0 {
        start
    } else {
        let m = largest(start, found.drop_last());
        if found.last() > m {
            found.last() as int
        } else {
            m
        }
    }
}

/// The largest id in use in the block of an origin, from the largest ones that its tables
/// report; the id just below the block where none is in use.
pub fn max_in_block(origin: Origin, found: &Vec<i64>) -> (r: i64)
    ensures
        r == largest(origin.lo() - 1, found@),
{
    let mut m: i64 = origin.block_lo() - 1;
    let mut i: usize = 0;
    while i < found.len()
        invariant
            i <= found@.len(),
            m == largest(origin.lo() - 1, found@.take(i as int)),
        decreases found@.len() - i,
    {
        proof {
            assert(found@.take(i + 1).drop_last() =~= found@.take(i as int));
        }
        if found[i] > m {
            m = found[i];
        }
        i += 1;
    }
    proof {
        assert(found@.take(found@.len() as int) =~= found@);
    }
    m
}

/// The ids that follow `max`, in ascending order.
pub open spec fn ids_after(max: int, count: nat) -> Seq<i64> {
    Seq::new(count, |i: int| (max + 1 + i) as i64)
}

/// Hands out the next `count` ids after the largest one in use.
pub fn next(max: i64, count: usize) -> (r: Vec<i64>)
    requires
        max + count <= i64::MAX,
    ensures
        r@ == ids_after(max as int, count as nat),
{
    let mut r: Vec<i64> = Vec::new();
    let mut i: usize = 0;
    while i < count
        invariant
            i <= count,
            max + count <= i64::MAX,
            r@ == ids_after(max as int, i as nat),
        decreases count - i,
    {
        let id: i64 = ((max as i128) + 1 + (i as i128)) as i64;
        proof {
            assert(ids_after(max as int, (i + 1) as nat) =~= ids_after(max as int, i as nat).push(
                id,
            ));
        }
        r.push(id);
        i += 1;
    }
    r
}

/// New ids are above every id in use in the block, start at the bottom of an empty block,
/// and ascend one by one.
pub proof fn law_new_ids(origin: Origin, found: Seq<i64>, count: nat, i: int)
    requires
        0 <= i < count,
        largest(origin.lo() - 1, found) + count <= i64::MAX,
    ensures
        ({
            let max = largest(origin.lo() - 1, found);
            let ids = ids_after(max, count);
            &&& ids[i] == max + 1 + i
            &&& forall|k: int| 0 <= k < found.len() ==> found[k] < ids[i]
            &&& origin.lo() <= ids[i]
            &&& found.len() == 0 ==> ids[0] == origin.lo()
        }),
{
    lemma_largest(origin.lo() - 1, found);
}

proof fn lemma_largest(start: int, found: Seq<i64>)
    ensures
        start <= largest(start, found),
        forall|k: int| 0 <= k < found.len() ==> found[k] <= largest(start, found),
    decreases found.len(),
{
    if found.len() > 0 {
        lemma_largest(start, found.drop_last());
        assert forall|k: int| 0 <= k < found.len() implies found[k] <= largest(start, found) by {
            if k < found.len() - 1 {
                assert(found.drop_last()[k] == found[k]);
            }
        }
    }
}

} // verus!
