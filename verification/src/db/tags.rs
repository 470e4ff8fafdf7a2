//! The tags of all items, one directory for each type of tag.
use crate::col::Col;
use crate::db::schema;
use crate::db::schema::{double_quotes, parquet_query};
use crate::db::sql;
use crate::db::statement;
use crate::db::statement::{FromTerm, JoinTerm, SelectTerm, Term};
use crate::db::store;
use crate::db::{DuckDbFunc, Store, TargetTable, Tbl};
use crate::path;
use crate::tag;
use crate::tag::TagRegistry;
use crate::text;
use crate::types::BiticalType;
use vstd::prelude::*;

verus! {

// ---------------------------------------------------------------------------
// Types of tags as names of directories
// ---------------------------------------------------------------------------

/// A type of tag that cannot be a directory.
#[derive(Debug, PartialEq, Eq)]
pub struct PartitionError {
    pub tag_type: String,
}

impl PartitionError {
    pub fn message(&self) -> (r: String)
        ensures
            r@ == "Invalid tag_type for partition: "@ + self.tag_type@,
    {
        let mut s = "Invalid tag_type for partition: ".to_string();
        s.append(self.tag_type.as_str());
        s
    }
}

/// Whether two dots follow each other from some place on.
pub open spec fn has_dots(s: Seq<char>) -> bool {
    exists|i: int| 0 <= i && i + 1 < s.len() && #[trigger] s[i] == '.' && s[i + 1] == '.'
}

/// Whether a type of tag can be a directory: it is not empty and leads nowhere else.
pub open spec fn fits_directory(s: Seq<char>) -> bool {
    s.len() > 0 && !s.contains('/') && !s.contains('\\') && !has_dots(s)
}

/// Refuses a type of tag that cannot be a directory.
pub fn sanitize_tag_type(tag_type: &str) -> (r: Result<(), PartitionError>)
    ensures
        r is Ok <==> fits_directory(tag_type@),
        r matches Err(e) ==> e.tag_type@ == tag_type@,
{
    let cs = text::chars_of(tag_type);
    let mut bad = cs.len() == 0;
    let mut i: usize = 0;
    while i < cs.len()
        invariant
            i <= cs@.len(),
            !bad ==> cs@.len() > 0,
            !bad ==> forall|k: int|
                0 <= k < i ==> #[trigger] cs@[k] != '/' && cs@[k] != '\\' && !(cs@[k] == '.' && k
                    + 1 < cs@.len() && cs@[k + 1] == '.'),
            bad ==> !fits_directory(cs@),
        decreases cs.len() - i,
    {
        let c = cs[i];
        if c == '/' || c == '\\' {
            proof {
                assert(cs@.contains(cs@[i as int]));
            }
            bad = true;
        }
        if c == '.' && i + 1 < cs.len() && cs[i + 1] == '.' {
            proof {
                assert(cs@[i as int] == '.' && cs@[i + 1] == '.');
                assert(has_dots(cs@));
            }
            bad = true;
        }
        i += 1;
    }
    if bad {
        Err(PartitionError { tag_type: tag_type.to_string() })
    } else {
        Ok(())
    }
}

/// The directory of a type of tag, among the directories of all types.
pub open spec fn partition_name(tag_type: Seq<char>) -> Seq<char> {
    "type="@ + tag_type
}

/// A type of tag that can be a directory stays below the directory of all types: its
/// directory is one name.
pub proof fn law_partitions_stay_inside(tag_type: Seq<char>)
    requires
        fits_directory(tag_type),
    ensures
        !partition_name(tag_type).contains('/'),
        !partition_name(tag_type).contains('\\'),
        path::is_name(partition_name(tag_type)),
{
    reveal_strlit("type=");
    let p = partition_name(tag_type);
    assert forall|i: int| 0 <= i < p.len() implies p[i] != '/' && p[i] != '\\' by {
        if i >= 5 {
            assert(p[i] == tag_type[i - 5]);
            assert(tag_type.contains(tag_type[i - 5]));
        }
    }
    assert(p[0] == 't');
    reveal_strlit(".");
    reveal_strlit("..");
}

// ---------------------------------------------------------------------------
// The query
// ---------------------------------------------------------------------------

pub open spec fn col_of(t: Tbl, c: Col) -> Term {
    Term::Col(Some(t.name_text()), c.name_text())
}

pub(crate) fn column_of(t: Tbl, c: Col) -> (r: sea_query::SimpleExpr)
    ensures
        statement::expr_term(r) == col_of(t, c),
{
    statement::column_of(t.name(), c.name())
}

/// A column as text.
pub open spec fn as_text(t: Tbl, c: Col) -> Term {
    Term::Cast(Box::new(col_of(t, c)), BiticalType::String.sql_text())
}

/// The label of a row as text: that of the first label column that holds one.
pub open spec fn label_text(t: Tbl) -> Term {
    Term::Call(
        DuckDbFunc::Coalesce.name_text(),
        seq![
            col_of(t, Col::LabelStr),
            as_text(t, Col::LabelInt),
            as_text(t, Col::LabelDouble),
            as_text(t, Col::LabelBool),
        ],
    )
}

/// The label of a row as text.
pub fn build_label_str_expr(t: Tbl) -> (r: sea_query::SimpleExpr)
    ensures
        statement::expr_term(r) == label_text(t),
        statement::term_fits(statement::expr_term(r)),
{
    broadcast use statement::group_fits;

    let ty = BiticalType::String.sql_name();
    let mut args = sql::three(
        column_of(t, Col::LabelStr),
        statement::cast(column_of(t, Col::LabelInt), ty),
        statement::cast(column_of(t, Col::LabelDouble), ty),
    );
    let last = statement::cast(column_of(t, Col::LabelBool), ty);
    proof {
        statement::lemma_terms_push(args@, last);
    }
    args.push(last);
    proof {
        assert(statement::expr_terms(args@) =~= seq![
            col_of(t, Col::LabelStr),
            as_text(t, Col::LabelInt),
            as_text(t, Col::LabelDouble),
            as_text(t, Col::LabelBool),
        ]);
        assert(forall|c: Col| statement::term_fits(#[trigger] as_text(t, c)));
    }
    statement::call(DuckDbFunc::Coalesce.name(), args)
}

/// The type of a row, its label and both as one tag, for the rows of a file.
pub open spec fn typed_rows(t: Tbl, file: Seq<char>, label: Term) -> SelectTerm {
    SelectTerm::nothing().with_plain(col_of(t, Col::Type)).with_item(
        label,
        Col::Label.name_text(),
    ).with_item(
        Term::Call(
            DuckDbFunc::Concat.name_text(),
            seq![col_of(t, Col::Type), Term::Text(":"@), label],
        ),
        Col::TypedTag.name_text(),
    ).with_from(FromTerm::Select(Box::new(schema::all_rows(file)), t.name_text()))
}

fn typed_rows_of(t: Tbl, file: &str, label: sea_query::SimpleExpr) -> (r:
    sea_query::SelectStatement)
    ensures
        statement::select_term(r) == typed_rows(t, file@, statement::expr_term(label)),
{
    let again = statement::copy_expr(&label);
    let tag = statement::call(
        DuckDbFunc::Concat.name(),
        sql::three(column_of(t, Col::Type), statement::text_value(":"), again),
    );
    let mut q = statement::select();
    statement::add_plain(&mut q, column_of(t, Col::Type));
    statement::add_item(&mut q, label, Col::Label.name());
    statement::add_item(&mut q, tag, Col::TypedTag.name());
    statement::from_select(&mut q, parquet_query(file), t.name());
    q
}

/// The rows of one type only, where one is asked for.
pub open spec fn of_type(q: SelectTerm, t: Tbl, target: Option<Seq<char>>) -> SelectTerm {
    match target {
        None => q,
        Some(ty) => q.with_where(
            Term::Eq(Box::new(col_of(t, Col::Type)), Box::new(Term::Text(ty))),
        ),
    }
}

pub open spec fn target_model(target: Option<&str>) -> Option<Seq<char>> {
    match target {
        None => None,
        Some(s) => Some(s@),
    }
}

fn keep_type(q: &mut sea_query::SelectStatement, t: Tbl, target: Option<&str>)
    ensures
        statement::select_term(*final(q)) == of_type(
            statement::select_term(*old(q)),
            t,
            target_model(target),
        ),
{
    if let Some(ty) = target {
        let cond = statement::equal(column_of(t, Col::Type), statement::text_value(ty));
        statement::and_where(q, cond);
    }
}

/// The rows of the table of base tags, without the types that are no tags.
pub open spec fn base_rows(file: Seq<char>, excluded: Seq<Seq<char>>) -> SelectTerm {
    let rows = typed_rows(Tbl::BaseTags, file, label_text(Tbl::BaseTags));
    if excluded.len() == 0 {
        rows
    } else {
        rows.with_where(
            Term::NotIn(Box::new(col_of(Tbl::BaseTags, Col::Type)), statement::text_terms(excluded)),
        )
    }
}

/// The ranks of files as tags.
pub open spec fn rank_rows(file: Seq<char>) -> SelectTerm {
    let rank = as_text(Tbl::FileReferences, Col::Rank);
    SelectTerm::nothing().with_item(Term::Text("rank"@), Col::Type.name_text()).with_item(
        rank,
        Col::Label.name_text(),
    ).with_item(
        Term::Call(DuckDbFunc::Concat.name_text(), seq![Term::Text("rank:"@), rank]),
        Col::TypedTag.name_text(),
    ).with_from(
        FromTerm::Select(Box::new(schema::all_rows(file)), Tbl::FileReferences.name_text()),
    )
}

/// Whether the ranks of files are among the tags.
pub open spec fn wants_ranks(target: Option<Seq<char>>, has_files: bool) -> bool {
    has_files && (target is None || target == Some("rank"@))
}

/// The tags of all sources.
pub open spec fn all_tags(
    dir: Seq<char>,
    excluded: Seq<Seq<char>>,
    target: Option<Seq<char>>,
    has_files: bool,
) -> SelectTerm {
    let file = |t: TargetTable| path::joined_to(dir, store::table_file(t));
    let located = of_type(
        typed_rows(
            Tbl::TagsByLocation,
            file(TargetTable::TagsByLocation),
            col_of(Tbl::TagsByLocation, Col::LabelStr),
        ),
        Tbl::TagsByLocation,
        target,
    );
    let given = of_type(
        typed_rows(Tbl::UserTags, file(TargetTable::UserTags), label_text(Tbl::UserTags)),
        Tbl::UserTags,
        target,
    );
    let base = of_type(
        base_rows(file(TargetTable::BaseTags), excluded),
        Tbl::BaseTags,
        target,
    );
    let three = located.with_union(given).with_union(base);
    if wants_ranks(target, has_files) {
        three.with_union(rank_rows(file(TargetTable::FileReferences)))
    } else {
        three
    }
}

/// The items that stand for tags.
pub open spec fn tag_items(file: Seq<char>) -> SelectTerm {
    SelectTerm::nothing().with_plain(Term::Col(None, Col::Content.name_text())).with_plain(
        Term::Col(None, Col::ItemId.name_text()),
    ).with_plain(Term::Col(None, Col::Rank.name_text())).with_from(
        FromTerm::Select(Box::new(schema::all_rows(file)), Tbl::ItemReferences.name_text()),
    ).with_where(
        Term::Eq(
            Box::new(Term::Col(None, Col::ItemKind.name_text())),
            Box::new(Term::Text("tag"@)),
        ),
    )
}

/// Each tag once, with the item that stands for it and the rank of that item. A query for
/// one type leaves the type out.
pub open spec fn tags_select(
    dir: Seq<char>,
    excluded: Seq<Seq<char>>,
    target: Option<Seq<char>>,
    has_files: bool,
) -> SelectTerm {
    let start = SelectTerm { distinct: true, ..SelectTerm::nothing() };
    let head = if target is None {
        start.with_plain(col_of(Tbl::ItemTags, Col::Type))
    } else {
        start
    };
    let listed = head.with_plain(col_of(Tbl::ItemTags, Col::Label)).with_plain(
        col_of(Tbl::ItemTags, Col::TypedTag),
    ).with_item(col_of(Tbl::ItemReferences, Col::ItemId), Col::ItemId.name_text()).with_item(
        Term::Call(
            DuckDbFunc::Coalesce.name_text(),
            seq![col_of(Tbl::ItemReferences, Col::Rank), Term::Int(0)],
        ),
        Col::Rank.name_text(),
    ).with_from(
        FromTerm::Select(
            Box::new(all_tags(dir, excluded, target, has_files)),
            Tbl::ItemTags.name_text(),
        ),
    );
    let joined = listed.with_join(
        JoinTerm::Left,
        tag_items(path::joined_to(dir, store::table_file(TargetTable::ItemReferences))),
        Tbl::ItemReferences.name_text(),
        Term::Eq(
            Box::new(col_of(Tbl::ItemTags, Col::TypedTag)),
            Box::new(col_of(Tbl::ItemReferences, Col::Content)),
        ),
    );
    joined.with_order(col_of(Tbl::ItemTags, Col::Label), true).with_order(
        col_of(Tbl::ItemReferences, Col::ItemId),
        true,
    )
}

/// Tags of the types that are no tags are left out of the base tags, whatever is asked for.
pub proof fn law_excluded_types_stay_out(
    file: Seq<char>,
    excluded: Seq<Seq<char>>,
    target: Option<Seq<char>>,
)
    requires
        excluded.len() > 0,
    ensures
        of_type(base_rows(file, excluded), Tbl::BaseTags, target).wheres.contains(
            Term::NotIn(Box::new(col_of(Tbl::BaseTags, Col::Type)), statement::text_terms(excluded)),
        ),
{
    let w = of_type(base_rows(file, excluded), Tbl::BaseTags, target).wheres;
    assert(w[0] == Term::NotIn(Box::new(col_of(Tbl::BaseTags, Col::Type)), statement::text_terms(excluded)));
}

/// The query for tags can be written out as text, whatever it asks for.
pub proof fn law_tag_queries_can_be_written(
    dir: Seq<char>,
    excluded: Seq<Seq<char>>,
    target: Option<Seq<char>>,
    has_files: bool,
)
    ensures
        statement::select_fits(tags_select(dir, excluded, target, has_files)),
{
    broadcast use statement::group_fits;

    assert(forall|t: Tbl, c: Col| statement::term_fits(#[trigger] as_text(t, c)));
    assert(forall|t: Tbl| statement::term_fits(#[trigger] label_text(t)));
    let rows = all_tags(dir, excluded, target, has_files);
    assert(statement::select_fits(rows));
}

fn base_rows_of(file: &str, registry: &TagRegistry) -> (r: sea_query::SelectStatement)
    ensures
        statement::select_term(r) == base_rows(file@, tag::excluded_names(registry@)),
{
    let mut q = typed_rows_of(Tbl::BaseTags, file, build_label_str_expr(Tbl::BaseTags));
    let excluded = registry.get_excluded_from_tags();
    proof {
        assert(excluded@.len() == text::texts(excluded@).len());
    }
    if excluded.len() > 0 {
        let cond = statement::not_among_texts(column_of(Tbl::BaseTags, Col::Type), excluded);
        statement::and_where(&mut q, cond);
    }
    q
}

fn rank_rows_of(file: &str) -> (r: sea_query::SelectStatement)
    ensures
        statement::select_term(r) == rank_rows(file@),
{
    let ty = BiticalType::String.sql_name();
    let rank = statement::cast(column_of(Tbl::FileReferences, Col::Rank), ty);
    let again = statement::copy_expr(&rank);
    let mut args: Vec<sea_query::SimpleExpr> = Vec::new();
    args.push(statement::text_value("rank:"));
    args.push(again);
    proof {
        assert(statement::expr_terms(args@) =~= seq![
            Term::Text("rank:"@),
            as_text(Tbl::FileReferences, Col::Rank),
        ]);
    }
    let tag = statement::call(DuckDbFunc::Concat.name(), args);
    let mut q = statement::select();
    statement::add_item(&mut q, statement::text_value("rank"), Col::Type.name());
    statement::add_item(&mut q, rank, Col::Label.name());
    statement::add_item(&mut q, tag, Col::TypedTag.name());
    statement::from_select(&mut q, parquet_query(file), Tbl::FileReferences.name());
    q
}

fn all_tags_of(
    store: &Store,
    registry: &TagRegistry,
    target_type: Option<&str>,
    file_refs_exist: bool,
) -> (r: sea_query::SelectStatement)
    ensures
        statement::select_term(r) == all_tags(
            store.db_dir@,
            tag::excluded_names(registry@),
            target_model(target_type),
            file_refs_exist,
        ),
{
    let loc_file = store.path_for_target(TargetTable::TagsByLocation);
    let mut union_q = typed_rows_of(
        Tbl::TagsByLocation,
        loc_file.as_str(),
        column_of(Tbl::TagsByLocation, Col::LabelStr),
    );
    keep_type(&mut union_q, Tbl::TagsByLocation, target_type);

    let user_file = store.path_for_target(TargetTable::UserTags);
    let mut user_q = typed_rows_of(
        Tbl::UserTags,
        user_file.as_str(),
        build_label_str_expr(Tbl::UserTags),
    );
    keep_type(&mut user_q, Tbl::UserTags, target_type);
    statement::union_all(&mut union_q, user_q);

    let base_file = store.path_for_target(TargetTable::BaseTags);
    let mut base_q = base_rows_of(base_file.as_str(), registry);
    keep_type(&mut base_q, Tbl::BaseTags, target_type);
    statement::union_all(&mut union_q, base_q);

    let ranks = match target_type {
        None => true,
        Some(t) => text::str_eq(t, "rank"),
    };
    if ranks && file_refs_exist {
        let files = store.path_for_target(TargetTable::FileReferences);
        statement::union_all(&mut union_q, rank_rows_of(files.as_str()));
    }
    union_q
}

fn tag_items_of(file: &str) -> (r: sea_query::SelectStatement)
    ensures
        statement::select_term(r) == tag_items(file@),
{
    let mut q = statement::select();
    statement::add_plain(&mut q, statement::column(Col::Content.name()));
    statement::add_plain(&mut q, statement::column(Col::ItemId.name()));
    statement::add_plain(&mut q, statement::column(Col::Rank.name()));
    statement::from_select(&mut q, parquet_query(file), Tbl::ItemReferences.name());
    let cond = statement::equal(
        statement::column(Col::ItemKind.name()),
        statement::text_value("tag"),
    );
    statement::and_where(&mut q, cond);
    q
}

/// The query for all tags, or for those of one type. `file_refs_exist` says whether the table
/// of files has been written.
pub fn build_tags_select_query(
    store: &Store,
    registry: &TagRegistry,
    target_type: Option<&str>,
    file_refs_exist: bool,
) -> (r: sea_query::SelectStatement)
    ensures
        statement::select_term(r) == tags_select(
            store.db_dir@,
            tag::excluded_names(registry@),
            target_model(target_type),
            file_refs_exist,
        ),
        statement::select_fits(statement::select_term(r)),
{
    let union_q = all_tags_of(store, registry, target_type, file_refs_exist);
    let items_file = store.path_for_target(TargetTable::ItemReferences);
    let item_refs_q = tag_items_of(items_file.as_str());

    let mut args: Vec<sea_query::SimpleExpr> = Vec::new();
    args.push(column_of(Tbl::ItemReferences, Col::Rank));
    args.push(statement::int_value(0));
    proof {
        assert(statement::expr_terms(args@) =~= seq![
            col_of(Tbl::ItemReferences, Col::Rank),
            Term::Int(0),
        ]);
    }
    let rank_expr = statement::call(DuckDbFunc::Coalesce.name(), args);

    let mut q = statement::select();
    statement::set_distinct(&mut q);
    if target_type.is_none() {
        statement::add_plain(&mut q, column_of(Tbl::ItemTags, Col::Type));
    }
    statement::add_plain(&mut q, column_of(Tbl::ItemTags, Col::Label));
    statement::add_plain(&mut q, column_of(Tbl::ItemTags, Col::TypedTag));
    statement::add_item(&mut q, column_of(Tbl::ItemReferences, Col::ItemId), Col::ItemId.name());
    statement::add_item(&mut q, rank_expr, Col::Rank.name());
    statement::from_select(&mut q, union_q, Tbl::ItemTags.name());
    let on = statement::equal(
        column_of(Tbl::ItemTags, Col::TypedTag),
        column_of(Tbl::ItemReferences, Col::Content),
    );
    statement::left_join(&mut q, item_refs_q, Tbl::ItemReferences.name(), on);
    statement::order_by(&mut q, column_of(Tbl::ItemTags, Col::Label));
    statement::order_by(&mut q, column_of(Tbl::ItemReferences, Col::ItemId));
    proof {
        law_tag_queries_can_be_written(
            store.db_dir@,
            tag::excluded_names(registry@),
            target_model(target_type),
            file_refs_exist,
        );
    }
    q
}

/// The query for the tags of one type, for a type that can be a directory.
pub fn partition_query(
    store: &Store,
    registry: &TagRegistry,
    tag_type: &str,
    file_refs_exist: bool,
) -> (r: Result<sea_query::SelectStatement, PartitionError>)
    ensures
        r is Ok <==> fits_directory(tag_type@),
        r matches Ok(q) ==> statement::select_term(q) == tags_select(
            store.db_dir@,
            tag::excluded_names(registry@),
            Some(tag_type@),
            file_refs_exist,
        ),
        r matches Ok(q) ==> statement::select_fits(statement::select_term(q)),
        r matches Err(e) ==> e.tag_type@ == tag_type@,
{
    match sanitize_tag_type(tag_type) {
        Err(e) => Err(e),
        Ok(()) => Ok(build_tags_select_query(store, registry, Some(tag_type), file_refs_exist)),
    }
}

// ---------------------------------------------------------------------------
// Writing the tags
// ---------------------------------------------------------------------------

/// The directories that tags are kept in and written to first.
#[derive(Debug)]
pub struct TagDirs {
    pub tags: String,
    pub temp: String,
}

/// A step of writing tags.
#[derive(Debug)]
pub enum WriteStep {
    /// Removes a directory with what is in it.
    RemoveDir(String),
    /// Removes a directory; that it cannot be removed is no failure.
    DropDir(String),
    CreateDir(String),
    Rename(String, String),
    Run(String),
}

pub enum StepModel {
    RemoveDir(Seq<char>),
    DropDir(Seq<char>),
    CreateDir(Seq<char>),
    Rename(Seq<char>, Seq<char>),
    Run(Seq<char>),
}

impl View for WriteStep {
    type V = StepModel;

    open spec fn view(&self) -> StepModel {
        match *self {
            WriteStep::RemoveDir(d) => StepModel::RemoveDir(d@),
            WriteStep::DropDir(d) => StepModel::DropDir(d@),
            WriteStep::CreateDir(d) => StepModel::CreateDir(d@),
            WriteStep::Rename(a, b) => StepModel::Rename(a@, b@),
            WriteStep::Run(s) => StepModel::Run(s@),
        }
    }
}

pub open spec fn step_models(v: Seq<WriteStep>) -> Seq<StepModel> {
    v.map_values(|s: WriteStep| s@)
}

fn add_step(steps: &mut Vec<WriteStep>, s: WriteStep)
    ensures
        step_models(final(steps)@) == step_models(old(steps)@).push(s@),
{
    steps.push(s);
    proof {
        assert(step_models(steps@) =~= step_models(old(steps)@).push(s@));
    }
}

/// The SQL that counts the rows of a query.
pub fn count_sql(select: &sea_query::SelectStatement) -> (r: String)
    requires
        statement::select_fits(statement::select_term(*select)),
    ensures
        r@ == "SELECT COUNT(*) FROM ("@ + statement::select_text(statement::select_term(*select))
            + ")"@,
{
    let rows = statement::select_sql(select);
    text::cat3("SELECT COUNT(*) FROM (", rows.as_str(), ")")
}

/// The SQL that writes the rows of a query to a place, with some options.
pub open spec fn copy_text(select_sql: Seq<char>, place: Seq<char>, options: Seq<char>) -> Seq<
    char,
> {
    "COPY ("@ + select_sql + ") TO '"@ + schema::doubled(place) + "' ("@ + options + ")"@
}

fn copy_sql(select_sql: &str, place: &str, options: &str) -> (r: String)
    ensures
        r@ == copy_text(select_sql@, place@, options@),
{
    let mut s = text::cat3("COPY (", select_sql, ") TO '");
    let d = double_quotes(place);
    s.append(d.as_str());
    s.append("' (");
    s.append(options);
    s.append(")");
    s
}

/// Which of the directories of one type are there: its own, the one that is written to first
/// and the one that the old tags are moved to.
#[derive(Clone, Copy, Debug)]
pub struct PartitionDirs {
    pub own: bool,
    pub temp: bool,
    pub old: bool,
}

/// Takes in one more step where `b` holds.
pub open spec fn and_if(v: Seq<StepModel>, b: bool, s: StepModel) -> Seq<StepModel> {
    if b {
        v.push(s)
    } else {
        v
    }
}

/// The steps that write the tags of one type, whose query has `count` rows: without rows its
/// directory goes; else the tags are written next to it and then take its place.
pub open spec fn partition_steps(
    dir: Seq<char>,
    tags: Seq<char>,
    temp: Seq<char>,
    tag_type: Seq<char>,
    select_sql: Seq<char>,
    count: i64,
    there: PartitionDirs,
) -> Seq<StepModel> {
    let own = path::joined_to(tags, partition_name(tag_type));
    let temp_own = path::joined_to(temp, partition_name(tag_type));
    let old_own = path::joined_to(dir, "tags_"@ + tag_type + ".old"@);
    if count == 0 {
        and_if(seq![], there.own, StepModel::RemoveDir(own))
    } else {
        let written = and_if(seq![], there.temp, StepModel::RemoveDir(temp_own)).push(
            StepModel::CreateDir(temp_own),
        ).push(
            StepModel::Run(
                copy_text(
                    select_sql,
                    path::joined_to(temp_own, "data.parquet"@),
                    "FORMAT PARQUET"@,
                ),
            ),
        );
        if there.own {
            and_if(written, there.old, StepModel::RemoveDir(old_own)).push(
                StepModel::Rename(own, old_own),
            ).push(StepModel::Rename(temp_own, own)).push(StepModel::DropDir(old_own))
        } else {
            written.push(StepModel::CreateDir(tags)).push(StepModel::Rename(temp_own, own))
        }
    }
}

fn partition_dir(base: &str, tag_type: &str) -> (r: String)
    ensures
        r@ == path::joined_to(base@, partition_name(tag_type@)),
{
    let mut name = "type=".to_string();
    name.append(tag_type);
    path::join_path(base, name.as_str())
}

/// The steps that give up the tags of some types after writing them has failed, so that
/// nothing that is out of date is read.
pub fn give_up_partitions(dirs: &TagDirs, tag_types: &Vec<String>) -> (r: Vec<WriteStep>)
    ensures
        step_models(r@) == text::texts(tag_types@).map_values(
            |t: Seq<char>| StepModel::DropDir(path::joined_to(dirs.tags@, partition_name(t))),
        ),
{
    let ghost drop = |t: Seq<char>|
        StepModel::DropDir(path::joined_to(dirs.tags@, partition_name(t)));
    let ghost all = text::texts(tag_types@).map_values(drop);
    let mut steps: Vec<WriteStep> = Vec::new();
    let mut i: usize = 0;
    proof {
        assert(step_models(steps@) =~= all.take(0));
    }
    while i < tag_types.len()
        invariant
            i <= tag_types@.len(),
            drop == (|t: Seq<char>|
                StepModel::DropDir(path::joined_to(dirs.tags@, partition_name(t)))),
            all == text::texts(tag_types@).map_values(drop),
            step_models(steps@) == all.take(i as int),
        decreases tag_types.len() - i,
    {
        let dir = partition_dir(dirs.tags.as_str(), tag_types[i].as_str());
        proof {
            assert(all.take(i + 1) =~= all.take(i as int).push(StepModel::DropDir(dir@)));
        }
        add_step(&mut steps, WriteStep::DropDir(dir));
        i += 1;
    }
    proof {
        assert(all.take(all.len() as int) =~= all);
    }
    steps
}

/// The steps that write the tags of one type, whose query has `count` rows.
pub fn plan_partition(
    store: &Store,
    dirs: &TagDirs,
    tag_type: &str,
    select: &sea_query::SelectStatement,
    count: i64,
    there: PartitionDirs,
) -> (r: Vec<WriteStep>)
    requires
        statement::select_fits(statement::select_term(*select)),
    ensures
        step_models(r@) == partition_steps(
            store.db_dir@,
            dirs.tags@,
            dirs.temp@,
            tag_type@,
            statement::select_text(statement::select_term(*select)),
            count,
            there,
        ),
{
    let old_name = text::cat3("tags_", tag_type, ".old");
    let own = partition_dir(dirs.tags.as_str(), tag_type);
    let temp_own = partition_dir(dirs.temp.as_str(), tag_type);
    let old_own = path::join_path(store.db_dir.as_str(), old_name.as_str());
    let mut steps: Vec<WriteStep> = Vec::new();
    proof {
        assert(step_models(steps@) =~= seq![]);
    }
    if count == 0 {
        if there.own {
            add_step(&mut steps, WriteStep::RemoveDir(own));
        }
        return steps;
    }
    if there.temp {
        add_step(&mut steps, WriteStep::RemoveDir(temp_own.clone()));
    }
    add_step(&mut steps, WriteStep::CreateDir(temp_own.clone()));
    let file = path::join_path(temp_own.as_str(), "data.parquet");
    let rows = statement::select_sql(select);
    add_step(
        &mut steps,
        WriteStep::Run(copy_sql(rows.as_str(), file.as_str(), "FORMAT PARQUET")),
    );
    if there.own {
        if there.old {
            add_step(&mut steps, WriteStep::RemoveDir(old_own.clone()));
        }
        add_step(&mut steps, WriteStep::Rename(own.clone(), old_own.clone()));
        add_step(&mut steps, WriteStep::Rename(temp_own, own));
        add_step(&mut steps, WriteStep::DropDir(old_own));
    } else {
        add_step(&mut steps, WriteStep::CreateDir(dirs.tags.clone()));
        add_step(&mut steps, WriteStep::Rename(temp_own, own));
    }
    steps
}

/// The options under which the tags of all types are written.
pub open spec fn all_options() -> Seq<char> {
    "FORMAT PARQUET, PARTITION_BY (type), OVERWRITE_OR_IGNORE"@
}

/// The options under which the file is written that says that all tags are there.
pub open spec fn ready_options() -> Seq<char> {
    "FORMAT PARQUET, KV_METADATA { 'ttfm.status': 'complete' }"@
}

/// The steps that write the tags of all types: next to the old ones, which they then take
/// the place of.
pub open spec fn hive_steps(
    dir: Seq<char>,
    tags: Seq<char>,
    temp: Seq<char>,
    select_sql: Seq<char>,
    there: PartitionDirs,
) -> Seq<StepModel> {
    let backup = path::joined_to(dir, "tags.old"@);
    let written = and_if(seq![], there.temp, StepModel::RemoveDir(temp)).push(
        StepModel::CreateDir(temp),
    ).push(StepModel::Run(copy_text(select_sql, temp, all_options()))).push(
        StepModel::Run(
            copy_text(
                "SELECT 1 AS ready"@,
                path::joined_to(temp, "metadata.parquet"@),
                ready_options(),
            ),
        ),
    );
    if there.own {
        and_if(written, there.old, StepModel::RemoveDir(backup)).push(
            StepModel::Rename(tags, backup),
        ).push(StepModel::Rename(temp, tags)).push(StepModel::DropDir(backup))
    } else {
        written.push(StepModel::Rename(temp, tags))
    }
}

/// The steps that write the tags of all types.
pub fn plan_hive(
    store: &Store,
    dirs: &TagDirs,
    select: &sea_query::SelectStatement,
    there: PartitionDirs,
) -> (r: Vec<WriteStep>)
    requires
        statement::select_fits(statement::select_term(*select)),
    ensures
        step_models(r@) == hive_steps(
            store.db_dir@,
            dirs.tags@,
            dirs.temp@,
            statement::select_text(statement::select_term(*select)),
            there,
        ),
{
    let backup = path::join_path(store.db_dir.as_str(), "tags.old");
    let mut steps: Vec<WriteStep> = Vec::new();
    proof {
        assert(step_models(steps@) =~= seq![]);
    }
    if there.temp {
        add_step(&mut steps, WriteStep::RemoveDir(dirs.temp.clone()));
    }
    add_step(&mut steps, WriteStep::CreateDir(dirs.temp.clone()));
    let rows = statement::select_sql(select);
    let copy = copy_sql(
        rows.as_str(),
        dirs.temp.as_str(),
        "FORMAT PARQUET, PARTITION_BY (type), OVERWRITE_OR_IGNORE",
    );
    add_step(&mut steps, WriteStep::Run(copy));
    let meta_file = path::join_path(dirs.temp.as_str(), "metadata.parquet");
    let meta = copy_sql(
        "SELECT 1 AS ready",
        meta_file.as_str(),
        "FORMAT PARQUET, KV_METADATA { 'ttfm.status': 'complete' }",
    );
    add_step(&mut steps, WriteStep::Run(meta));
    if there.own {
        if there.old {
            add_step(&mut steps, WriteStep::RemoveDir(backup.clone()));
        }
        add_step(&mut steps, WriteStep::Rename(dirs.tags.clone(), backup.clone()));
        add_step(&mut steps, WriteStep::Rename(dirs.temp.clone(), dirs.tags.clone()));
        add_step(&mut steps, WriteStep::DropDir(backup));
    } else {
        add_step(&mut steps, WriteStep::Rename(dirs.temp.clone(), dirs.tags.clone()));
    }
    steps
}

/// Whatever was there, tags that have rows end up in their directory: the last step that moves
/// a directory moves the new tags there, and nothing before it removes the old ones.
pub proof fn law_old_tags_are_moved_not_removed(
    dir: Seq<char>,
    tags: Seq<char>,
    temp: Seq<char>,
    tag_type: Seq<char>,
    select_sql: Seq<char>,
    count: i64,
    there: PartitionDirs,
)
    requires
        count != 0,
        path::joined_to(temp, partition_name(tag_type)) != path::joined_to(
            tags,
            partition_name(tag_type),
        ),
        path::joined_to(dir, "tags_"@ + tag_type + ".old"@) != path::joined_to(
            tags,
            partition_name(tag_type),
        ),
    ensures
        ({
            let steps = partition_steps(dir, tags, temp, tag_type, select_sql, count, there);
            let own = path::joined_to(tags, partition_name(tag_type));
            let temp_own = path::joined_to(temp, partition_name(tag_type));
            &&& steps.contains(StepModel::Rename(temp_own, own))
            &&& !steps.contains(StepModel::RemoveDir(own))
        }),
{
    let steps = partition_steps(dir, tags, temp, tag_type, select_sql, count, there);
    let own = path::joined_to(tags, partition_name(tag_type));
    let temp_own = path::joined_to(temp, partition_name(tag_type));
    let n = steps.len() as int;
    if there.own {
        assert(steps[n - 2] == StepModel::Rename(temp_own, own));
    } else {
        assert(steps[n - 1] == StepModel::Rename(temp_own, own));
    }
}

} // verus!
