use sea_query::{Expr, PostgresQueryBuilder, Query, SimpleExpr};
use ttfm::cache_search_sql::{
    build_label_counts, build_label_expansion_sql, LabelValue, StorageMapping,
};
use ttfm::col::{Col, SqlType};
use ttfm::db::identifier::block_max_query;
use ttfm::db::schema::Src;
use ttfm::db::sql::{CustomFunc, Order};
use ttfm::db::store::Store;
use ttfm::db::tags::{build_label_str_expr, partition_query};
use ttfm::db::Tbl;
use ttfm::edit::sql::{
    cast_update, column_case_update, existing_ids_query, labels_query, ordered_query,
    query_without,
};
use ttfm::item::TagType;
use ttfm::tag::TagRegistry;
use ttfm::types::{Bitical, BiticalType, Origin};

const SUB: &str = "SELECT * FROM read_parquet('f.parquet')";

fn sql_of(expr: SimpleExpr) -> String {
    Query::select().expr(expr).to_string(PostgresQueryBuilder)
}

fn col(c: Col) -> SimpleExpr {
    Expr::col(sea_query::Alias::new(c.name())).into()
}

fn is_empty() -> SimpleExpr {
    Expr::col(sea_query::Alias::new("name")).is_null()
}

#[test]
fn aggregates_are_filtered() {
    assert_eq!(
        sql_of(CustomFunc::max_filter(col(Col::Rank), is_empty())),
        "SELECT MAX(\"rank\") FILTER (WHERE \"name\" IS NULL)"
    );
    assert_eq!(
        sql_of(CustomFunc::any_value_filter(col(Col::Rank), is_empty())),
        "SELECT ANY_VALUE(\"rank\") FILTER (WHERE \"name\" IS NULL)"
    );
    let any = sql_of(CustomFunc::any_value(col(Col::Rank)));
    assert!(any.to_lowercase().contains("any_value(\"rank\")"), "{any}");
    let list = sql_of(CustomFunc::list(col(Col::Rank)));
    assert!(list.to_lowercase().contains("list(\"rank\")"), "{list}");
    let kind = sql_of(CustomFunc::type_of(col(Col::Rank)));
    assert!(kind.to_lowercase().contains("typeof(\"rank\")"), "{kind}");
}

#[test]
fn columns_are_replaced_and_wrapped() {
    assert_eq!(
        sql_of(CustomFunc::star_replace(Col::Name, col(Col::Content))),
        "SELECT * REPLACE(\"content\" AS \"name\")"
    );
    let wrapped = sql_of(CustomFunc::as_representative(col(Col::Content)));
    assert_eq!(
        wrapped,
        format!(
            "SELECT list_value(CAST(\"content\" AS {}))",
            CustomFunc::representative_union_type()
        )
    );
    let order = vec![("rank".to_string(), Order::Desc)];
    let numbered = sql_of(CustomFunc::row_number_over("type", &order));
    assert!(numbered.contains("row_number() OVER (PARTITION BY \"type\""), "{numbered}");
    assert!(numbered.contains("DESC"), "{numbered}");
    assert_eq!(
        CustomFunc::item_id_origin_qualified(Tbl::Tags, Col::ItemId),
        CustomFunc::item_id_origin("tags.item_id")
    );
}

#[test]
fn ids_are_looked_for_in_their_block_only() {
    let sql = block_max_query(Origin::User, "f.parquet", Tbl::ItemReferences)
        .to_string(PostgresQueryBuilder);
    assert!(sql.contains("MAX(\"item_id\")"), "{sql}");
    assert!(sql.contains("-1)"), "{sql}");
    assert!(sql.contains("\"item_id\" >= 0"), "{sql}");
    let hi = Origin::User.block_hi();
    assert!(sql.contains(&format!("\"item_id\" < {hi}")), "{sql}");
}

#[test]
fn labels_of_a_type_are_read_as_texts() {
    let sql = labels_query("f.parquet", "size_class").to_string(PostgresQueryBuilder);
    assert!(sql.contains(&sql_of(build_label_str_expr(Tbl::UserTags))["SELECT ".len()..]), "{sql}");
    assert!(sql.contains("\"type\" = 'size_class'"), "{sql}");
    assert!(sql.contains("read_parquet"), "{sql}");
}

#[test]
fn converted_labels_leave_their_old_column() {
    let sql = cast_update(Tbl::Target, "year", BiticalType::Integer)
        .to_string(PostgresQueryBuilder);
    assert!(sql.starts_with("UPDATE \"target\" SET"), "{sql}");
    assert!(sql.contains("\"label_str\" = NULL"), "{sql}");
    assert!(sql.contains("\"label_double\" = NULL"), "{sql}");
    assert!(sql.contains("\"label_bool\" = NULL"), "{sql}");
    assert!(sql.contains("\"label_int\" = CAST("), "{sql}");
    assert!(sql.contains("AS BIGINT)"), "{sql}");
    assert!(sql.ends_with("WHERE \"type\" = 'year'"), "{sql}");
}

#[test]
fn columns_are_updated_case_by_case() {
    let updates = vec![(3, Bitical::Integer(30)), (4, Bitical::Integer(40))];
    assert_eq!(
        column_case_update(Tbl::Target, Col::Rank, &updates).to_string(PostgresQueryBuilder),
        "UPDATE \"target\" SET \"rank\" = (CASE WHEN (\"item_id\" = 3) THEN 30 \
         WHEN (\"item_id\" = 4) THEN 40 ELSE \"rank\" END) WHERE \"item_id\" IN (3, 4)"
    );
    assert_eq!(
        ordered_query(Tbl::Target).to_string(PostgresQueryBuilder),
        "SELECT * FROM \"target\" ORDER BY \"item_id\" ASC"
    );
}

#[test]
fn rows_of_removed_items_are_left_out() {
    let kept = query_without("f.parquet", &vec![7, 8]).to_string(PostgresQueryBuilder);
    assert!(kept.contains("\"item_id\" NOT IN (7, 8)"), "{kept}");
    let all = query_without("f.parquet", &vec![]).to_string(PostgresQueryBuilder);
    assert!(!all.contains("NOT IN"), "{all}");
    let stored = existing_ids_query("f.parquet", &vec![1]).to_string(PostgresQueryBuilder);
    assert!(stored.starts_with("SELECT \"item_id\" FROM ("), "{stored}");
    assert!(stored.contains("\"item_id\" IN (1)"), "{stored}");
}

#[test]
fn labels_are_counted_and_expanded() {
    let ty = TagType::from("project");
    let storage =
        StorageMapping::Basic { tag_type: "project".to_string(), column: Col::LabelStr };
    let counts = build_label_counts(&ty, &storage, true, None, 20, 40)
        .to_string(PostgresQueryBuilder);
    assert!(counts.contains("COUNT(*)"), "{counts}");
    assert!(counts.contains("'project'"), "{counts}");
    assert!(counts.contains("LIMIT 21"), "{counts}");
    assert!(counts.contains("OFFSET 40"), "{counts}");
    let label = LabelValue::String("alpha".to_string());
    let items = build_label_expansion_sql(&ty, &label, &storage, false, Some("c.parquet"))
        .to_string(PostgresQueryBuilder);
    assert!(items.starts_with("SELECT DISTINCT \"item_id\""), "{items}");
    assert!(items.contains("'alpha'"), "{items}");
    let none = build_label_expansion_sql(&ty, &label, &StorageMapping::Composite, true, None)
        .to_string(PostgresQueryBuilder);
    assert!(none.contains("1 = 0"), "{none}");
}

#[test]
fn partitions_are_asked_for_by_type() {
    let store = Store { db_dir: "/db".to_string() };
    let registry = TagRegistry::with_standard();
    let one = partition_query(&store, &registry, "extension", true).unwrap();
    assert!(one.to_string(PostgresQueryBuilder).contains("'extension'"));
    assert_eq!(
        partition_query(&store, &registry, "a/b", true).unwrap_err().message(),
        "Invalid tag_type for partition: a/b"
    );
}

#[test]
fn sources_feed_queries() {
    let mut q = Query::select();
    q.column(sea_query::Asterisk);
    Src::Parquet("f.parquet".to_string()).feed(&mut q);
    assert!(q.to_string(PostgresQueryBuilder).starts_with(SUB));
    let mut view = Query::select();
    view.column(sea_query::Asterisk);
    Src::OneView.feed(&mut view);
    assert_eq!(view.to_string(PostgresQueryBuilder), "SELECT * FROM \"oneview\"");
}

#[test]
fn columns_come_in_their_groups() {
    assert_eq!(
        Col::typed_label_columns(),
        [Col::LabelStr, Col::LabelInt, Col::LabelDouble, Col::LabelBool]
    );
    assert_eq!(Col::tag_value_columns().len(), 7);
    assert_eq!(Col::tag_value_columns()[6], Col::TypedTag);
    assert_eq!(Col::raw_tag_row_columns()[7], Col::Origin);
    assert_eq!(Col::removed_file_columns()[1], (Col::RemovedFilePath, Col::Path));
    assert_eq!(Col::item_references_columns()[0], Col::ItemId);
    assert_eq!(Col::from_sql_type(SqlType::UUID), Col::LabelStr);
    assert_eq!(Col::from_sql_type(SqlType::DOUBLE), Col::LabelDouble);
    assert_eq!(Col::LabelInt.sql_type(), SqlType::BIGINT);
    assert_eq!(BiticalType::Boolean.to_typeofstr(), Some("BOOLEAN"));
    assert_eq!(BiticalType::Uuid.to_typeofstr(), None);
    assert_eq!(BiticalType::Uuid.union_arm(), BiticalType::String);
    assert_eq!(BiticalType::Uuid.to_column(), Col::LabelStr);
    assert_eq!(BiticalType::from_col(Col::LabelInt), BiticalType::Integer);
}
