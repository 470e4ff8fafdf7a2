use sea_query::{Expr, PostgresQueryBuilder, Query, SimpleExpr};
use ttfm::col::{Col, SqlType};
use ttfm::db::schema::{double_quotes, parquet_query, ColumnDef, Schema, Src};
use ttfm::db::sql::{CustomFunc, Order};
use ttfm::db::statement::{select_sql, table_sql};
use ttfm::db::store::Store;
use ttfm::db::value::DbValue;
use ttfm::db::TargetTable;
use ttfm::indexing::build_table_schema;
use ttfm::types::{Bitical, BiticalType, Number};

fn sql_of(expr: SimpleExpr) -> String {
    Query::select().expr(expr).to_string(PostgresQueryBuilder)
}

fn val<T: Into<sea_query::Value>>(v: T) -> SimpleExpr {
    Expr::val(v).into()
}

fn col(c: Col) -> SimpleExpr {
    Expr::col(sea_query::Alias::new(c.name())).into()
}

fn number(x: f64) -> Number {
    Number { bits: x.to_bits(), shown: x.to_string() }
}

#[test]
fn test_bitical_type_repr_values() {
    assert_eq!(BiticalType::String.id(), 1);
    assert_eq!(BiticalType::Integer.id(), 2);
    assert_eq!(BiticalType::Double.id(), 3);
    assert_eq!(BiticalType::Boolean.id(), 4);
    assert_eq!(BiticalType::Uuid.id(), 5);
}

#[test]
fn test_bitical_type_iden_spelling() {
    assert_eq!(BiticalType::String.sql_name(), "VARCHAR");
    assert_eq!(BiticalType::Integer.sql_name(), "BIGINT");
    assert_eq!(BiticalType::Double.sql_name(), "DOUBLE");
    assert_eq!(BiticalType::Boolean.sql_name(), "BOOLEAN");
    assert_eq!(BiticalType::Uuid.sql_name(), "UUID");
}

#[test]
fn test_bitical_type_prepare_column_ddl() {
    let cases = [
        (BiticalType::String, "varchar"),
        (BiticalType::Integer, "bigint"),
        (BiticalType::Double, "double"),
        (BiticalType::Boolean, "bool"),
        (BiticalType::Uuid, "uuid"),
    ];
    for (bt, expected_kw) in cases {
        let mut table = sea_query::Table::create();
        bt.prepare_column(&mut table, "c");
        let sql = table.to_string(PostgresQueryBuilder).to_lowercase();
        assert!(sql.contains(expected_kw), "{sql} should contain {expected_kw}");
    }
}

#[test]
fn test_bitical_from_db_value_scalars() {
    assert_eq!(
        Bitical::from_db_value(DbValue::Boolean(true)),
        Some(Bitical::Boolean(true))
    );
    assert_eq!(Bitical::from_db_value(DbValue::Int(1)), Some(Bitical::Integer(1)));
    assert_eq!(Bitical::from_db_value(DbValue::BigInt(2)), Some(Bitical::Integer(2)));
    assert_eq!(Bitical::from_db_value(DbValue::HugeInt(3)), Some(Bitical::Integer(3)));
    assert_eq!(
        Bitical::from_db_value(DbValue::Float(number(1.5))),
        Some(Bitical::Double(number(1.5)))
    );
    assert_eq!(
        Bitical::from_db_value(DbValue::Double(number(2.5))),
        Some(Bitical::Double(number(2.5)))
    );
    assert_eq!(
        Bitical::from_db_value(DbValue::Text("a".to_string())),
        Some(Bitical::String("a".to_string()))
    );
    assert_eq!(Bitical::from_db_value(DbValue::Null), None);
}

#[test]
fn test_bitical_from_db_value_union_and_list() {
    assert_eq!(
        Bitical::from_db_value(DbValue::Union(Box::new(DbValue::BigInt(7)))),
        Some(Bitical::Integer(7))
    );
    assert_eq!(
        Bitical::from_db_value(DbValue::List(vec![
            DbValue::Text("x".to_string()),
            DbValue::Text("y".to_string()),
        ])),
        Some(Bitical::String("x".to_string()))
    );
    assert_eq!(Bitical::from_db_value(DbValue::List(vec![])), None);
}

#[test]
fn test_bitical_from_db_value_fallback_debug_string() {
    let shown = "Blob([1, 2, 3])";
    assert_eq!(
        Bitical::from_db_value(DbValue::Other(shown.to_string())),
        Some(Bitical::String(shown.to_string()))
    );
}

#[test]
fn scalars_of_the_database_are_told_apart() {
    assert_eq!(
        Bitical::from_scalar_db_value(&DbValue::BigInt(2)),
        Some(Bitical::Integer(2))
    );
    assert_eq!(Bitical::from_scalar_db_value(&DbValue::List(vec![])), None);
    assert_eq!(Bitical::from_scalar_db_value(&DbValue::Other("x".to_string())), None);
}

#[test]
fn test_to_col_value_routes_and_converges() {
    assert_eq!(
        Bitical::Integer(1).to_col_value(),
        (Col::LabelInt, Bitical::Integer(1))
    );
    assert_eq!(
        Bitical::String("a".into()).to_col_value(),
        (Col::LabelStr, Bitical::String("a".into()))
    );
    assert_eq!(
        Bitical::Double(number(1.5)).to_col_value(),
        (Col::LabelDouble, Bitical::Double(number(1.5)))
    );
    assert_eq!(
        Bitical::Boolean(true).to_col_value(),
        (Col::LabelBool, Bitical::Boolean(true))
    );
    let id = uuid::Uuid::from_u128(0x0123_4567_89ab_4def_8123_4567_89ab_cdef);
    assert_eq!(
        Bitical::Uuid(id.as_u128()).to_col_value(),
        (Col::LabelStr, Bitical::String(id.to_string()))
    );
    assert_eq!(id.to_string(), "01234567-89ab-4def-8123-456789abcdef");
}

#[test]
fn test_to_column_match_expr_caret_is_literal_not_prefix_glob() {
    let sql = sql_of(Bitical::String("^foo".into()).to_column_match_expr(Col::Label));
    assert!(sql.contains("'^foo'"), "value should stay literal '^foo': {}", sql);
    assert!(!sql.contains("'foo*'"), "must not convert to prefix glob 'foo*': {}", sql);
}

#[test]
fn mod_test_union_value_varchar() {
    let sql = sql_of(CustomFunc::union_value(BiticalType::String, val("hello")));
    assert!(
        sql.contains("union_value(\"string\" :="),
        "should contain union_value(\"string\" :=: {}",
        sql
    );
    assert!(sql.contains("'hello'"), "should contain value: {}", sql);
}

#[test]
fn mod_test_union_value_boolean() {
    let sql = sql_of(CustomFunc::union_value(BiticalType::Boolean, val(true)));
    assert!(
        sql.contains("union_value(\"boolean\" :="),
        "should contain union_value(\"boolean\" :=: {}",
        sql
    );
}

#[test]
fn mod_test_union_value_bigint() {
    let sql = sql_of(CustomFunc::union_value(BiticalType::Integer, val(42i64)));
    assert!(
        sql.contains("union_value(\"integer\" :="),
        "should contain union_value(\"integer\" :=: {}",
        sql
    );
    assert!(sql.contains("42"), "should contain 42: {}", sql);
}

#[test]
fn mod_test_union_value_double() {
    let sql = sql_of(CustomFunc::union_value(BiticalType::Double, val(3.14f64)));
    assert!(
        sql.contains("union_value(\"double\" :="),
        "should contain union_value(\"double\" :=: {}",
        sql
    );
}

#[test]
fn test_representative_union_type_spelling() {
    assert_eq!(
        CustomFunc::representative_union_type(),
        "UNION(\"string\" VARCHAR, \"integer\" BIGINT, \
         \"double\" DOUBLE, \"boolean\" BOOLEAN, \"uuid\" UUID)"
    );
}

#[test]
fn test_union_type_spelling() {
    assert_eq!(
        CustomFunc::union_type(),
        "UNION(\"string\" VARCHAR, \"integer\" BIGINT, \
         \"double\" DOUBLE, \"boolean\" BOOLEAN)"
    );
}

#[test]
fn mod_test_struct_pack_tag_generates_three_fields() {
    let sql = sql_of(CustomFunc::struct_pack_tag(
        val("name"),
        CustomFunc::union_value(BiticalType::String, val("foo")),
        val("system"),
    ));
    assert!(sql.contains("struct_pack"), "should contain struct_pack: {}", sql);
    assert!(sql.contains("\"tag_type\""), "should contain tag_type field: {}", sql);
    assert!(sql.contains("\"value\""), "should contain value field: {}", sql);
    assert!(sql.contains("\"origin\""), "should contain origin field: {}", sql);
}

#[test]
fn mod_test_eav_union_value_generates_case_when() {
    let sql = sql_of(CustomFunc::eav_union_value());
    assert!(sql.contains("CASE"), "should have CASE: {}", sql);
    let positions: Vec<usize> = BiticalType::to_columns_scan_order()
        .iter()
        .map(|c| {
            sql.find(c.name())
                .unwrap_or_else(|| panic!("arm for {} not found: {sql}", c.name()))
        })
        .collect();
    assert!(
        positions.windows(2).all(|w| w[0] < w[1]),
        "arms must follow scan order: {sql}"
    );
    assert!(
        sql.contains("union_value(\"integer\" :="),
        "should have int arm: {}",
        sql
    );
    assert!(
        sql.contains("union_value(\"string\" :="),
        "should have str arm: {}",
        sql
    );
    assert!(
        sql.contains("union_value(\"boolean\" :="),
        "should have bool arm: {}",
        sql
    );
    assert!(
        sql.contains("union_value(\"double\" :="),
        "should have double arm: {}",
        sql
    );
}

#[test]
fn mod_test_list_value_generates_function_call() {
    let sql = sql_of(CustomFunc::list_value(vec![val(1i64), val(2i64)]));
    assert!(sql.contains("list_value"), "should contain list_value: {}", sql);
}

#[test]
fn mod_test_count_star() {
    let sql = sql_of(CustomFunc::count_star());
    assert!(sql.contains("count(*)"), "should contain count(*): {}", sql);
}

#[test]
fn mod_test_string_agg() {
    let sql = sql_of(CustomFunc::string_agg(col(Col::LabelStr), val(",")));
    assert!(sql.contains("string_agg"), "should contain string_agg: {}", sql);
}

#[test]
fn mod_test_try_cast_double() {
    let sql = sql_of(CustomFunc::try_cast_double(col(Col::LabelInt)));
    assert!(
        sql.contains("TRY_CAST") && sql.contains("DOUBLE"),
        "should contain TRY_CAST ... DOUBLE: {}",
        sql
    );
}

#[test]
fn mod_test_count_over_multi() {
    let cols = vec!["key0".to_string(), "key1".to_string()];
    let sql = sql_of(CustomFunc::count_over_multi(&cols));
    assert!(
        sql.contains("count(*)") && sql.contains("PARTITION BY"),
        "should contain count(*) OVER PARTITION BY: {}",
        sql
    );
    assert!(
        sql.contains("key0") && sql.contains("key1"),
        "should contain both keys: {}",
        sql
    );
}

#[test]
fn mod_test_row_number_over_multi() {
    let cols = vec!["label_value".to_string()];
    let order_bys = vec![(Col::ItemId.name().to_string(), Order::Desc)];
    let sql = sql_of(CustomFunc::row_number_over_multi(&cols, &order_bys));
    assert!(
        sql.contains("row_number()") && sql.contains("PARTITION BY"),
        "should contain row_number() OVER PARTITION BY: {}",
        sql
    );
    assert!(
        sql.contains("label_value"),
        "should contain partition key: {}",
        sql
    );
}

#[test]
fn functions_of_the_database_are_spelled() {
    assert_eq!(
        sql_of(CustomFunc::try_cast_bigint(col(Col::LabelStr))),
        "SELECT TRY_CAST(\"label_str\" AS BIGINT)"
    );
    assert_eq!(
        sql_of(CustomFunc::count_over("key0")),
        "SELECT count(*) OVER (PARTITION BY \"key0\")"
    );
    assert_eq!(
        sql_of(CustomFunc::assign_id_window(5)),
        "SELECT 5 + (row_number() OVER (ORDER BY rank DESC, content ASC) - 1)"
    );
    let one = vec![("rank".to_string(), Order::Desc), ("name".to_string(), Order::Asc)];
    let listed = sql_of(CustomFunc::list_with_order(col(Col::Name), &one));
    assert!(listed.contains("ORDER BY"), "{listed}");
    assert!(listed.contains("DESC"), "{listed}");
    let sliced = sql_of(CustomFunc::list_slice(col(Col::Name), 1, 3));
    assert!(sliced.contains("1") && sliced.contains("3"), "{sliced}");
    assert!(CustomFunc::item_id_display("id").contains("id"));
    assert!(CustomFunc::item_id_origin("id").contains("CASE"));
}

#[test]
fn test_clear_index() {
    let store = Store { db_dir: "/db".to_string() };
    let removed = store.index_files();
    let files_to_delete = [
        "/db/file_references.parquet",
        "/db/locations.parquet",
        "/db/base_tags.parquet",
        "/db/tags_by_location.parquet",
        "/db/current_scan.parquet",
        "/db/live_ids.parquet",
    ];
    for file in files_to_delete {
        assert!(removed.contains(&file.to_string()), "File should be deleted: {:?}", file);
    }
    assert_eq!(store.cache_dir(), "/db/cache");

    let files_to_keep = [
        "/db/user_tags.parquet",
        "/db/item_references.parquet",
        "/db/system_tags.parquet",
    ];
    for file in files_to_keep {
        assert!(!removed.contains(&file.to_string()), "File should be kept: {:?}", file);
    }
}

#[test]
fn test_tags_by_location_target_table() {
    let store = Store { db_dir: "/db".to_string() };
    let path = store.path_for_target(TargetTable::TagsByLocation);
    assert!(path.ends_with("tags_by_location.parquet"));
    assert_eq!(store.temp_live_path(), "/db/live_ids.parquet");
    assert_eq!(store.temp_scan_path(), "/db/current_scan.parquet");
}

#[test]
fn tables_hold_the_columns_of_their_kind() {
    let columns = vec![
        ColumnDef {
            name: "size".to_string(),
            bitical_type: BiticalType::Integer,
            target_table: TargetTable::FileReferences,
        },
        ColumnDef {
            name: "path".to_string(),
            bitical_type: BiticalType::String,
            target_table: TargetTable::Locations,
        },
    ];
    let files = Schema::build_table(TargetTable::FileReferences, "t", &columns)
        .to_string(PostgresQueryBuilder);
    assert!(files.contains("\"item_id\" bigint"), "{files}");
    assert!(files.contains("\"size\" bigint"), "{files}");
    assert!(!files.contains("\"path\""), "{files}");
    let places = Schema::build_table(TargetTable::Locations, "t", &columns)
        .to_string(PostgresQueryBuilder);
    assert!(places.contains("\"path\" varchar"), "{places}");
    assert!(!places.contains("\"size\""), "{places}");
    let types = Schema::build_table(TargetTable::DataTypes, "t", &columns)
        .to_string(PostgresQueryBuilder);
    assert!(!types.contains("item_id"), "{types}");
}

#[test]
fn sql_types_make_columns_of_their_kind() {
    let columns = vec![
        ColumnDef {
            name: "size".to_string(),
            bitical_type: BiticalType::Integer,
            target_table: TargetTable::FileReferences,
        },
        ColumnDef {
            name: "file_id".to_string(),
            bitical_type: BiticalType::Uuid,
            target_table: TargetTable::FileReferences,
        },
    ];
    let files = table_sql(&build_table_schema(TargetTable::FileReferences, "t", &columns));
    assert!(files.contains("\"rank\" bigint"), "{files}");
    assert!(files.contains("\"size\" bigint"), "{files}");
    assert!(files.contains("\"file_id\" varchar"), "{files}");
    let places = table_sql(&build_table_schema(TargetTable::Locations, "t", &columns));
    assert!(!places.contains("scan_hash"), "{places}");
    assert!(!places.contains("\"size\""), "{places}");
    let tags = table_sql(&build_table_schema(TargetTable::BaseTags, "t", &columns));
    assert!(tags.contains("\"label\" varchar"), "{tags}");
    let items = table_sql(&build_table_schema(TargetTable::ItemReferences, "t", &columns));
    assert!(items.contains("\"content\" varchar"), "{items}");
    let types = table_sql(&build_table_schema(TargetTable::DataTypes, "t", &columns));
    assert_eq!(types, table_sql(&Schema::build_table(TargetTable::DataTypes, "t", &columns)));

    let mut table = build_table_schema(TargetTable::Locations, "t", &vec![]);
    SqlType::DOUBLE.prepare_column(&mut table, "d");
    SqlType::UUID.prepare_column(&mut table, "u");
    SqlType::BOOLEAN.prepare_column(&mut table, "b");
    let sql = table_sql(&table).to_lowercase();
    for part in ["\"d\" double precision", "\"u\" uuid", "\"b\" bool"] {
        assert!(sql.contains(part), "{sql}");
    }
}

#[test]
fn quotes_are_doubled() {
    assert_eq!(double_quotes("it's"), "it''s");
    assert_eq!(double_quotes("plain"), "plain");
    assert_eq!(double_quotes(""), "");
    let sql = parquet_query("/a/b.parquet").to_string(PostgresQueryBuilder);
    assert_eq!(sql, "SELECT * FROM read_parquet('/a/b.parquet') AS \"src\"");
    let src = Src::Parquet("/a/b.parquet".to_string());
    assert!(src.table_str().contains("/a/b.parquet"));
}

#[test]
fn values_go_into_their_columns() {
    let (c, e) = Bitical::Integer(3).to_col_expr();
    assert_eq!(c, Col::LabelInt);
    assert_eq!(sql_of(e), "SELECT 3");
    let (c, e) = Bitical::Boolean(true).to_col_expr();
    assert_eq!(c, Col::LabelBool);
    assert_eq!(sql_of(e), "SELECT TRUE");
    let glob = sql_of(Bitical::String("a*".into()).to_column_match_expr(Col::Label));
    assert!(glob.contains("GLOB"), "{glob}");
}

#[test]
fn db_test_struct_pack_tag_generates_three_fields() {
    let sql = sql_of(CustomFunc::struct_pack_tag(
        val("name"),
        CustomFunc::union_value(BiticalType::String, val("foo")),
        val("system"),
    ));
    assert!(sql.contains("struct_pack"), "should contain struct_pack: {}", sql);
    assert!(sql.contains("\"tag_type\""), "should contain tag_type field: {}", sql);
    assert!(sql.contains("\"value\""), "should contain value field: {}", sql);
    assert!(sql.contains("\"origin\""), "should contain origin field: {}", sql);
}

#[test]
fn db_test_list_value_generates_function_call() {
    let sql = sql_of(CustomFunc::list_value(vec![val(1i64), val(2i64)]));
    assert!(sql.contains("list_value"), "should contain list_value: {}", sql);
}

#[test]
fn db_test_count_star() {
    let sql = sql_of(CustomFunc::count_star());
    assert!(sql.contains("count(*)"), "should contain count(*): {}", sql);
}

#[test]
fn db_test_string_agg() {
    let sql = sql_of(CustomFunc::string_agg(col(Col::LabelStr), val(",")));
    assert!(sql.contains("string_agg"), "should contain string_agg: {}", sql);
}

#[test]
fn db_test_try_cast_double() {
    let sql = sql_of(CustomFunc::try_cast_double(col(Col::LabelInt)));
    assert!(
        sql.contains("TRY_CAST") && sql.contains("DOUBLE"),
        "should contain TRY_CAST ... DOUBLE: {}",
        sql
    );
}

#[test]
fn db_test_count_over_multi() {
    let cols = vec!["key0".to_string(), "key1".to_string()];
    let sql = sql_of(CustomFunc::count_over_multi(&cols));
    assert!(
        sql.contains("count(*)") && sql.contains("PARTITION BY"),
        "should contain count(*) OVER PARTITION BY: {}",
        sql
    );
    assert!(sql.contains("key0") && sql.contains("key1"), "should contain both keys: {}", sql);
}

#[test]
fn db_test_row_number_over_multi() {
    let cols = vec!["label_value".to_string()];
    let order_bys = vec![(Col::ItemId.name().to_string(), Order::Desc)];
    let sql = sql_of(CustomFunc::row_number_over_multi(&cols, &order_bys));
    assert!(
        sql.contains("row_number()") && sql.contains("PARTITION BY"),
        "should contain row_number() OVER PARTITION BY: {}",
        sql
    );
    assert!(sql.contains("label_value"), "should contain partition key: {}", sql);
}

#[test]
fn numbers_are_written_as_they_are_read() {
    let written = |shown: &str| {
        let n = Number { bits: 0, shown: shown.to_string() };
        let expr = Bitical::Double(n).to_simple_expr();
        Query::select().expr(expr).to_string(PostgresQueryBuilder)
    };
    assert_eq!(written("2.5"), "SELECT 2.5");
    assert_eq!(written("many"), "SELECT NULL");
}

#[test]
fn statements_are_written_out() {
    let rows = parquet_query("/a/b.parquet");
    assert_eq!(select_sql(&rows), rows.to_string(PostgresQueryBuilder));
    assert!(select_sql(&rows).contains("/a/b.parquet"));
}
