use sea_query::{Expr, PostgresQueryBuilder};
use ttfm::db::schema::ColumnDef;
use ttfm::db::store::Store;
use ttfm::db::{TargetTable, Tbl};
use ttfm::functions::{FileSize, SafeMetadata, ScanRole, TagError, TagValue};
use ttfm::indexing::{
    assemble_records, assign_ids, classify, diff_tags, expand_variants, filter_new,
    initial_tables, is_db_dir, item_candidates, items_query, max_id_query, merge_query,
    metadata_tags, min_id_query, next_item_id, plan_merge, rebuild_moved_locations,
    registry_variants, reports_count, system_tags_query, triage_base_tag, triage_item,
    DiffAuditor, DynamicRow, Keep, ScanEntry, TriagePiece,
};
use ttfm::types::BiticalType;

fn column(name: &str, bitical_type: BiticalType, target_table: TargetTable) -> ColumnDef {
    ColumnDef { name: name.to_string(), bitical_type, target_table }
}

fn auditor() -> DiffAuditor {
    DiffAuditor::new(&Store { db_dir: "/db".to_string() })
}

#[test]
fn test_diff_auditor_logic() {
    let sql = auditor().query_all().to_string(PostgresQueryBuilder);
    assert!(sql.contains("read_parquet"));
    assert!(sql.contains("/db/current_scan.parquet"), "{sql}");
}

#[test]
fn scans_are_compared_with_what_is_stored() {
    let a = auditor();
    let to_tag = a.query_to_tag().to_string(PostgresQueryBuilder);
    assert!(to_tag.contains("NOT EXISTS"), "{to_tag}");
    assert!(to_tag.contains("\"file_references\".\"file_id\" = \"scan\".\"file_id\""), "{to_tag}");
    let moved = a.query_moved().to_string(PostgresQueryBuilder);
    assert!(moved.contains("\"locations\".\"path\" <> \"scan\".\"path\""), "{moved}");
    let unchanged = a.query_unchanged().to_string(PostgresQueryBuilder);
    assert!(unchanged.contains("\"locations\".\"path\" = \"scan\".\"path\""), "{unchanged}");
    assert!(unchanged.contains("INNER JOIN"), "{unchanged}");
    let deleted = a.query_deleted().to_string(PostgresQueryBuilder);
    assert!(deleted.contains("LEFT JOIN"), "{deleted}");
    assert!(deleted.contains("\"scan\".\"path\" IS NULL"), "{deleted}");
}

#[test]
fn test_triager_base_tag_logic() {
    let piece = triage_base_tag(100, TagValue::Text("rs".to_string()), "extension");
    if let TriagePiece::Tag(tag) = piece {
        assert_eq!(tag.item_id, 100);
        assert_eq!(tag.tag_type, "extension");
        assert_eq!(tag.label, "rs");
    } else {
        panic!("Should be TriagePiece::Tag");
    }

    let piece_empty = triage_base_tag(100, TagValue::Text("".to_string()), "extension");
    assert!(matches!(piece_empty, TriagePiece::Nothing));

    let piece_null = triage_base_tag(100, TagValue::Null, "extension");
    assert!(matches!(piece_null, TriagePiece::Nothing));
}

#[test]
fn test_triager_classify_logic() {
    let col_ent = column("size", BiticalType::Integer, TargetTable::FileReferences);
    let p_ent = classify(1, TagValue::BigInt(1024), &col_ent);
    assert!(matches!(p_ent, TriagePiece::Entity(TagValue::BigInt(1024))));

    let col_loc = column("path", BiticalType::String, TargetTable::Locations);
    let p_loc = classify(1, TagValue::Text("/a".to_string()), &col_loc);
    assert!(matches!(p_loc, TriagePiece::Location(TagValue::Text(_))));

    let col_tag = column("ext", BiticalType::String, TargetTable::BaseTags);
    let p_tag = classify(1, TagValue::Text("rs".to_string()), &col_tag);
    assert!(matches!(p_tag, TriagePiece::Tag(_)));

    let col_user = column("x", BiticalType::String, TargetTable::UserTags);
    assert!(matches!(classify(1, TagValue::Null, &col_user), TriagePiece::Nothing));
}

fn three_columns() -> Vec<ColumnDef> {
    vec![
        column("size", BiticalType::Integer, TargetTable::FileReferences),
        column("path", BiticalType::String, TargetTable::Locations),
        column("ext", BiticalType::String, TargetTable::BaseTags),
    ]
}

#[test]
fn test_triager_triage_item_full() {
    let vals = vec![
        TagValue::BigInt(500),
        TagValue::Text("/foo.rs".into()),
        TagValue::Text("rs".into()),
    ];

    let res = triage_item(7, vals, &three_columns());

    assert_eq!(res.entity_row.id, 7);
    assert_eq!(res.entity_row.values.len(), 2);
    assert_eq!(res.entity_row.values[1], TagValue::BigInt(500));

    assert_eq!(res.location_row.id, 7);
    assert_eq!(res.location_row.values[0], TagValue::Text("/foo.rs".into()));

    assert_eq!(res.tags.len(), 1);
    assert_eq!(res.tags[0].tag_type, "ext");
    assert_eq!(res.tags[0].label, "rs");
}

#[test]
fn new_files_get_the_next_ids() {
    let values = vec![vec![TagValue::BigInt(1)], vec![TagValue::BigInt(2)], vec![]];
    let res = assemble_records(values, 40, &three_columns());
    let ids: Vec<i64> = res.iter().map(|r| r.entity_row.id).collect();
    assert_eq!(ids, vec![41, 42, 43]);
    assert_eq!(res[2].entity_row.values, vec![TagValue::BigInt(0)]);
    assert!(assemble_records(vec![], 40, &three_columns()).is_empty());
}

#[test]
fn moved_files_are_located_anew() {
    let rows = rebuild_moved_locations(&vec![(5, "/x/y.txt".to_string())]);
    assert_eq!(rows.len(), 1);
    assert_eq!(rows[0].id, 5);
    assert_eq!(rows[0].values[1], TagValue::Text("/x".into()));
}

#[test]
fn entries_hold_what_files_are_compared_by() {
    let mut m = SafeMetadata {
        is_dir: false,
        len: 12,
        modified: 34,
        file_ref: Some(56),
        size_text: "12.0 B".to_string(),
    };
    let e = ScanEntry::from_path_metadata("/a", &m).unwrap();
    assert_eq!((e.path.as_str(), e.inode, e.size, e.mtime), ("/a", 56, FileSize(12), 34));
    m.file_ref = None;
    assert_eq!(ScanEntry::from_path_metadata("/a", &m).unwrap_err(), TagError::NoFileId);
    let names: Vec<&str> = ScanEntry::schema().iter().map(|c| c.name).collect();
    assert_eq!(names, vec!["path", "file_id", "size", "mtime"]);
    assert_eq!(ScanEntry::schema()[1].role, ScanRole::ScanId);
}

#[test]
fn the_database_is_not_indexed() {
    assert!(is_db_dir(Some("/home/me/.ttfm/a.parquet"), "/home/me/.ttfm"));
    assert!(!is_db_dir(Some("/home/me/.ttfm2"), "/home/me/.ttfm"));
    assert!(!is_db_dir(None, "/home/me/.ttfm"));
    assert!(reports_count(1000));
    assert!(!reports_count(1001));
}

#[test]
fn nothing_is_merged_where_nothing_changed() {
    assert!(plan_merge(&vec![], &vec![], &vec![], &vec![1, 2]).is_none());
    let gone = plan_merge(&vec![], &vec![], &vec![3], &vec![1, 2]).unwrap();
    assert!(!gone.has_updates);
    assert!(matches!(gone.references, Keep::Except(ids) if ids == vec![3]));
    assert!(matches!(gone.locations, Keep::Only(ids) if ids == vec![1, 2]));
    let moved = vec![DynamicRow { id: 1, values: vec![] }];
    assert!(plan_merge(&vec![], &moved, &vec![], &vec![]).unwrap().has_updates);
}

#[test]
fn rows_are_merged_with_what_is_stored() {
    let sql = |q: sea_query::SelectStatement| q.to_string(PostgresQueryBuilder);
    let first = sql(merge_query(None, Tbl::LocationsDiff, Keep::Only(vec![])));
    assert!(!first.contains("read_parquet"), "{first}");
    let kept = sql(merge_query(Some("/l.parquet"), Tbl::LocationsDiff, Keep::Only(vec![4])));
    assert!(kept.contains("\"item_id\" IN (4)"), "{kept}");
    assert!(kept.contains("UNION ALL"), "{kept}");
    let none = sql(merge_query(Some("/l.parquet"), Tbl::LocationsDiff, Keep::Only(vec![])));
    assert!(none.contains("1 = 0"), "{none}");
    let all = sql(merge_query(Some("/l.parquet"), Tbl::LocationsDiff, Keep::Except(vec![])));
    assert!(!all.contains("WHERE"), "{all}");
    let some = sql(merge_query(Some("/l.parquet"), Tbl::LocationsDiff, Keep::Except(vec![7, 8])));
    assert!(some.contains("NOT IN (7, 8)"), "{some}");
}

#[test]
fn tags_ask_for_items() {
    let sql = |q: sea_query::SelectStatement| q.to_string(PostgresQueryBuilder);
    let tags = sql(diff_tags(&three_columns()));
    assert_eq!(tags.matches("UNION").count(), 1, "{tags}");
    assert!(tags.contains("'path'"), "{tags}");
    let variants = sql(expand_variants(diff_tags(&vec![])));
    assert!(variants.contains("'type'"), "{variants}");
    assert!(variants.contains("'typedtag'"), "{variants}");
    assert!(variants.contains("\"type\" || ':' || \"label\""), "{variants}");
    let names = vec!["name".to_string(), "kind".to_string()];
    assert!(sql(registry_variants(&vec![])).contains("1 = 0"));
    assert!(sql(registry_variants(&names)).contains("'kind'"));
    let both = sql(item_candidates(&names, Some(diff_tags(&vec![]))));
    assert_eq!(both.matches("UNION").count(), 2, "{both}");
    let fresh = sql(filter_new(registry_variants(&names), "/i.parquet"));
    assert!(fresh.contains("SELECT DISTINCT"), "{fresh}");
    assert!(fresh.contains("IS NULL"), "{fresh}");
}

#[test]
fn new_items_are_numbered_downwards() {
    let sql = |q: sea_query::SelectStatement| q.to_string(PostgresQueryBuilder);
    assert_eq!(next_item_id(0), -1);
    assert_eq!(next_item_id(5), -1);
    assert_eq!(next_item_id(-1), -2);
    assert_eq!(next_item_id(-7), -8);
    let numbered = sql(assign_ids(-3, Expr::val(9).into()));
    assert!(numbered.contains("-3 - (row_number() OVER () - 1)"), "{numbered}");
    assert!(numbered.contains("9 AS \"rank\""), "{numbered}");
    assert!(sql(max_id_query("/f.parquet")).contains("MAX"));
    assert!(sql(min_id_query("/i.parquet")).contains("MIN"));
    assert!(sql(items_query("/i.parquet")).contains("UNION ALL"));
    assert!(sql(system_tags_query("/s.parquet")).contains("UNION ALL"));
    let meta = sql(metadata_tags());
    assert!(meta.contains("CASE WHEN"), "{meta}");
    assert_eq!(initial_tables().len(), 6);
}
