use sea_query::PostgresQueryBuilder;
use ttfm::col::Col;
use ttfm::db::store::Store;
use ttfm::db::tags::{
    build_tags_select_query, count_sql, give_up_partitions, plan_hive, plan_partition, sanitize_tag_type,
    PartitionDirs, TagDirs, WriteStep,
};
use ttfm::db::schema::parquet_query;
use ttfm::db::{TargetTable, Tbl};
use ttfm::edit::action::{DeleteTarget, TagOp, WriteAction};
use ttfm::edit::sql::{
    collect_types_for_items, item_references_write, rank_case_update, user_tags_write, TagTables,
};
use ttfm::edit::write::{
    collect_changes, extract_action_tag_types, extract_cascade_item_ids, resolve_volatiles,
    BlockMaxima, ItemRow, UserTagRow, WriteError, WriteResponse,
};
use ttfm::item::{TagType, TypedTag};
use ttfm::tag::TagRegistry;
use ttfm::types::{Bitical, ItemId, Origin};

fn tag(ty: &str, label: &str) -> TypedTag {
    TypedTag::new(TagType::from(ty), Bitical::String(label.to_string()))
}

fn maxima() -> BlockMaxima {
    BlockMaxima {
        builtin: Origin::Builtin.block_lo() - 1,
        user: -1,
        file: Origin::File.block_lo() - 1,
        plugin: Origin::Plugin.block_lo() - 1,
    }
}

fn store() -> Store {
    Store { db_dir: "/db".to_string() }
}

#[test]
fn write_action_variants_are_constructible() {
    let add = WriteAction::Add {
        item: ItemId::Volatile(0),
        tags: vec![
            TagOp::Append(tag("project", "A")),
            TagOp::Append(tag("item_kind", "tag")),
            TagOp::Append(tag("content", "project:A")),
        ],
    };
    assert!(matches!(add, WriteAction::Add { .. }));

    let del = WriteAction::Delete {
        item: ItemId::Stored(42),
        tags: vec![
            DeleteTarget::Type(TagType::from("project")),
            DeleteTarget::Tag(tag("project", "A")),
        ],
    };
    assert!(matches!(del, WriteAction::Delete { .. }));
}

#[test]
fn write_response_tracks_new_ids() {
    let resp = WriteResponse { updated: 3, deleted: 1, new_item_ids: vec![0, 1] };
    assert_eq!(resp.new_item_ids.len(), 2);
    assert_eq!(resp.updated, 3);
    assert_eq!(resp.deleted, 1);
}

#[test]
fn delete_target_type_item_id_for_cascade() {
    let target = DeleteTarget::Type(TagType::Base(Col::ItemId));
    assert!(matches!(target, DeleteTarget::Type(TagType::Base(Col::ItemId))));
}

#[test]
fn rank_tag_is_stored_as_a_user_tags_row() {
    let registry = TagRegistry::with_standard();
    let plan = ttfm::edit::write::write(
        &registry,
        vec![WriteAction::Add {
            item: ItemId::Volatile(0),
            tags: vec![TagOp::Append(TypedTag::new(
                TagType::Base(Col::Rank),
                Bitical::Integer(9),
            ))],
        }],
        None,
        &maxima(),
        &vec![],
        &vec![],
    )
    .unwrap();
    let ranks: Vec<&UserTagRow> = plan
        .changes
        .tag_rows
        .iter()
        .filter(|r| {
            r.tag.tag_type() == TagType::Base(Col::Rank) && r.tag.value() == Bitical::Integer(9)
        })
        .collect();
    assert_eq!(ranks.len(), 1);
    let sql = user_tags_write("u.parquet", &plan.changes.tag_rows, &vec![], &vec![])
        .to_string(PostgresQueryBuilder);
    assert!(sql.contains("'rank'"), "{sql}");
    assert!(sql.contains("9"), "{sql}");
}

#[test]
fn test_collect_types_for_items() {
    let registry = TagRegistry::with_standard();
    let there = TagTables { by_location: false, user: true, base: true };
    let sql = collect_types_for_items(&store(), &registry, &vec![ItemId::Stored(0)], there)
        .unwrap()
        .to_string(PostgresQueryBuilder);
    assert!(sql.starts_with("SELECT DISTINCT \"type\""), "{sql}");
    assert!(sql.contains("/db/user_tags.parquet"), "{sql}");
    assert!(sql.contains("\"item_id\" IN (0)"), "{sql}");
    assert!(sql.contains("NOT IN ("), "{sql}");
    assert!(!sql.contains("tags_by_location"), "{sql}");
    assert!(collect_types_for_items(
        &store(),
        &registry,
        &vec![],
        TagTables { by_location: true, user: true, base: true }
    )
    .is_none());
    assert!(collect_types_for_items(
        &store(),
        &registry,
        &vec![ItemId::Stored(0)],
        TagTables { by_location: false, user: false, base: false }
    )
    .is_none());
}

#[test]
fn test_write_updates_tags_partition() {
    let registry = TagRegistry::with_standard();
    let plan = ttfm::edit::write::write(
        &registry,
        vec![WriteAction::Add {
            item: ItemId::Volatile(0),
            tags: vec![TagOp::Append(tag("category", "docs"))],
        }],
        None,
        &maxima(),
        &vec![],
        &vec![],
    )
    .unwrap();
    assert!(plan.partitions.contains(&"category".to_string()));
    assert_eq!(plan.response.new_item_ids, vec![0]);
    assert!(plan.writes_tags());
    assert!(plan.clears_cache());
}

#[test]
fn test_extract_action_tag_types_and_cascade_ids() {
    let actions = vec![
        WriteAction::Add {
            item: ItemId::Stored(1),
            tags: vec![TagOp::Append(tag("project", "alpha"))],
        },
        WriteAction::Delete {
            item: ItemId::Stored(1),
            tags: vec![
                DeleteTarget::Tag(tag("status", "done")),
                DeleteTarget::Type(TagType::Custom("priority".to_string())),
                DeleteTarget::Type(TagType::Base(Col::ItemId)),
            ],
        },
    ];
    let types = extract_action_tag_types(&actions);
    assert!(types.contains(&"project".to_string()));
    assert!(types.contains(&"status".to_string()));
    assert!(types.contains(&"priority".to_string()));
    assert!(!types.contains(&"item_id".to_string()));

    let cascade_ids = extract_cascade_item_ids(&actions);
    assert_eq!(cascade_ids, vec![ItemId::Stored(1)]);
}

#[test]
fn test_write_filters_excluded_tags() {
    let registry = TagRegistry::with_standard();
    let plan = ttfm::edit::write::write(
        &registry,
        vec![WriteAction::Add {
            item: ItemId::Stored(1),
            tags: vec![TagOp::Append(tag("mtime", "2026-01-01"))],
        }],
        None,
        &maxima(),
        &vec![],
        &vec![],
    )
    .unwrap();
    assert!(!plan.partitions.contains(&"mtime".to_string()));
}

#[test]
fn item_ref_insert_rows_are_all_present() {
    let rows: Vec<ItemRow> = [(1i64, "a"), (2, "b"), (3, "c")]
        .iter()
        .map(|(id, content)| ItemRow {
            item_id: *id,
            item_kind: "note".to_string(),
            content: content.to_string(),
        })
        .collect();
    let sql = item_references_write("i.parquet", &rows, &vec![]).to_string(PostgresQueryBuilder);
    for content in ["'a'", "'b'", "'c'"] {
        assert!(sql.contains(content), "{sql}");
    }
    let without = item_references_write("i.parquet", &rows, &vec![7]).to_string(PostgresQueryBuilder);
    assert!(without.contains("\"item_id\" NOT IN (7)"), "{without}");
}

#[test]
fn item_ref_union_all_branch_count_does_not_scale_with_insert_count() {
    let union_all_count = |n: usize| {
        let inserts: Vec<ItemRow> = (0..n as i64)
            .map(|i| ItemRow {
                item_id: i,
                item_kind: "note".to_string(),
                content: format!("v{i}"),
            })
            .collect();
        let sql = item_references_write("dummy_path.parquet", &inserts, &vec![])
            .to_string(PostgresQueryBuilder);
        sql.matches("UNION ALL").count()
    };

    let small = union_all_count(3);
    let large = union_all_count(2000);
    assert_eq!(
        small, large,
        "UNION ALL branch count must not grow with the number of inserted rows"
    );
}

#[test]
fn insert_rows_are_all_present() {
    let inserts: Vec<UserTagRow> = [(1i64, "a"), (2, "b"), (3, "c")]
        .iter()
        .map(|(id, label)| UserTagRow { item_id: *id, tag: tag("cate", label) })
        .collect();
    let sql = user_tags_write("u.parquet", &inserts, &vec![], &vec![])
        .to_string(PostgresQueryBuilder);
    assert_eq!(sql.matches("'cate'").count(), 3, "{sql}");
    for label in ["'a'", "'b'", "'c'"] {
        assert!(sql.contains(label), "{sql}");
    }
}

#[test]
fn union_all_branch_count_does_not_scale_with_insert_count() {
    let union_all_count = |n: usize| {
        let inserts: Vec<UserTagRow> = (0..n as i64)
            .map(|i| UserTagRow { item_id: i, tag: tag("cate", &format!("v{i}")) })
            .collect();
        let sql = user_tags_write("dummy_path.parquet", &inserts, &vec![], &vec![])
            .to_string(PostgresQueryBuilder);
        sql.matches("UNION ALL").count()
    };

    let small = union_all_count(3);
    let large = union_all_count(2000);
    assert_eq!(
        small, large,
        "UNION ALL branch count must not grow with the number of inserted rows"
    );
}

#[test]
fn new_items_get_the_ids_after_the_largest() {
    let add = |c: u64| WriteAction::Add { item: ItemId::Volatile(c), tags: vec![] };
    let mut m = maxima();
    m.user = 41;
    let (actions, ids) = resolve_volatiles(vec![add(0), add(1), add(0)], &m).unwrap();
    assert_eq!(ids, vec![42, 43]);
    assert_eq!(actions[0].item(), ItemId::Stored(42));
    assert_eq!(actions[2].item(), ItemId::Stored(42));
    let refused = resolve_volatiles(
        vec![WriteAction::Delete { item: ItemId::Volatile(0), tags: vec![] }],
        &m,
    );
    assert_eq!(refused.unwrap_err(), WriteError::UnresolvedDelete(ItemId::Volatile(0)));
}

#[test]
fn items_of_two_kinds_never_share_an_id() {
    let add = |item: ItemId| WriteAction::Add { item, tags: vec![] };
    let mut m = maxima();
    m.user = 41;
    m.file = Origin::File.block_lo() + 7;
    let actions = vec![
        add(ItemId::Volatile(5)),
        add(ItemId::Settling(Origin::User, 5)),
        add(ItemId::Settling(Origin::File, 5)),
        add(ItemId::Settling(Origin::User, 5)),
    ];
    let (resolved, ids) = resolve_volatiles(actions, &m).unwrap();
    let file = Origin::File.block_lo() + 8;
    assert_eq!(resolved[0].item(), ItemId::Stored(42));
    assert_eq!(resolved[1].item(), ItemId::Stored(43));
    assert_eq!(resolved[2].item(), ItemId::Stored(file));
    assert_eq!(resolved[3].item(), ItemId::Stored(43));
    assert_eq!(ids.len(), 3);
    for id in [42, 43, file] {
        assert!(ids.contains(&id));
    }
}

#[test]
fn deleted_items_take_their_rows_with_them() {
    let file = Origin::File.block_lo() + 3;
    let delete = |id: i64| WriteAction::Delete {
        item: ItemId::Stored(id),
        tags: vec![DeleteTarget::Type(TagType::Base(Col::ItemId))],
    };
    let c = collect_changes(&vec![delete(5), delete(file)]);
    assert_eq!(c.user_cascade, vec![5]);
    assert_eq!(c.file_cascade, vec![file]);
    let ranks = rank_case_update(Tbl::Master, &vec![(1, 10), (2, 20)])
        .to_string(PostgresQueryBuilder);
    assert!(ranks.contains("CASE WHEN"), "{ranks}");
    assert!(ranks.contains("IN (1, 2)"), "{ranks}");
}

#[test]
fn tags_of_all_sources_are_selected() {
    let registry = TagRegistry::with_standard();
    let all = build_tags_select_query(&store(), &registry, None, true)
        .to_string(PostgresQueryBuilder);
    for source in ["tags_by_location", "user_tags", "base_tags", "file_references"] {
        assert!(all.contains(source), "{all}");
    }
    assert!(all.contains("NOT IN ("), "{all}");
    let one = build_tags_select_query(&store(), &registry, Some("extension"), true)
        .to_string(PostgresQueryBuilder);
    assert!(one.contains("'extension'"), "{one}");
    assert!(!one.contains("file_references"), "{one}");
    let rows = parquet_query("/db/x.parquet");
    assert_eq!(
        count_sql(&rows),
        format!("SELECT COUNT(*) FROM ({})", rows.to_string(PostgresQueryBuilder))
    );
}

#[test]
fn partitions_stay_inside_their_directory() {
    assert!(sanitize_tag_type("extension").is_ok());
    for bad in ["", "a/b", "..", "a\\b"] {
        let e = sanitize_tag_type(bad).unwrap_err();
        assert_eq!(e.message(), format!("Invalid tag_type for partition: {bad}"));
    }
}

#[test]
fn old_tags_are_moved_before_new_ones_come() {
    let dirs = TagDirs { tags: "/db/tags".to_string(), temp: "/db/tags_temp".to_string() };
    let rows = parquet_query("/db/x.parquet");
    let there = PartitionDirs { own: true, temp: false, old: false };
    let steps = plan_hive(&store(), &dirs, &rows, there);
    let sql = rows.to_string(PostgresQueryBuilder);
    let copies = format!("COPY ({sql}) TO '/db/tags_temp' (");
    assert!(steps.iter().any(|s| matches!(s, WriteStep::Run(run) if run.starts_with(&copies))));
    assert!(steps.iter().any(|s| matches!(s, WriteStep::Rename(from, _) if from == "/db/tags")));
    let nothing = PartitionDirs { own: false, temp: false, old: false };
    assert!(plan_partition(&store(), &dirs, "extension", &rows, 0, nothing).is_empty());
    let one = plan_partition(&store(), &dirs, "extension", &rows, 3, nothing);
    let copies = format!(
        "COPY ({sql}) TO '/db/tags_temp/type=extension/data.parquet' (FORMAT PARQUET)"
    );
    assert!(one.iter().any(|s| matches!(s, WriteStep::Run(run) if *run == copies)));
    assert_eq!(store().path_for_target(TargetTable::UserTags), "/db/user_tags.parquet");
}

#[test]
fn test_sync_tags_partitions_cleanup_on_error() {
    let dirs = TagDirs { tags: "/db/tags".to_string(), temp: "/db/tags_temp".to_string() };
    let steps = give_up_partitions(&dirs, &vec!["broken".to_string()]);
    assert_eq!(steps.len(), 1);
    assert!(matches!(&steps[0], WriteStep::DropDir(d) if d == "/db/tags/type=broken"));
}
