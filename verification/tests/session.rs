use ttfm::col::Col;
use ttfm::config::{ConfirmMode, ConflictPolicy};
use ttfm::edit::action::{TagOp, WriteAction};
use ttfm::edit::cast::{cast_target, detect_type_casts, is_type_item};
use ttfm::edit::error::EditError;
use ttfm::edit::fs_operate::{
    path_components, FsEntry, FsIssue, FsMove, FsOutcome, FsPlan, FsSnapshot, Moved,
};
use ttfm::edit::modify::NumberText;
use ttfm::edit::parse::EditQuery;
use ttfm::edit::plan::{
    cast_migration, prepare, processed_items, static_tag_types, EditResponse, PlanError,
};
use ttfm::edit::prompt::{
    conflict_question, hardlink_question, mkdir_question, CastSummary, IoConfirmPrompt,
};
use ttfm::edit::search_and_apply_captures::search_and_apply_captures;
use ttfm::edit::session::{edit_with_prompt, EditFailure, EditJob};
use ttfm::edit::write::{
    builtin_ids, count_changes, inject_builtin_definitions, WriteResponse,
};
use ttfm::edit::{QueryType, WriteOptions};
use ttfm::item::{Item, ItemKind, Representative, TagType, Tags, TypedTag};
use ttfm::tag::{TagRegistry, TypeConfig};
use ttfm::types::{Bitical, BiticalType, ItemId, Origin};

fn text(s: &str) -> Bitical {
    Bitical::String(s.to_string())
}

fn file_at(id: i64, path: &str) -> Item {
    let mut tags = Tags::new();
    tags.push(TypedTag::new(TagType::Base(Col::Path), text(path)), Origin::File);
    Item {
        id: ItemId::Stored(id),
        item_kind: ItemKind::File,
        representative: Representative { tags: vec![] },
        tags,
        item_count: None,
    }
}

fn type_item(id: i64, name: &str) -> Item {
    Item {
        id: ItemId::Stored(id),
        item_kind: ItemKind::Type,
        representative: Representative {
            tags: vec![TypedTag::new(TagType::Base(Col::Type), text(name))],
        },
        tags: Tags::new(),
        item_count: None,
    }
}

fn disk(paths: &[&str]) -> FsSnapshot {
    FsSnapshot {
        entries: paths
            .iter()
            .map(|p| FsEntry {
                path: p.to_string(),
                writable: true,
                device: Some(1),
                size: Some(5),
                available: Some(1000),
            })
            .collect(),
    }
}

fn edits(
    reg: &TagRegistry,
    items: Vec<Item>,
    search: &str,
    query: &str,
) -> Vec<(Item, Option<EditQuery>)> {
    let parsed = prepare(reg, Some(query), QueryType::Tag).unwrap();
    search_and_apply_captures(items, reg, search, parsed.as_ref(), &vec![]).unwrap()
}

fn run(
    item_edits: &Vec<(Item, Option<EditQuery>)>,
    fs: &FsSnapshot,
    options: &WriteOptions,
    prompt: &mut IoConfirmPrompt,
    warnings: &mut Vec<String>,
) -> Result<Option<EditJob>, EditFailure> {
    edit_with_prompt(
        &TagRegistry::with_standard(),
        item_edits,
        QueryType::Tag,
        &vec![],
        &vec![],
        &vec![],
        fs,
        options,
        false,
        prompt,
        warnings,
    )
}

#[test]
fn tags_are_written_without_a_question_where_none_is_wanted() {
    let reg = TagRegistry::with_standard();
    let es = edits(&reg, vec![file_at(1, "/d/a.txt")], "filename:a.txt", "project:alpha");
    let mut prompt = IoConfirmPrompt::new(vec![]);
    let mut warnings = vec![];
    let job = run(&es, &disk(&["/", "/d", "/d/a.txt"]), &WriteOptions::noconfirm(), &mut prompt, &mut warnings)
        .unwrap()
        .unwrap();
    assert_eq!(prompt.output(), "");
    assert!(prompt.unanswered().is_none());
    assert!(warnings.is_empty());
    assert_eq!(job.found, 1);
    assert!(job.fs_plan.moves.is_empty());
    assert_eq!(job.actions.len(), 1);
    assert!(matches!(&job.actions[0], WriteAction::Add { item: ItemId::Stored(1), tags }
        if matches!(&tags[..], [TagOp::Append(t)] if t.as_str() == "alpha")));
    let written = WriteResponse { updated: 1, deleted: 0, new_item_ids: vec![] };
    assert_eq!(
        job.finish(&written, &FsOutcome::default()),
        EditResponse { updated: 1, deleted: 0, fs_ops: 0, has_skipped: false }
    );
}

#[test]
fn files_are_moved_after_a_yes_and_left_after_a_no() {
    let reg = TagRegistry::with_standard();
    let es = edits(&reg, vec![file_at(1, "/d/a.txt")], "filename:a.txt", "filename:b.txt");
    let fs = disk(&["/", "/d", "/d/a.txt"]);
    let options = WriteOptions::interactive().on_confirm(ConfirmMode::Always);
    let mut yes = IoConfirmPrompt::new(vec!["y\n".to_string()]);
    let job = run(&es, &fs, &options, &mut yes, &mut vec![]).unwrap().unwrap();
    assert_eq!(job.fs_plan.moves.len(), 1);
    assert_eq!(job.fs_plan.moves[0].to, "/d/b.txt");
    assert!(yes.unanswered().is_none());
    let mut no = IoConfirmPrompt::new(vec!["n\n".to_string()]);
    assert!(run(&es, &fs, &options, &mut no, &mut vec![]).unwrap().is_none());
}

#[test]
fn a_question_without_a_line_is_told() {
    let reg = TagRegistry::with_standard();
    let es = edits(&reg, vec![file_at(1, "/d/a.txt")], "filename:a.txt", "filename:b.txt");
    let fs = disk(&["/", "/d", "/d/a.txt"]);
    let mut prompt = IoConfirmPrompt::new(vec![]);
    let refused = run(&es, &fs, &WriteOptions::interactive().on_confirm(ConfirmMode::Always), &mut prompt, &mut vec![]).unwrap();
    assert!(refused.is_none());
    let question = prompt.unanswered().unwrap();
    assert!(prompt.output().starts_with(&question));
    assert!(question.contains("[y/N]"), "{question}");
}

#[test]
fn taken_targets_stop_the_edit() {
    let reg = TagRegistry::with_standard();
    let es = edits(&reg, vec![file_at(1, "/d/a.txt")], "filename:a.txt", "filename:b.txt");
    let fs = disk(&["/", "/d", "/d/a.txt", "/d/b.txt"]);
    let options = WriteOptions::noconfirm().on_conflict(ConflictPolicy::Abort);
    let mut prompt = IoConfirmPrompt::new(vec![]);
    let failed = run(&es, &fs, &options, &mut prompt, &mut vec![]);
    assert!(matches!(failed, Err(EditFailure::Confirm(_))));
    let serial = WriteOptions::noconfirm().on_conflict(ConflictPolicy::Serial);
    let job = run(&es, &fs, &serial, &mut prompt, &mut vec![]).unwrap().unwrap();
    assert_eq!(job.fs_plan.moves[0].to, "/d/b_1.txt");
    assert!(matches!(
        run(&es, &disk(&["/"]), &WriteOptions::noconfirm().on_confirm(ConfirmMode::Never), &mut prompt, &mut vec![]),
        Err(EditFailure::Plan(PlanError::Fs(_))) | Err(EditFailure::Confirm(_))
    ));
}

#[test]
fn queries_are_read_before_anything_is_searched() {
    let reg = TagRegistry::with_standard();
    assert!(prepare(&reg, None, QueryType::Tag).unwrap().is_none());
    assert!(prepare(&reg, Some("stem:a filename:b"), QueryType::Tag).is_err());
    let parsed = prepare(&reg, Some("project:a stem:b"), QueryType::Tag).unwrap();
    let types = static_tag_types(parsed.as_ref());
    assert_eq!(types.len(), 2);
    assert_eq!(types[0].as_str(), "project");
    assert_eq!(path_components(&TagType::Base(Col::Stem), &reg), vec![Col::Stem]);
}

#[test]
fn casts_are_found_on_type_items_only() {
    let mut reg = TagRegistry::with_standard();
    reg.configs.push(TypeConfig { name: "year".to_string(), bitical_type: None });
    assert!(is_type_item(&type_item(5, "year")));
    assert!(!is_type_item(&file_at(1, "/d/a.txt")));
    let es = edits(&reg, vec![type_item(5, "year")], "type:year", "bitical_type:integer");
    let casts = detect_type_casts(&es, &reg).unwrap();
    assert_eq!(casts.len(), 1);
    assert_eq!(casts[0].to_type, BiticalType::Integer);
    assert_eq!(casts[0].from_type, BiticalType::String);
    assert_eq!(cast_target(&es, &reg).unwrap().unwrap().tag_type.as_str(), "year");
    let two = edits(
        &reg,
        vec![type_item(5, "year"), type_item(6, "month")],
        "type:*",
        "bitical_type:integer",
    );
    assert_eq!(cast_target(&two, &reg).unwrap_err(), EditError::MultipleCasts);
    let summary = |count: usize| {
        Some(CastSummary {
            tag_type: TagType::from("year"),
            from_type: BiticalType::String,
            to_type: BiticalType::Integer,
            count,
        })
    };
    assert!(cast_migration(summary(0)).is_none());
    assert_eq!(cast_migration(summary(2)).unwrap().1, BiticalType::Integer);
}

#[test]
fn items_are_dealt_with_once() {
    let add = |id: i64| WriteAction::Add { item: ItemId::Stored(id), tags: vec![] };
    let outcome = FsOutcome {
        moved: vec![Moved {
            item: ItemId::Stored(2),
            to: "/d/b".to_string(),
            crossed: false,
        }],
        attrs_set: vec![],
    };
    let items = processed_items(&vec![add(1), add(2), add(1)], &outcome);
    assert_eq!(items.len(), 2);
    let written = WriteResponse { updated: 2, deleted: 0, new_item_ids: vec![] };
    let r = EditResponse::carried_out(&written, &outcome, &items, 3, false);
    assert_eq!(r, EditResponse { updated: 2, deleted: 0, fs_ops: 1, has_skipped: true });
}

#[test]
fn touched_directories_are_named_once() {
    let mv = |from: &str, to: &str| FsMove {
        item: ItemId::Stored(1),
        from: from.to_string(),
        to: to.to_string(),
        crossed: false,
    };
    let mut plan = FsPlan {
        moves: vec![mv("/a/x", "/b/x")],
        attrs: vec![],
        mkdirs: vec![],
        issues: vec![FsIssue::CreateUnsupported(ItemId::Stored(9))],
    };
    let outcome = FsOutcome {
        moved: vec![Moved { item: ItemId::Stored(1), to: "/b/x".to_string(), crossed: true }],
        attrs_set: vec![],
    };
    assert_eq!(outcome.touched_dirs(&plan), vec!["/b".to_string(), "/a".to_string()]);
    assert_eq!(outcome.rebindings(), vec![(1, "/b/x".to_string())]);
    let mut warnings = vec![];
    assert!(plan.warn_unsupported(&mut warnings));
    assert!(plan.issues.is_empty());
    assert_eq!(warnings.len(), 1);
}

#[test]
fn builtin_types_are_defined_when_they_are_written_to() {
    let reg = TagRegistry::with_standard();
    let id = Origin::Builtin.block_lo() + 2;
    let add = || {
        vec![WriteAction::Add {
            item: ItemId::Stored(id),
            tags: vec![TagOp::Append(TypedTag::new(TagType::from("color"), text("red")))],
        }]
    };
    assert_eq!(builtin_ids(&add()), vec![id]);
    let defined = inject_builtin_definitions(&reg, &vec![], add());
    assert_eq!(count_changes(&defined), (3, 0));
    let name = reg.builtin_name_for_offset(2).unwrap();
    assert!(matches!(&defined[..], [WriteAction::Add { tags, .. }]
        if tags.iter().any(|t| matches!(t, TagOp::Append(t) | TagOp::Replace(t) if t.as_str() == name))));
    let there = inject_builtin_definitions(&reg, &vec![id], add());
    assert_eq!(count_changes(&there), (1, 0));
}

#[test]
fn questions_name_what_they_are_about() {
    let item = ItemId::Stored(4);
    assert!(conflict_question(&item, "/d/b.txt").contains("/d/b.txt"));
    assert!(mkdir_question("/new").contains("/new"));
    let paths = vec!["/a/x".to_string(), "/b/x".to_string()];
    let asked = hardlink_question(&item, &paths);
    assert!(asked.contains("/a/x") && asked.contains("/b/x"), "{asked}");
    let numbers: Vec<NumberText> = vec![];
    assert!(ttfm::edit::modify::find_number(&numbers, "1.5").is_none());
}
