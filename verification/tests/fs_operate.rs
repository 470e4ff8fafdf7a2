use ttfm::col::Col;
use ttfm::edit::error::EditError;
use ttfm::edit::fs_operate::{
    check_location_tag, file_attr_of, is_fs_strategy, plan_fs, AttrSet, FileAttr, FileTimestamp,
    FsAttr, FsEntry, FsIssue, FsMove, FsPlan, FsProgress, FsSnapshot, FsStep, TimeText,
};
use ttfm::edit::modify::ResolvedNode;
use ttfm::edit::QueryType;
use ttfm::item::{Item, ItemKind, Label, Representative, TagType, Tags, TypedTag};
use ttfm::tag::{EditStrategy, TagRegistry};
use ttfm::types::{Bitical, ItemId, Origin};

fn base(c: Col) -> TagType {
    TagType::Base(c)
}

fn entry(path: &str) -> FsEntry {
    FsEntry {
        path: path.to_string(),
        writable: true,
        device: Some(1),
        size: Some(5),
        available: Some(1000),
    }
}

fn disk(paths: &[&str]) -> FsSnapshot {
    FsSnapshot { entries: paths.iter().map(|p| entry(p)).collect() }
}

fn file_at(path: &str) -> Item {
    let mut tags = Tags::new();
    tags.push(
        TypedTag::new(base(Col::Path), Bitical::String(path.to_string())),
        Origin::File,
    );
    Item {
        id: ItemId::Stored(1),
        item_kind: ItemKind::File,
        representative: Representative { tags: vec![] },
        tags,
        item_count: None,
    }
}

fn relocate(c: Col, label: &str) -> Vec<ResolvedNode> {
    vec![ResolvedNode {
        tag_type: base(c),
        label: Some(Label::from(label)),
        strategy: EditStrategy::Relocate,
    }]
}

#[test]
fn test_check_location_tag_duplicates() {
    let reg = TagRegistry::with_standard();

    assert!(check_location_tag(&vec![base(Col::Parentdir), base(Col::Stem)], &reg).is_ok());
    assert!(check_location_tag(&vec![base(Col::Stem), base(Col::Extension)], &reg).is_ok());

    assert!(check_location_tag(&vec![base(Col::Path), base(Col::Stem)], &reg).is_err());
    assert!(check_location_tag(&vec![base(Col::Filename), base(Col::Stem)], &reg).is_err());
    assert!(check_location_tag(&vec![base(Col::Filename), base(Col::Extension)], &reg).is_err());
    assert!(check_location_tag(&vec![base(Col::Stem), base(Col::Stem)], &reg).is_err());
}

#[test]
fn test_is_fs_strategy() {
    assert!(is_fs_strategy(EditStrategy::Relocate));
    assert!(is_fs_strategy(EditStrategy::SetFileAttr));
    assert!(!is_fs_strategy(EditStrategy::Append));
    assert!(!is_fs_strategy(EditStrategy::Replace));
    assert!(!is_fs_strategy(EditStrategy::RemoveOnly));
    assert!(!is_fs_strategy(EditStrategy::ModifyInjection));
}

#[test]
fn test_file_attr_of() {
    let reg = TagRegistry::with_standard();
    let times =
        vec![TimeText { text: "2020-01-01".to_string(), timestamp: 1577836800 }];
    let attr = file_attr_of(
        &base(Col::Mtime),
        &Label::from("2020-01-01"),
        &reg,
        &times,
    )
    .unwrap();
    assert!(matches!(attr, FileAttr::Mtime(_)));
    assert_eq!(attr, FileAttr::Mtime(FileTimestamp(1577836800)));

    assert!(file_attr_of(&base(Col::Path), &Label::from("foo.txt"), &reg, &times).is_err());
}

#[test]
fn test_fs_issue_display() {
    let id = ItemId::Stored(42);
    let p1 = "/a/b.txt".to_string();
    let p2 = "/a/c.txt".to_string();
    let issue = FsIssue::MultipleLocations(id, vec![p1, p2], Vec::new());
    let s = issue.show();
    assert!(s.contains("42"));
    assert!(s.contains("/a/b.txt"));
    assert!(s.contains("/a/c.txt"));
}

#[test]
fn test_plan_fs_basic_rename() {
    let reg = TagRegistry::with_standard();
    let fs = disk(&["/d", "/d/a.txt"]);
    let plan = plan_fs(
        &reg,
        vec![(file_at("/d/a.txt"), relocate(Col::Stem, "b"))],
        QueryType::Tag,
        &vec![],
        &fs,
    )
    .unwrap();
    assert_eq!(plan.moves.len(), 1);
    assert_eq!(plan.moves[0].from, "/d/a.txt");
    assert_eq!(plan.moves[0].to, "/d/b.txt");
    assert!(plan.issues.is_empty());

    let mut progress = FsProgress::start();
    match progress.next_step(&plan) {
        FsStep::Rename(from, to) => {
            assert_eq!(from, "/d/a.txt");
            assert_eq!(to, "/d/b.txt");
        }
        other => panic!("unexpected step {:?}", other),
    }
    progress.succeed(&plan);
    assert!(matches!(progress.next_step(&plan), FsStep::Finish));
    assert_eq!(progress.outcome.count(), 1);
}

#[test]
fn test_apply_crossed_copy_and_delete() {
    let plan = FsPlan {
        moves: vec![FsMove {
            item: ItemId::Stored(1),
            from: "/d/file.txt".to_string(),
            to: "/d/sub/file.txt".to_string(),
            crossed: true,
        }],
        attrs: vec![],
        mkdirs: vec!["/d/sub".to_string()],
        issues: vec![],
    };

    let mut progress = FsProgress::start();
    assert!(matches!(progress.next_step(&plan), FsStep::MakeDir(d) if d == "/d/sub"));
    progress.succeed(&plan);
    assert!(matches!(progress.next_step(&plan), FsStep::CopyAndDelete(_, _)));
    progress.succeed(&plan);
    assert_eq!(progress.outcome.count(), 1);
    assert_eq!(progress.outcome.moved[0].crossed, true);
    assert_eq!(progress.outcome.rebindings(), vec![(1, "/d/sub/file.txt".to_string())]);
}

#[test]
fn test_apply_sets_mtime() {
    let plan = FsPlan {
        moves: vec![],
        attrs: vec![FsAttr {
            item: ItemId::Stored(1),
            from: "/d/file.txt".to_string(),
            attr: FileAttr::Mtime(FileTimestamp(1577836800)),
        }],
        mkdirs: vec![],
        issues: vec![],
    };

    let mut progress = FsProgress::start();
    assert!(matches!(
        progress.next_step(&plan),
        FsStep::SetAttr(p, FileAttr::Mtime(FileTimestamp(1577836800))) if p == "/d/file.txt"
    ));
    progress.succeed(&plan);
    assert_eq!(progress.outcome.count(), 1);
    assert_eq!(
        progress.outcome.attrs_set,
        vec![AttrSet { item: ItemId::Stored(1), path: "/d/file.txt".to_string() }]
    );
}

#[test]
fn what_stands_in_the_way_of_a_move_is_told() {
    let reg = TagRegistry::with_standard();
    let issues = |item: Item, nodes: Vec<ResolvedNode>, qt: QueryType, fs: &FsSnapshot| {
        plan_fs(&reg, vec![(item, nodes)], qt, &vec![], fs).unwrap().issues
    };
    let there = disk(&["/d", "/d/a.txt"]);
    let missing = issues(file_at("/d/x.txt"), relocate(Col::Stem, "b"), QueryType::Tag, &there);
    assert!(matches!(missing[0], FsIssue::SourceMissing(_, _)));
    let inside = issues(file_at("/d"), relocate(Col::Path, "/d/e"), QueryType::Tag, &disk(&["/", "/d"]));
    assert!(matches!(inside[0], FsIssue::TargetInsideSource(_, _, _)));
    let mut note = file_at("/d/a.txt");
    note.tags = Tags::new();
    let nowhere = issues(note, relocate(Col::Stem, "b"), QueryType::Tag, &there);
    assert!(matches!(nowhere[0], FsIssue::NoLocation(_)));
    let mut locked = disk(&["/d", "/d/a.txt"]);
    locked.entries[0].writable = false;
    let refused = issues(file_at("/d/a.txt"), relocate(Col::Stem, "b"), QueryType::Tag, &locked);
    assert!(matches!(refused[0], FsIssue::TargetNotWritable(_, _)));
}

#[test]
fn a_failure_tells_what_was_done_before() {
    let plan = FsPlan {
        moves: vec![
            FsMove {
                item: ItemId::Stored(1),
                from: "/a".to_string(),
                to: "/b".to_string(),
                crossed: false,
            },
            FsMove {
                item: ItemId::Stored(2),
                from: "/c".to_string(),
                to: "/e".to_string(),
                crossed: false,
            },
        ],
        attrs: vec![],
        mkdirs: vec![],
        issues: vec![],
    };
    let mut progress = FsProgress::start();
    progress.succeed(&plan);
    assert_eq!(
        progress.outcome.abort_message("/c", "no space"),
        "failed on \"/c\": no space\ncompleted before the failure:\n\"/b\""
    );
    assert_eq!(progress.outcome.target_of(&ItemId::Stored(1)), Some(&"/b".to_string()));
    assert_eq!(progress.outcome.target_of(&ItemId::Stored(2)), None);
}

#[test]
fn a_file_has_no_other_attributes() {
    let reg = TagRegistry::with_standard();
    assert!(matches!(
        file_attr_of(&base(Col::Path), &Label::from("x"), &reg, &vec![]).unwrap_err(),
        EditError::NoFileAttribute(_)
    ));
}
