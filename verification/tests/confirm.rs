use ttfm::config::{ConfirmMode, ConflictPolicy, HardlinkPolicy, SkipScope};
use ttfm::edit::action::{TagOp, WriteAction};
use ttfm::edit::confirm::{
    check_fatal_issues, confirm_with_io, confirm_with_prompt, next_serial_path,
    resolve_conflicts, resolve_hardlinks, sync_write_actions,
};
use ttfm::edit::fs_operate::{FsEntry, FsIssue, FsMove, FsPlan, FsSnapshot};
use ttfm::edit::prompt::{
    agrees, conflict_answer, hardlink_answer, replace_answer, CastSummary, ConfirmSummary,
    ConflictChoice, HardlinkChoice, IoConfirmPrompt,
};
use ttfm::edit::replace::{resolve_replace_conflicts, ConfirmError};
use ttfm::edit::WriteOptions;
use ttfm::item::{Label, TagType, TypedTag};
use ttfm::types::{Bitical, BiticalType, ItemId};

fn disk(paths: &[&str]) -> FsSnapshot {
    FsSnapshot {
        entries: paths
            .iter()
            .map(|p| FsEntry {
                path: p.to_string(),
                writable: true,
                device: Some(1),
                size: Some(1),
                available: Some(100),
            })
            .collect(),
    }
}

fn moved(item: i64, from: &str, to: &str) -> FsMove {
    FsMove {
        item: ItemId::Stored(item),
        from: from.to_string(),
        to: to.to_string(),
        crossed: false,
    }
}

fn prompt() -> IoConfirmPrompt {
    IoConfirmPrompt::new(vec![])
}

#[test]
fn test_next_serial_path() {
    let reserved = vec![];
    assert_eq!(
        next_serial_path("/d/foo.txt", &reserved, &disk(&["/d"])),
        "/d/foo_1.txt"
    );
    assert_eq!(
        next_serial_path("/d/foo.txt", &reserved, &disk(&["/d", "/d/foo_1.txt"])),
        "/d/foo_2.txt"
    );
    let taken = vec!["/d/foo_1.txt".to_string(), "/d/foo_2.txt".to_string()];
    assert_eq!(next_serial_path("/d/foo.txt", &taken, &disk(&["/d"])), "/d/foo_3.txt");
}

#[test]
fn test_resolve_conflicts_serial() {
    let fs = disk(&["/d", "/d/b.txt"]);
    let mut skipped = vec![];
    let res = resolve_conflicts(
        vec![moved(1, "/d/a.txt", "/d/b.txt")],
        Some(ConflictPolicy::Serial),
        false,
        &mut prompt(),
        &mut skipped,
        &fs,
    )
    .unwrap();
    assert_eq!(res.len(), 1);
    assert_eq!(res[0].to, "/d/b_1.txt");
    assert!(skipped.is_empty());
}

#[test]
fn test_resolve_conflicts_skip() {
    let fs = disk(&["/d", "/d/b.txt"]);
    let mut skipped = vec![];
    let res = resolve_conflicts(
        vec![moved(1, "/d/a.txt", "/d/b.txt")],
        Some(ConflictPolicy::Skip),
        false,
        &mut prompt(),
        &mut skipped,
        &fs,
    )
    .unwrap();
    assert_eq!(res.len(), 0);
    assert!(skipped.contains(&ItemId::Stored(1)));
}

#[test]
fn test_resolve_conflicts_abort() {
    let fs = disk(&["/d", "/d/b.txt"]);
    let mut skipped = vec![];
    let res = resolve_conflicts(
        vec![moved(1, "/d/a.txt", "/d/b.txt")],
        Some(ConflictPolicy::Abort),
        false,
        &mut prompt(),
        &mut skipped,
        &fs,
    );
    assert!(res.is_err());
    assert_eq!(res.unwrap_err(), ConfirmError::TargetExists("/d/b.txt".to_string()));
}

#[test]
fn test_resolve_hardlinks_all_and_skip() {
    let cand = vec![
        moved(1, "/a/1.txt", "/b/1.txt"),
        moved(1, "/a/2.txt", "/b/2.txt"),
    ];
    let paths = vec!["/a/1.txt".to_string(), "/a/2.txt".to_string()];
    let issues = vec![FsIssue::MultipleLocations(ItemId::Stored(1), paths, cand)];
    let fs = disk(&[]);

    let mut skipped = vec![];
    let mut mkdirs = Vec::new();
    let moves = resolve_hardlinks(
        Vec::new(),
        &issues,
        Some(HardlinkPolicy::All),
        false,
        &mut prompt(),
        &mut skipped,
        &mut mkdirs,
        &fs,
    )
    .unwrap();
    assert_eq!(moves.len(), 2);
    assert!(skipped.is_empty());

    let mut skipped_skip = vec![];
    let mut mkdirs_skip = Vec::new();
    let moves_skip = resolve_hardlinks(
        Vec::new(),
        &issues,
        Some(HardlinkPolicy::Skip),
        false,
        &mut prompt(),
        &mut skipped_skip,
        &mut mkdirs_skip,
        &fs,
    )
    .unwrap();
    assert_eq!(moves_skip.len(), 0);
    assert!(skipped_skip.contains(&ItemId::Stored(1)));
}

#[test]
fn test_sync_write_actions_item_vs_fsonly() {
    let skipped = vec![ItemId::Stored(1)];
    let actions = vec![
        WriteAction::Add { item: ItemId::Stored(1), tags: Vec::new() },
        WriteAction::Add { item: ItemId::Stored(2), tags: Vec::new() },
    ];

    let item_synced = sync_write_actions(actions.clone(), &skipped, SkipScope::Item);
    assert_eq!(item_synced.len(), 1);

    let fs_synced = sync_write_actions(actions, &skipped, SkipScope::FsOnly);
    assert_eq!(fs_synced.len(), 2);
}

#[test]
fn test_confirm_with_io_prompt_yes_and_no() {
    let opts = WriteOptions::interactive().on_confirm(ConfirmMode::Always);
    let answered = |line: &str| {
        let mut output = String::new();
        let res = confirm_with_io(
            FsPlan::default(),
            Vec::new(),
            &vec![],
            &opts,
            true,
            vec![line.to_string()],
            &mut output,
            &disk(&[]),
        )
        .unwrap();
        assert!(output.ends_with("Apply these changes? [y/N]: "), "{output}");
        res
    };

    assert!(answered("y\n").is_some());
    assert!(answered("n\n").is_none());
}

#[test]
fn test_confirm_summary_display() {
    let summary = ConfirmSummary {
        matched_items: 3,
        fs_ops: 2,
        tag_ops: 5,
        deleted_items: 0,
        is_registration: false,
        skipped_types: Vec::new(),
        cast_info: None,
    };
    assert_eq!(
        summary.show(),
        "Matched: 3 items (2 file operations, 5 tag modifications)"
    );

    let cast_summary = ConfirmSummary {
        matched_items: 1,
        fs_ops: 0,
        tag_ops: 1,
        deleted_items: 0,
        is_registration: false,
        skipped_types: Vec::new(),
        cast_info: Some(CastSummary {
            tag_type: TagType::from("score"),
            from_type: BiticalType::String,
            to_type: BiticalType::Integer,
            count: 10,
        }),
    };
    assert!(cast_summary
        .show()
        .contains("Converting 10 item(s) of type 'score' from string to integer"));
}

#[test]
fn test_mkdir_confirmation_deduplicates_prompts() {
    let opts = WriteOptions::interactive().on_confirm(ConfirmMode::Always);
    let same_dir = "/tmp/some_new_dir".to_string();
    let fs_plan = FsPlan {
        moves: vec![],
        attrs: vec![],
        mkdirs: vec![same_dir.clone(), same_dir.clone(), same_dir.clone()],
        issues: vec![],
    };
    let mut prompt = IoConfirmPrompt::new(vec!["y\n".to_string(), "y\n".to_string()]);
    let res = confirm_with_prompt(
        fs_plan,
        vec![],
        &vec![],
        &opts,
        true,
        None,
        &mut prompt,
        &disk(&[]),
    )
    .unwrap();
    assert!(res.is_some());
    let mkdir_count = prompt.output().matches("Create missing directory").count();
    assert_eq!(mkdir_count, 1);
}

#[test]
fn answers_are_read() {
    assert!(agrees("Y\n"));
    assert!(!agrees("yes\n"));
    assert!(!agrees("\n"));
    assert_eq!(conflict_answer("2\n"), ConflictChoice::Skip);
    assert_eq!(conflict_answer("5\n"), ConflictChoice::SerialAll);
    assert_eq!(conflict_answer("x\n"), ConflictChoice::Abort);
    assert_eq!(hardlink_answer("1\n", 2), HardlinkChoice::Selected(vec![0]));
    assert_eq!(hardlink_answer("3\n", 2), HardlinkChoice::All);
    let labels = vec![Label::from("a"), Label::from("b")];
    assert_eq!(replace_answer("2\n", &labels).label, Label::from("b"));
    assert_eq!(replace_answer("9\n", &labels).label, Label::from("a"));
}

fn replaces(item: i64, label: &str) -> WriteAction {
    WriteAction::Add {
        item: ItemId::Stored(item),
        tags: vec![TagOp::Replace(TypedTag::new(
            TagType::from("name"),
            Bitical::String(label.to_string()),
        ))],
    }
}

#[test]
fn a_tag_gets_one_of_several_values() {
    let two = || vec![replaces(1, "a"), replaces(1, "b")];
    let mut skipped = vec![];
    let refused = resolve_replace_conflicts(two(), None, false, &mut prompt(), &mut skipped);
    assert!(matches!(refused.unwrap_err(), ConfirmError::Ambiguous(t, _) if t == "name"));

    let mut skipped = vec![];
    let serial = resolve_replace_conflicts(
        two(),
        Some(ConflictPolicy::Serial),
        false,
        &mut prompt(),
        &mut skipped,
    );
    assert_eq!(serial.unwrap_err(), ConfirmError::SerialReplace);

    let mut skipped = vec![];
    let mut asked = IoConfirmPrompt::new(vec!["2\n".to_string()]);
    let chosen =
        resolve_replace_conflicts(two(), None, true, &mut asked, &mut skipped).unwrap();
    assert!(asked.output().contains("name"));
    let left: Vec<String> = chosen
        .iter()
        .flat_map(|a| match a {
            WriteAction::Add { tags, .. } => {
                tags.iter().map(|t| t.tag().as_str()).collect::<Vec<_>>()
            }
            _ => vec![],
        })
        .collect();
    assert!(left.iter().all(|l| l == "b"), "{left:?}");
    assert!(!left.is_empty());
}

#[test]
fn fatal_issues_stop_an_edit() {
    let fatal = vec![FsIssue::SourceMissing(ItemId::Stored(1), "/x".to_string())];
    let e = check_fatal_issues(&fatal).unwrap_err();
    assert!(e.message().contains("/x"));
    assert!(check_fatal_issues(&vec![]).is_ok());
}
