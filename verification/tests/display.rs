use ttfm::cli::args::{build_write_options, Cli};
use ttfm::cli::format::{
    format_tag_result, format_untag_result, get_terminal_width, heading_of, is_computed_value,
    is_short_result, print_compact_projections, print_results, print_results_with_options,
    print_simple_results_to_writer, truncate_text, wrap_text_slices, ColorWarningSink,
    FormatOptions, ResultLine, Results, SearchResponse, ShownLabel, Warning,
};
use ttfm::cli::progress::{Bar, BarChange, MultiStageProgressView};
use ttfm::cli::table::{KeyColumn, ShownItem, TypeGroup};
use ttfm::col::Col;
use ttfm::config::{Config, ConfirmMode, ConflictPolicy};
use ttfm::edit::EditResponse;
use ttfm::indexing::IndexProgress;
use ttfm::item::{Item, ItemKind, Representative, TagType, Tags, TypedTag};
use ttfm::types::{Bitical, ItemId, Origin, Progress};

fn response(results: Results) -> SearchResponse {
    SearchResponse {
        results,
        has_more: false,
        progress: Progress::default(),
        total_count: None,
        cid: None,
    }
}

/// Two items with a name and a longer text each.
fn two_items() -> Results {
    let keys = vec![
        KeyColumn { name: "name".to_string(), rank: 3 },
        KeyColumn { name: "content".to_string(), rank: 2 },
        KeyColumn { name: "kind".to_string(), rank: 1 },
    ];
    let item = |id: &str, name: &str| ShownItem {
        id: id.to_string(),
        cells: vec![
            ("name".to_string(), name.to_string()),
            ("content".to_string(), "what the type stands for".to_string()),
            ("kind".to_string(), "type".to_string()),
        ],
    };
    Results::Items {
        first: None,
        named: String::new(),
        groups: vec![TypeGroup { keys, items: vec![item("Sys(0)", "path"), item("Sys(1)", "size")] }],
        count: 2,
    }
}

fn printed(resp: &SearchResponse, width: usize, options: FormatOptions) -> (String, bool, bool) {
    let mut out = String::new();
    let paging =
        print_results_with_options(&vec![], resp, "type:*", 100, &mut out, width, options);
    (out, paging.has_next, paging.has_prev)
}

#[test]
fn test_print_simple_results_to_writer_by_representative_presence() {
    let results = vec![
        ResultLine {
            representative: Some("rust".to_string()),
            primary: None,
            raw: "rust".to_string(),
        },
        ResultLine {
            representative: None,
            primary: Some("src/main.rs".to_string()),
            raw: "".to_string(),
        },
        ResultLine { representative: None, primary: None, raw: "Sys(3)".to_string() },
    ];
    let mut out = String::new();
    print_simple_results_to_writer(&results, &mut out);
    assert!(out.contains("rust\n"));
    assert!(out.contains("src/main.rs\n"));
    assert!(out.ends_with("Sys(3)\n"));
}

#[test]
fn test_color_warning_sink_writes_immediately() {
    let mut sink = ColorWarningSink { writer: String::new() };
    sink.warn(&Warning(
        "Projection intersection ('&') found. Did you mean '&:' (Nest) to group results?"
            .to_string(),
    ));
    let text = sink.writer;
    assert!(!text.is_empty(), "ColorWarningSink should produce output");
    assert!(text.contains("&:"), "output should contain '&:' suggestion");
    assert!(
        !text.contains("Warning: Warning:"),
        "should not contain duplicate Warning: prefix"
    );
    assert!(
        text.starts_with("\x1b[1;33mWarning: Projection"),
        "should start with colored single Warning: prefix, got: {:?}",
        text
    );
}

#[test]
fn test_format_tag_result() {
    let resp = EditResponse { updated: 1, deleted: 0, fs_ops: 2, has_skipped: false };
    assert_eq!(format_tag_result(&resp), "Updated tags: 1, files: 2.");

    let resp_zero = EditResponse { updated: 0, deleted: 0, fs_ops: 1, has_skipped: false };
    assert_eq!(format_tag_result(&resp_zero), "Updated tags: 0, files: 1.");
    let skipped = EditResponse { updated: 0, deleted: 0, fs_ops: 1, has_skipped: true };
    assert_eq!(
        format_tag_result(&skipped),
        "Updated tags: 0, files: 1. (Some items skipped)"
    );
}

#[test]
fn test_format_untag_result() {
    let resp = EditResponse { updated: 0, deleted: 3, fs_ops: 0, has_skipped: false };
    assert_eq!(format_untag_result(&resp), "Deleted tags: 3, files: 0.");
}

#[test]
fn test_print_results_bold_header_for_scalar_result() {
    let mut resp = response(two_items());
    if let Results::Items { first, named, .. } = &mut resp.results {
        *first = Some(computed(ItemId::Volatile(0), Origin::Builtin));
        *named = "1024".to_string();
    }
    let (output, _, _) = printed(&resp, 500, FormatOptions::default());
    let first_line = output.lines().next().unwrap_or("");
    assert!(
        !first_line.contains("item_id"),
        "scalar result should still show the bold representative header before the table, got:\n{}",
        output
    );
    assert!(first_line.contains("1024"), "{output}");
}

#[test]
fn test_print_results_no_bold_header_for_definition_item_results() {
    let (output, _, _) = printed(&response(two_items()), 500, FormatOptions::default());
    let first_line = output.lines().next().unwrap_or("");
    assert!(
        first_line.contains("item_id"),
        "definition item results should not misfire the scalar bold header, expected the table header first, got:\n{}",
        output
    );
}

#[test]
fn test_print_results_no_generating_warning_on_completed_cache_with_has_more() {
    let mut resp = response(two_items());
    resp.has_more = true;
    resp.progress.is_done = true;
    let mut out = String::new();
    print_results(&vec![], &resp, "type:*", 10, &mut out, 500, false);
    assert!(
        !out.contains("Background cache generating"),
        "Completed cache with has_more=true must not display generating warning, got:\n{}",
        out
    );
    resp.progress.is_done = false;
    let mut going = String::new();
    print_results(&vec![], &resp, "type:*", 10, &mut going, 500, false);
    assert!(going.len() > out.len(), "{going}");
}

#[test]
fn test_truncate_text_boundary_safety() {
    assert_eq!(truncate_text("abcdef", 10), "abcdef");
    assert_eq!(truncate_text("a", 2), "a");
    assert_eq!(truncate_text("abcdef", 2), "..");
    assert_eq!(truncate_text("abcdef", 0), "");
    assert_eq!(truncate_text("abcdef", 5), "ab...");
    assert_eq!(truncate_text("あいうえ", 7), "あい...");
}

#[test]
fn test_print_results_drops_whole_columns_cleanly() {
    let (text, _, _) = printed(&response(two_items()), 40, FormatOptions::default());
    assert!(text.contains("item_id"));
    for line in text.lines().filter(|l| {
        !l.is_empty() && !l.contains("displayed") && !l.contains("available")
    }) {
        assert!(
            console::measure_text_width(line) <= 40 - 4,
            "Line width {} exceeds 36 for line: {:?}",
            console::measure_text_width(line),
            line
        );
    }
}

#[test]
fn test_print_results_wide_bypasses_effective_width() {
    let options = FormatOptions {
        is_interactive: false,
        wide: true,
        col_offset: 0,
        current_offset: None,
    };
    let (text, has_next, _) = printed(&response(two_items()), 40, options);
    assert!(!has_next);
    assert!(!text.contains("..."));
}

#[test]
fn test_print_results_col_offset_inserts_leading_and_trailing_ellipsis() {
    let options = FormatOptions {
        is_interactive: true,
        wide: false,
        col_offset: 1,
        current_offset: None,
    };
    let (text, _, has_prev) = printed(&response(two_items()), 40, options);
    assert!(has_prev);
    let clean = console::strip_ansi_codes(&text).to_string();
    assert!(clean.contains("item_id  ..."), "{clean}");
}

#[test]
fn test_print_results_interactive_matched_footer() {
    let mut resp = response(two_items());
    resp.has_more = true;
    let options = |offset: usize| FormatOptions {
        is_interactive: true,
        wide: false,
        col_offset: 0,
        current_offset: Some(offset),
    };
    let (out_str, _, _) = printed(&resp, 80, options(20));
    assert!(out_str.contains("20+ items matched."));
    assert!(!out_str.contains("results displayed."));

    resp.has_more = false;
    let (out_final_str, _, _) = printed(&resp, 80, options(45));
    assert!(out_final_str.contains("45 items matched."));
    assert!(!out_final_str.contains("results displayed."));
}

#[test]
fn test_wrap_text_slices_functional() {
    let text = "a".repeat(100);
    let slices = wrap_text_slices(&text, 40, 30);
    assert_eq!(slices.len(), 3);
    assert_eq!(slices[0].len(), 40);
    assert_eq!(slices[1].len(), 30);
    assert_eq!(slices[2].len(), 30);
    assert_eq!(slices.concat(), text);
}

fn many_labels() -> Vec<ShownLabel> {
    vec![ShownLabel {
        shown: "rs".to_string(),
        item_count: Some("50".to_string()),
        tags: (0..50).map(|i| format!("p_{i}")).collect(),
    }]
}

#[test]
fn test_print_compact_projections_wide_bypasses_truncation() {
    let mut s = String::new();
    print_compact_projections(
        &many_labels(),
        false,
        &None,
        "extension:",
        &mut s,
        80,
        false,
        true,
    );
    assert!(!s.contains("..."));
    assert!(s.contains("p_49"));
    let mut narrow = String::new();
    print_compact_projections(
        &many_labels(),
        false,
        &None,
        "extension:",
        &mut narrow,
        80,
        false,
        false,
    );
    assert!(narrow.contains("..."), "{narrow}");
}

#[test]
fn columns_are_padded_to_the_widest_text() {
    let (text, _, _) = printed(&response(two_items()), 500, FormatOptions::default());
    let lines: Vec<&str> = text.lines().collect();
    let clean: Vec<String> =
        lines.iter().map(|l| console::strip_ansi_codes(l).to_string()).collect();
    let at = |l: &String, s: &str| l.find(s).unwrap();
    let head = clean.iter().find(|l| l.contains("item_id")).unwrap();
    let row = clean.iter().find(|l| l.contains("Sys(1)")).unwrap();
    assert_eq!(at(head, "name"), at(row, "size"), "{text}");
}

fn empty_item(id: ItemId) -> Item {
    Item {
        id,
        item_kind: ItemKind::Volatile,
        representative: Representative { tags: vec![] },
        tags: Tags::new(),
        item_count: None,
    }
}

#[test]
fn short_results_have_a_representative_and_no_tags() {
    let mut item = empty_item(ItemId::Stored(1));
    assert!(!is_short_result(&item));
    item.representative.tags.push(TypedTag::new(
        TagType::Base(Col::Name),
        Bitical::String("rust".to_string()),
    ));
    assert!(is_short_result(&item));
    item.tags.push(
        TypedTag::new(TagType::Base(Col::Name), Bitical::String("x".to_string())),
        Origin::User,
    );
    assert!(!is_short_result(&item));
    assert!(!is_computed_value(&item));
}

#[test]
fn the_width_of_the_terminal_is_found() {
    assert_eq!(get_terminal_width(Some("120"), Some(80)), 120);
    assert_eq!(get_terminal_width(Some("wide"), Some(90)), 90);
    assert_eq!(get_terminal_width(None, Some(90)), 90);
    let fallback = get_terminal_width(None, None);
    assert!(fallback > 0);
}

#[test]
fn test_multi_stage_progress_view_transitions_and_monotonicity() {
    let mut view = MultiStageProgressView::hidden();
    view.handle_progress(IndexProgress::Scanning { count: 100 });
    view.handle_progress(IndexProgress::Diffing);
    view.handle_progress(IndexProgress::Extracting { current: 0, total: 200 });
    view.handle_progress(IndexProgress::Extracting { current: 50, total: 200 });
    view.handle_progress(IndexProgress::Extracting { current: 20, total: 200 });
    assert_eq!(view.max_extracted, 50);
    view.handle_progress(IndexProgress::Merging);
    view.finish();
    assert!(view.is_finished);
}

#[test]
fn test_multi_stage_progress_view_finish_dry_run() {
    let mut view = MultiStageProgressView::hidden();
    view.handle_progress(IndexProgress::Scanning { count: 10 });
    let changes = view.finish_dry_run();
    assert!(view.is_finished);
    assert_eq!(changes[0], BarChange::Finish(Bar::Scan, "Done (dry-run)".to_string()));
}

#[test]
fn test_multi_stage_progress_view_draw_target_enables_derived() {
    let hidden_view = MultiStageProgressView::hidden();
    assert!(!hidden_view.enabled);

    let stderr_view = MultiStageProgressView::new(false);
    assert!(!stderr_view.enabled);

    let active_view = MultiStageProgressView::new(true);
    assert!(active_view.enabled);
    assert_eq!(active_view.give_up().len(), 4);
    assert!(hidden_view.give_up().is_empty());
}

#[test]
fn test_multi_stage_progress_view_extract_bar_starts_waiting_and_switches_on_extracting() {
    let mut view = MultiStageProgressView::hidden();
    assert_eq!(view.extract_length, None);

    let changes = view.handle_progress(IndexProgress::Extracting { current: 10, total: 100 });
    assert_eq!(view.extract_length, Some(100));
    assert!(changes.contains(&BarChange::Length(100)));
    assert!(changes.contains(&BarChange::Position(10)));
}

#[test]
fn arguments_come_before_the_configuration() {
    let mut cli = Cli {
        interactive: None,
        command: None,
        yes: false,
        quiet: false,
        confirm: None,
        on_conflict: Some(ConflictPolicy::Skip),
        on_hardlink: None,
        skip_scope: None,
    };
    let mut config = Config::new();
    config.edit.confirm = ConfirmMode::Always;
    config.edit.on_conflict = Some(ConflictPolicy::Serial);
    let options = build_write_options(&cli, &config);
    assert_eq!(options.confirm, ConfirmMode::Always);
    assert_eq!(options.on_conflict, Some(ConflictPolicy::Skip));
    cli.yes = true;
    assert_eq!(build_write_options(&cli, &config).confirm, ConfirmMode::Never);
}

fn computed(id: ItemId, origin: Origin) -> Item {
    let value = || TypedTag::new(TagType::from("value"), Bitical::Integer(1024));
    let mut tags = Tags::new();
    tags.push(value(), origin);
    Item {
        id,
        item_kind: ItemKind::Volatile,
        representative: Representative { tags: vec![value()] },
        tags,
        item_count: None,
    }
}

#[test]
fn only_computed_values_stand_above_tables() {
    let named = || "1024".to_string();
    let value = computed(ItemId::Volatile(0), Origin::Builtin);
    assert_eq!(heading_of(Some(&value), named()), Some(named()));
    let stored = computed(ItemId::Stored(0), Origin::Builtin);
    assert_eq!(heading_of(Some(&stored), named()), None);
    let given = computed(ItemId::Volatile(0), Origin::User);
    assert_eq!(heading_of(Some(&given), named()), None);
    assert_eq!(heading_of(None, named()), None);
}
