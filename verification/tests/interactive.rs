use ttfm::cli::format::{Results, SearchResponse};
use ttfm::cli::interactive::autocomplete::{
    complete, read_directory, suggest, Completion, InteractiveHinter,
};
use ttfm::cli::interactive::command::{parse_command, parse_paths, Command, CommandParseError};
use ttfm::cli::interactive::dispatch::{
    clear_answered, cleared, dispatch_command, edit_done, edit_failed, expand_paths, index_done,
    search_failed, search_found, Purpose, Step,
};
use ttfm::cli::interactive::menu::{print_help, print_menu, HELP_TEXT};
use ttfm::cli::interactive::runner::{
    handle_reedline_event, interrupted, key_from_parts, open_session, pipe_warning, take_line,
    KeyEvent, KeyPart, LineStep, MessageChange, Reaction,
};
use ttfm::cli::interactive::state::State;
use ttfm::config::ConfirmMode;
use ttfm::edit::{EditResponse, QueryType};
use ttfm::types::Progress;

fn dispatched(cmd: Command, state: &mut State, confirm: ConfirmMode) -> (Step, String) {
    let mut output = String::new();
    let step = dispatch_command(cmd, state, confirm, Some("/home/me"), true, &mut output);
    (step, output)
}

fn no_results() -> SearchResponse {
    SearchResponse {
        results: Results::Items {
            first: None,
            named: String::new(),
            groups: vec![],
            count: 0,
        },
        has_more: false,
        progress: Progress { current: 0, total: None, is_done: true },
        total_count: Some(0),
        cid: None,
    }
}

fn found(query: &str, page_start: usize, purpose: Purpose, state: &mut State) -> String {
    let mut output = String::new();
    search_found(&vec![], &no_results(), query, page_start, purpose, state, 80, &mut output);
    output
}

#[test]
fn test_parse_quotes_with_internal_quotes_and_requirements() {
    assert!(matches!(
        parse_command("t", false),
        Err(CommandParseError::DisabledInInit('t'))
    ));
    assert!(matches!(
        parse_command("t unquoted a:b", true),
        Err(CommandParseError::QuoteRequired(_))
    ));
    assert!(matches!(
        parse_command("t \"q & a\"", true),
        Err(CommandParseError::MissingArgument(_))
    ));
    assert!(matches!(
        parse_command("t \"\" project:alpha", true),
        Err(CommandParseError::MissingArgument(_))
    ));
    assert!(matches!(
        parse_command("t \"   \" project:alpha", true),
        Err(CommandParseError::MissingArgument(_))
    ));
    assert!(matches!(
        parse_command("s \"\"", true),
        Err(CommandParseError::MissingArgument(_))
    ));

    let cmd =
        parse_command("t \"extension:rs & filename:\\\"a b\\\"\" project:core", true).unwrap();
    assert_eq!(
        cmd,
        Command::Tag {
            search_query: "extension:rs & filename:\"a b\"".to_string(),
            edit_query: "project:core".to_string(),
        }
    );

    let cmd_single_quoted =
        parse_command("t \"extension:rs\" \"project:alpha\"", true).unwrap();
    assert_eq!(
        cmd_single_quoted,
        Command::Tag {
            search_query: "extension:rs".to_string(),
            edit_query: "project:alpha".to_string(),
        }
    );

    let cmd_quoted_multi =
        parse_command("t \"extension:rs\" \"project:alpha status:done\"", true).unwrap();
    assert_eq!(
        cmd_quoted_multi,
        Command::Tag {
            search_query: "extension:rs".to_string(),
            edit_query: "project:alpha status:done".to_string(),
        }
    );

    let cmd_empty = parse_command("t \"extension:rs\" \"\"", true).unwrap();
    assert_eq!(
        cmd_empty,
        Command::Tag {
            search_query: "extension:rs".to_string(),
            edit_query: "".to_string(),
        }
    );

    assert!(matches!(
        parse_command("u \"extension:rs\" \"\"", true),
        Err(CommandParseError::MissingArgument(_))
    ));

    assert!(matches!(
        parse_command("c", true),
        Err(CommandParseError::UnknownCommand(_))
    ));

    assert!(matches!(
        parse_command("i", false),
        Err(CommandParseError::MissingArgument(_))
    ));
    let cmd_i = parse_command("i \"dir with space\" another/path", false).unwrap();
    assert_eq!(
        cmd_i,
        Command::Index(vec!["dir with space".to_string(), "another/path".to_string()])
    );
}

#[test]
fn test_dispatch_menu() {
    let mut state = State::new();
    let (step, out) = dispatched(Command::Menu, &mut state, ConfirmMode::Never);
    assert_eq!(step, Step::Done(true));
    assert!(out.contains("Commands:"));
}

#[test]
fn test_dispatch_quit_returns_false() {
    let mut state = State::new();
    let (step, _) = dispatched(Command::Quit, &mut state, ConfirmMode::Never);
    assert_eq!(step, Step::Done(false));
}

#[test]
fn test_dispatch_tag_borrowing() {
    let mut state = State::new();
    let (step, _) = dispatched(
        Command::Tag {
            search_query: "nonexistent".to_string(),
            edit_query: "tag:foo".to_string(),
        },
        &mut state,
        ConfirmMode::Never,
    );
    assert_eq!(
        step,
        Step::Edit {
            search_query: "nonexistent".to_string(),
            edit_query: Some("tag:foo".to_string()),
            query_type: QueryType::Tag,
        }
    );
}

#[test]
fn test_dispatch_search_updates_state() {
    let mut state = State::new();
    let (step, _) =
        dispatched(Command::Search("*:*".to_string()), &mut state, ConfirmMode::Never);
    match step {
        Step::Search { query, page_start, purpose, .. } => {
            assert_eq!(page_start, 0);
            found(&query, page_start, purpose, &mut state);
        }
        other => panic!("unexpected step {:?}", other),
    }
    assert!(matches!(state, State::Searched { .. }));
    assert_eq!(state.last_query(), Some("*:*"));
}

#[test]
fn test_dispatch_tag_and_untag_refreshes_with_edit_search_query() {
    let mut state = State::new();
    found("extension:txt", 0, Purpose::Page, &mut state);
    assert_eq!(state.last_query(), Some("extension:txt"));

    let tagged = EditResponse { updated: 1, deleted: 0, fs_ops: 0, has_skipped: false };
    let mut out = String::new();
    let step = edit_done(
        "extension:txt & size:>0",
        QueryType::Tag,
        &tagged,
        &mut state,
        &mut out,
    );
    match step {
        Step::Search { query, page_start, purpose, .. } => {
            found(&query, page_start, purpose, &mut state);
        }
        other => panic!("unexpected step {:?}", other),
    }
    assert_eq!(state.last_query(), Some("extension:txt & size:>0"));

    let untagged = EditResponse { updated: 0, deleted: 1, fs_ops: 0, has_skipped: false };
    let step = edit_done("project:alpha", QueryType::Untag, &untagged, &mut state, &mut out);
    match step {
        Step::Search { query, page_start, purpose, .. } => {
            found(&query, page_start, purpose, &mut state);
        }
        other => panic!("unexpected step {:?}", other),
    }
    assert_eq!(state.last_query(), Some("project:alpha"));

    let nothing = EditResponse { updated: 0, deleted: 0, fs_ops: 0, has_skipped: false };
    let step = edit_done("x:y", QueryType::Tag, &nothing, &mut state, &mut out);
    assert_eq!(step, Step::Done(true));
    assert_eq!(state.last_query(), Some("project:alpha"));
}

#[test]
fn test_parse_clear_command() {
    assert_eq!(
        parse_command("clear", false).unwrap(),
        Command::ClearIndex { all: false }
    );
    assert_eq!(
        parse_command("clear all", false).unwrap(),
        Command::ClearIndex { all: true }
    );
    assert_eq!(
        parse_command("clear --all", false).unwrap(),
        Command::ClearIndex { all: true }
    );
    assert!(matches!(
        parse_command("clear", true),
        Err(CommandParseError::DisabledInSearched(ref s)) if s == "clear"
    ));
}

#[test]
fn test_dispatch_clear_index_prompt() {
    let mut state = State::new();
    let clear = || Command::ClearIndex { all: false };
    let (step, mut output) = dispatched(clear(), &mut state, ConfirmMode::Auto);
    assert_eq!(step, Step::AskClear { all: false });
    assert!(output.contains("[y/N]"), "{output}");
    let step = clear_answered(false, "n\n", &state, &mut output);
    assert_eq!(step, Step::Done(true));
    assert!(output.contains("Cancelled."));

    let (_, mut output_yes) = dispatched(clear(), &mut state, ConfirmMode::Auto);
    let step = clear_answered(false, "y\n", &state, &mut output_yes);
    assert_eq!(step, Step::Clear { all: false });
    cleared(false, &state, &mut output_yes);
    assert!(output_yes.contains("File indexes cleared successfully."));
}

#[test]
fn test_parse_prev_and_help() {
    assert!(matches!(
        parse_command("p", false),
        Err(CommandParseError::DisabledInInit('p'))
    ));
    assert_eq!(parse_command("p", true).unwrap(), Command::Prev);
    assert_eq!(parse_command("prev", true).unwrap(), Command::Prev);
    assert_eq!(parse_command("h", false).unwrap(), Command::Help);
    assert_eq!(parse_command("help", true).unwrap(), Command::Help);
}

#[test]
fn test_print_menu_init_and_searched() {
    let mut s = String::new();
    let state = State::new();
    print_menu(&mut s, &state);
    assert!(s.contains("Welcome to ttfm interactive mode"));
    assert!(!s.contains("Examples:"));
    assert!(s.contains("h : Help"));
    let q_pos = s.find("q : Quit").unwrap();
    let clear_pos = s.find("clear : Clear indexed files").unwrap();
    assert!(q_pos < clear_pos);

    let mut s_searched = String::new();
    let mut searched_state = State::new();
    searched_state.to_searched("foo".to_string(), None, 0, Some(10), false);
    print_menu(&mut s_searched, &searched_state);
    assert!(!s_searched.contains("Examples:"));
    assert!(s_searched
        .contains("s \x1b[2msearch\x1b[0m | t \x1b[2mtag\x1b[0m | u \x1b[2muntag\x1b[0m"));
}

#[test]
fn test_print_menu_searched_dynamic_hints() {
    let mut s_first = String::new();
    let mut st_first = State::new();
    st_first.to_searched_at_page("foo".to_string(), None, 0, 20, None, true);
    st_first.set_next_col_offset(Some(3));
    print_menu(&mut s_first, &st_first);
    assert!(s_first.contains("n \x1b[2mnext\x1b[0m"));
    assert!(!s_first.contains("p \x1b[2mprev\x1b[0m"));
    assert!(s_first.contains("> \x1b[2mshow right\x1b[0m"));
    assert!(!s_first.contains("< \x1b[2mshow left\x1b[0m"));

    let mut s_second = String::new();
    let mut st_second = State::new();
    st_second.to_searched_at_page("foo".to_string(), None, 20, 10, None, false);
    st_second.push_col_offset(3);
    print_menu(&mut s_second, &st_second);
    assert!(!s_second.contains("n \x1b[2mnext\x1b[0m"));
    assert!(s_second.contains("p \x1b[2mprev\x1b[0m"));
    assert!(!s_second.contains("> \x1b[2mshow right\x1b[0m"));
    assert!(s_second.contains("< \x1b[2mshow left\x1b[0m"));
}

#[test]
fn test_dispatch_quit_hierarchical() {
    let mut searched_state = State::new();
    searched_state.to_searched("foo".to_string(), Some("cid".to_string()), 0, Some(10), false);

    let (step, _) = dispatched(Command::Quit, &mut searched_state, ConfirmMode::Never);
    assert_eq!(step, Step::Done(true));
    assert!(matches!(searched_state, State::Init));

    let (step, _) = dispatched(Command::Quit, &mut searched_state, ConfirmMode::Never);
    assert_eq!(step, Step::Done(false));
}

#[test]
fn test_parse_search_command_quote_stripping() {
    assert_eq!(
        parse_command("s \"extension:rs\"", false).unwrap(),
        Command::Search("extension:rs".to_string())
    );
    assert_eq!(
        parse_command("s \"a:1\" | \"b:2\"", false).unwrap(),
        Command::Search("\"a:1\" | \"b:2\"".to_string())
    );
}

#[test]
fn test_dispatch_clear_index_confirm_never() {
    let mut state = State::new();
    let (step, mut output) = dispatched(
        Command::ClearIndex { all: false },
        &mut state,
        ConfirmMode::Never,
    );
    assert_eq!(step, Step::Clear { all: false });
    cleared(false, &state, &mut output);
    assert!(output.contains("File indexes cleared successfully."));
    assert!(!output.contains("[y/N]"));
}

#[test]
fn test_parse_and_dispatch_column_paging() {
    assert!(matches!(
        parse_command(">", false),
        Err(CommandParseError::DisabledInInit('>'))
    ));
    assert!(matches!(
        parse_command("<", false),
        Err(CommandParseError::DisabledInInit('<'))
    ));
    assert_eq!(parse_command(">", true).unwrap(), Command::NextCols);
    assert_eq!(parse_command("<", true).unwrap(), Command::PrevCols);

    let mut state = State::new();
    state.to_searched("dummy".to_string(), None, 0, Some(0), false);

    let (_, s_next) = dispatched(Command::NextCols, &mut state, ConfirmMode::Never);
    assert!(s_next.contains("No more columns."));

    let (_, s_prev) = dispatched(Command::PrevCols, &mut state, ConfirmMode::Never);
    assert!(s_prev.contains("Already at first columns."));
}

#[test]
fn test_execute_search_and_render_no_more_items_prints_menu() {
    let mut state = State::new();
    state.to_searched_at_page("ext:rs".to_string(), None, 0, 5, Some(5), false);
    let s = found("ext:rs", 20, Purpose::Page, &mut state);
    assert!(s.contains("No more items."), "{s}");
    assert!(s.contains("s \x1b[2msearch\x1b[0m"));
}

#[test]
fn test_print_help_output_and_ansi_handling() {
    for colors in [true, false] {
        let mut s = String::new();
        print_help(&mut s, colors);
        assert!(s.contains("TTFM Interactive Mode Help"));
        assert!(s.contains("Commands:"));
        assert!(s.contains("Syntax & Examples:"));
        assert!(s.contains("Basic Tags (type:label):"));
        assert!(s.contains("Set Operations (&, |, -):"));
        assert!(s.contains("Show types/labels/tags definitions & Storing:"));
        assert!(s.contains("# Search with TTQL query"));
        assert_eq!(s.contains("\x1b["), colors);
    }

    assert!(HELP_TEXT.contains("\x1b[2m"));
    assert!(HELP_TEXT.contains("\x1b[0m"));

    for line in HELP_TEXT.lines() {
        let visible_width = console::measure_text_width(line);
        assert!(
            visible_width <= 140,
            "Line exceeds 140 chars width ({}): {:?}",
            visible_width,
            line
        );
    }

    let stripped = console::strip_ansi_codes(HELP_TEXT);
    assert!(!stripped.contains("\x1b["));
}

#[test]
fn test_state_transitions_and_prompt() {
    let mut s = State::new();
    assert_eq!(s.prompt_string(), "");
    assert_eq!(s.last_query(), None);

    s.to_searched("extension:rs".to_string(), Some("cid-1".to_string()), 20, None, true);
    assert_eq!(s.prompt_string(), "[extension:rs] ");
    assert_eq!(s.last_query(), Some("extension:rs"));

    s.to_searched("extension:rs".to_string(), None, 5, Some(5), false);
    assert_eq!(s.prompt_string(), "[extension:rs] ");

    s.clear();
    assert_eq!(s, State::Init);
}

#[test]
fn test_state_col_offset_navigation_and_reset() {
    let mut s = State::new();
    assert_eq!(s.current_col_offset(), 0);
    assert!(!s.can_prev_cols());

    s.to_searched_at_page("ext:rs".to_string(), None, 0, 20, None, true);
    assert_eq!(s.current_col_offset(), 0);
    assert!(!s.can_prev_cols());

    s.set_next_col_offset(Some(3));
    s.push_col_offset(3);
    assert_eq!(s.current_col_offset(), 3);
    assert!(s.can_prev_cols());

    s.set_next_col_offset(Some(5));
    s.push_col_offset(5);
    assert_eq!(s.current_col_offset(), 5);

    assert_eq!(s.pop_col_offset(), Some(5));
    assert_eq!(s.current_col_offset(), 3);
    assert!(s.can_prev_cols());

    assert_eq!(s.pop_col_offset(), Some(3));
    assert_eq!(s.current_col_offset(), 0);
    assert!(!s.can_prev_cols());
    assert_eq!(s.pop_col_offset(), None);

    s.push_col_offset(4);
    s.to_searched_at_page("ext:rs".to_string(), None, 20, 20, None, true);
    assert_eq!(s.current_col_offset(), 0);
    assert!(!s.can_prev_cols());
}

fn searched(query: &str) -> State {
    let mut state = State::new();
    state.to_searched(query.to_string(), None, 10, Some(10), false);
    state
}

#[test]
fn test_hinter_quoted_output_for_tags() {
    let mut hinter = InteractiveHinter::new();
    let hint = |h: &mut InteractiveHinter, state: &State, line: &str| {
        h.handle(line, state, ".", 0, false)
    };
    assert_eq!(hint(&mut hinter, &State::new(), "t "), "");
    let state = searched("ext:rs & fn:\"a b\"");
    assert_eq!(hint(&mut hinter, &state, "t "), "\"ext:rs & fn:\\\"a b\\\"\" ");
    assert_eq!(hinter.complete_hint(), "\"ext:rs & fn:\\\"a b\\\"\" ");
    assert_eq!(hinter.next_hint_token(), "\"ext:rs");
}

#[test]
fn test_hinter_edited_clears_hint() {
    let state = searched("ext:rs");
    let mut hinter = InteractiveHinter::new();
    assert_eq!(hinter.handle("s ", &state, ".", 0, false), "ext:rs");
    assert_eq!(hinter.handle("s a", &state, ".", 0, false), "");
    assert_eq!(hinter.handle("s ", &state, ".", 0, false), "");
    assert_eq!(hinter.complete_hint(), "");
    assert_eq!(hinter.handle("", &state, ".", 0, false), "");
    assert_eq!(hinter.handle("s ", &state, ".", 0, false), "ext:rs");
}

#[test]
fn test_hinter_quoted_path_with_spaces() {
    let mut hinter = InteractiveHinter::new();
    assert_eq!(
        hinter.handle("i ", &State::new(), "dir with spaces", 0, false),
        "\"dir with spaces\""
    );
}

#[test]
fn test_completer_span_offset_calculation() {
    match complete("i src/m", false) {
        Completion::Entries { dir, prefix, word } => {
            assert_eq!(word, "src/m");
            let entries =
                vec![("main.rs".to_string(), false), ("models".to_string(), true), ("lib.rs".to_string(), false)];
            let suggestions = suggest(&dir, &prefix, &entries);
            assert!(!suggestions.is_empty());
            assert!(suggestions.iter().any(|s| s.value.starts_with("src/m")));
            assert_eq!("i src/m".len() - word.len(), 2);
            let values: Vec<&str> = suggestions.iter().map(|s| s.value.as_str()).collect();
            assert_eq!(values, vec!["src/main.rs", "src/models/"]);
            assert!(suggestions[0].append_whitespace);
            assert!(!suggestions[1].append_whitespace);
        }
        other => panic!("unexpected completion {:?}", other),
    }
    assert!(matches!(complete("i src/m", true), Completion::Nothing));
    assert!(matches!(complete("s src/m", false), Completion::Nothing));
}

#[test]
fn test_completer_tilde_expansion() {
    assert!(matches!(complete("i ~", false), Completion::Home));
    match complete("i ~/", false) {
        Completion::Entries { dir, .. } => {
            assert_eq!(read_directory(&dir, Some("/home/me")), "/home/me/");
        }
        other => panic!("unexpected completion {:?}", other),
    }
    assert_eq!(read_directory("", Some("/home/me")), ".");
    assert_eq!(
        expand_paths(&vec!["~/a".to_string(), "b".to_string()], Some("/home/me")),
        vec!["/home/me/a", "b"]
    );
}

#[test]
fn test_hinter_initial_default_query() {
    let mut hinter = InteractiveHinter::new();
    assert_eq!(hinter.handle("s ", &State::new(), ".", 0, false), "*:*");
    assert_eq!(hinter.handle("s", &State::new(), ".", 0, false), " *:*");
}

#[test]
fn test_hinter_tracks_current_line() {
    let mut hinter = InteractiveHinter::new();
    assert_eq!(hinter.current_line, "");
    hinter.handle("s foo", &State::new(), ".", 0, false);
    assert_eq!(hinter.current_line, "s foo");
    hinter.reset();
    assert_eq!(hinter.current_line, "");
}

#[test]
fn test_hinter_ansi_coloring_applies_dimmed_style() {
    let state = searched("ext:rs");
    let mut hinter = InteractiveHinter::new();
    let uncolored = hinter.handle("s ", &state, ".", 0, false);
    assert_eq!(uncolored, "ext:rs");

    let colored = hinter.handle("s ", &state, ".", 0, true);
    assert_eq!(colored, "\x1b[2mext:rs\x1b[0m");

    assert_eq!(hinter.complete_hint(), "ext:rs");
}

#[test]
fn test_hinter_transient_message() {
    let mut hinter = InteractiveHinter::new();
    hinter.set_transient_message(" (no matches)");
    let colored = hinter.handle("s foo", &State::new(), ".", 0, true);
    assert_eq!(colored, "\x1b[2m (no matches)\x1b[0m");

    hinter.clear_transient_message();
    let cleared = hinter.handle("s foo", &State::new(), ".", 0, true);
    assert_eq!(cleared, "");
}

#[test]
fn messages_go_after_a_while() {
    let mut hinter = InteractiveHinter::new();
    hinter.set_transient_message(" (no matches)");
    assert_eq!(hinter.handle("s foo", &State::new(), ".", 60_000, false), "");
    assert_eq!(hinter.transient_message, None);
}

#[test]
fn test_runner_stream_quit() {
    let mut state = State::new();
    let mut output = String::new();
    let mut err_out = String::new();
    pipe_warning(true, &mut err_out);
    assert_eq!(err_out, "");
    assert!(matches!(open_session(None, true, &state, &mut output), LineStep::Skip));
    match take_line("q\n", &state) {
        LineStep::Run(cmd) => {
            assert_eq!(dispatched(cmd, &mut state, ConfirmMode::Never).0, Step::Done(false));
        }
        other => panic!("unexpected step {:?}", other),
    }
}

#[test]
fn test_interactive_edit_mode_esc_behavior() {
    let esc = |line: &str, searched: bool| {
        handle_reedline_event(KeyEvent::Esc, line, searched, false, false).0
    };
    assert_eq!(esc("", false), Reaction::Nothing);
    assert_eq!(esc("some input", false), Reaction::ClearLine);
    assert_eq!(esc("some input", true), Reaction::ClearLine);
    assert_eq!(esc("", true), Reaction::LeaveSearch);
}

#[test]
fn test_interactive_edit_mode_tab_no_matches() {
    let tab = handle_reedline_event(KeyEvent::Complete, "s foo", false, false, false);
    assert_eq!(tab, (Reaction::Repaint, MessageChange::NoMatches));
    let left = handle_reedline_event(KeyEvent::MenuLeft, "s foo", false, false, false);
    assert_eq!(left.0, Reaction::Left);
    assert_eq!(left.1, MessageChange::Clear);
    let with_hint = handle_reedline_event(KeyEvent::Complete, "s", false, true, false);
    assert_eq!(with_hint.0, Reaction::AsUsual);
}

#[test]
fn an_interrupted_empty_line_leaves_the_search() {
    let mut state = searched("ext:rs");
    let mut output = String::new();
    interrupted("typing", &mut state, &mut output);
    assert!(matches!(state, State::Searched { .. }));
    assert_eq!(output, "");
    interrupted("  ", &mut state, &mut output);
    assert_eq!(state, State::Init);
    assert!(output.contains("Welcome"));
}

#[test]
fn failures_are_told() {
    let mut state = searched("ext:rs");
    let (mut out, mut err) = (String::new(), String::new());
    assert_eq!(
        search_failed(Purpose::Page, "broken", &mut state, &mut out, &mut err).unwrap_err(),
        "broken"
    );
    assert!(search_failed(Purpose::Refresh, "broken", &mut state, &mut out, &mut err).is_ok());
    assert_eq!(err, "Error refreshing search: broken\n");
    assert_eq!(state, State::Init);
    edit_failed("no", &mut state, &mut out, &mut err);
    assert!(err.ends_with("Error: no\n"));
    match take_line("bogus", &State::new()) {
        LineStep::Complain(s) => assert!(!s.is_empty()),
        other => panic!("unexpected step {:?}", other),
    }
    assert!(matches!(take_line("   ", &State::new()), LineStep::Skip));
}

#[test]
fn pages_go_forth_and_back() {
    let mut state = State::new();
    state.to_searched_at_page("q".to_string(), Some("c".to_string()), 0, 20, None, true);
    let (step, _) = dispatched(Command::Next, &mut state, ConfirmMode::Never);
    assert!(matches!(step, Step::Search { page_start: 20, .. }));
    state.to_searched_at_page("q".to_string(), Some("c".to_string()), 20, 20, None, true);
    let (step, _) = dispatched(Command::Prev, &mut state, ConfirmMode::Never);
    assert!(matches!(step, Step::Search { page_start: 0, .. }));
}

#[test]
fn indexing_remembers_its_first_path() {
    let mut state = State::new();
    let (step, _) = dispatched(
        Command::Index(vec!["~/docs".to_string()]),
        &mut state,
        ConfirmMode::Never,
    );
    assert_eq!(
        step,
        Step::Index {
            given: vec!["~/docs".to_string()],
            paths: vec!["/home/me/docs".to_string()],
        }
    );
    let (mut last, mut out) = (".".to_string(), String::new());
    index_done(&vec!["~/docs".to_string()], 7, &mut last, &mut out);
    assert_eq!(last, "~/docs");
    assert_eq!(out, "Indexed 7 files.\n");
    assert_eq!(parse_paths("a \"b c\""), vec!["a", "b c"]);
}

#[test]
fn the_completion_key_goes_before_moves() {
    let tab = vec![KeyPart::Other, KeyPart::MenuLeft, KeyPart::CompletionMenu];
    assert_eq!(key_from_parts(&tab), KeyEvent::Complete);
    let both = vec![KeyPart::MenuDown, KeyPart::MenuRight, KeyPart::MenuUp];
    assert_eq!(key_from_parts(&both), KeyEvent::MenuRight);
    assert_eq!(key_from_parts(&vec![KeyPart::MenuDown, KeyPart::MenuUp]), KeyEvent::MenuUp);
    assert_eq!(key_from_parts(&vec![KeyPart::MenuRight, KeyPart::MenuLeft]), KeyEvent::MenuLeft);
    assert_eq!(key_from_parts(&vec![KeyPart::MenuDown]), KeyEvent::MenuDown);
    assert_eq!(key_from_parts(&vec![KeyPart::Other]), KeyEvent::Other);
}

#[test]
fn a_hinter_starts_with_the_line_it_is_given() {
    let hinter = InteractiveHinter::with_current_line("s foo".to_string());
    assert_eq!(hinter.current_line, "s foo");
    assert_eq!(hinter.complete_hint(), "");
    assert!(hinter.transient_message.is_none());
}
