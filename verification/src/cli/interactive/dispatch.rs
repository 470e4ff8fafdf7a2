//! What comes of a command: what is shown at once, what has to be done outside, and what is
//! shown once that is done.
use crate::cli::interactive::command::{Command, CommandModel, INTERACTIVE_PAGE_SIZE};
use crate::cli::interactive::menu;
use crate::cli::interactive::menu::{print_help, print_menu};
use crate::cli::interactive::state;
use crate::cli::interactive::state::{PageModel, State, StateModel};
use crate::cli::table;
use crate::config::ConfirmMode;
use crate::edit::{EditResponse, QueryType};
use crate::path;
use crate::text;
use vstd::prelude::*;

verus! {

/// What a search is made for: to show a page, to show other columns of the page, or to show
/// what an edit has changed.
#[derive(Clone, Copy, Debug, PartialEq, Eq, Structural)]
pub enum Purpose {
    Page,
    Columns,
    Refresh,
}

/// What has to be done next.
#[derive(Debug, PartialEq, Eq)]
pub enum Step {
    /// A search for a page, which starts at a result.
    Search { query: String, page_start: usize, cid: Option<String>, purpose: Purpose },
    Edit { search_query: String, edit_query: Option<String>, query_type: QueryType },
    /// The indexing of paths, which were given in some form.
    Index { given: Vec<String>, paths: Vec<String> },
    /// The reading of an answer.
    AskClear { all: bool },
    Clear { all: bool },
    /// Nothing more; says whether the mode goes on.
    Done(bool),
}

#[verifier::ext_equal]
pub enum StepModel {
    Search(Seq<char>, usize, Option<Seq<char>>, Purpose),
    Edit(Seq<char>, Option<Seq<char>>, QueryType),
    Index(Seq<Seq<char>>, Seq<Seq<char>>),
    AskClear(bool),
    Clear(bool),
    Done(bool),
}

impl View for Step {
    type V = StepModel;

    open spec fn view(&self) -> StepModel {
        match *self {
            Step::Search { query, page_start, cid, purpose } => StepModel::Search(
                query@,
                page_start,
                state::opt_text(cid),
                purpose,
            ),
            Step::Edit { search_query, edit_query, query_type } => StepModel::Edit(
                search_query@,
                state::opt_text(edit_query),
                query_type,
            ),
            Step::Index { given, paths } => StepModel::Index(
                text::texts(given@),
                text::texts(paths@),
            ),
            Step::AskClear { all } => StepModel::AskClear(all),
            Step::Clear { all } => StepModel::Clear(all),
            Step::Done(b) => StepModel::Done(b),
        }
    }
}

// ---------------------------------------------------------------------------
// Paths in the home directory
// ---------------------------------------------------------------------------

/// A path as it is meant: one that starts with a tilde lies in the home directory, if that
/// is known.
pub open spec fn expanded(p: Seq<char>, home: Option<Seq<char>>) -> Seq<char> {
    match home {
        None => p,
        Some(h) => if p == "~"@ {
            h
        } else if p.len() >= 2 && p[0] == '~' && p[1] == '/' {
            path::joined_to(h, p.skip(2))
        } else {
            p
        },
    }
}

pub open spec fn expanded_all(ps: Seq<Seq<char>>, home: Option<Seq<char>>) -> Seq<Seq<char>> {
    ps.map_values(|p: Seq<char>| expanded(p, home))
}

pub open spec fn str_model(o: Option<&str>) -> Option<Seq<char>> {
    match o {
        Some(s) => Some(s@),
        None => None,
    }
}

pub(crate) fn expand(p: &str, home: Option<&str>) -> (r: String)
    ensures
        r@ == expanded(p@, str_model(home)),
{
    let h = match home {
        None => {
            return p.to_string();
        },
        Some(h) => h,
    };
    if text::str_eq(p, "~") {
        return h.to_string();
    }
    let cs = text::chars_of(p);
    if cs.len() >= 2 && cs[0] == '~' && cs[1] == '/' {
        let rest = text::slice_text(&cs, 2, cs.len());
        proof {
            assert(rest@ =~= p@.skip(2));
        }
        return path::join_path(h, rest.as_str());
    }
    p.to_string()
}

/// Paths as they are meant.
pub fn expand_paths(ps: &Vec<String>, home: Option<&str>) -> (r: Vec<String>)
    ensures
        text::texts(r@) == expanded_all(text::texts(ps@), str_model(home)),
{
    let mut out: Vec<String> = Vec::new();
    let mut i: usize = 0;
    while i < ps.len()
        invariant
            i <= ps@.len(),
            out@.len() == i,
            forall|k: int|
                0 <= k < i ==> (#[trigger] out@[k])@ == expanded(ps@[k]@, str_model(home)),
        decreases ps.len() - i,
    {
        out.push(expand(ps[i].as_str(), home));
        i += 1;
    }
    proof {
        assert(text::texts(out@) =~= expanded_all(text::texts(ps@), str_model(home)));
    }
    out
}

// ---------------------------------------------------------------------------
// Commands
// ---------------------------------------------------------------------------

/// What comes of a command: what has to be done, the state, and what is shown at once.
pub struct Outcome {
    pub step: StepModel,
    pub state: StateModel,
    pub shown: Seq<char>,
}

/// A line and the menu, after which the mode goes on.
pub open spec fn told(s: StateModel, line: Seq<char>) -> Outcome {
    Outcome { step: StepModel::Done(true), state: s, shown: line + menu::menu_text(s) }
}

pub open spec fn quietly(s: StateModel, step: StepModel) -> Outcome {
    Outcome { step, state: s, shown: Seq::empty() }
}

pub open spec fn edit_step(search: Seq<char>, edit: Seq<char>, qt: QueryType) -> StepModel {
    StepModel::Edit(
        search,
        if edit.len() == 0 {
            None
        } else {
            Some(edit)
        },
        qt,
    )
}

/// The start of the page before one.
pub open spec fn page_before(page_start: usize) -> usize {
    if page_start < INTERACTIVE_PAGE_SIZE {
        0
    } else {
        (page_start - INTERACTIVE_PAGE_SIZE) as usize
    }
}

pub open spec fn clear_question(all: bool) -> Seq<char> {
    if all {
        "Clear entire database including user tags? [y/N]: "@
    } else {
        "Clear indexed files? [y/N]: "@
    }
}

/// The search that shows other columns of the page of a state.
pub open spec fn columns_search(s: StateModel) -> StepModel {
    match s {
        StateModel::Init => StepModel::Done(true),
        StateModel::Searched(p) => StepModel::Search(
            p.query,
            p.page_start,
            p.cid,
            Purpose::Columns,
        ),
    }
}

/// What comes of a command in a state.
pub open spec fn dispatched(
    cmd: CommandModel,
    s: StateModel,
    confirm: ConfirmMode,
    home: Option<Seq<char>>,
    colors: bool,
) -> Outcome {
    match cmd {
        CommandModel::Search(q) => quietly(s, StepModel::Search(q, 0, None, Purpose::Page)),
        CommandModel::Tag(q, e) => quietly(s, edit_step(q, e, QueryType::Tag)),
        CommandModel::Untag(q, e) => quietly(s, edit_step(q, e, QueryType::Untag)),
        CommandModel::Next => match s {
            StateModel::Init => quietly(s, StepModel::Done(true)),
            StateModel::Searched(p) => quietly(
                s,
                StepModel::Search(p.query, p.offset, p.cid, Purpose::Page),
            ),
        },
        CommandModel::Prev => match s {
            StateModel::Init => quietly(s, StepModel::Done(true)),
            StateModel::Searched(p) => if p.page_start == 0 {
                told(s, "Already at first page.\n"@)
            } else {
                quietly(
                    s,
                    StepModel::Search(p.query, page_before(p.page_start), p.cid, Purpose::Page),
                )
            },
        },
        CommandModel::NextCols => match s {
            StateModel::Searched(p) if p.next_col_offset is Some => quietly(
                s.pushed(p.next_col_offset->0),
                columns_search(s),
            ),
            _ => told(s, "No more columns.\n"@),
        },
        CommandModel::PrevCols => if s.can_prev() {
            quietly(s.popped(), columns_search(s))
        } else {
            told(s, "Already at first columns.\n"@)
        },
        CommandModel::Index(ps) => quietly(s, StepModel::Index(ps, expanded_all(ps, home))),
        CommandModel::ClearIndex(all) => if confirm != ConfirmMode::Never {
            Outcome { step: StepModel::AskClear(all), state: s, shown: clear_question(all) }
        } else {
            quietly(s, StepModel::Clear(all))
        },
        CommandModel::Help => told(s, menu::help_text(colors)),
        CommandModel::Menu => told(s, Seq::empty()),
        CommandModel::Quit => match s {
            StateModel::Searched(_) => told(StateModel::Init, Seq::empty()),
            StateModel::Init => quietly(s, StepModel::Done(false)),
        },
    }
}

/// The mode ends by quitting before a search only; quitting after one leads back to the
/// start.
pub proof fn law_only_quitting_ends(
    cmd: CommandModel,
    s: StateModel,
    confirm: ConfirmMode,
    home: Option<Seq<char>>,
    colors: bool,
)
    ensures
        dispatched(cmd, s, confirm, home, colors).step == StepModel::Done(false) <==> cmd is Quit
            && s is Init,
        cmd is Quit && s is Searched ==> dispatched(cmd, s, confirm, home, colors).state is Init,
{
}

/// Going on by a full page and back again asks for the page that was shown.
pub proof fn law_pages_forth_and_back(
    p: PageModel,
    found: usize,
    cid: Option<Seq<char>>,
    total: Option<usize>,
    more: bool,
    confirm: ConfirmMode,
    home: Option<Seq<char>>,
    colors: bool,
)
    requires
        p.offset == p.page_start + INTERACTIVE_PAGE_SIZE,
        p.offset + found <= usize::MAX,
    ensures
        ({
            let next = StateModel::Searched(
                state::fresh_page(p.query, cid, p.offset, found, total, more),
            );
            &&& dispatched(
                CommandModel::Next,
                StateModel::Searched(p),
                confirm,
                home,
                colors,
            ).step == StepModel::Search(p.query, p.offset, p.cid, Purpose::Page)
            &&& dispatched(CommandModel::Prev, next, confirm, home, colors).step
                == StepModel::Search(p.query, p.page_start, cid, Purpose::Page)
        }),
{
}

fn line_and_menu(output: &mut String, state: &State, line: &str)
    ensures
        final(output)@ == old(output)@ + (line@ + menu::menu_text(state@)),
{
    let ghost before = output@;
    output.append(line);
    print_menu(output, state);
    proof {
        assert(output@ =~= before + (line@ + menu::menu_text(state@)));
    }
}

fn edit_of(search_query: String, edit_query: String, query_type: QueryType) -> (r: Step)
    ensures
        r@ == edit_step(search_query@, edit_query@, query_type),
{
    let empty = text::chars_of(edit_query.as_str()).len() == 0;
    let edit = if empty {
        None
    } else {
        Some(edit_query)
    };
    Step::Edit { search_query, edit_query: edit, query_type }
}

fn columns_of(state: &State) -> (r: Step)
    ensures
        r@ == columns_search(state@),
{
    match state {
        State::Init => Step::Done(true),
        State::Searched { query, cid, page_start, .. } => Step::Search {
            query: query.clone(),
            page_start: *page_start,
            cid: copy_opt(cid),
            purpose: Purpose::Columns,
        },
    }
}

fn copy_opt(o: &Option<String>) -> (r: Option<String>)
    ensures
        state::opt_text(r) == state::opt_text(*o),
{
    match o {
        Some(s) => Some(s.clone()),
        None => None,
    }
}

/// Takes a command: shows what can be shown at once, and says what has to be done.
pub fn dispatch_command(
    cmd: Command,
    state: &mut State,
    confirm: ConfirmMode,
    home: Option<&str>,
    colors: bool,
    output: &mut String,
) -> (r: Step)
    ensures
        ({
            let want = dispatched(cmd@, old(state)@, confirm, str_model(home), colors);
            &&& r@ == want.step
            &&& final(state)@ == want.state
            &&& final(output)@ == old(output)@ + want.shown
        }),
{
    let ghost s = state@;
    let ghost before = output@;
    let ghost want = dispatched(cmd@, s, confirm, str_model(home), colors);
    proof {
        assert(before + Seq::<char>::empty() =~= before);
    }
    match cmd {
        Command::Search(q) => Step::Search {
            query: q,
            page_start: 0,
            cid: None,
            purpose: Purpose::Page,
        },
        Command::Tag { search_query, edit_query } => edit_of(
            search_query,
            edit_query,
            QueryType::Tag,
        ),
        Command::Untag { search_query, edit_query } => edit_of(
            search_query,
            edit_query,
            QueryType::Untag,
        ),
        Command::Next => match state {
            State::Init => Step::Done(true),
            State::Searched { query, cid, offset, .. } => Step::Search {
                query: query.clone(),
                page_start: *offset,
                cid: copy_opt(cid),
                purpose: Purpose::Page,
            },
        },
        Command::Prev => turn_back(state, output),
        Command::NextCols => {
            let next = match state {
                State::Searched { next_col_offset, .. } => *next_col_offset,
                State::Init => None,
            };
            match next {
                Some(n) => {
                    let step = columns_of(state);
                    state.push_col_offset(n);
                    step
                },
                None => {
                    line_and_menu(output, state, "No more columns.\n");
                    Step::Done(true)
                },
            }
        },
        Command::PrevCols => {
            if state.can_prev_cols() {
                let step = columns_of(state);
                state.pop_col_offset();
                step
            } else {
                line_and_menu(output, state, "Already at first columns.\n");
                Step::Done(true)
            }
        },
        Command::Index(given) => {
            let paths = expand_paths(&given, home);
            Step::Index { given, paths }
        },
        Command::ClearIndex { all } => {
            if confirm != ConfirmMode::Never {
                if all {
                    output.append("Clear entire database including user tags? [y/N]: ");
                } else {
                    output.append("Clear indexed files? [y/N]: ");
                }
                Step::AskClear { all }
            } else {
                Step::Clear { all }
            }
        },
        Command::Help => {
            print_help(output, colors);
            print_menu(output, state);
            proof {
                assert(output@ =~= before + want.shown);
            }
            Step::Done(true)
        },
        Command::Menu => {
            print_menu(output, state);
            proof {
                assert(output@ =~= before + want.shown);
            }
            Step::Done(true)
        },
        Command::Quit => {
            let searched = match state {
                State::Searched { .. } => true,
                State::Init => false,
            };
            if searched {
                state.clear();
                print_menu(output, state);
                proof {
                    assert(output@ =~= before + want.shown);
                }
                Step::Done(true)
            } else {
                Step::Done(false)
            }
        },
    }
}

fn turn_back(state: &State, output: &mut String) -> (r: Step)
    ensures
        match state@ {
            StateModel::Init => r@ == StepModel::Done(true) && final(output)@ == old(output)@,
            StateModel::Searched(p) => if p.page_start == 0 {
                r@ == StepModel::Done(true) && final(output)@ == old(output)@ + (
                "Already at first page.\n"@ + menu::menu_text(state@))
            } else {
                r@ == StepModel::Search(p.query, page_before(p.page_start), p.cid, Purpose::Page)
                    && final(output)@ == old(output)@
            },
        },
{
    match state {
        State::Init => Step::Done(true),
        State::Searched { query, cid, page_start, .. } => {
            if *page_start == 0 {
                line_and_menu(output, state, "Already at first page.\n");
                Step::Done(true)
            } else {
                let start = if *page_start < INTERACTIVE_PAGE_SIZE {
                    0
                } else {
                    *page_start - INTERACTIVE_PAGE_SIZE
                };
                Step::Search {
                    query: query.clone(),
                    page_start: start,
                    cid: copy_opt(cid),
                    purpose: Purpose::Page,
                }
            }
        },
    }
}

// ---------------------------------------------------------------------------
// After a search
// ---------------------------------------------------------------------------

/// How many results an answer has.
pub open spec fn found_count(r: crate::cli::format::ResponseModel) -> int {
    match r.results {
        crate::cli::format::ResultsModel::Items(_, _, n) => n as int,
        crate::cli::format::ResultsModel::Labels(ls) => ls.len() as int,
    }
}

fn count_of(r: &crate::cli::format::SearchResponse) -> (n: usize)
    ensures
        n == found_count(r@),
{
    match &r.results {
        crate::cli::format::Results::Items { count, .. } => *count,
        crate::cli::format::Results::Labels(ls) => {
            proof {
                assert(crate::cli::format::label_models(ls@).len() == ls@.len());
            }
            ls.len()
        },
    }
}

/// How a page is shown in a state: from the column that the state is at.
pub open spec fn page_options(s: StateModel) -> crate::cli::format::FormatOptions {
    crate::cli::format::FormatOptions {
        is_interactive: true,
        wide: false,
        col_offset: s.col_offset(),
        current_offset: match s {
            StateModel::Searched(p) => Some(p.offset),
            StateModel::Init => None,
        },
    }
}

/// A page with its menu, and the state that knows of its further columns.
pub open spec fn rendered(
    ranks: Seq<(Seq<char>, i64)>,
    r: crate::cli::format::ResponseModel,
    query: Seq<char>,
    s: StateModel,
    terminal: usize,
) -> (StateModel, Seq<char>) {
    let shown = crate::cli::format::shown_results(ranks, r, query, terminal, page_options(s));
    let after = s.with_next(
        if shown.1.has_next {
            Some(shown.1.next_col_offset)
        } else {
            None
        },
    );
    (after, shown.0 + menu::menu_text(after))
}

fn render_response(
    type_ranks: &Vec<(String, i64)>,
    resp: &crate::cli::format::SearchResponse,
    query: &str,
    state: &mut State,
    terminal_width: usize,
    output: &mut String,
)
    ensures
        ({
            let want = rendered(
                table::rank_models(type_ranks@),
                resp@,
                query@,
                old(state)@,
                terminal_width,
            );
            final(state)@ == want.0 && final(output)@ == old(output)@ + want.1
        }),
{
    let ghost before = output@;
    let ghost s = state@;
    let current_offset = match state {
        State::Searched { offset, .. } => Some(*offset),
        State::Init => None,
    };
    let options = crate::cli::format::FormatOptions {
        is_interactive: true,
        wide: false,
        col_offset: state.current_col_offset(),
        current_offset,
    };
    let paging = crate::cli::format::print_results_with_options(
        type_ranks,
        resp,
        query,
        INTERACTIVE_PAGE_SIZE,
        output,
        terminal_width,
        options,
    );
    let next = if paging.has_next {
        Some(paging.next_col_offset)
    } else {
        None
    };
    state.set_next_col_offset(next);
    print_menu(output, state);
    proof {
        let want = rendered(
            table::rank_models(type_ranks@),
            resp@,
            query@,
            s,
            terminal_width,
        );
        assert(output@ =~= before + want.1);
    }
}

/// The state after a page behind the last one was asked for.
pub open spec fn at_the_end(s: StateModel) -> StateModel {
    match s {
        StateModel::Init => StateModel::Init,
        StateModel::Searched(p) => StateModel::Searched(
            PageModel { has_more: false, next_col_offset: None, ..p },
        ),
    }
}

/// What comes of an answer to a search: other columns of the page that the state is at, or a
/// new page; a page without results behind the first one changes nothing.
pub open spec fn found(
    ranks: Seq<(Seq<char>, i64)>,
    r: crate::cli::format::ResponseModel,
    query: Seq<char>,
    page_start: usize,
    purpose: Purpose,
    s: StateModel,
    terminal: usize,
) -> (StateModel, Seq<char>) {
    if purpose == Purpose::Columns {
        rendered(ranks, r, query, s, terminal)
    } else if page_start > 0 && found_count(r) == 0 {
        (at_the_end(s), "No more items.\n"@ + menu::menu_text(at_the_end(s)))
    } else {
        rendered(
            ranks,
            r,
            query,
            StateModel::Searched(
                state::fresh_page(
                    query,
                    r.cid,
                    page_start,
                    found_count(r) as usize,
                    r.total_count,
                    r.has_more,
                ),
            ),
            terminal,
        )
    }
}

/// Takes the answer to a search and shows it.
pub fn search_found(
    type_ranks: &Vec<(String, i64)>,
    resp: &crate::cli::format::SearchResponse,
    query: &str,
    page_start: usize,
    purpose: Purpose,
    state: &mut State,
    terminal_width: usize,
    output: &mut String,
)
    requires
        page_start + found_count(resp@) <= usize::MAX,
    ensures
        ({
            let want = found(
                table::rank_models(type_ranks@),
                resp@,
                query@,
                page_start,
                purpose,
                old(state)@,
                terminal_width,
            );
            final(state)@ == want.0 && final(output)@ == old(output)@ + want.1
        }),
{
    if let Purpose::Columns = purpose {
        render_response(type_ranks, resp, query, state, terminal_width, output);
        return ;
    }
    let count = count_of(resp);
    if page_start > 0 && count == 0 {
        match state {
            State::Searched { has_more, next_col_offset, .. } => {
                *has_more = false;
                *next_col_offset = None;
            },
            State::Init => {},
        }
        line_and_menu(output, state, "No more items.\n");
        return ;
    }
    state.to_searched_at_page(
        query.to_string(),
        copy_opt(&resp.cid),
        page_start,
        count,
        resp.total_count,
        resp.has_more,
    );
    render_response(type_ranks, resp, query, state, terminal_width, output);
}

/// Takes the failure of a search. Where an edit was to be shown, the search is forgotten and
/// the failure told; else the failure is that of the command.
pub fn search_failed(
    purpose: Purpose,
    error: &str,
    state: &mut State,
    output: &mut String,
    err_out: &mut String,
) -> (r: Result<(), String>)
    ensures
        if purpose == Purpose::Refresh {
            &&& r is Ok
            &&& final(state)@ == StateModel::Init
            &&& final(output)@ == old(output)@ + menu::menu_text(StateModel::Init)
            &&& final(err_out)@ == old(err_out)@ + "Error refreshing search: "@ + error@ + "\n"@
        } else {
            &&& r matches Err(e) && e@ == error@
            &&& final(state)@ == old(state)@
            &&& final(output)@ == old(output)@
            &&& final(err_out)@ == old(err_out)@
        },
{
    match purpose {
        Purpose::Refresh => {
            err_out.append("Error refreshing search: ");
            err_out.append(error);
            err_out.append("\n");
            state.clear();
            print_menu(output, state);
            Ok(())
        },
        _ => Err(error.to_string()),
    }
}

// ---------------------------------------------------------------------------
// After an edit
// ---------------------------------------------------------------------------

/// Whether an edit changed anything.
pub open spec fn changed(r: EditResponse) -> bool {
    r.updated > 0 || r.deleted > 0 || r.fs_ops > 0
}

pub open spec fn edit_line(qt: QueryType, r: EditResponse) -> Seq<char> {
    (match qt {
        QueryType::Tag => crate::cli::format::edit_text(
            "Updated"@,
            r.updated,
            r.fs_ops,
            r.has_skipped,
        ),
        QueryType::Untag => crate::cli::format::edit_text(
            "Deleted"@,
            r.deleted,
            r.fs_ops,
            r.has_skipped,
        ),
    }) + "\n"@
}

/// The state without the kept result of its search.
pub open spec fn uncached(s: StateModel) -> StateModel {
    match s {
        StateModel::Init => StateModel::Init,
        StateModel::Searched(p) => StateModel::Searched(PageModel { cid: None, ..p }),
    }
}

/// Takes what an edit did: tells it, and where it changed anything asks for the first page of
/// the items that it was made on.
pub fn edit_done(
    search_query: &str,
    query_type: QueryType,
    resp: &EditResponse,
    state: &mut State,
    output: &mut String,
) -> (r: Step)
    ensures
        final(output)@ == old(output)@ + edit_line(query_type, *resp),
        if changed(*resp) {
            r@ == StepModel::Search(search_query@, 0, None, Purpose::Refresh) && final(state)@
                == uncached(old(state)@)
        } else {
            r@ == StepModel::Done(true) && final(state)@ == old(state)@
        },
{
    let ghost before = output@;
    let line = match query_type {
        QueryType::Tag => crate::cli::format::format_tag_result(resp),
        QueryType::Untag => crate::cli::format::format_untag_result(resp),
    };
    output.append(line.as_str());
    output.append("\n");
    proof {
        assert(output@ =~= before + edit_line(query_type, *resp));
    }
    if resp.updated > 0 || resp.deleted > 0 || resp.fs_ops > 0 {
        match state {
            State::Searched { cid, .. } => {
                *cid = None;
            },
            State::Init => {},
        }
        Step::Search {
            query: search_query.to_string(),
            page_start: 0,
            cid: None,
            purpose: Purpose::Refresh,
        }
    } else {
        Step::Done(true)
    }
}

/// Takes the failure of an edit: tells it and forgets the search.
pub fn edit_failed(error: &str, state: &mut State, output: &mut String, err_out: &mut String)
    ensures
        final(state)@ == StateModel::Init,
        final(output)@ == old(output)@ + menu::menu_text(StateModel::Init),
        final(err_out)@ == old(err_out)@ + "Error: "@ + error@ + "\n"@,
{
    err_out.append("Error: ");
    err_out.append(error);
    err_out.append("\n");
    state.clear();
    print_menu(output, state);
}

/// After an edit that changed something, the state is at the first page of the items that the
/// edit was made on.
pub proof fn law_edits_show_their_items(
    ranks: Seq<(Seq<char>, i64)>,
    r: crate::cli::format::ResponseModel,
    query: Seq<char>,
    s: StateModel,
    terminal: usize,
)
    ensures
        found(ranks, r, query, 0, Purpose::Refresh, s, terminal).0 matches StateModel::Searched(p)
            && p.query == query && p.page_start == 0,
{
}

// ---------------------------------------------------------------------------
// After indexing and clearing
// ---------------------------------------------------------------------------

/// Takes the number of files that were indexed: tells it, and keeps the first of the paths
/// that were given.
pub fn index_done(given: &Vec<String>, n: usize, last_indexed_path: &mut String, output: &mut String)
    ensures
        final(output)@ == old(output)@ + "Indexed "@ + text::nat_text(n as nat) + " files.\n"@,
        final(last_indexed_path)@ == if given@.len() > 0 {
            given@[0]@
        } else {
            old(last_indexed_path)@
        },
{
    let shown = text::show_usize(n);
    output.append("Indexed ");
    output.append(shown.as_str());
    output.append(" files.\n");
    if given.len() > 0 {
        *last_indexed_path = given[0].clone();
    }
}

/// Whether an answer agrees to clearing.
pub open spec fn agrees_to_clear(line: Seq<char>) -> bool {
    let a = text::lowercase(text::trimmed(line));
    a == "y"@ || a == "yes"@
}

/// Takes the answer on clearing: clears where it agrees.
pub fn clear_answered(all: bool, line: &str, state: &State, output: &mut String) -> (r: Step)
    ensures
        if agrees_to_clear(line@) {
            r@ == StepModel::Clear(all) && final(output)@ == old(output)@
        } else {
            r@ == StepModel::Done(true) && final(output)@ == old(output)@ + ("Cancelled.\n"@
                + menu::menu_text(state@))
        },
{
    let bare = text::trim(line);
    let answer = text::to_lower(bare.as_str());
    if text::str_eq(answer.as_str(), "y") || text::str_eq(answer.as_str(), "yes") {
        Step::Clear { all }
    } else {
        line_and_menu(output, state, "Cancelled.\n");
        Step::Done(true)
    }
}

/// Tells that the index or the whole database is cleared.
pub fn cleared(all: bool, state: &State, output: &mut String)
    ensures
        final(output)@ == old(output)@ + ((if all {
            "Database cleared successfully.\n"@
        } else {
            "File indexes cleared successfully.\n"@
        }) + menu::menu_text(state@)),
{
    if all {
        line_and_menu(output, state, "Database cleared successfully.\n");
    } else {
        line_and_menu(output, state, "File indexes cleared successfully.\n");
    }
}

/// A command changes the state only by going to other columns or by quitting, and it shows a page
/// of the query that was searched for: a new search starts at the first result and knows of no
/// earlier one.
pub proof fn law_commands_keep_the_search(
    cmd: CommandModel,
    s: StateModel,
    confirm: ConfirmMode,
    home: Option<Seq<char>>,
    colors: bool,
)
    ensures
        !(cmd is NextCols || cmd is PrevCols || cmd is Quit) ==> dispatched(
            cmd,
            s,
            confirm,
            home,
            colors,
        ).state == s,
        dispatched(cmd, s, confirm, home, colors).step matches StepModel::Search(q, start, cid, _)
            ==> {
            ||| cmd == CommandModel::Search(q) && start == 0 && cid is None
            ||| s matches StateModel::Searched(p) && p.query == q && p.cid == cid && !(cmd is Search)
        },
        dispatched(cmd, s, confirm, home, colors).step matches StepModel::Edit(q, e, qt) ==> {
            ||| cmd matches CommandModel::Tag(x, y) && qt == QueryType::Tag && q == x && (match e {
                Some(t) => t == y,
                None => y.len() == 0,
            })
            ||| cmd matches CommandModel::Untag(x, y) && qt == QueryType::Untag && q == x && (match e {
                Some(t) => t == y,
                None => y.len() == 0,
            })
        },
{
}

/// Nothing is cleared without a command that says so, and without a question only where the
/// settings ask for none. What is cleared is what the command names.
pub proof fn law_nothing_is_cleared_unasked(
    cmd: CommandModel,
    s: StateModel,
    confirm: ConfirmMode,
    home: Option<Seq<char>>,
    colors: bool,
)
    ensures
        dispatched(cmd, s, confirm, home, colors).step matches StepModel::Clear(all) ==> cmd
            == CommandModel::ClearIndex(all) && confirm == ConfirmMode::Never,
        dispatched(cmd, s, confirm, home, colors).step matches StepModel::AskClear(all) ==> cmd
            == CommandModel::ClearIndex(all) && confirm != ConfirmMode::Never,
        cmd is ClearIndex ==> dispatched(cmd, s, confirm, home, colors).step is Clear
            || dispatched(cmd, s, confirm, home, colors).step is AskClear,
{
}

/// A name behind a tilde and a slash is that of a file in the home directory. A path that does
/// not start with a tilde stays as it is, and so does every path where there is no such
/// directory.
pub proof fn law_tilde_is_the_home_directory(p: Seq<char>, home: Seq<char>)
    ensures
        path::is_name(p) ==> (path::parent_of(expanded(seq!['~', '/'] + p, Some(home))) matches Some(
            d,
        ) && path::same(d, home)),
        path::is_name(p) && p != ".."@ ==> path::file_name_of(
            expanded(seq!['~', '/'] + p, Some(home)),
        ) == Some(p),
        expanded(seq!['~'], Some(home)) == home,
        p.len() == 0 || p[0] != '~' ==> expanded(p, Some(home)) == p,
        expanded(p, None) == p,
{
    reveal_strlit("~");
    assert("~"@ =~= seq!['~']);
    let q = seq!['~', '/'] + p;
    assert(q[0] == '~' && q[1] == '/');
    assert(q.skip(2) =~= p);
    assert(q.len() >= 2);
    if path::is_name(p) {
        path::law_joined_name_lies_in_the_directory(home, p);
    }
}

} // verus!
