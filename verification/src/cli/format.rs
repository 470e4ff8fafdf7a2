//! What is shown of the result of a search or an edit.
use crate::cli::table;
use crate::cli::table::{print_groups, GroupModel, TypeGroup};
use crate::cli::width;
use crate::cli::width::{measure, minus, plus};
use crate::edit::EditResponse;
use crate::item::Item;
use crate::text;
use crate::types::{ItemId, Origin, Progress};
use vstd::prelude::*;

pub use crate::cli::table::ColumnPagingInfo;
pub use crate::cli::width::{get_terminal_width, truncate_text, wrap_text_slices};

verus! {

// ---------------------------------------------------------------------------
// Warnings
// ---------------------------------------------------------------------------

/// Something that a query was warned of.
#[derive(Debug, PartialEq, Eq)]
pub struct Warning(pub String);

/// Takes warnings and writes them out at once, in color.
#[derive(Debug)]
pub struct ColorWarningSink {
    pub writer: String,
}

impl ColorWarningSink {
    /// Writes a warning.
    pub fn warn(&mut self, warning: &Warning)
        ensures
            final(self).writer@ == old(self).writer@ + "\x1b[1;33mWarning: "@ + warning.0@
                + "\x1b[0m\n"@,
    {
        let ghost before = self.writer@;
        self.writer.append("\x1b[1;33mWarning: ");
        self.writer.append(warning.0.as_str());
        self.writer.append("\x1b[0m\n");
        proof {
            assert(self.writer@ =~= before + "\x1b[1;33mWarning: "@ + warning.0@
                + "\x1b[0m\n"@);
        }
    }
}

// ---------------------------------------------------------------------------
// Results
// ---------------------------------------------------------------------------

/// How results are shown.
#[derive(Clone, Copy, Debug)]
pub struct FormatOptions {
    pub is_interactive: bool,
    pub wide: bool,
    pub col_offset: usize,
    pub current_offset: Option<usize>,
}

impl Default for FormatOptions {
    fn default() -> (r: Self)
        ensures
            r == (FormatOptions {
                is_interactive: false,
                wide: false,
                col_offset: 0,
                current_offset: None,
            }),
    {
        FormatOptions { is_interactive: false, wide: false, col_offset: 0, current_offset: None }
    }
}

/// A label that a query gives, with the number of its items and those that are shown.
#[derive(Debug)]
pub struct ShownLabel {
    pub shown: String,
    pub item_count: Option<String>,
    pub tags: Vec<String>,
}

#[verifier::ext_equal]
pub struct LabelModel {
    pub shown: Seq<char>,
    pub item_count: Option<Seq<char>>,
    pub tags: Seq<Seq<char>>,
}

impl View for ShownLabel {
    type V = LabelModel;

    open spec fn view(&self) -> LabelModel {
        LabelModel {
            shown: self.shown@,
            item_count: match self.item_count {
                Some(c) => Some(c@),
                None => None,
            },
            tags: text::texts(self.tags@),
        }
    }
}

pub open spec fn label_models(v: Seq<ShownLabel>) -> Seq<LabelModel> {
    v.map_values(|l: ShownLabel| l@)
}

/// What a search found: items in groups, or labels. Of items there is also the first one and
/// what it is known by.
#[derive(Debug)]
pub enum Results {
    Items { first: Option<Item>, named: String, groups: Vec<TypeGroup>, count: usize },
    Labels(Vec<ShownLabel>),
}

/// The answer to a search.
#[derive(Debug)]
pub struct SearchResponse {
    pub results: Results,
    pub has_more: bool,
    pub progress: Progress,
    pub total_count: Option<usize>,
    pub cid: Option<String>,
}

#[verifier::ext_equal]
pub enum ResultsModel {
    Items(Option<Seq<char>>, Seq<GroupModel>, usize),
    Labels(Seq<LabelModel>),
}

#[verifier::ext_equal]
pub struct ResponseModel {
    pub results: ResultsModel,
    pub has_more: bool,
    pub progress: Progress,
    pub total_count: Option<usize>,
    pub cid: Option<Seq<char>>,
}

impl View for Results {
    type V = ResultsModel;

    open spec fn view(&self) -> ResultsModel {
        match *self {
            Results::Items { first, named, groups, count } => ResultsModel::Items(
                heading_for(first, named@),
                table::group_models(groups@),
                count,
            ),
            Results::Labels(v) => ResultsModel::Labels(label_models(v@)),
        }
    }
}

impl View for SearchResponse {
    type V = ResponseModel;

    open spec fn view(&self) -> ResponseModel {
        ResponseModel {
            results: self.results@,
            has_more: self.has_more,
            progress: self.progress,
            total_count: self.total_count,
            cid: match self.cid {
                Some(c) => Some(c@),
                None => None,
            },
        }
    }
}

/// Whether the first result stands for a computed value, which is named above the table.
pub open spec fn names_value(item: Item) -> bool {
    item.id is Volatile && item.representative.tags@.len() > 0 && exists|i: int|
        0 <= i < item.tags.entries@.len() && (#[trigger] item.tags.entries@[i]).origin
            == Origin::Builtin && item.tags.entries@[i].typed_tag@.tag_type.name() == "value"@
}

/// Whether an item stands for a computed value.
pub fn is_computed_value(item: &Item) -> (r: bool)
    ensures
        r == names_value(*item),
{
    match item.id {
        ItemId::Volatile(_) => {},
        _ => {
            return false;
        },
    }
    if item.representative.tags.len() == 0 {
        return false;
    }
    let mut i: usize = 0;
    while i < item.tags.entries.len()
        invariant
            i <= item.tags.entries@.len(),
            item.id is Volatile,
            item.representative.tags@.len() > 0,
            forall|k: int|
                0 <= k < i ==> !((#[trigger] item.tags.entries@[k]).origin == Origin::Builtin
                    && item.tags.entries@[k].typed_tag@.tag_type.name() == "value"@),
        decreases item.tags.entries.len() - i,
    {
        let e = &item.tags.entries[i];
        let ty = e.typed_tag.tag_type();
        if text::str_eq(ty.as_str(), "value") {
            if let Origin::Builtin = e.origin {
                return true;
            }
        }
        i += 1;
    }
    false
}

/// What stands above the tables, given the first result and what it is known by: that, where
/// the result stands for a computed value.
pub open spec fn heading_for(first: Option<Item>, named: Seq<char>) -> Option<Seq<char>> {
    match first {
        Some(item) if names_value(item) => Some(named),
        _ => None,
    }
}

/// What stands above the tables, given the first result and what it is known by.
pub fn heading_of(first: Option<&Item>, named: String) -> (r: Option<String>)
    ensures
        match r {
            Some(h) => first is Some && names_value(*first->0) && h@ == named@,
            None => !(first is Some && names_value(*first->0)),
        },
{
    match first {
        Some(item) => if is_computed_value(item) {
            Some(named)
        } else {
            None
        },
        None => None,
    }
}

/// Whether an item is a short result, which no table can show.
pub fn is_short_result(item: &Item) -> (r: bool)
    ensures
        r == (item.representative.tags@.len() > 0 && item.tags@.len() == 0),
{
    proof {
        assert(item.tags@.len() == item.tags.entries@.len());
    }
    item.representative.tags.len() > 0 && item.tags.entries.len() == 0
}

/// What is said while a search still goes on.
pub open spec fn searching(r: ResponseModel) -> Seq<char> {
    if r.has_more && !r.progress.is_done {
        "\x1b[1;33mSearching... (Background cache generating: "@ + text::nat_text(
            r.progress.current as nat,
        ) + ")\x1b[0m\n"@
    } else {
        Seq::empty()
    }
}

/// The columns of the terminal that results may take.
pub open spec fn usable_width(wide: bool, terminal: usize) -> usize {
    if wide {
        usize::MAX
    } else {
        width::less(terminal, 4)
    }
}

/// How to get the next page, where there is one.
pub open spec fn more_text(
    has_more: bool,
    cid: Option<Seq<char>>,
    query: Seq<char>,
    interactive: bool,
    told: Seq<char>,
) -> Seq<char> {
    if !has_more {
        Seq::empty()
    } else if interactive {
        "\x1b[1;32mMore results available.\x1b[0m Type 'n' for next page.\n"@
    } else {
        match cid {
            None => Seq::empty(),
            Some(c) => told + "\x1b[0m To see next page, run:\n  ttfm search \""@ + query
                + "\" --cid "@ + c + "\n"@,
        }
    }
}

fn add_more(
    out: &mut String,
    has_more: bool,
    cid: &Option<String>,
    query: &str,
    interactive: bool,
    told: &str,
)
    ensures
        final(out)@ == old(out)@ + more_text(
            has_more,
            match *cid {
                Some(c) => Some(c@),
                None => None,
            },
            query@,
            interactive,
            told@,
        ),
{
    let ghost before = out@;
    if has_more {
        if interactive {
            out.append("\x1b[1;32mMore results available.\x1b[0m Type 'n' for next page.\n");
        } else if let Some(c) = cid {
            out.append(told);
            out.append("\x1b[0m To see next page, run:\n  ttfm search \"");
            out.append(query);
            out.append("\" --cid ");
            out.append(c.as_str());
            out.append("\n");
        }
    }
    proof {
        assert(out@ =~= before + more_text(
            has_more,
            match *cid {
                Some(c) => Some(c@),
                None => None,
            },
            query@,
            interactive,
            told@,
        ));
    }
}

/// The last line of a table: how many items were found or are shown.
pub open spec fn count_line(r: ResponseModel, count: usize, options: FormatOptions) -> Seq<char> {
    if options.is_interactive {
        (match r.total_count {
            Some(t) => text::nat_text(t as nat),
            None => {
                let base = match options.current_offset {
                    Some(o) => o,
                    None => count,
                };
                if r.has_more {
                    text::nat_text(base as nat) + "+"@
                } else {
                    text::nat_text(base as nat)
                }
            },
        }) + " items matched.\n"@
    } else {
        "Total: "@ + text::nat_text(count as nat) + " results displayed.\n"@
    }
}

fn add_count_line(out: &mut String, response: &SearchResponse, count: usize, options: FormatOptions)
    ensures
        final(out)@ == old(out)@ + count_line(response@, count, options),
{
    let ghost before = out@;
    if options.is_interactive {
        match response.total_count {
            Some(t) => {
                let n = text::show_usize(t);
                out.append(n.as_str());
            },
            None => {
                let base = match options.current_offset {
                    Some(o) => o,
                    None => count,
                };
                let n = text::show_usize(base);
                out.append(n.as_str());
                if response.has_more {
                    out.append("+");
                }
            },
        }
        out.append(" items matched.\n");
    } else {
        let n = text::show_usize(count);
        out.append("Total: ");
        out.append(n.as_str());
        out.append(" results displayed.\n");
    }
    proof {
        assert(out@ =~= before + count_line(response@, count, options));
    }
}

/// What is said above a table of computed values.
pub open spec fn heading_text(h: Option<Seq<char>>) -> Seq<char> {
    match h {
        Some(s) => "\x1b[1m"@ + s + "\x1b[0m\n"@,
        None => Seq::empty(),
    }
}

/// Items as tables, with the lines above and below them, and what is said of further columns.
pub open spec fn shown_items(
    ranks: Seq<(Seq<char>, i64)>,
    r: ResponseModel,
    heading: Option<Seq<char>>,
    groups: Seq<GroupModel>,
    count: usize,
    query: Seq<char>,
    terminal: usize,
    options: FormatOptions,
) -> (Seq<char>, ColumnPagingInfo) {
    let tables = table::groups_of(
        ranks,
        groups,
        usable_width(options.wide, terminal),
        options.wide,
        options.col_offset,
    );
    (
        heading_text(heading) + tables.0 + count_line(r, count, options) + more_text(
            r.has_more,
            r.cid,
            query,
            options.is_interactive,
            "\x1b[1;32mMore results available."@,
        ),
        tables.1,
    )
}

/// What is shown of the answer to a search below the line on its progress, and what is said
/// of further columns.
pub open spec fn shown_body(
    ranks: Seq<(Seq<char>, i64)>,
    r: ResponseModel,
    query: Seq<char>,
    terminal: usize,
    options: FormatOptions,
) -> (Seq<char>, ColumnPagingInfo) {
    let nothing = ColumnPagingInfo {
        has_next: false,
        next_col_offset: 0,
        has_prev: options.col_offset > 0,
    };
    let none_found = if r.progress.is_done {
        "No items found.\n"@
    } else {
        Seq::empty()
    };
    match r.results {
        ResultsModel::Labels(labels) => if labels.len() == 0 {
            (none_found, nothing)
        } else {
            (
                shown_labels(
                    labels,
                    r.has_more,
                    r.cid,
                    query,
                    terminal,
                    options.is_interactive,
                    options.wide,
                ),
                nothing,
            )
        },
        ResultsModel::Items(heading, groups, count) => if count == 0 {
            (none_found, nothing)
        } else {
            shown_items(ranks, r, heading, groups, count, query, terminal, options)
        },
    }
}

/// What is shown of the answer to a search, and what is said of further columns.
pub open spec fn shown_results(
    ranks: Seq<(Seq<char>, i64)>,
    r: ResponseModel,
    query: Seq<char>,
    terminal: usize,
    options: FormatOptions,
) -> (Seq<char>, ColumnPagingInfo) {
    let body = shown_body(ranks, r, query, terminal, options);
    (searching(r) + body.0, body.1)
}

fn add_heading(out: &mut String, heading: &Option<String>)
    ensures
        final(out)@ == old(out)@ + heading_text(
            match *heading {
                Some(h) => Some(h@),
                None => None,
            },
        ),
{
    let ghost before = out@;
    if let Some(h) = heading {
        out.append("\x1b[1m");
        out.append(h.as_str());
        out.append("\x1b[0m\n");
    }
    proof {
        assert(out@ =~= before + heading_text(
            match *heading {
                Some(h) => Some(h@),
                None => None,
            },
        ));
    }
}

fn print_items(
    type_ranks: &Vec<(String, i64)>,
    response: &SearchResponse,
    heading: &Option<String>,
    groups: &Vec<TypeGroup>,
    count: usize,
    query: &str,
    out: &mut String,
    terminal_width: usize,
    options: FormatOptions,
) -> (r: ColumnPagingInfo)
    ensures
        ({
            let want = shown_items(
                table::rank_models(type_ranks@),
                response@,
                match *heading {
                    Some(h) => Some(h@),
                    None => None,
                },
                table::group_models(groups@),
                count,
                query@,
                terminal_width,
                options,
            );
            final(out)@ == old(out)@ + want.0 && r == want.1
        }),
{
    let ghost before = out@;
    let usable = if options.wide {
        usize::MAX
    } else {
        minus(terminal_width, 4)
    };
    add_heading(out, heading);
    let ghost headed = out@;
    let info = print_groups(type_ranks, groups, usable, options.wide, options.col_offset, out);
    let ghost tabled = out@;
    add_count_line(out, response, count, options);
    let ghost counted = out@;
    add_more(
        out,
        response.has_more,
        &response.cid,
        query,
        options.is_interactive,
        "\x1b[1;32mMore results available.",
    );
    proof {
        lemma_four(
            before,
            headed.skip(before.len() as int),
            tabled.skip(headed.len() as int),
            counted.skip(tabled.len() as int),
            out@.skip(counted.len() as int),
        );
        assert(headed =~= before + headed.skip(before.len() as int));
        assert(tabled =~= headed + tabled.skip(headed.len() as int));
        assert(counted =~= tabled + counted.skip(tabled.len() as int));
        assert(out@ =~= counted + out@.skip(counted.len() as int));
        assert(headed.skip(before.len() as int) =~= heading_text(
            match *heading {
                Some(h) => Some(h@),
                None => None,
            },
        ));
        assert(tabled.skip(headed.len() as int) =~= table::groups_of(
            table::rank_models(type_ranks@),
            table::group_models(groups@),
            usable,
            options.wide,
            options.col_offset,
        ).0);
        assert(counted.skip(tabled.len() as int) =~= count_line(response@, count, options));
        assert(out@.skip(counted.len() as int) =~= more_text(
            response.has_more,
            response@.cid,
            query@,
            options.is_interactive,
            "\x1b[1;32mMore results available."@,
        ));
    }
    info
}

proof fn lemma_four(o: Seq<char>, a: Seq<char>, b: Seq<char>, c: Seq<char>, d: Seq<char>)
    ensures
        o + a + b + c + d == o + (a + b + c + d),
{
    assert(o + a + b + c + d =~= o + (a + b + c + d));
}

fn add_searching(out: &mut String, response: &SearchResponse)
    ensures
        final(out)@ == old(out)@ + searching(response@),
{
    let ghost before = out@;
    if response.has_more && !response.progress.is_done {
        let n = text::show_u64(response.progress.current);
        out.append("\x1b[1;33mSearching... (Background cache generating: ");
        out.append(n.as_str());
        out.append(")\x1b[0m\n");
    }
    proof {
        assert(out@ =~= before + searching(response@));
    }
}

fn print_body(
    type_ranks: &Vec<(String, i64)>,
    response: &SearchResponse,
    query: &str,
    out: &mut String,
    terminal_width: usize,
    options: FormatOptions,
) -> (r: ColumnPagingInfo)
    ensures
        ({
            let want = shown_body(
                table::rank_models(type_ranks@),
                response@,
                query@,
                terminal_width,
                options,
            );
            final(out)@ == old(out)@ + want.0 && r == want.1
        }),
{
    let nothing = ColumnPagingInfo {
        has_next: false,
        next_col_offset: 0,
        has_prev: options.col_offset > 0,
    };
    let count = match &response.results {
        Results::Labels(labels) => {
            proof {
                assert(label_models(labels@).len() == labels@.len());
            }
            labels.len()
        },
        Results::Items { count, .. } => *count,
    };
    if count == 0 {
        let ghost before = out@;
        if response.progress.is_done {
            out.append("No items found.\n");
        }
        proof {
            assert(out@ =~= before + shown_body(
                table::rank_models(type_ranks@),
                response@,
                query@,
                terminal_width,
                options,
            ).0);
        }
        return nothing;
    }
    match &response.results {
        Results::Labels(labels) => {
            print_compact_projections(
                labels,
                response.has_more,
                &response.cid,
                query,
                out,
                terminal_width,
                options.is_interactive,
                options.wide,
            );
            nothing
        },
        Results::Items { first, named, groups, .. } => {
            let first_item = match first {
                Some(item) => Some(item),
                None => None,
            };
            let heading = heading_of(first_item, named.clone());
            print_items(
                type_ranks,
                response,
                &heading,
                groups,
                count,
                query,
                out,
                terminal_width,
                options,
            )
        },
    }
}

/// Shows the answer to a search on a terminal of a width. `type_ranks` holds the ranks that
/// users gave to types of tags. The answer says what there is of further columns.
pub fn print_results_with_options(
    type_ranks: &Vec<(String, i64)>,
    response: &SearchResponse,
    query: &str,
    _current_n: usize,
    out: &mut String,
    terminal_width: usize,
    options: FormatOptions,
) -> (r: ColumnPagingInfo)
    ensures
        ({
            let want = shown_results(
                table::rank_models(type_ranks@),
                response@,
                query@,
                terminal_width,
                options,
            );
            final(out)@ == old(out)@ + want.0 && r == want.1
        }),
{
    let ghost before = out@;
    add_searching(out, response);
    let info = print_body(type_ranks, response, query, out, terminal_width, options);
    proof {
        let body = shown_body(
            table::rank_models(type_ranks@),
            response@,
            query@,
            terminal_width,
            options,
        ).0;
        assert(before + searching(response@) + body =~= before + (searching(response@) + body));
    }
    info
}

/// Shows the answer to a search from its first column on.
pub fn print_results(
    type_ranks: &Vec<(String, i64)>,
    response: &SearchResponse,
    query: &str,
    current_n: usize,
    out: &mut String,
    terminal_width: usize,
    is_interactive: bool,
)
    ensures
        final(out)@ == old(out)@ + shown_results(
            table::rank_models(type_ranks@),
            response@,
            query@,
            terminal_width,
            (FormatOptions { is_interactive, wide: false, col_offset: 0, current_offset: None }),
        ).0,
{
    print_results_with_options(
        type_ranks,
        response,
        query,
        current_n,
        out,
        terminal_width,
        FormatOptions { is_interactive, wide: false, col_offset: 0, current_offset: None },
    );
}

// ---------------------------------------------------------------------------
// Labels
// ---------------------------------------------------------------------------

/// The number of items of a label: what the query counted, else the number of those that it
/// gave.
pub open spec fn label_count(l: LabelModel) -> int {
    match l.item_count {
        Some(c) if text::parsed_usize(c) is Some => (text::parsed_usize(c)->0) as int,
        _ => l.tags.len() as int,
    }
}

pub open spec fn count_suffix(l: LabelModel) -> Seq<char> {
    " ("@ + text::int_text(label_count(l)) + " items)"@
}

/// A line of the heading of a label.
pub open spec fn blue(i: int, s: Seq<char>) -> Seq<char> {
    if i == 0 {
        "\x1b[1;34m"@ + s + "\x1b[0m"@
    } else {
        "  \x1b[1;34m"@ + s + "\x1b[0m"@
    }
}

pub open spec fn blue_lines(s: Seq<char>, usable: usize) -> Seq<Seq<char>> {
    let lines = width::wrapped(s, usable, width::less(usable, 2));
    Seq::new(lines.len(), |i: int| blue(i, lines[i]))
}

/// The heading of a label: wrapped where it does not fit.
pub open spec fn label_heading(l: LabelModel, usable: usize, wide: bool) -> Seq<char> {
    let full = ":"@ + l.shown;
    (if !wide && width::sat(width::text_width(full), width::text_width(count_suffix(l))) > usable {
        text::joined(blue_lines(full, usable), "\n"@)
    } else {
        "\x1b[1;34m"@ + full + "\x1b[0m"@
    }) + "\x1b[2m"@ + count_suffix(l) + "\x1b[0m\n"@
}

/// The tags that are listed behind `acc`, from the `i`-th one on: so many at most, and none
/// more once the list is longer than the limit.
pub open spec fn listed(
    tags: Seq<Seq<char>>,
    i: int,
    acc: Seq<char>,
    most: usize,
    wide: bool,
    limit: usize,
) -> Seq<char>
    decreases tags.len() - i,
{
    if i < 0 || i >= tags.len() || i >= most {
        acc
    } else {
        let next = (if i > 0 {
            acc + ", "@
        } else {
            acc
        }) + tags[i];
        if !wide && width::text_width(next) > limit {
            next
        } else {
            listed(tags, i + 1, next, most, wide, limit)
        }
    }
}

/// The tags of a label, cut where they do not fit.
pub open spec fn label_tags(l: LabelModel, usable: usize, wide: bool) -> Seq<char> {
    let all = listed(
        l.tags,
        0,
        Seq::empty(),
        if wide {
            usize::MAX
        } else {
            200
        },
        wide,
        width::sat(usable, 10),
    );
    "  "@ + (if wide {
        all
    } else {
        width::truncated(all, width::less(usable, 2))
    }) + "\n"@
}

/// Some labels, one below the other.
pub open spec fn labels_text(ls: Seq<LabelModel>, usable: usize, wide: bool) -> Seq<char>
    decreases ls.len(),
{
    if ls.len() == 0 {
        Seq::empty()
    } else {
        labels_text(ls.drop_last(), usable, wide) + label_heading(ls.last(), usable, wide)
            + label_tags(ls.last(), usable, wide)
    }
}

/// What is shown of the labels that a search found.
pub open spec fn shown_labels(
    labels: Seq<LabelModel>,
    has_more: bool,
    cid: Option<Seq<char>>,
    query: Seq<char>,
    terminal: usize,
    interactive: bool,
    wide: bool,
) -> Seq<char> {
    labels_text(labels, usable_width(wide, terminal), wide) + "Total: "@ + text::nat_text(
        labels.len(),
    ) + " unique labels matched the projection.\n"@ + more_text(
        has_more,
        cid,
        query,
        interactive,
        "\n\x1b[1;32mMore items available."@,
    )
}

fn suffix_of(l: &ShownLabel) -> (r: String)
    ensures
        r@ == count_suffix(l@),
{
    let mut count = l.tags.len();
    proof {
        assert(l@.tags.len() == l.tags@.len());
    }
    if let Some(c) = &l.item_count {
        if let Some(n) = text::parse_usize(c.as_str()) {
            count = n;
        }
    }
    let n = text::show_usize(count);
    text::cat3(" (", n.as_str(), " items)")
}

fn blue_lines_of(s: &str, usable: usize) -> (r: String)
    ensures
        r@ == text::joined(blue_lines(s@, usable), "\n"@),
{
    let lines = wrap_text_slices(s, usable, minus(usable, 2));
    let ghost ms = width::wrapped(s@, usable, width::less(usable, 2));
    let ghost want = blue_lines(s@, usable);
    let mut out: Vec<String> = Vec::new();
    let mut i: usize = 0;
    while i < lines.len()
        invariant
            i <= lines@.len(),
            text::texts(lines@) == ms,
            ms == width::wrapped(s@, usable, width::less(usable, 2)),
            want == blue_lines(s@, usable),
            out@.len() == i,
            forall|k: int| 0 <= k < i ==> (#[trigger] out@[k])@ == want[k],
        decreases lines.len() - i,
    {
        proof {
            assert(ms[i as int] == lines@[i as int]@);
        }
        if i == 0 {
            out.push(text::cat3("\x1b[1;34m", lines[i].as_str(), "\x1b[0m"));
        } else {
            out.push(text::cat3("  \x1b[1;34m", lines[i].as_str(), "\x1b[0m"));
        }
        i += 1;
    }
    proof {
        assert(ms.len() == lines@.len());
        assert(text::texts(out@) =~= want);
    }
    text::join(&out, "\n")
}

fn print_label_heading(l: &ShownLabel, usable: usize, wide: bool, out: &mut String)
    ensures
        final(out)@ == old(out)@ + label_heading(l@, usable, wide),
{
    let ghost before = out@;
    let suffix = suffix_of(l);
    let mut full = ":".to_string();
    full.append(l.shown.as_str());
    if !wide && plus(measure(full.as_str()), measure(suffix.as_str())) > usable {
        let lines = blue_lines_of(full.as_str(), usable);
        out.append(lines.as_str());
    } else {
        out.append("\x1b[1;34m");
        out.append(full.as_str());
        out.append("\x1b[0m");
    }
    out.append("\x1b[2m");
    out.append(suffix.as_str());
    out.append("\x1b[0m\n");
    proof {
        assert(out@ =~= before + label_heading(l@, usable, wide));
    }
}

fn list_tags(tags: &Vec<String>, most: usize, wide: bool, limit: usize) -> (r: String)
    ensures
        r@ == listed(text::texts(tags@), 0, Seq::empty(), most, wide, limit),
{
    let ghost ts = text::texts(tags@);
    let mut all = String::new();
    let mut i: usize = 0;
    proof {
        assert(all@ =~= Seq::empty());
    }
    while i < tags.len() && i < most
        invariant
            i <= tags@.len(),
            ts == text::texts(tags@),
            listed(ts, 0, Seq::empty(), most, wide, limit) == listed(
                ts,
                i as int,
                all@,
                most,
                wide,
                limit,
            ),
        decreases tags.len() - i,
    {
        proof {
            assert(ts[i as int] == tags@[i as int]@);
        }
        if i > 0 {
            all.append(", ");
        }
        all.append(tags[i].as_str());
        if !wide && measure(all.as_str()) > limit {
            return all;
        }
        i += 1;
    }
    all
}

fn print_label_tags(l: &ShownLabel, usable: usize, wide: bool, out: &mut String)
    ensures
        final(out)@ == old(out)@ + label_tags(l@, usable, wide),
{
    let ghost before = out@;
    let most = if wide {
        usize::MAX
    } else {
        200
    };
    let all = list_tags(&l.tags, most, wide, plus(usable, 10));
    out.append("  ");
    if wide {
        out.append(all.as_str());
    } else {
        let fit = truncate_text(all.as_str(), minus(usable, 2));
        out.append(fit.as_str());
    }
    out.append("\n");
    proof {
        assert(out@ =~= before + label_tags(l@, usable, wide));
    }
}

/// Shows the labels that a search found, each with the items that have it.
pub fn print_compact_projections(
    labels: &Vec<ShownLabel>,
    has_more: bool,
    cid: &Option<String>,
    query: &str,
    out: &mut String,
    terminal_width: usize,
    is_interactive: bool,
    wide: bool,
)
    ensures
        final(out)@ == old(out)@ + shown_labels(
            label_models(labels@),
            has_more,
            match *cid {
                Some(c) => Some(c@),
                None => None,
            },
            query@,
            terminal_width,
            is_interactive,
            wide,
        ),
{
    let ghost before = out@;
    let ghost ms = label_models(labels@);
    let usable = if wide {
        usize::MAX
    } else {
        minus(terminal_width, 4)
    };
    let mut i: usize = 0;
    proof {
        assert(out@ =~= before + labels_text(ms.take(0), usable, wide));
    }
    while i < labels.len()
        invariant
            i <= labels@.len(),
            ms == label_models(labels@),
            out@ == before + labels_text(ms.take(i as int), usable, wide),
        decreases labels.len() - i,
    {
        print_label_heading(&labels[i], usable, wide, out);
        print_label_tags(&labels[i], usable, wide, out);
        proof {
            assert(ms.take(i + 1).drop_last() =~= ms.take(i as int));
            assert(ms.take(i + 1).last() == labels@[i as int]@);
            assert(out@ =~= before + labels_text(ms.take(i + 1), usable, wide));
        }
        i += 1;
    }
    proof {
        assert(ms.take(ms.len() as int) =~= ms);
    }
    let n = text::show_usize(labels.len());
    out.append("Total: ");
    out.append(n.as_str());
    out.append(" unique labels matched the projection.\n");
    add_more(out, has_more, cid, query, is_interactive, "\n\x1b[1;32mMore items available.");
    proof {
        assert(out@ =~= before + shown_labels(
            ms,
            has_more,
            match *cid {
                Some(c) => Some(c@),
                None => None,
            },
            query@,
            terminal_width,
            is_interactive,
            wide,
        ));
    }
}

// ---------------------------------------------------------------------------
// Plain lines
// ---------------------------------------------------------------------------

/// What a result is shown as in one line: the value it is known by, else the value of its
/// most telling tag, else its bare form.
#[derive(Debug)]
pub struct ResultLine {
    pub representative: Option<String>,
    pub primary: Option<String>,
    pub raw: String,
}

impl ResultLine {
    pub open spec fn shown(self) -> Seq<char> {
        match self.representative {
            Some(s) => s@,
            None => match self.primary {
                Some(p) => p@,
                None => self.raw@,
            },
        }
    }
}

/// One line for each result.
pub open spec fn simple_lines(v: Seq<ResultLine>) -> Seq<char>
    decreases v.len(),
{
    if v.len() == 0 {
        Seq::empty()
    } else {
        simple_lines(v.drop_last()) + v.last().shown() + "\n"@
    }
}

/// Shows each result in one line.
pub fn print_simple_results_to_writer(results: &Vec<ResultLine>, out: &mut String)
    ensures
        final(out)@ == old(out)@ + simple_lines(results@),
{
    let ghost before = out@;
    let mut i: usize = 0;
    proof {
        assert(out@ =~= before + simple_lines(results@.take(0)));
    }
    while i < results.len()
        invariant
            i <= results@.len(),
            out@ == before + simple_lines(results@.take(i as int)),
        decreases results.len() - i,
    {
        let r = &results[i];
        match &r.representative {
            Some(s) => out.append(s.as_str()),
            None => match &r.primary {
                Some(p) => out.append(p.as_str()),
                None => out.append(r.raw.as_str()),
            },
        }
        out.append("\n");
        proof {
            assert(results@.take(i + 1).drop_last() =~= results@.take(i as int));
            assert(results@.take(i + 1).last() == results@[i as int]);
            assert(out@ =~= before + simple_lines(results@.take(i + 1)));
        }
        i += 1;
    }
    proof {
        assert(results@.take(results@.len() as int) =~= results@);
    }
}

// ---------------------------------------------------------------------------
// Edits
// ---------------------------------------------------------------------------

/// What is said of an edit: what was done to how many tags and files.
pub open spec fn edit_text(done: Seq<char>, tags: usize, files: usize, skipped: bool) -> Seq<char> {
    done + " tags: "@ + text::nat_text(tags as nat) + ", files: "@ + text::nat_text(files as nat)
        + "."@ + (if skipped {
        " (Some items skipped)"@
    } else {
        Seq::empty()
    })
}

fn edit_line(done: &str, tags: usize, files: usize, skipped: bool) -> (r: String)
    ensures
        r@ == edit_text(done@, tags, files, skipped),
{
    let t = text::show_usize(tags);
    let f = text::show_usize(files);
    let mut s = text::cat3(done, " tags: ", t.as_str());
    s.append(", files: ");
    s.append(f.as_str());
    s.append(".");
    if skipped {
        s.append(" (Some items skipped)");
    }
    proof {
        assert(s@ =~= edit_text(done@, tags, files, skipped));
    }
    s
}

/// What is said of an edit that gave tags.
pub fn format_tag_result(resp: &EditResponse) -> (r: String)
    ensures
        r@ == edit_text("Updated"@, resp.updated, resp.fs_ops, resp.has_skipped),
{
    edit_line("Updated", resp.updated, resp.fs_ops, resp.has_skipped)
}

/// What is said of an edit that took tags away.
pub fn format_untag_result(resp: &EditResponse) -> (r: String)
    ensures
        r@ == edit_text("Deleted"@, resp.deleted, resp.fs_ops, resp.has_skipped),
{
    edit_line("Deleted", resp.deleted, resp.fs_ops, resp.has_skipped)
}

} // verus!
