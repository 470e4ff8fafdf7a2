//! The menu and the help of the interactive mode.
use crate::cli::interactive::state::{State, StateModel};
use crate::text;
use vstd::prelude::*;

verus! {

pub const HELP_TEXT: &'static str = "\
TTFM Interactive Mode Help

Commands:
  s <query>                 \x1b[2m# Search with TTQL query\x1b[0m          p \x1b[2m# Previous page of search results\x1b[0m
  t \"<search_query>\" <edit> \x1b[2m# Add or update tags (empty store)\x1b[0m n \x1b[2m# Next page of search results\x1b[0m
  u \"<search_query>\" <tag>  \x1b[2m# Remove tags from matched items\x1b[0m  < \x1b[2m# Show left columns (horizontal scroll)\x1b[0m
  i <paths>...              \x1b[2m# Index directories (Init only)\x1b[0m   > \x1b[2m# Show right columns (horizontal scroll)\x1b[0m
  clear [all]               \x1b[2m# Clear file index or database\x1b[0m    h \x1b[2m# Show this help\x1b[0m / m \x1b[2m# Show menu\x1b[0m
  q                         \x1b[2m# Clear search context / Quit\x1b[0m

Syntax & Examples:
Basic Tags (type:label):                                              Show types/labels/tags definitions & Storing:
  s extension:rs \x1b[2m# Search items by tag\x1b[0m                                  s extension: \x1b[2m# List distinct labels of type\x1b[0m
  t \"extension:rs\" project:alpha \x1b[2m# Add tag to matched items\x1b[0m             s label: \x1b[2m# List all labels across indexed items\x1b[0m
  u \"extension:rs\" status:draft \x1b[2m# Remove tag from matched items\x1b[0m         s type:* \x1b[2m# List all type definitions\x1b[0m
                                                                        s type: \x1b[2m# List distinct types across indexed items\x1b[0m
Set Operations (&, |, -):                                               s tag: \x1b[2m# List all tags across indexed items\x1b[0m
  s extension:rs & project:ttfm \x1b[2m# Intersection (AND)\x1b[0m                    u \"extension:rs\" project: \x1b[2m# Remove all tags of type\x1b[0m
  s extension:rs | extension:ts \x1b[2m# Union (OR)\x1b[0m                            t \"extension:rs\" \"\" \x1b[2m# Store volatile search results\x1b[0m
  s extension:rs - status:draft \x1b[2m# Difference (DIFF / EXCLUDE)\x1b[0m
  t \"extension:rs & size:>1MB\" project:large \x1b[2m# Tag filtered set\x1b[0m       Aggregations (count, sum, avg, ...):
                                                                        s count() \x1b[2m# Total count of matched items\x1b[0m
Glob Patterns & Captures (*, {n}):                                      s sum(size:) \x1b[2m# Sum of numeric projection\x1b[0m
  s filename:*.rs \x1b[2m# Wildcard pattern search\x1b[0m                             s count(extension:) \x1b[2m# Count distinct labels of type\x1b[0m
  t \"filename:*_draft.txt\" filename:{1}.txt \x1b[2m# Rename files\x1b[0m
  t \"name:*.old\" name:{1} \x1b[2m# Rename item display name\x1b[0m                  Nesting (&:):
  t \"path:*.md\" path:/new/dir/{1} \x1b[2m# Move files to new directory\x1b[0m         s project: &: extension: \x1b[2m# Multi-key compound grouping\x1b[0m
                                                                        s path:^/mnt/*/: &: extension: \x1b[2m# Pattern grouping\x1b[0m
Comparisons & Ranges:
  s size:>100MB \x1b[2m# Stuck label comparison\x1b[0m                              Nesting with Aggregation (Combined):
  s 10MB :< size: :< 1GB \x1b[2m# Chained range comparison\x1b[0m                     s parentdir: &: count() \x1b[2m# Group and aggregate\x1b[0m
  s mtime:today \x1b[2m# Relative date search\x1b[0m                                  s path:^/mnt/*/: &: sum(size:) \x1b[2m# Pattern group with sum\x1b[0m
  t \"size:>1GB\" tag:huge \x1b[2m# Tag comparison match\x1b[0m                         s parentdir: &: count() :> 10 \x1b[2m# Filter groups\x1b[0m
                                                                        t \"parentdir: &: count() :> 10\" status:busy \x1b[2m# Tag groups\x1b[0m
Eval (q()):
  s q(milestone:m1) & extension:rs \x1b[2m# Expand definition tags\x1b[0m
  t \"q(milestone:m1)\" status:ready \x1b[2m# Tag from definition\x1b[0m
";

/// A text without its escape codes.
pub uninterp spec fn uncolored(s: Seq<char>) -> Seq<char>;

/// `strip_ansi_codes` of the `console` crate: a text without its escape codes.
#[verifier::external_body]
fn strip_colors(s: &str) -> (r: String)
    ensures
        r@ == uncolored(s@),
{
    console::strip_ansi_codes(s).to_string()
}

/// The help, with or without colors.
pub open spec fn help_text(colors: bool) -> Seq<char> {
    if colors {
        HELP_TEXT@
    } else {
        uncolored(HELP_TEXT@)
    }
}

/// Shows the help, with or without colors.
pub fn print_help(out: &mut String, colors: bool)
    ensures
        final(out)@ == old(out)@ + help_text(colors),
{
    if colors {
        out.append(HELP_TEXT);
    } else {
        let plain = strip_colors(HELP_TEXT);
        out.append(plain.as_str());
    }
}

/// The menu before a search.
pub open spec fn start_menu() -> Seq<char> {
    "Welcome to ttfm interactive mode\n\nCommands:\n  s : Search\n  i : Index directories\n  h : Help\n  m : Show menu\n  q : Quit\n  clear : Clear indexed files (or `clear all`)\n"@
}

pub open spec fn and_hint(v: Seq<Seq<char>>, b: bool, hint: Seq<char>) -> Seq<Seq<char>> {
    if b {
        v.push(hint)
    } else {
        v
    }
}

/// The commands that can be given after a search: those to go on or back only where there is
/// something to go to.
pub open spec fn hints(prev: bool, more: bool, left: bool, right: bool) -> Seq<Seq<char>> {
    let start = seq![
        "s \x1b[2msearch\x1b[0m"@,
        "t \x1b[2mtag\x1b[0m"@,
        "u \x1b[2muntag\x1b[0m"@,
    ];
    let pages = and_hint(
        and_hint(start, prev, "p \x1b[2mprev\x1b[0m"@),
        more,
        "n \x1b[2mnext\x1b[0m"@,
    );
    let columns = and_hint(
        and_hint(pages, left, "< \x1b[2mshow left\x1b[0m"@),
        right,
        "> \x1b[2mshow right\x1b[0m"@,
    );
    columns.push("h \x1b[2mhelp\x1b[0m"@).push("q \x1b[2mquit to main menu\x1b[0m"@)
}

/// The menu of a state.
pub open spec fn menu_text(s: StateModel) -> Seq<char> {
    match s {
        StateModel::Init => start_menu(),
        StateModel::Searched(p) => text::joined(
            hints(
                p.page_start > 0,
                p.has_more,
                p.col_offsets.len() > 1,
                p.next_col_offset is Some,
            ),
            " | "@,
        ) + "\n"@,
    }
}

fn add_hint(v: &mut Vec<String>, b: bool, hint: &str)
    ensures
        text::texts(final(v)@) == and_hint(text::texts(old(v)@), b, hint@),
{
    if b {
        let s = hint.to_string();
        proof {
            text::lemma_texts_push(v@, s);
        }
        v.push(s);
    }
}

/// Shows the menu of a state.
pub fn print_menu(out: &mut String, state: &State)
    ensures
        final(out)@ == old(out)@ + menu_text(state@),
{
    match state {
        State::Init => {
            out.append(
                "Welcome to ttfm interactive mode\n\nCommands:\n  s : Search\n  i : Index directories\n  h : Help\n  m : Show menu\n  q : Quit\n  clear : Clear indexed files (or `clear all`)\n",
            );
        },
        State::Searched { page_start, has_more, next_col_offset, col_offsets, .. } => {
            let ghost before = out@;
            let mut items: Vec<String> = Vec::new();
            proof {
                assert(text::texts(items@) =~= Seq::empty());
            }
            add_hint(&mut items, true, "s \x1b[2msearch\x1b[0m");
            add_hint(&mut items, true, "t \x1b[2mtag\x1b[0m");
            add_hint(&mut items, true, "u \x1b[2muntag\x1b[0m");
            proof {
                assert(text::texts(items@) =~= seq![
                    "s \x1b[2msearch\x1b[0m"@,
                    "t \x1b[2mtag\x1b[0m"@,
                    "u \x1b[2muntag\x1b[0m"@,
                ]);
            }
            add_hint(&mut items, *page_start > 0, "p \x1b[2mprev\x1b[0m");
            add_hint(&mut items, *has_more, "n \x1b[2mnext\x1b[0m");
            add_hint(&mut items, col_offsets.len() > 1, "< \x1b[2mshow left\x1b[0m");
            add_hint(&mut items, next_col_offset.is_some(), "> \x1b[2mshow right\x1b[0m");
            add_hint(&mut items, true, "h \x1b[2mhelp\x1b[0m");
            add_hint(&mut items, true, "q \x1b[2mquit to main menu\x1b[0m");
            let line = text::join(&items, " | ");
            out.append(line.as_str());
            out.append("\n");
            proof {
                assert(out@ =~= before + menu_text(state@));
            }
        },
    }
}

} // verus!
