//! The command line as it was given, and what it says of edits.
use crate::config::{Config, ConfirmMode, ConflictPolicy, HardlinkPolicy, SkipScope};
use crate::edit::WriteOptions;
use vstd::prelude::*;

verus! {

/// The command line.
#[derive(Debug)]
pub struct Cli {
    /// Whether the interactive mode is asked for, and with which query.
    pub interactive: Option<Option<String>>,
    pub command: Option<Commands>,
    /// Whether everything is agreed to.
    pub yes: bool,
    /// Whether little is said.
    pub quiet: bool,
    pub confirm: Option<ConfirmMode>,
    pub on_conflict: Option<ConflictPolicy>,
    pub on_hardlink: Option<HardlinkPolicy>,
    pub skip_scope: Option<SkipScope>,
}

/// A command of the command line.
#[derive(Debug)]
pub enum Commands {
    Index { paths: Vec<String>, dry_run: bool },
    Search {
        query: String,
        short: bool,
        n: Option<usize>,
        offset: Option<usize>,
        cid: Option<String>,
    },
    Clear { all: bool },
    Tag { search_query: String, edit_query: String },
    Untag { search_query: String, tag_query: String, condition: Option<String> },
    Replace { old_tag: String, new_tag: String },
    Decal { from: String, to: String },
    Note { content: String },
}

pub open spec fn first_of<T>(a: Option<T>, b: Option<T>) -> Option<T> {
    if a is Some {
        a
    } else {
        b
    }
}

pub open spec fn or_else<T>(a: Option<T>, b: T) -> T {
    match a {
        Some(x) => x,
        None => b,
    }
}

/// How edits are made: as the command line says, and as the configuration says where it does
/// not. Agreeing to everything leaves nothing to be confirmed.
pub fn build_write_options(cli: &Cli, config: &Config) -> (r: WriteOptions)
    ensures
        r == (WriteOptions {
            confirm: if cli.yes {
                ConfirmMode::Never
            } else {
                or_else(cli.confirm, config.edit.confirm)
            },
            on_conflict: first_of(cli.on_conflict, config.edit.on_conflict),
            on_hardlink: first_of(cli.on_hardlink, config.edit.on_hardlink),
            skip_scope: or_else(cli.skip_scope, config.edit.skip_scope),
        }),
{
    let confirm = if cli.yes {
        ConfirmMode::Never
    } else {
        match cli.confirm {
            Some(c) => c,
            None => config.edit.confirm,
        }
    };
    let on_conflict = match cli.on_conflict {
        Some(c) => Some(c),
        None => config.edit.on_conflict,
    };
    let on_hardlink = match cli.on_hardlink {
        Some(h) => Some(h),
        None => config.edit.on_hardlink,
    };
    let skip_scope = match cli.skip_scope {
        Some(s) => s,
        None => config.edit.skip_scope,
    };
    WriteOptions { confirm, on_conflict, on_hardlink, skip_scope }
}

} // verus!
