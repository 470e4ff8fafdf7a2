//! Editing: parsing what to change, planning it, confirming it and carrying it out.
use vstd::prelude::*;

pub use crate::config::{ConfirmMode, ConflictPolicy, HardlinkPolicy, SkipScope};
pub use crate::tag::EditStrategy;
pub use fs_operate::FsMove;
pub use plan::EditResponse;

pub mod action;
pub mod capture_laws;
pub mod cast;
pub mod cast_laws;
pub mod confirm;
pub mod confirm_laws;
pub mod count_laws;
pub mod error;
pub mod fs_laws;
pub mod fs_operate;
pub mod glob_capture;
pub mod glob_laws;
pub mod lens_schema;
pub mod modify;
pub mod modify_laws;
pub mod parse;
pub mod parse_laws;
pub mod plan;
pub mod plan_laws;
pub mod prompt;
pub mod prompt_laws;
pub mod replace;
pub mod replace_laws;
pub mod resolve_laws;
pub mod search_and_apply_captures;
pub mod session;
pub mod space_laws;
pub mod sql;
pub mod sql_laws;
pub mod write;
pub mod write_laws;

verus! {

/// Whether tags are set or taken away.
#[derive(Clone, Copy, Debug, PartialEq, Eq, Structural)]
pub enum QueryType {
    Tag,
    Untag,
}

/// How an edit is confirmed and its conflicts resolved.
#[derive(Clone, Copy, Debug, PartialEq, Eq, Structural)]
pub struct WriteOptions {
    pub confirm: ConfirmMode,
    pub on_conflict: Option<ConflictPolicy>,
    pub on_hardlink: Option<HardlinkPolicy>,
    pub skip_scope: SkipScope,
}

impl Default for WriteOptions {
    fn default() -> (r: Self)
        ensures
            r == WriteOptions::unasked(),
    {
        WriteOptions::noconfirm()
    }
}

impl WriteOptions {
    /// Nothing is asked, and every conflict aborts.
    pub open spec fn unasked() -> WriteOptions {
        WriteOptions {
            confirm: ConfirmMode::Never,
            on_conflict: Some(ConflictPolicy::Abort),
            on_hardlink: Some(HardlinkPolicy::Abort),
            skip_scope: SkipScope::Item,
        }
    }

    /// Nothing is asked, and every conflict aborts.
    pub fn noconfirm() -> (r: Self)
        ensures
            r == WriteOptions::unasked(),
    {
        WriteOptions {
            confirm: ConfirmMode::Never,
            on_conflict: Some(ConflictPolicy::Abort),
            on_hardlink: Some(HardlinkPolicy::Abort),
            skip_scope: SkipScope::Item,
        }
    }

    /// The user is asked, where there is one.
    pub fn interactive() -> (r: Self)
        ensures
            r == (WriteOptions {
                confirm: ConfirmMode::Auto,
                on_conflict: None,
                on_hardlink: None,
                skip_scope: SkipScope::Item,
            }),
    {
        WriteOptions {
            confirm: ConfirmMode::Auto,
            on_conflict: None,
            on_hardlink: None,
            skip_scope: SkipScope::Item,
        }
    }

    pub fn on_confirm(self, mode: ConfirmMode) -> (r: Self)
        ensures
            r == (WriteOptions { confirm: mode, ..self }),
    {
        WriteOptions { confirm: mode, ..self }
    }

    pub fn on_conflict(self, policy: ConflictPolicy) -> (r: Self)
        ensures
            r == (WriteOptions { on_conflict: Some(policy), ..self }),
    {
        WriteOptions { on_conflict: Some(policy), ..self }
    }

    pub fn on_hardlink(self, policy: HardlinkPolicy) -> (r: Self)
        ensures
            r == (WriteOptions { on_hardlink: Some(policy), ..self }),
    {
        WriteOptions { on_hardlink: Some(policy), ..self }
    }

    pub fn skip_scope(self, scope: SkipScope) -> (r: Self)
        ensures
            r == (WriteOptions { skip_scope: scope, ..self }),
    {
        WriteOptions { skip_scope: scope, ..self }
    }

    /// Whether the user is asked: where it is left open, only at a terminal and when no
    /// policy says what to do.
    pub open spec fn asks(self, terminal: bool) -> bool {
        match self.confirm {
            ConfirmMode::Never => false,
            ConfirmMode::Always => true,
            ConfirmMode::Auto => self.on_conflict is None && self.on_hardlink is None && terminal,
        }
    }

    /// Whether the user is asked; `terminal` says whether the input is a terminal.
    pub fn is_interactive(&self, terminal: bool) -> (r: bool)
        ensures
            r == self.asks(terminal),
    {
        match self.confirm {
            ConfirmMode::Never => false,
            ConfirmMode::Always => true,
            ConfirmMode::Auto => self.on_conflict.is_none() && self.on_hardlink.is_none()
                && terminal,
        }
    }
}

} // verus!
