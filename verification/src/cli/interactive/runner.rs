//! The loop of the interactive mode: what a line, a key or an interruption leads to.
use crate::cli::interactive::command;
use crate::cli::interactive::command::{parse_command, Command, CommandModel};
use crate::cli::interactive::menu;
use crate::cli::interactive::menu::print_menu;
use crate::cli::interactive::state::{State, StateModel};
use crate::text;
use vstd::prelude::*;

verus! {

// ---------------------------------------------------------------------------
// Keys
// ---------------------------------------------------------------------------

/// A key as the line editor reports it: the completion key, a move inside of a menu or out of
/// it, a move or an edit in the line, or anything else.
#[derive(Clone, Copy, Debug, PartialEq, Eq, Structural)]
pub enum KeyEvent {
    Esc,
    Complete,
    MenuLeft,
    MenuRight,
    MenuUp,
    MenuDown,
    MoveOrEdit,
    Other,
}

/// One of several things that a key stands for, of which the line editor does the first that
/// it can.
#[derive(Clone, Copy, Debug, PartialEq, Eq, Structural)]
pub enum KeyPart {
    CompletionMenu,
    MenuLeft,
    MenuRight,
    MenuUp,
    MenuDown,
    Other,
}

/// What a key is that stands for several things: the completion key before a move to the
/// left, to the right, up or down, whatever order they stand in.
pub open spec fn key_of(parts: Seq<KeyPart>) -> KeyEvent {
    if parts.contains(KeyPart::CompletionMenu) {
        KeyEvent::Complete
    } else if parts.contains(KeyPart::MenuLeft) {
        KeyEvent::MenuLeft
    } else if parts.contains(KeyPart::MenuRight) {
        KeyEvent::MenuRight
    } else if parts.contains(KeyPart::MenuUp) {
        KeyEvent::MenuUp
    } else if parts.contains(KeyPart::MenuDown) {
        KeyEvent::MenuDown
    } else {
        KeyEvent::Other
    }
}

fn has_part(parts: &Vec<KeyPart>, part: KeyPart) -> (r: bool)
    ensures
        r == parts@.contains(part),
{
    let mut i: usize = 0;
    while i < parts.len()
        invariant
            i <= parts@.len(),
            forall|k: int| 0 <= k < i ==> #[trigger] parts@[k] != part,
        decreases parts.len() - i,
    {
        if parts[i] == part {
            return true;
        }
        i += 1;
    }
    false
}

/// Takes a key that stands for several things.
pub fn key_from_parts(parts: &Vec<KeyPart>) -> (r: KeyEvent)
    ensures
        r == key_of(parts@),
{
    if has_part(parts, KeyPart::CompletionMenu) {
        KeyEvent::Complete
    } else if has_part(parts, KeyPart::MenuLeft) {
        KeyEvent::MenuLeft
    } else if has_part(parts, KeyPart::MenuRight) {
        KeyEvent::MenuRight
    } else if has_part(parts, KeyPart::MenuUp) {
        KeyEvent::MenuUp
    } else if has_part(parts, KeyPart::MenuDown) {
        KeyEvent::MenuDown
    } else {
        KeyEvent::Other
    }
}

/// What the line editor does: what it would have done, or something else.
#[derive(Clone, Copy, Debug, PartialEq, Eq, Structural)]
pub enum Reaction {
    AsUsual,
    Nothing,
    /// Gives the command that leaves the search.
    LeaveSearch,
    ClearLine,
    Repaint,
    Left,
    Up,
    Down,
}

/// What becomes of the message that stands in place of hints.
#[derive(Clone, Copy, Debug, PartialEq, Eq, Structural)]
pub enum MessageChange {
    Keep,
    Clear,
    NoMatches,
}

/// What a key leads to, with a line, after a search or not, and with hints and completions or
/// not.
pub open spec fn reaction(
    key: KeyEvent,
    line: Seq<char>,
    searched: bool,
    has_hint: bool,
    has_suggestions: bool,
) -> (Reaction, MessageChange) {
    match key {
        KeyEvent::Esc => (
            if text::trimmed(line).len() > 0 {
                Reaction::ClearLine
            } else if searched {
                Reaction::LeaveSearch
            } else {
                Reaction::Nothing
            },
            MessageChange::Clear,
        ),
        KeyEvent::Complete => if has_hint {
            (Reaction::AsUsual, MessageChange::Keep)
        } else if has_suggestions {
            (Reaction::AsUsual, MessageChange::Clear)
        } else {
            (Reaction::Repaint, MessageChange::NoMatches)
        },
        KeyEvent::MenuLeft => (Reaction::Left, MessageChange::Clear),
        KeyEvent::MenuRight => (Reaction::AsUsual, MessageChange::Clear),
        KeyEvent::MenuUp => (Reaction::Up, MessageChange::Clear),
        KeyEvent::MenuDown => (Reaction::Down, MessageChange::Clear),
        KeyEvent::MoveOrEdit => (Reaction::AsUsual, MessageChange::Clear),
        KeyEvent::Other => (Reaction::AsUsual, MessageChange::Keep),
    }
}

/// Takes a key.
pub fn handle_reedline_event(
    key: KeyEvent,
    line: &str,
    searched: bool,
    has_hint: bool,
    has_suggestions: bool,
) -> (r: (Reaction, MessageChange))
    ensures
        r == reaction(key, line@, searched, has_hint, has_suggestions),
{
    match key {
        KeyEvent::Esc => {
            let t = text::trim_chars(line);
            if t.len() > 0 {
                (Reaction::ClearLine, MessageChange::Clear)
            } else if searched {
                (Reaction::LeaveSearch, MessageChange::Clear)
            } else {
                (Reaction::Nothing, MessageChange::Clear)
            }
        },
        KeyEvent::Complete => {
            if has_hint {
                (Reaction::AsUsual, MessageChange::Keep)
            } else if has_suggestions {
                (Reaction::AsUsual, MessageChange::Clear)
            } else {
                (Reaction::Repaint, MessageChange::NoMatches)
            }
        },
        KeyEvent::MenuLeft => (Reaction::Left, MessageChange::Clear),
        KeyEvent::MenuRight => (Reaction::AsUsual, MessageChange::Clear),
        KeyEvent::MenuUp => (Reaction::Up, MessageChange::Clear),
        KeyEvent::MenuDown => (Reaction::Down, MessageChange::Clear),
        KeyEvent::MoveOrEdit => (Reaction::AsUsual, MessageChange::Clear),
        KeyEvent::Other => (Reaction::AsUsual, MessageChange::Keep),
    }
}

/// A line is never lost by leaving a search: the key that leaves it clears the line first.
pub proof fn law_leaving_needs_an_empty_line(
    key: KeyEvent,
    line: Seq<char>,
    searched: bool,
    has_hint: bool,
    has_suggestions: bool,
)
    ensures
        reaction(key, line, searched, has_hint, has_suggestions).0 == Reaction::LeaveSearch
            ==> searched && text::trimmed(line).len() == 0,
{
}

// ---------------------------------------------------------------------------
// Lines
// ---------------------------------------------------------------------------

/// What a line leads to: nothing, a command, or a complaint.
#[derive(Debug, PartialEq, Eq)]
pub enum LineStep {
    Skip,
    Run(Command),
    Complain(String),
}

#[verifier::ext_equal]
pub enum LineStepModel {
    Skip,
    Run(CommandModel),
    Complain(Seq<char>),
}

impl View for LineStep {
    type V = LineStepModel;

    open spec fn view(&self) -> LineStepModel {
        match *self {
            LineStep::Skip => LineStepModel::Skip,
            LineStep::Run(c) => LineStepModel::Run(c@),
            LineStep::Complain(s) => LineStepModel::Complain(s@),
        }
    }
}

/// What a line leads to in a state.
pub open spec fn line_step(line: Seq<char>, searched: bool) -> LineStepModel {
    if text::trimmed(line).len() == 0 {
        LineStepModel::Skip
    } else {
        match command::read_command(text::trimmed(line), searched) {
            Ok(c) => LineStepModel::Run(c),
            Err(e) => LineStepModel::Complain(e.shown()),
        }
    }
}

/// Takes a line.
pub fn take_line(line: &str, state: &State) -> (r: LineStep)
    ensures
        r@ == line_step(line@, state@ is Searched),
{
    let trimmed = text::trim(line);
    if text::chars_of(trimmed.as_str()).len() == 0 {
        return LineStep::Skip;
    }
    let searched = match state {
        State::Searched { .. } => true,
        State::Init => false,
    };
    match parse_command(trimmed.as_str(), searched) {
        Ok(c) => LineStep::Run(c),
        Err(e) => LineStep::Complain(e.message()),
    }
}

/// What the mode starts with: the menu, unless it is to be quiet or there is a query, and the
/// search for that query.
pub open spec fn opening(query: Option<Seq<char>>, quiet: bool) -> (LineStepModel, Seq<char>) {
    match query {
        None => (
            LineStepModel::Skip,
            if quiet {
                Seq::empty()
            } else {
                menu::menu_text(StateModel::Init)
            },
        ),
        Some(q) => (
            match command::read_command("s "@ + q, false) {
                Ok(c) => LineStepModel::Run(c),
                Err(e) => LineStepModel::Complain("Error: "@ + e.shown()),
            },
            Seq::empty(),
        ),
    }
}

/// Starts the mode.
pub fn open_session(initial_query: Option<&str>, quiet: bool, state: &State, output: &mut String) -> (r:
    LineStep)
    requires
        state@ is Init,
    ensures
        ({
            let want = opening(
                match initial_query {
                    Some(q) => Some(q@),
                    None => None,
                },
                quiet,
            );
            r@ == want.0 && final(output)@ == old(output)@ + want.1
        }),
{
    let ghost before = output@;
    match initial_query {
        None => {
            if !quiet {
                print_menu(output, state);
            }
            proof {
                assert(before + Seq::<char>::empty() =~= before);
            }
            LineStep::Skip
        },
        Some(q) => {
            proof {
                assert(before + Seq::<char>::empty() =~= before);
            }
            let mut line = "s ".to_string();
            line.append(q);
            match parse_command(line.as_str(), false) {
                Ok(c) => LineStep::Run(c),
                Err(e) => {
                    let m = e.message();
                    let mut s = "Error: ".to_string();
                    s.append(m.as_str());
                    LineStep::Complain(s)
                },
            }
        },
    }
}

/// The warning where the mode reads from a pipe.
pub fn pipe_warning(quiet: bool, err_out: &mut String)
    ensures
        final(err_out)@ == old(err_out)@ + if quiet {
            Seq::<char>::empty()
        } else {
            "Warning: Running interactive mode in non-TTY pipe.\n"@
        },
{
    proof {
        assert(err_out@ + Seq::<char>::empty() =~= err_out@);
    }
    if !quiet {
        err_out.append("Warning: Running interactive mode in non-TTY pipe.\n");
    }
}

/// Takes an interruption: on an empty line it leaves the search.
pub fn interrupted(line: &str, state: &mut State, output: &mut String)
    ensures
        if text::trimmed(line@).len() == 0 && old(state)@ is Searched {
            final(state)@ is Init && final(output)@ == old(output)@ + menu::menu_text(
                StateModel::Init,
            )
        } else {
            final(state)@ == old(state)@ && final(output)@ == old(output)@
        },
{
    let searched = match state {
        State::Searched { .. } => true,
        State::Init => false,
    };
    let t = text::trim_chars(line);
    if t.len() == 0 && searched {
        state.clear();
        print_menu(output, state);
    }
}

} // verus!
