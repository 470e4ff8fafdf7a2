//! The commands of the interactive mode and how a line is read as one.
use crate::text;
use vstd::prelude::*;

verus! {

/// How many results a page has.
pub const INTERACTIVE_PAGE_SIZE: usize = 20;

/// A command of the interactive mode.
#[derive(Debug, Clone, PartialEq, Eq)]
pub enum Command {
    Search(String),
    Tag { search_query: String, edit_query: String },
    Untag { search_query: String, edit_query: String },
    Index(Vec<String>),
    ClearIndex { all: bool },
    Next,
    Prev,
    NextCols,
    PrevCols,
    Help,
    Menu,
    Quit,
}

#[verifier::ext_equal]
pub enum CommandModel {
    Search(Seq<char>),
    Tag(Seq<char>, Seq<char>),
    Untag(Seq<char>, Seq<char>),
    Index(Seq<Seq<char>>),
    ClearIndex(bool),
    Next,
    Prev,
    NextCols,
    PrevCols,
    Help,
    Menu,
    Quit,
}

impl View for Command {
    type V = CommandModel;

    open spec fn view(&self) -> CommandModel {
        match *self {
            Command::Search(q) => CommandModel::Search(q@),
            Command::Tag { search_query, edit_query } => CommandModel::Tag(
                search_query@,
                edit_query@,
            ),
            Command::Untag { search_query, edit_query } => CommandModel::Untag(
                search_query@,
                edit_query@,
            ),
            Command::Index(paths) => CommandModel::Index(text::texts(paths@)),
            Command::ClearIndex { all } => CommandModel::ClearIndex(all),
            Command::Next => CommandModel::Next,
            Command::Prev => CommandModel::Prev,
            Command::NextCols => CommandModel::NextCols,
            Command::PrevCols => CommandModel::PrevCols,
            Command::Help => CommandModel::Help,
            Command::Menu => CommandModel::Menu,
            Command::Quit => CommandModel::Quit,
        }
    }
}

/// Why a line is no command.
#[derive(Debug, Clone, PartialEq, Eq)]
pub enum CommandParseError {
    Empty,
    UnknownCommand(String),
    DisabledInInit(char),
    DisabledInSearched(String),
    QuoteRequired(String),
    MissingArgument(String),
}

#[verifier::ext_equal]
pub enum CommandErrorModel {
    Empty,
    UnknownCommand(Seq<char>),
    DisabledInInit(char),
    DisabledInSearched(Seq<char>),
    QuoteRequired(Seq<char>),
    MissingArgument(Seq<char>),
}

impl View for CommandParseError {
    type V = CommandErrorModel;

    open spec fn view(&self) -> CommandErrorModel {
        match *self {
            CommandParseError::Empty => CommandErrorModel::Empty,
            CommandParseError::UnknownCommand(s) => CommandErrorModel::UnknownCommand(s@),
            CommandParseError::DisabledInInit(c) => CommandErrorModel::DisabledInInit(c),
            CommandParseError::DisabledInSearched(s) => CommandErrorModel::DisabledInSearched(s@),
            CommandParseError::QuoteRequired(s) => CommandErrorModel::QuoteRequired(s@),
            CommandParseError::MissingArgument(s) => CommandErrorModel::MissingArgument(s@),
        }
    }
}

impl CommandErrorModel {
    /// What is said of a line that is no command; nothing of an empty one.
    pub open spec fn shown(self) -> Seq<char> {
        match self {
            CommandErrorModel::Empty => Seq::empty(),
            CommandErrorModel::UnknownCommand(c) => "Unknown command '"@ + c
                + "'. Type 'm' for available commands."@,
            CommandErrorModel::DisabledInInit(c) => "'"@ + seq![c]
                + "' is unavailable before searching. Please search first with 's <query>'."@,
            CommandErrorModel::DisabledInSearched(c) => "'"@ + c
                + "' is unavailable during search. Use 'q' to return to main menu first."@,
            CommandErrorModel::QuoteRequired(c) => "First argument to '"@ + c
                + "' must be enclosed in double quotes: "@ + c
                + " \"<search_query>\" <edit_query>"@,
            CommandErrorModel::MissingArgument(a) => "Missing required argument: "@ + a,
        }
    }
}

impl CommandParseError {
    /// What is said of a line that is no command.
    pub fn message(&self) -> (r: String)
        ensures
            r@ == self@.shown(),
    {
        match self {
            CommandParseError::Empty => String::new(),
            CommandParseError::UnknownCommand(c) => text::cat3(
                "Unknown command '",
                c.as_str(),
                "'. Type 'm' for available commands.",
            ),
            CommandParseError::DisabledInInit(c) => {
                let mut v: Vec<char> = Vec::new();
                v.push(*c);
                let s = text::text_of(&v);
                proof {
                    assert(s@ =~= seq![*c]);
                }
                text::cat3(
                    "'",
                    s.as_str(),
                    "' is unavailable before searching. Please search first with 's <query>'.",
                )
            },
            CommandParseError::DisabledInSearched(c) => text::cat3(
                "'",
                c.as_str(),
                "' is unavailable during search. Use 'q' to return to main menu first.",
            ),
            CommandParseError::QuoteRequired(c) => {
                let mut s = text::cat3(
                    "First argument to '",
                    c.as_str(),
                    "' must be enclosed in double quotes: ",
                );
                s.append(c.as_str());
                s.append(" \"<search_query>\" <edit_query>");
                s
            },
            CommandParseError::MissingArgument(a) => {
                let mut s = "Missing required argument: ".to_string();
                s.append(a.as_str());
                s
            },
        }
    }
}

// ---------------------------------------------------------------------------
// Paths
// ---------------------------------------------------------------------------

/// The paths of a line read so far, the one that is being read and whether it is in quotes.
pub struct PathScan {
    pub paths: Seq<Seq<char>>,
    pub current: Seq<char>,
    pub in_quote: bool,
}

pub open spec fn scanned(s: Seq<char>) -> PathScan
    decreases s.len(),
{
    if s.len() == 0 {
        PathScan { paths: Seq::empty(), current: Seq::empty(), in_quote: false }
    } else {
        let before = scanned(s.drop_last());
        let c = s.last();
        if c == '"' {
            PathScan { in_quote: !before.in_quote, ..before }
        } else if text::is_white(c) && !before.in_quote {
            if before.current.len() == 0 {
                before
            } else {
                PathScan {
                    paths: before.paths.push(before.current),
                    current: Seq::empty(),
                    ..before
                }
            }
        } else {
            PathScan { current: before.current.push(c), ..before }
        }
    }
}

/// The paths of a line: what stands between spaces that are not in quotes.
pub open spec fn paths_in(s: Seq<char>) -> Seq<Seq<char>> {
    let all = scanned(s);
    if all.current.len() == 0 {
        all.paths
    } else {
        all.paths.push(all.current)
    }
}

/// Reads the paths of a line.
pub fn parse_paths(rest: &str) -> (r: Vec<String>)
    ensures
        text::texts(r@) == paths_in(rest@),
{
    let cs = text::chars_of(rest);
    let mut paths: Vec<String> = Vec::new();
    let mut current: Vec<char> = Vec::new();
    let mut in_quote = false;
    let mut i: usize = 0;
    proof {
        assert(text::texts(paths@) =~= Seq::empty());
    }
    while i < cs.len()
        invariant
            i <= cs@.len(),
            text::texts(paths@) == scanned(cs@.take(i as int)).paths,
            current@ == scanned(cs@.take(i as int)).current,
            in_quote == scanned(cs@.take(i as int)).in_quote,
        decreases cs.len() - i,
    {
        let c = cs[i];
        proof {
            assert(cs@.take(i + 1).drop_last() =~= cs@.take(i as int));
            assert(cs@.take(i + 1).last() == c);
        }
        if c == '"' {
            in_quote = !in_quote;
        } else if text::char_is_white(c) && !in_quote {
            if current.len() > 0 {
                let p = text::text_of(&current);
                proof {
                    text::lemma_texts_push(paths@, p);
                }
                paths.push(p);
                current = Vec::new();
            }
        } else {
            current.push(c);
        }
        i += 1;
    }
    proof {
        assert(cs@.take(cs@.len() as int) =~= cs@);
    }
    if current.len() > 0 {
        let p = text::text_of(&current);
        proof {
            text::lemma_texts_push(paths@, p);
        }
        paths.push(p);
    }
    paths
}

/// No path that is read is empty.
pub proof fn law_paths_are_not_empty(s: Seq<char>, i: int)
    requires
        0 <= i < paths_in(s).len(),
    ensures
        paths_in(s)[i].len() > 0,
{
    lemma_scanned_paths(s);
}

proof fn lemma_scanned_paths(s: Seq<char>)
    ensures
        forall|i: int| 0 <= i < scanned(s).paths.len() ==> (#[trigger] scanned(s).paths[i]).len() > 0,
    decreases s.len(),
{
    if s.len() > 0 {
        lemma_scanned_paths(s.drop_last());
        let before = scanned(s.drop_last());
        let all = scanned(s);
        assert forall|i: int| 0 <= i < all.paths.len() implies (#[trigger] all.paths[i]).len()
            > 0 by {
            if i < before.paths.len() {
                assert(all.paths[i] == before.paths[i]);
            }
        }
    }
}

// ---------------------------------------------------------------------------
// Quoted arguments
// ---------------------------------------------------------------------------

/// A text with each escaped quote as a quote.
pub open spec fn unescaped(s: Seq<char>) -> Seq<char>
    decreases s.len(),
{
    if s.len() == 0 {
        Seq::empty()
    } else if s[0] == '\\' && s.len() > 1 && s[1] == '"' {
        seq!['"'] + unescaped(s.skip(2))
    } else {
        seq![s[0]] + unescaped(s.skip(1))
    }
}

fn unescape(cs: &[char]) -> (r: String)
    ensures
        r@ == unescaped(cs@),
{
    let mut out: Vec<char> = Vec::new();
    let mut i: usize = 0;
    proof {
        assert(cs@.skip(0) =~= cs@);
        assert(out@ + unescaped(cs@.skip(0)) =~= unescaped(cs@));
    }
    while i < cs.len()
        invariant
            i <= cs@.len(),
            out@ + unescaped(cs@.skip(i as int)) == unescaped(cs@),
        decreases cs.len() - i,
    {
        let ghost rest = cs@.skip(i as int);
        let ghost before = out@;
        proof {
            assert(rest[0] == cs@[i as int]);
        }
        if cs[i] == '\\' && i + 1 < cs.len() && cs[i + 1] == '"' {
            out.push('"');
            proof {
                assert(rest[1] == cs@[i + 1]);
                assert(rest.skip(2) =~= cs@.skip(i + 2));
                assert(out@ + unescaped(cs@.skip(i + 2)) =~= before + unescaped(rest));
            }
            i += 2;
        } else {
            out.push(cs[i]);
            proof {
                assert(i + 1 < cs@.len() ==> rest[1] == cs@[i + 1]);
                assert(rest.skip(1) =~= cs@.skip(i + 1));
                assert(out@ + unescaped(cs@.skip(i + 1)) =~= before + unescaped(rest));
            }
            i += 1;
        }
    }
    proof {
        assert(cs@.skip(i as int) =~= Seq::empty());
        assert(out@ + unescaped(cs@.skip(i as int)) =~= out@);
    }
    text::text_of(&out)
}

/// Where the quoted text ends that `s` starts in: at the first quote from `i` on that is not
/// escaped and that nothing or a space follows.
pub open spec fn closing_quote(s: Seq<char>, i: int, escaped: bool) -> Option<int>
    decreases s.len() - i,
{
    if i < 0 || i >= s.len() {
        None
    } else if escaped {
        closing_quote(s, i + 1, false)
    } else if s[i] == '\\' {
        closing_quote(s, i + 1, true)
    } else if s[i] == '"' && (i + 1 == s.len() || text::is_white(s[i + 1])) {
        Some(i)
    } else {
        closing_quote(s, i + 1, false)
    }
}

fn find_closing_quote(cs: &Vec<char>, from: usize) -> (r: Option<usize>)
    requires
        from <= cs@.len(),
    ensures
        match r {
            Some(i) => closing_quote(cs@.skip(from as int), 0, false) == Some(i - from) && from
                <= i < cs@.len(),
            None => closing_quote(cs@.skip(from as int), 0, false) is None,
        },
{
    let ghost s = cs@.skip(from as int);
    let mut i: usize = from;
    let mut escaped = false;
    while i < cs.len()
        invariant
            from <= i <= cs@.len(),
            s == cs@.skip(from as int),
            closing_quote(s, 0, false) == closing_quote(s, i - from, escaped),
        decreases cs.len() - i,
    {
        let c = cs[i];
        proof {
            assert(s[i - from] == c);
            assert(i + 1 < cs@.len() ==> s[i + 1 - from] == cs@[i + 1]);
        }
        if escaped {
            escaped = false;
        } else if c == '\\' {
            escaped = true;
        } else if c == '"' && (i + 1 == cs.len() || text::char_is_white(cs[i + 1])) {
            return Some(i);
        }
        i += 1;
    }
    None
}

/// Whether an escaped quote stands in a text.
pub open spec fn has_escaped_quote(s: Seq<char>) -> bool {
    exists|i: int| 0 <= i && i + 1 < s.len() && #[trigger] s[i] == '\\' && s[i + 1] == '"'
}

/// Whether a text starts and ends with a quote, and these are two.
pub open spec fn in_quotes(s: Seq<char>) -> bool {
    s.len() >= 2 && s[0] == '"' && s.last() == '"'
}

/// What an edit is given as: a text in quotes without them, where the quotes are around it as
/// a whole.
pub open spec fn edit_text(s: Seq<char>) -> Seq<char> {
    if in_quotes(s) {
        let inner = s.subrange(1, s.len() - 1);
        if !inner.contains('"') || has_escaped_quote(inner) {
            text::trimmed(unescaped(inner))
        } else {
            s
        }
    } else {
        s
    }
}

/// What a line gives behind a command that changes tags: a query in quotes, and an edit.
pub open spec fn quoted_and_rest(rest: Seq<char>, cmd: Seq<char>) -> Result<
    (Seq<char>, Seq<char>),
    CommandErrorModel,
> {
    let t = text::trimmed_start(rest);
    if t.len() == 0 || t[0] != '"' {
        Err(CommandErrorModel::QuoteRequired(cmd))
    } else {
        let after = t.skip(1);
        match closing_quote(after, 0, false) {
            None => Err(CommandErrorModel::QuoteRequired(cmd)),
            Some(i) => {
                let query = unescaped(after.take(i));
                let remaining = text::trimmed(after.skip(i + 1));
                if text::trimmed(query).len() == 0 {
                    Err(CommandErrorModel::MissingArgument("search_query"@))
                } else if remaining.len() == 0 || (remaining == "\"\""@ && cmd == "u"@) {
                    Err(CommandErrorModel::MissingArgument("edit_query"@))
                } else {
                    Ok((query, edit_text(remaining)))
                }
            },
        }
    }
}

fn has_char(cs: &[char], c: char) -> (r: bool)
    ensures
        r == cs@.contains(c),
{
    let mut i: usize = 0;
    while i < cs.len()
        invariant
            i <= cs@.len(),
            forall|k: int| 0 <= k < i ==> cs@[k] != c,
        decreases cs.len() - i,
    {
        if cs[i] == c {
            proof {
                assert(cs@.contains(cs@[i as int]));
            }
            return true;
        }
        i += 1;
    }
    false
}

fn find_escaped_quote(cs: &[char]) -> (r: bool)
    ensures
        r == has_escaped_quote(cs@),
{
    let mut i: usize = 0;
    while i < cs.len()
        invariant
            i <= cs@.len(),
            forall|k: int|
                0 <= k < i && k + 1 < cs@.len() ==> !(#[trigger] cs@[k] == '\\' && cs@[k + 1]
                    == '"'),
        decreases cs.len() - i,
    {
        if cs[i] == '\\' && i + 1 < cs.len() && cs[i + 1] == '"' {
            proof {
                assert(cs@[i as int] == '\\' && cs@[i + 1] == '"');
            }
            return true;
        }
        i += 1;
    }
    false
}

pub(crate) fn slice_chars(cs: &Vec<char>, from: usize, to: usize) -> (r: Vec<char>)
    requires
        from <= to <= cs@.len(),
    ensures
        r@ == cs@.subrange(from as int, to as int),
{
    let mut out: Vec<char> = Vec::new();
    let mut i: usize = from;
    while i < to
        invariant
            from <= i <= to <= cs@.len(),
            out@ == cs@.subrange(from as int, i as int),
        decreases to - i,
    {
        out.push(cs[i]);
        proof {
            assert(out@ =~= cs@.subrange(from as int, i + 1));
        }
        i += 1;
    }
    out
}

fn edit_of(cs: &Vec<char>) -> (r: String)
    ensures
        r@ == edit_text(cs@),
{
    let n = cs.len();
    if n >= 2 && cs[0] == '"' && cs[n - 1] == '"' {
        let inner = slice_chars(cs, 1, n - 1);
        if !has_char(&inner, '"') || find_escaped_quote(&inner) {
            let u = unescape(&inner);
            return text::trim(u.as_str());
        }
    }
    text::text_of(cs)
}

proof fn lemma_two_quotes(s: Seq<char>)
    ensures
        s == "\"\""@ <==> s.len() == 2 && s[0] == '"' && s[1] == '"',
        edit_text("\"\""@) == Seq::<char>::empty(),
{
    reveal_strlit("\"\"");
    let q = "\"\""@;
    if s.len() == 2 && s[0] == '"' && s[1] == '"' {
        assert(s =~= q);
    }
    assert(q.subrange(1, 1) =~= Seq::<char>::empty());
    assert(unescaped(Seq::<char>::empty()) =~= Seq::<char>::empty());
    text::lemma_trimmed_bare(Seq::<char>::empty());
}

pub(crate) fn trim_start_chars(s: &str) -> (r: Vec<char>)
    ensures
        r@ == text::trimmed_start(s@),
{
    let cs = text::chars_of(s);
    let mut i: usize = 0;
    proof {
        assert(cs@.skip(0) =~= cs@);
    }
    while i < cs.len() && text::char_is_white(cs[i])
        invariant
            i <= cs@.len(),
            text::trimmed_start(cs@) == text::trimmed_start(cs@.skip(i as int)),
        ensures
            i <= cs@.len(),
            text::trimmed_start(cs@) == text::trimmed_start(cs@.skip(i as int)),
            i < cs@.len() ==> !text::is_white(cs@[i as int]),
        decreases cs.len() - i,
    {
        proof {
            assert(cs@.skip(i as int)[0] == cs@[i as int]);
            assert(cs@.skip(i as int).skip(1) =~= cs@.skip(i + 1));
        }
        i += 1;
    }
    let r = slice_chars(&cs, i, cs.len());
    proof {
        assert(r@ =~= cs@.skip(i as int));
        assert(i < cs@.len() ==> cs@.skip(i as int)[0] == cs@[i as int]);
    }
    r
}

pub open spec fn pair_model(r: Result<(String, String), CommandParseError>) -> Result<
    (Seq<char>, Seq<char>),
    CommandErrorModel,
> {
    match r {
        Ok(p) => Ok((p.0@, p.1@)),
        Err(e) => Err(e@),
    }
}

/// Reads what a line gives behind a command that changes tags: a query in quotes, and an
/// edit.
pub fn parse_quoted_search_and_rest(rest: &str, cmd_name: &str) -> (r: Result<
    (String, String),
    CommandParseError,
>)
    ensures
        pair_model(r) == quoted_and_rest(rest@, cmd_name@),
{
    let cs = trim_start_chars(rest);
    if cs.len() == 0 || cs[0] != '"' {
        return Err(CommandParseError::QuoteRequired(cmd_name.to_string()));
    }
    let end = match find_closing_quote(&cs, 1) {
        None => {
            return Err(CommandParseError::QuoteRequired(cmd_name.to_string()));
        },
        Some(i) => i,
    };
    let ghost after = cs@.skip(1);
    let quoted = slice_chars(&cs, 1, end);
    let query = unescape(&quoted);
    proof {
        assert(quoted@ =~= after.take(end - 1));
    }
    let bare = text::trim_chars(query.as_str());
    if bare.len() == 0 {
        return Err(CommandParseError::MissingArgument("search_query".to_string()));
    }
    let tail = slice_chars(&cs, end + 1, cs.len());
    let tail_text = text::text_of(&tail);
    proof {
        assert(tail@ =~= after.skip(end - 1 + 1));
    }
    let remaining = text::trim_chars(tail_text.as_str());
    proof {
        lemma_two_quotes(remaining@);
    }
    if remaining.len() == 0 {
        return Err(CommandParseError::MissingArgument("edit_query".to_string()));
    }
    if remaining.len() == 2 && remaining[0] == '"' && remaining[1] == '"' && text::str_eq(
        cmd_name,
        "u",
    ) {
        return Err(CommandParseError::MissingArgument("edit_query".to_string()));
    }
    let edit = edit_of(&remaining);
    Ok((query, edit))
}

// ---------------------------------------------------------------------------
// Commands
// ---------------------------------------------------------------------------

/// The place of the first space of a text from `i` on, or its end.
pub open spec fn first_white(s: Seq<char>, i: int) -> int
    decreases s.len() - i,
{
    if i < 0 || i >= s.len() || text::is_white(s[i]) {
        i
    } else {
        first_white(s, i + 1)
    }
}

/// The first word of a line, and what follows it.
pub open spec fn head_and_rest(t: Seq<char>) -> (Seq<char>, Seq<char>) {
    let i = first_white(t, 0);
    if i < t.len() {
        (t.take(i), text::trimmed(t.skip(i + 1)))
    } else {
        (t, Seq::empty())
    }
}

/// What is searched for: a query in quotes without them, where it holds no others.
pub open spec fn search_text(rest: Seq<char>) -> Seq<char> {
    if in_quotes(rest) && !rest.subrange(1, rest.len() - 1).contains('"') {
        text::trimmed(rest.subrange(1, rest.len() - 1))
    } else {
        text::trimmed(rest)
    }
}

/// A command for which a search must have been made.
pub open spec fn after_search(c: char, is_searched: bool, cmd: CommandModel) -> Result<
    CommandModel,
    CommandErrorModel,
> {
    if is_searched {
        Ok(cmd)
    } else {
        Err(CommandErrorModel::DisabledInInit(c))
    }
}

/// Commands without arguments.
pub open spec fn read_bare(head: Seq<char>, is_searched: bool) -> Result<
    CommandModel,
    CommandErrorModel,
> {
    if head == "n"@ {
        after_search('n', is_searched, CommandModel::Next)
    } else if head == "p"@ || head == "prev"@ {
        after_search('p', is_searched, CommandModel::Prev)
    } else if head == "h"@ || head == "help"@ {
        Ok(CommandModel::Help)
    } else if head == ">"@ {
        after_search('>', is_searched, CommandModel::NextCols)
    } else if head == "<"@ {
        after_search('<', is_searched, CommandModel::PrevCols)
    } else if head == "m"@ {
        Ok(CommandModel::Menu)
    } else if head == "q"@ {
        Ok(CommandModel::Quit)
    } else {
        Err(CommandErrorModel::UnknownCommand(head))
    }
}

/// The command that a line stands for.
pub open spec fn read_command(line: Seq<char>, is_searched: bool) -> Result<
    CommandModel,
    CommandErrorModel,
> {
    let t = text::trimmed(line);
    let (head, rest) = head_and_rest(t);
    if t.len() == 0 {
        Err(CommandErrorModel::Empty)
    } else if head == "s"@ {
        if search_text(rest).len() == 0 {
            Err(CommandErrorModel::MissingArgument("search_query"@))
        } else {
            Ok(CommandModel::Search(search_text(rest)))
        }
    } else if head == "t"@ {
        if !is_searched {
            Err(CommandErrorModel::DisabledInInit('t'))
        } else {
            match quoted_and_rest(rest, "t"@) {
                Ok(p) => Ok(CommandModel::Tag(p.0, p.1)),
                Err(e) => Err(e),
            }
        }
    } else if head == "u"@ {
        if !is_searched {
            Err(CommandErrorModel::DisabledInInit('u'))
        } else {
            match quoted_and_rest(rest, "u"@) {
                Ok(p) => Ok(CommandModel::Untag(p.0, p.1)),
                Err(e) => Err(e),
            }
        }
    } else if head == "i"@ {
        if is_searched {
            Err(CommandErrorModel::DisabledInSearched("i"@))
        } else if rest.len() == 0 {
            Err(CommandErrorModel::MissingArgument("paths"@))
        } else {
            Ok(CommandModel::Index(paths_in(rest)))
        }
    } else if head == "clear"@ {
        if is_searched {
            Err(CommandErrorModel::DisabledInSearched("clear"@))
        } else {
            Ok(CommandModel::ClearIndex(rest == "all"@ || rest == "--all"@))
        }
    } else {
        read_bare(head, is_searched)
    }
}

/// Commands on the results of a search are understood after a search only, and those that
/// change the index before one only.
pub proof fn law_commands_fit_the_state(line: Seq<char>, is_searched: bool)
    ensures
        read_command(line, is_searched) matches Ok(c) ==> {
            &&& (c is Tag || c is Untag || c is Next || c is Prev || c is NextCols || c
                is PrevCols) ==> is_searched
            &&& (c is Index || c is ClearIndex) ==> !is_searched
        },
{
}

/// A command that asks for a search has something to search for.
pub proof fn law_searches_have_a_query(line: Seq<char>, is_searched: bool)
    ensures
        read_command(line, is_searched) matches Ok(CommandModel::Search(q)) ==> q.len() > 0,
        read_command(line, is_searched) matches Ok(CommandModel::Tag(q, _)) ==> text::trimmed(
            q,
        ).len() > 0,
        read_command(line, is_searched) matches Ok(CommandModel::Untag(q, _)) ==> text::trimmed(
            q,
        ).len() > 0,
{
}

fn search_of(rest: &Vec<char>) -> (r: Vec<char>)
    ensures
        r@ == search_text(rest@),
{
    let n = rest.len();
    if n >= 2 && rest[0] == '"' && rest[n - 1] == '"' {
        let inner = slice_chars(rest, 1, n - 1);
        if !has_char(&inner, '"') {
            let s = text::text_of(&inner);
            return text::trim_chars(s.as_str());
        }
    }
    let s = text::text_of(rest);
    text::trim_chars(s.as_str())
}

fn split_head(t: &Vec<char>) -> (r: (String, Vec<char>))
    ensures
        (r.0@, r.1@) == head_and_rest(t@),
{
    let mut i: usize = 0;
    while i < t.len() && !text::char_is_white(t[i])
        invariant
            i <= t@.len(),
            first_white(t@, 0) == first_white(t@, i as int),
        ensures
            i <= t@.len(),
            first_white(t@, 0) == i,
        decreases t.len() - i,
    {
        i += 1;
    }
    let head = text::slice_text(t, 0, i);
    if i < t.len() {
        let tail = text::slice_text(t, i + 1, t.len());
        proof {
            assert(head@ =~= t@.take(i as int));
            assert(tail@ =~= t@.skip(i + 1));
        }
        (head, text::trim_chars(tail.as_str()))
    } else {
        let none: Vec<char> = Vec::new();
        proof {
            assert(head@ =~= t@);
            assert(none@ =~= Seq::empty());
        }
        (head, none)
    }
}

pub open spec fn command_model(r: Result<Command, CommandParseError>) -> Result<
    CommandModel,
    CommandErrorModel,
> {
    match r {
        Ok(c) => Ok(c@),
        Err(e) => Err(e@),
    }
}

/// Reads a line as a command.
pub fn parse_command(line: &str, is_searched: bool) -> (r: Result<Command, CommandParseError>)
    ensures
        command_model(r) == read_command(line@, is_searched),
{
    let t = text::trim_chars(line);
    if t.len() == 0 {
        return Err(CommandParseError::Empty);
    }
    let (head, rest) = split_head(&t);
    let h = head.as_str();
    if text::str_eq(h, "s") {
        let q = search_of(&rest);
        if q.len() == 0 {
            return Err(CommandParseError::MissingArgument("search_query".to_string()));
        }
        return Ok(Command::Search(text::text_of(&q)));
    }
    if text::str_eq(h, "t") || text::str_eq(h, "u") {
        let tag = text::str_eq(h, "t");
        if !is_searched {
            return Err(
                CommandParseError::DisabledInInit(
                    if tag {
                        't'
                    } else {
                        'u'
                    },
                ),
            );
        }
        let rest_text = text::text_of(&rest);
        return match parse_quoted_search_and_rest(rest_text.as_str(), h) {
            Err(e) => Err(e),
            Ok((search_query, edit_query)) => if tag {
                Ok(Command::Tag { search_query, edit_query })
            } else {
                Ok(Command::Untag { search_query, edit_query })
            },
        };
    }
    if text::str_eq(h, "i") {
        if is_searched {
            return Err(CommandParseError::DisabledInSearched("i".to_string()));
        }
        if rest.len() == 0 {
            return Err(CommandParseError::MissingArgument("paths".to_string()));
        }
        let rest_text = text::text_of(&rest);
        return Ok(Command::Index(parse_paths(rest_text.as_str())));
    }
    if text::str_eq(h, "clear") {
        if is_searched {
            return Err(CommandParseError::DisabledInSearched("clear".to_string()));
        }
        let rest_text = text::text_of(&rest);
        let all = text::str_eq(rest_text.as_str(), "all") || text::str_eq(
            rest_text.as_str(),
            "--all",
        );
        return Ok(Command::ClearIndex { all });
    }
    parse_bare(head, is_searched)
}

fn parse_bare(head: String, is_searched: bool) -> (r: Result<Command, CommandParseError>)
    ensures
        command_model(r) == read_bare(head@, is_searched),
{
    let h = head.as_str();
    if text::str_eq(h, "n") {
        needs_search('n', is_searched, Command::Next)
    } else if text::str_eq(h, "p") || text::str_eq(h, "prev") {
        needs_search('p', is_searched, Command::Prev)
    } else if text::str_eq(h, "h") || text::str_eq(h, "help") {
        Ok(Command::Help)
    } else if text::str_eq(h, ">") {
        needs_search('>', is_searched, Command::NextCols)
    } else if text::str_eq(h, "<") {
        needs_search('<', is_searched, Command::PrevCols)
    } else if text::str_eq(h, "m") {
        Ok(Command::Menu)
    } else if text::str_eq(h, "q") {
        Ok(Command::Quit)
    } else {
        Err(CommandParseError::UnknownCommand(head))
    }
}

fn needs_search(c: char, is_searched: bool, cmd: Command) -> (r: Result<
    Command,
    CommandParseError,
>)
    ensures
        command_model(r) == after_search(c, is_searched, cmd@),
{
    if is_searched {
        Ok(cmd)
    } else {
        Err(CommandParseError::DisabledInInit(c))
    }
}

} // verus!
