//! Hints for a line that is being typed, and what it can be completed to.
use crate::cli::interactive::command;
use crate::cli::interactive::dispatch;
use crate::cli::interactive::state::{State, StateModel};
use crate::text;
use vstd::prelude::*;

verus! {

// ---------------------------------------------------------------------------
// Hints
// ---------------------------------------------------------------------------

/// For how long a message stands in place of a hint, in milliseconds.
pub const MESSAGE_MILLIS: u64 = 1500;

/// Gives hints for a line that is being typed: the last query, or the last path that was
/// indexed. Once something else is typed, there are no hints until the line is empty again.
#[derive(Debug)]
pub struct InteractiveHinter {
    pub current_line: String,
    pub current_hint: String,
    pub edited: bool,
    pub transient_message: Option<String>,
}

#[verifier::ext_equal]
pub struct HinterModel {
    pub current_line: Seq<char>,
    pub current_hint: Seq<char>,
    pub edited: bool,
    pub transient_message: Option<Seq<char>>,
}

impl View for InteractiveHinter {
    type V = HinterModel;

    open spec fn view(&self) -> HinterModel {
        HinterModel {
            current_line: self.current_line@,
            current_hint: self.current_hint@,
            edited: self.edited,
            transient_message: match self.transient_message {
                Some(m) => Some(m@),
                None => None,
            },
        }
    }
}

/// Whether a line is a command without its argument.
pub open spec fn is_bare_command(t: Seq<char>) -> bool {
    (t.len() == 1 || (t.len() == 2 && t[1] == ' ')) && (t[0] == 's' || t[0] == 't' || t[0] == 'u'
        || t[0] == 'i')
}

/// A text with each quote escaped.
pub open spec fn escaped(s: Seq<char>) -> Seq<char>
    decreases s.len(),
{
    if s.len() == 0 {
        Seq::empty()
    } else if s.last() == '"' {
        escaped(s.drop_last()) + seq!['\\', '"']
    } else {
        escaped(s.drop_last()).push(s.last())
    }
}

pub open spec fn has_white(s: Seq<char>) -> bool {
    exists|i: int| 0 <= i < s.len() && text::is_white(#[trigger] s[i])
}

/// What the argument of a command could be; nothing where there is no proposal.
pub open spec fn proposal(c: char, s: StateModel, last_path: Seq<char>) -> Option<Seq<char>> {
    if c == 's' {
        Some(
            match s {
                StateModel::Searched(p) => p.query,
                StateModel::Init => "*:*"@,
            },
        )
    } else if c == 't' || c == 'u' {
        match s {
            StateModel::Searched(p) => Some("\""@ + escaped(p.query) + "\" "@),
            StateModel::Init => None,
        }
    } else {
        match s {
            StateModel::Init => Some(
                if has_white(last_path) {
                    "\""@ + last_path + "\""@
                } else {
                    last_path
                },
            ),
            StateModel::Searched(_) => None,
        }
    }
}

/// The hint for a command without its argument.
pub open spec fn hint_for(t: Seq<char>, s: StateModel, last_path: Seq<char>) -> Seq<char> {
    match proposal(t[0], s, last_path) {
        None => Seq::empty(),
        Some(p) => if t.len() == 1 {
            " "@ + p
        } else {
            p
        },
    }
}

/// A hint as it is shown, in faint color where there is color.
pub open spec fn dimmed(s: Seq<char>, color: bool) -> Seq<char> {
    if color {
        "\x1b[2m"@ + s + "\x1b[0m"@
    } else {
        s
    }
}

/// The hinter after a line, and the hint that is shown. `elapsed` says for how long the
/// message has been there.
pub open spec fn hinted(
    h: HinterModel,
    line: Seq<char>,
    s: StateModel,
    last_path: Seq<char>,
    elapsed: u64,
    color: bool,
) -> (HinterModel, Seq<char>) {
    if h.transient_message is Some && elapsed < MESSAGE_MILLIS {
        (h, dimmed(h.transient_message->0, color))
    } else {
        let t = text::trimmed_start(line);
        let seen = HinterModel {
            current_line: line,
            current_hint: Seq::empty(),
            transient_message: None,
            ..h
        };
        if t.len() == 0 {
            (HinterModel { edited: false, ..seen }, Seq::empty())
        } else if h.edited || !is_bare_command(t) {
            (HinterModel { edited: true, ..seen }, Seq::empty())
        } else {
            let hint = hint_for(t, s, last_path);
            (
                HinterModel { current_hint: hint, ..seen },
                if hint.len() == 0 {
                    hint
                } else {
                    dimmed(hint, color)
                },
            )
        }
    }
}

/// Once a line was edited there are no hints for it, until it is empty.
pub proof fn law_edited_lines_have_no_hints(
    h: HinterModel,
    line: Seq<char>,
    s: StateModel,
    last_path: Seq<char>,
    elapsed: u64,
    color: bool,
)
    requires
        h.edited,
        h.transient_message is None,
    ensures
        ({
            let r = hinted(h, line, s, last_path, elapsed, color);
            &&& r.1 == Seq::<char>::empty()
            &&& r.0.current_hint == Seq::<char>::empty()
            &&& r.0.edited <==> text::trimmed_start(line).len() > 0
        }),
{
}

/// The search for the end of a quoted text passes over an escaped text.
proof fn lemma_passes_escaped(q: Seq<char>, t: Seq<char>)
    requires
        !q.contains('\\'),
    ensures
        command::closing_quote(escaped(q) + t, 0, false) == command::closing_quote(
            escaped(q) + t,
            escaped(q).len() as int,
            false,
        ),
    decreases q.len(),
{
    if q.len() > 0 {
        let d = q.drop_last();
        let c = q.last();
        assert forall|x: char| d.contains(x) implies q.contains(x) by {
            let i = choose|i: int| 0 <= i < d.len() && d[i] == x;
            assert(q[i] == x);
        }
        assert(q.contains(q[q.len() - 1]));
        let piece: Seq<char> = if c == '"' {
            seq!['\\', '"']
        } else {
            seq![c]
        };
        let n = escaped(d).len() as int;
        let s = escaped(q) + t;
        assert(s =~= escaped(d) + (piece + t));
        lemma_passes_escaped(d, piece + t);
        assert(s[n] == piece[0]);
        if c == '"' {
            assert(s[n + 1] == '"');
            assert(command::closing_quote(s, n, false) == command::closing_quote(s, n + 1, true));
            assert(command::closing_quote(s, n + 1, true) == command::closing_quote(
                s,
                n + 2,
                false,
            ));
        } else {
            assert(command::closing_quote(s, n, false) == command::closing_quote(s, n + 1, false));
        }
    }
}

/// A command that changes tags is completed to one that is understood as a quoted query: the
/// query is the one that was searched for, it ends where it ended, and what is typed behind it
/// is the edit.
pub proof fn law_escaped_queries_are_read_back(q: Seq<char>, edit: Seq<char>, cmd: Seq<char>)
    requires
        !q.contains('\\'),
        text::trimmed(q).len() > 0,
        text::trimmed(seq![' '] + edit).len() > 0,
        cmd == "u"@ ==> text::trimmed(seq![' '] + edit) != "\"\""@,
    ensures
        command::unescaped(escaped(q)) == q,
        command::quoted_and_rest(seq!['"'] + escaped(q) + seq!['"', ' '] + edit, cmd) == Ok::<
            (Seq<char>, Seq<char>),
            command::CommandErrorModel,
        >((q, command::edit_text(text::trimmed(seq![' '] + edit)))),
{
    lemma_unescaped_escaped(q);
    let rest = seq!['"'] + escaped(q) + seq!['"', ' '] + edit;
    let tail = seq!['"', ' '] + edit;
    let after = escaped(q) + tail;
    let n = escaped(q).len() as int;
    assert(rest[0] == '"');
    assert(text::trimmed_start(rest) == rest);
    assert(rest.skip(1) =~= after);
    lemma_passes_escaped(q, tail);
    assert(after[n] == '"');
    assert(after[n + 1] == ' ');
    assert(command::closing_quote(after, n, false) == Some(n));
    assert(after.take(n) =~= escaped(q));
    assert(after.skip(n + 1) =~= seq![' '] + edit);
}

proof fn lemma_unescaped_escaped(q: Seq<char>)
    requires
        !q.contains('\\'),
    ensures
        command::unescaped(escaped(q)) == q,
    decreases q.len(),
{
    if q.len() > 0 {
        let d = q.drop_last();
        assert forall|c: char| d.contains(c) implies q.contains(c) by {
            let i = choose|i: int| 0 <= i < d.len() && d[i] == c;
            assert(q[i] == c);
        }
        lemma_unescaped_escaped(d);
        lemma_escaped_tail(d);
        assert(q.contains(q[q.len() - 1]));
        if q.last() == '"' {
            lemma_unescaped_add(escaped(d), seq!['\\', '"']);
            let two: Seq<char> = seq!['\\', '"'];
            assert(two.skip(2) =~= Seq::empty());
            reveal_with_fuel(command::unescaped, 2);
            assert(command::unescaped(two) =~= seq!['"']);
        } else {
            let one: Seq<char> = seq![q.last()];
            lemma_unescaped_add(escaped(d), one);
            assert(one.skip(1) =~= Seq::empty());
            reveal_with_fuel(command::unescaped, 2);
            assert(command::unescaped(one) =~= one);
            assert(escaped(d).push(q.last()) =~= escaped(d) + one);
        }
        assert(q =~= d.push(q.last()));
        assert(d.push(q.last()) =~= d + seq![q.last()]);
    } else {
        assert(command::unescaped(escaped(q)) =~= q);
    }
}

/// An escaped text does not end in a backslash.
proof fn lemma_escaped_tail(q: Seq<char>)
    requires
        !q.contains('\\'),
    ensures
        escaped(q).len() > 0 ==> escaped(q).last() != '\\',
{
    if q.len() > 0 {
        assert(q.contains(q[q.len() - 1]));
    }
}

proof fn lemma_unescaped_add(a: Seq<char>, b: Seq<char>)
    requires
        a.len() > 0 ==> a.last() != '\\',
    ensures
        command::unescaped(a + b) == command::unescaped(a) + command::unescaped(b),
    decreases a.len(),
{
    if a.len() == 0 {
        assert(a + b =~= b);
        assert(command::unescaped(a) + command::unescaped(b) =~= command::unescaped(b));
    } else if a[0] == '\\' && a.len() > 1 && a[1] == '"' {
        assert((a + b).skip(2) =~= a.skip(2) + b);
        if a.skip(2).len() > 0 {
            assert(a.skip(2).last() == a.last());
        }
        lemma_unescaped_add(a.skip(2), b);
        assert(command::unescaped(a + b) =~= command::unescaped(a) + command::unescaped(b));
    } else {
        assert((a + b).skip(1) =~= a.skip(1) + b);
        if a.len() > 1 {
            assert(a.skip(1).last() == a.last());
            assert((a + b)[1] == a[1]);
        }
        lemma_unescaped_add(a.skip(1), b);
        assert(command::unescaped(a + b) =~= command::unescaped(a) + command::unescaped(b));
    }
}

fn escape_quotes(s: &str) -> (r: String)
    ensures
        r@ == escaped(s@),
{
    let cs = text::chars_of(s);
    let mut out: Vec<char> = Vec::new();
    let mut i: usize = 0;
    while i < cs.len()
        invariant
            i <= cs@.len(),
            out@ == escaped(cs@.take(i as int)),
        decreases cs.len() - i,
    {
        proof {
            assert(cs@.take(i + 1).drop_last() =~= cs@.take(i as int));
            assert(cs@.take(i + 1).last() == cs@[i as int]);
        }
        if cs[i] == '"' {
            out.push('\\');
            out.push('"');
            proof {
                assert(out@ =~= escaped(cs@.take(i as int)) + seq!['\\', '"']);
            }
        } else {
            out.push(cs[i]);
        }
        i += 1;
    }
    proof {
        assert(cs@.take(cs@.len() as int) =~= cs@);
    }
    text::text_of(&out)
}

fn contains_white(s: &str) -> (r: bool)
    ensures
        r == has_white(s@),
{
    let cs = text::chars_of(s);
    let mut i: usize = 0;
    while i < cs.len()
        invariant
            i <= cs@.len(),
            cs@ == s@,
            forall|k: int| 0 <= k < i ==> !text::is_white(#[trigger] cs@[k]),
        decreases cs.len() - i,
    {
        if text::char_is_white(cs[i]) {
            return true;
        }
        i += 1;
    }
    false
}

fn proposed(c: char, state: &State, last_path: &str) -> (r: Option<String>)
    ensures
        match r {
            Some(p) => proposal(c, state@, last_path@) == Some(p@),
            None => proposal(c, state@, last_path@) is None,
        },
{
    if c == 's' {
        return match state {
            State::Searched { query, .. } => Some(query.clone()),
            State::Init => Some("*:*".to_string()),
        };
    }
    if c == 't' || c == 'u' {
        return match state {
            State::Searched { query, .. } => {
                let e = escape_quotes(query.as_str());
                Some(text::cat3("\"", e.as_str(), "\" "))
            },
            State::Init => None,
        };
    }
    match state {
        State::Init => {
            if contains_white(last_path) {
                Some(text::cat3("\"", last_path, "\""))
            } else {
                Some(last_path.to_string())
            }
        },
        State::Searched { .. } => None,
    }
}

fn dim(s: &str, color: bool) -> (r: String)
    ensures
        r@ == dimmed(s@, color),
{
    if color {
        text::cat3("\x1b[2m", s, "\x1b[0m")
    } else {
        s.to_string()
    }
}

impl InteractiveHinter {
    /// A hinter for an empty line.
    pub fn new() -> (r: Self)
        ensures
            r@ == (HinterModel {
                current_line: Seq::empty(),
                current_hint: Seq::empty(),
                edited: false,
                transient_message: None,
            }),
    {
        InteractiveHinter {
            current_line: String::new(),
            current_hint: String::new(),
            edited: false,
            transient_message: None,
        }
    }

    /// A hinter for a line that has been typed.
    pub fn with_current_line(current_line: String) -> (r: Self)
        ensures
            r@ == (HinterModel {
                current_line: current_line@,
                current_hint: Seq::empty(),
                edited: false,
                transient_message: None,
            }),
    {
        InteractiveHinter {
            current_line,
            current_hint: String::new(),
            edited: false,
            transient_message: None,
        }
    }

    /// Shows a message in place of hints.
    pub fn set_transient_message(&mut self, msg: &str)
        ensures
            final(self)@ == (HinterModel { transient_message: Some(msg@), ..old(self)@ }),
    {
        self.transient_message = Some(msg.to_string());
    }

    /// Takes the message away.
    pub fn clear_transient_message(&mut self)
        ensures
            final(self)@ == (HinterModel { transient_message: None, ..old(self)@ }),
    {
        self.transient_message = None;
    }

    /// Starts with an empty line again.
    pub fn reset(&mut self)
        ensures
            final(self)@ == (HinterModel {
                current_line: Seq::empty(),
                current_hint: Seq::empty(),
                edited: false,
                transient_message: None,
            }),
    {
        self.edited = false;
        self.current_hint = String::new();
        self.transient_message = None;
        self.current_line = String::new();
    }

    /// Gives the hint for a line.
    pub fn handle(
        &mut self,
        line: &str,
        state: &State,
        last_indexed_path: &str,
        elapsed_millis: u64,
        use_ansi_coloring: bool,
    ) -> (r: String)
        ensures
            ({
                let want = hinted(
                    old(self)@,
                    line@,
                    state@,
                    last_indexed_path@,
                    elapsed_millis,
                    use_ansi_coloring,
                );
                final(self)@ == want.0 && r@ == want.1
            }),
    {
        if let Some(m) = &self.transient_message {
            if elapsed_millis < MESSAGE_MILLIS {
                return dim(m.as_str(), use_ansi_coloring);
            }
        }
        self.transient_message = None;
        self.current_line = line.to_string();
        self.current_hint = String::new();
        let t = command::trim_start_chars(line);
        if t.len() == 0 {
            self.edited = false;
            return String::new();
        }
        let bare = (t.len() == 1 || (t.len() == 2 && t[1] == ' ')) && (t[0] == 's' || t[0] == 't'
            || t[0] == 'u' || t[0] == 'i');
        if !bare {
            self.edited = true;
        }
        if self.edited {
            return String::new();
        }
        match proposed(t[0], state, last_indexed_path) {
            None => String::new(),
            Some(p) => {
                let hint = if t.len() == 1 {
                    let mut s = " ".to_string();
                    s.append(p.as_str());
                    s
                } else {
                    p
                };
                self.current_hint = hint.clone();
                if text::chars_of(hint.as_str()).len() == 0 {
                    hint
                } else {
                    dim(hint.as_str(), use_ansi_coloring)
                }
            },
        }
    }

    /// The whole hint.
    pub fn complete_hint(&self) -> (r: String)
        ensures
            r@ == self@.current_hint,
    {
        self.current_hint.clone()
    }

    /// The first word of the hint.
    pub fn next_hint_token(&self) -> (r: String)
        ensures
            r@ == first_word(self@.current_hint),
    {
        let cs = command::trim_start_chars(self.current_hint.as_str());
        let mut i: usize = 0;
        while i < cs.len() && !text::char_is_white(cs[i])
            invariant
                i <= cs@.len(),
                command::first_white(cs@, 0) == command::first_white(cs@, i as int),
            ensures
                i <= cs@.len(),
                command::first_white(cs@, 0) == i,
            decreases cs.len() - i,
        {
            i += 1;
        }
        let r = text::slice_text(&cs, 0, i);
        proof {
            assert(r@ =~= cs@.take(i as int));
        }
        r
    }
}

/// The first word of a text; nothing where it has none.
pub open spec fn first_word(s: Seq<char>) -> Seq<char> {
    let t = text::trimmed_start(s);
    t.take(command::first_white(t, 0))
}

// ---------------------------------------------------------------------------
// Completions
// ---------------------------------------------------------------------------

/// What the word before the cursor can be completed to.
#[derive(Debug, PartialEq, Eq)]
pub enum Completion {
    Nothing,
    /// The home directory.
    Home,
    /// The entries of a directory whose names start with a prefix. The directory is as it was
    /// typed, empty for the current one.
    Entries { dir: String, prefix: String, word: String },
}

#[verifier::ext_equal]
pub enum CompletionModel {
    Nothing,
    Home,
    Entries(Seq<char>, Seq<char>, Seq<char>),
}

impl View for Completion {
    type V = CompletionModel;

    open spec fn view(&self) -> CompletionModel {
        match *self {
            Completion::Nothing => CompletionModel::Nothing,
            Completion::Home => CompletionModel::Home,
            Completion::Entries { dir, prefix, word } => CompletionModel::Entries(
                dir@,
                prefix@,
                word@,
            ),
        }
    }
}

/// Where the last word of a text begins: behind its last space before `i`.
pub open spec fn last_word_start(s: Seq<char>, i: int) -> int
    decreases i,
{
    if i <= 0 || i > s.len() {
        0
    } else if text::is_white(s[i - 1]) {
        i
    } else {
        last_word_start(s, i - 1)
    }
}

/// The place behind the last slash of a text before `i`.
pub open spec fn behind_slash(s: Seq<char>, i: int) -> int
    decreases i,
{
    if i <= 0 || i > s.len() {
        0
    } else if s[i - 1] == '/' {
        i
    } else {
        behind_slash(s, i - 1)
    }
}

/// What a line can be completed to, by what stands before the cursor: paths to index, before
/// a search.
pub open spec fn completion(before: Seq<char>, searched: bool) -> CompletionModel {
    let t = text::trimmed_start(before);
    if searched || t.len() < 2 || t[0] != 'i' || t[1] != ' ' {
        CompletionModel::Nothing
    } else {
        let word = t.skip(2).skip(last_word_start(t.skip(2), t.len() - 2));
        if word == "~"@ {
            CompletionModel::Home
        } else {
            let k = behind_slash(word, word.len() as int);
            CompletionModel::Entries(word.take(k), word.skip(k), word)
        }
    }
}

/// A completion of a word.
#[derive(Debug, PartialEq, Eq)]
pub struct Suggestion {
    pub value: String,
    pub append_whitespace: bool,
}

#[verifier::ext_equal]
pub struct SuggestionModel {
    pub value: Seq<char>,
    pub append_whitespace: bool,
}

impl View for Suggestion {
    type V = SuggestionModel;

    open spec fn view(&self) -> SuggestionModel {
        SuggestionModel { value: self.value@, append_whitespace: self.append_whitespace }
    }
}

pub open spec fn suggestion_models(v: Seq<Suggestion>) -> Seq<SuggestionModel> {
    v.map_values(|s: Suggestion| s@)
}

/// An entry of a directory as a completion: a directory with a slash, so that one can go on.
pub open spec fn suggestion(dir: Seq<char>, name: Seq<char>, is_dir: bool) -> SuggestionModel {
    SuggestionModel {
        value: if is_dir {
            dir + name + "/"@
        } else {
            dir + name
        },
        append_whitespace: !is_dir,
    }
}

/// The suggestions with one more, behind all that are not greater.
pub open spec fn with_suggestion(s: Seq<SuggestionModel>, x: SuggestionModel) -> Seq<
    SuggestionModel,
>
    decreases s.len(),
{
    if s.len() == 0 || text::text_le(s.last().value, x.value) {
        s.push(x)
    } else {
        with_suggestion(s.drop_last(), x).push(s.last())
    }
}

pub open spec fn starts(s: Seq<char>, prefix: Seq<char>) -> bool {
    s.len() >= prefix.len() && s.take(prefix.len() as int) == prefix
}

/// The entries of a directory whose names start with a prefix, as completions in order.
pub open spec fn suggested(
    dir: Seq<char>,
    prefix: Seq<char>,
    entries: Seq<(Seq<char>, bool)>,
) -> Seq<SuggestionModel>
    decreases entries.len(),
{
    if entries.len() == 0 {
        Seq::empty()
    } else {
        let before = suggested(dir, prefix, entries.drop_last());
        let e = entries.last();
        if starts(e.0, prefix) {
            with_suggestion(before, suggestion(dir, e.0, e.1))
        } else {
            before
        }
    }
}

pub open spec fn values_in_order(s: Seq<SuggestionModel>) -> bool {
    forall|i: int, j: int|
        0 <= i < j < s.len() ==> text::text_le((#[trigger] s[i]).value, (#[trigger] s[j]).value)
}

proof fn lemma_with_suggestion(s: Seq<SuggestionModel>, x: SuggestionModel)
    requires
        values_in_order(s),
    ensures
        values_in_order(with_suggestion(s, x)),
        with_suggestion(s, x).to_multiset() == s.to_multiset().insert(x),
    decreases s.len(),
{
    broadcast use vstd::seq_lib::group_to_multiset_ensures;

    let r = with_suggestion(s, x);
    if s.len() == 0 || text::text_le(s.last().value, x.value) {
        assert forall|i: int, j: int| 0 <= i < j < r.len() implies text::text_le(
            (#[trigger] r[i]).value,
            (#[trigger] r[j]).value,
        ) by {
            if j == s.len() && i < s.len() - 1 {
                text::law_text_order(s[i].value, s.last().value, x.value);
            }
        }
    } else {
        let front = s.drop_last();
        let inner = with_suggestion(front, x);
        lemma_with_suggestion(front, x);
        assert(s =~= front.push(s.last()));
        text::law_text_order(x.value, s.last().value, x.value);
        text::law_text_order(s.last().value, x.value, x.value);
        assert forall|i: int, j: int| 0 <= i < j < r.len() implies text::text_le(
            (#[trigger] r[i]).value,
            (#[trigger] r[j]).value,
        ) by {
            if j == r.len() - 1 {
                assert(inner.contains(inner[i]));
                assert(inner.to_multiset().count(inner[i]) > 0);
                if inner[i] != x {
                    assert(front.to_multiset().count(inner[i]) > 0);
                    assert(front.contains(inner[i]));
                    let k = choose|k: int| 0 <= k < front.len() && front[k] == inner[i];
                    assert(s[k] == inner[i]);
                    assert(text::text_le(s[k].value, s[s.len() - 1].value));
                }
            }
        }
    }
}

/// Completions are in the order of their texts.
pub proof fn law_suggestions_are_ordered(
    dir: Seq<char>,
    prefix: Seq<char>,
    entries: Seq<(Seq<char>, bool)>,
)
    ensures
        values_in_order(suggested(dir, prefix, entries)),
    decreases entries.len(),
{
    if entries.len() > 0 {
        law_suggestions_are_ordered(dir, prefix, entries.drop_last());
        let e = entries.last();
        if starts(e.0, prefix) {
            lemma_with_suggestion(
                suggested(dir, prefix, entries.drop_last()),
                suggestion(dir, e.0, e.1),
            );
        }
    }
}

proof fn lemma_insert_suggestion(s: Seq<SuggestionModel>, x: SuggestionModel, pos: int)
    requires
        0 <= pos <= s.len(),
        forall|j: int| pos <= j < s.len() ==> !text::text_le((#[trigger] s[j]).value, x.value),
        pos > 0 ==> text::text_le(s[pos - 1].value, x.value),
    ensures
        with_suggestion(s, x) == s.insert(pos, x),
    decreases s.len(),
{
    if pos == s.len() {
        assert(s.insert(pos, x) =~= s.push(x));
    } else {
        lemma_insert_suggestion(s.drop_last(), x, pos);
        assert(s.insert(pos, x) =~= s.drop_last().insert(pos, x).push(s.last()));
    }
}

/// What the word before the cursor of a line can be completed to.
pub fn complete(before: &str, searched: bool) -> (r: Completion)
    ensures
        r@ == completion(before@, searched),
{
    if searched {
        return Completion::Nothing;
    }
    let t = command::trim_start_chars(before);
    if t.len() < 2 || t[0] != 'i' || t[1] != ' ' {
        return Completion::Nothing;
    }
    let ghost sub = t@.skip(2);
    let mut start: usize = t.len();
    while start > 2 && !text::char_is_white(t[start - 1])
        invariant
            2 <= start <= t@.len(),
            sub == t@.skip(2),
            last_word_start(sub, t@.len() - 2) == last_word_start(sub, start - 2),
        ensures
            2 <= start <= t@.len(),
            last_word_start(sub, t@.len() - 2) == start - 2,
        decreases start,
    {
        proof {
            assert(sub[start - 3] == t@[start - 1]);
        }
        start -= 1;
    }
    proof {
        if start > 2 {
            assert(sub[start - 3] == t@[start - 1]);
        }
    }
    let word = command::slice_chars(&t, start, t.len());
    proof {
        assert(word@ =~= sub.skip(start - 2));
    }
    let word_text = text::text_of(&word);
    if text::str_eq(word_text.as_str(), "~") {
        return Completion::Home;
    }
    let mut k: usize = word.len();
    while k > 0 && word[k - 1] != '/'
        invariant
            k <= word@.len(),
            behind_slash(word@, word@.len() as int) == behind_slash(word@, k as int),
        ensures
            k <= word@.len(),
            behind_slash(word@, word@.len() as int) == k,
        decreases k,
    {
        k -= 1;
    }
    let dir = text::slice_text(&word, 0, k);
    let prefix = text::slice_text(&word, k, word.len());
    proof {
        assert(dir@ =~= word@.take(k as int));
        assert(prefix@ =~= word@.skip(k as int));
    }
    Completion::Entries { dir, prefix, word: word_text }
}

/// The directory whose entries are looked at, for one that was typed.
pub fn read_directory(dir: &str, home: Option<&str>) -> (r: String)
    ensures
        r@ == if dir@.len() == 0 {
            "."@
        } else {
            dispatch::expanded(dir@, dispatch::str_model(home))
        },
{
    if text::chars_of(dir).len() == 0 {
        ".".to_string()
    } else {
        dispatch::expand(dir, home)
    }
}

fn starts_with(s: &str, prefix: &str) -> (r: bool)
    ensures
        r == starts(s@, prefix@),
{
    let a = text::chars_of(s);
    let p = text::chars_of(prefix);
    if a.len() < p.len() {
        return false;
    }
    let mut i: usize = 0;
    while i < p.len()
        invariant
            i <= p@.len() <= a@.len(),
            a@ == s@,
            p@ == prefix@,
            forall|k: int| 0 <= k < i ==> a@[k] == p@[k],
        decreases p.len() - i,
    {
        if a[i] != p[i] {
            proof {
                assert(s@.take(prefix@.len() as int)[i as int] == a@[i as int]);
            }
            return false;
        }
        i += 1;
    }
    proof {
        assert(s@.take(prefix@.len() as int) =~= prefix@);
    }
    true
}

pub open spec fn entry_models(v: Seq<(String, bool)>) -> Seq<(Seq<char>, bool)> {
    v.map_values(|e: (String, bool)| (e.0@, e.1))
}

/// The entries of a directory, each with whether it is one itself, as completions in order.
pub fn suggest(dir: &str, prefix: &str, entries: &Vec<(String, bool)>) -> (r: Vec<Suggestion>)
    ensures
        suggestion_models(r@) == suggested(dir@, prefix@, entry_models(entries@)),
{
    let ghost es = entry_models(entries@);
    let mut out: Vec<Suggestion> = Vec::new();
    let mut i: usize = 0;
    proof {
        assert(suggestion_models(out@) =~= suggested(dir@, prefix@, es.take(0)));
    }
    while i < entries.len()
        invariant
            i <= entries@.len(),
            es == entry_models(entries@),
            suggestion_models(out@) == suggested(dir@, prefix@, es.take(i as int)),
        decreases entries.len() - i,
    {
        proof {
            assert(es.take(i + 1).drop_last() =~= es.take(i as int));
            assert(es.take(i + 1).last() == (entries@[i as int].0@, entries@[i as int].1));
        }
        if starts_with(entries[i].0.as_str(), prefix) {
            let is_dir = entries[i].1;
            let value = if is_dir {
                text::cat3(dir, entries[i].0.as_str(), "/")
            } else {
                let mut v = dir.to_string();
                v.append(entries[i].0.as_str());
                v
            };
            let x = Suggestion { value, append_whitespace: !is_dir };
            insert_suggestion(&mut out, x);
        }
        i += 1;
    }
    proof {
        assert(es.take(es.len() as int) =~= es);
    }
    out
}

fn insert_suggestion(out: &mut Vec<Suggestion>, x: Suggestion)
    ensures
        suggestion_models(final(out)@) == with_suggestion(suggestion_models(old(out)@), x@),
{
    let ghost ms = suggestion_models(out@);
    let mut pos: usize = out.len();
    while pos > 0 && !text::text_not_after(out[pos - 1].value.as_str(), x.value.as_str())
        invariant
            pos <= out@.len(),
            ms == suggestion_models(out@),
            out@ == old(out)@,
            forall|j: int|
                pos <= j < out@.len() ==> !text::text_le((#[trigger] ms[j]).value, x.value@),
        ensures
            pos <= out@.len(),
            ms == suggestion_models(out@),
            out@ == old(out)@,
            forall|j: int|
                pos <= j < out@.len() ==> !text::text_le((#[trigger] ms[j]).value, x.value@),
            pos > 0 ==> text::text_le(ms[pos - 1].value, x.value@),
        decreases pos,
    {
        pos -= 1;
    }
    proof {
        lemma_insert_suggestion(ms, x@, pos as int);
    }
    out.insert(pos, x);
    proof {
        assert(suggestion_models(out@) =~= ms.insert(pos as int, x@));
    }
}

} // verus!
