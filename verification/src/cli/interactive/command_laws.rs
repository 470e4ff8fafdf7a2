//! What the lines of the interactive mode are understood as.
use super::autocomplete;
use super::command;
use super::command::CommandErrorModel;
use super::command::CommandModel;
use super::command::PathScan;
use crate::text;
use vstd::prelude::*;

verus! {

/// Whether the quotes of a text come in pairs.
pub open spec fn quotes_are_closed(s: Seq<char>) -> bool {
    s.filter(|c: char| c == '"').len() % 2 == 0
}

/// Whether a text holds something, and no white space at either end.
pub open spec fn is_bare(s: Seq<char>) -> bool {
    s.len() > 0 && !text::is_white(s[0]) && !text::is_white(s.last())
}

proof fn lemma_quotes(s: Seq<char>)
    ensures
        command::scanned(s).in_quote == !quotes_are_closed(s),
    decreases s.len(),
{
    let quote = |c: char| c == '"';
    reveal_with_fuel(Seq::filter, 2);
    if s.len() == 0 {
        assert(s.filter(quote) =~= s);
    } else {
        let front = s.drop_last();
        lemma_quotes(front);
        assert(s.filter(quote) == if s.last() == '"' {
            front.filter(quote).push(s.last())
        } else {
            front.filter(quote)
        });
    }
}

/// What holds no quotes, and white space in quotes only, is read as part of one path.
proof fn lemma_read_on(a: Seq<char>, p: Seq<char>)
    requires
        forall|k: int|
            0 <= k < p.len() ==> #[trigger] p[k] != '"' && (command::scanned(a).in_quote
                || !text::is_white(p[k])),
    ensures
        command::scanned(a + p) == (PathScan {
            current: command::scanned(a).current + p,
            ..command::scanned(a)
        }),
    decreases p.len(),
{
    let before = command::scanned(a);
    if p.len() == 0 {
        assert(a + p =~= a);
        assert(before.current + p =~= before.current);
    } else {
        let front = p.drop_last();
        assert forall|k: int| 0 <= k < front.len() implies #[trigger] front[k] != '"' && (
        before.in_quote || !text::is_white(front[k])) by {
            assert(front[k] == p[k]);
        }
        lemma_read_on(a, front);
        let s = a + p;
        assert(s.drop_last() =~= a + front);
        assert(s.last() == p[p.len() - 1]);
        assert((before.current + front).push(p.last()) =~= before.current + p);
    }
}

proof fn lemma_scan_step(a: Seq<char>, c: char)
    ensures
        c == '"' ==> command::scanned(a.push(c)) == (PathScan {
            in_quote: !command::scanned(a).in_quote,
            ..command::scanned(a)
        }),
        c == ' ' && !command::scanned(a).in_quote ==> command::scanned(a.push(c)) == (PathScan {
            paths: command::paths_in(a),
            current: Seq::empty(),
            in_quote: false,
        }),
{
    let s = a.push(c);
    assert(s.drop_last() =~= a);
    assert(s.last() == c);
    assert(text::is_white(' '));
    assert(command::scanned(a).current.len() == 0 ==> command::scanned(a).current
        =~= Seq::<char>::empty());
}

/// The paths behind a command are read one by one: behind a space stands one more, which is the
/// text up to the end where that holds no space and no quotes, and what is in the quotes where
/// it is quoted as a whole. A line without text holds none.
pub proof fn law_written_paths_are_read_back(before: Seq<char>, p: Seq<char>)
    requires
        quotes_are_closed(before),
        p.len() > 0,
        !p.contains('"'),
    ensures
        command::paths_in(Seq::empty()) == Seq::<Seq<char>>::empty(),
        command::paths_in(before + seq![' ', '"'] + p + seq!['"']) == command::paths_in(
            before,
        ).push(p),
        (forall|k: int| 0 <= k < p.len() ==> !text::is_white(#[trigger] p[k]))
            ==> command::paths_in(before + seq![' '] + p) == command::paths_in(before).push(p),
{
    lemma_quotes(before);
    assert forall|k: int| 0 <= k < p.len() implies #[trigger] p[k] != '"' by {
        assert(p.contains(p[k]));
    }
    let none = Seq::<char>::empty();
    let behind = before.push(' ');
    lemma_scan_step(before, ' ');
    assert(before + seq![' '] =~= behind);
    assert(none + p =~= p);
    if forall|k: int| 0 <= k < p.len() ==> !text::is_white(#[trigger] p[k]) {
        lemma_read_on(behind, p);
    }
    let quoted = behind.push('"');
    lemma_scan_step(behind, '"');
    assert(before + seq![' ', '"'] =~= quoted);
    lemma_read_on(quoted, p);
    let all = quoted + p;
    lemma_scan_step(all, '"');
    assert(all + seq!['"'] =~= all.push('"'));
}

proof fn lemma_head(head: char, rest: Seq<char>)
    requires
        !text::is_white(head),
        is_bare(rest),
    ensures
        text::trimmed(seq![head, ' '] + rest) == seq![head, ' '] + rest,
        command::head_and_rest(seq![head, ' '] + rest) == (seq![head], rest),
{
    let line = seq![head, ' '] + rest;
    assert(line[0] == head);
    assert(line[1] == ' ');
    assert(line.last() == rest.last());
    text::lemma_trimmed_bare(line);
    text::lemma_trimmed_bare(rest);
    assert(text::is_white(' '));
    reveal_with_fuel(command::first_white, 3);
    assert(command::first_white(line, 0) == 1);
    assert(line.take(1) =~= seq![head]);
    assert(line.skip(2) =~= rest);
}

/// A search is understood with the query that is written behind it, in quotes or without them.
pub proof fn law_searches_are_read(q: Seq<char>, is_searched: bool)
    requires
        is_bare(q),
        !q.contains('"'),
    ensures
        command::read_command(seq!['s', ' '] + q, is_searched) == Ok::<
            CommandModel,
            CommandErrorModel,
        >(CommandModel::Search(q)),
        command::read_command(seq!['s', ' ', '"'] + q + seq!['"'], is_searched) == Ok::<
            CommandModel,
            CommandErrorModel,
        >(CommandModel::Search(q)),
{
    reveal_strlit("s");
    assert(seq!['s'] =~= "s"@);
    assert(q.contains(q[0]));
    lemma_head('s', q);
    text::lemma_trimmed_bare(q);
    let quoted = seq!['"'] + q + seq!['"'];
    assert(seq!['s', ' ', '"'] + q + seq!['"'] =~= seq!['s', ' '] + quoted);
    assert(quoted[0] == '"');
    assert(quoted.last() == '"');
    lemma_head('s', quoted);
    assert(quoted.subrange(1, quoted.len() - 1) =~= q);
}

/// A change of tags is understood with the query that was quoted and escaped, and the edit that
/// is written behind it. Nothing is changed before a search.
pub proof fn law_edits_are_read(q: Seq<char>, edit: Seq<char>)
    requires
        !q.contains('\\'),
        text::trimmed(q).len() > 0,
        is_bare(edit),
        edit[0] != '"',
    ensures
        command::read_command(
            seq!['t', ' ', '"'] + autocomplete::escaped(q) + seq!['"', ' '] + edit,
            true,
        ) == Ok::<CommandModel, CommandErrorModel>(CommandModel::Tag(q, edit)),
        command::read_command(
            seq!['u', ' ', '"'] + autocomplete::escaped(q) + seq!['"', ' '] + edit,
            true,
        ) == Ok::<CommandModel, CommandErrorModel>(CommandModel::Untag(q, edit)),
        command::read_command(
            seq!['t', ' ', '"'] + autocomplete::escaped(q) + seq!['"', ' '] + edit,
            false,
        ) is Err,
        command::read_command(
            seq!['u', ' ', '"'] + autocomplete::escaped(q) + seq!['"', ' '] + edit,
            false,
        ) is Err,
{
    reveal_strlit("s");
    reveal_strlit("t");
    reveal_strlit("u");
    reveal_strlit("\"\"");
    assert("s"@[0] == 's' && "t"@[0] == 't' && "u"@[0] == 'u');
    assert(seq!['t'] =~= "t"@);
    assert(seq!['u'] =~= "u"@);
    assert("\"\""@[0] == '"');
    let rest = seq!['"'] + autocomplete::escaped(q) + seq!['"', ' '] + edit;
    assert(rest[0] == '"');
    assert(rest.last() == edit.last());
    let behind = seq![' '] + edit;
    assert(behind[0] == ' ');
    assert(behind.skip(1) =~= edit);
    assert(text::is_white(' '));
    reveal_with_fuel(text::trimmed_start, 2);
    assert(text::trimmed_start(behind) == edit);
    assert(text::trimmed(behind) == edit);
    autocomplete::law_escaped_queries_are_read_back(q, edit, "t"@);
    autocomplete::law_escaped_queries_are_read_back(q, edit, "u"@);
    lemma_head('t', rest);
    lemma_head('u', rest);
    assert(seq!['t', ' ', '"'] + autocomplete::escaped(q) + seq!['"', ' '] + edit =~= seq!['t', ' ']
        + rest);
    assert(seq!['u', ' ', '"'] + autocomplete::escaped(q) + seq!['"', ' '] + edit =~= seq!['u', ' ']
        + rest);
}

/// The paths that are to be indexed are those that are written behind the command: one that is
/// quoted is taken as it is, and each further one is added to those before it.
pub proof fn law_indexed_paths_are_read(before: Seq<char>, p: Seq<char>)
    requires
        is_bare(before),
        quotes_are_closed(before),
        p.len() > 0,
        !p.contains('"'),
    ensures
        command::read_command(seq!['i', ' '] + before, false) matches Ok(CommandModel::Index(ps))
            && command::read_command(
            seq!['i', ' '] + before + seq![' ', '"'] + p + seq!['"'],
            false,
        ) == Ok::<CommandModel, CommandErrorModel>(CommandModel::Index(ps.push(p))),
{
    reveal_strlit("s");
    reveal_strlit("t");
    reveal_strlit("u");
    reveal_strlit("i");
    assert("s"@[0] == 's' && "t"@[0] == 't' && "u"@[0] == 'u');
    assert(seq!['i'] =~= "i"@);
    let further = before + seq![' ', '"'] + p + seq!['"'];
    assert(further[0] == before[0]);
    assert(further.last() == '"');
    lemma_head('i', before);
    lemma_head('i', further);
    law_written_paths_are_read_back(before, p);
    assert(seq!['i', ' '] + before + seq![' ', '"'] + p + seq!['"'] =~= seq!['i', ' '] + further);
}

} // verus!
