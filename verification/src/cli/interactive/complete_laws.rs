//! What the word before the cursor is completed to.
use super::autocomplete;
use super::autocomplete::CompletionModel;
use super::autocomplete::SuggestionModel;
use crate::text;
use vstd::prelude::*;

verus! {

proof fn lemma_last_word(s: Seq<char>, i: int)
    requires
        0 <= i <= s.len(),
    ensures
        0 <= autocomplete::last_word_start(s, i) <= i,
        forall|k: int|
            autocomplete::last_word_start(s, i) <= k < i ==> !text::is_white(#[trigger] s[k]),
        autocomplete::last_word_start(s, i) > 0 ==> text::is_white(
            s[autocomplete::last_word_start(s, i) - 1],
        ),
    decreases i,
{
    if i > 0 && !text::is_white(s[i - 1]) {
        lemma_last_word(s, i - 1);
    }
}

proof fn lemma_behind_slash(s: Seq<char>, i: int)
    requires
        0 <= i <= s.len(),
    ensures
        0 <= autocomplete::behind_slash(s, i) <= i,
        forall|k: int| autocomplete::behind_slash(s, i) <= k < i ==> #[trigger] s[k] != '/',
        autocomplete::behind_slash(s, i) > 0 ==> s[autocomplete::behind_slash(s, i) - 1] == '/',
    decreases i,
{
    if i > 0 && s[i - 1] != '/' {
        lemma_behind_slash(s, i - 1);
    }
}

proof fn lemma_trimmed_start_is_an_end(s: Seq<char>) -> (n: int)
    ensures
        0 <= n <= s.len(),
        text::trimmed_start(s) == s.skip(n),
    decreases s.len(),
{
    if s.len() > 0 && text::is_white(s[0]) {
        let n = lemma_trimmed_start_is_an_end(s.skip(1));
        assert(s.skip(1).skip(n) =~= s.skip(n + 1));
        n + 1
    } else {
        assert(s.skip(0) =~= s);
        0
    }
}

/// The word that is completed is the one that the cursor stands behind: it holds no white space,
/// and it is the directory and the start of a name behind one another, the name without slashes.
/// Paths are completed for the command that indexes them, and before a search only.
pub proof fn law_last_word_is_completed(before: Seq<char>, searched: bool)
    ensures
        autocomplete::completion(before, searched) matches CompletionModel::Entries(
            dir,
            prefix,
            word,
        ) ==> {
            &&& dir + prefix == word
            &&& word.len() <= before.len() && before.skip(before.len() - word.len()) == word
            &&& before.len() > word.len() && text::is_white(before[before.len() - word.len() - 1])
            &&& forall|k: int| 0 <= k < word.len() ==> !text::is_white(#[trigger] word[k])
            &&& forall|k: int| 0 <= k < prefix.len() ==> #[trigger] prefix[k] != '/'
            &&& dir.len() > 0 ==> dir.last() == '/'
        },
        !(autocomplete::completion(before, searched) is Nothing) ==> !searched
            && text::trimmed_start(before)[0] == 'i',
{
    let n = lemma_trimmed_start_is_an_end(before);
    let t = text::trimmed_start(before);
    if !searched && t.len() >= 2 && t[0] == 'i' && t[1] == ' ' {
        let args = t.skip(2);
        let at = autocomplete::last_word_start(args, args.len() as int);
        lemma_last_word(args, args.len() as int);
        let word = args.skip(at);
        let k = autocomplete::behind_slash(word, word.len() as int);
        lemma_behind_slash(word, word.len() as int);
        assert(word.take(k) + word.skip(k) =~= word);
        assert(before.skip(before.len() - word.len()) =~= word);
        let gap = before.len() - word.len() - 1;
        assert(gap == n + 2 + at - 1);
        if at > 0 {
            assert(before[gap] == args[at - 1]);
        } else {
            assert(before[gap] == t[1]);
            assert(text::is_white(' '));
        }
        assert forall|x: int| 0 <= x < word.len() implies !text::is_white(#[trigger] word[x]) by {
            assert(word[x] == args[at + x]);
        }
        assert forall|x: int| 0 <= x < word.skip(k).len() implies #[trigger] word.skip(k)[x]
            != '/' by {
            assert(word.skip(k)[x] == word[k + x]);
        }
    }
}

proof fn lemma_with_suggestion(s: Seq<SuggestionModel>, x: SuggestionModel)
    ensures
        autocomplete::with_suggestion(s, x).to_multiset() =~= s.to_multiset().insert(x),
    decreases s.len(),
{
    broadcast use vstd::seq_lib::group_to_multiset_ensures;

    if s.len() > 0 && !text::text_le(s.last().value, x.value) {
        let front = s.drop_last();
        lemma_with_suggestion(front, x);
        assert(front.push(s.last()) =~= s);
        assert(s.to_multiset() =~= front.to_multiset().insert(s.last()));
        assert(autocomplete::with_suggestion(s, x) == autocomplete::with_suggestion(front, x).push(
            s.last(),
        ));
    }
}

/// Whether a completion is one to an entry: its name in the directory, with a slash behind a
/// directory and with room behind a file.
pub open spec fn completes_to(
    x: SuggestionModel,
    dir: Seq<char>,
    prefix: Seq<char>,
    entry: (Seq<char>, bool),
) -> bool {
    &&& prefix.is_prefix_of(entry.0)
    &&& x.append_whitespace == !entry.1
    &&& x.value == (if entry.1 {
        dir + entry.0 + seq!['/']
    } else {
        dir + entry.0
    })
}

/// What is suggested are the entries of the directory whose names go on from what was typed, all
/// of them and no others.
pub proof fn law_matching_entries_are_suggested(
    dir: Seq<char>,
    prefix: Seq<char>,
    entries: Seq<(Seq<char>, bool)>,
    x: SuggestionModel,
)
    ensures
        autocomplete::suggested(dir, prefix, entries).contains(x) <==> exists|i: int|
            0 <= i < entries.len() && completes_to(x, dir, prefix, #[trigger] entries[i]),
    decreases entries.len(),
{
    broadcast use vstd::seq_lib::group_to_multiset_ensures;

    let all = autocomplete::suggested(dir, prefix, entries);
    if entries.len() > 0 {
        reveal_strlit("/");
        assert("/"@ =~= seq!['/']);
        let front = entries.drop_last();
        let last = entries.len() - 1;
        let e = entries[last];
        let before = autocomplete::suggested(dir, prefix, front);
        let own = autocomplete::suggestion(dir, e.0, e.1);
        law_matching_entries_are_suggested(dir, prefix, front, x);
        lemma_with_suggestion(before, own);
        assert(autocomplete::starts(e.0, prefix) <==> prefix.is_prefix_of(e.0)) by {
            if prefix.is_prefix_of(e.0) {
                assert(e.0.take(prefix.len() as int) =~= prefix);
            }
        }
        assert(completes_to(x, dir, prefix, e) <==> autocomplete::starts(e.0, prefix) && x == own);
        if autocomplete::starts(e.0, prefix) {
            assert(all.contains(x) <==> all.to_multiset().count(x) > 0);
            assert(before.contains(x) <==> before.to_multiset().count(x) > 0);
            assert(all.contains(x) <==> before.contains(x) || x == own);
        }
        if before.contains(x) {
            let i = choose|i: int|
                0 <= i < front.len() && completes_to(x, dir, prefix, #[trigger] front[i]);
            assert(completes_to(x, dir, prefix, entries[i]));
        }
        if exists|i: int|
            0 <= i < entries.len() && completes_to(x, dir, prefix, #[trigger] entries[i]) {
            let i = choose|i: int|
                0 <= i < entries.len() && completes_to(x, dir, prefix, #[trigger] entries[i]);
            if i < last {
                assert(completes_to(x, dir, prefix, front[i]));
            }
        }
        if completes_to(x, dir, prefix, e) {
            assert(completes_to(x, dir, prefix, entries[last]));
        }
    }
}

} // verus!
