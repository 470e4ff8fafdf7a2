//! What the answers to questions stand for.
use crate::edit::prompt;
use crate::edit::prompt::ConflictChoice;
use crate::edit::prompt::HardlinkModel;
use crate::edit::prompt::ReplaceModel;
use crate::text;
use crate::types::BiticalModel;
use vstd::prelude::*;

verus! {

proof fn lemma_numbers_are_read(n: usize)
    ensures
        text::trimmed(text::nat_text(n as nat)) == text::nat_text(n as nat),
        text::parsed_usize(text::nat_text(n as nat)) == Some(n),
        !text::nat_text(n as nat).contains(','),
{
    let s = text::nat_text(n as nat);
    text::lemma_nat_text_digits(n as nat);
    text::law_show_parse_usize(n);
    assert(text::is_digit(s[0]));
    assert(text::is_digit(s[s.len() - 1]));
    text::lemma_trimmed_bare(s);
    if s.contains(',') {
        let k = choose|k: int| 0 <= k < s.len() && s[k] == ',';
        assert(text::is_digit(s[k]));
    }
}

/// The number of a value picks that value: from one on only for the item that is asked about,
/// behind the numbers of all values once more, for all that follow. A line without a number picks
/// the first value, and only for the item.
pub proof fn law_numbers_pick_values(candidates: Seq<BiticalModel>, k: int, line: Seq<char>)
    requires
        0 <= k < candidates.len(),
        2 * candidates.len() <= usize::MAX,
    ensures
        prompt::replace_answered(text::nat_text((k + 1) as nat), candidates) == (ReplaceModel {
            label: candidates[k],
            for_all: false,
        }),
        prompt::replace_answered(
            text::nat_text((candidates.len() + k + 1) as nat),
            candidates,
        ) == (ReplaceModel { label: candidates[k], for_all: true }),
        text::parsed_usize(text::trimmed(line)) is None ==> prompt::replace_answered(
            line,
            candidates,
        ) == (ReplaceModel { label: candidates[0], for_all: false }),
        candidates.contains(prompt::replace_answered(line, candidates).label),
{
    lemma_numbers_are_read((k + 1) as usize);
    lemma_numbers_are_read((candidates.len() + k + 1) as usize);
    let r = prompt::replace_answered(line, candidates);
    assert(candidates.contains(candidates[0]));
    let n = match text::parsed_usize(text::trimmed(line)) {
        Some(n) => n as int,
        None => 1,
    };
    let at = if n == 0 {
        0
    } else {
        n - 1
    };
    let m = candidates.len() as int;
    if at < m {
        assert(candidates.contains(candidates[at]));
    } else if at - m < m {
        assert(candidates.contains(candidates[at - m]));
    }
}

/// The number of a path picks that path alone; the numbers behind those of the paths stand for
/// all paths, for all paths from then on, for none, and for none from then on, in this order. A
/// line that is no number, and no list of them, ends the edit.
pub proof fn law_numbers_pick_paths(n: nat, k: int, line: Seq<char>)
    requires
        0 <= k < n,
        n + 5 <= usize::MAX,
    ensures
        prompt::hardlink_answered(text::nat_text((k + 1) as nat), n) == HardlinkModel::Selected(
            seq![k as usize],
        ),
        prompt::hardlink_answered(text::nat_text(n + 1), n) == HardlinkModel::All,
        prompt::hardlink_answered(text::nat_text(n + 2), n) == HardlinkModel::AllForSubsequent,
        prompt::hardlink_answered(text::nat_text(n + 3), n) == HardlinkModel::Skip,
        prompt::hardlink_answered(text::nat_text(n + 4), n) == HardlinkModel::SkipAll,
        prompt::hardlink_answered(text::nat_text(n + 5), n) == HardlinkModel::Abort,
        text::parsed_usize(text::trimmed(line)) is None && !text::trimmed(line).contains(',')
            ==> prompt::hardlink_answered(line, n) == HardlinkModel::Abort,
{
    lemma_numbers_are_read((k + 1) as usize);
    lemma_numbers_are_read((n + 1) as usize);
    lemma_numbers_are_read((n + 2) as usize);
    lemma_numbers_are_read((n + 3) as usize);
    lemma_numbers_are_read((n + 4) as usize);
    lemma_numbers_are_read((n + 5) as usize);
}

/// A list of numbers picks the paths with these numbers, and nothing else: a number that no path
/// has, and what is no number, does not count.
pub proof fn law_listed_paths_are_picked(pieces: Seq<Seq<char>>, n: nat, at: usize)
    ensures
        prompt::picked(pieces, n).contains(at) <==> at < n && exists|i: int|
            0 <= i < pieces.len() && (text::parsed_usize(text::trimmed(#[trigger] pieces[i])) matches Some(
                k,
            ) && k == at + 1),
    decreases pieces.len(),
{
    if pieces.len() > 0 {
        let front = pieces.drop_last();
        let last = pieces.len() - 1;
        law_listed_paths_are_picked(front, n, at);
        let before = prompt::picked(front, n);
        let own = text::parsed_usize(text::trimmed(pieces[last]));
        let all = prompt::picked(pieces, n);
        if before.contains(at) {
            let x = choose|x: int| 0 <= x < before.len() && before[x] == at;
            assert(all[x] == at);
            let i = choose|i: int|
                0 <= i < front.len() && (text::parsed_usize(
                    text::trimmed(#[trigger] front[i]),
                ) matches Some(k) && k == at + 1);
            assert(pieces[i] == front[i]);
        }
        if own is Some && 1 <= own->0 <= n {
            assert(all[before.len() as int] == (own->0 - 1) as usize);
        }
        if all.contains(at) && !before.contains(at) {
            let x = choose|x: int| 0 <= x < all.len() && all[x] == at;
            if x < before.len() {
                assert(before[x] == at);
            }
            assert(own is Some && own->0 == at + 1);
            assert(pieces[last] == pieces.last());
        }
        if exists|i: int|
            0 <= i < pieces.len() && (text::parsed_usize(text::trimmed(#[trigger] pieces[i])) matches Some(
                k,
            ) && k == at + 1) {
            let i = choose|i: int|
                0 <= i < pieces.len() && (text::parsed_usize(
                    text::trimmed(#[trigger] pieces[i]),
                ) matches Some(k) && k == at + 1);
            if i < last {
                assert(front[i] == pieces[i]);
            }
        }
    }
}

/// An edit goes on only where it is agreed to: a line that holds anything but a single letter, or
/// nothing, does not agree, and white space around the letter does not count.
pub proof fn law_silence_is_no_agreement(line: Seq<char>)
    ensures
        prompt::agreed(line) <==> text::trimmed(line) == seq!['y'] || text::trimmed(line)
            == seq!['Y'],
{
    reveal_strlit("y");
    let s = text::trimmed(line);
    assert("y"@ =~= seq!['y']);
    if s.len() == 1 {
        assert(s =~= seq![s[0]]);
    }
    if s == seq!['y'] || s == seq!['Y'] {
        assert(s.len() == 1);
        assert(s[0] == 'y' || s[0] == 'Y');
    }
}

/// A conflict ends the edit unless a line says otherwise, and no two lines but for white space
/// make the same other choice.
pub proof fn law_conflicts_abort_by_default(a: Seq<char>, b: Seq<char>)
    ensures
        text::trimmed(a).len() != 1 ==> prompt::conflict_answered(a) == ConflictChoice::Abort,
        prompt::conflict_answered(a) != ConflictChoice::Abort && prompt::conflict_answered(a)
            == prompt::conflict_answered(b) ==> text::trimmed(a) == text::trimmed(b),
{
    reveal_strlit("2");
    reveal_strlit("3");
    reveal_strlit("4");
    reveal_strlit("5");
}

} // verus!
