//! What comes of a plan when its conflicts are resolved.
use crate::config::ConflictPolicy;
use crate::config::HardlinkPolicy;
use crate::config::SkipScope;
use crate::edit::action::ActionModel;
use crate::edit::confirm;
use crate::edit::confirm::ConflictState;
use crate::edit::confirm::HardlinkState;
use crate::edit::fs_operate;
use crate::edit::fs_operate::FsEntry;
use crate::edit::fs_operate::IssueModel;
use crate::edit::fs_operate::MoveModel;
use crate::edit::prompt::Asked;
use crate::edit::replace::Flow;
use crate::path;
use crate::types::ItemId;
use vstd::prelude::*;

verus! {

proof fn lemma_push_keeps<A>(s: Seq<A>, x: A, y: A)
    requires
        s.contains(x),
    ensures
        s.push(y).contains(x),
{
    let k = choose|k: int| 0 <= k < s.len() && s[k] == x;
    assert(s.push(y)[k] == x);
}

proof fn lemma_push_adds<A>(s: Seq<A>, y: A)
    ensures
        s.push(y).contains(y),
{
    assert(s.push(y)[s.len() as int] == y);
}

/// Whether a move is the one that was asked for, but for its target.
pub open spec fn is_made_of(m: MoveModel, asked: MoveModel) -> bool {
    m.item == asked.item && m.from == asked.from && m.crossed == asked.crossed
}

/// Each move is made once the conflicts are resolved, from the same place, or its item is
/// skipped; and an item that is skipped stays so. The result is where the move stands.
pub proof fn law_moves_are_made_or_left_out(
    moves: Seq<MoveModel>,
    skipped: Seq<ItemId>,
    used: nat,
    fs: Seq<FsEntry>,
    policy: Option<ConflictPolicy>,
    interactive: bool,
    log: Seq<Asked>,
    k: int,
) -> (j: int)
    requires
        0 <= k < moves.len(),
    ensures
        confirm::conflicts_resolved(
            moves,
            skipped,
            used,
            fs,
            policy,
            interactive,
            log,
        ) matches Flow::Going(s) ==> s.skipped.contains(moves[k].item) || (0 <= j < s.moves.len()
            && is_made_of(s.moves[j], moves[k])),
    decreases moves.len(),
{
    let front = moves.drop_last();
    match confirm::conflicts_resolved(front, skipped, used, fs, policy, interactive, log) {
        Flow::Going(s) => {
            let m = moves.last();
            let j = if k < front.len() {
                law_moves_are_made_or_left_out(
                    front,
                    skipped,
                    used,
                    fs,
                    policy,
                    interactive,
                    log,
                    k,
                )
            } else {
                s.moves.len() as int
            };
            match confirm::conflict_one(s, m, fs, policy, interactive, log) {
                Flow::Going(t) => {
                    lemma_push_adds(s.skipped, m.item);
                    if s.skipped.contains(moves[k].item) {
                        lemma_push_keeps(s.skipped, moves[k].item, m.item);
                    }
                },
                _ => {},
            }
            j
        },
        _ => 0,
    }
}

/// Each move that is left once the conflicts are resolved was asked for: it is of the same item
/// and from the same place, and it keeps its target where that was free. The result is where
/// the move stood.
pub proof fn law_left_moves_were_asked_for(
    moves: Seq<MoveModel>,
    skipped: Seq<ItemId>,
    used: nat,
    fs: Seq<FsEntry>,
    policy: Option<ConflictPolicy>,
    interactive: bool,
    log: Seq<Asked>,
    s: ConflictState,
    j: int,
) -> (k: int)
    requires
        confirm::conflicts_resolved(moves, skipped, used, fs, policy, interactive, log)
            == Flow::Going(s),
        0 <= j < s.moves.len(),
    ensures
        0 <= k < moves.len(),
        is_made_of(s.moves[j], moves[k]),
        s.moves[j].to == moves[k].to || fs_operate::exists_at(fs, moves[k].to) || exists|i: int|
            0 <= i < j && path::same((#[trigger] s.moves[i]).to, moves[k].to),
    decreases moves.len(),
{
    let front = moves.drop_last();
    match confirm::conflicts_resolved(front, skipped, used, fs, policy, interactive, log) {
        Flow::Going(before) => {
            if j < before.moves.len() {
                let k = law_left_moves_were_asked_for(
                    front,
                    skipped,
                    used,
                    fs,
                    policy,
                    interactive,
                    log,
                    before,
                    j,
                );
                assert(s.moves[j] == before.moves[j]);
                if !(s.moves[j].to == moves[k].to || fs_operate::exists_at(fs, moves[k].to)) {
                    let i = choose|i: int|
                        0 <= i < j && path::same((#[trigger] before.moves[i]).to, moves[k].to);
                    assert(s.moves[i] == before.moves[i]);
                }
                k
            } else {
                let k = moves.len() - 1;
                let taken = confirm::targets(before.moves);
                if fs_operate::holds_path(taken, moves[k].to) {
                    let i = choose|i: int|
                        0 <= i < taken.len() && path::same(#[trigger] taken[i], moves[k].to);
                    assert(taken[i] == before.moves[i].to);
                    assert(s.moves[i] == before.moves[i]);
                }
                k
            }
        },
        _ => 0,
    }
}

/// Where all targets are free and different nothing is changed, nobody is skipped and nothing
/// is asked, whatever the policy is.
pub proof fn law_free_moves_stay(
    moves: Seq<MoveModel>,
    skipped: Seq<ItemId>,
    used: nat,
    fs: Seq<FsEntry>,
    policy: Option<ConflictPolicy>,
    interactive: bool,
    log: Seq<Asked>,
)
    requires
        confirm::targets_apart(fs, moves),
    ensures
        confirm::conflicts_resolved(moves, skipped, used, fs, policy, interactive, log)
            == Flow::Going(ConflictState { moves, skipped, for_all: None, used }),
    decreases moves.len(),
{
    if moves.len() == 0 {
        assert(moves =~= Seq::<MoveModel>::empty());
    } else {
        let front = moves.drop_last();
        let last = moves.len() - 1;
        assert forall|k: int| 0 <= k < front.len() implies !fs_operate::exists_at(
            fs,
            (#[trigger] front[k]).to,
        ) by {
            assert(front[k] == moves[k]);
        }
        assert forall|j: int, k: int| 0 <= j < k < front.len() implies !path::same(
            (#[trigger] front[j]).to,
            (#[trigger] front[k]).to,
        ) by {
            assert(front[j] == moves[j] && front[k] == moves[k]);
        }
        law_free_moves_stay(front, skipped, used, fs, policy, interactive, log);
        let taken = confirm::targets(front);
        assert forall|k: int| 0 <= k < taken.len() implies !path::same(
            #[trigger] taken[k],
            moves[last].to,
        ) by {
            assert(taken[k] == front[k].to && front[k] == moves[k]);
        }
        assert(front.push(moves[last]) =~= moves);
    }
}

/// What a policy does. Where conflicts end an edit, or nobody can be asked, an edit that goes on
/// had none: its moves are as they were. Where they are skipped, moves keep their targets. Where
/// a number is put behind the name, every move is made and nobody is skipped.
pub proof fn law_policies_decide(
    moves: Seq<MoveModel>,
    skipped: Seq<ItemId>,
    used: nat,
    fs: Seq<FsEntry>,
    policy: Option<ConflictPolicy>,
    interactive: bool,
    log: Seq<Asked>,
)
    ensures
        (match policy {
            Some(p) => p == ConflictPolicy::Abort || p == ConflictPolicy::First,
            None => !interactive,
        }) ==> (confirm::conflicts_resolved(
            moves,
            skipped,
            used,
            fs,
            policy,
            interactive,
            log,
        ) matches Flow::Going(s) ==> s.moves == moves && s.skipped == skipped && s.used == used),
        policy == Some(ConflictPolicy::Skip) ==> (confirm::conflicts_resolved(
            moves,
            skipped,
            used,
            fs,
            policy,
            interactive,
            log,
        ) matches Flow::Going(s) && s.used == used && forall|j: int|
            0 <= j < s.moves.len() ==> moves.contains(#[trigger] s.moves[j])),
        policy == Some(ConflictPolicy::Serial) ==> (confirm::conflicts_resolved(
            moves,
            skipped,
            used,
            fs,
            policy,
            interactive,
            log,
        ) matches Flow::Going(s) && s.used == used && s.skipped == skipped && s.moves.len()
            == moves.len() && forall|j: int|
            0 <= j < s.moves.len() ==> is_made_of(#[trigger] s.moves[j], moves[j])),
        policy is None && !interactive ==> (confirm::conflicts_resolved(
            moves,
            skipped,
            used,
            fs,
            policy,
            interactive,
            log,
        ) matches Flow::Going(s) ==> s.for_all is None),
    decreases moves.len(),
{
    if moves.len() == 0 {
        assert(moves =~= Seq::<MoveModel>::empty());
    } else {
        let front = moves.drop_last();
        let m = moves.last();
        law_policies_decide(front, skipped, used, fs, policy, interactive, log);
        assert(front.push(m) =~= moves);
        match confirm::conflicts_resolved(front, skipped, used, fs, policy, interactive, log) {
            Flow::Going(s) => {
                match confirm::conflict_one(s, m, fs, policy, interactive, log) {
                    Flow::Going(t) => {
                        if policy == Some(ConflictPolicy::Skip) {
                            assert forall|j: int| 0 <= j < t.moves.len() implies moves.contains(
                                #[trigger] t.moves[j],
                            ) by {
                                if j < s.moves.len() {
                                    assert(t.moves[j] == s.moves[j]);
                                    assert(front.contains(s.moves[j]));
                                    lemma_push_keeps(front, s.moves[j], m);
                                } else {
                                    assert(moves[moves.len() - 1] == m);
                                }
                            }
                        }
                        if policy == Some(ConflictPolicy::Serial) {
                            assert forall|j: int| 0 <= j < t.moves.len() implies is_made_of(
                                #[trigger] t.moves[j],
                                moves[j],
                            ) by {
                                if j < s.moves.len() {
                                    assert(t.moves[j] == s.moves[j]);
                                    assert(front[j] == moves[j]);
                                }
                            }
                        }
                    },
                    _ => {},
                }
            },
            _ => {},
        }
    }
}

/// What comes of items at several paths: the moves that were settled stay. By the policy all
/// moves of such an item are made, or none and the item is skipped, or there is no such item.
pub proof fn law_several_paths_are_resolved(
    moves: Seq<MoveModel>,
    issues: Seq<IssueModel>,
    skipped: Seq<ItemId>,
    used: nat,
    policy: Option<HardlinkPolicy>,
    interactive: bool,
    log: Seq<Asked>,
    k: int,
)
    requires
        0 <= k < issues.len(),
    ensures
        confirm::hardlinks_resolved(
            moves,
            issues,
            skipped,
            used,
            policy,
            interactive,
            log,
        ) matches Flow::Going(s) ==> {
            &&& moves.is_prefix_of(s.moves)
            &&& issues[k] matches IssueModel::MultipleLocations(item, _, cands) ==> {
                &&& policy == Some(HardlinkPolicy::All) ==> s.skipped == skipped && forall|i: int|
                    0 <= i < cands.len() ==> s.moves.contains(#[trigger] cands[i])
                &&& policy == Some(HardlinkPolicy::Skip) ==> s.moves == moves && s.skipped.contains(
                    item,
                )
                &&& policy != Some(HardlinkPolicy::Abort) && (policy is None ==> interactive)
            }
        },
        policy == Some(HardlinkPolicy::All) || policy == Some(HardlinkPolicy::Skip)
            ==> confirm::hardlinks_resolved(
            moves,
            issues,
            skipped,
            used,
            policy,
            interactive,
            log,
        ) is Going,
    decreases issues.len(),
{
    let front = issues.drop_last();
    let last = issues.len() - 1;
    lemma_paths_resolved(moves, front, skipped, used, policy, interactive, log);
    if k < last {
        law_several_paths_are_resolved(
            moves,
            front,
            skipped,
            used,
            policy,
            interactive,
            log,
            k,
        );
        assert(front[k] == issues[k]);
    }
    match confirm::hardlinks_resolved(moves, front, skipped, used, policy, interactive, log) {
        Flow::Going(s) => {
            match confirm::hardlink_one(s, issues[last], policy, interactive, log) {
                Flow::Going(t) => {
                    assert(s.moves.is_prefix_of(t.moves));
                    match issues[last] {
                        IssueModel::MultipleLocations(item, _, cands) => {
                            lemma_push_adds(s.skipped, item);
                            match issues[k] {
                                IssueModel::MultipleLocations(other, _, more) => {
                                    if s.skipped.contains(other) {
                                        lemma_push_keeps(s.skipped, other, item);
                                    }
                                    if policy == Some(HardlinkPolicy::All) {
                                        assert(t.moves == s.moves + cands);
                                        assert forall|i: int| 0 <= i < more.len() implies
                                            t.moves.contains(#[trigger] more[i]) by {
                                            if k == last {
                                                assert(t.moves[s.moves.len() + i] == more[i]);
                                            } else {
                                                assert(s.moves.contains(more[i]));
                                                let x = choose|x: int|
                                                    0 <= x < s.moves.len() && s.moves[x] == more[i];
                                                assert(t.moves[x] == more[i]);
                                            }
                                        }
                                    }
                                },
                                _ => {},
                            }
                        },
                        _ => {},
                    }
                },
                _ => {},
            }
        },
        _ => {},
    }
}

proof fn lemma_paths_resolved(
    moves: Seq<MoveModel>,
    issues: Seq<IssueModel>,
    skipped: Seq<ItemId>,
    used: nat,
    policy: Option<HardlinkPolicy>,
    interactive: bool,
    log: Seq<Asked>,
)
    ensures
        policy == Some(HardlinkPolicy::All) || policy == Some(HardlinkPolicy::Skip)
            ==> confirm::hardlinks_resolved(
            moves,
            issues,
            skipped,
            used,
            policy,
            interactive,
            log,
        ) is Going,
        confirm::hardlinks_resolved(
            moves,
            issues,
            skipped,
            used,
            policy,
            interactive,
            log,
        ) matches Flow::Going(s) ==> {
            &&& moves.is_prefix_of(s.moves)
            &&& policy == Some(HardlinkPolicy::All) ==> s.skipped == skipped
            &&& policy == Some(HardlinkPolicy::Skip) ==> s.moves == moves
            &&& policy is None && !interactive ==> s.for_all is None
        },
    decreases issues.len(),
{
    if issues.len() > 0 {
        lemma_paths_resolved(moves, issues.drop_last(), skipped, used, policy, interactive, log);
    }
}

/// Where no item lies at several paths, nothing is changed and nothing is asked.
pub proof fn law_single_paths_need_no_choice(
    moves: Seq<MoveModel>,
    issues: Seq<IssueModel>,
    skipped: Seq<ItemId>,
    used: nat,
    policy: Option<HardlinkPolicy>,
    interactive: bool,
    log: Seq<Asked>,
)
    requires
        forall|k: int| 0 <= k < issues.len() ==> !((#[trigger] issues[k]) is MultipleLocations),
    ensures
        confirm::hardlinks_resolved(moves, issues, skipped, used, policy, interactive, log)
            == Flow::Going(HardlinkState { moves, skipped, for_all: None, used }),
    decreases issues.len(),
{
    if issues.len() > 0 {
        let front = issues.drop_last();
        assert forall|k: int| 0 <= k < front.len() implies !((#[trigger] front[k])
            is MultipleLocations) by {
            assert(front[k] == issues[k]);
        }
        law_single_paths_need_no_choice(moves, front, skipped, used, policy, interactive, log);
        assert(!(issues[issues.len() - 1] is MultipleLocations));
    }
}

/// The directory that a file is moved to is there or is made, and directories that were to be
/// made before still are.
pub proof fn law_needed_directories_are_made(
    mkdirs: Seq<Seq<char>>,
    moves: Seq<MoveModel>,
    fs: Seq<FsEntry>,
    k: int,
)
    requires
        0 <= k < moves.len(),
    ensures
        mkdirs.is_prefix_of(confirm::with_missing_parents(mkdirs, moves, fs)),
        path::parent_of(moves[k].to) matches Some(d) ==> fs_operate::exists_at(fs, d)
            || fs_operate::holds_path(confirm::with_missing_parents(mkdirs, moves, fs), d),
    decreases moves.len(),
{
    let front = moves.drop_last();
    let before = confirm::with_missing_parents(mkdirs, front, fs);
    let after = confirm::with_missing_parents(mkdirs, moves, fs);
    if front.len() == 0 {
        assert(before == mkdirs);
    } else {
        law_needed_directories_are_made(
            mkdirs,
            front,
            fs,
            if k < front.len() {
                k
            } else {
                0
            },
        );
    }
    assert(before.is_prefix_of(after));
    match path::parent_of(moves[k].to) {
        Some(d) => {
            if k < front.len() {
                assert(front[k] == moves[k]);
                if fs_operate::holds_path(before, d) {
                    let i = choose|i: int| 0 <= i < before.len() && path::same(#[trigger] before[i], d);
                    assert(after[i] == before[i]);
                }
            } else if !fs_operate::exists_at(fs, d) && !fs_operate::holds_path(before, d) {
                assert(after[before.len() as int] == d);
                assert(path::same(after[before.len() as int], d));
            }
        },
        None => {},
    }
}

/// Only directories that a move needs and that are not there are made besides those that were
/// to be made.
pub proof fn law_made_directories_are_needed(
    mkdirs: Seq<Seq<char>>,
    moves: Seq<MoveModel>,
    fs: Seq<FsEntry>,
    i: int,
) -> (k: int)
    requires
        mkdirs.len() <= i < confirm::with_missing_parents(mkdirs, moves, fs).len(),
    ensures
        0 <= k < moves.len(),
        path::parent_of(moves[k].to) == Some(confirm::with_missing_parents(mkdirs, moves, fs)[i]),
        !fs_operate::exists_at(fs, confirm::with_missing_parents(mkdirs, moves, fs)[i]),
    decreases moves.len(),
{
    let front = moves.drop_last();
    let before = confirm::with_missing_parents(mkdirs, front, fs);
    if moves.len() > 0 && i < before.len() {
        law_made_directories_are_needed(mkdirs, front, fs, i)
    } else {
        moves.len() - 1
    }
}

/// An edit is stopped by the first issue that leaves a file where it cannot be moved from or
/// to: a file that is not there or has no place, a target that cannot be written to, lies
/// inside what is moved or is moved itself, or a disk that is full. Other issues stop none.
pub proof fn law_first_issue_stops(issues: Seq<IssueModel>, k: int)
    requires
        0 <= k < issues.len(),
    ensures
        confirm::first_fatal(issues) is None ==> (issues[k] is MultipleLocations || issues[k]
            is CreateUnsupported || issues[k] is UntagPathUnsupported),
        confirm::first_fatal(issues) matches Some(i) ==> issues.contains(i) && !(i
            is MultipleLocations || i is CreateUnsupported || i is UntagPathUnsupported),
    decreases issues.len(),
{
    let rest = issues.skip(1);
    if rest.len() > 0 {
        law_first_issue_stops(
            rest,
            if k > 0 {
                k - 1
            } else {
                0
            },
        );
        match confirm::first_fatal(rest) {
            Some(i) => {
                let x = choose|x: int| 0 <= x < rest.len() && rest[x] == i;
                assert(issues[x + 1] == i);
            },
            None => {},
        }
    }
}

/// What is written to items that are not skipped is still written, and where only moves are
/// left out all of it is.
pub proof fn law_other_items_are_written(
    actions: Seq<ActionModel>,
    skipped: Seq<ItemId>,
    scope: SkipScope,
    k: int,
)
    requires
        0 <= k < actions.len(),
    ensures
        scope == SkipScope::FsOnly || !skipped.contains(actions[k].id()) ==> confirm::synced(
            actions,
            skipped,
            scope,
        ).contains(actions[k]),
{
    if scope == SkipScope::Item && !skipped.contains(actions[k].id()) {
        actions.lemma_filter_contains(|a: ActionModel| !skipped.contains(a.id()), k);
    }
}

} // verus!
