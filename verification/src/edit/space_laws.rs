//! Whether files fit where they are moved to.
use crate::edit::fs_operate;
use crate::edit::fs_operate::FsEntry;
use crate::edit::fs_operate::IssueModel;
use crate::edit::fs_operate::MoveModel;
use crate::edit::fs_operate::PlanModel;
use crate::path;
use vstd::prelude::*;

verus! {

/// The bytes of the files that moves bring to a directory from other devices: each counts by the
/// nearest directory to its target that is there.
pub open spec fn brought_to(fs: Seq<FsEntry>, moves: Seq<MoveModel>, dir: Seq<char>) -> nat
    decreases moves.len(),
{
    if moves.len() == 0 {
        0
    } else {
        let before = brought_to(fs, moves.drop_last(), dir);
        let m = moves.last();
        match fs_operate::size_at(fs, m.from) {
            Some(n) => if m.crossed && path::same(fs_operate::existing(fs, m.to), dir) {
                before + n as nat
            } else {
                before
            },
            None => before,
        }
    }
}

/// What a list of directories with bytes holds for one of them.
spec fn amount(totals: Seq<(Seq<char>, nat)>, dir: Seq<char>) -> nat
    decreases totals.len(),
{
    if totals.len() == 0 {
        0
    } else {
        amount(totals.skip(1), dir) + (if path::same(totals[0].0, dir) {
            totals[0].1
        } else {
            0
        })
    }
}

spec fn listed(totals: Seq<(Seq<char>, nat)>, dir: Seq<char>) -> bool {
    exists|k: int| 0 <= k < totals.len() && path::same((#[trigger] totals[k]).0, dir)
}

proof fn lemma_listed_step(first: (Seq<char>, nat), rest: Seq<(Seq<char>, nat)>, dir: Seq<char>)
    ensures
        listed(seq![first] + rest, dir) <==> path::same(first.0, dir) || listed(rest, dir),
        amount(seq![first] + rest, dir) == amount(rest, dir) + (if path::same(first.0, dir) {
            first.1
        } else {
            0
        }),
{
    let all = seq![first] + rest;
    assert(all[0] == first);
    assert(all.skip(1) =~= rest);
    if listed(rest, dir) {
        let k = choose|k: int| 0 <= k < rest.len() && path::same((#[trigger] rest[k]).0, dir);
        assert(all[k + 1] == rest[k]);
    }
    if listed(all, dir) && !path::same(first.0, dir) {
        let k = choose|k: int| 0 <= k < all.len() && path::same((#[trigger] all[k]).0, dir);
        assert(all[k] == rest[k - 1]);
    }
}

proof fn lemma_with_bytes(
    totals: Seq<(Seq<char>, nat)>,
    dir: Seq<char>,
    size: nat,
    other: Seq<char>,
)
    ensures
        amount(fs_operate::with_bytes(totals, dir, size), other) == amount(totals, other) + (
        if path::same(dir, other) {
            size
        } else {
            0
        }),
        listed(fs_operate::with_bytes(totals, dir, size), other) <==> listed(totals, other)
            || path::same(dir, other),
    decreases totals.len(),
{
    let none = Seq::<(Seq<char>, nat)>::empty();
    if totals.len() == 0 {
        lemma_listed_step((dir, size), none, other);
        assert(seq![(dir, size)] + none =~= seq![(dir, size)]);
        assert(amount(none, other) == 0);
    } else {
        let rest = totals.skip(1);
        assert(totals =~= seq![totals[0]] + rest);
        lemma_listed_step(totals[0], rest, other);
        if path::same(totals[0].0, dir) {
            lemma_listed_step((totals[0].0, totals[0].1 + size), rest, other);
        } else {
            lemma_with_bytes(rest, dir, size, other);
            lemma_listed_step(totals[0], fs_operate::with_bytes(rest, dir, size), other);
        }
    }
}

proof fn lemma_bytes(fs: Seq<FsEntry>, moves: Seq<MoveModel>, dir: Seq<char>)
    ensures
        fs_operate::bytes_needed(fs, moves) matches Ok(totals) ==> {
            &&& amount(totals, dir) == brought_to(fs, moves, dir)
            &&& listed(totals, dir) <==> exists|k: int|
                0 <= k < moves.len() && (#[trigger] moves[k]).crossed && path::same(
                    fs_operate::existing(fs, moves[k].to),
                    dir,
                )
        },
    decreases moves.len(),
{
    if moves.len() > 0 {
        let front = moves.drop_last();
        let last = moves.len() - 1;
        let m = moves[last];
        lemma_bytes(fs, front, dir);
        match fs_operate::bytes_needed(fs, front) {
            Ok(totals) => {
                match fs_operate::size_at(fs, m.from) {
                    Some(n) => {
                        lemma_with_bytes(totals, fs_operate::existing(fs, m.to), n as nat, dir);
                    },
                    None => {},
                }
                if exists|k: int|
                    0 <= k < front.len() && (#[trigger] front[k]).crossed && path::same(
                        fs_operate::existing(fs, front[k].to),
                        dir,
                    ) {
                    let k = choose|k: int|
                        0 <= k < front.len() && (#[trigger] front[k]).crossed && path::same(
                            fs_operate::existing(fs, front[k].to),
                            dir,
                        );
                    assert(moves[k] == front[k]);
                }
                if exists|k: int|
                    0 <= k < moves.len() && (#[trigger] moves[k]).crossed && path::same(
                        fs_operate::existing(fs, moves[k].to),
                        dir,
                    ) {
                    let k = choose|k: int|
                        0 <= k < moves.len() && (#[trigger] moves[k]).crossed && path::same(
                            fs_operate::existing(fs, moves[k].to),
                            dir,
                        );
                    if k < last {
                        assert(front[k] == moves[k]);
                    }
                }
            },
            Err(_) => {},
        }
    } else {
        assert(fs_operate::bytes_needed(fs, moves)->Ok_0 =~= Seq::<(Seq<char>, nat)>::empty());
    }
}

/// Whether no two of the directories are the same.
spec fn apart(totals: Seq<(Seq<char>, nat)>) -> bool {
    forall|i: int, j: int|
        0 <= i < j < totals.len() ==> !path::same((#[trigger] totals[i]).0, (#[trigger] totals[j]).0)
}

proof fn lemma_apart_step(first: (Seq<char>, nat), rest: Seq<(Seq<char>, nat)>)
    requires
        apart(rest),
        !listed(rest, first.0),
    ensures
        apart(seq![first] + rest),
{
    let all = seq![first] + rest;
    assert forall|i: int, j: int| 0 <= i < j < all.len() implies !path::same(
        (#[trigger] all[i]).0,
        (#[trigger] all[j]).0,
    ) by {
        assert(all[j] == rest[j - 1]);
        if i == 0 {
            assert(path::same(rest[j - 1].0, first.0) ==> listed(rest, first.0));
        } else {
            assert(all[i] == rest[i - 1]);
        }
    }
}

proof fn lemma_apart_rest(totals: Seq<(Seq<char>, nat)>)
    requires
        apart(totals),
        totals.len() > 0,
    ensures
        apart(totals.skip(1)),
        !listed(totals.skip(1), totals[0].0),
{
    let rest = totals.skip(1);
    assert forall|i: int, j: int| 0 <= i < j < rest.len() implies !path::same(
        (#[trigger] rest[i]).0,
        (#[trigger] rest[j]).0,
    ) by {
        assert(rest[i] == totals[i + 1] && rest[j] == totals[j + 1]);
    }
    if listed(rest, totals[0].0) {
        let k = choose|k: int|
            0 <= k < rest.len() && path::same((#[trigger] rest[k]).0, totals[0].0);
        assert(rest[k] == totals[k + 1]);
        assert(!path::same(totals[0].0, totals[k + 1].0));
    }
}

proof fn lemma_with_bytes_apart(totals: Seq<(Seq<char>, nat)>, dir: Seq<char>, size: nat)
    requires
        apart(totals),
    ensures
        apart(fs_operate::with_bytes(totals, dir, size)),
    decreases totals.len(),
{
    if totals.len() > 0 {
        let rest = totals.skip(1);
        lemma_apart_rest(totals);
        if path::same(totals[0].0, dir) {
            lemma_apart_step((totals[0].0, totals[0].1 + size), rest);
        } else {
            lemma_with_bytes_apart(rest, dir, size);
            lemma_with_bytes(rest, dir, size, totals[0].0);
            lemma_apart_step(totals[0], fs_operate::with_bytes(rest, dir, size));
        }
    }
}

proof fn lemma_bytes_apart(fs: Seq<FsEntry>, moves: Seq<MoveModel>)
    ensures
        fs_operate::bytes_needed(fs, moves) matches Ok(totals) ==> apart(totals),
    decreases moves.len(),
{
    if moves.len() > 0 {
        lemma_bytes_apart(fs, moves.drop_last());
        match (
            fs_operate::bytes_needed(fs, moves.drop_last()),
            fs_operate::size_at(fs, moves.last().from),
        ) {
            (Ok(totals), Some(n)) => {
                lemma_with_bytes_apart(
                    totals,
                    fs_operate::existing(fs, moves.last().to),
                    n as nat,
                );
            },
            _ => {},
        }
    }
}

proof fn lemma_amount_of_one(totals: Seq<(Seq<char>, nat)>, k: int)
    requires
        apart(totals),
        0 <= k < totals.len(),
    ensures
        amount(totals, totals[k].0) == totals[k].1,
    decreases totals.len(),
{
    let rest = totals.skip(1);
    lemma_apart_rest(totals);
    if k == 0 {
        lemma_nothing_listed(rest, totals[0].0);
    } else {
        lemma_amount_of_one(rest, k - 1);
        assert(rest[k - 1] == totals[k]);
        assert(!path::same(totals[0].0, totals[k].0));
    }
}

proof fn lemma_nothing_listed(totals: Seq<(Seq<char>, nat)>, dir: Seq<char>)
    requires
        !listed(totals, dir),
    ensures
        amount(totals, dir) == 0,
    decreases totals.len(),
{
    if totals.len() > 0 {
        let rest = totals.skip(1);
        assert(totals =~= seq![totals[0]] + rest);
        lemma_listed_step(totals[0], rest, dir);
        lemma_nothing_listed(rest, dir);
    }
}

proof fn lemma_entries_of_same(fs: Seq<FsEntry>, a: Seq<char>, b: Seq<char>)
    requires
        path::same(a, b),
    ensures
        fs_operate::entry_at(fs, a) == fs_operate::entry_at(fs, b),
    decreases fs.len(),
{
    if fs.len() > 0 {
        lemma_entries_of_same(fs.skip(1), a, b);
    }
}

proof fn lemma_space(fs: Seq<FsEntry>, totals: Seq<(Seq<char>, nat)>, k: int)
    requires
        0 <= k < totals.len(),
    ensures
        fs_operate::space_issues(fs, totals) matches Ok(issues) ==> fs_operate::available_at(
            fs,
            totals[k].0,
        ) is Some && (fs_operate::available_at(fs, totals[k].0)->0 < totals[k].1 <==> exists|i: int|
            0 <= i < issues.len() && ((#[trigger] issues[i]) matches IssueModel::NotEnoughSpace(d, _)
                && d == totals[k].0)) || !apart(totals),
    decreases totals.len(),
{
    if apart(totals) {
        let front = totals.drop_last();
        let last = totals.len() - 1;
        assert(apart(front)) by {
            assert forall|i: int, j: int| 0 <= i < j < front.len() implies !path::same(
                (#[trigger] front[i]).0,
                (#[trigger] front[j]).0,
            ) by {
                assert(front[i] == totals[i] && front[j] == totals[j]);
            }
        }
        match (fs_operate::space_issues(fs, front), fs_operate::space_issues(fs, totals)) {
            (Ok(before), Ok(issues)) => {
                if k < last {
                    lemma_space(fs, front, k);
                    assert(front[k] == totals[k]);
                    assert(!path::same(totals[k].0, totals[last].0));
                    if exists|i: int|
                        0 <= i < before.len() && ((#[trigger] before[i]) matches IssueModel::NotEnoughSpace(
                            d,
                            _,
                        ) && d == totals[k].0) {
                        let i = choose|i: int|
                            0 <= i < before.len() && ((#[trigger] before[i]) matches IssueModel::NotEnoughSpace(
                                d,
                                _,
                            ) && d == totals[k].0);
                        assert(issues[i] == before[i]);
                    }
                    if exists|i: int|
                        0 <= i < issues.len() && ((#[trigger] issues[i]) matches IssueModel::NotEnoughSpace(
                            d,
                            _,
                        ) && d == totals[k].0) {
                        let i = choose|i: int|
                            0 <= i < issues.len() && ((#[trigger] issues[i]) matches IssueModel::NotEnoughSpace(
                                d,
                                _,
                            ) && d == totals[k].0);
                        assert(i < before.len());
                        assert(before[i] == issues[i]);
                    }
                } else {
                    lemma_issue_dirs(fs, front);
                    if exists|i: int|
                        0 <= i < issues.len() && ((#[trigger] issues[i]) matches IssueModel::NotEnoughSpace(
                            d,
                            _,
                        ) && d == totals[k].0) {
                        let i = choose|i: int|
                            0 <= i < issues.len() && ((#[trigger] issues[i]) matches IssueModel::NotEnoughSpace(
                                d,
                                _,
                            ) && d == totals[k].0);
                        if i < before.len() {
                            assert(before[i] == issues[i]);
                            let x = choose|x: int|
                                0 <= x < front.len() && (before[i] matches IssueModel::NotEnoughSpace(
                                    d,
                                    _,
                                ) && d == (#[trigger] front[x]).0);
                            assert(front[x] == totals[x]);
                            assert(!path::same(totals[x].0, totals[last].0));
                        }
                    }
                    if fs_operate::available_at(fs, totals[last].0) is Some
                        && fs_operate::available_at(fs, totals[last].0)->0 < totals[last].1 {
                        assert(issues[before.len() as int] matches IssueModel::NotEnoughSpace(d, _)
                            && d == totals[k].0);
                    }
                }
            },
            _ => {},
        }
    }
}

proof fn lemma_issue_dirs(fs: Seq<FsEntry>, totals: Seq<(Seq<char>, nat)>)
    ensures
        fs_operate::space_issues(fs, totals) matches Ok(issues) ==> forall|i: int|
            0 <= i < issues.len() ==> exists|x: int|
                0 <= x < totals.len() && ((#[trigger] issues[i]) matches IssueModel::NotEnoughSpace(
                    d,
                    _,
                ) && d == (#[trigger] totals[x]).0),
    decreases totals.len(),
{
    if totals.len() > 0 {
        let front = totals.drop_last();
        let last = totals.len() - 1;
        lemma_issue_dirs(fs, front);
        match (fs_operate::space_issues(fs, front), fs_operate::space_issues(fs, totals)) {
            (Ok(before), Ok(issues)) => {
                assert forall|i: int| 0 <= i < issues.len() implies exists|x: int|
                    0 <= x < totals.len() && ((#[trigger] issues[i]) matches IssueModel::NotEnoughSpace(
                        d,
                        _,
                    ) && d == (#[trigger] totals[x]).0) by {
                    if i < before.len() {
                        assert(issues[i] == before[i]);
                        let x = choose|x: int|
                            0 <= x < front.len() && (before[i] matches IssueModel::NotEnoughSpace(
                                d,
                                _,
                            ) && d == (#[trigger] front[x]).0);
                        assert(totals[x] == front[x]);
                    } else {
                        assert(issues[i] matches IssueModel::NotEnoughSpace(d, _) && d
                            == totals[last].0);
                    }
                }
            },
            _ => {},
        }
    }
}

/// A file that comes from another device fits, or a plan says that it does not: where a plan
/// raises no issue of space, the bytes that all moves bring to the place of a target are no more
/// than are free there.
pub proof fn law_moved_files_fit(fs: Seq<FsEntry>, plan: PlanModel, k: int)
    requires
        0 <= k < plan.moves.len(),
        plan.moves[k].crossed,
        fs_operate::measured(fs, plan) matches Ok(p) && forall|i: int|
            0 <= i < p.issues.len() ==> !((#[trigger] p.issues[i]) is NotEnoughSpace),
    ensures
        fs_operate::available_at(fs, fs_operate::existing(fs, plan.moves[k].to)) matches Some(n)
            && brought_to(fs, plan.moves, fs_operate::existing(fs, plan.moves[k].to)) <= n,
{
    let dir = fs_operate::existing(fs, plan.moves[k].to);
    let p = fs_operate::measured(fs, plan)->Ok_0;
    let totals = fs_operate::bytes_needed(fs, plan.moves)->Ok_0;
    let issues = fs_operate::space_issues(fs, totals)->Ok_0;
    lemma_bytes(fs, plan.moves, dir);
    lemma_bytes_apart(fs, plan.moves);
    assert(listed(totals, dir));
    let t = choose|t: int| 0 <= t < totals.len() && path::same((#[trigger] totals[t]).0, dir);
    lemma_bytes(fs, plan.moves, totals[t].0);
    lemma_amount_of_one(totals, t);
    lemma_amounts_of_same(totals, totals[t].0, dir);
    lemma_entries_of_same(fs, totals[t].0, dir);
    lemma_space(fs, totals, t);
    assert forall|i: int| 0 <= i < issues.len() implies !((#[trigger] issues[i])
        is NotEnoughSpace) by {
        assert(p.issues[plan.issues.len() + i] == issues[i]);
    }
}

proof fn lemma_amounts_of_same(totals: Seq<(Seq<char>, nat)>, a: Seq<char>, b: Seq<char>)
    requires
        path::same(a, b),
    ensures
        amount(totals, a) == amount(totals, b),
    decreases totals.len(),
{
    if totals.len() > 0 {
        lemma_amounts_of_same(totals.skip(1), a, b);
    }
}

} // verus!
