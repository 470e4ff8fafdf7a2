//! What stands between a plan and carrying it out: conflicts are resolved, skipped items
//! left out, and the user is asked.
use crate::config::{ConflictPolicy, HardlinkPolicy, SkipScope};
use crate::edit::action;
use crate::edit::action::{ActionModel, DeleteTarget, TargetModel, WriteAction};
use crate::edit::fs_operate;
use crate::edit::fs_operate::{
    FsEntry, FsIssue, FsMove, FsPlan, FsSnapshot, IssueModel, MoveModel, PlanModel,
};
use crate::edit::parse::EditQuery;
use crate::edit::prompt;
use crate::edit::prompt::{Asked, CastModel, HardlinkModel, SummaryModel};
use crate::edit::replace;
use crate::edit::replace::{ConfirmErrorModel, Flow};
use crate::edit::WriteOptions;
use crate::item::Item;
use crate::path;
use crate::text;
use crate::text::show_u128;
use crate::types::ItemId;
use vstd::prelude::*;

pub use crate::edit::prompt::{
    CastSummary, ConfirmPrompt, ConfirmSummary, ConflictChoice, HardlinkChoice, IoConfirmPrompt,
    PromptError, ReplaceChoice,
};
pub use crate::edit::replace::{resolve_replace_conflicts, ConfirmError};

verus! {

// ---------------------------------------------------------------------------
// Names with a number
// ---------------------------------------------------------------------------

/// The name of a file with a number behind its stem.
pub open spec fn serial_name(target: Seq<char>, n: nat) -> Seq<char> {
    let l = path::located(target);
    path::joined_name(l.stem + "_"@ + text::nat_text(n), l.extension)
}

/// The path of a file with a number behind its stem.
pub open spec fn serial_path(target: Seq<char>, n: nat) -> Seq<char> {
    path::joined_to(path::located(target).parentdir, serial_name(target, n))
}

/// Whether a path is neither on disk nor reserved.
pub open spec fn is_free(fs: Seq<FsEntry>, reserved: Seq<Seq<char>>, p: Seq<char>) -> bool {
    !fs_operate::exists_at(fs, p) && !fs_operate::holds_path(reserved, p)
}

/// The first free path with a number from `n` on, looking at `steps` more of them at most.
pub open spec fn serial_from(
    target: Seq<char>,
    fs: Seq<FsEntry>,
    reserved: Seq<Seq<char>>,
    n: nat,
    steps: nat,
) -> Seq<char>
    decreases steps,
{
    if steps == 0 || is_free(fs, reserved, serial_path(target, n)) {
        serial_path(target, n)
    } else {
        serial_from(target, fs, reserved, n + 1, (steps - 1) as nat)
    }
}

/// The first free path with a number. As many paths as are taken are looked at, and one
/// more: that one is free.
pub open spec fn serial(target: Seq<char>, fs: Seq<FsEntry>, reserved: Seq<Seq<char>>) -> Seq<
    char,
> {
    serial_from(target, fs, reserved, 1, fs.len() + reserved.len())
}

/// The first free path with a number.
pub fn next_serial_path(target: &str, reserved: &Vec<String>, fs: &FsSnapshot) -> (r: String)
    ensures
        r@ == serial(target@, fs.entries@, text::texts(reserved@)),
{
    let parts = path::PathComponents::decompose(target);
    let ghost rs = text::texts(reserved@);
    let total: u128 = fs.entries.len() as u128 + reserved.len() as u128;
    let mut n: u128 = 1;
    loop
        invariant
            1 <= n <= total + 1,
            total == fs.entries@.len() + rs.len(),
            total <= 2 * 0xffff_ffff_ffff_ffff,
            rs == text::texts(reserved@),
            parts@ == path::located(target@),
            serial(target@, fs.entries@, rs) == serial_from(
                target@,
                fs.entries@,
                rs,
                n as nat,
                (total + 1 - n) as nat,
            ),
        decreases total + 1 - n,
    {
        let mut name = parts.stem.clone();
        name.push_str("_");
        name.push_str(show_u128(n).as_str());
        match &parts.extension {
            Some(e) => {
                name.push_str(".");
                name.push_str(e.as_str());
            },
            None => {},
        }
        let cand = path::join_path(parts.parentdir.as_str(), name.as_str());
        proof {
            assert(cand@ == serial_path(target@, n as nat));
        }
        if n > total || (!fs.present(cand.as_str()) && !fs_operate::contains_path(
            reserved,
            cand.as_str(),
        )) {
            return cand;
        }
        n += 1;
    }
}

proof fn lemma_entry_path(fs: Seq<FsEntry>, p: Seq<char>)
    ensures
        fs_operate::exists_at(fs, p) ==> exists|k: int|
            0 <= k < fs.len() && path::same((#[trigger] fs[k]).path@, p),
    decreases fs.len(),
{
    if fs.len() > 0 && !path::same(fs[0].path@, p) {
        lemma_entry_path(fs.skip(1), p);
        if fs_operate::exists_at(fs, p) {
            let k = choose|k: int|
                0 <= k < fs.skip(1).len() && path::same((#[trigger] fs.skip(1)[k]).path@, p);
            assert(path::same(fs[k + 1].path@, p));
        }
    } else if fs.len() > 0 {
        assert(path::same(fs[0].path@, p));
    }
}

proof fn lemma_serial_names(target: Seq<char>, n: nat, m: nat)
    ensures
        path::is_name(serial_name(target, n)),
        serial_name(target, n) == serial_name(target, m) ==> n == m,
{
    reveal_strlit("_");
    reveal_strlit(".");
    let l = path::located(target);
    text::lemma_nat_text_digits(n);
    text::lemma_nat_text_digits(m);
    path::lemma_file_name_is_name(target);
    if path::file_name_of(target) is Some {
        path::lemma_last_dot(path::file_name_of(target)->0);
    }
    let a = serial_name(target, n);
    let b = serial_name(target, m);
    let pre = l.stem.len() as int;
    assert(a[pre] == '_');
    assert(a != "."@);
    assert forall|k: int| 0 <= k < l.stem.len() implies l.stem[k] != '/' by {
        let name = path::file_name_of(target)->0;
        assert(l.stem[k] == name[k]);
    }
    assert forall|k: int| l.extension is Some && 0 <= k < (l.extension->0).len() implies (
    l.extension->0)[k] != '/' by {
        let name = path::file_name_of(target)->0;
        let d = path::last_dot(name);
        assert((l.extension->0)[k] == name[d + 1 + k]);
    }
    let x = text::nat_text(n);
    let y = text::nat_text(m);
    assert forall|k: int| 0 <= k < a.len() implies a[k] != '/' by {
        if pre < k < pre + 1 + x.len() {
            assert(a[k] == x[k - pre - 1]);
            assert(text::is_digit(x[k - pre - 1]));
        } else if k > pre + 1 + x.len() {
            assert(a[k] == (l.extension->0)[k - pre - 2 - x.len()]);
        } else if k < pre {
            assert(a[k] == l.stem[k]);
        }
    }
    let tail = match l.extension {
        Some(e) => 1 + e.len(),
        None => 0,
    };
    assert(a.len() == pre + 1 + x.len() + tail);
    assert(b.len() == pre + 1 + y.len() + tail);
    if a == b {
        assert forall|k: int| 0 <= k < x.len() implies x[k] == y[k] by {
            assert(a[pre + 1 + k] == x[k]);
            assert(b[pre + 1 + k] == y[k]);
        }
        assert(x =~= y);
    }
}

spec fn taken_models(fs: Seq<FsEntry>, reserved: Seq<Seq<char>>) -> Seq<path::PathModel> {
    fs.map_values(|e: FsEntry| path::parsed(e.path@)) + reserved.map_values(
        |p: Seq<char>| path::parsed(p),
    )
}

proof fn lemma_taken(fs: Seq<FsEntry>, reserved: Seq<Seq<char>>, p: Seq<char>)
    requires
        !is_free(fs, reserved, p),
    ensures
        taken_models(fs, reserved).contains(path::parsed(p)),
{
    let t = taken_models(fs, reserved);
    if fs_operate::exists_at(fs, p) {
        lemma_entry_path(fs, p);
        let k = choose|k: int| 0 <= k < fs.len() && path::same((#[trigger] fs[k]).path@, p);
        assert(t[k] == path::parsed(p));
    } else {
        let k = choose|k: int|
            0 <= k < reserved.len() && path::same(#[trigger] reserved[k], p);
        assert(t[fs.len() + k] == path::parsed(p));
    }
}

proof fn lemma_serial_misses(
    target: Seq<char>,
    fs: Seq<FsEntry>,
    reserved: Seq<Seq<char>>,
    n: nat,
    steps: nat,
)
    requires
        !is_free(fs, reserved, serial_from(target, fs, reserved, n, steps)),
    ensures
        forall|m: nat|
            n <= m <= n + steps ==> !is_free(fs, reserved, #[trigger] serial_path(target, m)),
    decreases steps,
{
    if steps > 0 {
        lemma_serial_misses(target, fs, reserved, n + 1, (steps - 1) as nat);
    }
}

/// The path with a number lies in the directory of the target, and its name is that of the
/// target with the number behind the stem: the extension is kept.
pub proof fn law_numbers_stand_behind_the_stem(target: Seq<char>, n: nat)
    requires
        path::file_name_of(target) is Some,
    ensures
        path::parent_of(serial_path(target, n)) matches Some(d) && path::same(
            d,
            match path::parent_of(target) {
                Some(p) => p,
                None => Seq::empty(),
            },
        ),
        path::stem_of(serial_path(target, n)) == Some(
            (path::stem_of(target)->0) + "_"@ + text::nat_text(n),
        ),
        path::extension_of(serial_path(target, n)) == path::extension_of(target),
{
    reveal_strlit("_");
    reveal_strlit(".");
    reveal_strlit("..");
    let l = path::located(target);
    let name = path::file_name_of(target)->0;
    let d = path::last_dot(name);
    let x = text::nat_text(n);
    let stem = l.stem + "_"@ + x;
    let made = serial_name(target, n);
    lemma_serial_names(target, n, n);
    text::lemma_nat_text_digits(n);
    path::lemma_last_dot(name);
    path::lemma_last_dot(made);
    path::lemma_file_name_is_name(target);
    assert(made[l.stem.len() as int] == '_');
    path::law_joined_name_lies_in_the_directory(l.parentdir, made);
    let e = path::last_dot(made);
    let pre = l.stem.len() as int;
    match l.extension {
        Some(ext) => {
            assert(made =~= stem.push('.') + ext);
            assert(made[stem.len() as int] == '.');
            if e > stem.len() {
                assert(made[e] == ext[e - stem.len() - 1]);
                assert(ext[e - stem.len() - 1] == name[d + 1 + (e - stem.len() - 1)]);
            }
            assert(made.take(e) =~= stem);
            assert(made.skip(e + 1) =~= ext);
        },
        None => {
            assert(made == stem);
            if e > 0 {
                if e > pre {
                    assert(made[e] == x[e - pre - 1]);
                    assert(text::is_digit(x[e - pre - 1]));
                } else {
                    assert(made[e] == name[e]);
                }
            }
        },
    }
}

/// The number that is given is the first one from 1 on that makes a path that is free.
pub proof fn law_first_free_number_is_taken(
    target: Seq<char>,
    fs: Seq<FsEntry>,
    reserved: Seq<Seq<char>>,
) -> (n: nat)
    ensures
        n >= 1,
        serial(target, fs, reserved) == serial_path(target, n),
        forall|m: nat| 1 <= m < n ==> !is_free(fs, reserved, #[trigger] serial_path(target, m)),
{
    lemma_first_free(target, fs, reserved, 1, fs.len() + reserved.len())
}

proof fn lemma_first_free(
    target: Seq<char>,
    fs: Seq<FsEntry>,
    reserved: Seq<Seq<char>>,
    from: nat,
    steps: nat,
) -> (n: nat)
    ensures
        n >= from,
        serial_from(target, fs, reserved, from, steps) == serial_path(target, n),
        forall|m: nat| from <= m < n ==> !is_free(fs, reserved, #[trigger] serial_path(target, m)),
    decreases steps,
{
    if steps == 0 || is_free(fs, reserved, serial_path(target, from)) {
        from
    } else {
        lemma_first_free(target, fs, reserved, from + 1, (steps - 1) as nat)
    }
}

/// The path that is given to a file whose target is taken is free.
pub proof fn law_serial_path_is_free(
    target: Seq<char>,
    fs: Seq<FsEntry>,
    reserved: Seq<Seq<char>>,
)
    ensures
        is_free(fs, reserved, serial(target, fs, reserved)),
{
    if !is_free(fs, reserved, serial(target, fs, reserved)) {
        let total = fs.len() + reserved.len();
        lemma_serial_misses(target, fs, reserved, 1, total);
        let tried = Seq::new(
            total + 1,
            |i: int| path::parsed(serial_path(target, (i + 1) as nat)),
        );
        let taken = taken_models(fs, reserved);
        let dir = path::located(target).parentdir;
        assert(tried.no_duplicates()) by {
            assert forall|i: int, j: int| 0 <= i < tried.len() && 0 <= j < tried.len() && i
                != j implies tried[i] != tried[j] by {
                lemma_serial_names(target, (i + 1) as nat, (j + 1) as nat);
                lemma_serial_names(target, (j + 1) as nat, (i + 1) as nat);
                path::lemma_joined_name_is_last(dir, serial_name(target, (i + 1) as nat));
                path::lemma_joined_name_is_last(dir, serial_name(target, (j + 1) as nat));
            }
        }
        assert(tried.to_set().subset_of(taken.to_set())) by {
            assert forall|x: path::PathModel| tried.to_set().contains(x) implies
                taken.to_set().contains(x) by {
                let i = choose|i: int| 0 <= i < tried.len() && tried[i] == x;
                assert(!is_free(fs, reserved, serial_path(target, (i + 1) as nat)));
                lemma_taken(fs, reserved, serial_path(target, (i + 1) as nat));
            }
        }
        tried.unique_seq_to_set();
        vstd::seq_lib::seq_to_set_is_finite(taken);
        taken.lemma_cardinality_of_set();
        vstd::set_lib::lemma_len_subset(tried.to_set(), taken.to_set());
        assert(false);
    }
}

// ---------------------------------------------------------------------------
// Targets that are taken
// ---------------------------------------------------------------------------

/// How far the moves are resolved. The targets of the moves that are left are reserved.
#[verifier::ext_equal]
pub struct ConflictState {
    pub moves: Seq<MoveModel>,
    pub skipped: Seq<ItemId>,
    pub for_all: Option<ConflictChoice>,
    pub used: nat,
}

pub open spec fn targets(moves: Seq<MoveModel>) -> Seq<Seq<char>> {
    moves.map_values(|m: MoveModel| m.to)
}

pub open spec fn policy_choice(p: ConflictPolicy) -> ConflictChoice {
    match p {
        ConflictPolicy::Abort => ConflictChoice::Abort,
        ConflictPolicy::Skip => ConflictChoice::Skip,
        ConflictPolicy::Serial => ConflictChoice::Serial,
        ConflictPolicy::First => ConflictChoice::Abort,
    }
}

/// What a choice does with a move whose target is taken.
pub open spec fn conflict_done(
    s: ConflictState,
    m: MoveModel,
    fs: Seq<FsEntry>,
    c: ConflictChoice,
) -> Flow<ConflictState> {
    match c {
        ConflictChoice::Abort => Flow::Failed(ConfirmErrorModel::TargetExists(m.to), s.used),
        ConflictChoice::Skip | ConflictChoice::SkipAll => Flow::Going(
            ConflictState { skipped: replace::with_id(s.skipped, m.item), ..s },
        ),
        ConflictChoice::Serial | ConflictChoice::SerialAll => Flow::Going(
            ConflictState {
                moves: s.moves.push(MoveModel { to: serial(m.to, fs, targets(s.moves)), ..m }),
                ..s
            },
        ),
    }
}

/// The answer that an account holds to the question what happens to a move.
pub open spec fn conflict_reply_in(log: Seq<Asked>, at: nat, m: MoveModel) -> Option<
    Result<ConflictChoice, Seq<char>>,
> {
    if at < log.len() {
        match log[at as int] {
            Asked::Conflict(i, t, a) => if i == m.item && t == m.to {
                Some(a)
            } else {
                None
            },
            _ => None,
        }
    } else {
        None
    }
}

/// What happens to one more move. A target that is free is kept; else the policy decides,
/// or an answer that holds for all, or the user.
pub open spec fn conflict_one(
    s: ConflictState,
    m: MoveModel,
    fs: Seq<FsEntry>,
    policy: Option<ConflictPolicy>,
    interactive: bool,
    log: Seq<Asked>,
) -> Flow<ConflictState> {
    if is_free(fs, targets(s.moves), m.to) {
        Flow::Going(ConflictState { moves: s.moves.push(m), ..s })
    } else {
        match policy {
            Some(p) => conflict_done(s, m, fs, policy_choice(p)),
            None => match s.for_all {
                Some(c) => conflict_done(s, m, fs, c),
                None => if !interactive {
                    conflict_done(s, m, fs, ConflictChoice::Abort)
                } else {
                    match conflict_reply_in(log, s.used, m) {
                        None => Flow::Stuck,
                        Some(Err(e)) => Flow::Failed(ConfirmErrorModel::Prompt(e), s.used + 1),
                        Some(Ok(c)) => conflict_done(
                            ConflictState {
                                for_all: if c == ConflictChoice::SkipAll || c
                                    == ConflictChoice::SerialAll {
                                    Some(c)
                                } else {
                                    s.for_all
                                },
                                used: s.used + 1,
                                ..s
                            },
                            m,
                            fs,
                            c,
                        ),
                    }
                },
            },
        }
    }
}

pub open spec fn conflicts_resolved(
    moves: Seq<MoveModel>,
    skipped: Seq<ItemId>,
    used: nat,
    fs: Seq<FsEntry>,
    policy: Option<ConflictPolicy>,
    interactive: bool,
    log: Seq<Asked>,
) -> Flow<ConflictState>
    decreases moves.len(),
{
    if moves.len() == 0 {
        Flow::Going(ConflictState { moves: seq![], skipped, for_all: None, used })
    } else {
        match conflicts_resolved(
            moves.drop_last(),
            skipped,
            used,
            fs,
            policy,
            interactive,
            log,
        ) {
            Flow::Going(s) => conflict_one(s, moves.last(), fs, policy, interactive, log),
            other => other,
        }
    }
}

/// More questions in the account do not change what was decided before them.
pub proof fn lemma_conflicts_grow(
    moves: Seq<MoveModel>,
    skipped: Seq<ItemId>,
    used: nat,
    fs: Seq<FsEntry>,
    policy: Option<ConflictPolicy>,
    interactive: bool,
    log: Seq<Asked>,
    more: Seq<Asked>,
)
    requires
        !(conflicts_resolved(moves, skipped, used, fs, policy, interactive, log) is Stuck),
    ensures
        conflicts_resolved(moves, skipped, used, fs, policy, interactive, log + more)
            == conflicts_resolved(moves, skipped, used, fs, policy, interactive, log),
    decreases moves.len(),
{
    if moves.len() > 0 {
        lemma_conflicts_grow(
            moves.drop_last(),
            skipped,
            used,
            fs,
            policy,
            interactive,
            log,
            more,
        );
        match conflicts_resolved(
            moves.drop_last(),
            skipped,
            used,
            fs,
            policy,
            interactive,
            log,
        ) {
            Flow::Going(s) => {
                if s.used < log.len() {
                    assert((log + more)[s.used as int] == log[s.used as int]);
                }
            },
            _ => {},
        }
    }
}

proof fn lemma_conflicts_failed(
    moves: Seq<MoveModel>,
    k: int,
    skipped: Seq<ItemId>,
    used: nat,
    fs: Seq<FsEntry>,
    policy: Option<ConflictPolicy>,
    interactive: bool,
    log: Seq<Asked>,
)
    requires
        0 <= k <= moves.len(),
        conflicts_resolved(
            moves.take(k),
            skipped,
            used,
            fs,
            policy,
            interactive,
            log,
        ) is Failed,
    ensures
        conflicts_resolved(moves, skipped, used, fs, policy, interactive, log)
            == conflicts_resolved(
            moves.take(k),
            skipped,
            used,
            fs,
            policy,
            interactive,
            log,
        ),
    decreases moves.len(),
{
    if k == moves.len() {
        assert(moves.take(k) =~= moves);
    } else {
        assert(moves.drop_last().take(k) =~= moves.take(k));
        lemma_conflicts_failed(
            moves.drop_last(),
            k,
            skipped,
            used,
            fs,
            policy,
            interactive,
            log,
        );
    }
}

fn targets_of(moves: &Vec<FsMove>) -> (r: Vec<String>)
    ensures
        text::texts(r@) == targets(fs_operate::move_models(moves@)),
{
    let mut r: Vec<String> = Vec::new();
    let mut i: usize = 0;
    while i < moves.len()
        invariant
            i <= moves@.len(),
            r@.len() == i,
            forall|k: int| 0 <= k < i ==> (#[trigger] r@[k])@ == moves@[k].to@,
        decreases moves@.len() - i,
    {
        r.push(moves[i].to.clone());
        i += 1;
    }
    proof {
        assert(text::texts(r@) =~= targets(fs_operate::move_models(moves@)));
    }
    r
}

/// Does with a move what was chosen; the reason where that is to abort.
fn settle(
    m: &FsMove,
    c: ConflictChoice,
    fs: &FsSnapshot,
    moves: &mut Vec<FsMove>,
    skipped: &mut Vec<ItemId>,
    Ghost(s): Ghost<ConflictState>,
) -> (r: Result<(), ConfirmError>)
    requires
        s.moves == fs_operate::move_models(old(moves)@),
        s.skipped == old(skipped)@,
    ensures
        match r {
            Ok(_) => conflict_done(s, m@, fs.entries@, c) == Flow::Going(
                ConflictState {
                    moves: fs_operate::move_models(final(moves)@),
                    skipped: final(skipped)@,
                    ..s
                },
            ),
            Err(e) => conflict_done(s, m@, fs.entries@, c) == Flow::<ConflictState>::Failed(
                e@,
                s.used,
            ),
        },
{
    match c {
        ConflictChoice::Abort => {
            return Err(ConfirmError::TargetExists(m.to.clone()));
        },
        ConflictChoice::Skip | ConflictChoice::SkipAll => {
            replace::add_id(skipped, m.item);
        },
        ConflictChoice::Serial | ConflictChoice::SerialAll => {
            let reserved = targets_of(moves);
            let to = next_serial_path(m.to.as_str(), &reserved, fs);
            let moved = FsMove { item: m.item, from: m.from.clone(), to, crossed: m.crossed };
            proof {
                fs_operate::lemma_moves_push(moves@, moved);
            }
            moves.push(moved);
        },
    }
    Ok(())
}

/// Resolves moves whose targets exist or are reserved by moves before them.
pub fn resolve_conflicts<P: ConfirmPrompt>(
    moves: Vec<FsMove>,
    policy_override: Option<ConflictPolicy>,
    interactive: bool,
    prompt: &mut P,
    skipped_items: &mut Vec<ItemId>,
    fs: &FsSnapshot,
) -> (r: Result<Vec<FsMove>, ConfirmError>)
    requires
        old(prompt).valid(),
    ensures
        final(prompt).valid(),
        final(prompt).source() == old(prompt).source(),
        old(prompt).asked().is_prefix_of(final(prompt).asked()),
        match r {
            Ok(left) => match conflicts_resolved(
                fs_operate::move_models(moves@),
                old(skipped_items)@,
                old(prompt).asked().len(),
                fs.entries@,
                policy_override,
                interactive,
                final(prompt).asked(),
            ) {
                Flow::Going(s) => s.moves == fs_operate::move_models(left@) && s.skipped
                    == final(skipped_items)@ && s.used == final(prompt).asked().len(),
                _ => false,
            },
            Err(e) => conflicts_resolved(
                fs_operate::move_models(moves@),
                old(skipped_items)@,
                old(prompt).asked().len(),
                fs.entries@,
                policy_override,
                interactive,
                final(prompt).asked(),
            ) == Flow::<ConflictState>::Failed(e@, final(prompt).asked().len()),
        },
{
    let ghost ms = fs_operate::move_models(moves@);
    let ghost start = prompt.asked().len();
    let ghost sk = skipped_items@;
    let mut left: Vec<FsMove> = Vec::new();
    let mut for_all: Option<ConflictChoice> = None;
    let mut i: usize = 0;
    proof {
        assert(ms.take(0) =~= seq![]);
        assert(fs_operate::move_models(left@) =~= seq![]);
    }
    while i < moves.len()
        invariant
            i <= moves@.len(),
            ms == fs_operate::move_models(moves@),
            prompt.valid(),
            prompt.source() == old(prompt).source(),
            start == old(prompt).asked().len(),
            sk == old(skipped_items)@,
            old(prompt).asked().is_prefix_of(prompt.asked()),
            conflicts_resolved(
                ms.take(i as int),
                sk,
                start,
                fs.entries@,
                policy_override,
                interactive,
                prompt.asked(),
            ) == Flow::Going(
                ConflictState {
                    moves: fs_operate::move_models(left@),
                    skipped: skipped_items@,
                    for_all,
                    used: prompt.asked().len(),
                },
            ),
        decreases moves@.len() - i,
    {
        let m = &moves[i];
        let ghost log = prompt.asked();
        let ghost state = ConflictState {
            moves: fs_operate::move_models(left@),
            skipped: skipped_items@,
            for_all,
            used: log.len(),
        };
        proof {
            assert(ms.take(i + 1).drop_last() =~= ms.take(i as int));
            assert(ms.take(i + 1).last() == m@);
        }
        let reserved = targets_of(&left);
        if !fs.present(m.to.as_str()) && !fs_operate::contains_path(&reserved, m.to.as_str()) {
            let kept = m.clone();
            proof {
                fs_operate::lemma_moves_push(left@, kept);
            }
            left.push(kept);
        } else {
            let ghost mut now = state;
            let choice = match policy_override {
                Some(ConflictPolicy::Abort) => ConflictChoice::Abort,
                Some(ConflictPolicy::Skip) => ConflictChoice::Skip,
                Some(ConflictPolicy::Serial) => ConflictChoice::Serial,
                Some(ConflictPolicy::First) => ConflictChoice::Abort,
                None => match for_all {
                    Some(c) => c,
                    None => if !interactive {
                        ConflictChoice::Abort
                    } else {
                        let reply = prompt.ask_conflict_resolution(&m.item, m.to.as_str());
                        proof {
                            let more = prompt.asked().skip(log.len() as int);
                            assert(prompt.asked() =~= log + more);
                            lemma_conflicts_grow(
                                ms.take(i as int),
                                sk,
                                start,
                                fs.entries@,
                                policy_override,
                                interactive,
                                log,
                                more,
                            );
                            assert(prompt.asked()[log.len() as int] == Asked::Conflict(
                                m.item,
                                m.to@,
                                prompt::plain_answer(reply),
                            ));
                        }
                        match reply {
                            Err(e) => {
                                proof {
                                    lemma_conflicts_failed(
                                        ms,
                                        i + 1,
                                        sk,
                                        start,
                                        fs.entries@,
                                        policy_override,
                                        interactive,
                                        prompt.asked(),
                                    );
                                }
                                return Err(ConfirmError::Prompt(e.message));
                            },
                            Ok(c) => {
                                if c == ConflictChoice::SkipAll || c == ConflictChoice::SerialAll {
                                    for_all = Some(c);
                                }
                                proof {
                                    now = ConflictState {
                                        for_all,
                                        used: state.used + 1,
                                        ..state
                                    };
                                }
                                c
                            },
                        }
                    },
                },
            };
            match settle(m, choice, fs, &mut left, skipped_items, Ghost(now)) {
                Ok(_) => {},
                Err(e) => {
                    proof {
                        lemma_conflicts_failed(
                            ms,
                            i + 1,
                            sk,
                            start,
                            fs.entries@,
                            policy_override,
                            interactive,
                            prompt.asked(),
                        );
                    }
                    return Err(e);
                },
            }
        }
        i += 1;
    }
    proof {
        assert(ms.take(ms.len() as int) =~= ms);
    }
    Ok(left)
}

/// Whether targets are free on disk and different from one another.
pub open spec fn targets_apart(fs: Seq<FsEntry>, moves: Seq<MoveModel>) -> bool {
    &&& forall|k: int|
        0 <= k < moves.len() ==> !fs_operate::exists_at(fs, (#[trigger] moves[k]).to)
    &&& forall|j: int, k: int|
        0 <= j < k < moves.len() ==> !path::same(
            (#[trigger] moves[j]).to,
            (#[trigger] moves[k]).to,
        )
}

/// After conflicts are resolved, no target exists, and no two moves have the same target.
pub proof fn law_resolved_targets_are_free(
    moves: Seq<MoveModel>,
    skipped: Seq<ItemId>,
    used: nat,
    fs: Seq<FsEntry>,
    policy: Option<ConflictPolicy>,
    interactive: bool,
    log: Seq<Asked>,
)
    ensures
        match conflicts_resolved(moves, skipped, used, fs, policy, interactive, log) {
            Flow::Going(s) => targets_apart(fs, s.moves),
            _ => true,
        },
    decreases moves.len(),
{
    if moves.len() > 0 {
        law_resolved_targets_are_free(
            moves.drop_last(),
            skipped,
            used,
            fs,
            policy,
            interactive,
            log,
        );
        match conflicts_resolved(
            moves.drop_last(),
            skipped,
            used,
            fs,
            policy,
            interactive,
            log,
        ) {
            Flow::Going(s) => {
                let m = moves.last();
                law_serial_path_is_free(m.to, fs, targets(s.moves));
                match conflict_one(s, m, fs, policy, interactive, log) {
                    Flow::Going(t) => {
                        if t.moves.len() > s.moves.len() {
                            let to = t.moves.last().to;
                            assert(t.moves.drop_last() =~= s.moves);
                            assert(is_free(fs, targets(s.moves), to));
                            assert forall|j: int, k: int| 0 <= j < k < t.moves.len() implies
                                !path::same(
                                (#[trigger] t.moves[j]).to,
                                (#[trigger] t.moves[k]).to,
                            ) by {
                                assert(t.moves[j] == s.moves[j]);
                                if k == s.moves.len() {
                                    assert(targets(s.moves)[j] == s.moves[j].to);
                                } else {
                                    assert(t.moves[k] == s.moves[k]);
                                }
                            }
                            assert forall|k: int| 0 <= k < t.moves.len() implies
                                !fs_operate::exists_at(fs, (#[trigger] t.moves[k]).to) by {
                                if k < s.moves.len() {
                                    assert(t.moves[k] == s.moves[k]);
                                }
                            }
                        }
                    },
                    _ => {},
                }
            },
            _ => {},
        }
    }
}

// ---------------------------------------------------------------------------
// Items with several paths
// ---------------------------------------------------------------------------

/// How far the items with several paths are resolved.
#[verifier::ext_equal]
pub struct HardlinkState {
    pub moves: Seq<MoveModel>,
    pub skipped: Seq<ItemId>,
    pub for_all: Option<HardlinkModel>,
    pub used: nat,
}

pub open spec fn hardlink_policy(p: HardlinkPolicy) -> HardlinkModel {
    match p {
        HardlinkPolicy::Abort => HardlinkModel::Abort,
        HardlinkPolicy::Skip => HardlinkModel::Skip,
        HardlinkPolicy::All => HardlinkModel::All,
    }
}

/// The moves at some positions; a position without a move does not count.
pub open spec fn selected(moves: Seq<MoveModel>, at: Seq<usize>) -> Seq<MoveModel>
    decreases at.len(),
{
    if at.len() == 0 {
        seq![]
    } else if at.last() < moves.len() {
        selected(moves, at.drop_last()).push(moves[at.last() as int])
    } else {
        selected(moves, at.drop_last())
    }
}

/// What a choice does with an item that lies at several paths.
pub open spec fn hardlink_done(
    s: HardlinkState,
    item: ItemId,
    paths: Seq<Seq<char>>,
    cands: Seq<MoveModel>,
    c: HardlinkModel,
) -> Flow<HardlinkState> {
    match c {
        HardlinkModel::Abort => Flow::Failed(ConfirmErrorModel::Hardlinks(item, paths), s.used),
        HardlinkModel::Skip | HardlinkModel::SkipAll => Flow::Going(
            HardlinkState { skipped: replace::with_id(s.skipped, item), ..s },
        ),
        HardlinkModel::All | HardlinkModel::AllForSubsequent => Flow::Going(
            HardlinkState { moves: s.moves + cands, ..s },
        ),
        HardlinkModel::Selected(at) => Flow::Going(
            HardlinkState { moves: s.moves + selected(cands, at), ..s },
        ),
    }
}

/// The answer that an account holds to the question which paths are moved.
pub open spec fn hardlink_reply_in(
    log: Seq<Asked>,
    at: nat,
    item: ItemId,
    paths: Seq<Seq<char>>,
) -> Option<Result<HardlinkModel, Seq<char>>> {
    if at < log.len() {
        match log[at as int] {
            Asked::Hardlink(i, p, a) => if i == item && p == paths {
                Some(a)
            } else {
                None
            },
            _ => None,
        }
    } else {
        None
    }
}

/// What happens to one more issue. Only items with several paths are resolved here.
pub open spec fn hardlink_one(
    s: HardlinkState,
    issue: IssueModel,
    policy: Option<HardlinkPolicy>,
    interactive: bool,
    log: Seq<Asked>,
) -> Flow<HardlinkState> {
    match issue {
        IssueModel::MultipleLocations(item, paths, cands) => match policy {
            Some(p) => hardlink_done(s, item, paths, cands, hardlink_policy(p)),
            None => match s.for_all {
                Some(c) => hardlink_done(s, item, paths, cands, c),
                None => if !interactive {
                    hardlink_done(s, item, paths, cands, HardlinkModel::Abort)
                } else {
                    match hardlink_reply_in(log, s.used, item, paths) {
                        None => Flow::Stuck,
                        Some(Err(e)) => Flow::Failed(ConfirmErrorModel::Prompt(e), s.used + 1),
                        Some(Ok(c)) => hardlink_done(
                            HardlinkState {
                                for_all: if c is SkipAll || c is AllForSubsequent {
                                    Some(c)
                                } else {
                                    s.for_all
                                },
                                used: s.used + 1,
                                ..s
                            },
                            item,
                            paths,
                            cands,
                            c,
                        ),
                    }
                },
            },
        },
        _ => Flow::Going(s),
    }
}

pub open spec fn hardlinks_resolved(
    moves: Seq<MoveModel>,
    issues: Seq<IssueModel>,
    skipped: Seq<ItemId>,
    used: nat,
    policy: Option<HardlinkPolicy>,
    interactive: bool,
    log: Seq<Asked>,
) -> Flow<HardlinkState>
    decreases issues.len(),
{
    if issues.len() == 0 {
        Flow::Going(HardlinkState { moves, skipped, for_all: None, used })
    } else {
        match hardlinks_resolved(
            moves,
            issues.drop_last(),
            skipped,
            used,
            policy,
            interactive,
            log,
        ) {
            Flow::Going(s) => hardlink_one(s, issues.last(), policy, interactive, log),
            other => other,
        }
    }
}

/// More questions in the account do not change what was decided before them.
pub proof fn lemma_hardlinks_grow(
    moves: Seq<MoveModel>,
    issues: Seq<IssueModel>,
    skipped: Seq<ItemId>,
    used: nat,
    policy: Option<HardlinkPolicy>,
    interactive: bool,
    log: Seq<Asked>,
    more: Seq<Asked>,
)
    requires
        !(hardlinks_resolved(moves, issues, skipped, used, policy, interactive, log) is Stuck),
    ensures
        hardlinks_resolved(moves, issues, skipped, used, policy, interactive, log + more)
            == hardlinks_resolved(moves, issues, skipped, used, policy, interactive, log),
    decreases issues.len(),
{
    if issues.len() > 0 {
        lemma_hardlinks_grow(
            moves,
            issues.drop_last(),
            skipped,
            used,
            policy,
            interactive,
            log,
            more,
        );
        match hardlinks_resolved(
            moves,
            issues.drop_last(),
            skipped,
            used,
            policy,
            interactive,
            log,
        ) {
            Flow::Going(s) => {
                if s.used < log.len() {
                    assert((log + more)[s.used as int] == log[s.used as int]);
                }
            },
            _ => {},
        }
    }
}

proof fn lemma_hardlinks_failed(
    moves: Seq<MoveModel>,
    issues: Seq<IssueModel>,
    k: int,
    skipped: Seq<ItemId>,
    used: nat,
    policy: Option<HardlinkPolicy>,
    interactive: bool,
    log: Seq<Asked>,
)
    requires
        0 <= k <= issues.len(),
        hardlinks_resolved(
            moves,
            issues.take(k),
            skipped,
            used,
            policy,
            interactive,
            log,
        ) is Failed,
    ensures
        hardlinks_resolved(moves, issues, skipped, used, policy, interactive, log)
            == hardlinks_resolved(
            moves,
            issues.take(k),
            skipped,
            used,
            policy,
            interactive,
            log,
        ),
    decreases issues.len(),
{
    if k == issues.len() {
        assert(issues.take(k) =~= issues);
    } else {
        assert(issues.drop_last().take(k) =~= issues.take(k));
        lemma_hardlinks_failed(
            moves,
            issues.drop_last(),
            k,
            skipped,
            used,
            policy,
            interactive,
            log,
        );
    }
}

fn copy_texts(v: &Vec<String>) -> (r: Vec<String>)
    ensures
        text::texts(r@) == text::texts(v@),
{
    let mut r: Vec<String> = Vec::new();
    let mut i: usize = 0;
    while i < v.len()
        invariant
            i <= v@.len(),
            r@.len() == i,
            forall|k: int| 0 <= k < i ==> (#[trigger] r@[k])@ == v@[k]@,
        decreases v@.len() - i,
    {
        r.push(v[i].clone());
        i += 1;
    }
    proof {
        assert(text::texts(r@) =~= text::texts(v@));
    }
    r
}

fn append_moves(moves: &mut Vec<FsMove>, more: &Vec<FsMove>)
    ensures
        fs_operate::move_models(final(moves)@) == fs_operate::move_models(old(moves)@)
            + fs_operate::move_models(more@),
{
    let ghost before = moves@;
    let mut copied = fs_operate::clone_moves(more);
    let ghost added = copied@;
    moves.append(&mut copied);
    proof {
        assert(fs_operate::move_models(moves@) =~= fs_operate::move_models(before)
            + fs_operate::move_models(added));
    }
}

fn append_selected(moves: &mut Vec<FsMove>, cands: &Vec<FsMove>, at: &Vec<usize>)
    ensures
        fs_operate::move_models(final(moves)@) == fs_operate::move_models(old(moves)@) + selected(
            fs_operate::move_models(cands@),
            at@,
        ),
{
    let ghost start = fs_operate::move_models(moves@);
    let ghost cs = fs_operate::move_models(cands@);
    let mut i: usize = 0;
    proof {
        assert(start + selected(cs, at@.take(0)) =~= start);
    }
    while i < at.len()
        invariant
            i <= at@.len(),
            cs == fs_operate::move_models(cands@),
            fs_operate::move_models(moves@) == start + selected(cs, at@.take(i as int)),
        decreases at@.len() - i,
    {
        proof {
            assert(at@.take(i + 1).drop_last() =~= at@.take(i as int));
            assert(at@.take(i + 1).last() == at@[i as int]);
        }
        if at[i] < cands.len() {
            let m = cands[at[i]].clone();
            proof {
                fs_operate::lemma_moves_push(moves@, m);
                assert(start + selected(cs, at@.take(i + 1)) =~= (start + selected(
                    cs,
                    at@.take(i as int),
                )).push(m@));
            }
            moves.push(m);
        }
        i += 1;
    }
    proof {
        assert(at@.take(at@.len() as int) =~= at@);
    }
}

/// Does with the paths of an item what was chosen; the reason where that is to abort.
fn settle_paths(
    item: ItemId,
    paths: &Vec<String>,
    cands: &Vec<FsMove>,
    c: &HardlinkChoice,
    moves: &mut Vec<FsMove>,
    skipped: &mut Vec<ItemId>,
    Ghost(s): Ghost<HardlinkState>,
) -> (r: Result<(), ConfirmError>)
    requires
        s.moves == fs_operate::move_models(old(moves)@),
        s.skipped == old(skipped)@,
    ensures
        match r {
            Ok(_) => hardlink_done(
                s,
                item,
                text::texts(paths@),
                fs_operate::move_models(cands@),
                c@,
            ) == Flow::Going(
                HardlinkState {
                    moves: fs_operate::move_models(final(moves)@),
                    skipped: final(skipped)@,
                    ..s
                },
            ),
            Err(e) => hardlink_done(
                s,
                item,
                text::texts(paths@),
                fs_operate::move_models(cands@),
                c@,
            ) == Flow::<HardlinkState>::Failed(e@, s.used),
        },
{
    match c {
        HardlinkChoice::Abort => {
            return Err(ConfirmError::Hardlinks(item, copy_texts(paths)));
        },
        HardlinkChoice::Skip | HardlinkChoice::SkipAll => {
            replace::add_id(skipped, item);
        },
        HardlinkChoice::All | HardlinkChoice::AllForSubsequent => {
            append_moves(moves, cands);
        },
        HardlinkChoice::Selected(at) => {
            append_selected(moves, cands, at);
        },
    }
    Ok(())
}

/// The directories that moves need and that are neither there nor to be made, after those
/// that are to be made.
pub open spec fn with_missing_parents(
    mkdirs: Seq<Seq<char>>,
    moves: Seq<MoveModel>,
    fs: Seq<FsEntry>,
) -> Seq<Seq<char>>
    decreases moves.len(),
{
    if moves.len() == 0 {
        mkdirs
    } else {
        let before = with_missing_parents(mkdirs, moves.drop_last(), fs);
        match path::parent_of(moves.last().to) {
            None => before,
            Some(d) => if fs_operate::exists_at(fs, d) || fs_operate::holds_path(before, d) {
                before
            } else {
                before.push(d)
            },
        }
    }
}

fn register_missing_parents(moves: &Vec<FsMove>, mkdirs: &mut Vec<String>, fs: &FsSnapshot)
    ensures
        text::texts(final(mkdirs)@) == with_missing_parents(
            text::texts(old(mkdirs)@),
            fs_operate::move_models(moves@),
            fs.entries@,
        ),
{
    let ghost ms = fs_operate::move_models(moves@);
    let ghost start = text::texts(mkdirs@);
    let mut i: usize = 0;
    proof {
        assert(ms.take(0) =~= seq![]);
    }
    while i < moves.len()
        invariant
            i <= moves@.len(),
            ms == fs_operate::move_models(moves@),
            text::texts(mkdirs@) == with_missing_parents(start, ms.take(i as int), fs.entries@),
        decreases moves@.len() - i,
    {
        proof {
            assert(ms.take(i + 1).drop_last() =~= ms.take(i as int));
            assert(ms.take(i + 1).last() == moves@[i as int]@);
        }
        match path::parent(moves[i].to.as_str()) {
            None => {},
            Some(d) => {
                if !fs.present(d.as_str()) && !fs_operate::contains_path(mkdirs, d.as_str()) {
                    proof {
                        text::lemma_texts_push(mkdirs@, d);
                    }
                    mkdirs.push(d);
                }
            },
        }
        i += 1;
    }
    proof {
        assert(ms.take(ms.len() as int) =~= ms);
    }
}

/// Resolves items that lie at several paths, and notes the directories that the moves need.
pub fn resolve_hardlinks<P: ConfirmPrompt>(
    moves: Vec<FsMove>,
    issues: &Vec<FsIssue>,
    policy_override: Option<HardlinkPolicy>,
    interactive: bool,
    prompt: &mut P,
    skipped_items: &mut Vec<ItemId>,
    mkdirs: &mut Vec<String>,
    fs: &FsSnapshot,
) -> (r: Result<Vec<FsMove>, ConfirmError>)
    requires
        old(prompt).valid(),
    ensures
        final(prompt).valid(),
        final(prompt).source() == old(prompt).source(),
        old(prompt).asked().is_prefix_of(final(prompt).asked()),
        match r {
            Ok(left) => text::texts(final(mkdirs)@) == with_missing_parents(
                text::texts(old(mkdirs)@),
                fs_operate::move_models(left@),
                fs.entries@,
            ) && match hardlinks_resolved(
                fs_operate::move_models(moves@),
                fs_operate::issue_models(issues@),
                old(skipped_items)@,
                old(prompt).asked().len(),
                policy_override,
                interactive,
                final(prompt).asked(),
            ) {
                Flow::Going(s) => s.moves == fs_operate::move_models(left@) && s.skipped
                    == final(skipped_items)@ && s.used == final(prompt).asked().len(),
                _ => false,
            },
            Err(e) => hardlinks_resolved(
                fs_operate::move_models(moves@),
                fs_operate::issue_models(issues@),
                old(skipped_items)@,
                old(prompt).asked().len(),
                policy_override,
                interactive,
                final(prompt).asked(),
            ) == Flow::<HardlinkState>::Failed(e@, final(prompt).asked().len()),
        },
{
    let ghost first = fs_operate::move_models(moves@);
    let ghost is = fs_operate::issue_models(issues@);
    let ghost start = prompt.asked().len();
    let ghost sk = skipped_items@;
    let mut left = moves;
    let mut for_all: Option<HardlinkChoice> = None;
    let ghost mut standing: Option<HardlinkModel> = None;
    let mut i: usize = 0;
    proof {
        assert(is.take(0) =~= seq![]);
    }
    while i < issues.len()
        invariant
            i <= issues@.len(),
            is == fs_operate::issue_models(issues@),
            first == fs_operate::move_models(moves@),
            prompt.valid(),
            prompt.source() == old(prompt).source(),
            start == old(prompt).asked().len(),
            sk == old(skipped_items)@,
            mkdirs@ == old(mkdirs)@,
            old(prompt).asked().is_prefix_of(prompt.asked()),
            match for_all {
                Some(c) => standing == Some(c@),
                None => standing is None,
            },
            hardlinks_resolved(
                first,
                is.take(i as int),
                sk,
                start,
                policy_override,
                interactive,
                prompt.asked(),
            ) == Flow::Going(
                HardlinkState {
                    moves: fs_operate::move_models(left@),
                    skipped: skipped_items@,
                    for_all: standing,
                    used: prompt.asked().len(),
                },
            ),
        decreases issues@.len() - i,
    {
        let ghost log = prompt.asked();
        let ghost state = HardlinkState {
            moves: fs_operate::move_models(left@),
            skipped: skipped_items@,
            for_all: standing,
            used: log.len(),
        };
        proof {
            assert(is.take(i + 1).drop_last() =~= is.take(i as int));
            assert(is.take(i + 1).last() == issues@[i as int]@);
        }
        match &issues[i] {
            FsIssue::MultipleLocations(item, paths, cands) => {
                let ghost mut now = state;
                let choice = match policy_override {
                    Some(HardlinkPolicy::Abort) => HardlinkChoice::Abort,
                    Some(HardlinkPolicy::Skip) => HardlinkChoice::Skip,
                    Some(HardlinkPolicy::All) => HardlinkChoice::All,
                    None => match &for_all {
                        Some(HardlinkChoice::SkipAll) => HardlinkChoice::SkipAll,
                        Some(HardlinkChoice::AllForSubsequent) => HardlinkChoice::AllForSubsequent,
                        Some(HardlinkChoice::Abort) => HardlinkChoice::Abort,
                        Some(HardlinkChoice::Skip) => HardlinkChoice::Skip,
                        Some(HardlinkChoice::All) => HardlinkChoice::All,
                        Some(HardlinkChoice::Selected(at)) => HardlinkChoice::Selected(
                            copy_positions(at),
                        ),
                        None => if !interactive {
                            HardlinkChoice::Abort
                        } else {
                            let reply = prompt.ask_hardlink_resolution(item, paths);
                            proof {
                                let more = prompt.asked().skip(log.len() as int);
                                assert(prompt.asked() =~= log + more);
                                lemma_hardlinks_grow(
                                    first,
                                    is.take(i as int),
                                    sk,
                                    start,
                                    policy_override,
                                    interactive,
                                    log,
                                    more,
                                );
                                assert(prompt.asked()[log.len() as int] == Asked::Hardlink(
                                    *item,
                                    text::texts(paths@),
                                    prompt::hardlink_reply(reply),
                                ));
                            }
                            match reply {
                                Err(e) => {
                                    proof {
                                        lemma_hardlinks_failed(
                                            first,
                                            is,
                                            i + 1,
                                            sk,
                                            start,
                                            policy_override,
                                            interactive,
                                            prompt.asked(),
                                        );
                                    }
                                    return Err(ConfirmError::Prompt(e.message));
                                },
                                Ok(c) => {
                                    match &c {
                                        HardlinkChoice::SkipAll => {
                                            for_all = Some(HardlinkChoice::SkipAll);
                                        },
                                        HardlinkChoice::AllForSubsequent => {
                                            for_all = Some(HardlinkChoice::AllForSubsequent);
                                        },
                                        _ => {},
                                    }
                                    proof {
                                        if c@ is SkipAll || c@ is AllForSubsequent {
                                            standing = Some(c@);
                                        }
                                        now = HardlinkState {
                                            for_all: standing,
                                            used: state.used + 1,
                                            ..state
                                        };
                                    }
                                    c
                                },
                            }
                        },
                    },
                };
                match settle_paths(
                    *item,
                    paths,
                    cands,
                    &choice,
                    &mut left,
                    skipped_items,
                    Ghost(now),
                ) {
                    Ok(_) => {},
                    Err(e) => {
                        proof {
                            lemma_hardlinks_failed(
                                first,
                                is,
                                i + 1,
                                sk,
                                start,
                                policy_override,
                                interactive,
                                prompt.asked(),
                            );
                        }
                        return Err(e);
                    },
                }
            },
            _ => {},
        }
        i += 1;
    }
    proof {
        assert(is.take(is.len() as int) =~= is);
    }
    register_missing_parents(&left, mkdirs, fs);
    Ok(left)
}

fn copy_positions(v: &Vec<usize>) -> (r: Vec<usize>)
    ensures
        r@ == v@,
{
    let mut r: Vec<usize> = Vec::new();
    let mut i: usize = 0;
    while i < v.len()
        invariant
            i <= v@.len(),
            r@ == v@.take(i as int),
        decreases v@.len() - i,
    {
        proof {
            assert(v@.take(i + 1) =~= v@.take(i as int).push(v@[i as int]));
        }
        r.push(v[i]);
        i += 1;
    }
    proof {
        assert(v@.take(v@.len() as int) =~= v@);
    }
    r
}

// ---------------------------------------------------------------------------
// The whole
// ---------------------------------------------------------------------------

/// The writes that are left where some items are skipped.
pub open spec fn synced(actions: Seq<ActionModel>, skipped: Seq<ItemId>, scope: SkipScope) -> Seq<
    ActionModel,
> {
    match scope {
        SkipScope::Item => actions.filter(|a: ActionModel| !skipped.contains(a.id())),
        SkipScope::FsOnly => actions,
    }
}

/// Leaves out the writes to items that are skipped, where the scope says so.
pub fn sync_write_actions(
    actions: Vec<WriteAction>,
    skipped: &Vec<ItemId>,
    scope: SkipScope,
) -> (r: Vec<WriteAction>)
    ensures
        action::action_models(r@) == synced(action::action_models(actions@), skipped@, scope),
{
    match scope {
        SkipScope::FsOnly => actions,
        SkipScope::Item => {
            let ghost ms = action::action_models(actions@);
            let ghost p = |a: ActionModel| !skipped@.contains(a.id());
            let mut r: Vec<WriteAction> = Vec::new();
            let mut i: usize = 0;
            proof {
                reveal(Seq::filter);
                assert(action::action_models(r@) =~= ms.take(0).filter(p));
            }
            while i < actions.len()
                invariant
                    i <= actions@.len(),
                    ms == action::action_models(actions@),
                    p == (|a: ActionModel| !skipped@.contains(a.id())),
                    action::action_models(r@) == ms.take(i as int).filter(p),
                decreases actions@.len() - i,
            {
                proof {
                    reveal(Seq::filter);
                    assert(ms.take(i + 1).drop_last() =~= ms.take(i as int));
                    assert(ms.take(i + 1).last() == actions@[i as int]@);
                }
                if !replace::has_id(skipped, actions[i].item()) {
                    let a = actions[i].clone();
                    proof {
                        action::lemma_actions_push(r@, a);
                    }
                    r.push(a);
                }
                i += 1;
            }
            proof {
                assert(ms.take(ms.len() as int) =~= ms);
            }
            r
        },
    }
}

/// Whether an issue stops an edit.
pub open spec fn fatal(i: IssueModel) -> bool {
    i is SourceMissing || i is TargetNotWritable || i is TargetInsideSource || i is NotEnoughSpace
        || i is ChainedMove || i is NoLocation
}

/// The first issue that stops an edit.
pub open spec fn first_fatal(issues: Seq<IssueModel>) -> Option<IssueModel>
    decreases issues.len(),
{
    if issues.len() == 0 {
        None
    } else if fatal(issues[0]) {
        Some(issues[0])
    } else {
        first_fatal(issues.skip(1))
    }
}

/// Fails on the first issue that stops an edit.
pub fn check_fatal_issues(issues: &Vec<FsIssue>) -> (r: Result<(), ConfirmError>)
    ensures
        match r {
            Ok(_) => first_fatal(fs_operate::issue_models(issues@)) is None,
            Err(e) => match first_fatal(fs_operate::issue_models(issues@)) {
                Some(i) => e@ == ConfirmErrorModel::Issue(i.shown()),
                None => false,
            },
        },
{
    let ghost is = fs_operate::issue_models(issues@);
    let mut i: usize = 0;
    proof {
        assert(is.skip(0) =~= is);
    }
    while i < issues.len()
        invariant
            i <= issues@.len(),
            is == fs_operate::issue_models(issues@),
            first_fatal(is) == first_fatal(is.skip(i as int)),
        decreases issues@.len() - i,
    {
        proof {
            assert(is.skip(i as int)[0] == issues@[i as int]@);
            assert(is.skip(i as int).skip(1) =~= is.skip(i + 1));
        }
        match &issues[i] {
            FsIssue::SourceMissing(_, _)
            | FsIssue::TargetNotWritable(_, _)
            | FsIssue::TargetInsideSource(_, _, _)
            | FsIssue::NotEnoughSpace(_, _)
            | FsIssue::ChainedMove(_, _)
            | FsIssue::NoLocation(_) => {
                return Err(ConfirmError::Issue(issues[i].show()));
            },
            _ => {},
        }
        i += 1;
    }
    Ok(())
}

/// How far the user was asked about directories. Each is asked about once, and a refusal
/// ends the asking.
#[verifier::ext_equal]
pub struct MkdirState {
    pub done: Seq<Seq<char>>,
    pub refused: bool,
    pub used: nat,
}

pub open spec fn mkdir_reply_in(log: Seq<Asked>, at: nat, dir: Seq<char>) -> Option<
    Result<bool, Seq<char>>,
> {
    if at < log.len() {
        match log[at as int] {
            Asked::Mkdir(d, a) => if d == dir {
                Some(a)
            } else {
                None
            },
            _ => None,
        }
    } else {
        None
    }
}

pub open spec fn mkdirs_agreed(mkdirs: Seq<Seq<char>>, used: nat, log: Seq<Asked>) -> Flow<
    MkdirState,
>
    decreases mkdirs.len(),
{
    if mkdirs.len() == 0 {
        Flow::Going(MkdirState { done: seq![], refused: false, used })
    } else {
        match mkdirs_agreed(mkdirs.drop_last(), used, log) {
            Flow::Going(s) => if s.refused || fs_operate::holds_path(s.done, mkdirs.last()) {
                Flow::Going(s)
            } else {
                match mkdir_reply_in(log, s.used, mkdirs.last()) {
                    None => Flow::Stuck,
                    Some(Err(e)) => Flow::Failed(ConfirmErrorModel::Prompt(e), s.used + 1),
                    Some(Ok(yes)) => Flow::Going(
                        MkdirState {
                            done: s.done.push(mkdirs.last()),
                            refused: !yes,
                            used: s.used + 1,
                        },
                    ),
                }
            },
            other => other,
        }
    }
}

proof fn lemma_mkdirs_grow(
    mkdirs: Seq<Seq<char>>,
    used: nat,
    log: Seq<Asked>,
    more: Seq<Asked>,
)
    requires
        !(mkdirs_agreed(mkdirs, used, log) is Stuck),
    ensures
        mkdirs_agreed(mkdirs, used, log + more) == mkdirs_agreed(mkdirs, used, log),
    decreases mkdirs.len(),
{
    if mkdirs.len() > 0 {
        lemma_mkdirs_grow(mkdirs.drop_last(), used, log, more);
        match mkdirs_agreed(mkdirs.drop_last(), used, log) {
            Flow::Going(s) => {
                if s.used < log.len() {
                    assert((log + more)[s.used as int] == log[s.used as int]);
                }
            },
            _ => {},
        }
    }
}

proof fn lemma_mkdirs_settled(mkdirs: Seq<Seq<char>>, k: int, used: nat, log: Seq<Asked>)
    requires
        0 <= k <= mkdirs.len(),
        match mkdirs_agreed(mkdirs.take(k), used, log) {
            Flow::Failed(..) => true,
            Flow::Going(s) => s.refused,
            Flow::Stuck => false,
        },
    ensures
        mkdirs_agreed(mkdirs, used, log) == mkdirs_agreed(mkdirs.take(k), used, log),
    decreases mkdirs.len(),
{
    if k == mkdirs.len() {
        assert(mkdirs.take(k) =~= mkdirs);
    } else {
        assert(mkdirs.drop_last().take(k) =~= mkdirs.take(k));
        lemma_mkdirs_settled(mkdirs.drop_last(), k, used, log);
    }
}

/// Asks about the directories that are to be made; says whether all are agreed to.
fn agree_mkdirs<P: ConfirmPrompt>(mkdirs: &Vec<String>, prompt: &mut P) -> (r: Result<
    bool,
    ConfirmError,
>)
    requires
        old(prompt).valid(),
    ensures
        final(prompt).valid(),
        final(prompt).source() == old(prompt).source(),
        old(prompt).asked().is_prefix_of(final(prompt).asked()),
        match r {
            Ok(yes) => match mkdirs_agreed(
                text::texts(mkdirs@),
                old(prompt).asked().len(),
                final(prompt).asked(),
            ) {
                Flow::Going(s) => s.refused == !yes && s.used == final(prompt).asked().len(),
                _ => false,
            },
            Err(e) => mkdirs_agreed(
                text::texts(mkdirs@),
                old(prompt).asked().len(),
                final(prompt).asked(),
            ) == Flow::<MkdirState>::Failed(e@, final(prompt).asked().len()),
        },
{
    let ghost ds = text::texts(mkdirs@);
    let ghost start = prompt.asked().len();
    let mut done: Vec<String> = Vec::new();
    let mut i: usize = 0;
    proof {
        assert(ds.take(0) =~= seq![]);
        assert(text::texts(done@) =~= seq![]);
    }
    while i < mkdirs.len()
        invariant
            i <= mkdirs@.len(),
            ds == text::texts(mkdirs@),
            prompt.valid(),
            prompt.source() == old(prompt).source(),
            start == old(prompt).asked().len(),
            old(prompt).asked().is_prefix_of(prompt.asked()),
            mkdirs_agreed(ds.take(i as int), start, prompt.asked()) == Flow::Going(
                MkdirState {
                    done: text::texts(done@),
                    refused: false,
                    used: prompt.asked().len(),
                },
            ),
        decreases mkdirs@.len() - i,
    {
        let ghost log = prompt.asked();
        proof {
            assert(ds.take(i + 1).drop_last() =~= ds.take(i as int));
            assert(ds.take(i + 1).last() == mkdirs@[i as int]@);
        }
        if !fs_operate::contains_path(&done, mkdirs[i].as_str()) {
            let reply = prompt.ask_mkdir_confirmation(mkdirs[i].as_str());
            proof {
                let more = prompt.asked().skip(log.len() as int);
                assert(prompt.asked() =~= log + more);
                lemma_mkdirs_grow(ds.take(i as int), start, log, more);
                assert(prompt.asked()[log.len() as int] == Asked::Mkdir(
                    mkdirs@[i as int]@,
                    prompt::plain_answer(reply),
                ));
            }
            match reply {
                Err(e) => {
                    proof {
                        lemma_mkdirs_settled(ds, i + 1, start, prompt.asked());
                    }
                    return Err(ConfirmError::Prompt(e.message));
                },
                Ok(yes) => {
                    let d = mkdirs[i].clone();
                    if !yes {
                        proof {
                            lemma_mkdirs_settled(ds, i + 1, start, prompt.asked());
                        }
                        return Ok(false);
                    }
                    proof {
                        text::lemma_texts_push(done@, d);
                    }
                    done.push(d);
                },
            }
        }
        i += 1;
    }
    proof {
        assert(ds.take(ds.len() as int) =~= ds);
    }
    Ok(true)
}

/// Whether a write deletes the item itself.
pub open spec fn deletes_item(a: ActionModel) -> bool {
    match a {
        ActionModel::Add { .. } => false,
        ActionModel::Delete { tags, .. } => holds_item_target(tags),
    }
}

pub open spec fn holds_item_target(tags: Seq<TargetModel>) -> bool {
    exists|k: int| 0 <= k < tags.len() && is_item_target(#[trigger] tags[k])
}

pub open spec fn is_item_target(t: TargetModel) -> bool {
    match t {
        TargetModel::Type(ty) => ty.name() == "item_id"@,
        TargetModel::Tag(_) => false,
    }
}

fn any_item_target(tags: &Vec<DeleteTarget>) -> (r: bool)
    ensures
        r == holds_item_target(action::target_models(tags@)),
{
    let ghost ts = action::target_models(tags@);
    let mut i: usize = 0;
    while i < tags.len()
        invariant
            i <= tags@.len(),
            ts == action::target_models(tags@),
            forall|k: int| 0 <= k < i ==> !is_item_target(#[trigger] ts[k]),
        decreases tags@.len() - i,
    {
        match &tags[i] {
            DeleteTarget::Type(ty) => {
                if text::str_eq(ty.as_str(), "item_id") {
                    proof {
                        assert(is_item_target(ts[i as int]));
                    }
                    return true;
                }
            },
            DeleteTarget::Tag(_) => {},
        }
        i += 1;
    }
    false
}

fn deletes(a: &WriteAction) -> (r: bool)
    ensures
        r == deletes_item(a@),
{
    match a {
        WriteAction::Add { .. } => false,
        WriteAction::Delete { tags, .. } => any_item_target(tags),
    }
}

/// Whether items are only registered: no query comes with any of them.
pub open spec fn registers(edits: Seq<(Item, Option<EditQuery>)>) -> bool {
    forall|k: int| 0 <= k < edits.len() ==> (#[trigger] edits[k]).1 is None
}

/// A number as it fits a machine word.
pub open spec fn capped(n: nat) -> usize {
    if n > usize::MAX {
        usize::MAX
    } else {
        n as usize
    }
}

/// What is about to be done, for the user to agree to.
pub open spec fn summarized(
    plan: PlanModel,
    actions: Seq<ActionModel>,
    edits: Seq<(Item, Option<EditQuery>)>,
    cast: Option<CastModel>,
) -> SummaryModel {
    SummaryModel {
        matched_items: edits.len() as usize,
        fs_ops: capped(plan.moves.len() + plan.attrs.len()),
        tag_ops: actions.len() as usize,
        deleted_items: actions.filter(|a: ActionModel| deletes_item(a)).len() as usize,
        is_registration: registers(edits),
        skipped_types: seq![],
        cast_info: cast,
    }
}

/// Sums up what is about to be done.
pub fn summarize(
    fs_plan: &FsPlan,
    actions: &Vec<WriteAction>,
    item_edits: &Vec<(Item, Option<EditQuery>)>,
    cast_info: Option<CastSummary>,
) -> (r: ConfirmSummary)
    ensures
        r@ == summarized(
            fs_plan@,
            action::action_models(actions@),
            item_edits@,
            prompt::cast_model(cast_info),
        ),
{
    let ghost ms = action::action_models(actions@);
    let ghost p = |a: ActionModel| deletes_item(a);
    let mut deleted: usize = 0;
    let mut i: usize = 0;
    proof {
        reveal(Seq::filter);
        assert(ms.take(0).filter(p).len() == 0);
    }
    while i < actions.len()
        invariant
            i <= actions@.len(),
            ms == action::action_models(actions@),
            p == (|a: ActionModel| deletes_item(a)),
            deleted == ms.take(i as int).filter(p).len(),
            deleted <= i,
        decreases actions@.len() - i,
    {
        proof {
            reveal(Seq::filter);
            assert(ms.take(i + 1).drop_last() =~= ms.take(i as int));
            assert(ms.take(i + 1).last() == actions@[i as int]@);
        }
        if deletes(&actions[i]) {
            deleted += 1;
        }
        i += 1;
    }
    let mut registering = true;
    let mut k: usize = 0;
    while k < item_edits.len()
        invariant
            k <= item_edits@.len(),
            registering == forall|j: int|
                0 <= j < k ==> (#[trigger] item_edits@[j]).1 is None,
        decreases item_edits@.len() - k,
    {
        if item_edits[k].1.is_some() {
            registering = false;
        }
        k += 1;
    }
    proof {
        assert(ms.take(ms.len() as int) =~= ms);
    }
    let r = ConfirmSummary {
        matched_items: item_edits.len(),
        fs_ops: fs_plan.moves.len().saturating_add(fs_plan.attrs.len()),
        tag_ops: actions.len(),
        deleted_items: deleted,
        is_registration: registering,
        skipped_types: Vec::new(),
        cast_info,
    };
    proof {
        assert(r@.skipped_types =~= seq![]);
    }
    r
}

/// What comes of confirming a plan: the plan and the writes that are left, or nothing where
/// the user did not agree.
pub enum Confirmed {
    Agreed(PlanModel, Seq<ActionModel>),
    Refused,
}

/// The answer that an account holds to the question whether an edit is carried out.
pub open spec fn confirm_reply_in(log: Seq<Asked>, at: nat, summary: SummaryModel) -> Option<
    Result<bool, Seq<char>>,
> {
    if at < log.len() {
        match log[at as int] {
            Asked::Confirmation(s, a) => if s == summary {
                Some(a)
            } else {
                None
            },
            _ => None,
        }
    } else {
        None
    }
}

/// The last question, once everything is resolved.
pub open spec fn agreed_at_last(
    plan: PlanModel,
    actions: Seq<ActionModel>,
    edits: Seq<(Item, Option<EditQuery>)>,
    cast: Option<CastModel>,
    interactive: bool,
    used: nat,
    log: Seq<Asked>,
) -> Flow<(Confirmed, nat)> {
    if !interactive {
        Flow::Going((Confirmed::Agreed(plan, actions), used))
    } else {
        match confirm_reply_in(log, used, summarized(plan, actions, edits, cast)) {
            None => Flow::Stuck,
            Some(Err(e)) => Flow::Failed(ConfirmErrorModel::Prompt(e), used + 1),
            Some(Ok(yes)) => if yes {
                Flow::Going((Confirmed::Agreed(plan, actions), used + 1))
            } else {
                Flow::Going((Confirmed::Refused, used + 1))
            },
        }
    }
}

/// What is asked about directories, and then the last question.
pub open spec fn agreed_to_all(
    plan: PlanModel,
    actions: Seq<ActionModel>,
    edits: Seq<(Item, Option<EditQuery>)>,
    cast: Option<CastModel>,
    interactive: bool,
    used: nat,
    log: Seq<Asked>,
) -> Flow<(Confirmed, nat)> {
    if !interactive {
        agreed_at_last(plan, actions, edits, cast, interactive, used, log)
    } else {
        match mkdirs_agreed(plan.mkdirs, used, log) {
            Flow::Failed(e, n) => Flow::Failed(e, n),
            Flow::Stuck => Flow::Stuck,
            Flow::Going(s) => if s.refused {
                Flow::Going((Confirmed::Refused, s.used))
            } else {
                agreed_at_last(plan, actions, edits, cast, interactive, s.used, log)
            },
        }
    }
}

/// A plan and the writes that go with it, with everything resolved: tags with several
/// values, items with several paths, and targets that are taken, in this order.
pub open spec fn resolved(
    plan: PlanModel,
    actions: Seq<ActionModel>,
    options: WriteOptions,
    interactive: bool,
    fs: Seq<FsEntry>,
    used: nat,
    log: Seq<Asked>,
) -> Flow<(PlanModel, Seq<ActionModel>, nat)> {
    match replace::replace_resolved(
        actions,
        seq![],
        options.on_conflict,
        interactive,
        used,
        log,
    ) {
        Flow::Failed(e, n) => Flow::Failed(e, n),
        Flow::Stuck => Flow::Stuck,
        Flow::Going(r) => match hardlinks_resolved(
            plan.moves,
            plan.issues,
            r.skipped,
            r.used,
            options.on_hardlink,
            interactive,
            log,
        ) {
            Flow::Failed(e, n) => Flow::Failed(e, n),
            Flow::Stuck => Flow::Stuck,
            Flow::Going(h) => match conflicts_resolved(
                h.moves,
                h.skipped,
                h.used,
                fs,
                options.on_conflict,
                interactive,
                log,
            ) {
                Flow::Failed(e, n) => Flow::Failed(e, n),
                Flow::Stuck => Flow::Stuck,
                Flow::Going(c) => Flow::Going(
                    (
                        PlanModel {
                            moves: c.moves,
                            mkdirs: with_missing_parents(plan.mkdirs, h.moves, fs),
                            ..plan
                        },
                        synced(r.actions, c.skipped, options.skip_scope),
                        c.used,
                    ),
                ),
            },
        },
    }
}

/// What comes of confirming a plan: an issue that stops it comes first, then everything is
/// resolved, then the user is asked.
pub open spec fn confirmed(
    plan: PlanModel,
    actions: Seq<ActionModel>,
    edits: Seq<(Item, Option<EditQuery>)>,
    options: WriteOptions,
    cast: Option<CastModel>,
    interactive: bool,
    fs: Seq<FsEntry>,
    used: nat,
    log: Seq<Asked>,
) -> Flow<(Confirmed, nat)> {
    match first_fatal(plan.issues) {
        Some(i) => Flow::Failed(ConfirmErrorModel::Issue(i.shown()), used),
        None => match resolved(plan, actions, options, interactive, fs, used, log) {
            Flow::Failed(e, n) => Flow::Failed(e, n),
            Flow::Stuck => Flow::Stuck,
            Flow::Going(t) => agreed_to_all(t.0, t.1, edits, cast, interactive, t.2, log),
        },
    }
}

proof fn lemma_replace_grows(
    actions: Seq<ActionModel>,
    skipped: Seq<ItemId>,
    policy: Option<ConflictPolicy>,
    interactive: bool,
    used: nat,
    log: Seq<Asked>,
    later: Seq<Asked>,
)
    requires
        log.is_prefix_of(later),
        !(replace::replace_resolved(actions, skipped, policy, interactive, used, log) is Stuck),
    ensures
        replace::replace_resolved(actions, skipped, policy, interactive, used, later)
            == replace::replace_resolved(actions, skipped, policy, interactive, used, log),
{
    let more = later.skip(log.len() as int);
    assert(later =~= log + more);
    replace::lemma_chosen_grows(
        replace::sorted_groups(replace::grouped(actions)),
        used,
        policy,
        interactive,
        log,
        more,
    );
}

proof fn lemma_resolved_grows(
    plan: PlanModel,
    actions: Seq<ActionModel>,
    options: WriteOptions,
    interactive: bool,
    fs: Seq<FsEntry>,
    used: nat,
    log: Seq<Asked>,
    later: Seq<Asked>,
)
    requires
        log.is_prefix_of(later),
        !(resolved(plan, actions, options, interactive, fs, used, log) is Stuck),
    ensures
        resolved(plan, actions, options, interactive, fs, used, later) == resolved(
            plan,
            actions,
            options,
            interactive,
            fs,
            used,
            log,
        ),
{
    let more = later.skip(log.len() as int);
    assert(later =~= log + more);
    let policy = options.on_conflict;
    lemma_replace_grows(actions, seq![], policy, interactive, used, log, later);
    match replace::replace_resolved(actions, seq![], policy, interactive, used, log) {
        Flow::Going(r) => {
            lemma_hardlinks_grow(
                plan.moves,
                plan.issues,
                r.skipped,
                r.used,
                options.on_hardlink,
                interactive,
                log,
                more,
            );
            match hardlinks_resolved(
                plan.moves,
                plan.issues,
                r.skipped,
                r.used,
                options.on_hardlink,
                interactive,
                log,
            ) {
                Flow::Going(h) => {
                    lemma_conflicts_grow(
                        h.moves,
                        h.skipped,
                        h.used,
                        fs,
                        policy,
                        interactive,
                        log,
                        more,
                    );
                },
                _ => {},
            }
        },
        _ => {},
    }
}

fn resolve_all<P: ConfirmPrompt>(
    fs_plan: FsPlan,
    actions: Vec<WriteAction>,
    options: &WriteOptions,
    interactive: bool,
    prompt: &mut P,
    fs: &FsSnapshot,
) -> (r: Result<(FsPlan, Vec<WriteAction>), ConfirmError>)
    requires
        old(prompt).valid(),
    ensures
        final(prompt).valid(),
        final(prompt).source() == old(prompt).source(),
        old(prompt).asked().is_prefix_of(final(prompt).asked()),
        match r {
            Ok(left) => resolved(
                fs_plan@,
                action::action_models(actions@),
                *options,
                interactive,
                fs.entries@,
                old(prompt).asked().len(),
                final(prompt).asked(),
            ) == Flow::Going(
                (left.0@, action::action_models(left.1@), final(prompt).asked().len()),
            ),
            Err(e) => resolved(
                fs_plan@,
                action::action_models(actions@),
                *options,
                interactive,
                fs.entries@,
                old(prompt).asked().len(),
                final(prompt).asked(),
            ) == Flow::<(PlanModel, Seq<ActionModel>, nat)>::Failed(e@, final(prompt).asked().len()),
        },
{
    let ghost plan0 = fs_plan@;
    let ghost acts = action::action_models(actions@);
    let ghost log0 = prompt.asked();
    let mut skipped: Vec<ItemId> = Vec::new();
    proof {
        assert(skipped@ =~= seq![]);
    }
    let actions = match resolve_replace_conflicts(
        actions,
        options.on_conflict,
        interactive,
        prompt,
        &mut skipped,
    ) {
        Ok(a) => a,
        Err(e) => {
            return Err(e);
        },
    };
    let ghost log1 = prompt.asked();
    let ghost skipped1 = skipped@;
    let FsPlan { moves, attrs, mkdirs, issues } = fs_plan;
    let mut mkdirs = mkdirs;
    let moves = resolve_hardlinks(
        moves,
        &issues,
        options.on_hardlink,
        interactive,
        prompt,
        &mut skipped,
        &mut mkdirs,
        fs,
    );
    let ghost log2 = prompt.asked();
    proof {
        lemma_replace_grows(
            acts,
            seq![],
            options.on_conflict,
            interactive,
            log0.len(),
            log1,
            log2,
        );
    }
    let moves = match moves {
        Ok(m) => m,
        Err(e) => {
            return Err(e);
        },
    };
    let moves = resolve_conflicts(
        moves,
        options.on_conflict,
        interactive,
        prompt,
        &mut skipped,
        fs,
    );
    let ghost log3 = prompt.asked();
    proof {
        lemma_replace_grows(
            acts,
            seq![],
            options.on_conflict,
            interactive,
            log0.len(),
            log2,
            log3,
        );
        assert(log3 =~= log2 + log3.skip(log2.len() as int));
        lemma_hardlinks_grow(
            plan0.moves,
            plan0.issues,
            skipped1,
            log1.len(),
            options.on_hardlink,
            interactive,
            log2,
            log3.skip(log2.len() as int),
        );
    }
    let moves = match moves {
        Ok(m) => m,
        Err(e) => {
            return Err(e);
        },
    };
    let fs_plan = FsPlan { moves, attrs, mkdirs, issues };
    let actions = sync_write_actions(actions, &skipped, options.skip_scope);
    Ok((fs_plan, actions))
}

/// Asks about directories, and then whether the edit is carried out.
fn agree_to_all<P: ConfirmPrompt>(
    fs_plan: &FsPlan,
    actions: &Vec<WriteAction>,
    item_edits: &Vec<(Item, Option<EditQuery>)>,
    cast_info: Option<CastSummary>,
    prompt: &mut P,
) -> (r: Result<bool, ConfirmError>)
    requires
        old(prompt).valid(),
    ensures
        final(prompt).valid(),
        final(prompt).source() == old(prompt).source(),
        old(prompt).asked().is_prefix_of(final(prompt).asked()),
        match r {
            Ok(yes) => agreed_to_all(
                fs_plan@,
                action::action_models(actions@),
                item_edits@,
                prompt::cast_model(cast_info),
                true,
                old(prompt).asked().len(),
                final(prompt).asked(),
            ) == Flow::Going(
                (
                    if yes {
                        Confirmed::Agreed(fs_plan@, action::action_models(actions@))
                    } else {
                        Confirmed::Refused
                    },
                    final(prompt).asked().len(),
                ),
            ),
            Err(e) => agreed_to_all(
                fs_plan@,
                action::action_models(actions@),
                item_edits@,
                prompt::cast_model(cast_info),
                true,
                old(prompt).asked().len(),
                final(prompt).asked(),
            ) == Flow::<(Confirmed, nat)>::Failed(e@, final(prompt).asked().len()),
        },
{
    let ghost log0 = prompt.asked();
    match agree_mkdirs(&fs_plan.mkdirs, prompt) {
        Err(e) => {
            return Err(e);
        },
        Ok(yes) => {
            if !yes {
                return Ok(false);
            }
        },
    }
    let ghost log1 = prompt.asked();
    let summary = summarize(fs_plan, actions, item_edits, cast_info);
    let reply = prompt.ask_confirmation(&summary);
    let ghost log2 = prompt.asked();
    proof {
        let more = log2.skip(log1.len() as int);
        assert(log2 =~= log1 + more);
        lemma_mkdirs_grow(fs_plan@.mkdirs, log0.len(), log1, more);
        assert(log2[log1.len() as int] == Asked::Confirmation(
            summary@,
            prompt::plain_answer(reply),
        ));
    }
    match reply {
        Err(e) => Err(ConfirmError::Prompt(e.message)),
        Ok(yes) => Ok(yes),
    }
}

/// Confirms a plan with the writes that go with it, asking where the options say so.
/// `terminal` says whether there is a user to ask.
pub fn confirm_with_prompt<P: ConfirmPrompt>(
    fs_plan: FsPlan,
    actions: Vec<WriteAction>,
    item_edits: &Vec<(Item, Option<EditQuery>)>,
    options: &WriteOptions,
    terminal: bool,
    cast_info: Option<CastSummary>,
    prompt: &mut P,
    fs: &FsSnapshot,
) -> (r: Result<Option<(FsPlan, Vec<WriteAction>)>, ConfirmError>)
    requires
        old(prompt).valid(),
    ensures
        final(prompt).valid(),
        final(prompt).source() == old(prompt).source(),
        old(prompt).asked().is_prefix_of(final(prompt).asked()),
        first_fatal(fs_plan@.issues) is Some || !options.asks(terminal) ==> final(prompt).asked()
            == old(prompt).asked(),
        match r {
            Ok(Some(left)) => confirmed(
                fs_plan@,
                action::action_models(actions@),
                item_edits@,
                *options,
                prompt::cast_model(cast_info),
                options.asks(terminal),
                fs.entries@,
                old(prompt).asked().len(),
                final(prompt).asked(),
            ) == Flow::Going(
                (
                    Confirmed::Agreed(left.0@, action::action_models(left.1@)),
                    final(prompt).asked().len(),
                ),
            ),
            Ok(None) => confirmed(
                fs_plan@,
                action::action_models(actions@),
                item_edits@,
                *options,
                prompt::cast_model(cast_info),
                options.asks(terminal),
                fs.entries@,
                old(prompt).asked().len(),
                final(prompt).asked(),
            ) == Flow::Going((Confirmed::Refused, final(prompt).asked().len())),
            Err(e) => confirmed(
                fs_plan@,
                action::action_models(actions@),
                item_edits@,
                *options,
                prompt::cast_model(cast_info),
                options.asks(terminal),
                fs.entries@,
                old(prompt).asked().len(),
                final(prompt).asked(),
            ) == Flow::<(Confirmed, nat)>::Failed(e@, final(prompt).asked().len()),
        },
{
    let ghost plan0 = fs_plan@;
    let ghost acts = action::action_models(actions@);
    let ghost log0 = prompt.asked();
    match check_fatal_issues(&fs_plan.issues) {
        Ok(_) => {},
        Err(e) => {
            return Err(e);
        },
    }
    let interactive = options.is_interactive(terminal);
    let resolved_all = resolve_all(fs_plan, actions, options, interactive, prompt, fs);
    proof {
        if !interactive {
            law_nothing_asked_nothing_answered(
                plan0,
                acts,
                item_edits@,
                *options,
                prompt::cast_model(cast_info),
                fs.entries@,
                log0.len(),
                prompt.asked(),
                prompt.asked(),
            );
        }
    }
    let (fs_plan, actions) = match resolved_all {
        Ok(left) => left,
        Err(e) => {
            return Err(e);
        },
    };
    if !interactive {
        return Ok(Some((fs_plan, actions)));
    }
    let ghost log1 = prompt.asked();
    let agreed = agree_to_all(&fs_plan, &actions, item_edits, cast_info, prompt);
    proof {
        lemma_resolved_grows(
            plan0,
            acts,
            *options,
            interactive,
            fs.entries@,
            log0.len(),
            log1,
            prompt.asked(),
        );
    }
    match agreed {
        Err(e) => Err(e),
        Ok(yes) => if yes {
            Ok(Some((fs_plan, actions)))
        } else {
            Ok(None)
        },
    }
}

/// Confirms a plan with the lines of an input for answers; what is asked goes to `output`.
pub fn confirm_with_io(
    fs_plan: FsPlan,
    actions: Vec<WriteAction>,
    item_edits: &Vec<(Item, Option<EditQuery>)>,
    options: &WriteOptions,
    terminal: bool,
    input: Vec<String>,
    output: &mut String,
    fs: &FsSnapshot,
) -> (r: Result<Option<(FsPlan, Vec<WriteAction>)>, ConfirmError>)
    ensures
        exists|log: Seq<Asked>|
            #![trigger prompt::written(log)]
            {
                &&& prompt::answered_all(log, text::texts(input@))
                &&& final(output)@ == old(output)@ + prompt::written(log)
                &&& match r {
                    Ok(Some(left)) => confirmed(
                        fs_plan@,
                        action::action_models(actions@),
                        item_edits@,
                        *options,
                        None,
                        options.asks(terminal),
                        fs.entries@,
                        0,
                        log,
                    ) == Flow::Going(
                        (Confirmed::Agreed(left.0@, action::action_models(left.1@)), log.len()),
                    ),
                    Ok(None) => confirmed(
                        fs_plan@,
                        action::action_models(actions@),
                        item_edits@,
                        *options,
                        None,
                        options.asks(terminal),
                        fs.entries@,
                        0,
                        log,
                    ) == Flow::Going((Confirmed::Refused, log.len())),
                    Err(e) => confirmed(
                        fs_plan@,
                        action::action_models(actions@),
                        item_edits@,
                        *options,
                        None,
                        options.asks(terminal),
                        fs.entries@,
                        0,
                        log,
                    ) == Flow::<(Confirmed, nat)>::Failed(e@, log.len()),
                }
            },
{
    let mut prompt = IoConfirmPrompt::new(input);
    let r = confirm_with_prompt(
        fs_plan,
        actions,
        item_edits,
        options,
        terminal,
        None,
        &mut prompt,
        fs,
    );
    proof {
        prompt.lemma_account();
        assert(prompt::written(prompt.asked()) == prompt.text());
    }
    output.push_str(prompt.output().as_str());
    r
}

// ---------------------------------------------------------------------------
// Laws
// ---------------------------------------------------------------------------

proof fn lemma_unasked_choices(
    groups: Seq<replace::GroupModel>,
    used: nat,
    policy: Option<ConflictPolicy>,
    a: Seq<Asked>,
    b: Seq<Asked>,
)
    ensures
        replace::chosen_all(groups, used, policy, false, a) == replace::chosen_all(
            groups,
            used,
            policy,
            false,
            b,
        ),
        match replace::chosen_all(groups, used, policy, false, a) {
            Flow::Going(s) => s.used == used,
            Flow::Failed(_, n) => n == used,
            Flow::Stuck => false,
        },
    decreases groups.len(),
{
    if groups.len() > 0 {
        lemma_unasked_choices(groups.drop_last(), used, policy, a, b);
    }
}

proof fn lemma_unasked_hardlinks(
    moves: Seq<MoveModel>,
    issues: Seq<IssueModel>,
    skipped: Seq<ItemId>,
    used: nat,
    policy: Option<HardlinkPolicy>,
    a: Seq<Asked>,
    b: Seq<Asked>,
)
    ensures
        hardlinks_resolved(moves, issues, skipped, used, policy, false, a) == hardlinks_resolved(
            moves,
            issues,
            skipped,
            used,
            policy,
            false,
            b,
        ),
        match hardlinks_resolved(moves, issues, skipped, used, policy, false, a) {
            Flow::Going(s) => s.used == used,
            Flow::Failed(_, n) => n == used,
            Flow::Stuck => false,
        },
    decreases issues.len(),
{
    if issues.len() > 0 {
        lemma_unasked_hardlinks(moves, issues.drop_last(), skipped, used, policy, a, b);
    }
}

proof fn lemma_unasked_conflicts(
    moves: Seq<MoveModel>,
    skipped: Seq<ItemId>,
    used: nat,
    fs: Seq<FsEntry>,
    policy: Option<ConflictPolicy>,
    a: Seq<Asked>,
    b: Seq<Asked>,
)
    ensures
        conflicts_resolved(moves, skipped, used, fs, policy, false, a) == conflicts_resolved(
            moves,
            skipped,
            used,
            fs,
            policy,
            false,
            b,
        ),
        match conflicts_resolved(moves, skipped, used, fs, policy, false, a) {
            Flow::Going(s) => s.used == used,
            Flow::Failed(_, n) => n == used,
            Flow::Stuck => false,
        },
    decreases moves.len(),
{
    if moves.len() > 0 {
        lemma_unasked_conflicts(moves.drop_last(), skipped, used, fs, policy, a, b);
    }
}

/// Where the user is not asked, the outcome depends on no answers, no question is used up,
/// and the edit is not refused: it goes on or fails.
pub proof fn law_nothing_asked_nothing_answered(
    plan: PlanModel,
    actions: Seq<ActionModel>,
    edits: Seq<(Item, Option<EditQuery>)>,
    options: WriteOptions,
    cast: Option<CastModel>,
    fs: Seq<FsEntry>,
    used: nat,
    a: Seq<Asked>,
    b: Seq<Asked>,
)
    ensures
        confirmed(plan, actions, edits, options, cast, false, fs, used, a) == confirmed(
            plan,
            actions,
            edits,
            options,
            cast,
            false,
            fs,
            used,
            b,
        ),
        match confirmed(plan, actions, edits, options, cast, false, fs, used, a) {
            Flow::Going(t) => t.0 is Agreed && t.1 == used,
            Flow::Failed(_, n) => n == used,
            Flow::Stuck => false,
        },
{
    lemma_unasked_choices(
        replace::sorted_groups(replace::grouped(actions)),
        used,
        options.on_conflict,
        a,
        b,
    );
    match replace::replace_resolved(actions, seq![], options.on_conflict, false, used, a) {
        Flow::Going(r) => {
            lemma_unasked_hardlinks(
                plan.moves,
                plan.issues,
                r.skipped,
                r.used,
                options.on_hardlink,
                a,
                b,
            );
            match hardlinks_resolved(
                plan.moves,
                plan.issues,
                r.skipped,
                r.used,
                options.on_hardlink,
                false,
                a,
            ) {
                Flow::Going(h) => {
                    lemma_unasked_conflicts(
                        h.moves,
                        h.skipped,
                        h.used,
                        fs,
                        options.on_conflict,
                        a,
                        b,
                    );
                },
                _ => {},
            }
        },
        _ => {},
    }
}

/// A plan that is agreed to moves files to free and different places only, whatever was
/// answered, and no issue that stops an edit stood in its way.
pub proof fn law_agreed_plans_are_safe(
    plan: PlanModel,
    actions: Seq<ActionModel>,
    edits: Seq<(Item, Option<EditQuery>)>,
    options: WriteOptions,
    cast: Option<CastModel>,
    interactive: bool,
    fs: Seq<FsEntry>,
    used: nat,
    log: Seq<Asked>,
)
    ensures
        match confirmed(plan, actions, edits, options, cast, interactive, fs, used, log) {
            Flow::Going((Confirmed::Agreed(p, _), _)) => targets_apart(fs, p.moves)
                && first_fatal(plan.issues) is None && p.attrs == plan.attrs && p.issues
                == plan.issues,
            _ => true,
        },
{
    match replace::replace_resolved(actions, seq![], options.on_conflict, interactive, used, log) {
        Flow::Going(r) => {
            match hardlinks_resolved(
                plan.moves,
                plan.issues,
                r.skipped,
                r.used,
                options.on_hardlink,
                interactive,
                log,
            ) {
                Flow::Going(h) => {
                    law_resolved_targets_are_free(
                        h.moves,
                        h.skipped,
                        h.used,
                        fs,
                        options.on_conflict,
                        interactive,
                        log,
                    );
                },
                _ => {},
            }
        },
        _ => {},
    }
}

/// Where a skip takes a whole item out, no write to an item that is skipped is left.
pub proof fn law_skipped_items_are_not_written(
    actions: Seq<ActionModel>,
    skipped: Seq<ItemId>,
    k: int,
)
    requires
        0 <= k < synced(actions, skipped, SkipScope::Item).len(),
    ensures
        !skipped.contains(synced(actions, skipped, SkipScope::Item)[k].id()),
    decreases actions.len(),
{
    reveal(Seq::filter);
    let p = |a: ActionModel| !skipped.contains(a.id());
    if actions.len() > 0 {
        let before = actions.drop_last().filter(p);
        if k < before.len() {
            law_skipped_items_are_not_written(actions.drop_last(), skipped, k);
        }
    }
}

} // verus!
