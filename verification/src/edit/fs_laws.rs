//! What a plan for an edit of files promises, told by the paths that files go from and to.
use crate::col::Col;
use crate::edit::fs_operate;
use crate::edit::fs_operate::{
    FsEntry, FsErrorModel, InputModel, MoveModel, Outcome, PlanModel, TimeText,
};
use crate::edit::modify::ResolvedModel;
use crate::edit::QueryType;
use crate::path;
use crate::path::Location;
use crate::tag;
use crate::tag::EditStrategy;
use crate::types::ItemId;
use vstd::prelude::*;

verus! {

/// Whether two paths lie in the same directory.
pub open spec fn beside(a: Seq<char>, b: Seq<char>) -> bool {
    match (path::parent_of(a), path::parent_of(b)) {
        (Some(x), Some(y)) => path::same(x, y),
        _ => false,
    }
}

/// Whether a path lies in a directory.
pub open spec fn lies_in(p: Seq<char>, dir: Seq<char>) -> bool {
    match path::parent_of(p) {
        Some(d) => path::same(d, dir),
        None => false,
    }
}

/// Whether a text can be the name of a file.
pub open spec fn names_a_file(s: Seq<char>) -> bool {
    path::is_name(s) && s != ".."@
}

/// Whether `to` is the file at `from` with one part of its path set and the others kept: its
/// directory, its stem, its extension, its name or all of it.
pub open spec fn set_as_asked(
    from: Seq<char>,
    comps: Seq<Col>,
    value: Seq<char>,
    to: Seq<char>,
) -> bool {
    &&& comps == seq![Col::Parentdir] ==> path::file_name_of(to) == path::file_name_of(from)
        && lies_in(to, value)
    &&& comps == seq![Col::Stem] ==> {
        let name = match path::extension_of(from) {
            Some(e) => value + "."@ + e,
            None => value,
        };
        names_a_file(name) ==> path::file_name_of(to) == Some(name) && beside(to, from)
    }
    &&& comps == seq![Col::Extension] ==> {
        let name = path::stem_of(from)->0 + "."@ + value;
        names_a_file(name) ==> path::file_name_of(to) == Some(name) && beside(to, from)
    }
    &&& comps == seq![Col::Stem, Col::Extension] ==> (names_a_file(value) ==> path::file_name_of(to)
        == Some(value) && beside(to, from))
    &&& comps == seq![Col::Parentdir, Col::Stem, Col::Extension] ==> (path::file_name_of(value)
        is Some ==> path::same(to, value))
}

/// The name of a file by its stem and extension, in a directory.
proof fn lemma_placed(l: Location)
    requires
        names_a_file(path::joined_name(l.stem, l.extension)),
    ensures
        path::file_name_of(l.path()) == Some(path::joined_name(l.stem, l.extension)),
        lies_in(l.path(), l.parentdir),
{
    path::law_joined_name_lies_in_the_directory(
        l.parentdir,
        path::joined_name(l.stem, l.extension),
    );
}

proof fn lemma_named(from: Seq<char>)
    requires
        path::file_name_of(from) is Some,
    ensures
        names_a_file(path::file_name_of(from)->0),
        path::joined_name(path::located(from).stem, path::located(from).extension)
            == path::file_name_of(from)->0,
        path::parent_of(from) == Some(path::located(from).parentdir),
{
    path::lemma_file_name_is_name(from);
    path::law_name_round_trip(path::file_name_of(from)->0);
    path::law_parents_lose_the_last_component(from);
}

/// Setting parts of a location does what was asked.
proof fn lemma_with_parts(from: Seq<char>, comps: Seq<Col>, value: Seq<char>)
    requires
        path::file_name_of(from) is Some,
    ensures
        set_as_asked(
            from,
            comps,
            value,
            fs_operate::with_parts(path::located(from), comps, value).path(),
        ),
{
    let l = path::located(from);
    let at = fs_operate::with_parts(l, comps, value);
    lemma_named(from);
    let three = seq![Col::Parentdir, Col::Stem, Col::Extension];
    let two = seq![Col::Stem, Col::Extension];
    assert(three.len() == 3 && two.len() == 2);
    assert(seq![Col::Parentdir].len() == 1 && seq![Col::Parentdir][0] == Col::Parentdir);
    assert(seq![Col::Stem].len() == 1 && seq![Col::Stem][0] == Col::Stem);
    assert(seq![Col::Extension].len() == 1 && seq![Col::Extension][0] == Col::Extension);
    if comps == three {
        if path::file_name_of(value) is Some {
            lemma_named(value);
            lemma_placed(at);
            path::law_joined_name_lies_in_the_directory(
                at.parentdir,
                path::joined_name(at.stem, at.extension),
            );
            path::law_parents_lose_the_last_component(value);
            let whole = path::parsed(value).parts;
            assert(whole.drop_last().push(whole.last()) =~= whole);
        }
    } else if comps == two {
        path::law_name_round_trip(value);
        if names_a_file(value) {
            lemma_placed(at);
        }
    } else if comps == seq![Col::Parentdir] {
        lemma_placed(at);
    } else if comps == seq![Col::Stem] {
        if names_a_file(path::joined_name(at.stem, at.extension)) {
            lemma_placed(at);
        }
    } else if comps == seq![Col::Extension] {
        if names_a_file(path::joined_name(at.stem, at.extension)) {
            lemma_placed(at);
        }
    }
}

/// Whether some pair that moves a file sets a part of its path.
pub open spec fn sets_part(nodes: Seq<ResolvedModel>, reg: Seq<tag::TagFnModel>, c: Col) -> bool {
    exists|i: int|
        0 <= i < nodes.len() && (#[trigger] nodes[i]).strategy == EditStrategy::Relocate
            && fs_operate::components_of(reg, nodes[i].tag_type.name()).contains(c)
}

proof fn lemma_kept_parts(
    item: ItemId,
    from: Seq<char>,
    nodes: Seq<ResolvedModel>,
    reg: Seq<tag::TagFnModel>,
    times: Seq<TimeText>,
)
    ensures
        fs_operate::file_effects(item, from, nodes, reg, times) matches Ok(w) ==> {
            &&& !sets_part(nodes, reg, Col::Parentdir) ==> w.0.parentdir == path::located(
                from,
            ).parentdir
            &&& !sets_part(nodes, reg, Col::Stem) ==> w.0.stem == path::located(from).stem
            &&& !sets_part(nodes, reg, Col::Extension) ==> w.0.extension == path::located(
                from,
            ).extension
        },
    decreases nodes.len(),
{
    if nodes.len() > 0 {
        let rest = nodes.drop_last();
        lemma_kept_parts(item, from, rest, reg, times);
        assert forall|c: Col| !#[trigger] sets_part(nodes, reg, c) implies !sets_part(rest, reg, c) by {
            if sets_part(rest, reg, c) {
                let i = choose|i: int|
                    0 <= i < rest.len() && (#[trigger] rest[i]).strategy == EditStrategy::Relocate
                        && fs_operate::components_of(reg, rest[i].tag_type.name()).contains(c);
                assert(nodes[i] == rest[i]);
            }
        }
        let n = nodes.last();
        assert(nodes[nodes.len() - 1] == n);
        let comps = fs_operate::components_of(reg, n.tag_type.name());
        let three = seq![Col::Parentdir, Col::Stem, Col::Extension];
        assert(three[0] == Col::Parentdir && three[1] == Col::Stem && three[2] == Col::Extension);
        let two = seq![Col::Stem, Col::Extension];
        assert(two[0] == Col::Stem && two[1] == Col::Extension);
        assert(seq![Col::Parentdir][0] == Col::Parentdir);
        assert(seq![Col::Stem][0] == Col::Stem);
        assert(seq![Col::Extension][0] == Col::Extension);
    }
}

/// Whether a move is one that a plan may make of an item: the item lies at one place and is
/// there, the target is another place, and the directory that it goes into is not closed to
/// writing and will be there.
pub open spec fn well_planned(
    m: MoveModel,
    input: InputModel,
    reg: Seq<tag::TagFnModel>,
    fs: Seq<FsEntry>,
    mkdirs: Seq<Seq<char>>,
) -> bool {
    let dir = fs_operate::parent_or_empty(m.to);
    &&& m.item == input.id
    &&& input.paths.len() > 0 && m.from == input.paths[0]
    &&& fs_operate::moves_files(input.nodes) ==> input.paths.len() == 1
    &&& fs_operate::exists_at(fs, m.from)
    &&& !path::same(m.to, m.from)
    &&& fs_operate::exists_at(fs, dir) ==> (fs_operate::entry_at(fs, dir)->0).writable
    &&& fs_operate::exists_at(fs, dir) || mkdirs.contains(dir)
    &&& path::file_name_of(m.from) is Some ==> {
        &&& fs_operate::moves_files(input.nodes)
        &&& !sets_part(input.nodes, reg, Col::Stem) && !sets_part(input.nodes, reg, Col::Extension)
            ==> path::file_name_of(m.to) == path::file_name_of(m.from)
        &&& input.nodes.len() == 1 && input.nodes[0].strategy == EditStrategy::Relocate
            ==> input.nodes[0].label is Some && set_as_asked(
            m.from,
            fs_operate::components_of(reg, input.nodes[0].tag_type.name()),
            (input.nodes[0].label->0).shown(),
            m.to,
        )
    }
}

/// A file put together again from its parts lies where it lay.
proof fn lemma_stays(from: Seq<char>)
    requires
        path::file_name_of(from) is Some,
    ensures
        path::same(path::located(from).path(), from),
{
    let l = path::located(from);
    lemma_named(from);
    path::law_joined_name_lies_in_the_directory(
        l.parentdir,
        path::joined_name(l.stem, l.extension),
    );
    path::law_parents_lose_the_last_component(from);
    let whole = path::parsed(from).parts;
    assert(whole.drop_last().push(whole.last()) =~= whole);
}

proof fn lemma_item_moves(
    plan: PlanModel,
    input: InputModel,
    qt: QueryType,
    reg: Seq<tag::TagFnModel>,
    times: Seq<TimeText>,
    fs: Seq<FsEntry>,
    after: PlanModel,
)
    requires
        fs_operate::after_item(plan, input, qt, reg, times, fs) == Ok::<PlanModel, FsErrorModel>(
            after,
        ),
    ensures
        after.moves == plan.moves || (after.moves.len() == plan.moves.len() + 1
            && after.moves.drop_last() == plan.moves && well_planned(
            after.moves.last(),
            input,
            reg,
            fs,
            after.mkdirs,
        )),
        forall|x: Seq<char>| plan.mkdirs.contains(x) ==> #[trigger] after.mkdirs.contains(x),
{
    let nodes = input.nodes;
    assert forall|x: Seq<char>| plan.mkdirs.contains(x) implies #[trigger] after.mkdirs.contains(x) by {
        let i = choose|i: int| 0 <= i < plan.mkdirs.len() && plan.mkdirs[i] == x;
        assert(after.mkdirs[i] == x);
    }
    if after.moves != plan.moves {
        let from = input.paths[0];
        let w = fs_operate::file_effects(input.id, from, nodes, reg, times)->Ok_0;
        let to = w.0.path();
        assert(fs_operate::file_effects(input.id, from, nodes, reg, times) is Ok);
        assert(fs_operate::outcome_of(fs, input.id, from, to) matches Ok(Outcome::Moves(_)));
        let m = fs_operate::outcome_of(fs, input.id, from, to)->Ok_0->Moves_0;
        assert(after.moves == plan.moves.push(m));
        assert(after.moves.drop_last() =~= plan.moves);
        lemma_kept_parts(input.id, from, nodes, reg, times);
        let dir = fs_operate::parent_or_empty(to);
        if !fs_operate::exists_at(fs, dir) {
            assert(after.mkdirs.last() == dir);
            assert(after.mkdirs[after.mkdirs.len() - 1] == dir);
        }
        if path::file_name_of(from) is Some {
            lemma_named(from);
            if !fs_operate::moves_files(nodes) {
                assert(!sets_part(nodes, reg, Col::Parentdir));
                assert(!sets_part(nodes, reg, Col::Stem));
                assert(!sets_part(nodes, reg, Col::Extension));
                assert(w.0 =~= path::located(from));
                lemma_stays(from);
            }
            if !sets_part(nodes, reg, Col::Stem) && !sets_part(nodes, reg, Col::Extension) {
                lemma_placed(w.0);
            }
            if nodes.len() == 1 && nodes[0].strategy == EditStrategy::Relocate {
                let rest = nodes.drop_last();
                assert(rest.len() == 0);
                assert(fs_operate::file_effects(input.id, from, rest, reg, times) == Ok::<
                    (Location, Seq<fs_operate::AttrModel>),
                    crate::edit::error::EditErrorModel,
                >((path::located(from), seq![])));
                lemma_with_parts(
                    from,
                    fs_operate::components_of(reg, nodes[0].tag_type.name()),
                    (nodes[0].label->0).shown(),
                );
            }
        }
    }
}
/// Each move of a plan is one of an item that was asked for, from where it lies to a place that
/// differs from there in what was asked alone: where only its directory is set, it keeps its
/// name; where only its stem, its extension or its name is set, it keeps all else. The file is
/// there, and the directory that it goes into is or will be there and can be written.
pub proof fn law_moves_are_as_asked(
    inputs: Seq<InputModel>,
    qt: QueryType,
    reg: Seq<tag::TagFnModel>,
    times: Seq<TimeText>,
    fs: Seq<FsEntry>,
    plan: PlanModel,
    a: int,
)
    requires
        fs_operate::planned(inputs, qt, reg, times, fs) == Ok::<PlanModel, FsErrorModel>(plan),
        0 <= a < plan.moves.len(),
    ensures
        exists|i: int|
            0 <= i < inputs.len() && well_planned(
                plan.moves[a],
                #[trigger] inputs[i],
                reg,
                fs,
                plan.mkdirs,
            ),
{
    let first = fs_operate::after_items(inputs, qt, reg, times, fs)->Ok_0;
    let all = first.moves;
    let p = |m: MoveModel| fs_operate::verdict(all, m) is None;
    assert(plan.moves == all.filter(p));
    assert(plan.mkdirs == first.mkdirs);
    fs_operate::lemma_filtered(all, p, a);
    let k = choose|k: int| 0 <= k < all.len() && all[k] == all.filter(p)[a];
    lemma_items_moves(inputs, qt, reg, times, fs, first, k);
}

proof fn lemma_items_moves(
    inputs: Seq<InputModel>,
    qt: QueryType,
    reg: Seq<tag::TagFnModel>,
    times: Seq<TimeText>,
    fs: Seq<FsEntry>,
    plan: PlanModel,
    k: int,
)
    requires
        fs_operate::after_items(inputs, qt, reg, times, fs) == Ok::<PlanModel, FsErrorModel>(plan),
        0 <= k < plan.moves.len(),
    ensures
        exists|i: int|
            0 <= i < inputs.len() && well_planned(
                plan.moves[k],
                #[trigger] inputs[i],
                reg,
                fs,
                plan.mkdirs,
            ),
    decreases inputs.len(),
{
    if inputs.len() > 0 {
        let rest = inputs.drop_last();
        let before = fs_operate::after_items(rest, qt, reg, times, fs)->Ok_0;
        lemma_item_moves(before, inputs.last(), qt, reg, times, fs, plan);
        if k < before.moves.len() {
            lemma_items_moves(rest, qt, reg, times, fs, before, k);
            let i = choose|i: int|
                0 <= i < rest.len() && well_planned(
                    before.moves[k],
                    #[trigger] rest[i],
                    reg,
                    fs,
                    before.mkdirs,
                );
            assert(plan.moves[k] == before.moves[k]) by {
                if plan.moves != before.moves {
                    assert(plan.moves.drop_last()[k] == before.moves[k]);
                }
            }
            assert(inputs[i] == rest[i]);
            assert(well_planned(plan.moves[k], inputs[i], reg, fs, plan.mkdirs));
        } else {
            assert(plan.moves[k] == plan.moves.last());
            assert(well_planned(plan.moves[k], inputs[inputs.len() - 1], reg, fs, plan.mkdirs));
        }
    }
}

/// A file that is there, is asked to go elsewhere and can go there is planned to move: setting
/// the directory of an item at one place adds the move of it, after the moves that were planned
/// before.
pub proof fn law_moves_are_made(
    plan: PlanModel,
    input: InputModel,
    qt: QueryType,
    reg: Seq<tag::TagFnModel>,
    times: Seq<TimeText>,
    fs: Seq<FsEntry>,
    to: Seq<char>,
)
    requires
        input.nodes.len() > 0,
        input.paths.len() == 1,
        qt != QueryType::Untag,
        fs_operate::location_error(reg, fs_operate::node_names(input.nodes)) is None,
        fs_operate::file_effects(input.id, input.paths[0], input.nodes, reg, times) matches Ok(w)
            && w.0.path() == to,
        fs_operate::exists_at(fs, input.paths[0]),
        !path::same(to, input.paths[0]),
        fs_operate::exists_at(fs, fs_operate::parent_or_empty(to)) ==> (fs_operate::entry_at(
            fs,
            fs_operate::parent_or_empty(to),
        )->0).writable,
    ensures
        match fs_operate::after_item(plan, input, qt, reg, times, fs) {
            Ok(after) => {
                &&& after.moves.len() == plan.moves.len() + 1
                &&& after.moves.drop_last() == plan.moves
                &&& after.moves.last().item == input.id
                &&& after.moves.last().from == input.paths[0]
                &&& after.moves.last().to == to
                &&& after.issues == plan.issues
            },
            Err(e) => fs_operate::crosses(fs, input.paths[0], fs_operate::parent_or_empty(to))
                == Err::<bool, FsErrorModel>(e),
        },
{
    if let Ok(after) = fs_operate::after_item(plan, input, qt, reg, times, fs) {
        assert(after.moves.drop_last() =~= plan.moves);
    }
}

/// Whether a move of a file that lies at several places is one that could be made: from one of
/// the places, with what was asked set there.
pub open spec fn well_offered(
    m: MoveModel,
    item: ItemId,
    paths: Seq<Seq<char>>,
    nodes: Seq<ResolvedModel>,
    reg: Seq<tag::TagFnModel>,
    fs: Seq<FsEntry>,
) -> bool {
    &&& m.item == item
    &&& paths.contains(m.from)
    &&& fs_operate::exists_at(fs, m.from)
    &&& !path::same(m.to, m.from)
    &&& path::file_name_of(m.from) is Some && nodes.len() == 1 && nodes[0].strategy
        == EditStrategy::Relocate ==> nodes[0].label is Some && set_as_asked(
        m.from,
        fs_operate::components_of(reg, nodes[0].tag_type.name()),
        (nodes[0].label->0).shown(),
        m.to,
    )
}

/// Of an item that lies at several places, each offered move is from one of them, and sets there
/// what was asked.
pub proof fn law_offered_moves_are_as_asked(
    fs: Seq<FsEntry>,
    item: ItemId,
    paths: Seq<Seq<char>>,
    nodes: Seq<ResolvedModel>,
    reg: Seq<tag::TagFnModel>,
    k: int,
)
    requires
        fs_operate::tried(fs, item, paths, nodes, reg) is Ok,
        0 <= k < fs_operate::tried(fs, item, paths, nodes, reg)->Ok_0.1.len(),
    ensures
        well_offered(
            fs_operate::tried(fs, item, paths, nodes, reg)->Ok_0.1[k],
            item,
            paths,
            nodes,
            reg,
            fs,
        ),
    decreases paths.len(),
{
    if paths.len() > 0 {
        let rest = paths.drop_last();
        let from = paths.last();
        let before = fs_operate::tried(fs, item, rest, nodes, reg)->Ok_0;
        let after = fs_operate::tried(fs, item, paths, nodes, reg)->Ok_0;
        if k < before.1.len() {
            law_offered_moves_are_as_asked(fs, item, rest, nodes, reg, k);
            assert(after.1[k] == before.1[k]);
            let i = choose|i: int| 0 <= i < rest.len() && rest[i] == before.1[k].from;
            assert(paths[i] == rest[i]);
        } else {
            let m = after.1[k];
            assert(paths[paths.len() - 1] == from);
            assert(m.from == from);
            if path::file_name_of(from) is Some && nodes.len() == 1 && nodes[0].strategy
                == EditStrategy::Relocate {
                reveal_with_fuel(fs_operate::relocated, 2);
                assert(nodes.drop_last().len() == 0);
                assert(nodes.last() == nodes[0]);
                lemma_with_parts(
                    from,
                    fs_operate::components_of(reg, nodes[0].tag_type.name()),
                    (nodes[0].label->0).shown(),
                );
            }
        }
    }
}

} // verus!
