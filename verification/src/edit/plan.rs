//! Planning an edit: which files are moved, which tags are written, and what is told of it.
use crate::edit::action;
use crate::edit::action::{ActionModel, WriteAction};
use crate::edit::cast;
use crate::edit::cast::CastError;
use crate::edit::error::{EditError, EditErrorModel};
use crate::edit::fs_operate;
use crate::edit::fs_operate::{
    FsEntry, FsError, FsErrorModel, FsOutcome, FsPlan, FsSnapshot, InputModel, OutcomeModel,
    PlanModel, TimeText,
};
use crate::edit::modify;
use crate::edit::modify::{NumberText, ResolvedModel, ResolvedNode};
use crate::edit::parse;
use crate::edit::parse::{EditQuery, NodeModel};
use crate::edit::prompt;
use crate::edit::prompt::{CastModel, CastSummary};
use crate::edit::replace;
use crate::edit::write::WriteResponse;
use crate::edit::QueryType;
use crate::item::{Item, TagType};
use crate::tag;
use crate::tag::{TagRegistry, TypeConfig};
use crate::types::{BiticalType, ItemId};
use vstd::prelude::*;

verus! {

// ---------------------------------------------------------------------------
// Reading the query
// ---------------------------------------------------------------------------

/// The names of the types that an edit query writes out, without references.
pub open spec fn written_types(nodes: Seq<NodeModel>) -> Seq<Seq<char>>
    decreases nodes.len(),
{
    if nodes.len() == 0 {
        seq![]
    } else if nodes.last().tag_type.braced() {
        written_types(nodes.drop_last())
    } else {
        written_types(nodes.drop_last()).push(
            crate::item::TagTypeModel::named(nodes.last().tag_type.valued()).name(),
        )
    }
}

/// The types that an edit query writes out, without references.
pub fn static_tag_types(parsed: Option<&EditQuery>) -> (r: Vec<TagType>)
    ensures
        fs_operate::type_names(r@) == written_types(modify::query_model(parsed)),
{
    let mut out: Vec<TagType> = Vec::new();
    proof {
        assert(fs_operate::type_names(out@) =~= seq![]);
    }
    let q = match parsed {
        None => {
            return out;
        },
        Some(q) => q,
    };
    let ghost ns = q@;
    let mut i: usize = 0;
    proof {
        assert(ns.take(0) =~= seq![]);
    }
    while i < q.nodes.len()
        invariant
            i <= q.nodes@.len(),
            ns == q@,
            ns == modify::query_model(parsed),
            fs_operate::type_names(out@) == written_types(ns.take(i as int)),
        decreases q.nodes@.len() - i,
    {
        let n = &q.nodes[i];
        proof {
            assert(ns.take(i + 1).drop_last() =~= ns.take(i as int));
            assert(ns.take(i + 1).last() == n@);
        }
        if !n.tag_type.has_braced() {
            let t = TagType::from(n.tag_type.value().as_str());
            proof {
                assert(fs_operate::type_names(out@.push(t)) =~= fs_operate::type_names(out@).push(
                    t@.name(),
                ));
            }
            out.push(t);
        }
        i += 1;
    }
    proof {
        assert(ns.take(ns.len() as int) =~= ns);
    }
    out
}

/// Reads an edit query and refuses one that sets a part of a path twice.
pub fn prepare(
    registry: &TagRegistry,
    edit_query: Option<&str>,
    query_type: QueryType,
) -> (r: Result<Option<EditQuery>, EditError>)
    ensures
        match edit_query {
            None => r matches Ok(None),
            Some(s) => match r {
                Ok(Some(q)) => parse::parsed_as(Ok(q), s@, query_type, registry@)
                    && fs_operate::location_error(registry@, written_types(q@)) is None,
                Ok(None) => false,
                Err(e) => parse::parsed_as(Err(e), s@, query_type, registry@)
                    || exists|q: EditQuery|
                    #[trigger] parse::parsed_as(Ok(q), s@, query_type, registry@)
                        && fs_operate::location_error(registry@, written_types(q@)) == Some(e@),
            },
        },
{
    let q = match edit_query {
        None => {
            return Ok(None);
        },
        Some(s) => match parse::parse_edit_query(s, query_type, registry) {
            Ok(q) => q,
            Err(e) => {
                return Err(e);
            },
        },
    };
    match fs_operate::check_location_tag(&static_tag_types(Some(&q)), registry) {
        Ok(_) => Ok(Some(q)),
        Err(e) => Err(e),
    }
}

// ---------------------------------------------------------------------------
// Planning
// ---------------------------------------------------------------------------

/// Why an edit cannot be planned.
#[derive(Debug)]
pub enum PlanError {
    Edit(EditError),
    Cast(CastError),
    Fs(FsError),
}

pub enum PlanErrorModel {
    Edit(EditErrorModel),
    Cast(Seq<Seq<char>>),
    Fs(FsErrorModel),
}

impl View for PlanError {
    type V = PlanErrorModel;

    open spec fn view(&self) -> PlanErrorModel {
        match *self {
            PlanError::Edit(e) => PlanErrorModel::Edit(e@),
            PlanError::Cast(e) => PlanErrorModel::Cast(crate::text::texts(e.invalid@)),
            PlanError::Fs(e) => PlanErrorModel::Fs(e@),
        }
    }
}

/// The change of a type that an edit makes, with the number of labels that are converted.
pub open spec fn cast_summarized(
    edits: Seq<(Item, Option<EditQuery>)>,
    configs: Seq<TypeConfig>,
    reg: Seq<tag::TagFnModel>,
    labels: Seq<Option<String>>,
    numbers: Seq<NumberText>,
) -> Result<Option<CastModel>, PlanErrorModel> {
    match cast::cast_target_of(edits, configs, reg) {
        Err(e) => Err(PlanErrorModel::Edit(e)),
        Ok(None) => Ok(None),
        Ok(Some(c)) => {
            let bad = cast::unreadable(cast::given_labels(labels), c.to_type, numbers);
            if bad.len() > 0 {
                Err(PlanErrorModel::Cast(bad))
            } else {
                Ok(
                    Some(
                        CastModel {
                            tag_type: c.tag_type,
                            from_type: c.from_type,
                            to_type: c.to_type,
                            count: cast::given_labels(labels).len() as usize,
                        },
                    ),
                )
            }
        },
    }
}

fn summarize_cast(
    item_edits: &Vec<(Item, Option<EditQuery>)>,
    registry: &TagRegistry,
    labels: &Vec<Option<String>>,
    numbers: &Vec<NumberText>,
) -> (r: Result<Option<CastSummary>, PlanError>)
    ensures
        match r {
            Ok(c) => cast_summarized(
                item_edits@,
                registry.configs@,
                registry@,
                labels@,
                numbers@,
            ) == Ok::<Option<CastModel>, PlanErrorModel>(prompt::cast_model(c)),
            Err(e) => cast_summarized(
                item_edits@,
                registry.configs@,
                registry@,
                labels@,
                numbers@,
            ) == Err::<Option<CastModel>, PlanErrorModel>(e@),
        },
{
    match cast::cast_target(item_edits, registry) {
        Err(e) => Err(PlanError::Edit(e)),
        Ok(None) => Ok(None),
        Ok(Some(c)) => match cast::pre_validate_cast(labels, c.to_type, numbers) {
            Err(e) => Err(PlanError::Cast(e)),
            Ok(count) => Ok(
                Some(
                    CastSummary {
                        tag_type: c.tag_type,
                        from_type: c.from_type,
                        to_type: c.to_type,
                        count,
                    },
                ),
            ),
        },
    }
}

/// The pairs that act on files.
pub open spec fn file_nodes(nodes: Seq<ResolvedModel>) -> Seq<ResolvedModel> {
    nodes.filter(|n: ResolvedModel| fs_operate::on_files(n.strategy))
}

/// The pairs that act on tags.
pub open spec fn tag_nodes(nodes: Seq<ResolvedModel>) -> Seq<ResolvedModel> {
    nodes.filter(|n: ResolvedModel| !fs_operate::on_files(n.strategy))
}

/// What is to be done to files and to tags.
#[verifier::ext_equal]
pub struct WorkModel {
    pub inputs: Seq<InputModel>,
    pub actions: Seq<ActionModel>,
}

/// The work after one more item.
pub open spec fn work_on(
    before: WorkModel,
    item: Item,
    query: Seq<NodeModel>,
    qt: QueryType,
    reg: Seq<tag::TagFnModel>,
    numbers: Seq<NumberText>,
) -> Result<WorkModel, EditErrorModel> {
    match modify::resolved_all(query, numbers, qt, reg) {
        Err(e) => Err(e),
        Ok(nodes) => match modify::modified(item, tag_nodes(nodes), qt, reg) {
            Err(e) => Err(e),
            Ok(actions) => Ok(
                WorkModel {
                    inputs: if file_nodes(nodes).len() > 0 {
                        before.inputs.push(fs_operate::input_model(item, file_nodes(nodes)))
                    } else {
                        before.inputs
                    },
                    actions: before.actions + actions,
                },
            ),
        },
    }
}

pub open spec fn query_nodes(q: Option<EditQuery>) -> Seq<NodeModel> {
    match q {
        Some(q) => q@,
        None => seq![],
    }
}

pub open spec fn work_on_all(
    edits: Seq<(Item, Option<EditQuery>)>,
    qt: QueryType,
    reg: Seq<tag::TagFnModel>,
    numbers: Seq<NumberText>,
) -> Result<WorkModel, EditErrorModel>
    decreases edits.len(),
{
    if edits.len() == 0 {
        Ok(WorkModel { inputs: seq![], actions: seq![] })
    } else {
        match work_on_all(edits.drop_last(), qt, reg, numbers) {
            Err(e) => Err(e),
            Ok(before) => work_on(
                before,
                edits.last().0,
                query_nodes(edits.last().1),
                qt,
                reg,
                numbers,
            ),
        }
    }
}

proof fn lemma_work_error(
    edits: Seq<(Item, Option<EditQuery>)>,
    k: int,
    qt: QueryType,
    reg: Seq<tag::TagFnModel>,
    numbers: Seq<NumberText>,
)
    requires
        0 <= k <= edits.len(),
        work_on_all(edits.take(k), qt, reg, numbers) is Err,
    ensures
        work_on_all(edits, qt, reg, numbers) == work_on_all(edits.take(k), qt, reg, numbers),
    decreases edits.len(),
{
    if k == edits.len() {
        assert(edits.take(k) =~= edits);
    } else {
        assert(edits.drop_last().take(k) =~= edits.take(k));
        lemma_work_error(edits.drop_last(), k, qt, reg, numbers);
    }
}

fn part_nodes(nodes: Vec<ResolvedNode>) -> (r: (Vec<ResolvedNode>, Vec<ResolvedNode>))
    ensures
        modify::resolved_models(r.0@) == file_nodes(modify::resolved_models(nodes@)),
        modify::resolved_models(r.1@) == tag_nodes(modify::resolved_models(nodes@)),
{
    let ghost all = modify::resolved_models(nodes@);
    let ghost whole = nodes@;
    let ghost p = |n: ResolvedModel| fs_operate::on_files(n.strategy);
    let ghost q = |n: ResolvedModel| !fs_operate::on_files(n.strategy);
    let mut rest = nodes;
    let mut files: Vec<ResolvedNode> = Vec::new();
    let mut tags: Vec<ResolvedNode> = Vec::new();
    let ghost mut done: int = 0;
    proof {
        reveal(Seq::filter);
        assert(modify::resolved_models(files@) =~= all.take(0).filter(p));
        assert(modify::resolved_models(tags@) =~= all.take(0).filter(q));
        assert(whole.skip(0) =~= whole);
    }
    while rest.len() > 0
        invariant
            0 <= done <= all.len(),
            all == modify::resolved_models(whole),
            rest@ == whole.skip(done),
            p == (|n: ResolvedModel| fs_operate::on_files(n.strategy)),
            q == (|n: ResolvedModel| !fs_operate::on_files(n.strategy)),
            modify::resolved_models(files@) == all.take(done).filter(p),
            modify::resolved_models(tags@) == all.take(done).filter(q),
        decreases rest@.len(),
    {
        let n = rest.remove(0);
        proof {
            reveal(Seq::filter);
            assert(n == whole[done]);
            assert(rest@ =~= whole.skip(done + 1));
            assert(all.take(done + 1).drop_last() =~= all.take(done));
            assert(all.take(done + 1).last() == n@);
        }
        if fs_operate::is_fs_strategy(n.strategy) {
            proof {
                assert(modify::resolved_models(files@.push(n)) =~= modify::resolved_models(
                    files@,
                ).push(n@));
            }
            files.push(n);
        } else {
            proof {
                assert(modify::resolved_models(tags@.push(n)) =~= modify::resolved_models(
                    tags@,
                ).push(n@));
            }
            tags.push(n);
        }
        proof {
            done = done + 1;
        }
    }
    proof {
        assert(all.take(all.len() as int) =~= all);
    }
    (files, tags)
}

fn gather_work(
    item_edits: &Vec<(Item, Option<EditQuery>)>,
    registry: &TagRegistry,
    query_type: QueryType,
    numbers: &Vec<NumberText>,
) -> (r: Result<(Vec<(Item, Vec<ResolvedNode>)>, Vec<WriteAction>), EditError>)
    ensures
        match r {
            Ok(w) => work_on_all(item_edits@, query_type, registry@, numbers@) == Ok::<
                WorkModel,
                EditErrorModel,
            >(
                WorkModel {
                    inputs: fs_operate::input_models(w.0@),
                    actions: action::action_models(w.1@),
                },
            ),
            Err(e) => work_on_all(item_edits@, query_type, registry@, numbers@) == Err::<
                WorkModel,
                EditErrorModel,
            >(e@),
        },
{
    let ghost es = item_edits@;
    let mut inputs: Vec<(Item, Vec<ResolvedNode>)> = Vec::new();
    let mut actions: Vec<WriteAction> = Vec::new();
    let mut i: usize = 0;
    proof {
        assert(es.take(0) =~= seq![]);
        assert(fs_operate::input_models(inputs@) =~= seq![]);
        assert(action::action_models(actions@) =~= seq![]);
    }
    while i < item_edits.len()
        invariant
            i <= item_edits@.len(),
            es == item_edits@,
            work_on_all(es.take(i as int), query_type, registry@, numbers@) == Ok::<
                WorkModel,
                EditErrorModel,
            >(
                WorkModel {
                    inputs: fs_operate::input_models(inputs@),
                    actions: action::action_models(actions@),
                },
            ),
        decreases item_edits@.len() - i,
    {
        let e = &item_edits[i];
        proof {
            assert(es.take(i + 1).drop_last() =~= es.take(i as int));
            assert(es.take(i + 1).last() == *e);
            if work_on_all(es.take(i + 1), query_type, registry@, numbers@) is Err {
                lemma_work_error(es, i + 1, query_type, registry@, numbers@);
            }
        }
        let nodes = match modify::resolve_nodes(e.1.as_ref(), numbers, query_type, registry) {
            Ok(v) => v,
            Err(err) => {
                return Err(err);
            },
        };
        let (files, tags) = part_nodes(nodes);
        let more = match modify::modify(&e.0, &tags, query_type, registry) {
            Ok(v) => v,
            Err(err) => {
                return Err(err);
            },
        };
        proof {
            assert(modify::resolved_models(files@).len() == files@.len());
        }
        if files.len() > 0 {
            let ghost before = inputs@;
            let copy = e.0.clone();
            let input = (copy, files);
            proof {
                assert(fs_operate::input_models(before.push(input)) =~= fs_operate::input_models(
                    before,
                ).push(
                    fs_operate::input_model(copy, modify::resolved_models(input.1@)),
                ));
            }
            inputs.push(input);
        }
        let ghost before = actions@;
        let ghost added = more@;
        let mut more = more;
        actions.append(&mut more);
        proof {
            assert(action::action_models(actions@) =~= action::action_models(before)
                + action::action_models(added));
        }
        i += 1;
    }
    proof {
        assert(es.take(es.len() as int) =~= es);
    }
    Ok((inputs, actions))
}

/// The plan of an edit: what is done to files, what is written, and which type changes.
pub open spec fn edit_planned(
    edits: Seq<(Item, Option<EditQuery>)>,
    qt: QueryType,
    configs: Seq<TypeConfig>,
    reg: Seq<tag::TagFnModel>,
    labels: Seq<Option<String>>,
    numbers: Seq<NumberText>,
    times: Seq<TimeText>,
    fs: Seq<FsEntry>,
) -> Result<(PlanModel, Seq<ActionModel>, Option<CastModel>), PlanErrorModel> {
    match cast_summarized(edits, configs, reg, labels, numbers) {
        Err(e) => Err(e),
        Ok(c) => match work_on_all(edits, qt, reg, numbers) {
            Err(e) => Err(PlanErrorModel::Edit(e)),
            Ok(w) => match fs_operate::planned(w.inputs, qt, reg, times, fs) {
                Err(e) => Err(PlanErrorModel::Fs(e)),
                Ok(p) => Ok((p, w.actions, c)),
            },
        },
    }
}

/// Plans an edit. `labels` are the labels of the type that changes, where one does;
/// `numbers` and `times` say what texts stand for; `fs` what is on disk.
pub fn plan(
    registry: &TagRegistry,
    item_edits: &Vec<(Item, Option<EditQuery>)>,
    query_type: QueryType,
    labels: &Vec<Option<String>>,
    numbers: &Vec<NumberText>,
    times: &Vec<TimeText>,
    fs: &FsSnapshot,
) -> (r: Result<(FsPlan, Vec<WriteAction>, Option<CastSummary>), PlanError>)
    ensures
        match r {
            Ok(t) => edit_planned(
                item_edits@,
                query_type,
                registry.configs@,
                registry@,
                labels@,
                numbers@,
                times@,
                fs.entries@,
            ) == Ok::<(PlanModel, Seq<ActionModel>, Option<CastModel>), PlanErrorModel>(
                (t.0@, action::action_models(t.1@), prompt::cast_model(t.2)),
            ),
            Err(e) => edit_planned(
                item_edits@,
                query_type,
                registry.configs@,
                registry@,
                labels@,
                numbers@,
                times@,
                fs.entries@,
            ) == Err::<(PlanModel, Seq<ActionModel>, Option<CastModel>), PlanErrorModel>(e@),
        },
{
    let cast = match summarize_cast(item_edits, registry, labels, numbers) {
        Ok(c) => c,
        Err(e) => {
            return Err(e);
        },
    };
    let (inputs, actions) = match gather_work(item_edits, registry, query_type, numbers) {
        Ok(w) => w,
        Err(e) => {
            return Err(PlanError::Edit(e));
        },
    };
    match fs_operate::plan_fs(registry, inputs, query_type, times, fs) {
        Ok(p) => Ok((p, actions, cast)),
        Err(e) => Err(PlanError::Fs(e)),
    }
}

// ---------------------------------------------------------------------------
// What is told of an edit
// ---------------------------------------------------------------------------

/// What came of an edit.
#[derive(Clone, Copy, Debug, PartialEq, Eq, Structural)]
pub struct EditResponse {
    pub updated: usize,
    pub deleted: usize,
    pub fs_ops: usize,
    pub has_skipped: bool,
}

/// The change of types that a write carries out: only where labels are converted.
pub open spec fn migration_of(cast: Option<CastModel>) -> Option<
    (crate::item::TagTypeModel, BiticalType),
> {
    match cast {
        Some(c) => if c.count > 0 {
            Some((c.tag_type, c.to_type))
        } else {
            None
        },
        None => None,
    }
}

/// The change of types that a write carries out: only where labels are converted.
pub fn cast_migration(cast: Option<CastSummary>) -> (r: Option<(TagType, BiticalType)>)
    ensures
        match r {
            Some(m) => migration_of(prompt::cast_model(cast)) == Some((m.0@, m.1)),
            None => migration_of(prompt::cast_model(cast)) is None,
        },
{
    match cast {
        Some(c) => if c.count > 0 {
            Some((c.tag_type, c.to_type))
        } else {
            None
        },
        None => None,
    }
}

pub open spec fn ids_of_actions(ids: Seq<ItemId>, actions: Seq<ActionModel>) -> Seq<ItemId>
    decreases actions.len(),
{
    if actions.len() == 0 {
        ids
    } else {
        replace::with_id(ids_of_actions(ids, actions.drop_last()), actions.last().id())
    }
}

pub open spec fn ids_of_moves(ids: Seq<ItemId>, moved: Seq<fs_operate::MovedModel>) -> Seq<ItemId>
    decreases moved.len(),
{
    if moved.len() == 0 {
        ids
    } else {
        replace::with_id(ids_of_moves(ids, moved.drop_last()), moved.last().item)
    }
}

pub open spec fn ids_of_attrs(ids: Seq<ItemId>, attrs: Seq<(ItemId, Seq<char>)>) -> Seq<ItemId>
    decreases attrs.len(),
{
    if attrs.len() == 0 {
        ids
    } else {
        replace::with_id(ids_of_attrs(ids, attrs.drop_last()), attrs.last().0)
    }
}

/// The items that an edit did something to, each once.
pub open spec fn processed(actions: Seq<ActionModel>, o: OutcomeModel) -> Seq<ItemId> {
    ids_of_attrs(ids_of_moves(ids_of_actions(seq![], actions), o.moved), o.attrs_set)
}

/// The items that an edit did something to.
pub fn processed_items(actions: &Vec<WriteAction>, outcome: &FsOutcome) -> (r: Vec<ItemId>)
    ensures
        r@ == processed(action::action_models(actions@), outcome@),
{
    let ghost ms = action::action_models(actions@);
    let mut ids: Vec<ItemId> = Vec::new();
    let mut i: usize = 0;
    proof {
        assert(ms.take(0) =~= seq![]);
        assert(ids@ =~= seq![]);
    }
    while i < actions.len()
        invariant
            i <= actions@.len(),
            ms == action::action_models(actions@),
            ids@ == ids_of_actions(seq![], ms.take(i as int)),
        decreases actions@.len() - i,
    {
        proof {
            assert(ms.take(i + 1).drop_last() =~= ms.take(i as int));
            assert(ms.take(i + 1).last() == actions@[i as int]@);
        }
        replace::add_id(&mut ids, actions[i].item());
        i += 1;
    }
    let ghost first = ids@;
    let ghost mv = outcome@.moved;
    proof {
        assert(ms.take(ms.len() as int) =~= ms);
        assert(mv.take(0) =~= seq![]);
    }
    i = 0;
    while i < outcome.moved.len()
        invariant
            i <= outcome.moved@.len(),
            mv == outcome@.moved,
            ids@ == ids_of_moves(first, mv.take(i as int)),
        decreases outcome.moved@.len() - i,
    {
        proof {
            assert(mv.take(i + 1).drop_last() =~= mv.take(i as int));
            assert(mv.take(i + 1).last() == mv[i as int]);
        }
        replace::add_id(&mut ids, outcome.moved[i].item);
        i += 1;
    }
    let ghost second = ids@;
    let ghost at = outcome@.attrs_set;
    proof {
        assert(mv.take(mv.len() as int) =~= mv);
        assert(at.take(0) =~= seq![]);
    }
    i = 0;
    while i < outcome.attrs_set.len()
        invariant
            i <= outcome.attrs_set@.len(),
            at == outcome@.attrs_set,
            ids@ == ids_of_attrs(second, at.take(i as int)),
        decreases outcome.attrs_set@.len() - i,
    {
        proof {
            assert(at.take(i + 1).drop_last() =~= at.take(i as int));
            assert(at.take(i + 1).last() == at[i as int]);
        }
        replace::add_id(&mut ids, outcome.attrs_set[i].item);
        i += 1;
    }
    proof {
        assert(at.take(at.len() as int) =~= at);
    }
    ids
}

impl EditResponse {
    /// Nothing was done: the user did not agree.
    pub fn refused() -> (r: Self)
        ensures
            r == (EditResponse { updated: 0, deleted: 0, fs_ops: 0, has_skipped: false }),
    {
        EditResponse { updated: 0, deleted: 0, fs_ops: 0, has_skipped: false }
    }

    /// What came of an edit that was carried out. Something was skipped where an issue was
    /// only warned of, or where fewer items were dealt with than were found.
    pub fn carried_out(
        written: &WriteResponse,
        outcome: &FsOutcome,
        dealt_with: &Vec<ItemId>,
        found: usize,
        warned: bool,
    ) -> (r: Self)
        requires
            outcome@.moved.len() + outcome@.attrs_set.len() <= usize::MAX,
        ensures
            r == (EditResponse {
                updated: written.updated,
                deleted: written.deleted,
                fs_ops: (outcome@.moved.len() + outcome@.attrs_set.len()) as usize,
                has_skipped: warned || dealt_with@.len() < found,
            }),
    {
        EditResponse {
            updated: written.updated,
            deleted: written.deleted,
            fs_ops: outcome.count(),
            has_skipped: warned || dealt_with.len() < found,
        }
    }
}

// ---------------------------------------------------------------------------
// Laws
// ---------------------------------------------------------------------------

/// The pairs of a query are parted: each acts on files or on tags, and none is lost.
pub proof fn law_pairs_are_parted(nodes: Seq<ResolvedModel>)
    ensures
        file_nodes(nodes).len() + tag_nodes(nodes).len() == nodes.len(),
    decreases nodes.len(),
{
    reveal(Seq::filter);
    if nodes.len() > 0 {
        law_pairs_are_parted(nodes.drop_last());
    }
}

/// No item is counted twice among those that were dealt with.
pub proof fn law_items_are_counted_once(actions: Seq<ActionModel>, o: OutcomeModel)
    ensures
        processed(actions, o).no_duplicates(),
{
    lemma_action_ids(seq![], actions);
    let a = ids_of_actions(seq![], actions);
    lemma_move_ids(a, o.moved);
    lemma_attr_ids(ids_of_moves(a, o.moved), o.attrs_set);
}

proof fn lemma_action_ids(ids: Seq<ItemId>, actions: Seq<ActionModel>)
    requires
        ids.no_duplicates(),
    ensures
        ids_of_actions(ids, actions).no_duplicates(),
    decreases actions.len(),
{
    if actions.len() > 0 {
        lemma_action_ids(ids, actions.drop_last());
    }
}

proof fn lemma_move_ids(ids: Seq<ItemId>, moved: Seq<fs_operate::MovedModel>)
    requires
        ids.no_duplicates(),
    ensures
        ids_of_moves(ids, moved).no_duplicates(),
    decreases moved.len(),
{
    if moved.len() > 0 {
        lemma_move_ids(ids, moved.drop_last());
    }
}

proof fn lemma_attr_ids(ids: Seq<ItemId>, attrs: Seq<(ItemId, Seq<char>)>)
    requires
        ids.no_duplicates(),
    ensures
        ids_of_attrs(ids, attrs).no_duplicates(),
    decreases attrs.len(),
{
    if attrs.len() > 0 {
        lemma_attr_ids(ids, attrs.drop_last());
    }
}

} // verus!
