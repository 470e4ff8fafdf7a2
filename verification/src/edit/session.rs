//! An edit from its plan to what is told of it. What is done to files and to the database
//! between the two halves is up to the caller.
use crate::edit::action;
use crate::edit::action::{ActionModel, WriteAction};
use crate::edit::confirm;
use crate::edit::confirm::{confirm_with_prompt, Confirmed};
use crate::edit::fs_operate;
use crate::edit::fs_operate::{
    FsEntry, FsOutcome, FsPlan, FsSnapshot, IssueModel, OutcomeModel, PlanModel, TimeText,
};
use crate::edit::modify::NumberText;
use crate::edit::parse::EditQuery;
use crate::edit::plan;
use crate::edit::plan::{
    cast_migration, processed_items, EditResponse, PlanError, PlanErrorModel,
};
use crate::edit::prompt;
use crate::edit::prompt::{Asked, ConfirmPrompt};
use crate::edit::replace::{ConfirmError, ConfirmErrorModel, Flow};
use crate::edit::write::WriteResponse;
use crate::edit::{QueryType, WriteOptions};
use crate::item::{Item, TagType, TagTypeModel};
use crate::tag;
use crate::tag::{TagRegistry, TypeConfig};
use crate::text;
use crate::types::BiticalType;
use vstd::prelude::*;

verus! {

/// Why an edit comes to nothing.
#[derive(Debug)]
pub enum EditFailure {
    Plan(PlanError),
    Confirm(ConfirmError),
}

pub enum EditFailureModel {
    Plan(PlanErrorModel),
    Confirm(ConfirmErrorModel),
}

impl View for EditFailure {
    type V = EditFailureModel;

    open spec fn view(&self) -> EditFailureModel {
        match *self {
            EditFailure::Plan(e) => EditFailureModel::Plan(e@),
            EditFailure::Confirm(e) => EditFailureModel::Confirm(e@),
        }
    }
}

/// An edit that was agreed to: what is done to files, what is written, which type changes,
/// how many items were found, and whether something is left out that was only warned of.
#[derive(Debug)]
pub struct EditJob {
    pub fs_plan: FsPlan,
    pub actions: Vec<WriteAction>,
    pub cast: Option<(TagType, BiticalType)>,
    pub found: usize,
    pub warned: bool,
}

#[verifier::ext_equal]
pub struct JobModel {
    pub fs_plan: PlanModel,
    pub actions: Seq<ActionModel>,
    pub cast: Option<(TagTypeModel, BiticalType)>,
    pub found: nat,
    pub warned: bool,
}

impl View for EditJob {
    type V = JobModel;

    open spec fn view(&self) -> JobModel {
        JobModel {
            fs_plan: self.fs_plan@,
            actions: action::action_models(self.actions@),
            cast: match self.cast {
                Some(c) => Some((c.0@, c.1)),
                None => None,
            },
            found: self.found as nat,
            warned: self.warned,
        }
    }
}

/// What comes of an edit up to the agreement of the user.
pub enum Prepared {
    /// An error, with the length of the account of questions when it came up.
    Failed(EditFailureModel, nat),
    /// A refusal, with the length of the account.
    Refused(nat),
    /// What is to be done, with the length of the account.
    Agreed(JobModel, nat),
    /// The account of questions does not go with the edit.
    Stuck,
}

/// Whether something that an edit asks for is only warned of.
pub open spec fn only_warned(issues: Seq<IssueModel>) -> bool {
    exists|k: int| 0 <= k < issues.len() && (#[trigger] issues[k]).unsupported()
}

/// A plan without the issues that are only warned of.
pub open spec fn without_warnings(p: PlanModel) -> PlanModel {
    PlanModel { issues: p.issues.filter(|i: IssueModel| !i.unsupported()), ..p }
}

/// What comes of an edit up to the agreement of the user: it is planned, then confirmed.
pub open spec fn prepared(
    edits: Seq<(Item, Option<EditQuery>)>,
    qt: QueryType,
    configs: Seq<TypeConfig>,
    reg: Seq<tag::TagFnModel>,
    labels: Seq<Option<String>>,
    numbers: Seq<NumberText>,
    times: Seq<TimeText>,
    fs: Seq<FsEntry>,
    options: WriteOptions,
    interactive: bool,
    used: nat,
    log: Seq<Asked>,
) -> Prepared {
    match plan::edit_planned(edits, qt, configs, reg, labels, numbers, times, fs) {
        Err(e) => Prepared::Failed(EditFailureModel::Plan(e), used),
        Ok(t) => match confirm::confirmed(
            without_warnings(t.0),
            t.1,
            edits,
            options,
            t.2,
            interactive,
            fs,
            used,
            log,
        ) {
            Flow::Failed(e, n) => Prepared::Failed(EditFailureModel::Confirm(e), n),
            Flow::Stuck => Prepared::Stuck,
            Flow::Going(c) => match c.0 {
                Confirmed::Refused => Prepared::Refused(c.1),
                Confirmed::Agreed(p, actions) => Prepared::Agreed(
                    JobModel {
                        fs_plan: p,
                        actions,
                        cast: plan::migration_of(t.2),
                        found: edits.len(),
                        warned: only_warned(t.0.issues),
                    },
                    c.1,
                ),
            },
        },
    }
}

/// What an edit warns of.
pub open spec fn warned_of(
    edits: Seq<(Item, Option<EditQuery>)>,
    qt: QueryType,
    configs: Seq<TypeConfig>,
    reg: Seq<tag::TagFnModel>,
    labels: Seq<Option<String>>,
    numbers: Seq<NumberText>,
    times: Seq<TimeText>,
    fs: Seq<FsEntry>,
) -> Seq<Seq<char>> {
    match plan::edit_planned(edits, qt, configs, reg, labels, numbers, times, fs) {
        Err(_) => Seq::empty(),
        Ok(t) => fs_operate::warnings_of(t.0.issues),
    }
}

/// Plans an edit and has it confirmed; nothing comes of it where the user does not agree.
pub fn edit_with_prompt<P: ConfirmPrompt>(
    registry: &TagRegistry,
    item_edits: &Vec<(Item, Option<EditQuery>)>,
    query_type: QueryType,
    labels: &Vec<Option<String>>,
    numbers: &Vec<NumberText>,
    times: &Vec<TimeText>,
    fs: &FsSnapshot,
    options: &WriteOptions,
    terminal: bool,
    prompt: &mut P,
    warnings: &mut Vec<String>,
) -> (r: Result<Option<EditJob>, EditFailure>)
    requires
        old(prompt).valid(),
    ensures
        final(prompt).valid(),
        final(prompt).source() == old(prompt).source(),
        old(prompt).asked().is_prefix_of(final(prompt).asked()),
        text::texts(final(warnings)@) == text::texts(old(warnings)@) + warned_of(
            item_edits@,
            query_type,
            registry.configs@,
            registry@,
            labels@,
            numbers@,
            times@,
            fs.entries@,
        ),
        prepared(
            item_edits@,
            query_type,
            registry.configs@,
            registry@,
            labels@,
            numbers@,
            times@,
            fs.entries@,
            *options,
            options.asks(terminal),
            old(prompt).asked().len(),
            final(prompt).asked(),
        ) == match r {
            Ok(Some(job)) => Prepared::Agreed(job@, final(prompt).asked().len()),
            Ok(None) => Prepared::Refused(final(prompt).asked().len()),
            Err(e) => Prepared::Failed(e@, final(prompt).asked().len()),
        },
{
    let ghost start = text::texts(warnings@);
    let (mut fs_plan, actions, cast) = match plan::plan(
        registry,
        item_edits,
        query_type,
        labels,
        numbers,
        times,
        fs,
    ) {
        Ok(t) => t,
        Err(e) => {
            proof {
                assert(start + Seq::<Seq<char>>::empty() =~= start);
            }
            return Err(EditFailure::Plan(e));
        },
    };
    let warned = fs_plan.warn_unsupported(warnings);
    let cast_info = cast.clone();
    match confirm_with_prompt(
        fs_plan,
        actions,
        item_edits,
        options,
        terminal,
        cast_info,
        prompt,
        fs,
    ) {
        Err(e) => Err(EditFailure::Confirm(e)),
        Ok(None) => Ok(None),
        Ok(Some((fs_plan, actions))) => Ok(
            Some(
                EditJob {
                    fs_plan,
                    actions,
                    cast: cast_migration(cast),
                    found: item_edits.len(),
                    warned,
                },
            ),
        ),
    }
}

/// What is told of an edit that was carried out.
pub open spec fn told(job: JobModel, written: WriteResponse, outcome: OutcomeModel) -> EditResponse {
    EditResponse {
        updated: written.updated,
        deleted: written.deleted,
        fs_ops: (outcome.moved.len() + outcome.attrs_set.len()) as usize,
        has_skipped: job.warned || plan::processed(job.actions, outcome).len() < job.found,
    }
}

impl EditJob {
    /// What is told of the edit, by what was written and what was done to files.
    pub fn finish(&self, written: &WriteResponse, outcome: &FsOutcome) -> (r: EditResponse)
        requires
            outcome@.moved.len() + outcome@.attrs_set.len() <= usize::MAX,
        ensures
            r == told(self@, *written, outcome@),
    {
        let dealt_with = processed_items(&self.actions, outcome);
        EditResponse::carried_out(written, outcome, &dealt_with, self.found, self.warned)
    }
}

/// An edit under options under which nothing is asked is never refused.
pub proof fn law_unasked_edits_are_not_refused(
    edits: Seq<(Item, Option<EditQuery>)>,
    qt: QueryType,
    configs: Seq<TypeConfig>,
    reg: Seq<tag::TagFnModel>,
    labels: Seq<Option<String>>,
    numbers: Seq<NumberText>,
    times: Seq<TimeText>,
    fs: Seq<FsEntry>,
    options: WriteOptions,
    used: nat,
    log: Seq<Asked>,
)
    ensures
        !(prepared(
            edits,
            qt,
            configs,
            reg,
            labels,
            numbers,
            times,
            fs,
            options,
            false,
            used,
            log,
        ) is Refused),
{
}

} // verus!
