//! The questions that an edit asks before it is carried out, and what the answers mean.
use crate::edit::fs_operate;
use crate::item::{Label, TagType, TagTypeModel};
use crate::text;
use crate::text::{cat3, show_u128, show_usize, str_eq};
use crate::types::{BiticalModel, BiticalType, ItemId};
use vstd::prelude::*;

verus! {

/// The value that a tag gets out of several, and whether that holds for the same values
/// from then on.
#[derive(Debug, PartialEq)]
pub struct ReplaceChoice {
    pub label: Label,
    pub for_all: bool,
}

#[verifier::ext_equal]
pub struct ReplaceModel {
    pub label: BiticalModel,
    pub for_all: bool,
}

impl View for ReplaceChoice {
    type V = ReplaceModel;

    open spec fn view(&self) -> ReplaceModel {
        ReplaceModel { label: self.label@, for_all: self.for_all }
    }
}

/// What happens to a move whose target exists.
#[derive(Clone, Copy, Debug, PartialEq, Eq, Structural)]
pub enum ConflictChoice {
    Abort,
    Skip,
    Serial,
    SkipAll,
    SerialAll,
}

/// Which paths of an item with several of them are moved.
#[derive(Debug, PartialEq, Eq)]
pub enum HardlinkChoice {
    Abort,
    Skip,
    All,
    Selected(Vec<usize>),
    SkipAll,
    AllForSubsequent,
}

#[verifier::ext_equal]
pub enum HardlinkModel {
    Abort,
    Skip,
    All,
    Selected(Seq<usize>),
    SkipAll,
    AllForSubsequent,
}

impl View for HardlinkChoice {
    type V = HardlinkModel;

    open spec fn view(&self) -> HardlinkModel {
        match *self {
            HardlinkChoice::Abort => HardlinkModel::Abort,
            HardlinkChoice::Skip => HardlinkModel::Skip,
            HardlinkChoice::All => HardlinkModel::All,
            HardlinkChoice::Selected(v) => HardlinkModel::Selected(v@),
            HardlinkChoice::SkipAll => HardlinkModel::SkipAll,
            HardlinkChoice::AllForSubsequent => HardlinkModel::AllForSubsequent,
        }
    }
}

/// A change of the kind of value that a type holds.
#[derive(Debug)]
pub struct CastSummary {
    pub tag_type: TagType,
    pub from_type: BiticalType,
    pub to_type: BiticalType,
    pub count: usize,
}

#[verifier::ext_equal]
pub struct CastModel {
    pub tag_type: TagTypeModel,
    pub from_type: BiticalType,
    pub to_type: BiticalType,
    pub count: usize,
}

impl View for CastSummary {
    type V = CastModel;

    open spec fn view(&self) -> CastModel {
        CastModel {
            tag_type: self.tag_type@,
            from_type: self.from_type,
            to_type: self.to_type,
            count: self.count,
        }
    }
}

impl Clone for CastSummary {
    fn clone(&self) -> (r: Self)
        ensures
            r@ == self@,
    {
        CastSummary {
            tag_type: self.tag_type.clone(),
            from_type: self.from_type,
            to_type: self.to_type,
            count: self.count,
        }
    }
}

pub open spec fn cast_model(c: Option<CastSummary>) -> Option<CastModel> {
    match c {
        Some(c) => Some(c@),
        None => None,
    }
}

/// What an edit is about to do.
#[derive(Debug)]
pub struct ConfirmSummary {
    pub matched_items: usize,
    pub fs_ops: usize,
    pub tag_ops: usize,
    pub deleted_items: usize,
    pub is_registration: bool,
    pub skipped_types: Vec<TagType>,
    pub cast_info: Option<CastSummary>,
}

#[verifier::ext_equal]
pub struct SummaryModel {
    pub matched_items: usize,
    pub fs_ops: usize,
    pub tag_ops: usize,
    pub deleted_items: usize,
    pub is_registration: bool,
    pub skipped_types: Seq<Seq<char>>,
    pub cast_info: Option<CastModel>,
}

impl View for ConfirmSummary {
    type V = SummaryModel;

    open spec fn view(&self) -> SummaryModel {
        SummaryModel {
            matched_items: self.matched_items,
            fs_ops: self.fs_ops,
            tag_ops: self.tag_ops,
            deleted_items: self.deleted_items,
            is_registration: self.is_registration,
            skipped_types: fs_operate::type_names(self.skipped_types@),
            cast_info: cast_model(self.cast_info),
        }
    }
}

impl SummaryModel {
    pub open spec fn cast_text(self) -> Seq<char> {
        match self.cast_info {
            Some(c) => if c.count > 0 {
                "Converting "@ + text::nat_text(c.count as nat) + " item(s) of type '"@
                    + c.tag_type.name() + "' from "@ + c.from_type.name_text() + " to "@
                    + c.to_type.name_text() + "\n"@
            } else {
                seq![]
            },
            None => seq![],
        }
    }

    pub open spec fn count_text(self) -> Seq<char> {
        if self.is_registration {
            "Registering "@ + text::nat_text(self.matched_items as nat) + " items"@
        } else {
            "Matched: "@ + text::nat_text(self.matched_items as nat) + " items ("@
                + text::nat_text(self.fs_ops as nat) + " file operations, "@ + text::nat_text(
                self.tag_ops as nat,
            ) + " tag modifications)"@
        }
    }

    pub open spec fn warning_text(self) -> Seq<char> {
        if self.deleted_items > 0 {
            " [WARNING: "@ + text::nat_text(self.deleted_items as nat)
                + " items will be deleted]"@
        } else {
            seq![]
        }
    }

    pub open spec fn skipped_text(self) -> Seq<char> {
        if self.skipped_types.len() > 0 {
            " (Skipped non-transferable types: "@ + text::joined(self.skipped_types, ", "@) + ")"@
        } else {
            seq![]
        }
    }

    /// The summary in words.
    pub open spec fn shown(self) -> Seq<char> {
        self.cast_text() + self.count_text() + self.warning_text() + self.skipped_text()
    }
}

fn names_of(types: &Vec<TagType>) -> (r: Vec<String>)
    ensures
        text::texts(r@) == fs_operate::type_names(types@),
{
    let mut r: Vec<String> = Vec::new();
    let mut i: usize = 0;
    while i < types.len()
        invariant
            i <= types@.len(),
            r@.len() == i,
            forall|k: int| 0 <= k < i ==> (#[trigger] r@[k])@ == types@[k]@.name(),
        decreases types@.len() - i,
    {
        r.push(types[i].as_str().to_owned());
        i += 1;
    }
    proof {
        assert(text::texts(r@) =~= fs_operate::type_names(types@));
    }
    r
}

impl ConfirmSummary {
    fn cast_part(&self) -> (r: String)
        ensures
            r@ == self@.cast_text(),
    {
        match &self.cast_info {
            Some(c) => {
                if c.count > 0 {
                    let mut s = cat3(
                        "Converting ",
                        show_usize(c.count).as_str(),
                        " item(s) of type '",
                    );
                    s.push_str(c.tag_type.as_str());
                    s.push_str("' from ");
                    s.push_str(c.from_type.name());
                    s.push_str(" to ");
                    s.push_str(c.to_type.name());
                    s.push_str("\n");
                    s
                } else {
                    String::new()
                }
            },
            None => String::new(),
        }
    }

    fn count_part(&self) -> (r: String)
        ensures
            r@ == self@.count_text(),
    {
        if self.is_registration {
            cat3("Registering ", show_usize(self.matched_items).as_str(), " items")
        } else {
            let mut s = cat3("Matched: ", show_usize(self.matched_items).as_str(), " items (");
            s.push_str(show_usize(self.fs_ops).as_str());
            s.push_str(" file operations, ");
            s.push_str(show_usize(self.tag_ops).as_str());
            s.push_str(" tag modifications)");
            s
        }
    }

    /// The summary in words.
    pub fn show(&self) -> (r: String)
        ensures
            r@ == self@.shown(),
    {
        let mut s = self.cast_part();
        s.push_str(self.count_part().as_str());
        if self.deleted_items > 0 {
            s.push_str(
                cat3(
                    " [WARNING: ",
                    show_usize(self.deleted_items).as_str(),
                    " items will be deleted]",
                ).as_str(),
            );
        } else {
            proof {
                assert(s@ + self@.warning_text() =~= s@);
            }
        }
        if self.skipped_types.len() > 0 {
            let names = names_of(&self.skipped_types);
            s.push_str(
                cat3(
                    " (Skipped non-transferable types: ",
                    text::join(&names, ", ").as_str(),
                    ")",
                ).as_str(),
            );
        } else {
            proof {
                assert(s@ + self@.skipped_text() =~= s@);
            }
        }
        s
    }
}

// ---------------------------------------------------------------------------
// Questions
// ---------------------------------------------------------------------------

pub open spec fn label_models(v: Seq<Label>) -> Seq<BiticalModel> {
    v.map_values(|l: Label| l@)
}

/// Numbered lines, one for each entry, from the number `from` on.
pub open spec fn numbered(
    entries: Seq<Seq<char>>,
    from: nat,
    before: Seq<char>,
    after: Seq<char>,
) -> Seq<char>
    decreases entries.len(),
{
    if entries.len() == 0 {
        seq![]
    } else {
        numbered(entries.drop_last(), from, before, after) + "  ["@ + text::nat_text(
            (from + entries.len() - 1) as nat,
        ) + "] "@ + before + entries.last() + after + "\n"@
    }
}

fn push_numbered(
    out: &mut String,
    entries: &Vec<String>,
    from: u128,
    before: &str,
    after: &str,
)
    requires
        from <= 0x1_0000_0000_0000_0000,
    ensures
        final(out)@ == old(out)@ + numbered(text::texts(entries@), from as nat, before@, after@),
{
    let ghost start = out@;
    let ghost es = text::texts(entries@);
    let mut i: usize = 0;
    proof {
        assert(start + numbered(es.take(0), from as nat, before@, after@) =~= start);
    }
    while i < entries.len()
        invariant
            i <= entries@.len(),
            from <= 0x1_0000_0000_0000_0000,
            es == text::texts(entries@),
            out@ == start + numbered(es.take(i as int), from as nat, before@, after@),
        decreases entries@.len() - i,
    {
        let ghost prefix = out@;
        proof {
            assert(es.take(i + 1).drop_last() =~= es.take(i as int));
            assert(es.take(i + 1).last() == entries@[i as int]@);
        }
        out.push_str("  [");
        out.push_str(show_u128(from + i as u128).as_str());
        out.push_str("] ");
        out.push_str(before);
        out.push_str(entries[i].as_str());
        out.push_str(after);
        out.push_str("\n");
        proof {
            let line = "  ["@ + text::nat_text((from + i) as nat) + "] "@ + before@ + es[i as int]
                + after@ + "\n"@;
            assert(out@ =~= prefix + line);
            assert(out@ =~= start + numbered(es.take(i + 1), from as nat, before@, after@));
        }
        i += 1;
    }
    proof {
        assert(es.take(es.len() as int) =~= es);
    }
}

pub open spec fn shown_labels(v: Seq<BiticalModel>) -> Seq<Seq<char>> {
    v.map_values(|l: BiticalModel| l.shown())
}

/// The question which value a tag gets.
pub open spec fn replace_text(
    item: ItemId,
    tag_type: TagTypeModel,
    candidates: Seq<BiticalModel>,
) -> Seq<char> {
    let n = candidates.len();
    ("Multiple candidate values for tag '"@ + tag_type.name() + "' on item "@ + item.shown()
        + ":\n"@) + numbered(shown_labels(candidates), 1, ""@, ""@) + numbered(
        shown_labels(candidates),
        n + 1,
        ""@,
        " (all subsequent)"@,
    ) + "Choice [1-"@ + text::nat_text(2 * n) + "]: "@
}

/// The question which value a tag gets.
pub fn replace_question(item: &ItemId, tag_type: &TagType, candidates: &Vec<Label>) -> (r: String)
    ensures
        r@ == replace_text(*item, tag_type@, label_models(candidates@)),
{
    let mut shown: Vec<String> = Vec::new();
    let mut i: usize = 0;
    while i < candidates.len()
        invariant
            i <= candidates@.len(),
            shown@.len() == i,
            forall|k: int| 0 <= k < i ==> (#[trigger] shown@[k])@ == candidates@[k]@.shown(),
        decreases candidates@.len() - i,
    {
        shown.push(candidates[i].as_str());
        i += 1;
    }
    proof {
        assert(text::texts(shown@) =~= shown_labels(label_models(candidates@)));
    }
    let n: u128 = candidates.len() as u128;
    let mut s = cat3(
        "Multiple candidate values for tag '",
        tag_type.as_str(),
        "' on item ",
    );
    s.push_str(item.show().as_str());
    s.push_str(":\n");
    push_numbered(&mut s, &shown, 1, "", "");
    push_numbered(&mut s, &shown, n + 1, "", " (all subsequent)");
    s.push_str("Choice [1-");
    s.push_str(show_u128(n * 2).as_str());
    s.push_str("]: ");
    s
}

/// The value that an answer picks: the one with the number, in the first half only for this
/// item, in the second half for all that follow. What is no number stands for the first.
pub open spec fn replace_answered(line: Seq<char>, candidates: Seq<BiticalModel>) -> ReplaceModel {
    let n = match text::parsed_usize(text::trimmed(line)) {
        Some(n) => n as int,
        None => 1,
    };
    let at = if n == 0 {
        0
    } else {
        n - 1
    };
    let for_all = at >= candidates.len();
    let k = if for_all {
        at - candidates.len()
    } else {
        at
    };
    ReplaceModel {
        label: if k < candidates.len() {
            candidates[k]
        } else {
            candidates[0]
        },
        for_all,
    }
}

/// The value that an answer picks.
pub fn replace_answer(line: &str, candidates: &Vec<Label>) -> (r: ReplaceChoice)
    requires
        candidates@.len() > 0,
    ensures
        r@ == replace_answered(line@, label_models(candidates@)),
{
    let n: usize = match text::parse_usize(text::trim(line).as_str()) {
        Some(n) => n,
        None => 1,
    };
    let at: usize = if n == 0 {
        0
    } else {
        n - 1
    };
    let len = candidates.len();
    let for_all = at >= len;
    let k: usize = if for_all {
        at - len
    } else {
        at
    };
    let label = if k < len {
        candidates[k].clone()
    } else {
        candidates[0].clone()
    };
    ReplaceChoice { label, for_all }
}

/// The question what happens to a move whose target exists.
pub open spec fn conflict_text(item: ItemId, target: Seq<char>) -> Seq<char> {
    "Target already exists for item "@ + item.shown() + ": "@ + target + "\n"@
        + "Resolve conflict: [1] abort (default), [2] skip, [3] serial, [4] skip all, [5] serial all\nChoice [1-5]: "@
}

/// The question what happens to a move whose target exists.
pub fn conflict_question(item: &ItemId, target: &str) -> (r: String)
    ensures
        r@ == conflict_text(*item, target@),
{
    let mut s = cat3("Target already exists for item ", item.show().as_str(), ": ");
    s.push_str(target);
    s.push_str("\n");
    s.push_str(
        "Resolve conflict: [1] abort (default), [2] skip, [3] serial, [4] skip all, [5] serial all\nChoice [1-5]: ",
    );
    s
}

pub open spec fn conflict_answered(line: Seq<char>) -> ConflictChoice {
    let s = text::trimmed(line);
    if s == "2"@ {
        ConflictChoice::Skip
    } else if s == "3"@ {
        ConflictChoice::Serial
    } else if s == "4"@ {
        ConflictChoice::SkipAll
    } else if s == "5"@ {
        ConflictChoice::SerialAll
    } else {
        ConflictChoice::Abort
    }
}

pub fn conflict_answer(line: &str) -> (r: ConflictChoice)
    ensures
        r == conflict_answered(line@),
{
    let s = text::trim(line);
    let t = s.as_str();
    if str_eq(t, "2") {
        ConflictChoice::Skip
    } else if str_eq(t, "3") {
        ConflictChoice::Serial
    } else if str_eq(t, "4") {
        ConflictChoice::SkipAll
    } else if str_eq(t, "5") {
        ConflictChoice::SerialAll
    } else {
        ConflictChoice::Abort
    }
}

pub open spec fn menu_line(n: nat, what: Seq<char>) -> Seq<char> {
    "  ["@ + text::nat_text(n) + "] "@ + what + "\n"@
}

/// The question which paths of an item are moved.
pub open spec fn hardlink_text(item: ItemId, paths: Seq<Seq<char>>) -> Seq<char> {
    let n = paths.len();
    ("Multiple hardlinks detected for item "@ + item.shown() + ":\n"@) + numbered(
        paths,
        1,
        "move \""@,
        "\" only"@,
    ) + menu_line(n + 1, "move all paths"@) + menu_line(
        n + 2,
        "move all for all subsequent hardlinks"@,
    ) + menu_line(n + 3, "skip this item"@) + menu_line(
        n + 4,
        "skip for all subsequent hardlinks"@,
    ) + menu_line(n + 5, "abort (cancel operation, default)"@)
        + "  [Or enter comma-separated numbers, e.g. 1,2]\nChoice [1-"@ + text::nat_text(n + 5)
        + "]: "@
}

fn push_menu_line(s: &mut String, n: u128, what: &str)
    ensures
        final(s)@ == old(s)@ + menu_line(n as nat, what@),
{
    let ghost start = s@;
    s.push_str("  [");
    s.push_str(show_u128(n).as_str());
    s.push_str("] ");
    s.push_str(what);
    s.push_str("\n");
    proof {
        assert(s@ =~= start + menu_line(n as nat, what@));
    }
}

/// The question which paths of an item are moved.
pub fn hardlink_question(item: &ItemId, paths: &Vec<String>) -> (r: String)
    ensures
        r@ == hardlink_text(*item, text::texts(paths@)),
{
    let n: u128 = paths.len() as u128;
    let mut s = cat3("Multiple hardlinks detected for item ", item.show().as_str(), ":\n");
    push_numbered(&mut s, paths, 1, "move \"", "\" only");
    push_menu_line(&mut s, n + 1, "move all paths");
    push_menu_line(&mut s, n + 2, "move all for all subsequent hardlinks");
    push_menu_line(&mut s, n + 3, "skip this item");
    push_menu_line(&mut s, n + 4, "skip for all subsequent hardlinks");
    push_menu_line(&mut s, n + 5, "abort (cancel operation, default)");
    s.push_str("  [Or enter comma-separated numbers, e.g. 1,2]\nChoice [1-");
    s.push_str(show_u128(n + 5).as_str());
    s.push_str("]: ");
    s
}

/// The positions that a list of numbers picks out of `n` paths; other pieces do not count.
pub open spec fn picked(pieces: Seq<Seq<char>>, n: nat) -> Seq<usize>
    decreases pieces.len(),
{
    if pieces.len() == 0 {
        seq![]
    } else {
        match text::parsed_usize(text::trimmed(pieces.last())) {
            Some(k) => if 1 <= k <= n {
                picked(pieces.drop_last(), n).push((k - 1) as usize)
            } else {
                picked(pieces.drop_last(), n)
            },
            None => picked(pieces.drop_last(), n),
        }
    }
}

/// What an answer picks out of `n` paths: one path or, with commas, several; or what the
/// numbers after those of the paths stand for. Anything else aborts.
pub open spec fn hardlink_answered(line: Seq<char>, n: nat) -> HardlinkModel {
    let s = text::trimmed(line);
    if s.contains(',') {
        let at = picked(text::split_on(s, ','), n);
        if at.len() == 0 {
            HardlinkModel::Abort
        } else {
            HardlinkModel::Selected(at)
        }
    } else {
        match text::parsed_usize(s) {
            None => HardlinkModel::Abort,
            Some(k) => if 1 <= k <= n {
                HardlinkModel::Selected(seq![(k - 1) as usize])
            } else if k == n + 1 {
                HardlinkModel::All
            } else if k == n + 2 {
                HardlinkModel::AllForSubsequent
            } else if k == n + 3 {
                HardlinkModel::Skip
            } else if k == n + 4 {
                HardlinkModel::SkipAll
            } else {
                HardlinkModel::Abort
            },
        }
    }
}

fn pick(pieces: &Vec<String>, n: usize) -> (r: Vec<usize>)
    ensures
        r@ == picked(text::texts(pieces@), n as nat),
{
    let ghost ps = text::texts(pieces@);
    let mut r: Vec<usize> = Vec::new();
    let mut i: usize = 0;
    proof {
        assert(ps.take(0) =~= seq![]);
    }
    while i < pieces.len()
        invariant
            i <= pieces@.len(),
            ps == text::texts(pieces@),
            r@ == picked(ps.take(i as int), n as nat),
        decreases pieces@.len() - i,
    {
        proof {
            assert(ps.take(i + 1).drop_last() =~= ps.take(i as int));
            assert(ps.take(i + 1).last() == pieces@[i as int]@);
        }
        match text::parse_usize(text::trim(pieces[i].as_str()).as_str()) {
            Some(k) => {
                if k >= 1 && k <= n {
                    r.push(k - 1);
                }
            },
            None => {},
        }
        i += 1;
    }
    proof {
        assert(ps.take(ps.len() as int) =~= ps);
    }
    r
}

/// What an answer picks out of `n` paths.
pub fn hardlink_answer(line: &str, n: usize) -> (r: HardlinkChoice)
    ensures
        r@ == hardlink_answered(line@, n as nat),
{
    let v = text::trim_chars(line);
    let comma = text::find_char(&v, ',', 0);
    proof {
        if comma < v@.len() {
            assert(v@[comma as int] == ',');
            assert(v@.contains(','));
        } else {
            assert(!v@.contains(','));
        }
    }
    if comma < v.len() {
        let pieces = text::split(&v, ',');
        let at = pick(&pieces, n);
        return if at.len() == 0 {
            HardlinkChoice::Abort
        } else {
            HardlinkChoice::Selected(at)
        };
    }
    let s = text::text_of(&v);
    match text::parse_usize(s.as_str()) {
        None => HardlinkChoice::Abort,
        Some(k) => {
            let m: u128 = n as u128;
            let j: u128 = k as u128;
            if k >= 1 && k <= n {
                let mut one: Vec<usize> = Vec::new();
                one.push(k - 1);
                proof {
                    assert(one@ =~= seq![(k - 1) as usize]);
                }
                HardlinkChoice::Selected(one)
            } else if j == m + 1 {
                HardlinkChoice::All
            } else if j == m + 2 {
                HardlinkChoice::AllForSubsequent
            } else if j == m + 3 {
                HardlinkChoice::Skip
            } else if j == m + 4 {
                HardlinkChoice::SkipAll
            } else {
                HardlinkChoice::Abort
            }
        },
    }
}

pub open spec fn mkdir_text(dir: Seq<char>) -> Seq<char> {
    "Create missing directory '"@ + dir + "'? [y/N]: "@
}

pub fn mkdir_question(dir: &str) -> (r: String)
    ensures
        r@ == mkdir_text(dir@),
{
    cat3("Create missing directory '", dir, "'? [y/N]: ")
}

pub open spec fn confirm_text(summary: SummaryModel) -> Seq<char> {
    summary.shown() + "\nApply these changes? [y/N]: "@
}

pub fn confirm_question(summary: &ConfirmSummary) -> (r: String)
    ensures
        r@ == confirm_text(summary@),
{
    let mut s = summary.show();
    s.push_str("\nApply these changes? [y/N]: ");
    s
}

/// Whether an answer agrees: a single y of either case.
pub open spec fn agreed(line: Seq<char>) -> bool {
    text::ascii_same(text::trimmed(line), "y"@)
}

pub fn agrees(line: &str) -> (r: bool)
    ensures
        r == agreed(line@),
{
    let v = text::trim_chars(line);
    text::eq_ignore_ascii_case(&v, "y")
}

// ---------------------------------------------------------------------------
// Asking
// ---------------------------------------------------------------------------

/// Why a question could not be asked.
#[derive(Debug, PartialEq, Eq)]
pub struct PromptError {
    pub message: String,
}

/// A question that was asked, with its answer.
#[verifier::ext_equal]
pub enum Asked {
    Confirmation(SummaryModel, Result<bool, Seq<char>>),
    Replace(ItemId, TagTypeModel, Seq<BiticalModel>, Result<ReplaceModel, Seq<char>>),
    Conflict(ItemId, Seq<char>, Result<ConflictChoice, Seq<char>>),
    Hardlink(ItemId, Seq<Seq<char>>, Result<HardlinkModel, Seq<char>>),
    Mkdir(Seq<char>, Result<bool, Seq<char>>),
}

pub open spec fn plain_answer<T>(r: Result<T, PromptError>) -> Result<T, Seq<char>> {
    match r {
        Ok(v) => Ok(v),
        Err(e) => Err(e.message@),
    }
}

pub open spec fn replace_reply(r: Result<ReplaceChoice, PromptError>) -> Result<
    ReplaceModel,
    Seq<char>,
> {
    match r {
        Ok(c) => Ok(c@),
        Err(e) => Err(e.message@),
    }
}

pub open spec fn hardlink_reply(r: Result<HardlinkChoice, PromptError>) -> Result<
    HardlinkModel,
    Seq<char>,
> {
    match r {
        Ok(c) => Ok(c@),
        Err(e) => Err(e.message@),
    }
}

/// Something that can be asked. It keeps account of what it was asked and answered.
pub trait ConfirmPrompt: Sized {
    /// The questions that were asked so far, with their answers.
    spec fn asked(&self) -> Seq<Asked>;

    /// The lines that the answers are taken from, where they are; asking does not change them.
    spec fn source(&self) -> Seq<Seq<char>>;

    /// Whether the account of questions agrees with the rest of the state.
    spec fn valid(&self) -> bool;

    fn ask_confirmation(&mut self, summary: &ConfirmSummary) -> (r: Result<bool, PromptError>)
        requires
            old(self).valid(),
        ensures
            final(self).valid(),
            final(self).source() == old(self).source(),
            final(self).asked() == old(self).asked().push(
                Asked::Confirmation(summary@, plain_answer(r)),
            ),
    ;

    fn ask_replace_resolution(
        &mut self,
        item: &ItemId,
        tag_type: &TagType,
        candidates: &Vec<Label>,
    ) -> (r: Result<ReplaceChoice, PromptError>)
        requires
            old(self).valid(),
            candidates@.len() > 0,
        ensures
            final(self).valid(),
            final(self).source() == old(self).source(),
            final(self).asked() == old(self).asked().push(
                Asked::Replace(*item, tag_type@, label_models(candidates@), replace_reply(r)),
            ),
    ;

    fn ask_conflict_resolution(&mut self, item: &ItemId, target: &str) -> (r: Result<
        ConflictChoice,
        PromptError,
    >)
        requires
            old(self).valid(),
        ensures
            final(self).valid(),
            final(self).source() == old(self).source(),
            final(self).asked() == old(self).asked().push(
                Asked::Conflict(*item, target@, plain_answer(r)),
            ),
    ;

    fn ask_hardlink_resolution(&mut self, item: &ItemId, paths: &Vec<String>) -> (r: Result<
        HardlinkChoice,
        PromptError,
    >)
        requires
            old(self).valid(),
        ensures
            final(self).valid(),
            final(self).source() == old(self).source(),
            final(self).asked() == old(self).asked().push(
                Asked::Hardlink(*item, text::texts(paths@), hardlink_reply(r)),
            ),
    ;

    fn ask_mkdir_confirmation(&mut self, dir: &str) -> (r: Result<bool, PromptError>)
        requires
            old(self).valid(),
        ensures
            final(self).valid(),
            final(self).source() == old(self).source(),
            final(self).asked() == old(self).asked().push(Asked::Mkdir(dir@, plain_answer(r))),
    ;
}

/// The text of a question.
pub open spec fn question_text(q: Asked) -> Seq<char> {
    match q {
        Asked::Confirmation(s, _) => confirm_text(s),
        Asked::Replace(item, ty, cands, _) => replace_text(item, ty, cands),
        Asked::Conflict(item, target, _) => conflict_text(item, target),
        Asked::Hardlink(item, paths, _) => hardlink_text(item, paths),
        Asked::Mkdir(dir, _) => mkdir_text(dir),
    }
}

/// Whether a question was answered as a line says.
pub open spec fn answered_by(q: Asked, line: Seq<char>) -> bool {
    match q {
        Asked::Confirmation(_, a) => a == Ok::<bool, Seq<char>>(agreed(line)),
        Asked::Replace(_, _, cands, a) => a == Ok::<ReplaceModel, Seq<char>>(
            replace_answered(line, cands),
        ),
        Asked::Conflict(_, _, a) => a == Ok::<ConflictChoice, Seq<char>>(conflict_answered(line)),
        Asked::Hardlink(_, paths, a) => a == Ok::<HardlinkModel, Seq<char>>(
            hardlink_answered(line, paths.len()),
        ),
        Asked::Mkdir(_, a) => a == Ok::<bool, Seq<char>>(agreed(line)),
    }
}

/// The line that answers the question number `k`: an empty one where the input has ended.
pub open spec fn line_at(lines: Seq<Seq<char>>, k: int) -> Seq<char> {
    if 0 <= k < lines.len() {
        lines[k]
    } else {
        seq![]
    }
}

/// What is written when questions are asked.
pub open spec fn written(asked: Seq<Asked>) -> Seq<char>
    decreases asked.len(),
{
    if asked.len() == 0 {
        seq![]
    } else {
        written(asked.drop_last()) + question_text(asked.last())
    }
}

/// Whether questions were answered by the lines of an input, one line for each.
pub open spec fn answered_all(asked: Seq<Asked>, lines: Seq<Seq<char>>) -> bool {
    forall|k: int| 0 <= k < asked.len() ==> answered_by(#[trigger] asked[k], line_at(lines, k))
}

/// Asks by writing the questions, and takes the lines of an input for answers.
pub struct IoConfirmPrompt {
    input: Vec<String>,
    read: usize,
    output: String,
    pending: Option<String>,
    asked: Ghost<Seq<Asked>>,
}

impl IoConfirmPrompt {
    pub closed spec fn text(&self) -> Seq<char> {
        self.output@
    }

    pub fn new(input: Vec<String>) -> (r: Self)
        ensures
            r.valid(),
            r.asked() == Seq::<Asked>::empty(),
            r.source() == text::texts(input@),
    {
        IoConfirmPrompt {
            input,
            read: 0,
            output: String::new(),
            pending: None,
            asked: Ghost(Seq::<Asked>::empty()),
        }
    }

    /// The first question that found the input at its end, and so was answered by an empty line.
    pub fn unanswered(&self) -> (r: Option<String>)
        requires
            self.valid(),
        ensures
            r is Some <==> self.asked().len() > self.source().len(),
            r matches Some(q) ==> q@ == question_text(self.asked()[self.source().len() as int]),
    {
        self.pending.clone()
    }

    /// What was written so far.
    pub fn output(&self) -> (r: String)
        ensures
            r@ == self.text(),
    {
        self.output.clone()
    }

    fn next_line(&mut self, question: &str) -> (r: String)
        requires
            old(self).read == old(self).input@.len() || old(self).read == old(self).asked@.len(),
            old(self).read <= old(self).input@.len(),
            old(self).read <= old(self).asked@.len(),
        ensures
            final(self).input == old(self).input,
            final(self).asked == old(self).asked,
            final(self).output@ == old(self).output@ + question@,
            old(self).pending is Some || old(self).asked@.len() < old(self).input@.len()
                ==> final(self).pending == old(self).pending,
            old(self).pending is None && old(self).asked@.len() >= old(self).input@.len()
                ==> final(self).pending is Some && final(self).pending->Some_0@ == question@,
            final(self).read <= final(self).input@.len(),
            final(self).read <= old(self).asked@.len() + 1,
            final(self).read == final(self).input@.len() || final(self).read == old(
                self,
            ).asked@.len() + 1,
            r@ == line_at(text::texts(old(self).input@), old(self).asked@.len() as int),
    {
        self.output.push_str(question);
        if self.read < self.input.len() {
            let line = self.input[self.read].clone();
            self.read = self.read + 1;
            line
        } else {
            if self.pending.is_none() {
                self.pending = Some(question.to_string());
            }
            let s = String::new();
            proof {
                assert(s@ =~= seq![]);
            }
            s
        }
    }
}

proof fn lemma_written_push(asked: Seq<Asked>, q: Asked)
    ensures
        written(asked.push(q)) == written(asked) + question_text(q),
{
    assert(asked.push(q).drop_last() =~= asked);
}

impl ConfirmPrompt for IoConfirmPrompt {
    closed spec fn source(&self) -> Seq<Seq<char>> {
        text::texts(self.input@)
    }

    closed spec fn asked(&self) -> Seq<Asked> {
        self.asked@
    }

    /// The questions were written, and answered by the lines of the input in order.
    closed spec fn valid(&self) -> bool {
        &&& self.read <= self.input@.len()
        &&& self.read <= self.asked@.len()
        &&& self.read == self.input@.len() || self.read == self.asked@.len()
        &&& self.output@ == written(self.asked@)
        &&& match self.pending {
            Some(q) => self.asked@.len() > self.input@.len() && q@ == question_text(
                self.asked@[self.input@.len() as int],
            ),
            None => self.asked@.len() <= self.input@.len(),
        }
        &&& answered_all(self.asked@, text::texts(self.input@))
    }

    fn ask_confirmation(&mut self, summary: &ConfirmSummary) -> (r: Result<bool, PromptError>) {
        let line = self.next_line(confirm_question(summary).as_str());
        let r = agrees(line.as_str());
        proof {
            let q = Asked::Confirmation(summary@, Ok(r));
            lemma_written_push(self.asked@, q);
            self.asked@ = self.asked@.push(q);
        }
        Ok(r)
    }

    fn ask_replace_resolution(
        &mut self,
        item: &ItemId,
        tag_type: &TagType,
        candidates: &Vec<Label>,
    ) -> (r: Result<ReplaceChoice, PromptError>) {
        let line = self.next_line(replace_question(item, tag_type, candidates).as_str());
        let r = replace_answer(line.as_str(), candidates);
        proof {
            let q = Asked::Replace(*item, tag_type@, label_models(candidates@), Ok(r@));
            lemma_written_push(self.asked@, q);
            self.asked@ = self.asked@.push(q);
        }
        Ok(r)
    }

    fn ask_conflict_resolution(&mut self, item: &ItemId, target: &str) -> (r: Result<
        ConflictChoice,
        PromptError,
    >) {
        let line = self.next_line(conflict_question(item, target).as_str());
        let r = conflict_answer(line.as_str());
        proof {
            let q = Asked::Conflict(*item, target@, Ok(r));
            lemma_written_push(self.asked@, q);
            self.asked@ = self.asked@.push(q);
        }
        Ok(r)
    }

    fn ask_hardlink_resolution(&mut self, item: &ItemId, paths: &Vec<String>) -> (r: Result<
        HardlinkChoice,
        PromptError,
    >) {
        let line = self.next_line(hardlink_question(item, paths).as_str());
        let r = hardlink_answer(line.as_str(), paths.len());
        proof {
            let q = Asked::Hardlink(*item, text::texts(paths@), Ok(r@));
            lemma_written_push(self.asked@, q);
            self.asked@ = self.asked@.push(q);
        }
        Ok(r)
    }

    fn ask_mkdir_confirmation(&mut self, dir: &str) -> (r: Result<bool, PromptError>) {
        let line = self.next_line(mkdir_question(dir).as_str());
        let r = agrees(line.as_str());
        proof {
            let q = Asked::Mkdir(dir@, Ok(r));
            lemma_written_push(self.asked@, q);
            self.asked@ = self.asked@.push(q);
        }
        Ok(r)
    }
}

impl IoConfirmPrompt {
    /// What was written are the questions, and the lines of the input are the answers.
    pub proof fn lemma_account(&self)
        requires
            self.valid(),
        ensures
            self.text() == written(self.asked()),
            answered_all(self.asked(), self.source()),
    {
    }
}

} // verus!
