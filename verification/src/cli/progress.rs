//! The progress of indexing, shown as four bars below each other.
use crate::indexing::IndexProgress;
use crate::text;
use vstd::prelude::*;

verus! {

/// A stage of indexing, which has a bar.
#[derive(Clone, Copy, Debug, PartialEq, Eq, Structural)]
pub enum Bar {
    Scan,
    Diff,
    Extract,
    Merge,
}

/// A change of a bar.
#[derive(Debug, PartialEq, Eq)]
pub enum BarChange {
    Message(Bar, String),
    /// Shows that the stage goes on.
    Tick(Bar),
    Finish(Bar, String),
    FinishAndClear(Bar),
    Abandon(Bar),
    /// Gives the bar of the extraction a length.
    Length(usize),
    /// Moves the bar of the extraction.
    Position(usize),
}

#[verifier::ext_equal]
pub enum ChangeModel {
    Message(Bar, Seq<char>),
    Tick(Bar),
    Finish(Bar, Seq<char>),
    FinishAndClear(Bar),
    Abandon(Bar),
    Length(usize),
    Position(usize),
}

impl View for BarChange {
    type V = ChangeModel;

    open spec fn view(&self) -> ChangeModel {
        match *self {
            BarChange::Message(b, s) => ChangeModel::Message(b, s@),
            BarChange::Tick(b) => ChangeModel::Tick(b),
            BarChange::Finish(b, s) => ChangeModel::Finish(b, s@),
            BarChange::FinishAndClear(b) => ChangeModel::FinishAndClear(b),
            BarChange::Abandon(b) => ChangeModel::Abandon(b),
            BarChange::Length(n) => ChangeModel::Length(n),
            BarChange::Position(n) => ChangeModel::Position(n),
        }
    }
}

pub open spec fn change_models(v: Seq<BarChange>) -> Seq<ChangeModel> {
    v.map_values(|c: BarChange| c@)
}

/// What is known of the bars.
#[derive(Clone, Copy, Debug, PartialEq, Eq, Structural)]
pub struct MultiStageProgressView {
    pub enabled: bool,
    pub max_extracted: usize,
    pub extract_length: Option<usize>,
    pub diff_finished: bool,
    pub extract_finished: bool,
    pub is_finished: bool,
}

pub open spec fn add_if(v: Seq<ChangeModel>, b: bool, c: ChangeModel) -> Seq<ChangeModel> {
    if b {
        v.push(c)
    } else {
        v
    }
}

impl MultiStageProgressView {
    pub open spec fn start(enabled: bool) -> MultiStageProgressView {
        MultiStageProgressView {
            enabled,
            max_extracted: 0,
            extract_length: None,
            diff_finished: false,
            extract_finished: false,
            is_finished: false,
        }
    }

    /// The bars after a report, and what changes. The bar of the extraction never moves back.
    pub open spec fn progressed(self, p: IndexProgress) -> (
        MultiStageProgressView,
        Seq<ChangeModel>,
    ) {
        match p {
            IndexProgress::Scanning { count } => (
                self,
                seq![
                    ChangeModel::Message(
                        Bar::Scan,
                        text::nat_text(count as nat) + " files found..."@,
                    ),
                ],
            ),
            IndexProgress::Diffing => (
                self,
                add_if(
                    seq![
                        ChangeModel::Finish(Bar::Scan, "Done"@),
                        ChangeModel::Message(Bar::Diff, "Detecting..."@),
                    ],
                    self.enabled,
                    ChangeModel::Tick(Bar::Diff),
                ),
            ),
            IndexProgress::Extracting { current, total } => {
                let first = if self.diff_finished {
                    seq![]
                } else {
                    seq![
                        ChangeModel::Finish(Bar::Scan, "Done"@),
                        ChangeModel::Finish(Bar::Diff, "Done"@),
                    ]
                };
                if total == 0 {
                    (
                        MultiStageProgressView {
                            diff_finished: true,
                            extract_finished: true,
                            ..self
                        },
                        first.push(ChangeModel::Finish(Bar::Extract, "Done (0 changes)"@)),
                    )
                } else {
                    (
                        MultiStageProgressView {
                            diff_finished: true,
                            extract_length: Some(total),
                            max_extracted: if current > self.max_extracted {
                                current
                            } else {
                                self.max_extracted
                            },
                            ..self
                        },
                        add_if(
                            add_if(
                                first,
                                self.extract_length != Some(total),
                                ChangeModel::Length(total),
                            ),
                            current > self.max_extracted,
                            ChangeModel::Position(current),
                        ).push(ChangeModel::Message(Bar::Extract, ""@)),
                    )
                }
            },
            IndexProgress::Merging => (
                MultiStageProgressView { diff_finished: true, extract_finished: true, ..self },
                add_if(
                    add_if(
                        seq![
                            ChangeModel::Finish(Bar::Scan, "Done"@),
                            ChangeModel::Finish(Bar::Diff, "Done"@),
                        ],
                        !self.extract_finished,
                        ChangeModel::Finish(Bar::Extract, "Done"@),
                    ).push(ChangeModel::Message(Bar::Merge, "Merging..."@)),
                    self.enabled,
                    ChangeModel::Tick(Bar::Merge),
                ),
            ),
        }
    }

    /// Bars that show nothing yet, on a terminal that shows them or not.
    pub fn new(enabled: bool) -> (r: Self)
        ensures
            r == MultiStageProgressView::start(enabled),
    {
        MultiStageProgressView {
            enabled,
            max_extracted: 0,
            extract_length: None,
            diff_finished: false,
            extract_finished: false,
            is_finished: false,
        }
    }

    /// Bars that are not shown.
    pub fn hidden() -> (r: Self)
        ensures
            r == MultiStageProgressView::start(false),
    {
        MultiStageProgressView::new(false)
    }

    /// Takes a report.
    pub fn handle_progress(&mut self, p: IndexProgress) -> (r: Vec<BarChange>)
        ensures
            ({
                let want = old(self).progressed(p);
                *final(self) == want.0 && change_models(r@) == want.1
            }),
    {
        let ghost want = self.progressed(p);
        let mut v: Vec<BarChange> = Vec::new();
        match p {
            IndexProgress::Scanning { count } => {
                let mut m = text::show_usize(count);
                m.append(" files found...");
                v.push(BarChange::Message(Bar::Scan, m));
            },
            IndexProgress::Diffing => {
                v.push(BarChange::Finish(Bar::Scan, "Done".to_string()));
                v.push(BarChange::Message(Bar::Diff, "Detecting...".to_string()));
                if self.enabled {
                    v.push(BarChange::Tick(Bar::Diff));
                }
            },
            IndexProgress::Extracting { current, total } => {
                if !self.diff_finished {
                    v.push(BarChange::Finish(Bar::Scan, "Done".to_string()));
                    v.push(BarChange::Finish(Bar::Diff, "Done".to_string()));
                    self.diff_finished = true;
                }
                if total == 0 {
                    v.push(BarChange::Finish(Bar::Extract, "Done (0 changes)".to_string()));
                    self.extract_finished = true;
                } else {
                    let same = match self.extract_length {
                        Some(n) => n == total,
                        None => false,
                    };
                    if !same {
                        v.push(BarChange::Length(total));
                        self.extract_length = Some(total);
                    }
                    if current > self.max_extracted {
                        v.push(BarChange::Position(current));
                        self.max_extracted = current;
                    }
                    v.push(BarChange::Message(Bar::Extract, "".to_string()));
                }
            },
            IndexProgress::Merging => {
                v.push(BarChange::Finish(Bar::Scan, "Done".to_string()));
                v.push(BarChange::Finish(Bar::Diff, "Done".to_string()));
                self.diff_finished = true;
                if !self.extract_finished {
                    v.push(BarChange::Finish(Bar::Extract, "Done".to_string()));
                    self.extract_finished = true;
                }
                v.push(BarChange::Message(Bar::Merge, "Merging...".to_string()));
                if self.enabled {
                    v.push(BarChange::Tick(Bar::Merge));
                }
            },
        }
        proof {
            assert(change_models(v@) =~= want.1);
        }
        v
    }

    /// Takes the end of indexing.
    pub fn finish(&mut self) -> (r: Vec<BarChange>)
        ensures
            *final(self) == (MultiStageProgressView {
                diff_finished: true,
                extract_finished: true,
                is_finished: true,
                ..*old(self)
            }),
            change_models(r@) == seq![
                ChangeModel::Finish(Bar::Scan, "Done"@),
                ChangeModel::Finish(Bar::Diff, "Done"@),
                ChangeModel::Finish(Bar::Extract, "Done"@),
                ChangeModel::Finish(Bar::Merge, "Done"@),
            ],
    {
        self.diff_finished = true;
        self.extract_finished = true;
        self.is_finished = true;
        let mut v: Vec<BarChange> = Vec::new();
        v.push(BarChange::Finish(Bar::Scan, "Done".to_string()));
        v.push(BarChange::Finish(Bar::Diff, "Done".to_string()));
        v.push(BarChange::Finish(Bar::Extract, "Done".to_string()));
        v.push(BarChange::Finish(Bar::Merge, "Done".to_string()));
        proof {
            assert(change_models(v@) =~= seq![
                ChangeModel::Finish(Bar::Scan, "Done"@),
                ChangeModel::Finish(Bar::Diff, "Done"@),
                ChangeModel::Finish(Bar::Extract, "Done"@),
                ChangeModel::Finish(Bar::Merge, "Done"@),
            ]);
        }
        v
    }

    /// Takes the end of a scan that nothing was written for.
    pub fn finish_dry_run(&mut self) -> (r: Vec<BarChange>)
        ensures
            *final(self) == (MultiStageProgressView {
                diff_finished: true,
                extract_finished: true,
                is_finished: true,
                ..*old(self)
            }),
            change_models(r@) == seq![
                ChangeModel::Finish(Bar::Scan, "Done (dry-run)"@),
                ChangeModel::FinishAndClear(Bar::Diff),
                ChangeModel::FinishAndClear(Bar::Extract),
                ChangeModel::FinishAndClear(Bar::Merge),
            ],
    {
        self.diff_finished = true;
        self.extract_finished = true;
        self.is_finished = true;
        let mut v: Vec<BarChange> = Vec::new();
        v.push(BarChange::Finish(Bar::Scan, "Done (dry-run)".to_string()));
        v.push(BarChange::FinishAndClear(Bar::Diff));
        v.push(BarChange::FinishAndClear(Bar::Extract));
        v.push(BarChange::FinishAndClear(Bar::Merge));
        proof {
            assert(change_models(v@) =~= seq![
                ChangeModel::Finish(Bar::Scan, "Done (dry-run)"@),
                ChangeModel::FinishAndClear(Bar::Diff),
                ChangeModel::FinishAndClear(Bar::Extract),
                ChangeModel::FinishAndClear(Bar::Merge),
            ]);
        }
        v
    }

    /// What happens to bars that are given up: those that are shown and not finished stay as
    /// they are.
    pub fn give_up(&self) -> (r: Vec<BarChange>)
        ensures
            change_models(r@) == if self.enabled && !self.is_finished {
                seq![
                    ChangeModel::Abandon(Bar::Scan),
                    ChangeModel::Abandon(Bar::Diff),
                    ChangeModel::Abandon(Bar::Extract),
                    ChangeModel::Abandon(Bar::Merge),
                ]
            } else {
                seq![]
            },
    {
        let mut v: Vec<BarChange> = Vec::new();
        if self.enabled && !self.is_finished {
            v.push(BarChange::Abandon(Bar::Scan));
            v.push(BarChange::Abandon(Bar::Diff));
            v.push(BarChange::Abandon(Bar::Extract));
            v.push(BarChange::Abandon(Bar::Merge));
        }
        proof {
            if self.enabled && !self.is_finished {
                assert(change_models(v@) =~= seq![
                    ChangeModel::Abandon(Bar::Scan),
                    ChangeModel::Abandon(Bar::Diff),
                    ChangeModel::Abandon(Bar::Extract),
                    ChangeModel::Abandon(Bar::Merge),
                ]);
            } else {
                assert(change_models(v@) =~= seq![]);
            }
        }
        v
    }
}

/// However reports come in, the bar of the extraction never moves back: what is shown is the
/// largest number that was reported.
pub proof fn law_extraction_never_moves_back(v: MultiStageProgressView, p: IndexProgress)
    ensures
        v.progressed(p).0.max_extracted >= v.max_extracted,
        forall|i: int|
            0 <= i < v.progressed(p).1.len() ==> (#[trigger] v.progressed(p).1[i] matches
                ChangeModel::Position(n) ==> n > v.max_extracted),
{
}

} // verus!
