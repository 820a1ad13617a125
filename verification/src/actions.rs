use vstd::prelude::*;

use crate::config::{Resolved, ResolvedView};
use crate::event::{TargetView, WorktreeTarget};
use crate::paths::{has_root, named_segments, path_segments};
use crate::text::{chars_of, views};

verus! {

/// Why a `copy` entry was refused.
#[derive(Debug, PartialEq, Eq)]
pub enum CopyError {
    /// The entry is the empty string.
    EmptyEntry,
    /// The entry is absolute or climbs out with `..`; it would write outside
    /// the worktree.
    EscapingEntry(String),
    /// The entry names a directory in the main checkout.
    DirectoryEntry(String),
}

/// A `copy` entry that stays inside the checkout: not empty, not absolute,
/// and without a `..` piece.
pub open spec fn entry_is_valid(entry: Seq<char>) -> bool {
    &&& entry.len() > 0
    &&& !has_root(entry)
    &&& !named_segments(entry).contains(".."@)
}

/// Entries name files inside the checkout; an absolute or `..` entry would
/// write outside the worktree herdr just created. On success the entry is
/// handed back as the path to use relative to both checkouts.
pub fn validate_entry(entry: &str) -> (r: Result<String, CopyError>)
    ensures
        entry@.len() == 0 ==> r == Err::<String, CopyError>(CopyError::EmptyEntry),
        entry@.len() > 0 && !entry_is_valid(entry@) ==> (r matches Err(CopyError::EscapingEntry(e))
            && e@ == entry@),
        entry_is_valid(entry@) ==> (r matches Ok(p) && p@ == entry@),
{
    let chars = chars_of(entry);
    if chars.len() == 0 {
        return Err(CopyError::EmptyEntry);
    }
    if chars[0] == '/' {
        return Err(CopyError::EscapingEntry(entry.to_owned()));
    }
    let segs = path_segments(entry);
    let parent = "..".to_owned();
    let mut i: usize = 0;
    while i < segs.len()
        invariant
            i <= segs@.len(),
            entry@.len() > 0,
            !has_root(entry@),
            parent@ == ".."@,
            views(segs@) == named_segments(entry@),
            forall|j: int| 0 <= j < i ==> views(segs@)[j] != ".."@,
        decreases segs@.len() - i,
    {
        if segs[i] == parent {
            assert(views(segs@)[i as int] == ".."@);
            return Err(CopyError::EscapingEntry(entry.to_owned()));
        }
        i = i + 1;
    }
    proof {
        assert forall|j: int| 0 <= j < views(segs@).len() implies views(segs@)[j] != ".."@ by {}
    }
    Ok(entry.to_owned())
}

/// What the filesystem says about one entry, in both checkouts.
#[derive(Debug, Clone, Copy)]
pub struct EntryProbe {
    /// The entry exists in the main checkout (symlinks followed).
    pub source_exists: bool,
    /// The entry is a directory in the main checkout (symlinks followed).
    pub source_is_dir: bool,
    /// Something is at the entry in the worktree, a dangling symlink included.
    pub destination_exists: bool,
}

/// What to do with one entry.
#[derive(Debug, Clone, Copy, PartialEq, Eq)]
pub enum CopyStep {
    /// The main checkout has no such file: report it, copy nothing.
    ReportMissing,
    /// The worktree already has it: leave it alone.
    KeepExisting,
    /// Copy the file (never link it), creating parent directories.
    Copy,
}

/// Decides one entry. An entry that already exists in the worktree is left
/// untouched: the point is to seed a fresh checkout, not to overwrite local edits.
pub fn plan_entry(entry: &str, probe: EntryProbe) -> (r: Result<CopyStep, CopyError>)
    ensures
        !probe.source_exists ==> r == Ok::<CopyStep, CopyError>(CopyStep::ReportMissing),
        probe.source_exists && probe.source_is_dir ==> (r matches Err(CopyError::DirectoryEntry(e))
            && e@ == entry@),
        probe.source_exists && !probe.source_is_dir && probe.destination_exists ==> r == Ok::<
            CopyStep,
            CopyError,
        >(CopyStep::KeepExisting),
        probe.source_exists && !probe.source_is_dir && !probe.destination_exists ==> r == Ok::<
            CopyStep,
            CopyError,
        >(CopyStep::Copy),
{
    if !probe.source_exists {
        Ok(CopyStep::ReportMissing)
    } else if probe.source_is_dir {
        Err(CopyError::DirectoryEntry(entry.to_owned()))
    } else if probe.destination_exists {
        Ok(CopyStep::KeepExisting)
    } else {
        Ok(CopyStep::Copy)
    }
}

/// What a copy run did with each entry.
#[derive(Debug, PartialEq, Eq)]
pub struct CopyReport {
    pub copied: Vec<String>,
    pub skipped_existing: Vec<String>,
    pub missing_source: Vec<String>,
}

/// What a [`CopyReport`] holds, as texts.
pub struct CopyReportView {
    pub copied: Seq<Seq<char>>,
    pub skipped_existing: Seq<Seq<char>>,
    pub missing_source: Seq<Seq<char>>,
}

impl View for CopyReport {
    type V = CopyReportView;

    open spec fn view(&self) -> CopyReportView {
        CopyReportView {
            copied: views(self.copied@),
            skipped_existing: views(self.skipped_existing@),
            missing_source: views(self.missing_source@),
        }
    }
}

impl Default for CopyReport {
    fn default() -> (r: CopyReport)
        ensures
            r@.copied.len() == 0,
            r@.skipped_existing.len() == 0,
            r@.missing_source.len() == 0,
    {
        CopyReport { copied: Vec::new(), skipped_existing: Vec::new(), missing_source: Vec::new() }
    }
}

impl CopyReport {
    /// Notes that `step` was carried out for `entry`.
    pub fn record(&mut self, entry: &str, step: CopyStep)
        ensures
            final(self)@.copied == (if step == CopyStep::Copy {
                old(self)@.copied.push(entry@)
            } else {
                old(self)@.copied
            }),
            final(self)@.skipped_existing == (if step == CopyStep::KeepExisting {
                old(self)@.skipped_existing.push(entry@)
            } else {
                old(self)@.skipped_existing
            }),
            final(self)@.missing_source == (if step == CopyStep::ReportMissing {
                old(self)@.missing_source.push(entry@)
            } else {
                old(self)@.missing_source
            }),
    {
        let ghost before = *self;
        match step {
            CopyStep::Copy => {
                self.copied.push(entry.to_owned());
                assert(views(self.copied@) =~= views(before.copied@).push(entry@));
            },
            CopyStep::KeepExisting => {
                self.skipped_existing.push(entry.to_owned());
                assert(views(self.skipped_existing@) =~= views(before.skipped_existing@).push(entry@));
            },
            CopyStep::ReportMissing => {
                self.missing_source.push(entry.to_owned());
                assert(views(self.missing_source@) =~= views(before.missing_source@).push(entry@));
            },
        }
    }
}


impl CopyError {
    /// The text the error is reported with.
    pub fn message(&self) -> (m: String)
        ensures
            m@ == (match self {
                CopyError::EmptyEntry => "empty copy entry"@,
                CopyError::EscapingEntry(e) => e@ + ": must be a relative path without `..`"@,
                CopyError::DirectoryEntry(e) => e@ + ": directories are not supported"@,
            }),
    {
        match self {
            CopyError::EmptyEntry => "empty copy entry".to_owned(),
            CopyError::EscapingEntry(e) => {
                let mut m = e.clone();
                m.append(": must be a relative path without `..`");
                m
            },
            CopyError::DirectoryEntry(e) => {
                let mut m = e.clone();
                m.append(": directories are not supported");
                m
            },
        }
    }
}

/// The variables a hook command runs with: the main checkout, the worktree,
/// the repository name, the branch (empty when detached or unknown) and the
/// event that triggered the run.
pub open spec fn command_env_spec(
    t: crate::event::TargetView,
    event: Seq<char>,
) -> Seq<(Seq<char>, Seq<char>)> {
    seq![
        ("MAIN"@, t.repo_root),
        ("WORKTREE"@, t.checkout_path),
        ("REPO"@, t.repo_name),
        ("BRANCH"@, match t.branch {
            Some(b) => b,
            None => Seq::empty(),
        }),
        ("EVENT"@, event),
    ]
}

/// The views of a list of name/value pairs.
pub open spec fn pairs_view(v: Seq<(String, String)>) -> Seq<(Seq<char>, Seq<char>)> {
    v.map_values(|p: (String, String)| (p.0@, p.1@))
}

/// Every configured command runs in the new worktree with the paths exposed
/// as environment variables, so hooks stay repository-agnostic one-liners.
pub fn command_env(target: &WorktreeTarget, event: &str) -> (env: Vec<(String, String)>)
    ensures
        pairs_view(env@) == command_env_spec(target@, event@),
{
    let branch = match &target.branch {
        Some(b) => b.clone(),
        None => String::new(),
    };
    let env = vec![
        ("MAIN".to_owned(), target.repo_root.clone()),
        ("WORKTREE".to_owned(), target.checkout_path.clone()),
        ("REPO".to_owned(), target.repo_name.clone()),
        ("BRANCH".to_owned(), branch),
        ("EVENT".to_owned(), event.to_owned()),
    ];
    assert(pairs_view(env@) =~= command_env_spec(target@, event@));
    env
}

/// The branch that `git rev-parse --abbrev-ref HEAD` printed, if it names one:
/// the output trimmed, and neither empty nor `HEAD` (a detached HEAD).
pub open spec fn branch_from_output_spec(stdout: Seq<char>) -> Option<Seq<char>> {
    let b = crate::text::trim_spec(stdout);
    if b.len() == 0 || b == "HEAD"@ {
        None
    } else {
        Some(b)
    }
}

/// Only `worktree.created` carries the branch, and which of the concurrent
/// creation events wins the claim is a race, so the branch is read back from
/// the checkout; this reads git's answer.
pub fn branch_from_output(stdout: &str) -> (b: Option<String>)
    ensures
        match b {
            Some(s) => branch_from_output_spec(stdout@) == Some(s@),
            None => branch_from_output_spec(stdout@).is_none(),
        },
{
    let branch = crate::text::trim(stdout);
    let head = "HEAD".to_owned();
    if branch.as_str().is_empty() || branch == head {
        None
    } else {
        Some(branch)
    }
}

/// What a [`CopyError`] says, as text.
pub enum CopyErrorView {
    EmptyEntry,
    EscapingEntry(Seq<char>),
    DirectoryEntry(Seq<char>),
}

impl View for CopyError {
    type V = CopyErrorView;

    open spec fn view(&self) -> CopyErrorView {
        match self {
            CopyError::EmptyEntry => CopyErrorView::EmptyEntry,
            CopyError::EscapingEntry(e) => CopyErrorView::EscapingEntry(e@),
            CopyError::DirectoryEntry(e) => CopyErrorView::DirectoryEntry(e@),
        }
    }
}

/// The error a refused entry is reported with.
pub open spec fn entry_error(entry: Seq<char>) -> CopyErrorView {
    if entry.len() == 0 {
        CopyErrorView::EmptyEntry
    } else {
        CopyErrorView::EscapingEntry(entry)
    }
}

/// How seeding one worktree ended.
#[derive(Debug, Clone, Copy, PartialEq, Eq)]
pub enum ApplyOutcome {
    /// Every entry was handled and every command exited with success.
    Succeeded,
    /// An entry was refused, a copy failed, or a command did.
    Failed,
}

/// Where seeding one worktree stands.
#[derive(Debug, Clone, Copy, PartialEq, Eq)]
pub enum ApplyStage {
    ReadBranch,
    ProbeEntry(usize),
    CopyEntry(usize),
    RunCommand(usize),
    Done(ApplyOutcome),
}

/// What seeding one worktree needs done next.
#[derive(Debug, PartialEq, Eq)]
pub enum ApplyStep {
    /// The event did not carry the branch: read it back from the checkout
    /// (`git rev-parse --abbrev-ref HEAD`); answer with [`ApplyInput::BranchRead`].
    ReadBranch,
    /// Look at copy entry `index` (a path relative to both checkouts) in the
    /// main checkout and in the worktree; answer with [`ApplyInput::Probed`].
    ProbeEntry { index: usize },
    /// Copy entry `index` (never link it), creating parent directories;
    /// answer with [`ApplyInput::EntryCopied`].
    CopyEntry { index: usize },
    /// Run command `index` in the worktree with these environment variables;
    /// answer with [`ApplyInput::CommandRan`].
    RunCommand { index: usize, env: Vec<(String, String)> },
    /// Nothing more to do.
    Done(ApplyOutcome),
}

/// The answer to an [`ApplyStep`].
#[derive(Debug)]
pub enum ApplyInput {
    /// The branch git reported, if it names one.
    BranchRead(Option<String>),
    /// What the filesystem says about the entry.
    Probed(EntryProbe),
    /// Whether the copy succeeded.
    EntryCopied(bool),
    /// Whether the command exited with success.
    CommandRan(bool),
}

/// An [`ApplyInput`] with its branch as text.
pub enum ApplyInputView {
    BranchRead(Option<Seq<char>>),
    Probed(EntryProbe),
    EntryCopied(bool),
    CommandRan(bool),
}

impl View for ApplyInput {
    type V = ApplyInputView;

    open spec fn view(&self) -> ApplyInputView {
        match self {
            ApplyInput::BranchRead(b) => ApplyInputView::BranchRead(crate::config::opt_string(*b)),
            ApplyInput::Probed(p) => ApplyInputView::Probed(*p),
            ApplyInput::EntryCopied(ok) => ApplyInputView::EntryCopied(*ok),
            ApplyInput::CommandRan(ok) => ApplyInputView::CommandRan(*ok),
        }
    }
}

/// Seeding one worktree: the resolved lists, the target (with the branch the
/// commands will see), the event name, where the run stands, what the copy
/// did so far, and the entry error that stopped it, if one did.
pub struct ApplyRun {
    resolved: Resolved,
    target: WorktreeTarget,
    event: String,
    stage: ApplyStage,
    report: CopyReport,
    error: Option<CopyError>,
}

/// What an [`ApplyRun`] holds, as texts.
pub struct ApplyRunView {
    pub resolved: ResolvedView,
    pub target: TargetView,
    pub event: Seq<char>,
    pub stage: ApplyStage,
    pub report: CopyReportView,
    pub error: Option<CopyErrorView>,
}

impl View for ApplyRun {
    type V = ApplyRunView;

    closed spec fn view(&self) -> ApplyRunView {
        ApplyRunView {
            resolved: self.resolved@,
            target: self.target@,
            event: self.event@,
            stage: self.stage,
            report: self.report@,
            error: match self.error {
                Some(e) => Some(e@),
                None => None,
            },
        }
    }
}

/// `v` about to run command `k`, or done when there is none left.
pub open spec fn enter_commands(v: ApplyRunView, k: int) -> ApplyRunView {
    ApplyRunView {
        stage: if k < v.resolved.run.len() {
            ApplyStage::RunCommand(k as usize)
        } else {
            ApplyStage::Done(ApplyOutcome::Succeeded)
        },
        ..v
    }
}

/// `v` about to handle copy entry `k`: refused when it would leave the
/// worktree, the commands next when every entry is handled.
pub open spec fn enter_copy(v: ApplyRunView, k: int) -> ApplyRunView {
    if k >= v.resolved.copy.len() {
        enter_commands(v, 0)
    } else if !entry_is_valid(v.resolved.copy[k]) {
        ApplyRunView {
            stage: ApplyStage::Done(ApplyOutcome::Failed),
            error: Some(entry_error(v.resolved.copy[k])),
            ..v
        }
    } else {
        ApplyRunView { stage: ApplyStage::ProbeEntry(k as usize), ..v }
    }
}

/// `r` with `entry` noted in the list that `step` belongs to.
pub open spec fn recorded(r: CopyReportView, entry: Seq<char>, step: CopyStep) -> CopyReportView {
    CopyReportView {
        copied: if step == CopyStep::Copy { r.copied.push(entry) } else { r.copied },
        skipped_existing: if step == CopyStep::KeepExisting {
            r.skipped_existing.push(entry)
        } else {
            r.skipped_existing
        },
        missing_source: if step == CopyStep::ReportMissing {
            r.missing_source.push(entry)
        } else {
            r.missing_source
        },
    }
}

/// `v` with its report replaced by `r`.
pub open spec fn with_report(v: ApplyRunView, r: CopyReportView) -> ApplyRunView {
    ApplyRunView { report: r, ..v }
}

/// `v` once `i` is known. The branch git reports is the one the commands
/// see; entries are handled in order, and the first refused entry or failed
/// copy stops the run; an existing destination is never copied over; the
/// commands run in order after the copy, and the first failing one stops
/// the run. An answer that does not fit the stage changes nothing (nor does
/// one for an entry or command past its list, which no run reaches).
pub open spec fn apply_next(v: ApplyRunView, i: ApplyInputView) -> ApplyRunView {
    let r = v.report;
    match (v.stage, i) {
        (ApplyStage::ReadBranch, ApplyInputView::BranchRead(b)) => enter_copy(
            ApplyRunView {
                target: TargetView {
                    repo_name: v.target.repo_name,
                    repo_root: v.target.repo_root,
                    checkout_path: v.target.checkout_path,
                    is_linked_worktree: v.target.is_linked_worktree,
                    branch: b,
                },
                ..v
            },
            0,
        ),
        (ApplyStage::ProbeEntry(k), ApplyInputView::Probed(p)) if k < v.resolved.copy.len() => {
            let e = v.resolved.copy[k as int];
            if !p.source_exists {
                enter_copy(
                    with_report(v, CopyReportView { missing_source: r.missing_source.push(e), ..r }),
                    k + 1,
                )
            } else if p.source_is_dir {
                ApplyRunView {
                    stage: ApplyStage::Done(ApplyOutcome::Failed),
                    error: Some(CopyErrorView::DirectoryEntry(e)),
                    ..v
                }
            } else if p.destination_exists {
                enter_copy(
                    with_report(v, CopyReportView { skipped_existing: r.skipped_existing.push(e), ..r }),
                    k + 1,
                )
            } else {
                ApplyRunView { stage: ApplyStage::CopyEntry(k), ..v }
            }
        },
        (ApplyStage::CopyEntry(k), ApplyInputView::EntryCopied(ok)) if k < v.resolved.copy.len() => if ok {
            enter_copy(
                with_report(
                    v,
                    CopyReportView { copied: r.copied.push(v.resolved.copy[k as int]), ..r },
                ),
                k + 1,
            )
        } else {
            ApplyRunView { stage: ApplyStage::Done(ApplyOutcome::Failed), ..v }
        },
        (ApplyStage::RunCommand(k), ApplyInputView::CommandRan(ok)) if k < v.resolved.run.len() => if ok {
            enter_commands(v, k + 1)
        } else {
            ApplyRunView { stage: ApplyStage::Done(ApplyOutcome::Failed), ..v }
        },
        _ => v,
    }
}

/// `s` is what a run that stands at `v` asks for; a command gets the
/// environment of [`command_env_spec`] for the run's target and event.
pub open spec fn step_of(s: ApplyStep, v: ApplyRunView) -> bool {
    match (s, v.stage) {
        (ApplyStep::ReadBranch, ApplyStage::ReadBranch) => true,
        (ApplyStep::ProbeEntry { index }, ApplyStage::ProbeEntry(k)) => index == k,
        (ApplyStep::CopyEntry { index }, ApplyStage::CopyEntry(k)) => index == k,
        (ApplyStep::RunCommand { index, env }, ApplyStage::RunCommand(k)) => index == k
            && pairs_view(env@) == command_env_spec(v.target, v.event),
        (ApplyStep::Done(a), ApplyStage::Done(b)) => a == b,
        _ => false,
    }
}

/// The view of a run that has not started: the lists, the target, the
/// event, an empty report, no error.
pub open spec fn apply_start(resolved: ResolvedView, target: TargetView, event: Seq<char>) -> ApplyRunView {
    let v = ApplyRunView {
        resolved,
        target,
        event,
        stage: ApplyStage::ReadBranch,
        report: CopyReportView {
            copied: Seq::empty(),
            skipped_existing: Seq::empty(),
            missing_source: Seq::empty(),
        },
        error: None,
    };
    if target.branch.is_none() {
        v
    } else {
        enter_copy(v, 0)
    }
}

/// Where a run that stands at `v` gets to after the answers `inputs`.
pub open spec fn apply_trace(v: ApplyRunView, inputs: Seq<ApplyInputView>) -> ApplyRunView
    decreases inputs.len(),
{
    if inputs.len() == 0 {
        v
    } else {
        apply_next(apply_trace(v, inputs.drop_last()), inputs.last())
    }
}

impl ApplyRun {
    /// Seeding `target` with `resolved` for the event `event`. The branch is
    /// read back from the checkout first when the event did not carry it.
    pub fn new(resolved: Resolved, target: WorktreeTarget, event: &str) -> (r: ApplyRun)
        ensures
            r@ == apply_start(resolved@, target@, event@),
    {
        let read_branch = target.branch.is_none();
        let mut run = ApplyRun {
            resolved,
            target,
            event: event.to_owned(),
            stage: ApplyStage::ReadBranch,
            report: CopyReport::default(),
            error: None,
        };
        proof {
            assert(run@.report.copied =~= Seq::<Seq<char>>::empty());
            assert(run@.report.skipped_existing =~= Seq::<Seq<char>>::empty());
            assert(run@.report.missing_source =~= Seq::<Seq<char>>::empty());
        }
        if !read_branch {
            run.enter_copy(0);
        }
        run
    }

    /// Notes in the report that `step` was carried out for entry `k`.
    fn record_entry(&mut self, k: usize, step: CopyStep)
        requires
            k < old(self).resolved.copy@.len(),
        ensures
            final(self)@ == with_report(
                old(self)@,
                recorded(old(self)@.report, old(self)@.resolved.copy[k as int], step),
            ),
    {
        let entry = self.resolved.copy[k].clone();
        let mut report = CopyReport::default();
        std::mem::swap(&mut report, &mut self.report);
        report.record(entry.as_str(), step);
        self.report = report;
    }

    /// Moves to command `k`, or to the end when there is none left.
    fn enter_commands(&mut self, k: usize)
        ensures
            final(self)@ == enter_commands(old(self)@, k as int),
    {
        if k < self.resolved.run.len() {
            self.stage = ApplyStage::RunCommand(k);
        } else {
            self.stage = ApplyStage::Done(ApplyOutcome::Succeeded);
        }
    }

    /// Moves to copy entry `k`, refusing it when it would leave the worktree.
    fn enter_copy(&mut self, k: usize)
        ensures
            final(self)@ == enter_copy(old(self)@, k as int),
    {
        if k >= self.resolved.copy.len() {
            self.enter_commands(0);
            return;
        }
        match validate_entry(self.resolved.copy[k].as_str()) {
            Ok(_) => {
                self.stage = ApplyStage::ProbeEntry(k);
            },
            Err(e) => {
                self.stage = ApplyStage::Done(ApplyOutcome::Failed);
                self.error = Some(e);
            },
        }
    }

    /// What the run needs done next.
    pub fn step(&self) -> (s: ApplyStep)
        ensures
            step_of(s, self@),
    {
        match self.stage {
            ApplyStage::ReadBranch => ApplyStep::ReadBranch,
            ApplyStage::ProbeEntry(k) => ApplyStep::ProbeEntry { index: k },
            ApplyStage::CopyEntry(k) => ApplyStep::CopyEntry { index: k },
            ApplyStage::RunCommand(k) => ApplyStep::RunCommand {
                index: k,
                env: command_env(&self.target, self.event.as_str()),
            },
            ApplyStage::Done(outcome) => ApplyStep::Done(outcome),
        }
    }

    /// Takes the answer to the current step and says what comes next.
    pub fn advance(&mut self, input: ApplyInput) -> (s: ApplyStep)
        ensures
            final(self)@ == apply_next(old(self)@, input@),
            step_of(s, final(self)@),
    {
        self.take_answer(input);
        self.step()
    }

    /// Moves the run on by the answer `input`.
    fn take_answer(&mut self, input: ApplyInput)
        ensures
            final(self)@ == apply_next(old(self)@, input@),
    {
        let stage = self.stage;
        match input {
            ApplyInput::BranchRead(b) => {
                if let ApplyStage::ReadBranch = stage {
                    self.target.branch = b;
                    self.enter_copy(0);
                }
            },
            ApplyInput::Probed(p) => {
                if let ApplyStage::ProbeEntry(k) = stage {
                    if k < self.resolved.copy.len() {
                        match plan_entry(self.resolved.copy[k].as_str(), p) {
                            Ok(CopyStep::Copy) => {
                                self.stage = ApplyStage::CopyEntry(k);
                            },
                            Ok(step) => {
                                self.record_entry(k, step);
                                self.enter_copy(k + 1);
                            },
                            Err(e) => {
                                self.stage = ApplyStage::Done(ApplyOutcome::Failed);
                                self.error = Some(e);
                            },
                        }
                    }
                }
            },
            ApplyInput::EntryCopied(ok) => {
                if let ApplyStage::CopyEntry(k) = stage {
                    if k < self.resolved.copy.len() {
                        if ok {
                            self.record_entry(k, CopyStep::Copy);
                            self.enter_copy(k + 1);
                        } else {
                            self.stage = ApplyStage::Done(ApplyOutcome::Failed);
                        }
                    }
                }
            },
            ApplyInput::CommandRan(ok) => {
                if let ApplyStage::RunCommand(k) = stage {
                    if k < self.resolved.run.len() {
                        if ok {
                            self.enter_commands(k + 1);
                        } else {
                            self.stage = ApplyStage::Done(ApplyOutcome::Failed);
                        }
                    }
                }
            },
        }
    }

    /// The worktree being seeded, with the branch the commands see.
    pub fn target(&self) -> (t: &WorktreeTarget)
        ensures
            t@ == self@.target,
    {
        &self.target
    }

    /// The entries to copy.
    pub fn copy_entries(&self) -> (entries: &Vec<String>)
        ensures
            views(entries@) == self@.resolved.copy,
    {
        &self.resolved.copy
    }

    /// The commands to run, in order.
    pub fn commands(&self) -> (commands: &Vec<String>)
        ensures
            views(commands@) == self@.resolved.run,
    {
        &self.resolved.run
    }

    /// What the copy did so far.
    pub fn report(&self) -> (r: &CopyReport)
        ensures
            r@ == self@.report,
    {
        &self.report
    }

    /// The entry error that stopped the run, if one did.
    pub fn error(&self) -> (e: Option<&CopyError>)
        ensures
            match e {
                Some(err) => self@.error == Some(err@),
                None => self@.error.is_none(),
            },
    {
        match &self.error {
            Some(err) => Some(err),
            None => None,
        }
    }
}

/// Re-running by hand never overwrites: while every look at an entry finds
/// something already at its destination (as after a run that copied it),
/// the run asks for no copy and its report gains no copied entry.
pub proof fn law_present_destinations_are_not_copied(v: ApplyRunView, inputs: Seq<ApplyInputView>)
    requires
        !(v.stage is CopyEntry),
        forall|j: int|
            0 <= j < inputs.len() ==> (#[trigger] inputs[j] matches ApplyInputView::Probed(p)
                ==> p.destination_exists),
    ensures
        !(apply_trace(v, inputs).stage is CopyEntry),
        apply_trace(v, inputs).report.copied == v.report.copied,
    decreases inputs.len(),
{
    if inputs.len() > 0 {
        let prev = inputs.drop_last();
        assert forall|j: int| 0 <= j < prev.len() implies (#[trigger] prev[j] matches ApplyInputView::Probed(
            p,
        ) ==> p.destination_exists) by {
            assert(prev[j] == inputs[j]);
        }
        law_present_destinations_are_not_copied(v, prev);
        assert(inputs.last() == inputs[inputs.len() - 1]);
    }
}

/// What a look at `e` finds when `fs` says what both checkouts held before
/// the run and the run has since copied `copied`: a copied entry is now in
/// the worktree, and nothing else changed.
pub open spec fn seen(fs: spec_fn(Seq<char>) -> EntryProbe, copied: Seq<Seq<char>>, e: Seq<char>) -> EntryProbe {
    if copied.contains(e) {
        EntryProbe { destination_exists: true, ..fs(e) }
    } else {
        fs(e)
    }
}

/// What the checkouts hold after a run that started on `fs` and copied `copied`.
pub open spec fn after_copies(fs: spec_fn(Seq<char>) -> EntryProbe, copied: Seq<Seq<char>>) -> spec_fn(
    Seq<char>,
) -> EntryProbe {
    |e: Seq<char>| seen(fs, copied, e)
}

/// Each look that the run at `v` takes at an entry along `inputs` is answered
/// by the checkouts: `fs`, as the run's own copies have left it so far.
pub open spec fn probes_from(
    v: ApplyRunView,
    inputs: Seq<ApplyInputView>,
    fs: spec_fn(Seq<char>) -> EntryProbe,
) -> bool
    decreases inputs.len(),
{
    if inputs.len() == 0 {
        true
    } else {
        let w = apply_trace(v, inputs.drop_last());
        &&& probes_from(v, inputs.drop_last(), fs)
        &&& match (w.stage, inputs.last()) {
            (ApplyStage::ProbeEntry(k), ApplyInputView::Probed(p)) => k < w.resolved.copy.len() ==> p
                == seen(fs, w.report.copied, w.resolved.copy[k as int]),
            _ => true,
        }
    }
}

/// How many copy entries the run at `v` has dealt with.
spec fn entries_done(v: ApplyRunView) -> int {
    match v.stage {
        ApplyStage::ReadBranch => 0,
        ApplyStage::ProbeEntry(k) => k as int,
        ApplyStage::CopyEntry(k) => k as int,
        _ => v.resolved.copy.len() as int,
    }
}

/// After a run that started on `fs` and copied `copied`, the worktree has
/// entry `e` wherever the main checkout has it.
spec fn in_place(fs: spec_fn(Seq<char>) -> EntryProbe, copied: Seq<Seq<char>>, e: Seq<char>) -> bool {
    !fs(e).source_exists || fs(e).destination_exists || copied.contains(e)
}

/// What holds along a run that starts on `fs`.
spec fn first_run_inv(w: ApplyRunView, fs: spec_fn(Seq<char>) -> EntryProbe) -> bool {
    &&& w.resolved.copy.len() <= usize::MAX
    &&& w.stage != ApplyStage::Done(ApplyOutcome::Failed) ==> forall|j: int|
        0 <= j < entries_done(w) ==> #[trigger] in_place(fs, w.report.copied, w.resolved.copy[j])
    &&& forall|e: Seq<char>| #[trigger]
        w.report.copied.contains(e) ==> fs(e).source_exists && w.resolved.copy.contains(e)
    &&& (w.stage matches ApplyStage::ProbeEntry(k) ==> k < w.resolved.copy.len())
    &&& (w.stage matches ApplyStage::CopyEntry(k) ==> k < w.resolved.copy.len() && fs(
        w.resolved.copy[k as int],
    ).source_exists)
}

proof fn lemma_enter_copy_keeps(w: ApplyRunView, k: int)
    requires
        0 <= k <= usize::MAX,
    ensures
        enter_copy(w, k).resolved == w.resolved,
        enter_copy(w, k).report == w.report,
        enter_copy(w, k).stage matches ApplyStage::ProbeEntry(j) ==> j == k && k < w.resolved.copy.len(),
        !(enter_copy(w, k).stage is CopyEntry),
        enter_copy(w, k).stage != ApplyStage::Done(ApplyOutcome::Failed) ==> entries_done(
            enter_copy(w, k),
        ) == k || k >= w.resolved.copy.len(),
{
}

proof fn lemma_first_run_step(w: ApplyRunView, i: ApplyInputView, fs: spec_fn(Seq<char>) -> EntryProbe)
    requires
        first_run_inv(w, fs),
        match (w.stage, i) {
            (ApplyStage::ProbeEntry(k), ApplyInputView::Probed(p)) => k < w.resolved.copy.len() ==> p
                == seen(fs, w.report.copied, w.resolved.copy[k as int]),
            _ => true,
        },
    ensures
        first_run_inv(apply_next(w, i), fs),
        apply_next(w, i).resolved == w.resolved,
{
    broadcast use vstd::seq_lib::lemma_seq_contains_after_push;

    let n = apply_next(w, i);
    let r = w.report;
    match (w.stage, i) {
        (ApplyStage::ReadBranch, ApplyInputView::BranchRead(b)) => {
            let t = ApplyRunView {
                target: TargetView { branch: b, ..w.target },
                ..w
            };
            lemma_enter_copy_keeps(t, 0);
        },
        (ApplyStage::ProbeEntry(k), ApplyInputView::Probed(p)) => {
            if k < w.resolved.copy.len() {
                let e = w.resolved.copy[k as int];
                if !p.source_exists {
                    let t = with_report(w, CopyReportView { missing_source: r.missing_source.push(e), ..r });
                    lemma_enter_copy_keeps(t, k + 1);
                    assert forall|j: int| 0 <= j < entries_done(n) && n.stage != ApplyStage::Done(
                        ApplyOutcome::Failed,
                    ) implies #[trigger] in_place(fs, n.report.copied, n.resolved.copy[j]) by {
                        if j < k {
                            assert(in_place(fs, w.report.copied, w.resolved.copy[j]));
                        }
                    }
                } else if p.source_is_dir {
                } else if p.destination_exists {
                    let t = with_report(
                        w,
                        CopyReportView { skipped_existing: r.skipped_existing.push(e), ..r },
                    );
                    lemma_enter_copy_keeps(t, k + 1);
                    assert forall|j: int| 0 <= j < entries_done(n) && n.stage != ApplyStage::Done(
                        ApplyOutcome::Failed,
                    ) implies #[trigger] in_place(fs, n.report.copied, n.resolved.copy[j]) by {
                        if j < k {
                            assert(in_place(fs, w.report.copied, w.resolved.copy[j]));
                        }
                    }
                } else {
                    assert forall|j: int| 0 <= j < entries_done(n) implies #[trigger] in_place(
                        fs,
                        n.report.copied,
                        n.resolved.copy[j],
                    ) by {
                        assert(in_place(fs, w.report.copied, w.resolved.copy[j]));
                    }
                }
            }
        },
        (ApplyStage::CopyEntry(k), ApplyInputView::EntryCopied(ok)) => {
            if k < w.resolved.copy.len() && ok {
                let e = w.resolved.copy[k as int];
                let t = with_report(w, CopyReportView { copied: r.copied.push(e), ..r });
                lemma_enter_copy_keeps(t, k + 1);
                assert forall|j: int| 0 <= j < entries_done(n) && n.stage != ApplyStage::Done(
                    ApplyOutcome::Failed,
                ) implies #[trigger] in_place(fs, n.report.copied, n.resolved.copy[j]) by {
                    if j < k {
                        assert(in_place(fs, w.report.copied, w.resolved.copy[j]));
                    }
                }
                assert forall|x: Seq<char>| #[trigger] n.report.copied.contains(x) implies fs(
                    x,
                ).source_exists && n.resolved.copy.contains(x) by {
                    if x != e {
                        assert(w.report.copied.contains(x));
                    } else {
                        assert(w.resolved.copy[k as int] == x);
                    }
                }
            }
        },
        (ApplyStage::RunCommand(k), ApplyInputView::CommandRan(ok)) => {
            assert forall|j: int| 0 <= j < entries_done(n) && n.stage != ApplyStage::Done(
                ApplyOutcome::Failed,
            ) implies #[trigger] in_place(fs, n.report.copied, n.resolved.copy[j]) by {
                assert(in_place(fs, w.report.copied, w.resolved.copy[j]));
            }
        },
        _ => {},
    }
}

proof fn lemma_first_run(v: ApplyRunView, inputs: Seq<ApplyInputView>, fs: spec_fn(Seq<char>) -> EntryProbe)
    requires
        first_run_inv(v, fs),
        probes_from(v, inputs, fs),
    ensures
        first_run_inv(apply_trace(v, inputs), fs),
        apply_trace(v, inputs).resolved == v.resolved,
    decreases inputs.len(),
{
    if inputs.len() > 0 {
        lemma_first_run(v, inputs.drop_last(), fs);
        lemma_first_run_step(apply_trace(v, inputs.drop_last()), inputs.last(), fs);
    }
}

proof fn lemma_start_inv(
    resolved: ResolvedView,
    target: TargetView,
    event: Seq<char>,
    fs: spec_fn(Seq<char>) -> EntryProbe,
)
    requires
        resolved.copy.len() <= usize::MAX,
    ensures
        first_run_inv(apply_start(resolved, target, event), fs),
        apply_start(resolved, target, event).resolved == resolved,
        apply_start(resolved, target, event).report.copied == Seq::<Seq<char>>::empty(),
{
    broadcast use vstd::seq_lib::lemma_seq_empty_contains_nothing;

    let v = ApplyRunView {
        resolved,
        target,
        event,
        stage: ApplyStage::ReadBranch,
        report: CopyReportView {
            copied: Seq::empty(),
            skipped_existing: Seq::empty(),
            missing_source: Seq::empty(),
        },
        error: None,
    };
    lemma_enter_copy_keeps(v, 0);
}

/// What holds along a run on checkouts where every entry the main checkout
/// has is already in the worktree.
spec fn rerun_inv(w: ApplyRunView, fs: spec_fn(Seq<char>) -> EntryProbe) -> bool {
    &&& w.resolved.copy.len() <= usize::MAX
    &&& w.report.copied == Seq::<Seq<char>>::empty()
    &&& !(w.stage is CopyEntry)
    &&& (w.stage matches ApplyStage::ProbeEntry(k) ==> k < w.resolved.copy.len())
    &&& w.stage != ApplyStage::Done(ApplyOutcome::Failed) ==> forall|j: int|
        0 <= j < entries_done(w) && #[trigger] fs(w.resolved.copy[j]).source_exists
            ==> w.report.skipped_existing.contains(w.resolved.copy[j])
}

proof fn lemma_rerun(v: ApplyRunView, inputs: Seq<ApplyInputView>, fs: spec_fn(Seq<char>) -> EntryProbe)
    requires
        rerun_inv(v, fs),
        forall|j: int| 0 <= j < v.resolved.copy.len() ==> !#[trigger] fs(v.resolved.copy[j]).source_exists
            || fs(v.resolved.copy[j]).destination_exists,
        probes_from(v, inputs, fs),
    ensures
        rerun_inv(apply_trace(v, inputs), fs),
        apply_trace(v, inputs).resolved == v.resolved,
    decreases inputs.len(),
{
    broadcast use vstd::seq_lib::lemma_seq_contains_after_push, vstd::seq_lib::lemma_seq_empty_contains_nothing;

    if inputs.len() > 0 {
        lemma_rerun(v, inputs.drop_last(), fs);
        let w = apply_trace(v, inputs.drop_last());
        let i = inputs.last();
        let n = apply_next(w, i);
        let r = w.report;
        match (w.stage, i) {
            (ApplyStage::ReadBranch, ApplyInputView::BranchRead(b)) => {
                let t = ApplyRunView {
                    target: TargetView { branch: b, ..w.target },
                    ..w
                };
                lemma_enter_copy_keeps(t, 0);
            },
            (ApplyStage::ProbeEntry(k), ApplyInputView::Probed(p)) => {
                let e = w.resolved.copy[k as int];
                assert(p == fs(e));
                assert(!fs(e).source_exists || fs(e).destination_exists);
                if !p.source_exists {
                    let t = with_report(w, CopyReportView { missing_source: r.missing_source.push(e), ..r });
                    lemma_enter_copy_keeps(t, k + 1);
                    assert forall|j: int| 0 <= j < entries_done(n) && #[trigger] fs(n.resolved.copy[j]).source_exists
                        && n.stage != ApplyStage::Done(ApplyOutcome::Failed)
                        implies n.report.skipped_existing.contains(n.resolved.copy[j]) by {
                        assert(j < k);
                    }
                } else if p.source_is_dir {
                } else {
                    let t = with_report(
                        w,
                        CopyReportView { skipped_existing: r.skipped_existing.push(e), ..r },
                    );
                    lemma_enter_copy_keeps(t, k + 1);
                    assert forall|j: int| 0 <= j < entries_done(n) && #[trigger] fs(n.resolved.copy[j]).source_exists
                        && n.stage != ApplyStage::Done(ApplyOutcome::Failed)
                        implies n.report.skipped_existing.contains(n.resolved.copy[j]) by {
                        if j < k {
                            assert(w.report.skipped_existing.contains(w.resolved.copy[j]));
                        }
                    }
                }
            },
            _ => {},
        }
    }
}

/// Re-running by hand copies nothing: after a run that succeeded, a second
/// run over the same lists, on checkouts that nothing else touched in
/// between, asks for no copy at all (so nothing is overwritten), reports no
/// copied entry, and, when it succeeds, reports each entry the first run
/// copied as already there.
pub proof fn law_rerun_copies_nothing(
    resolved: ResolvedView,
    target: TargetView,
    first_event: Seq<char>,
    second_event: Seq<char>,
    first: Seq<ApplyInputView>,
    second: Seq<ApplyInputView>,
    fs: spec_fn(Seq<char>) -> EntryProbe,
)
    requires
        resolved.copy.len() <= usize::MAX,
        probes_from(apply_start(resolved, target, first_event), first, fs),
        apply_trace(apply_start(resolved, target, first_event), first).stage == ApplyStage::Done(
            ApplyOutcome::Succeeded,
        ),
        probes_from(
            apply_start(resolved, target, second_event),
            second,
            after_copies(fs, apply_trace(apply_start(resolved, target, first_event), first).report.copied),
        ),
    ensures
        apply_trace(apply_start(resolved, target, second_event), second).report.copied == Seq::<
            Seq<char>,
        >::empty(),
        !(apply_trace(apply_start(resolved, target, second_event), second).stage is CopyEntry),
        apply_trace(apply_start(resolved, target, second_event), second).stage == ApplyStage::Done(
            ApplyOutcome::Succeeded,
        ) ==> forall|e: Seq<char>| #[trigger]
            apply_trace(apply_start(resolved, target, first_event), first).report.copied.contains(e)
                ==> apply_trace(
                apply_start(resolved, target, second_event),
                second,
            ).report.skipped_existing.contains(e),
{
    broadcast use vstd::seq_lib::lemma_seq_empty_contains_nothing;

    let s1 = apply_start(resolved, target, first_event);
    let w1 = apply_trace(s1, first);
    lemma_start_inv(resolved, target, first_event, fs);
    lemma_first_run(s1, first, fs);
    let copied = w1.report.copied;
    let fs2 = after_copies(fs, copied);
    let s2 = apply_start(resolved, target, second_event);
    lemma_start_inv(resolved, target, second_event, fs2);
    assert forall|j: int| 0 <= j < s2.resolved.copy.len() implies !#[trigger] fs2(s2.resolved.copy[j]).source_exists
        || fs2(s2.resolved.copy[j]).destination_exists by {
        assert(in_place(fs, copied, resolved.copy[j]));
    }
    let v2 = ApplyRunView {
        resolved,
        target,
        event: second_event,
        stage: ApplyStage::ReadBranch,
        report: CopyReportView {
            copied: Seq::empty(),
            skipped_existing: Seq::empty(),
            missing_source: Seq::empty(),
        },
        error: None,
    };
    lemma_enter_copy_keeps(v2, 0);
    assert(rerun_inv(s2, fs2));
    lemma_rerun(s2, second, fs2);
    let w2 = apply_trace(s2, second);
    if w2.stage == ApplyStage::Done(ApplyOutcome::Succeeded) {
        assert forall|e: Seq<char>| #[trigger] copied.contains(e) implies w2.report.skipped_existing.contains(e) by {
            assert(resolved.copy.contains(e));
            let j = choose|j: int| 0 <= j < resolved.copy.len() && resolved.copy[j] == e;
            assert(fs2(resolved.copy[j]).source_exists);
        }
    }
}

/// Once the last copy entry is dealt with and nothing failed, what comes next
/// depends on the command list alone, whatever the report holds (missing
/// sources only get reported): the first command when there is one, success
/// when there is none.
pub proof fn law_commands_follow_the_copy(v: ApplyRunView, k: int)
    requires
        k >= v.resolved.copy.len(),
    ensures
        enter_copy(v, k).stage == (if v.resolved.run.len() > 0 {
            ApplyStage::RunCommand(0)
        } else {
            ApplyStage::Done(ApplyOutcome::Succeeded)
        }),
        enter_copy(v, k).report == v.report,
        enter_copy(v, k).error == v.error,
{
}

/// Handling the last entry (it is missing, already there, or has just been
/// copied) hands over to the commands exactly as above: a run whose main
/// checkout has none of the files still runs its commands.
pub proof fn law_last_entry_leads_to_the_commands(v: ApplyRunView, i: ApplyInputView)
    requires
        v.resolved.copy.len() > 0,
        v.resolved.copy.len() <= usize::MAX,
        match (v.stage, i) {
            (ApplyStage::ProbeEntry(k), ApplyInputView::Probed(p)) => k + 1 == v.resolved.copy.len()
                && (!p.source_exists || (!p.source_is_dir && p.destination_exists)),
            (ApplyStage::CopyEntry(k), ApplyInputView::EntryCopied(ok)) => k + 1
                == v.resolved.copy.len() && ok,
            _ => false,
        },
    ensures
        apply_next(v, i).stage == (if v.resolved.run.len() > 0 {
            ApplyStage::RunCommand(0)
        } else {
            ApplyStage::Done(ApplyOutcome::Succeeded)
        }),
{
    let r = v.report;
    match (v.stage, i) {
        (ApplyStage::ProbeEntry(k), ApplyInputView::Probed(p)) => {
            let e = v.resolved.copy[k as int];
            if !p.source_exists {
                law_commands_follow_the_copy(
                    with_report(v, CopyReportView { missing_source: r.missing_source.push(e), ..r }),
                    k + 1,
                );
            } else {
                law_commands_follow_the_copy(
                    with_report(v, CopyReportView { skipped_existing: r.skipped_existing.push(e), ..r }),
                    k + 1,
                );
            }
        },
        (ApplyStage::CopyEntry(k), ApplyInputView::EntryCopied(ok)) => {
            let e = v.resolved.copy[k as int];
            law_commands_follow_the_copy(
                with_report(v, CopyReportView { copied: r.copied.push(e), ..r }),
                k + 1,
            );
        },
        _ => {},
    }
}

} // verus!
