use vstd::prelude::*;

use crate::event::{targets_view, TargetView, WorktreeTarget};
use crate::text::views;

verus! {

/// What started a hook run.
#[derive(Debug)]
pub enum Trigger {
    /// A herdr event, by name (`worktree.created`, `workspace.created`, …).
    Event(String),
    /// The workspace action; `force` re-applies even to a claimed worktree.
    Apply { force: bool },
}

/// A [`Trigger`] with the event name as text.
pub enum TriggerView {
    Event(Seq<char>),
    Apply { force: bool },
}

impl View for Trigger {
    type V = TriggerView;

    open spec fn view(&self) -> TriggerView {
        match self {
            Trigger::Event(name) => TriggerView::Event(name@),
            Trigger::Apply { force } => TriggerView::Apply { force: *force },
        }
    }
}

/// How a hook run ended.
#[derive(Debug, Clone, Copy, PartialEq, Eq)]
pub enum Outcome {
    /// Nothing in scope is backed by a worktree.
    NoWorktree,
    /// The workspace is the main checkout, never a target.
    MainCheckout,
    /// The checkout is older than the freshness window: an existing worktree
    /// was opened, not a new one created.
    Stale,
    /// Another event already claimed (and applied to) this worktree.
    AlreadyApplied,
    /// Files were copied and commands run.
    Applied,
    /// Copying or a command failed.
    Failed,
}

/// What the run needs done next.
#[derive(Debug, Clone, Copy, PartialEq, Eq)]
pub enum Step {
    /// Find the worktree the run is about; answer with [`Input::Target`].
    ResolveTarget,
    /// Load the configuration and open the claim store; answer with [`Input::Prepared`].
    Prepare,
    /// See whether the checkout was created within the freshness window;
    /// answer with [`Input::Fresh`].
    CheckFreshness,
    /// Try to claim the worktree; answer with [`Input::Claimed`].
    AcquireClaim,
    /// Copy the files and run the commands; answer with [`Input::HooksRan`].
    /// `holds_claim` says whether this run took the claim itself (a forced
    /// manual run may go ahead on a claim another run holds).
    RunHooks { holds_claim: bool },
    /// Give the claim back so that the next event retries; answer with [`Input::Released`].
    ReleaseClaim,
    /// Nothing more to do.
    Done(Outcome),
}

/// The answer to a [`Step`].
#[derive(Debug, Clone, Copy, PartialEq, Eq)]
pub enum Input {
    /// `None`: no worktree; `Some(linked)`: a worktree, linked or the main checkout.
    Target(Option<bool>),
    Prepared,
    Fresh(bool),
    /// Whether this run took the claim.
    Claimed(bool),
    /// Whether copying and the commands succeeded.
    HooksRan(bool),
    Released,
}

/// The one event that means "this worktree did not exist a moment ago".
pub open spec fn created_event() -> Seq<char> {
    "worktree.created"@
}

/// Every trigger but `worktree.created` needs the freshness guard.
pub open spec fn needs_freshness(t: TriggerView) -> bool {
    match t {
        TriggerView::Event(name) => name != created_event(),
        TriggerView::Apply { .. } => false,
    }
}

/// The manual action with `--force` runs whether or not it got the claim.
pub open spec fn runs_unclaimed(t: TriggerView) -> bool {
    match t {
        TriggerView::Event(_) => false,
        TriggerView::Apply { force } => force,
    }
}

/// The step after `s` once `i` is known. An answer that does not fit the
/// step leaves the run where it is.
pub open spec fn next_step(t: TriggerView, s: Step, i: Input) -> Step {
    match (s, i) {
        (Step::ResolveTarget, Input::Target(None)) => Step::Done(Outcome::NoWorktree),
        (Step::ResolveTarget, Input::Target(Some(linked))) => if linked {
            Step::Prepare
        } else {
            Step::Done(Outcome::MainCheckout)
        },
        (Step::Prepare, Input::Prepared) => if needs_freshness(t) {
            Step::CheckFreshness
        } else {
            Step::AcquireClaim
        },
        (Step::CheckFreshness, Input::Fresh(fresh)) => if fresh {
            Step::AcquireClaim
        } else {
            Step::Done(Outcome::Stale)
        },
        (Step::AcquireClaim, Input::Claimed(claimed)) => if claimed {
            Step::RunHooks { holds_claim: true }
        } else if runs_unclaimed(t) {
            Step::RunHooks { holds_claim: false }
        } else {
            Step::Done(Outcome::AlreadyApplied)
        },
        (Step::RunHooks { holds_claim }, Input::HooksRan(ok)) => if ok {
            Step::Done(Outcome::Applied)
        } else if holds_claim {
            Step::ReleaseClaim
        } else {
            Step::Done(Outcome::Failed)
        },
        (Step::ReleaseClaim, Input::Released) => Step::Done(Outcome::Failed),
        _ => s,
    }
}

/// Where a run started by `t` stands after the answers `inputs`.
pub open spec fn run_spec(t: TriggerView, inputs: Seq<Input>) -> Step
    decreases inputs.len(),
{
    if inputs.len() == 0 {
        Step::ResolveTarget
    } else {
        next_step(t, run_spec(t, inputs.drop_last()), inputs.last())
    }
}

/// One hook run: the decisions between herdr's event and the copies and
/// commands. The caller does what [`HookRun::step`] asks and reports back
/// with [`HookRun::advance`].
pub struct HookRun {
    trigger: Trigger,
    step: Step,
}

impl HookRun {
    /// The trigger this run was started by.
    pub closed spec fn trigger_view(&self) -> TriggerView {
        self.trigger@
    }

    /// Where the run stands.
    pub closed spec fn step_view(&self) -> Step {
        self.step
    }

    /// A run for `trigger`; its first step is to find the worktree.
    pub fn new(trigger: Trigger) -> (run: HookRun)
        ensures
            run.trigger_view() == trigger@,
            run.step_view() == Step::ResolveTarget,
    {
        HookRun { trigger, step: Step::ResolveTarget }
    }

    /// The trigger this run was started by.
    pub fn trigger(&self) -> (t: &Trigger)
        ensures
            t@ == self.trigger_view(),
    {
        &self.trigger
    }

    /// What the run needs done next.
    pub fn step(&self) -> (s: Step)
        ensures
            s == self.step_view(),
    {
        self.step
    }

    /// Takes the answer to the current step and says what comes next.
    pub fn advance(&mut self, input: Input) -> (s: Step)
        ensures
            final(self).trigger_view() == old(self).trigger_view(),
            final(self).step_view() == next_step(old(self).trigger_view(), old(self).step_view(), input),
            s == final(self).step_view(),
    {
        let next = match (self.step, input) {
            (Step::ResolveTarget, Input::Target(None)) => Step::Done(Outcome::NoWorktree),
            (Step::ResolveTarget, Input::Target(Some(linked))) => if linked {
                Step::Prepare
            } else {
                Step::Done(Outcome::MainCheckout)
            },
            (Step::Prepare, Input::Prepared) => if self.needs_freshness() {
                Step::CheckFreshness
            } else {
                Step::AcquireClaim
            },
            (Step::CheckFreshness, Input::Fresh(fresh)) => if fresh {
                Step::AcquireClaim
            } else {
                Step::Done(Outcome::Stale)
            },
            (Step::AcquireClaim, Input::Claimed(claimed)) => {
                let forced = match &self.trigger {
                    Trigger::Event(_) => false,
                    Trigger::Apply { force } => *force,
                };
                if claimed {
                    Step::RunHooks { holds_claim: true }
                } else if forced {
                    Step::RunHooks { holds_claim: false }
                } else {
                    Step::Done(Outcome::AlreadyApplied)
                }
            },
            (Step::RunHooks { holds_claim }, Input::HooksRan(ok)) => if ok {
                Step::Done(Outcome::Applied)
            } else if holds_claim {
                Step::ReleaseClaim
            } else {
                Step::Done(Outcome::Failed)
            },
            (Step::ReleaseClaim, Input::Released) => Step::Done(Outcome::Failed),
            (s, _) => s,
        };
        self.step = next;
        next
    }

    /// Whether this run's trigger needs the freshness guard.
    fn needs_freshness(&self) -> (b: bool)
        ensures
            b == needs_freshness(self.trigger_view()),
    {
        match &self.trigger {
            Trigger::Event(name) => {
                let created = "worktree.created".to_owned();
                *name != created
            },
            Trigger::Apply { .. } => false,
        }
    }
}


/// How old a checkout is, as the filesystem and the clock tell it.
#[derive(Debug, Clone, Copy, PartialEq, Eq)]
pub enum CheckoutAge {
    /// The checkout is missing, or neither its creation nor its modification
    /// time can be read.
    Unknown,
    /// Its time lies in the future: clock skew, not an old checkout.
    InFuture,
    /// It was created (or, failing that, modified) this long ago.
    Elapsed { secs: u64, nanos: u32 },
}

/// A checkout of age `age` counts as new under a window of `window_secs`
/// seconds: its age is at most the window.
pub open spec fn is_fresh_spec(age: CheckoutAge, window_secs: u64) -> bool {
    match age {
        CheckoutAge::Unknown => false,
        CheckoutAge::InFuture => true,
        CheckoutAge::Elapsed { secs, nanos } => secs < window_secs || (secs == window_secs && nanos
            == 0),
    }
}

/// Whether a checkout of age `age` was created within `window_secs` seconds.
pub fn is_fresh(age: CheckoutAge, window_secs: u64) -> (fresh: bool)
    ensures
        fresh == is_fresh_spec(age, window_secs),
        match age {
            CheckoutAge::Elapsed { secs, nanos } => nanos < 1_000_000_000 ==> (fresh <==> secs
                * 1_000_000_000 + nanos <= window_secs * 1_000_000_000),
            CheckoutAge::InFuture => fresh,
            CheckoutAge::Unknown => !fresh,
        },
{
    match age {
        CheckoutAge::Unknown => false,
        CheckoutAge::InFuture => true,
        CheckoutAge::Elapsed { secs, nanos } => secs < window_secs || (secs == window_secs && nanos
            == 0),
    }
}

/// A checkout is new exactly when its age, as a duration, is at most the
/// configured window, whatever the window: every age below it counts, and
/// anything longer does not.
pub proof fn law_fresh_within_the_window(secs: u64, nanos: u32, window_secs: u64)
    requires
        nanos < 1_000_000_000,
    ensures
        is_fresh_spec((CheckoutAge::Elapsed { secs, nanos }), window_secs) <==> secs * 1_000_000_000
            + nanos <= window_secs * 1_000_000_000,
        secs < window_secs ==> is_fresh_spec((CheckoutAge::Elapsed { secs, nanos }), window_secs),
        secs > window_secs ==> !is_fresh_spec((CheckoutAge::Elapsed { secs, nanos }), window_secs),
{
}

/// The checkouts a session start marks as already applied: every linked
/// worktree among `ts`, in order.
pub open spec fn seed_paths_spec(ts: Seq<TargetView>) -> Seq<Seq<char>>
    decreases ts.len(),
{
    if ts.len() == 0 {
        Seq::empty()
    } else if ts.last().is_linked_worktree {
        seed_paths_spec(ts.drop_last()).push(ts.last().checkout_path)
    } else {
        seed_paths_spec(ts.drop_last())
    }
}

/// Which checkouts are seeded depends on each target alone: adding a target
/// at the end adds its path exactly when it is a linked worktree, whatever
/// its repository or the targets before it; the main checkout never is.
pub proof fn law_seed_each_linked_worktree(ts: Seq<TargetView>, t: TargetView)
    ensures
        seed_paths_spec(Seq::empty()) == Seq::<Seq<char>>::empty(),
        seed_paths_spec(ts.push(t)) == (if t.is_linked_worktree {
            seed_paths_spec(ts).push(t.checkout_path)
        } else {
            seed_paths_spec(ts)
        }),
{
    assert(ts.push(t).drop_last() =~= ts);
}

/// The seeded paths are the checkout paths of the linked targets, in order.
pub proof fn law_seeded_paths_are_the_linked_ones(ts: Seq<TargetView>)
    ensures
        seed_paths_spec(ts) == ts.filter(|t: TargetView| t.is_linked_worktree).map_values(
            |t: TargetView| t.checkout_path,
        ),
    decreases ts.len(),
{
    reveal(Seq::filter);
    if ts.len() > 0 {
        law_seeded_paths_are_the_linked_ones(ts.drop_last());
        let f = ts.drop_last().filter(|t: TargetView| t.is_linked_worktree);
        assert(f.push(ts.last()).map_values(|t: TargetView| t.checkout_path) =~= f.map_values(
            |t: TargetView| t.checkout_path,
        ).push(ts.last().checkout_path));
    }
}

/// Runs once per session before any worktree can be created: everything
/// that already exists is marked as done, otherwise `workspace.focused` on a
/// restored worktree would look exactly like a brand new one. These are the
/// checkouts to claim.
pub fn seed_paths(targets: &Vec<WorktreeTarget>) -> (paths: Vec<String>)
    ensures
        views(paths@) == seed_paths_spec(targets_view(targets@)),
{
    let mut paths: Vec<String> = Vec::new();
    let mut i: usize = 0;
    while i < targets.len()
        invariant
            i <= targets@.len(),
            views(paths@) == seed_paths_spec(targets_view(targets@).take(i as int)),
        decreases targets@.len() - i,
    {
        assert(targets_view(targets@).take(i + 1).drop_last() =~= targets_view(targets@).take(i as int));
        assert(targets_view(targets@).take(i + 1).last() == targets@[i as int]@);
        if targets[i].is_linked_worktree {
            let ghost before = paths@;
            paths.push(targets[i].checkout_path.clone());
            assert(views(paths@) =~= views(before).push(targets@[i as int].checkout_path@));
        }
        i = i + 1;
    }
    assert(targets_view(targets@).take(i as int) =~= targets_view(targets@));
    paths
}


/// Once a run is done, no further answer changes how it ended.
pub proof fn law_done_is_final(t: TriggerView, inputs: Seq<Input>, more: Seq<Input>)
    requires
        run_spec(t, inputs) is Done,
    ensures
        run_spec(t, inputs + more) == run_spec(t, inputs),
    decreases more.len(),
{
    if more.len() == 0 {
        assert(inputs + more =~= inputs);
    } else {
        law_done_is_final(t, inputs, more.drop_last());
        assert((inputs + more).drop_last() =~= inputs + more.drop_last());
    }
}

/// The main checkout itself is always skipped: a run whose worktree turns
/// out not to be linked ends there, whatever comes after.
pub proof fn law_main_checkout_is_skipped(t: TriggerView, more: Seq<Input>)
    ensures
        run_spec(t, seq![Input::Target(Some(false))] + more) == Step::Done(Outcome::MainCheckout),
{
    let first = seq![Input::Target(Some(false))];
    assert(first.drop_last() =~= Seq::<Input>::empty());
    assert(run_spec(t, first.drop_last()) == Step::ResolveTarget);
    assert(first.last() == Input::Target(Some(false)));
    law_done_is_final(t, first, more);
}

/// What a run has been told by the time it reaches a step: anything past
/// finding the worktree follows a linked worktree; claiming follows a fresh
/// checkout whenever the trigger needs the freshness guard; the hooks run
/// only after this run took the claim (or the manual action was forced),
/// and a run that holds the claim was told it took it; the claim is given
/// back only by a run that took it, after its hooks failed.
pub open spec fn history_allows(t: TriggerView, inputs: Seq<Input>, s: Step) -> bool {
    let told = |i: Input| inputs.contains(i);
    let linked = told(Input::Target(Some(true)));
    let fresh_if_needed = needs_freshness(t) ==> told(Input::Fresh(true));
    let claimed = told(Input::Claimed(true)) || (runs_unclaimed(t) && told(Input::Claimed(false)));
    match s {
        Step::ResolveTarget => true,
        Step::Prepare | Step::CheckFreshness => linked,
        Step::AcquireClaim => linked && fresh_if_needed,
        Step::RunHooks { holds_claim } => linked && fresh_if_needed && claimed && (holds_claim
            ==> told(Input::Claimed(true))),
        Step::ReleaseClaim => linked && fresh_if_needed && told(Input::Claimed(true))
            && told(Input::HooksRan(false)),
        Step::Done(Outcome::Applied) => linked && fresh_if_needed && claimed && told(
            Input::HooksRan(true),
        ),
        Step::Done(_) => true,
    }
}

proof fn lemma_told_grows(inputs: Seq<Input>, x: Input, i: Input)
    requires
        inputs.contains(x),
    ensures
        inputs.push(i).contains(x),
{
    let k = choose|k: int| 0 <= k < inputs.len() && inputs[k] == x;
    assert(inputs.push(i)[k] == x);
}

proof fn lemma_told_last(inputs: Seq<Input>, i: Input)
    ensures
        inputs.push(i).contains(i),
{
    assert(inputs.push(i)[inputs.len() as int] == i);
}

/// Every step a run reaches is backed by what it was told: the hooks never
/// run for the main checkout, for a stale checkout under an event other than
/// `worktree.created`, or for a worktree another event has claimed (unless
/// the manual action is forced), and a claim is only given back by the
/// event run that took it, after its hooks failed.
pub proof fn law_steps_follow_answers(t: TriggerView, inputs: Seq<Input>)
    ensures
        history_allows(t, inputs, run_spec(t, inputs)),
    decreases inputs.len(),
{
    if inputs.len() > 0 {
        let prev = inputs.drop_last();
        let i = inputs.last();
        law_steps_follow_answers(t, prev);
        assert(prev.push(i) =~= inputs);
        assert forall|x: Input| prev.contains(x) implies inputs.contains(x) by {
            lemma_told_grows(prev, x, i);
        }
        lemma_told_last(prev, i);
    }
}

/// `worktree.created` unambiguously means the worktree is new, so its runs
/// never check freshness.
pub proof fn law_created_event_skips_freshness(inputs: Seq<Input>)
    ensures
        run_spec(TriggerView::Event(created_event()), inputs) != Step::CheckFreshness,
    decreases inputs.len(),
{
    if inputs.len() > 0 {
        law_created_event_skips_freshness(inputs.drop_last());
    }
}

/// A non-zero exit fails the run and releases the claim, so the next event
/// retries: a run that took the claim itself (an event or the manual action)
/// gives it back before it ends failed; only a forced manual run that went
/// ahead on a claim it does not hold has nothing to give back.
pub proof fn law_failure_releases_the_claim(t: TriggerView, inputs: Seq<Input>)
    requires
        run_spec(t, inputs) is RunHooks,
    ensures
        run_spec(t, inputs)->holds_claim ==> run_spec(t, inputs.push(Input::HooksRan(false)))
            == Step::ReleaseClaim,
        run_spec(t, inputs)->holds_claim ==> run_spec(
            t,
            inputs.push(Input::HooksRan(false)).push(Input::Released),
        ) == Step::Done(Outcome::Failed),
        !run_spec(t, inputs)->holds_claim ==> runs_unclaimed(t) && run_spec(
            t,
            inputs.push(Input::HooksRan(false)),
        ) == Step::Done(Outcome::Failed),
        !run_spec(t, inputs)->holds_claim ==> inputs.contains(Input::Claimed(false)),
{
    law_steps_follow_answers(t, inputs);
    lemma_unclaimed_run_was_refused(t, inputs);
    assert(inputs.push(Input::HooksRan(false)).drop_last() =~= inputs);
    assert(inputs.push(Input::HooksRan(false)).push(Input::Released).drop_last() =~= inputs.push(
        Input::HooksRan(false),
    ));
}

/// A run that goes ahead without holding the claim is a forced manual run
/// whose claim attempt was refused.
proof fn lemma_unclaimed_run_was_refused(t: TriggerView, inputs: Seq<Input>)
    ensures
        run_spec(t, inputs) == (Step::RunHooks { holds_claim: false }) ==> runs_unclaimed(t)
            && inputs.contains(Input::Claimed(false)),
    decreases inputs.len(),
{
    if inputs.len() > 0 {
        let prev = inputs.drop_last();
        lemma_unclaimed_run_was_refused(t, prev);
        assert(prev.push(inputs.last()) =~= inputs);
        if prev.contains(Input::Claimed(false)) {
            lemma_told_grows(prev, Input::Claimed(false), inputs.last());
        }
        lemma_told_last(prev, inputs.last());
    }
}

/// Runs once per worktree: a run that finds the worktree already claimed
/// stops without running anything, unless it is the forced manual action.
pub proof fn law_claimed_worktree_is_not_reapplied(t: TriggerView, inputs: Seq<Input>)
    requires
        run_spec(t, inputs) == Step::AcquireClaim,
    ensures
        !runs_unclaimed(t) ==> run_spec(t, inputs.push(Input::Claimed(false))) == Step::Done(
            Outcome::AlreadyApplied,
        ),
        runs_unclaimed(t) ==> run_spec(t, inputs.push(Input::Claimed(false))) == (Step::RunHooks {
            holds_claim: false,
        }),
        run_spec(t, inputs.push(Input::Claimed(true))) == (Step::RunHooks { holds_claim: true }),
{
    assert(inputs.push(Input::Claimed(false)).drop_last() =~= inputs);
    assert(inputs.push(Input::Claimed(true)).drop_last() =~= inputs);
}

} // verus!

verus! {

/// Whether a run at step `s` holds the claim and is inside the hooks (running
/// them, or giving the claim back after they failed).
pub open spec fn holds_claim(s: Step) -> bool {
    s == (Step::RunHooks { holds_claim: true }) || s == Step::ReleaseClaim
}

/// Runs on one checkout that share the claim store, as the claim file for
/// that checkout makes them: creating it with `O_EXCL` is one atomic
/// test-and-set, and only removing it clears it.
pub struct SharedRuns {
    /// The claim file for the checkout exists.
    pub claimed: bool,
    /// What started each run.
    pub triggers: Seq<TriggerView>,
    /// Where each run stands.
    pub steps: Seq<Step>,
    /// Some run that held the claim saw its hooks succeed.
    pub applied: bool,
}

/// One thing that happens to the shared runs.
pub enum SharedEvent {
    /// Run `i` gets an answer other than a claim or a release.
    Answer(int, Input),
    /// Run `i` tries to create the claim file.
    Acquire(int),
    /// Run `i` removes the claim file.
    Release(int),
    /// The startup seeding creates the claim file.
    Seed,
}

/// The shared runs after `e`. Claim answers come only from creating the
/// claim file, releases only from removing it.
pub open spec fn shared_next(s: SharedRuns, e: SharedEvent) -> SharedRuns {
    match e {
        SharedEvent::Answer(i, input) => if 0 <= i < s.steps.len() && !(input is Claimed)
            && !(input is Released) {
            SharedRuns {
                steps: s.steps.update(i, next_step(s.triggers[i], s.steps[i], input)),
                applied: s.applied || (s.steps[i] == (Step::RunHooks { holds_claim: true })
                    && input == Input::HooksRan(true)),
                ..s
            }
        } else {
            s
        },
        SharedEvent::Acquire(i) => if 0 <= i < s.steps.len() && s.steps[i] == Step::AcquireClaim {
            SharedRuns {
                claimed: true,
                steps: s.steps.update(
                    i,
                    next_step(s.triggers[i], s.steps[i], Input::Claimed(!s.claimed)),
                ),
                ..s
            }
        } else {
            s
        },
        SharedEvent::Release(i) => if 0 <= i < s.steps.len() && s.steps[i] == Step::ReleaseClaim {
            SharedRuns {
                claimed: false,
                steps: s.steps.update(i, next_step(s.triggers[i], s.steps[i], Input::Released)),
                ..s
            }
        } else {
            s
        },
        SharedEvent::Seed => SharedRuns { claimed: true, ..s },
    }
}

/// Runs started by `triggers`, none of them past finding its worktree, with
/// the claim file present or not.
pub open spec fn shared_start(claimed: bool, triggers: Seq<TriggerView>) -> SharedRuns {
    SharedRuns {
        claimed,
        triggers,
        steps: Seq::new(triggers.len(), |i: int| Step::ResolveTarget),
        applied: false,
    }
}

/// The shared runs after the events `events`, in order.
pub open spec fn shared_run(s: SharedRuns, events: Seq<SharedEvent>) -> SharedRuns
    decreases events.len(),
{
    if events.len() == 0 {
        s
    } else {
        shared_next(shared_run(s, events.drop_last()), events.last())
    }
}

proof fn lemma_shared_run_keeps_triggers(s: SharedRuns, events: Seq<SharedEvent>)
    ensures
        shared_run(s, events).triggers == s.triggers,
    decreases events.len(),
{
    if events.len() > 0 {
        lemma_shared_run_keeps_triggers(s, events.drop_last());
    }
}

/// What holds of shared runs at every moment: at most one run holds the
/// claim, the claim file exists while it does, only the forced manual action
/// runs hooks without the claim, and once a run that held the claim applied
/// its hooks the claim file stays and nobody holds it.
pub open spec fn shared_ok(s: SharedRuns) -> bool {
    &&& s.triggers.len() == s.steps.len()
    &&& forall|i: int, j: int|
        0 <= i < s.steps.len() && 0 <= j < s.steps.len() && holds_claim(#[trigger] s.steps[i])
            && holds_claim(#[trigger] s.steps[j]) ==> i == j
    &&& forall|i: int| 0 <= i < s.steps.len() && holds_claim(#[trigger] s.steps[i]) ==> s.claimed
    &&& forall|i: int|
        0 <= i < s.steps.len() && #[trigger] s.steps[i] == (Step::RunHooks { holds_claim: false })
            ==> runs_unclaimed(s.triggers[i])
    &&& s.applied ==> s.claimed && forall|i: int|
        0 <= i < s.steps.len() ==> !holds_claim(#[trigger] s.steps[i])
}

proof fn lemma_shared_next_ok(s: SharedRuns, e: SharedEvent)
    requires
        shared_ok(s),
    ensures
        shared_ok(shared_next(s, e)),
{
    let n = shared_next(s, e);
    match e {
        SharedEvent::Answer(i, input) => {
            if 0 <= i < s.steps.len() && !(input is Claimed) && !(input is Released) {
                assert forall|j: int| 0 <= j < n.steps.len() && j != i implies n.steps[j]
                    == s.steps[j] by {}
                assert(holds_claim(n.steps[i]) ==> holds_claim(s.steps[i]));
                assert(n.steps[i] == (Step::RunHooks { holds_claim: false }) ==> s.steps[i] == (
                Step::RunHooks { holds_claim: false }));
                if n.applied && !s.applied {
                    assert(!holds_claim(n.steps[i]));
                    assert forall|j: int| 0 <= j < n.steps.len() implies !holds_claim(
                        #[trigger] n.steps[j],
                    ) by {
                        if j != i && holds_claim(n.steps[j]) {
                            assert(holds_claim(s.steps[j]));
                            assert(holds_claim(s.steps[i]));
                        }
                    }
                }
            }
        },
        SharedEvent::Acquire(i) => {
            if 0 <= i < s.steps.len() && s.steps[i] == Step::AcquireClaim {
                assert forall|j: int| 0 <= j < n.steps.len() && j != i implies n.steps[j]
                    == s.steps[j] by {}
                if s.claimed {
                    assert(!holds_claim(n.steps[i]));
                } else {
                    assert forall|j: int| 0 <= j < n.steps.len() && j != i implies !holds_claim(
                        #[trigger] n.steps[j],
                    ) by {
                        assert(!holds_claim(s.steps[j]));
                    }
                }
            }
        },
        SharedEvent::Release(i) => {
            if 0 <= i < s.steps.len() && s.steps[i] == Step::ReleaseClaim {
                assert forall|j: int| 0 <= j < n.steps.len() && j != i implies n.steps[j]
                    == s.steps[j] by {}
                assert forall|j: int| 0 <= j < n.steps.len() implies !holds_claim(
                    #[trigger] n.steps[j],
                ) by {
                    if j != i {
                        assert(!holds_claim(s.steps[j]) || j == i);
                    }
                }
            }
        },
        SharedEvent::Seed => {},
    }
}

/// Overlapping events cannot cause a double apply: however the runs on one
/// checkout interleave, at most one of them is inside the hooks with the
/// claim at a time, and only the forced manual action runs without it.
pub proof fn law_one_claimed_run_at_a_time(claimed: bool, triggers: Seq<TriggerView>, events: Seq<SharedEvent>)
    ensures
        shared_ok(shared_run(shared_start(claimed, triggers), events)),
    decreases events.len(),
{
    if events.len() == 0 {
        let s = shared_start(claimed, triggers);
        assert forall|i: int| 0 <= i < s.steps.len() implies #[trigger] s.steps[i] == Step::ResolveTarget by {}
    } else {
        law_one_claimed_run_at_a_time(claimed, triggers, events.drop_last());
        lemma_shared_next_ok(shared_run(shared_start(claimed, triggers), events.drop_last()), events.last());
    }
}

/// Runs once per worktree: once a run that held the claim has applied its
/// hooks, no run other than the forced manual action is inside the hooks,
/// and any such run that tries to claim the checkout afterwards stops as
/// already applied.
pub proof fn law_applied_checkout_is_not_reapplied(
    claimed: bool,
    triggers: Seq<TriggerView>,
    events: Seq<SharedEvent>,
    i: int,
)
    requires
        shared_run(shared_start(claimed, triggers), events).applied,
        0 <= i < triggers.len(),
        !runs_unclaimed(triggers[i]),
    ensures
        !(shared_run(shared_start(claimed, triggers), events).steps[i] is RunHooks),
        shared_run(shared_start(claimed, triggers), events).steps[i] != Step::ReleaseClaim,
        shared_run(shared_start(claimed, triggers), events).steps[i] == Step::AcquireClaim ==> shared_run(
            shared_start(claimed, triggers),
            events.push(SharedEvent::Acquire(i)),
        ).steps[i] == Step::Done(Outcome::AlreadyApplied),
{
    let s = shared_run(shared_start(claimed, triggers), events);
    law_one_claimed_run_at_a_time(claimed, triggers, events);
    lemma_shared_run_keeps_triggers(shared_start(claimed, triggers), events);
    assert(!holds_claim(s.steps[i]));
    if s.steps[i] is RunHooks {
        assert(s.steps[i] == (Step::RunHooks { holds_claim: false }));
    }
    assert(events.push(SharedEvent::Acquire(i)).drop_last() =~= events);
}

} // verus!
