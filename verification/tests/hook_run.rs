use herdr_worktree_hooks_plugin::event::WorktreeTarget;
use herdr_worktree_hooks_plugin::hooks::{
    is_fresh, seed_paths, CheckoutAge, HookRun, Input, Outcome, Step, Trigger,
};

fn run(trigger: Trigger, inputs: &[Input]) -> Step {
    let mut r = HookRun::new(trigger);
    let mut last = r.step();
    for i in inputs {
        last = r.advance(*i);
    }
    last
}

fn event(name: &str) -> Trigger {
    Trigger::Event(name.to_string())
}

#[test]
fn a_just_created_checkout_is_fresh() {
    assert!(is_fresh(CheckoutAge::Elapsed { secs: 0, nanos: 1_000 }, 300));
}

#[test]
fn a_checkout_outside_the_window_is_not_fresh() {
    assert!(!is_fresh(CheckoutAge::Elapsed { secs: 0, nanos: 1_000 }, 0));
}

#[test]
fn a_missing_checkout_is_not_fresh() {
    assert!(!is_fresh(CheckoutAge::Unknown, 300));
}

#[test]
fn clock_skew_counts_as_fresh_and_the_window_is_inclusive() {
    assert!(is_fresh(CheckoutAge::InFuture, 0));
    assert!(is_fresh(CheckoutAge::Elapsed { secs: 300, nanos: 0 }, 300));
    assert!(!is_fresh(CheckoutAge::Elapsed { secs: 300, nanos: 1 }, 300));
    assert!(!is_fresh(CheckoutAge::Elapsed { secs: 301, nanos: 0 }, 300));
}

#[test]
fn created_event_goes_straight_to_the_claim() {
    let step = run(
        event("worktree.created"),
        &[Input::Target(Some(true)), Input::Prepared],
    );
    assert_eq!(step, Step::AcquireClaim);
}

#[test]
fn other_events_check_freshness_and_skip_stale_checkouts() {
    let t = || event("workspace.created");
    assert_eq!(
        run(t(), &[Input::Target(Some(true)), Input::Prepared]),
        Step::CheckFreshness
    );
    assert_eq!(
        run(t(), &[Input::Target(Some(true)), Input::Prepared, Input::Fresh(false)]),
        Step::Done(Outcome::Stale)
    );
    assert_eq!(
        run(t(), &[Input::Target(Some(true)), Input::Prepared, Input::Fresh(true)]),
        Step::AcquireClaim
    );
}

#[test]
fn main_checkout_and_missing_worktree_stop_early() {
    assert_eq!(
        run(event("worktree.created"), &[Input::Target(Some(false)), Input::Prepared]),
        Step::Done(Outcome::MainCheckout)
    );
    assert_eq!(
        run(Trigger::Apply { force: true }, &[Input::Target(None)]),
        Step::Done(Outcome::NoWorktree)
    );
}

#[test]
fn second_event_for_a_claimed_worktree_is_skipped() {
    let inputs = [
        Input::Target(Some(true)),
        Input::Prepared,
        Input::Claimed(false),
    ];
    assert_eq!(
        run(event("worktree.created"), &inputs),
        Step::Done(Outcome::AlreadyApplied)
    );
    assert_eq!(
        run(Trigger::Apply { force: false }, &inputs),
        Step::Done(Outcome::AlreadyApplied)
    );
    assert_eq!(run(Trigger::Apply { force: true }, &inputs), Step::RunHooks { holds_claim: false });
}

#[test]
fn a_failing_run_releases_the_claim_it_took() {
    let mut inputs = vec![
        Input::Target(Some(true)),
        Input::Prepared,
        Input::Claimed(true),
        Input::HooksRan(false),
    ];
    assert_eq!(run(event("worktree.created"), &inputs), Step::ReleaseClaim);
    assert_eq!(run(Trigger::Apply { force: false }, &inputs), Step::ReleaseClaim);
    assert_eq!(run(Trigger::Apply { force: true }, &inputs), Step::ReleaseClaim);
    inputs.push(Input::Released);
    assert_eq!(run(event("worktree.created"), &inputs), Step::Done(Outcome::Failed));
    assert_eq!(run(Trigger::Apply { force: false }, &inputs), Step::Done(Outcome::Failed));
}

#[test]
fn a_forced_run_on_a_claim_it_does_not_hold_has_nothing_to_release() {
    let inputs = [
        Input::Target(Some(true)),
        Input::Prepared,
        Input::Claimed(false),
        Input::HooksRan(false),
    ];
    assert_eq!(run(Trigger::Apply { force: true }, &inputs), Step::Done(Outcome::Failed));
}

#[test]
fn a_successful_run_is_applied_and_stays_done() {
    let inputs = [
        Input::Target(Some(true)),
        Input::Prepared,
        Input::Claimed(true),
        Input::HooksRan(true),
        Input::Released,
        Input::Target(None),
    ];
    assert_eq!(run(event("worktree.created"), &inputs), Step::Done(Outcome::Applied));
}

#[test]
fn an_answer_out_of_turn_changes_nothing() {
    assert_eq!(run(event("x"), &[Input::Prepared]), Step::ResolveTarget);
    assert_eq!(
        run(event("x"), &[Input::Target(Some(true)), Input::Claimed(true)]),
        Step::Prepare
    );
}

fn target(path: &str, linked: bool) -> WorktreeTarget {
    WorktreeTarget {
        repo_name: "r".to_string(),
        repo_root: "/r".to_string(),
        checkout_path: path.to_string(),
        is_linked_worktree: linked,
        branch: None,
    }
}

#[test]
fn seeding_claims_only_linked_worktrees() {
    let targets = vec![target("/r", false), target("/w/a", true), target("/w/b", true)];
    assert_eq!(seed_paths(&targets), vec!["/w/a", "/w/b"]);
}
