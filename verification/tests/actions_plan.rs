use herdr_worktree_hooks_plugin::actions::{
    branch_from_output, command_env, plan_entry, validate_entry, ApplyInput, ApplyOutcome,
    ApplyRun, ApplyStep, CopyError, CopyReport, CopyStep, EntryProbe,
};
use herdr_worktree_hooks_plugin::event::WorktreeTarget;

fn probe(source_exists: bool, source_is_dir: bool, destination_exists: bool) -> EntryProbe {
    EntryProbe { source_exists, source_is_dir, destination_exists }
}

#[test]
fn an_entry_escaping_the_worktree_is_rejected() {
    assert!(validate_entry("../outside").is_err());
    assert!(validate_entry("/etc/passwd").is_err());
}

#[test]
fn a_directory_entry_is_rejected() {
    let step = plan_entry("config", probe(true, true, false));
    assert_eq!(step, Err(CopyError::DirectoryEntry("config".to_string())));
    assert_eq!(
        step.unwrap_err().message(),
        "config: directories are not supported"
    );
}

#[test]
fn a_missing_source_is_reported_without_failing_the_run() {
    let mut report = CopyReport::default();
    let step = plan_entry(".env.local", probe(false, false, false)).unwrap();
    report.record(".env.local", step);
    assert_eq!(report.missing_source, vec![".env.local"]);
    assert!(report.copied.is_empty());
}

#[test]
fn an_existing_destination_is_kept_and_a_new_one_copied() {
    assert_eq!(plan_entry(".env", probe(true, false, true)), Ok(CopyStep::KeepExisting));
    assert_eq!(plan_entry(".env", probe(true, false, false)), Ok(CopyStep::Copy));
    let mut report = CopyReport::default();
    report.record(".env", CopyStep::KeepExisting);
    report.record(".env.local", CopyStep::Copy);
    assert_eq!(report.skipped_existing, vec![".env"]);
    assert_eq!(report.copied, vec![".env.local"]);
}

#[test]
fn relative_entries_are_accepted() {
    assert_eq!(validate_entry(".env").unwrap(), ".env");
    assert_eq!(validate_entry("config/secrets.yml").unwrap(), "config/secrets.yml");
    assert_eq!(validate_entry("./a/./b").unwrap(), "./a/./b");
    assert_eq!(validate_entry("a..b/c..").unwrap(), "a..b/c..");
}

#[test]
fn empty_and_escaping_entries_have_their_own_errors() {
    assert_eq!(validate_entry(""), Err(CopyError::EmptyEntry));
    assert_eq!(CopyError::EmptyEntry.message(), "empty copy entry");
    let err = validate_entry("a/../../b").unwrap_err();
    assert_eq!(err, CopyError::EscapingEntry("a/../../b".to_string()));
    assert_eq!(err.message(), "a/../../b: must be a relative path without `..`");
}

#[test]
fn commands_see_the_paths_in_their_environment() {
    let target = WorktreeTarget {
        repo_name: "my-app".to_string(),
        repo_root: "/main".to_string(),
        checkout_path: "/wt".to_string(),
        is_linked_worktree: true,
        branch: Some("feat/x".to_string()),
    };
    let env = command_env(&target, "worktree.created");
    let expected: Vec<(String, String)> = [
        ("MAIN", "/main"),
        ("WORKTREE", "/wt"),
        ("REPO", "my-app"),
        ("BRANCH", "feat/x"),
        ("EVENT", "worktree.created"),
    ]
    .iter()
    .map(|(k, v)| (k.to_string(), v.to_string()))
    .collect();
    assert_eq!(env, expected);

    let detached = WorktreeTarget { branch: None, ..target };
    assert_eq!(command_env(&detached, "e")[3], ("BRANCH".to_string(), String::new()));
}

#[test]
fn git_output_names_a_branch_unless_detached() {
    assert_eq!(branch_from_output("feat/from-git\n"), Some("feat/from-git".to_string()));
    assert_eq!(branch_from_output("  main \t\n"), Some("main".to_string()));
    assert_eq!(branch_from_output("HEAD\n"), None);
    assert_eq!(branch_from_output(" \n"), None);
    assert_eq!(branch_from_output(""), None);
}

fn resolved(copy: &[&str], run: &[&str]) -> herdr_worktree_hooks_plugin::config::Resolved {
    herdr_worktree_hooks_plugin::config::Resolved {
        copy: copy.iter().map(|s| s.to_string()).collect(),
        run: run.iter().map(|s| s.to_string()).collect(),
    }
}

fn apply_target(branch: Option<&str>) -> WorktreeTarget {
    WorktreeTarget {
        repo_name: "my-app".to_string(),
        repo_root: "/main".to_string(),
        checkout_path: "/wt".to_string(),
        is_linked_worktree: true,
        branch: branch.map(str::to_string),
    }
}

#[test]
fn the_branch_is_read_back_only_when_the_event_did_not_carry_it() {
    let run = ApplyRun::new(resolved(&[".env"], &[]), apply_target(Some("feat/x")), "e");
    assert_eq!(run.step(), ApplyStep::ProbeEntry { index: 0 });

    let mut run = ApplyRun::new(resolved(&[".env"], &["make"]), apply_target(None), "worktree.created");
    assert_eq!(run.step(), ApplyStep::ReadBranch);
    assert_eq!(
        run.advance(ApplyInput::BranchRead(Some("feat/from-git".to_string()))),
        ApplyStep::ProbeEntry { index: 0 }
    );
    assert_eq!(run.target().branch.as_deref(), Some("feat/from-git"));
    assert_eq!(run.copy_entries(), &vec![".env".to_string()]);
    assert_eq!(run.advance(ApplyInput::Probed(probe(true, false, false))), ApplyStep::CopyEntry { index: 0 });
    match run.advance(ApplyInput::EntryCopied(true)) {
        ApplyStep::RunCommand { index, env } => {
            assert_eq!(index, 0);
            assert_eq!(env[3], ("BRANCH".to_string(), "feat/from-git".to_string()));
            assert_eq!(env[4], ("EVENT".to_string(), "worktree.created".to_string()));
        }
        other => panic!("expected the commands to run: {other:?}"),
    }
    assert_eq!(run.report().copied, vec![".env".to_string()]);
    assert_eq!(run.commands(), &vec!["make".to_string()]);
    assert_eq!(
        run.advance(ApplyInput::CommandRan(false)),
        ApplyStep::Done(ApplyOutcome::Failed)
    );
}

#[test]
fn a_failed_copy_runs_no_command() {
    let mut run = ApplyRun::new(resolved(&[".env", ".npmrc"], &["make"]), apply_target(Some("b")), "e");
    assert_eq!(run.advance(ApplyInput::Probed(probe(true, false, false))), ApplyStep::CopyEntry { index: 0 });
    assert_eq!(
        run.advance(ApplyInput::EntryCopied(false)),
        ApplyStep::Done(ApplyOutcome::Failed)
    );
    assert_eq!(
        run.advance(ApplyInput::CommandRan(true)),
        ApplyStep::Done(ApplyOutcome::Failed)
    );
    assert!(run.report().copied.is_empty());
    assert!(run.error().is_none());
}

#[test]
fn without_commands_a_successful_copy_finishes_the_run() {
    let mut run = ApplyRun::new(resolved(&[".env"], &[]), apply_target(Some("b")), "e");
    assert_eq!(run.advance(ApplyInput::Probed(probe(true, false, false))), ApplyStep::CopyEntry { index: 0 });
    assert_eq!(
        run.advance(ApplyInput::EntryCopied(true)),
        ApplyStep::Done(ApplyOutcome::Succeeded)
    );
    let mut with_commands = ApplyRun::new(resolved(&[], &["a"]), apply_target(Some("b")), "e");
    assert!(matches!(with_commands.step(), ApplyStep::RunCommand { index: 0, .. }));
    assert_eq!(
        with_commands.advance(ApplyInput::CommandRan(true)),
        ApplyStep::Done(ApplyOutcome::Succeeded)
    );
}

#[test]
fn entries_are_handled_in_order_and_reported() {
    let mut run = ApplyRun::new(
        resolved(&[".env", "missing.txt", "kept.txt", "config/app.toml"], &[]),
        apply_target(Some("b")),
        "e",
    );
    assert_eq!(run.advance(ApplyInput::Probed(probe(true, false, false))), ApplyStep::CopyEntry { index: 0 });
    assert_eq!(run.advance(ApplyInput::EntryCopied(true)), ApplyStep::ProbeEntry { index: 1 });
    assert_eq!(run.advance(ApplyInput::Probed(probe(false, false, false))), ApplyStep::ProbeEntry { index: 2 });
    assert_eq!(run.advance(ApplyInput::Probed(probe(true, false, true))), ApplyStep::ProbeEntry { index: 3 });
    assert_eq!(run.advance(ApplyInput::Probed(probe(true, false, false))), ApplyStep::CopyEntry { index: 3 });
    assert_eq!(run.advance(ApplyInput::EntryCopied(true)), ApplyStep::Done(ApplyOutcome::Succeeded));
    let report = run.report();
    assert_eq!(report.copied, vec![".env".to_string(), "config/app.toml".to_string()]);
    assert_eq!(report.skipped_existing, vec!["kept.txt".to_string()]);
    assert_eq!(report.missing_source, vec!["missing.txt".to_string()]);
}

#[test]
fn an_existing_destination_is_never_copied_over() {
    let mut run = ApplyRun::new(resolved(&[".env"], &["make"]), apply_target(Some("b")), "e");
    let next = run.advance(ApplyInput::Probed(probe(true, false, true)));
    assert!(matches!(next, ApplyStep::RunCommand { index: 0, .. }));
    assert!(run.report().copied.is_empty());
    assert_eq!(run.report().skipped_existing, vec![".env".to_string()]);
}

#[test]
fn an_escaping_entry_stops_the_run_before_anything_is_probed() {
    let run = ApplyRun::new(resolved(&[".env", "../x"], &["make"]), apply_target(Some("b")), "e");
    assert_eq!(run.step(), ApplyStep::ProbeEntry { index: 0 });
    let mut run = run;
    assert_eq!(
        run.advance(ApplyInput::Probed(probe(false, false, false))),
        ApplyStep::Done(ApplyOutcome::Failed)
    );
    assert_eq!(run.error(), Some(&CopyError::EscapingEntry("../x".to_string())));
    assert_eq!(run.report().missing_source, vec![".env".to_string()]);
}

#[test]
fn a_directory_entry_stops_the_run() {
    let mut run = ApplyRun::new(resolved(&["config", ".env"], &["make"]), apply_target(Some("b")), "e");
    assert_eq!(
        run.advance(ApplyInput::Probed(probe(true, true, false))),
        ApplyStep::Done(ApplyOutcome::Failed)
    );
    let error = run.error().expect("the directory is refused");
    assert_eq!(error.message(), "config: directories are not supported");
}

#[test]
fn commands_run_one_by_one_and_the_first_failure_stops_them() {
    let mut run = ApplyRun::new(resolved(&[], &["a", "b", "c"]), apply_target(Some("b")), "e");
    assert!(matches!(run.step(), ApplyStep::RunCommand { index: 0, .. }));
    assert!(matches!(run.advance(ApplyInput::CommandRan(true)), ApplyStep::RunCommand { index: 1, .. }));
    assert_eq!(run.advance(ApplyInput::CommandRan(false)), ApplyStep::Done(ApplyOutcome::Failed));
    assert_eq!(run.advance(ApplyInput::CommandRan(true)), ApplyStep::Done(ApplyOutcome::Failed));
}

#[test]
fn an_answer_that_does_not_fit_the_step_changes_nothing() {
    let mut run = ApplyRun::new(resolved(&[".env"], &["make"]), apply_target(None), "e");
    assert_eq!(run.advance(ApplyInput::CommandRan(true)), ApplyStep::ReadBranch);
    assert_eq!(run.advance(ApplyInput::EntryCopied(true)), ApplyStep::ReadBranch);
    assert!(run.report().copied.is_empty());
}

#[test]
fn a_rerun_finds_every_destination_and_copies_nothing() {
    let mut run = ApplyRun::new(resolved(&[".env", ".npmrc"], &[]), apply_target(Some("b")), "e");
    assert_eq!(run.advance(ApplyInput::Probed(probe(true, false, true))), ApplyStep::ProbeEntry { index: 1 });
    assert_eq!(
        run.advance(ApplyInput::Probed(probe(true, false, true))),
        ApplyStep::Done(ApplyOutcome::Succeeded)
    );
    assert!(run.report().copied.is_empty());
    assert_eq!(run.report().skipped_existing, vec![".env".to_string(), ".npmrc".to_string()]);
}
