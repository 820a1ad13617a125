use herdr_worktree_hooks_plugin::event::{
    find_target, find_targets, find_workspace_id, resolve_target, TargetResolution,
};
use herdr_worktree_hooks_plugin::json::{parse_json, parse_json_bytes, Json};

fn parse(text: &str) -> Json {
    parse_json(text).expect("valid JSON")
}

fn worktree_created() -> Json {
    parse(
        r#"{
            "event": "worktree_created",
            "data": {
                "type": "worktree_created",
                "workspace": {
                    "workspace_id": "w2S",
                    "label": "feat-sidebar-redesign",
                    "worktree": {
                        "repo_key": "/home/dev/src/github.com/acme/my-app/.git",
                        "repo_name": "my-app",
                        "repo_root": "/home/dev/src/github.com/acme/my-app",
                        "checkout_path": "/home/dev/src/worktrees/my-app/feat-sidebar-redesign",
                        "is_linked_worktree": true
                    }
                },
                "worktree": {
                    "path": "/home/dev/src/worktrees/my-app/feat-sidebar-redesign",
                    "branch": "feat/sidebar-redesign",
                    "is_bare": false,
                    "is_detached": false,
                    "is_linked_worktree": true,
                    "is_prunable": false,
                    "label": "my-app"
                }
            }
        }"#,
    )
}

/// The target after a lookup: `fetched` is what `herdr workspace get` replied.
fn resolved_after_fetch(resolution: TargetResolution, expected_id: &str, fetched: &str) -> Option<herdr_worktree_hooks_plugin::event::WorktreeTarget> {
    match resolution {
        TargetResolution::Found(t) => Some(t),
        TargetResolution::Nothing => None,
        TargetResolution::Fetch(id) => {
            assert_eq!(id, expected_id);
            find_target(&parse(fetched))
        }
    }
}

#[test]
fn worktree_created_payload_yields_both_checkout_and_main() {
    let target = find_target(&worktree_created()).expect("target");
    assert_eq!(
        target.checkout_path,
        "/home/dev/src/worktrees/my-app/feat-sidebar-redesign"
    );
    assert_eq!(target.repo_root, "/home/dev/src/github.com/acme/my-app");
    assert_eq!(target.repo_name, "my-app");
    assert_eq!(target.branch.as_deref(), Some("feat/sidebar-redesign"));
    assert!(target.is_linked_worktree);
}

#[test]
fn workspace_created_payload_without_branch_still_resolves_paths() {
    let payload = parse(
        r#"{
            "data": {
                "type": "workspace_created",
                "workspace": {
                    "workspace_id": "w2S",
                    "worktree": {
                        "repo_name": "my-app",
                        "repo_root": "/home/dev/src/github.com/acme/my-app",
                        "checkout_path": "/home/dev/src/worktrees/my-app/feat-x",
                        "is_linked_worktree": true
                    }
                }
            }
        }"#,
    );
    let target = find_target(&payload).expect("target");
    assert_eq!(target.checkout_path, "/home/dev/src/worktrees/my-app/feat-x");
    assert_eq!(target.branch, None);
}

#[test]
fn main_checkout_is_reported_as_not_linked() {
    let payload = parse(
        r#"{
            "workspace": {
                "worktree": {
                    "repo_name": "my-app",
                    "repo_root": "/home/dev/src/github.com/acme/my-app",
                    "checkout_path": "/home/dev/src/github.com/acme/my-app",
                    "is_linked_worktree": false
                }
            }
        }"#,
    );
    assert!(!find_target(&payload).expect("target").is_linked_worktree);
}

#[test]
fn focused_payload_carries_no_paths_and_requires_a_fetch() {
    let payload = parse(r#"{"data": {"type": "workspace_focused", "workspace_id": "w2S"}}"#);
    assert!(find_target(&payload).is_none());
    assert_eq!(find_workspace_id(&payload).as_deref(), Some("w2S"));
}

#[test]
fn focused_payload_resolves_through_the_workspace_lookup() {
    let payload = parse(r#"{"data": {"type": "workspace_focused", "workspace_id": "w2S"}}"#);
    let target = resolved_after_fetch(
        resolve_target(Some(&payload), None),
        "w2S",
        r#"{
            "id": "cli:workspace:get",
            "result": {
                "type": "workspace",
                "workspace": {
                    "workspace_id": "w2S",
                    "worktree": {
                        "repo_name": "my-app",
                        "repo_root": "/home/dev/src/github.com/acme/my-app",
                        "checkout_path": "/home/dev/src/worktrees/my-app/feat-x",
                        "is_linked_worktree": true
                    }
                }
            }
        }"#,
    )
    .expect("target");
    assert_eq!(target.checkout_path, "/home/dev/src/worktrees/my-app/feat-x");
}

#[test]
fn payload_with_paths_never_triggers_a_lookup() {
    match resolve_target(Some(&worktree_created()), None) {
        TargetResolution::Found(target) => assert_eq!(target.repo_name, "my-app"),
        other => panic!("must not query herdr when the payload already has the paths: {other:?}"),
    }
}

#[test]
fn missing_payload_falls_back_to_the_workspace_id_from_the_environment() {
    let target = resolved_after_fetch(
        resolve_target(None, Some("w2Q")),
        "w2Q",
        r#"{
            "worktree": {
                "repo_name": "my-app",
                "repo_root": "/home/dev/src/github.com/acme/my-app",
                "checkout_path": "/home/dev/src/worktrees/my-app/feat-y",
                "is_linked_worktree": true
            }
        }"#,
    )
    .expect("target");
    assert_eq!(target.checkout_path, "/home/dev/src/worktrees/my-app/feat-y");
}

#[test]
fn a_workspace_without_a_worktree_resolves_to_nothing() {
    let payload = parse(r#"{"data": {"workspace_id": "w2M"}}"#);
    let resolved = resolved_after_fetch(
        resolve_target(Some(&payload), None),
        "w2M",
        r#"{"result": {"workspace": {"workspace_id": "w2M", "label": "chezmoi"}}}"#,
    );
    assert_eq!(resolved, None);
}

#[test]
fn a_workspace_list_yields_every_worktree_it_contains() {
    let payload = parse(
        r#"{
            "result": {
                "workspaces": [
                    {"workspace_id": "w2C", "worktree": {
                        "repo_name": "my-app",
                        "repo_root": "/home/dev/src/github.com/acme/my-app",
                        "checkout_path": "/home/dev/src/github.com/acme/my-app",
                        "is_linked_worktree": false}},
                    {"workspace_id": "w2M"},
                    {"workspace_id": "w2Q", "worktree": {
                        "repo_name": "my-app",
                        "repo_root": "/home/dev/src/github.com/acme/my-app",
                        "checkout_path": "/home/dev/src/worktrees/my-app/feat-a",
                        "is_linked_worktree": true}},
                    {"workspace_id": "w2R", "worktree": {
                        "repo_name": "my-app",
                        "repo_root": "/home/dev/src/github.com/acme/my-app",
                        "checkout_path": "/home/dev/src/worktrees/my-app/feat-b",
                        "is_linked_worktree": true}}
                ]
            }
        }"#,
    );

    let targets = find_targets(&payload);

    assert_eq!(targets.len(), 3);
    let linked: Vec<_> = targets
        .iter()
        .filter(|t| t.is_linked_worktree)
        .map(|t| t.checkout_path.as_str())
        .collect();
    assert_eq!(
        linked,
        vec![
            "/home/dev/src/worktrees/my-app/feat-a",
            "/home/dev/src/worktrees/my-app/feat-b"
        ]
    );
}

#[test]
fn a_payload_with_nothing_identifying_resolves_to_nothing() {
    let payload = parse(r#"{"data": {"type": "layout_updated"}}"#);
    match resolve_target(Some(&payload), None) {
        TargetResolution::Nothing => {}
        other => panic!("nothing to look up: {other:?}"),
    }
}

#[test]
fn missing_repo_name_and_link_flag_read_as_empty_and_false() {
    let payload = parse(r#"{"w": {"repo_root": "/r", "checkout_path": "/c"}}"#);
    let target = find_target(&payload).expect("target");
    assert_eq!(target.repo_name, "");
    assert!(!target.is_linked_worktree);
    assert_eq!(target.branch, None);
}

#[test]
fn a_matching_object_is_not_searched_inside() {
    let payload = parse(
        r#"{"outer": {"repo_root": "/r", "checkout_path": "/c",
            "inner": {"repo_root": "/r2", "checkout_path": "/c2"}}}"#,
    );
    let targets = find_targets(&payload);
    assert_eq!(targets.len(), 1);
    assert_eq!(targets[0].checkout_path, "/c");
}

#[test]
fn non_string_paths_do_not_describe_a_worktree() {
    let payload = parse(r#"{"w": {"repo_root": 1, "checkout_path": "/c"}, "x": [null, true, 2.5]}"#);
    assert!(find_target(&payload).is_none());
    assert_eq!(find_workspace_id(&payload), None);
}

#[test]
fn branch_is_taken_from_the_object_for_this_checkout() {
    let payload = parse(
        r#"{"a": {"path": "/other", "branch": "wrong"},
            "b": {"path": "/c", "branch": "right"},
            "c": {"repo_root": "/r", "checkout_path": "/c"}}"#,
    );
    assert_eq!(find_target(&payload).expect("target").branch.as_deref(), Some("right"));
}

#[test]
fn invalid_json_is_refused_with_serde_json_words() {
    let err = parse_json("{\"data\": ").unwrap_err();
    assert!(!err.message.is_empty());
    assert!(parse_json_bytes(b"not json").is_err());
    assert!(parse_json_bytes(&[0xff, 0xfe]).is_err());
}

#[test]
fn parsed_documents_keep_values_and_sort_members_by_key() {
    let doc = parse_json_bytes(br#"{"b": [1, "x", false, null], "a": 2.5}"#).expect("valid JSON");
    match doc {
        Json::Object(members) => {
            let keys: Vec<&str> = members.iter().map(|(k, _)| k.as_str()).collect();
            assert_eq!(keys, vec!["a", "b"]);
            match &members[0].1 {
                Json::Number(n) => assert_eq!(n, "2.5"),
                other => panic!("expected a number: {other:?}"),
            }
            match &members[1].1 {
                Json::Array(items) => {
                    assert_eq!(items.len(), 4);
                    assert!(matches!(&items[1], Json::String(s) if s == "x"));
                    assert!(matches!(items[2], Json::Bool(false)));
                    assert!(matches!(items[3], Json::Null));
                }
                other => panic!("expected an array: {other:?}"),
            }
        }
        other => panic!("expected an object: {other:?}"),
    }
}
