use herdr_worktree_hooks_plugin::claim::{claim_file_name, fnv1a64, ClaimStore};

#[test]
fn very_long_checkout_paths_stay_within_filename_limits() {
    let long = format!("/repos/{}", "segment/".repeat(60));
    assert!(claim_file_name(&long).len() <= 100);
}

#[test]
fn fnv1a64_matches_reference_values() {
    assert_eq!(fnv1a64(b""), 0xcbf2_9ce4_8422_2325);
    assert_eq!(fnv1a64(b"a"), 0xaf63_dc4c_8601_ec8c);
    assert_eq!(fnv1a64(b"foobar"), 0x8594_4171_f739_67e8);
}

#[test]
fn claim_name_is_sanitized_label_and_hash() {
    let name = claim_file_name("/repos/a/b");
    assert_eq!(name, format!("_repos_a_b-{:016x}", fnv1a64(b"/repos/a/b")));
}

#[test]
fn checkouts_that_sanitize_alike_get_distinct_names() {
    let a = claim_file_name("/repos/a/b");
    let b = claim_file_name("/repos/a_b");
    assert!(a.starts_with("_repos_a_b-"));
    assert!(b.starts_with("_repos_a_b-"));
    assert_ne!(a, b);
}

#[test]
fn long_label_keeps_its_last_eighty_characters() {
    let long = format!("/x/{}", "ab".repeat(100));
    let name = claim_file_name(&long);
    assert_eq!(name.len(), 80 + 1 + 16);
    assert!(name.starts_with(&"ab".repeat(40)));
}

#[test]
fn non_ascii_characters_become_underscores_and_hash_their_bytes() {
    let name = claim_file_name("/é");
    assert_eq!(name, format!("__-{:016x}", fnv1a64("/é".as_bytes())));
}

#[test]
fn claim_files_live_in_the_claims_directory() {
    let store = ClaimStore::new("/state");
    assert_eq!(store.dir(), "/state/claims");
    assert_eq!(
        store.path_for("/w/x"),
        format!("/state/claims/_w_x-{:016x}", fnv1a64(b"/w/x"))
    );
    assert_eq!(ClaimStore::new("/state/").dir(), "/state/claims");
}
