use herdr_worktree_hooks_plugin::config::expand_tilde;
use herdr_worktree_hooks_plugin::paths::{join, path_segments, paths_equal};
use herdr_worktree_hooks_plugin::text::{dedup, text_less, trim};

#[test]
fn join_follows_path_join() {
    assert_eq!(join("/a", "b"), "/a/b");
    assert_eq!(join("/a/", "b"), "/a/b");
    assert_eq!(join("", "b"), "b");
    assert_eq!(join("/a", "/b"), "/b");
    assert_eq!(join("a", ""), "a/");
}

#[test]
fn paths_compare_by_components() {
    assert!(paths_equal("/a//b/", "/a/b"));
    assert!(paths_equal("/a/./b", "/a/b"));
    assert!(!paths_equal("/a/../b", "/b"));
    assert!(!paths_equal("a/b", "/a/b"));
    assert!(!paths_equal("./a", "a"));
    assert!(paths_equal("./a", "./a/"));
    assert_eq!(path_segments("/x//./y/../z/"), vec!["x", "y", "..", "z"]);
}

#[test]
fn tilde_expands_only_with_a_home() {
    assert_eq!(expand_tilde("~/src", Some("/home/u")), "/home/u/src");
    assert_eq!(expand_tilde("~/src", None), "~/src");
    assert_eq!(expand_tilde("~src", Some("/home/u")), "~src");
    assert_eq!(expand_tilde("/abs", Some("/home/u")), "/abs");
}

#[test]
fn text_order_and_trimming() {
    assert!(text_less("a", "b"));
    assert!(text_less("a", "ab"));
    assert!(!text_less("ab", "a"));
    assert!(!text_less("a", "a"));
    assert_eq!(trim("\u{a0} x y \u{3000}"), "x y");
    let items: Vec<String> = ["a", "b", "a", "c", "b"].iter().map(|s| s.to_string()).collect();
    assert_eq!(dedup(&items), vec!["a", "b", "c"]);
}
