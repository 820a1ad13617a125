use vstd::prelude::*;

use crate::paths::{join, join_spec, paths_equal, same_path};
use crate::text::{
    chars_of, concat_texts, dedup, dedup_spec, lemma_dedup, lemma_text_lt_asymmetric, lemma_text_lt_total,
    lemma_text_lt_transitive, push_new_texts, text_less, text_lt, views,
};

verus! {

/// Freshness window used when the configuration does not set one.
pub const DEFAULT_FRESH_WINDOW_SECS: u64 = 300;

/// The view of an optional string.
pub open spec fn opt_text(s: Option<&str>) -> Option<Seq<char>> {
    match s {
        Some(t) => Some(t@),
        None => None,
    }
}

/// The view of an optional owned string.
pub open spec fn opt_string(s: Option<String>) -> Option<Seq<char>> {
    match s {
        Some(t) => Some(t@),
        None => None,
    }
}

/// One `[defaults]` or `[repos.<key>]` table.
#[derive(Debug)]
pub struct Section {
    /// Paths, relative to the main checkout, to copy into the worktree.
    pub copy: Vec<String>,
    /// Shell commands to run in the worktree, in order.
    pub run: Vec<String>,
    /// `Some(false)` drops `[defaults]` for this repository.
    pub inherit: Option<bool>,
}

/// What a [`Section`] holds, as texts.
pub struct SectionView {
    pub copy: Seq<Seq<char>>,
    pub run: Seq<Seq<char>>,
    pub inherit: Option<bool>,
}

impl View for Section {
    type V = SectionView;

    open spec fn view(&self) -> SectionView {
        SectionView { copy: views(self.copy@), run: views(self.run@), inherit: self.inherit }
    }
}

impl Default for Section {
    fn default() -> (s: Section)
        ensures
            s.copy@.len() == 0,
            s.run@.len() == 0,
            s.inherit.is_none(),
    {
        Section { copy: Vec::new(), run: Vec::new(), inherit: None }
    }
}

/// A repository's effective `copy` / `run` lists after merging `[defaults]`.
#[derive(Debug, PartialEq, Eq)]
pub struct Resolved {
    pub copy: Vec<String>,
    pub run: Vec<String>,
}

/// What a [`Resolved`] holds, as texts.
pub struct ResolvedView {
    pub copy: Seq<Seq<char>>,
    pub run: Seq<Seq<char>>,
}

impl View for Resolved {
    type V = ResolvedView;

    open spec fn view(&self) -> ResolvedView {
        ResolvedView { copy: views(self.copy@), run: views(self.run@) }
    }
}

/// The plugin's configuration (`config.toml`).
#[derive(Debug)]
pub struct Config {
    shell: Option<String>,
    fresh_window_secs: Option<u64>,
    defaults: Option<Section>,
    /// The `[repos.<key>]` tables, one per key, searched in key order as a
    /// sorted map would be.
    repos: Vec<(String, Section)>,
}

/// What a [`Config`] holds: the repository tables are keyed by name or by path.
pub struct ConfigView {
    pub shell: Option<Seq<char>>,
    pub fresh_window_secs: Option<u64>,
    pub defaults: Option<SectionView>,
    pub repos: Seq<(Seq<char>, SectionView)>,
}

/// The view of a list of repository tables.
pub open spec fn repos_view(repos: Seq<(String, Section)>) -> Seq<(Seq<char>, SectionView)> {
    repos.map_values(|e: (String, Section)| (e.0@, e.1@))
}

impl View for Config {
    type V = ConfigView;

    closed spec fn view(&self) -> ConfigView {
        ConfigView {
            shell: opt_string(self.shell),
            fresh_window_secs: self.fresh_window_secs,
            defaults: match self.defaults {
                Some(d) => Some(d@),
                None => None,
            },
            repos: repos_view(self.repos@),
        }
    }
}

/// The `[defaults]` used when the configuration has none: copy `.env` and
/// `.env.local`, run nothing.
pub open spec fn builtin_defaults() -> SectionView {
    SectionView { copy: seq![".env"@, ".env.local"@], run: Seq::empty(), inherit: None }
}

/// The `[defaults]` in force for `c`.
pub open spec fn effective_defaults(c: ConfigView) -> SectionView {
    match c.defaults {
        Some(d) => d,
        None => builtin_defaults(),
    }
}

/// `raw` with a leading `~/` replaced by the home directory, when there is one.
pub open spec fn expand_tilde_spec(raw: Seq<char>, home: Option<Seq<char>>) -> Seq<char> {
    if raw.len() >= 2 && raw[0] == '~' && raw[1] == '/' {
        match home {
            Some(h) => join_spec(h, raw.skip(2)),
            None => raw,
        }
    } else {
        raw
    }
}

/// A repository key that is a path (it starts with `/` or `~`) and names `repo_root`.
pub open spec fn path_key_matches(key: Seq<char>, repo_root: Seq<char>, home: Option<Seq<char>>) -> bool {
    &&& key.len() > 0
    &&& (key[0] == '/' || key[0] == '~')
    &&& same_path(expand_tilde_spec(key, home), repo_root)
}

/// `repos[i]` is the path-keyed table for `repo_root` that comes first in key
/// order (and first in the list among equal keys).
pub open spec fn is_first_path_match(
    repos: Seq<(Seq<char>, SectionView)>,
    i: int,
    repo_root: Seq<char>,
    home: Option<Seq<char>>,
) -> bool {
    &&& 0 <= i < repos.len()
    &&& path_key_matches(repos[i].0, repo_root, home)
    &&& forall|j: int|
        0 <= j < i && path_key_matches(#[trigger] repos[j].0, repo_root, home) ==> text_lt(
            repos[i].0,
            repos[j].0,
        )
    &&& forall|j: int|
        0 <= j < repos.len() && path_key_matches(#[trigger] repos[j].0, repo_root, home) ==> !text_lt(
            repos[j].0,
            repos[i].0,
        )
}

/// `repos[i]` is the first table keyed by exactly `name`.
pub open spec fn is_first_named(repos: Seq<(Seq<char>, SectionView)>, i: int, name: Seq<char>) -> bool {
    &&& 0 <= i < repos.len()
    &&& repos[i].0 == name
    &&& forall|j: int| 0 <= j < i ==> #[trigger] repos[j].0 != name
}

/// The repository table that applies: a path key naming the repository's
/// root wins over a key equal to its name.
pub open spec fn section_for_spec(
    repos: Seq<(Seq<char>, SectionView)>,
    repo_name: Seq<char>,
    repo_root: Seq<char>,
    home: Option<Seq<char>>,
) -> Option<SectionView> {
    if exists|i: int| is_first_path_match(repos, i, repo_root, home) {
        Some(repos[choose|i: int| is_first_path_match(repos, i, repo_root, home)].1)
    } else if exists|i: int| is_first_named(repos, i, repo_name) {
        Some(repos[choose|i: int| is_first_named(repos, i, repo_name)].1)
    } else {
        None
    }
}

/// The lists that apply to a repository.
pub open spec fn resolve_spec(
    c: ConfigView,
    repo_name: Seq<char>,
    repo_root: Seq<char>,
    home: Option<Seq<char>>,
) -> ResolvedView {
    let d = effective_defaults(c);
    match section_for_spec(c.repos, repo_name, repo_root, home) {
        None => ResolvedView { copy: dedup_spec(d.copy), run: dedup_spec(d.run) },
        Some(s) => if s.inherit == Some(false) {
            ResolvedView { copy: dedup_spec(s.copy), run: dedup_spec(s.run) }
        } else {
            ResolvedView { copy: dedup_spec(d.copy + s.copy), run: dedup_spec(d.run + s.run) }
        },
    }
}

/// `raw` with a leading `~/` replaced by `home`, when there is one.
pub fn expand_tilde(raw: &str, home: Option<&str>) -> (expanded: String)
    ensures
        expanded@ == expand_tilde_spec(raw@, opt_text(home)),
{
    let chars = chars_of(raw);
    if chars.len() >= 2 && chars[0] == '~' && chars[1] == '/' {
        match home {
            Some(h) => {
                let rest = crate::text::string_of_chars(chars.as_slice(), 2);
                proof {
                    assert(rest@ =~= raw@.skip(2));
                }
                join(h, rest.as_str())
            },
            None => raw.to_owned(),
        }
    } else {
        raw.to_owned()
    }
}

/// Whether the repository key `key` is a path that names `repo_root`.
fn key_matches_root(key: &str, repo_root: &str, home: Option<&str>) -> (m: bool)
    ensures
        m == path_key_matches(key@, repo_root@, opt_text(home)),
{
    let chars = chars_of(key);
    if chars.len() == 0 || (chars[0] != '/' && chars[0] != '~') {
        return false;
    }
    let expanded = expand_tilde(key, home);
    paths_equal(expanded.as_str(), repo_root)
}


impl Default for Config {
    /// No shell, no freshness window, no `[defaults]`, no repository tables:
    /// the configuration in force when there is no `config.toml`.
    fn default() -> (c: Config)
        ensures
            c@.shell.is_none(),
            c@.fresh_window_secs.is_none(),
            c@.defaults.is_none(),
            c@.repos.len() == 0,
    {
        Config { shell: None, fresh_window_secs: None, defaults: None, repos: Vec::new() }
    }
}

impl Config {
    /// A configuration with the given top-level keys and no repository tables.
    pub fn new(shell: Option<String>, fresh_window_secs: Option<u64>, defaults: Option<Section>) -> (c: Config)
        ensures
            c@.shell == opt_string(shell),
            c@.fresh_window_secs == fresh_window_secs,
            c@.defaults == (match defaults {
                Some(d) => Some(d@),
                None => None::<SectionView>,
            }),
            c@.repos.len() == 0,
    {
        Config { shell, fresh_window_secs, defaults, repos: Vec::new() }
    }

    /// Sets the table `[repos.<key>]`, replacing the one already kept under
    /// the same key (as a map insert does).
    pub fn insert_repo(&mut self, key: String, section: Section)
        ensures
            final(self)@.shell == old(self)@.shell,
            final(self)@.fresh_window_secs == old(self)@.fresh_window_secs,
            final(self)@.defaults == old(self)@.defaults,
            (exists|i: int| is_first_named(old(self)@.repos, i, key@)) ==> final(self)@.repos
                == old(self)@.repos.update(
                choose|i: int| is_first_named(old(self)@.repos, i, key@),
                (key@, section@),
            ),
            !(exists|i: int| is_first_named(old(self)@.repos, i, key@)) ==> final(self)@.repos
                == old(self)@.repos.push((key@, section@)),
    {
        let ghost old_repos = repos_view(self.repos@);
        let mut i: usize = 0;
        while i < self.repos.len()
            invariant
                i <= self.repos@.len(),
                self.shell == old(self).shell,
                self.fresh_window_secs == old(self).fresh_window_secs,
                self.defaults == old(self).defaults,
                repos_view(self.repos@) == old_repos,
                old_repos == old(self)@.repos,
                forall|j: int| 0 <= j < i ==> #[trigger] old_repos[j].0 != key@,
            decreases self.repos@.len() - i,
        {
            if self.repos[i].0 == key {
                proof {
                    assert(is_first_named(old_repos, i as int, key@));
                    assert forall|k: int| is_first_named(old_repos, k, key@) implies k == i by {
                        if k < i {
                            assert(old_repos[k].0 != key@);
                        }
                    }
                }
                self.repos.set(i, (key, section));
                proof {
                    assert(repos_view(self.repos@) =~= old_repos.update(i as int, (key@, section@)));
                }
                return;
            }
            i = i + 1;
        }
        proof {
            assert forall|k: int| !is_first_named(old_repos, k, key@) by {
                if 0 <= k < old_repos.len() {
                    assert(old_repos[k].0 != key@);
                }
            }
        }
        self.repos.push((key, section));
        proof {
            assert(repos_view(self.repos@) =~= old_repos.push((key@, section@)));
        }
    }

    /// How old a checkout may be for an event other than `worktree.created`
    /// to still treat it as new.
    pub fn fresh_window_secs(&self) -> (secs: u64)
        ensures
            secs == (match self@.fresh_window_secs {
                Some(s) => s,
                None => DEFAULT_FRESH_WINDOW_SECS,
            }),
    {
        match self.fresh_window_secs {
            Some(s) => s,
            None => DEFAULT_FRESH_WINDOW_SECS,
        }
    }

    /// The shell that runs the commands: the configured one, else `$SHELL`
    /// when it is set and not empty (`env_shell`), else `/bin/sh`.
    pub fn shell(&self, env_shell: Option<&str>) -> (shell: String)
        ensures
            shell@ == (match self@.shell {
                Some(s) => s,
                None => match opt_text(env_shell) {
                    Some(e) => if e.len() > 0 {
                        e
                    } else {
                        "/bin/sh"@
                    },
                    None => "/bin/sh"@,
                },
            }),
    {
        match &self.shell {
            Some(s) => s.clone(),
            None => match env_shell {
                Some(e) => if !e.is_empty() {
                    e.to_owned()
                } else {
                    "/bin/sh".to_owned()
                },
                None => "/bin/sh".to_owned(),
            },
        }
    }

    /// The repository table that applies to `repo_name` at `repo_root`.
    fn section_for(&self, repo_name: &str, repo_root: &str, home: Option<&str>) -> (s: Option<&Section>)
        ensures
            match s {
                Some(sec) => section_for_spec(self@.repos, repo_name@, repo_root@, opt_text(home))
                    == Some(sec@),
                None => section_for_spec(self@.repos, repo_name@, repo_root@, opt_text(home)).is_none(),
            },
    {
        let ghost repos = self@.repos;
        let ghost root = repo_root@;
        let ghost h = opt_text(home);
        let n = self.repos.len();
        let mut best: Option<usize> = None;
        let mut i: usize = 0;
        while i < n
            invariant
                n == self.repos@.len(),
                repos == repos_view(self.repos@),
                root == repo_root@,
                h == opt_text(home),
                i <= n,
                match best {
                    None => forall|j: int| 0 <= j < i ==> !path_key_matches(#[trigger] repos[j].0, root, h),
                    Some(b) => {
                        &&& b < i
                        &&& path_key_matches(repos[b as int].0, root, h)
                        &&& forall|j: int|
                            0 <= j < b && path_key_matches(#[trigger] repos[j].0, root, h) ==> text_lt(
                                repos[b as int].0,
                                repos[j].0,
                            )
                        &&& forall|j: int|
                            0 <= j < i && path_key_matches(#[trigger] repos[j].0, root, h) ==> !text_lt(
                                repos[j].0,
                                repos[b as int].0,
                            )
                    },
                },
            decreases n - i,
        {
            let key = &self.repos[i].0;
            assert(repos[i as int].0 == key@);
            if key_matches_root(key.as_str(), repo_root, home) {
                match best {
                    None => {
                        proof {
                            lemma_text_lt_asymmetric(key@, key@);
                        }
                        best = Some(i);
                    },
                    Some(b) => {
                        if text_less(key.as_str(), self.repos[b].0.as_str()) {
                            proof {
                                let kb = repos[b as int].0;
                                let ki = key@;
                                assert forall|j: int|
                                    0 <= j < i && path_key_matches(#[trigger] repos[j].0, root, h) implies text_lt(
                                    ki,
                                    repos[j].0,
                                ) by {
                                    lemma_text_lt_total(repos[j].0, kb);
                                    if text_lt(kb, repos[j].0) {
                                        lemma_text_lt_transitive(ki, kb, repos[j].0);
                                    }
                                }
                                assert forall|j: int|
                                    0 <= j < i + 1 && path_key_matches(#[trigger] repos[j].0, root, h) implies !text_lt(
                                    repos[j].0,
                                    ki,
                                ) by {
                                    lemma_text_lt_asymmetric(repos[j].0, ki);
                                }
                            }
                            best = Some(i);
                        }
                    },
                }
            }
            i = i + 1;
        }
        if let Some(b) = best {
            proof {
                assert(is_first_path_match(repos, b as int, root, h));
                assert forall|k: int| is_first_path_match(repos, k, root, h) implies k == b by {
                    if k < b {
                        assert(!text_lt(repos[k].0, repos[b as int].0));
                    } else if k > b {
                        assert(!text_lt(repos[b as int].0, repos[k].0));
                    }
                }
            }
            return Some(&self.repos[b].1);
        }
        proof {
            assert forall|k: int| !is_first_path_match(repos, k, root, h) by {
                if 0 <= k < n {
                    assert(!path_key_matches(repos[k].0, root, h));
                }
            }
        }
        let name = repo_name.to_owned();
        let mut j: usize = 0;
        while j < n
            invariant
                n == self.repos@.len(),
                repos == repos_view(self.repos@),
                name@ == repo_name@,
                j <= n,
                !(exists|k: int| is_first_path_match(repos, k, repo_root@, opt_text(home))),
                forall|k: int| 0 <= k < j ==> #[trigger] repos[k].0 != name@,
            decreases n - j,
        {
            if self.repos[j].0 == name {
                proof {
                    assert(is_first_named(repos, j as int, name@));
                    assert forall|k: int| is_first_named(repos, k, name@) implies k == j by {
                        if k < j {
                            assert(repos[k].0 != name@);
                        }
                    }
                }
                return Some(&self.repos[j].1);
            }
            j = j + 1;
        }
        proof {
            assert forall|k: int| !is_first_named(repos, k, name@) by {
                if 0 <= k < n {
                    assert(repos[k].0 != name@);
                }
            }
        }
        None
    }

    /// The `copy` and `run` lists for a repository: `[defaults]` (or the
    /// built-in `.env`, `.env.local` when the table is absent) followed by the
    /// repository's own table, unless that table sets `inherit = false`;
    /// repeats are dropped, first occurrences kept in order. `home` is the
    /// home directory that a `~/` key expands to.
    pub fn resolve(&self, repo_name: &str, repo_root: &str, home: Option<&str>) -> (r: Resolved)
        ensures
            r@ == resolve_spec(self@, repo_name@, repo_root@, opt_text(home)),
    {
        let builtin_copy: Vec<String> = vec![".env".to_owned(), ".env.local".to_owned()];
        let builtin_run: Vec<String> = Vec::new();
        let (dcopy, drun) = match &self.defaults {
            Some(d) => (&d.copy, &d.run),
            None => (&builtin_copy, &builtin_run),
        };
        proof {
            assert(views(dcopy@) == effective_defaults(self@).copy);
            assert(views(drun@) == effective_defaults(self@).run);
        }
        match self.section_for(repo_name, repo_root, home) {
            None => Resolved { copy: dedup(dcopy), run: dedup(drun) },
            Some(section) => {
                if section.inherit == Some(false) {
                    Resolved { copy: dedup(&section.copy), run: dedup(&section.run) }
                } else {
                    let copy = concat_texts(dcopy, &section.copy);
                    let run = concat_texts(drun, &section.run);
                    Resolved { copy: dedup(&copy), run: dedup(&run) }
                }
            },
        }
    }
}


/// When some path key names the repository's root, one of them is the first
/// in key order.
pub proof fn lemma_first_path_match_exists(
    repos: Seq<(Seq<char>, SectionView)>,
    k: int,
    repo_root: Seq<char>,
    home: Option<Seq<char>>,
)
    requires
        0 <= k < repos.len(),
        path_key_matches(repos[k].0, repo_root, home),
    ensures
        exists|i: int| is_first_path_match(repos, i, repo_root, home),
    decreases repos.len(),
{
    let n = repos.len() - 1;
    let pre = repos.drop_last();
    let last = repos[n].0;
    if exists|j: int| 0 <= j < n && path_key_matches(pre[j].0, repo_root, home) {
        let j0 = choose|j: int| 0 <= j < n && path_key_matches(pre[j].0, repo_root, home);
        lemma_first_path_match_exists(pre, j0, repo_root, home);
        let b = choose|i: int| is_first_path_match(pre, i, repo_root, home);
        let kb = repos[b].0;
        assert(forall|j: int| 0 <= j < n ==> pre[j] == repos[j]);
        if path_key_matches(last, repo_root, home) && text_lt(last, kb) {
            assert forall|j: int|
                0 <= j < n && path_key_matches(#[trigger] repos[j].0, repo_root, home) implies text_lt(
                last,
                repos[j].0,
            ) by {
                assert(pre[j] == repos[j]);
                lemma_text_lt_total(repos[j].0, kb);
                if text_lt(kb, repos[j].0) {
                    lemma_text_lt_transitive(last, kb, repos[j].0);
                }
            }
            assert forall|j: int|
                0 <= j < repos.len() && path_key_matches(#[trigger] repos[j].0, repo_root, home) implies !text_lt(
                repos[j].0,
                last,
            ) by {
                lemma_text_lt_asymmetric(repos[j].0, last);
            }
            assert(is_first_path_match(repos, n, repo_root, home));
        } else {
            assert forall|j: int|
                0 <= j < repos.len() && path_key_matches(#[trigger] repos[j].0, repo_root, home) implies !text_lt(
                repos[j].0,
                kb,
            ) by {
                if j < n {
                    assert(pre[j] == repos[j]);
                }
            }
            assert forall|j: int|
                0 <= j < b && path_key_matches(#[trigger] repos[j].0, repo_root, home) implies text_lt(
                kb,
                repos[j].0,
            ) by {
                assert(pre[j] == repos[j]);
            }
            assert(is_first_path_match(repos, b, repo_root, home));
        }
    } else {
        if k < n {
            assert(pre[k] == repos[k]);
        }
        assert(k == n);
        assert forall|j: int|
            0 <= j < repos.len() && path_key_matches(#[trigger] repos[j].0, repo_root, home) implies !text_lt(
            repos[j].0,
            last,
        ) by {
            if j < n {
                assert(pre[j] == repos[j]);
            }
            lemma_text_lt_asymmetric(repos[j].0, last);
        }
        assert forall|j: int|
            0 <= j < n && path_key_matches(#[trigger] repos[j].0, repo_root, home) implies text_lt(
            last,
            repos[j].0,
        ) by {
            assert(pre[j] == repos[j]);
        }
        assert(is_first_path_match(repos, n, repo_root, home));
    }
}

/// A path key wins over a name key for the same repository: as soon as one
/// path key names the repository's root, the table that applies is keyed by
/// such a path (the first of them in key order).
pub proof fn law_path_key_wins_over_name_key(
    repos: Seq<(Seq<char>, SectionView)>,
    repo_name: Seq<char>,
    repo_root: Seq<char>,
    home: Option<Seq<char>>,
    k: int,
)
    requires
        0 <= k < repos.len(),
        path_key_matches(repos[k].0, repo_root, home),
    ensures
        exists|i: int|
            is_first_path_match(repos, i, repo_root, home) && section_for_spec(
                repos,
                repo_name,
                repo_root,
                home,
            ) == Some(repos[i].1),
{
    lemma_first_path_match_exists(repos, k, repo_root, home);
    let i = choose|i: int| is_first_path_match(repos, i, repo_root, home);
    assert(is_first_path_match(repos, i, repo_root, home) && section_for_spec(
        repos,
        repo_name,
        repo_root,
        home,
    ) == Some(repos[i].1));
}

/// The resolved lists never hold a text twice, and they hold exactly the
/// texts of the tables that apply: the repository's own table alone when it
/// sets `inherit = false`, else `[defaults]` (or the built-in defaults) and
/// the repository's table, if any.
pub proof fn law_resolved_lists(c: ConfigView, repo_name: Seq<char>, repo_root: Seq<char>, home: Option<Seq<char>>)
    ensures
        ({
            let r = resolve_spec(c, repo_name, repo_root, home);
            let d = effective_defaults(c);
            &&& forall|i: int, j: int| 0 <= i < j < r.copy.len() ==> r.copy[i] != r.copy[j]
            &&& forall|i: int, j: int| 0 <= i < j < r.run.len() ==> r.run[i] != r.run[j]
            &&& forall|x: Seq<char>|
                r.copy.contains(x) <==> match section_for_spec(c.repos, repo_name, repo_root, home) {
                    None => d.copy.contains(x),
                    Some(s) => if s.inherit == Some(false) {
                        s.copy.contains(x)
                    } else {
                        d.copy.contains(x) || s.copy.contains(x)
                    },
                }
            &&& forall|x: Seq<char>|
                r.run.contains(x) <==> match section_for_spec(c.repos, repo_name, repo_root, home) {
                    None => d.run.contains(x),
                    Some(s) => if s.inherit == Some(false) {
                        s.run.contains(x)
                    } else {
                        d.run.contains(x) || s.run.contains(x)
                    },
                }
        }),
{
    let d = effective_defaults(c);
    match section_for_spec(c.repos, repo_name, repo_root, home) {
        None => {
            lemma_dedup(d.copy);
            lemma_dedup(d.run);
        },
        Some(s) => {
            if s.inherit == Some(false) {
                lemma_dedup(s.copy);
                lemma_dedup(s.run);
            } else {
                lemma_dedup(d.copy + s.copy);
                lemma_dedup(d.run + s.run);
                lemma_concat_contains(d.copy, s.copy);
                lemma_concat_contains(d.run, s.run);
            }
        },
    }
}

proof fn lemma_concat_contains(a: Seq<Seq<char>>, b: Seq<Seq<char>>)
    ensures
        forall|x: Seq<char>| (a + b).contains(x) <==> a.contains(x) || b.contains(x),
{
    assert forall|x: Seq<char>| (a + b).contains(x) <==> a.contains(x) || b.contains(x) by {
        if (a + b).contains(x) {
            let k = choose|k: int| 0 <= k < (a + b).len() && (a + b)[k] == x;
            if k < a.len() {
                assert(a[k] == x);
            } else {
                assert(b[k - a.len()] == x);
            }
        }
        if a.contains(x) {
            let k = choose|k: int| 0 <= k < a.len() && a[k] == x;
            assert((a + b)[k] == x);
        }
        if b.contains(x) {
            let k = choose|k: int| 0 <= k < b.len() && b[k] == x;
            assert((a + b)[k + a.len()] == x);
        }
    }
}

/// With no configuration file at all, every repository copies `.env` and
/// `.env.local` and runs nothing.
pub proof fn law_no_config_copies_env_files(repo_name: Seq<char>, repo_root: Seq<char>, home: Option<Seq<char>>)
    ensures
        ({
            let c = ConfigView { shell: None, fresh_window_secs: None, defaults: None, repos: Seq::empty() };
            resolve_spec(c, repo_name, repo_root, home) == ResolvedView {
                copy: seq![".env"@, ".env.local"@],
                run: Seq::empty(),
            }
        }),
{
    let c = ConfigView { shell: None, fresh_window_secs: None, defaults: None, repos: Seq::empty() };
    reveal_strlit(".env");
    reveal_strlit(".env.local");
    assert(".env"@ != ".env.local"@) by {
        assert(".env"@.len() != ".env.local"@.len());
    }
    assert(!(exists|i: int| is_first_path_match(c.repos, i, repo_root, home)));
    assert(!(exists|i: int| is_first_named(c.repos, i, repo_name)));
    let copy = seq![".env"@, ".env.local"@];
    assert(copy.drop_last() =~= seq![".env"@]);
    assert(seq![".env"@].drop_last() =~= Seq::<Seq<char>>::empty());
    assert(dedup_spec(Seq::<Seq<char>>::empty()) =~= Seq::<Seq<char>>::empty());
    assert(!Seq::<Seq<char>>::empty().contains(".env"@));
    assert(Seq::<Seq<char>>::empty().push(".env"@) =~= seq![".env"@]);
    assert(dedup_spec(seq![".env"@]) =~= seq![".env"@]);
    assert(!seq![".env"@].contains(".env.local"@)) by {
        if seq![".env"@].contains(".env.local"@) {
            assert(seq![".env"@][0] == ".env.local"@);
        }
    }
    assert(dedup_spec(copy) =~= copy);
}


impl Clone for Section {
    fn clone(&self) -> (c: Section)
        ensures
            c@ == self@,
    {
        let copy = concat_texts(&self.copy, &Vec::new());
        let run = concat_texts(&self.run, &Vec::new());
        proof {
            assert(views(copy@) =~= views(self.copy@));
            assert(views(run@) =~= views(self.run@));
        }
        Section { copy, run, inherit: self.inherit }
    }
}

} // verus!
