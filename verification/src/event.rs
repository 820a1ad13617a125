use vstd::prelude::*;

use crate::json::{
    bool_member, bool_member_spec, collect, collect_objects, find_object, first_object,
    objects_view, str_member, str_member_spec, Json, Pattern, PatternView,
};

verus! {

/// The worktree a hook run is about, as herdr describes it.
#[derive(Debug, PartialEq, Eq)]
pub struct WorktreeTarget {
    pub repo_name: String,
    pub repo_root: String,
    pub checkout_path: String,
    pub is_linked_worktree: bool,
    pub branch: Option<String>,
}

/// What a [`WorktreeTarget`] holds, as texts.
pub struct TargetView {
    pub repo_name: Seq<char>,
    pub repo_root: Seq<char>,
    pub checkout_path: Seq<char>,
    pub is_linked_worktree: bool,
    pub branch: Option<Seq<char>>,
}

impl View for WorktreeTarget {
    type V = TargetView;

    open spec fn view(&self) -> TargetView {
        TargetView {
            repo_name: self.repo_name@,
            repo_root: self.repo_root@,
            checkout_path: self.checkout_path@,
            is_linked_worktree: self.is_linked_worktree,
            branch: match self.branch {
                Some(b) => Some(b@),
                None => None,
            },
        }
    }
}

/// The views of a list of targets.
pub open spec fn targets_view(ts: Seq<WorktreeTarget>) -> Seq<TargetView> {
    ts.map_values(|t: WorktreeTarget| t@)
}

/// The workspace id named first in `payload`.
pub open spec fn workspace_id_spec(payload: Json) -> Option<Seq<char>> {
    match first_object(payload, PatternView::WorkspaceId) {
        Some(m) => str_member_spec(m, "workspace_id"@),
        None => None,
    }
}

/// The branch of the checkout at `checkout_path`, from the first object in
/// `payload` whose `path` is that checkout and that carries a branch.
pub open spec fn branch_spec(payload: Json, checkout_path: Seq<char>) -> Option<Seq<char>> {
    match first_object(payload, PatternView::BranchOf(checkout_path)) {
        Some(m) => str_member_spec(m, "branch"@),
        None => None,
    }
}

/// The target described by the worktree object `m` found in `payload`: a
/// missing `repo_name` reads as empty, a missing `is_linked_worktree` as false.
pub open spec fn target_of(payload: Json, m: Seq<(String, Json)>) -> TargetView {
    let checkout_path = str_member_spec(m, "checkout_path"@).unwrap();
    TargetView {
        repo_name: match str_member_spec(m, "repo_name"@) {
            Some(n) => n,
            None => Seq::empty(),
        },
        repo_root: str_member_spec(m, "repo_root"@).unwrap(),
        checkout_path,
        is_linked_worktree: match bool_member_spec(m, "is_linked_worktree"@) {
            Some(b) => b,
            None => false,
        },
        branch: branch_spec(payload, checkout_path),
    }
}

/// Every worktree described anywhere in `payload`, in document order.
pub open spec fn targets_spec(payload: Json) -> Seq<TargetView> {
    collect(payload, PatternView::WorktreeInfo).map_values(|m: Seq<(String, Json)>| target_of(payload, m))
}

/// The first worktree described in `payload`.
pub open spec fn target_spec(payload: Json) -> Option<TargetView> {
    if targets_spec(payload).len() > 0 {
        Some(targets_spec(payload)[0])
    } else {
        None
    }
}

/// The workspace id that `payload` names first, if any.
pub fn find_workspace_id(payload: &Json) -> (id: Option<String>)
    ensures
        match id {
            Some(s) => workspace_id_spec(*payload) == Some(s@),
            None => workspace_id_spec(*payload).is_none(),
        },
{
    proof {
        if collect(*payload, PatternView::WorkspaceId).len() > 0 {
            crate::json::lemma_collect_matches(*payload, PatternView::WorkspaceId, 0);
        }
    }
    match find_object(payload, &Pattern::WorkspaceId) {
        Some(obj) => match str_member(obj, "workspace_id") {
            Some(s) => Some(s.clone()),
            None => Some(String::new()),
        },
        None => None,
    }
}

/// The branch lives on a sibling object keyed by `path`, so the one that
/// describes this checkout is preferred over any other in the payload.
fn find_branch(payload: &Json, checkout_path: &String) -> (b: Option<String>)
    ensures
        match b {
            Some(s) => branch_spec(*payload, checkout_path@) == Some(s@),
            None => branch_spec(*payload, checkout_path@).is_none(),
        },
{
    let pattern = Pattern::BranchOf(checkout_path.clone());
    proof {
        if collect(*payload, pattern@).len() > 0 {
            crate::json::lemma_collect_matches(*payload, pattern@, 0);
        }
    }
    match find_object(payload, &pattern) {
        Some(obj) => match str_member(obj, "branch") {
            Some(s) => Some(s.clone()),
            None => Some(String::new()),
        },
        None => None,
    }
}

/// Every worktree described anywhere in `payload`, in document order; used
/// to seed claims from a `workspace list` response, which carries one entry
/// per open workspace.
pub fn find_targets(payload: &Json) -> (targets: Vec<WorktreeTarget>)
    ensures
        targets_view(targets@) == targets_spec(*payload),
{
    let mut found: Vec<&Vec<(String, Json)>> = Vec::new();
    collect_objects(payload, &Pattern::WorktreeInfo, &mut found);
    let ghost objs = collect(*payload, PatternView::WorktreeInfo);
    assert(objects_view(found@) =~= objs);
    let mut targets: Vec<WorktreeTarget> = Vec::new();
    let mut i: usize = 0;
    while i < found.len()
        invariant
            i <= found@.len(),
            objects_view(found@) == objs,
            objs == collect(*payload, PatternView::WorktreeInfo),
            targets@.len() == i,
            targets_view(targets@) == targets_spec(*payload).take(i as int),
        decreases found@.len() - i,
    {
        let info = found[i];
        assert(objs[i as int] == info@);
        assert(crate::json::pattern_matches(PatternView::WorktreeInfo, info@)) by {
            crate::json::lemma_collect_matches(*payload, PatternView::WorktreeInfo, i as int);
        }
        let checkout_path = match str_member(info, "checkout_path") {
            Some(s) => s.clone(),
            None => String::new(),
        };
        let repo_root = match str_member(info, "repo_root") {
            Some(s) => s.clone(),
            None => String::new(),
        };
        let repo_name = match str_member(info, "repo_name") {
            Some(s) => s.clone(),
            None => String::new(),
        };
        let is_linked_worktree = match bool_member(info, "is_linked_worktree") {
            Some(b) => b,
            None => false,
        };
        let branch = find_branch(payload, &checkout_path);
        let ghost before = targets@;
        targets.push(WorktreeTarget { repo_name, repo_root, checkout_path, is_linked_worktree, branch });
        proof {
            assert(targets@[i as int]@ == target_of(*payload, objs[i as int]));
            assert(targets_view(targets@) =~= targets_view(before).push(targets@[i as int]@));
            assert(targets_spec(*payload).take(i + 1) =~= targets_spec(*payload).take(i as int).push(
                targets_spec(*payload)[i as int],
            ));
        }
        i = i + 1;
    }
    assert(targets_spec(*payload).take(i as int) =~= targets_spec(*payload));
    targets
}

/// The first worktree described in `payload`. The payload shape differs per
/// event, so the object that carries the fields is searched for rather than
/// read at a fixed path.
pub fn find_target(payload: &Json) -> (target: Option<WorktreeTarget>)
    ensures
        match target {
            Some(t) => target_spec(*payload) == Some(t@),
            None => target_spec(*payload).is_none(),
        },
{
    let mut targets = find_targets(payload);
    if targets.len() > 0 {
        let t = targets.swap_remove(0);
        assert(targets_spec(*payload)[0] == t@);
        Some(t)
    } else {
        None
    }
}


/// How the worktree of an event is found.
#[derive(Debug)]
pub enum TargetResolution {
    /// The payload describes the worktree.
    Found(WorktreeTarget),
    /// Nothing names a workspace, so there is no worktree in scope.
    Nothing,
    /// Only this workspace id is known: its description has to be fetched
    /// (`herdr workspace get`), and the worktree is the one [`find_target`]
    /// finds in the reply.
    Fetch(String),
}

/// The payload as a plain value, when there is one.
pub open spec fn opt_json(payload: Option<&Json>) -> Option<Json> {
    match payload {
        Some(p) => Some(*p),
        None => None,
    }
}

/// The workspace id to fetch when the payload describes no worktree: the one
/// the payload names, else the hint.
pub open spec fn lookup_id_spec(payload: Option<Json>, hint: Option<Seq<char>>) -> Option<Seq<char>> {
    let named = match payload {
        Some(p) => workspace_id_spec(p),
        None => None,
    };
    match named {
        Some(id) => Some(id),
        None => hint,
    }
}

/// A payload that names only a workspace, and the `apply` action, which starts
/// from nothing but the focused workspace id, need the paths fetched back from
/// herdr before anything else can be decided. A payload that describes the
/// worktree never leads to a fetch.
pub fn resolve_target(payload: Option<&Json>, workspace_id_hint: Option<&str>) -> (r: TargetResolution)
    ensures
        match opt_json(payload) {
            Some(p) if target_spec(p).is_some() => r matches TargetResolution::Found(t) && Some(t@)
                == target_spec(p),
            _ => match lookup_id_spec(opt_json(payload), crate::config::opt_text(workspace_id_hint)) {
                Some(id) => r matches TargetResolution::Fetch(s) && s@ == id,
                None => r is Nothing,
            },
        },
        match payload {
            Some(p) => (target_spec(*p) is None) ==> (match workspace_id_spec(*p) {
                Some(id) => (r matches TargetResolution::Fetch(s) && s@ == id),
                None => (match workspace_id_hint {
                    Some(h) => (r matches TargetResolution::Fetch(s) && s@ == h@),
                    None => (r is Nothing),
                }),
            }),
            None => (match workspace_id_hint {
                Some(h) => (r matches TargetResolution::Fetch(s) && s@ == h@),
                None => (r is Nothing),
            }),
        },
{
    if let Some(p) = payload {
        if let Some(t) = find_target(p) {
            return TargetResolution::Found(t);
        }
    }
    let named = match payload {
        Some(p) => find_workspace_id(p),
        None => None,
    };
    match named {
        Some(id) => TargetResolution::Fetch(id),
        None => match workspace_id_hint {
            Some(h) => TargetResolution::Fetch(h.to_owned()),
            None => TargetResolution::Nothing,
        },
    }
}


/// The workspace a payload names is the one fetched, whatever the hint; the
/// hint (the focused workspace) is used only when the payload names none.
pub proof fn law_named_workspace_beats_hint(payload: Json, hint: Option<Seq<char>>, other: Option<Seq<char>>)
    ensures
        lookup_id_spec(None, hint) == hint,
        match workspace_id_spec(payload) {
            Some(id) => lookup_id_spec(Some(payload), hint) == Some(id) && lookup_id_spec(
                Some(payload),
                other,
            ) == Some(id),
            None => lookup_id_spec(Some(payload), hint) == hint,
        },
{
}


impl Clone for WorktreeTarget {
    fn clone(&self) -> (c: WorktreeTarget)
        ensures
            c@ == self@,
    {
        WorktreeTarget {
            repo_name: self.repo_name.clone(),
            repo_root: self.repo_root.clone(),
            checkout_path: self.checkout_path.clone(),
            is_linked_worktree: self.is_linked_worktree,
            branch: match &self.branch {
                Some(b) => Some(b.clone()),
                None => None,
            },
        }
    }
}

} // verus!
