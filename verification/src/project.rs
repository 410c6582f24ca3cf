//! Project discovery: the project a working directory belongs to.
//!
//! A project is the nearest ancestor directory (of a working directory) containing either a
//! `.git` entry (directory, or file in the case of worktrees and submodules) or a `.tars`
//! directory. The project name is the discovered root's directory name.

use vstd::prelude::*;

use crate::config::{merge_alias_maps, operator_aliases_path, AliasMap};
use crate::path::{file_name, parent};
use crate::paths::Paths;
use crate::strmap::StrMap;

verus! {

/// A discovered project: its root directory and derived name.
#[derive(Debug, PartialEq, Eq)]
pub struct Project {
    /// Directory holding the project marker (`.git` / `.tars`).
    pub root: String,
    /// The root directory's file name; `None` when the root is `/`.
    pub name: Option<String>,
}

/// What a [`Project`] holds.
#[verifier::ext_equal]
pub struct ProjectView {
    pub root: Seq<char>,
    pub name: Option<Seq<char>>,
}

impl View for Project {
    type V = ProjectView;

    open spec fn view(&self) -> ProjectView {
        ProjectView { root: self.root@, name: self.name.deep_view() }
    }
}

impl DeepView for Project {
    type V = ProjectView;

    open spec fn deep_view(&self) -> ProjectView {
        self@
    }
}

/// A directory and all directories above it, nearest first.
pub open spec fn ancestors(dir: Seq<char>) -> Seq<Seq<char>>
    decreases dir.len(),
{
    match crate::path::parent_of(dir) {
        Some(p) => if p.len() < dir.len() {
            seq![dir] + ancestors(p)
        } else {
            seq![dir]
        },
        None => seq![dir],
    }
}

/// The directories in which a project may be rooted, nearest first: those at and above the working
/// directory, or above the path where it is no directory.
pub open spec fn candidates_of(cwd: Seq<char>, is_dir: bool) -> Seq<Seq<char>> {
    if is_dir {
        ancestors(cwd)
    } else {
        match crate::path::parent_of(cwd) {
            Some(p) => ancestors(p),
            None => seq![],
        }
    }
}

/// The project rooted at a directory.
pub open spec fn project_at(root: Seq<char>) -> ProjectView {
    ProjectView { root, name: crate::path::name_of(root) }
}

/// The first of the directories that is marked, starting at `from`.
pub open spec fn first_marked(dirs: Seq<Seq<char>>, marked: Seq<bool>, from: int) -> Option<
    ProjectView,
>
    decreases dirs.len() - from,
{
    if from >= dirs.len() || from >= marked.len() {
        None
    } else if marked[from] {
        Some(project_at(dirs[from]))
    } else {
        first_marked(dirs, marked, from + 1)
    }
}

/// Whether a directory is the root of a project.
pub fn is_project_root(git_exists: bool, tars_is_dir: bool) -> (r: bool)
    ensures
        r == (git_exists || tars_is_dir),
{
    git_exists || tars_is_dir
}

/// The directories in which a project may be rooted, nearest first.
pub fn candidates(cwd: &str, is_dir: bool) -> (r: Vec<String>)
    ensures
        r.deep_view() == candidates_of(cwd@, is_dir),
{
    let mut out: Vec<String> = Vec::new();
    let mut dir: String = if is_dir {
        cwd.to_owned()
    } else {
        match parent(cwd) {
            Some(p) => p,
            None => {
                assert(out.deep_view() =~= seq![]);
                return out;
            },
        }
    };
    let ghost all = ancestors(dir@);
    assert(out.deep_view() + ancestors(dir@) =~= all);
    loop
        invariant_except_break
            out.deep_view() + ancestors(dir@) == all,
        ensures
            out.deep_view() == all,
        decreases dir@.len(),
    {
        let ghost before = out.deep_view();
        let ghost here = dir@;
        proof {
            crate::path::law_parent_is_shorter(here);
        }
        let up = parent(dir.as_str());
        out.push(dir);
        assert(out.deep_view() =~= before.push(here));
        match up {
            Some(p) => {
                assert(before + ancestors(here) =~= before.push(here) + ancestors(p@));
                dir = p;
            },
            None => {
                assert(before + ancestors(here) =~= before.push(here));
                break;
            },
        }
    }
    out
}

/// Discover the project containing `cwd`: the nearest of its candidate directories that is a
/// project root. `marked` says of each candidate whether it is one.
pub fn discover(cwd: &str, is_dir: bool, marked: &Vec<bool>) -> (r: Option<Project>)
    ensures
        r.deep_view() == first_marked(candidates_of(cwd@, is_dir), marked@, 0),
{
    let dirs = candidates(cwd, is_dir);
    let ghost all = candidates_of(cwd@, is_dir);
    let mut i: usize = 0;
    while i < dirs.len() && i < marked.len()
        invariant
            i <= dirs.len(),
            i <= marked.len(),
            all == candidates_of(cwd@, is_dir),
            all == dirs.deep_view(),
            first_marked(all, marked@, 0) == first_marked(all, marked@, i as int),
        decreases dirs.len() - i,
    {
        assert(all[i as int] == dirs[i as int]@);
        if marked[i] {
            return Some(
                Project { root: dirs[i].clone(), name: file_name(dirs[i].as_str()) },
            );
        }
        i = i + 1;
    }
    None
}

/// The nearest marker wins: every nearer candidate is unmarked.
pub proof fn law_nearest_marker_wins(dirs: Seq<Seq<char>>, marked: Seq<bool>, from: int)
    requires
        0 <= from,
        dirs.len() == marked.len(),
    ensures
        match first_marked(dirs, marked, from) {
            Some(p) => exists|i: int|
                from <= i < dirs.len() && #[trigger] marked[i] && p == project_at(dirs[i])
                    && forall|j: int| from <= j < i ==> !#[trigger] marked[j],
            None => forall|j: int| from <= j < dirs.len() ==> !#[trigger] marked[j],
        },
    decreases dirs.len() - from,
{
    if from < dirs.len() {
        if marked[from] {
            assert(marked[from] && first_marked(dirs, marked, from) == Some(
                project_at(dirs[from]),
            ));
        } else {
            law_nearest_marker_wins(dirs, marked, from + 1);
            if let Some(p) = first_marked(dirs, marked, from + 1) {
                let i = choose|i: int|
                    from + 1 <= i < dirs.len() && #[trigger] marked[i] && p == project_at(dirs[i])
                        && forall|j: int| from + 1 <= j < i ==> !#[trigger] marked[j];
                assert(marked[i]);
            }
        }
    }
}

/// The file of the operator aliases for a project; `None` when there is no project or it has no
/// name.
pub fn operator_alias_tier(project: Option<&Project>, paths: &Paths) -> (r: Option<String>)
    ensures
        match r {
            Some(p) => project is Some && project->0@.name is Some && p@ == crate::path::joined(
                crate::paths::joined2(paths@.config_dir, "projects"@, project->0@.name->0),
                "models.toml"@,
            ),
            None => project is None || project->0@.name is None,
        },
{
    match project {
        Some(p) => match &p.name {
            Some(name) => Some(operator_aliases_path(paths, name.as_str())),
            None => None,
        },
        None => None,
    }
}

/// Resolve `raw` through the project-scoped config tier: operator aliases take priority over
/// global aliases.
///
/// The alias target when `raw` is a known alias, `None` otherwise (the caller keeps `raw` as a
/// literal model id).
pub fn alias_target_for_cwd(raw: &str, operator: Option<AliasMap>, global: AliasMap) -> (r: Option<
    String,
>)
    ensures
        r.deep_view() == (if operator is Some && operator->0@.contains_key(raw@) {
            Some(operator->0@[raw@]@)
        } else if global@.contains_key(raw@) {
            Some(global@[raw@]@)
        } else {
            None
        }),
{
    let tier: AliasMap = match operator {
        Some(m) => m,
        None => StrMap::new(),
    };
    let merged = merge_alias_maps(tier, global);
    match merged.get(raw) {
        Some(target) => Some(target.clone()),
        None => None,
    }
}

/// The directories that are looked at start with the one that was given; each next one is the parent of
/// the one before it, up to one that has no parent.
pub proof fn law_ancestors_are_parents(dir: Seq<char>)
    ensures
        ancestors(dir).len() > 0,
        ancestors(dir)[0] == dir,
        forall|i: int|
            0 <= i < ancestors(dir).len() - 1 ==> crate::path::parent_of(
                #[trigger] ancestors(dir)[i],
            ) == Some(ancestors(dir)[i + 1]),
        crate::path::parent_of(ancestors(dir).last()) is None,
    decreases dir.len(),
{
    crate::path::law_parent_is_shorter(dir);
    let all = ancestors(dir);
    if let Some(p) = crate::path::parent_of(dir) {
        law_ancestors_are_parents(p);
        let above = ancestors(p);
        assert forall|i: int| 0 <= i < all.len() - 1 implies crate::path::parent_of(
            #[trigger] all[i],
        ) == Some(all[i + 1]) by {
            if i > 0 {
                assert(all[i] == above[i - 1]);
            }
            assert(all[i + 1] == above[i]);
        }
        assert(all.last() == above.last());
    }
}

/// A project is looked for from the working directory on, or from the directory that holds the path
/// where that is no directory. It goes by the name of its root.
pub proof fn law_candidates(cwd: Seq<char>, root: Seq<char>)
    ensures
        candidates_of(cwd, true).len() > 0,
        candidates_of(cwd, true)[0] == cwd,
        crate::path::parent_of(cwd) matches Some(p) ==> candidates_of(cwd, false)
            == candidates_of(p, true),
        crate::path::parent_of(cwd) is None ==> candidates_of(cwd, false).len() == 0,
        project_at(root).root == root,
        project_at(root).name == crate::path::name_of(root),
{
    law_ancestors_are_parents(cwd);
}

} // verus!
