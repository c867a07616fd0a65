//! The effects of confirmed `unregister`, `delete` and `repair` operations on
//! the index.

use vstd::prelude::*;
use crate::dispatch::script_path;
use crate::handlers::OperationPlan;
use crate::index_manager::{
    find_project, kept, names_under, put_project, remove_from_index, reparent_children,
    reparent_from, upsert, IndexError, IndexErrorView,
};
use crate::models::{GlobalIndex, GlobalIndexView, IndexEntryView, ProjectRef, copy_entry};
use crate::parameters::strs_view;
use crate::paths::{paths_equal, same_path};
use crate::text::{str_eq, trim, trim_str};

verus! {

/// The index after moving the children of `old_p` under `new_p`, and the
/// warnings or the error of the move (see [`reparent_children`]).
pub open spec fn reparented(v: GlobalIndexView, old_p: u128, new_p: u128) -> (
    GlobalIndexView,
    Result<Seq<Seq<char>>, IndexErrorView>,
) {
    if old_p == new_p {
        (v, Ok(Seq::empty()))
    } else {
        match v.entry(old_p) {
            None => (v, Err(IndexErrorView::ProjectNotFoundInIndex { uuid: old_p })),
            Some(pe) => {
                let (ps, res) = reparent_from(
                    v.projects,
                    0,
                    old_p,
                    new_p,
                    pe.name,
                    names_under(v.projects, new_p),
                    Seq::empty(),
                );
                (
                    GlobalIndexView { projects: ps, ..v },
                    match res {
                        Ok(w) => Ok(w),
                        Err(sug) => Err(IndexErrorView::NameAlreadyExists { name: sug }),
                    },
                )
            },
        }
    }
}

/// The index without the listed projects.
pub open spec fn without_projects(v: GlobalIndexView, ids: Seq<u128>) -> GlobalIndexView {
    GlobalIndexView { projects: kept(v.projects, ids), ..v }
}

/// Applies a confirmed `unregister` or `delete` plan to the index: unless the
/// plan is recursive, the children of the target first move under
/// `new_parent_uuid`; then the planned projects leave the index. Returns how
/// many left, and the warnings of the plan followed by those of the move.
pub fn apply_removal_plan(
    index: &mut GlobalIndex,
    target_uuid: u128,
    plan: &OperationPlan,
    is_recursive: bool,
    new_parent_uuid: u128,
) -> (r: Result<(usize, Vec<String>), IndexError>)
    requires
        old(index)@.wf(),
    ensures
        final(index)@.wf(),
        ({
            let v = old(index)@;
            if is_recursive {
                &&& final(index)@ == without_projects(v, plan.uuids_to_remove@)
                &&& r is Ok
                &&& r->Ok_0.0 == v.projects.len() - final(index)@.projects.len()
                &&& strs_view(r->Ok_0.1@) == strs_view(plan.reparent_warnings@)
            } else {
                let (mid, res) = reparented(v, target_uuid, new_parent_uuid);
                match res {
                    Err(e) => r is Err && r->Err_0@ == e && final(index)@ == mid,
                    Ok(w) => {
                        &&& final(index)@ == without_projects(mid, plan.uuids_to_remove@)
                        &&& r is Ok
                        &&& r->Ok_0.0 == mid.projects.len() - final(index)@.projects.len()
                        &&& strs_view(r->Ok_0.1@) == strs_view(plan.reparent_warnings@) + w
                    },
                }
            }
        }),
{
    let mut warnings: Vec<String> = plan.reparent_warnings.clone();
    assert(strs_view(warnings@) == strs_view(plan.reparent_warnings@));
    if !is_recursive {
        let moved = reparent_children(index, target_uuid, new_parent_uuid)?;
        let ghost before = strs_view(warnings@);
        let mut i: usize = 0;
        while i < moved.len()
            invariant
                i <= moved@.len(),
                strs_view(warnings@) == before + strs_view(moved@).subrange(0, i as int),
            decreases moved@.len() - i,
        {
            let ghost w0 = strs_view(warnings@);
            warnings.push(moved[i].clone());
            assert(strs_view(warnings@) =~= w0.push(strs_view(moved@)[i as int]));
            assert(strs_view(moved@).subrange(0, i + 1) =~= strs_view(moved@).subrange(
                0,
                i as int,
            ).push(strs_view(moved@)[i as int]));
            i = i + 1;
        }
        assert(strs_view(moved@).subrange(0, i as int) =~= strs_view(moved@));
    }
    let removed = remove_from_index(index, plan.uuids_to_remove.as_slice());
    Ok((removed, warnings))
}

/// The name to type to confirm a recursive `delete`: the last part of the
/// qualified name; `None` when it is empty.
pub open spec fn delete_confirmation_name(qualified_name: Seq<char>) -> Option<Seq<char>> {
    let last = script_path(qualified_name).1;
    if last.len() == 0 {
        None
    } else {
        Some(last)
    }
}

/// The name to type to confirm a recursive `delete`.
pub fn recursive_delete_name(qualified_name: &str) -> (r: Option<String>)
    ensures
        crate::models::opt_str(r) == delete_confirmation_name(qualified_name@),
{
    let (_, last) = crate::dispatch::parse_script_path(qualified_name);
    if last.unicode_len() == 0 {
        None
    } else {
        Some(last)
    }
}

/// Whether the typed confirmation matches the name, surrounding whitespace
/// aside.
pub fn delete_confirmed(typed: &str, name: &str) -> (r: bool)
    ensures
        r == (trim(typed@) == name@),
{
    let t = trim_str(typed);
    str_eq(t.as_str(), name)
}

// =========================================================================
// === Repair
// =========================================================================

/// A project whose identity was found at another path than the index records.
#[derive(Debug, Clone)]
pub struct PathMismatch {
    pub uuid: u128,
    pub name: String,
    pub old_path: String,
    pub new_path: String,
}

/// The mismatch of an identity found at `found_path`, if its project is
/// registered at another path.
pub fn path_mismatch(index: &GlobalIndex, found_path: &str, project_ref: &ProjectRef) -> (r: Option<
    PathMismatch,
>)
    requires
        index@.wf(),
    ensures
        match index@.entry(project_ref.self_uuid) {
            Some(e) => if same_path(e.path, found_path@) {
                r is None
            } else {
                r matches Some(m) && m.uuid == project_ref.self_uuid && m.name@ == project_ref.name@
                    && m.old_path@ == e.path && m.new_path@ == found_path@
            },
            None => r is None,
        },
{
    match find_project(index, project_ref.self_uuid) {
        Some(i) => {
            assert(index@.projects[i as int].1 == index.projects@[i as int].1@);
            let e = &index.projects[i].1;
            if paths_equal(e.path.as_str(), found_path) {
                None
            } else {
                Some(
                    PathMismatch {
                        uuid: project_ref.self_uuid,
                        name: project_ref.name.clone(),
                        old_path: e.path.clone(),
                        new_path: crate::text::owned(found_path),
                    },
                )
            }
        },
        None => None,
    }
}

/// The index after the fixes, in order, with the number of projects fixed:
/// each registered project takes its new path.
pub open spec fn fixes_applied(v: GlobalIndexView, ms: Seq<PathMismatch>) -> (GlobalIndexView, nat)
    decreases ms.len(),
{
    if ms.len() == 0 {
        (v, 0)
    } else {
        let (w, n) = fixes_applied(v, ms.drop_last());
        let m = ms.last();
        match w.entry(m.uuid) {
            Some(e) => (
                GlobalIndexView {
                    projects: upsert(w.projects, m.uuid, IndexEntryView { path: m.new_path@, ..e }),
                    ..w
                },
                n + 1,
            ),
            None => (w, n),
        }
    }
}

/// Moves each registered project of the mismatches to the path where it was
/// found, and returns how many were fixed.
pub fn apply_path_fixes(index: &mut GlobalIndex, mismatches: &Vec<PathMismatch>) -> (r: usize)
    requires
        old(index)@.wf(),
        mismatches@.len() <= usize::MAX,
    ensures
        final(index)@.wf(),
        (final(index)@, r as nat) == fixes_applied(old(index)@, mismatches@),
{
    let mut fixed: usize = 0;
    let mut k: usize = 0;
    while k < mismatches.len()
        invariant
            k <= mismatches@.len(),
            index@.wf(),
            fixed <= k,
            (index@, fixed as nat) == fixes_applied(old(index)@, mismatches@.subrange(0, k as int)),
        decreases mismatches@.len() - k,
    {
        assert(mismatches@.subrange(0, k + 1).drop_last() =~= mismatches@.subrange(0, k as int));
        let m = &mismatches[k];
        match find_project(index, m.uuid) {
            Some(i) => {
                assert(index@.projects[i as int].1 == index.projects@[i as int].1@);
                let mut e = copy_entry(&index.projects[i].1);
                e.path = m.new_path.clone();
                put_project(index, m.uuid, e);
                fixed = fixed + 1;
            },
            None => {},
        }
        k = k + 1;
    }
    assert(mismatches@.subrange(0, k as int) =~= mismatches@);
    fixed
}

/// The depth of the directory scan: unlimited or as given when recursive, the
/// start directory and its children otherwise.
pub fn scan_depth(recursive: bool, depth: Option<usize>) -> (r: Option<usize>)
    ensures
        r == if recursive {
            depth
        } else {
            Some(1usize)
        },
{
    if recursive {
        depth
    } else {
        Some(1)
    }
}


// =========================================================================
// === Cache of a project
// =========================================================================

/// The cache file that the index records for a project: its hash under its
/// cache directory, when both are recorded.
pub fn cache_file_for(index: &GlobalIndex, uuid: u128) -> (r: Option<String>)
    requires
        index@.wf(),
        index@.has(uuid),
    ensures
        ({
            let e = index@.entry(uuid)->Some_0;
            match (e.cache_dir, e.config_hash) {
                (Some(d), Some(h)) => r is Some && r->Some_0@ == crate::paths::joined_path(d, h),
                _ => r is None,
            }
        }),
{
    let i = find_project(index, uuid).unwrap();
    assert(index@.projects[i as int].1 == index.projects@[i as int].1@);
    let e = &index.projects[i].1;
    match (&e.cache_dir, &e.config_hash) {
        (Some(d), Some(h)) => Some(crate::paths::join_path(d.as_str(), h.as_str())),
        _ => None,
    }
}

/// Forgets the cache of a project in the index (its hash and its cache
/// directory); tells whether there was anything to forget.
pub fn clear_cache_info(index: &mut GlobalIndex, uuid: u128) -> (r: bool)
    requires
        old(index)@.wf(),
        old(index)@.has(uuid),
    ensures
        final(index)@.wf(),
        ({
            let v = old(index)@;
            let e = v.entry(uuid)->Some_0;
            &&& r == (e.config_hash is Some || e.cache_dir is Some)
            &&& final(index)@ == (GlobalIndexView {
                projects: upsert(v.projects, uuid, IndexEntryView { config_hash: None, cache_dir: None, ..e }),
                ..v
            })
        }),
{
    let i = find_project(index, uuid).unwrap();
    assert(index@.projects[i as int].1 == index.projects@[i as int].1@);
    let mut e = copy_entry(&index.projects[i].1);
    let had = e.config_hash.is_some() || e.cache_dir.is_some();
    e.config_hash = None;
    e.cache_dir = None;
    put_project(index, uuid, e);
    had
}

} // verus!
