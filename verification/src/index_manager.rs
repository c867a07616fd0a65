//! Operations on the global project index: registration, the parent tree
//! (descendants, linking, reparenting, cycle detection), qualified names, renames
//! and aliases.

use vstd::prelude::*;
use crate::models::{
    copy_entry, global_uuid, GlobalIndex, GlobalIndexView, IndexEntry, IndexEntryView, ProjectRef,
};
use crate::text::{owned, str_eq};

verus! {

/// The well-known UUID of the virtual global project.
pub const GLOBAL_PROJECT_UUID: u128 = 0;

/// A fresh random (version 4) UUID, as a number.
///
/// Trusted: calls `uuid::Uuid::new_v4`, whose source masks a random number so that
/// the version nibble is 4 and the variant bits are `10`; the result is therefore
/// never the nil UUID. Nothing else is known of it.
#[verifier::external_body]
pub(crate) fn new_uuid_v4() -> (r: u128)
    ensures
        r & 0xF000C000000000000000u128 == 0x40008000000000000000u128,
        r != 0,
{
    uuid::Uuid::new_v4().as_u128()
}

/// Errors of index operations.
#[derive(Debug, Clone)]
pub enum IndexError {
    /// The name is already used by a sibling under the same parent.
    NameAlreadyExists { name: String },
    /// No project with this UUID is registered.
    ProjectNotFoundInIndex { uuid: u128 },
    /// The operation would make a project its own ancestor.
    CircularDependency { cycle_node_uuid: u128 },
}

pub ghost enum IndexErrorView {
    NameAlreadyExists { name: Seq<char> },
    ProjectNotFoundInIndex { uuid: u128 },
    CircularDependency { cycle_node_uuid: u128 },
}

impl View for IndexError {
    type V = IndexErrorView;

    open spec fn view(&self) -> IndexErrorView {
        match self {
            IndexError::NameAlreadyExists { name } => IndexErrorView::NameAlreadyExists {
                name: name@,
            },
            IndexError::ProjectNotFoundInIndex { uuid } => IndexErrorView::ProjectNotFoundInIndex {
                uuid: *uuid,
            },
            IndexError::CircularDependency { cycle_node_uuid } => IndexErrorView::CircularDependency {
                cycle_node_uuid: *cycle_node_uuid,
            },
        }
    }
}

impl IndexError {
    /// The text of [`Self::message`].
    pub open spec fn message_text(&self) -> Seq<char> {
        match self {
            IndexError::NameAlreadyExists { name } => "Project name '"@ + name@
                + "' is already in use by another child of the same parent."@,
            IndexError::ProjectNotFoundInIndex { .. } => "Project with this UUID was not found in the global index."@,
            IndexError::CircularDependency { .. } => "Circular dependency detected: the link would create a cycle."@,
        }
    }

    /// The error message shown to the user (UUIDs are given as numbers; the
    /// caller formats them).
    pub fn message(&self) -> (r: String)
        ensures
            r@ == self.message_text(),
    {
        match self {
            IndexError::NameAlreadyExists { name } => {
                let mut m = owned("Project name '");
                m.append(name.as_str());
                m.append("' is already in use by another child of the same parent.");
                m
            },
            IndexError::ProjectNotFoundInIndex { .. } => owned(
                "Project with this UUID was not found in the global index.",
            ),
            IndexError::CircularDependency { .. } => owned(
                "Circular dependency detected: the link would create a cycle.",
            ),
        }
    }
}

// =========================================================================
// === Lookups
// =========================================================================

/// In a well-formed index, the entry at a position is the entry of its UUID.
pub proof fn lemma_entry_at(v: GlobalIndexView, i: int)
    requires
        v.wf(),
        0 <= i < v.projects.len(),
    ensures
        v.has(v.projects[i].0),
        v.entry(v.projects[i].0) == Some(v.projects[i].1),
{
    let u = v.projects[i].0;
    assert(v.has(u));
    let j = choose|j: int| 0 <= j < v.projects.len() && (#[trigger] v.projects[j]).0 == u;
    if j != i {
        if j < i {
            assert(v.projects[j].0 != v.projects[i].0);
        } else {
            assert(v.projects[i].0 != v.projects[j].0);
        }
    }
}

/// In a well-formed index, the alias at a position is the target of its name.
pub proof fn lemma_alias_at(v: GlobalIndexView, i: int)
    requires
        v.wf(),
        0 <= i < v.aliases.len(),
    ensures
        v.alias(v.aliases[i].0) == Some(v.aliases[i].1),
{
    let n = v.aliases[i].0;
    assert(exists|i: int| 0 <= i < v.aliases.len() && (#[trigger] v.aliases[i]).0 == n);
    let j = choose|j: int| 0 <= j < v.aliases.len() && (#[trigger] v.aliases[j]).0 == n;
    if j != i {
        if j < i {
            assert(v.aliases[j].0 != v.aliases[i].0);
        } else {
            assert(v.aliases[i].0 != v.aliases[j].0);
        }
    }
}

/// The position of a project in the index.
pub fn find_project(index: &GlobalIndex, u: u128) -> (r: Option<usize>)
    requires
        index@.wf(),
    ensures
        match r {
            Some(i) => i < index@.projects.len() && index@.projects[i as int].0 == u
                && index@.entry(u) == Some(index@.projects[i as int].1),
            None => !index@.has(u) && index@.entry(u) is None,
        },
{
    let mut i: usize = 0;
    while i < index.projects.len()
        invariant
            i <= index.projects@.len(),
            index@.wf(),
            forall|k: int| 0 <= k < i ==> (#[trigger] index@.projects[k]).0 != u,
        decreases index.projects@.len() - i,
    {
        assert(index@.projects[i as int].0 == index.projects@[i as int].0);
        if index.projects[i].0 == u {
            proof {
                lemma_entry_at(index@, i as int);
            }
            return Some(i);
        }
        i = i + 1;
    }
    None
}

/// The parent of a project, if it is registered and has one.
pub fn parent_of(index: &GlobalIndex, u: u128) -> (r: Option<u128>)
    requires
        index@.wf(),
    ensures
        r == index@.parent_of(u),
{
    match find_project(index, u) {
        Some(i) => {
            assert(index@.projects[i as int].1 == index.projects@[i as int].1@);
            index.projects[i].1.parent
        },
        None => None,
    }
}

/// Whether a name is already used by a child of `parent` other than `except`.
pub open spec fn sibling_taken(
    v: GlobalIndexView,
    parent: u128,
    name: Seq<char>,
    except: Option<u128>,
) -> bool {
    exists|i: int|
        0 <= i < v.projects.len() && (#[trigger] v.projects[i]).1.parent == Some(parent)
            && v.projects[i].1.name == name && except != Some(v.projects[i].0)
}

/// Checks whether a sibling name is already taken under `parent_uuid`; the project
/// `self_uuid`, when given, is not counted (used when it renames itself).
pub fn is_sibling_name_taken(
    index: &GlobalIndex,
    parent_uuid: u128,
    name: &str,
    self_uuid: Option<u128>,
) -> (r: bool)
    ensures
        r == sibling_taken(index@, parent_uuid, name@, self_uuid),
{
    let mut i: usize = 0;
    while i < index.projects.len()
        invariant
            i <= index.projects@.len(),
            forall|k: int|
                0 <= k < i ==> !((#[trigger] index@.projects[k]).1.parent == Some(parent_uuid)
                    && index@.projects[k].1.name == name@ && self_uuid != Some(
                    index@.projects[k].0,
                )),
        decreases index.projects@.len() - i,
    {
        let (u, e) = (&index.projects[i].0, &index.projects[i].1);
        assert(index@.projects[i as int] == (*u, e@));
        if e.parent == Some(parent_uuid) && str_eq(e.name.as_str(), name) && self_uuid != Some(*u) {
            return true;
        }
        i = i + 1;
    }
    false
}

// =========================================================================
// === Registration
// =========================================================================

/// `projects` with `u` mapped to `e`: in place when `u` is listed, appended otherwise.
pub open spec fn upsert(projects: Seq<(u128, IndexEntryView)>, u: u128, e: IndexEntryView) -> Seq<
    (u128, IndexEntryView),
> {
    if exists|i: int| 0 <= i < projects.len() && (#[trigger] projects[i]).0 == u {
        let i = choose|i: int| 0 <= i < projects.len() && (#[trigger] projects[i]).0 == u;
        projects.update(i, (u, e))
    } else {
        projects.push((u, e))
    }
}

/// Maps `u` to `e` in the index.
pub(crate) fn put_project(index: &mut GlobalIndex, u: u128, e: IndexEntry)
    requires
        old(index)@.wf(),
    ensures
        final(index)@ == (GlobalIndexView {
            projects: upsert(old(index)@.projects, u, e@),
            ..old(index)@
        }),
        final(index)@.wf(),
{
    match find_project(index, u) {
        Some(i) => {
            let ghost before = index@;
            index.projects.set(i, (u, e));
            proof {
                let j = choose|j: int| 0 <= j < before.projects.len() && (#[trigger] before.projects[j]).0 == u;
                if j != i as int {
                    if j < i {
                        assert(before.projects[j].0 != before.projects[i as int].0);
                    } else {
                        assert(before.projects[i as int].0 != before.projects[j].0);
                    }
                }
                assert(index@.projects =~= before.projects.update(i as int, (u, e@)));
                assert forall|a: int, b: int|
                    0 <= a < b < index@.projects.len() implies (#[trigger] index@.projects[a]).0 != (
                    #[trigger] index@.projects[b]).0 by {
                    assert(before.projects[a].0 == index@.projects[a].0);
                    assert(before.projects[b].0 == index@.projects[b].0);
                }
            }
        },
        None => {
            let ghost before = index@;
            index.projects.push((u, e));
            proof {
                assert(index@.projects =~= before.projects.push((u, e@)));
                assert forall|a: int, b: int|
                    0 <= a < b < index@.projects.len() implies (#[trigger] index@.projects[a]).0 != (
                    #[trigger] index@.projects[b]).0 by {
                    if b == before.projects.len() {
                        assert(before.projects[a].0 == index@.projects[a].0);
                        assert(!(0 <= a < before.projects.len() && before.projects[a].0 == u));
                    }
                }
            }
        },
    }
}

/// The entry of a newly registered project.
pub open spec fn new_entry_view(name: Seq<char>, path: Seq<char>, parent: u128) -> IndexEntryView {
    IndexEntryView {
        name,
        path,
        parent: Some(parent),
        config_hash: None,
        cache_dir: None,
        last_used_child: None,
    }
}

/// Registers a new project under `parent_uuid` (the global project when absent),
/// with a fresh random UUID. Fails when a sibling already has the name.
pub fn add_project_to_index(
    index: &mut GlobalIndex,
    name: String,
    path: String,
    parent_uuid: Option<u128>,
) -> (r: Result<(u128, IndexEntry), IndexError>)
    requires
        old(index)@.wf(),
    ensures
        ({
            let fp = match parent_uuid {
                Some(p) => p,
                None => global_uuid(),
            };
            if sibling_taken(old(index)@, fp, name@, None) {
                r is Err && r->Err_0@ == IndexErrorView::NameAlreadyExists { name: name@ }
                    && final(index)@ == old(index)@
            } else {
                r is Ok && r->Ok_0.1@ == new_entry_view(name@, path@, fp) && r->Ok_0.0 != 0
                    && final(index)@ == (GlobalIndexView {
                    projects: upsert(old(index)@.projects, r->Ok_0.0, r->Ok_0.1@),
                    ..old(index)@
                })
            }
        }),
        final(index)@.wf(),
{
    let fp = match parent_uuid {
        Some(p) => p,
        None => GLOBAL_PROJECT_UUID,
    };
    if is_sibling_name_taken(index, fp, name.as_str(), None) {
        return Err(IndexError::NameAlreadyExists { name });
    }
    let new_uuid = new_uuid_v4();
    let entry = IndexEntry {
        name,
        path,
        parent: Some(fp),
        config_hash: None,
        cache_dir: None,
        last_used_child: None,
    };
    put_project(index, new_uuid, copy_entry(&entry));
    Ok((new_uuid, entry))
}

// =========================================================================
// === The parent tree
// =========================================================================

/// Whether the chain of `d` reaches `a` within `bound` parent steps.
fn reaches_within(index: &GlobalIndex, d: u128, a: u128, bound: usize) -> (r: bool)
    requires
        index@.wf(),
    ensures
        r == exists|k: nat| 1 <= k <= bound && #[trigger] index@.ancestor(d, k) == Some(a),
{
    let mut cur: Option<u128> = Some(d);
    let mut k: usize = 0;
    while k < bound
        invariant
            k <= bound,
            index@.wf(),
            cur == index@.ancestor(d, k as nat),
            forall|j: nat| 1 <= j <= k ==> #[trigger] index@.ancestor(d, j) != Some(a),
        decreases bound - k,
    {
        cur = match cur {
            Some(c) => parent_of(index, c),
            None => None,
        };
        k = k + 1;
        assert(cur == index@.ancestor(d, k as nat));
        if cur == Some(a) {
            return true;
        }
    }
    false
}

/// Lists every project lying strictly below `start_uuid` in the parent tree, in
/// index order, each once.
pub fn get_all_descendants(index: &GlobalIndex, start_uuid: u128) -> (r: Vec<u128>)
    requires
        index@.wf(),
    ensures
        forall|x: u128| r@.contains(x) <==> index@.is_descendant(x, start_uuid),
        r@.no_duplicates(),
{
    let n = index.projects.len();
    let mut out: Vec<u128> = Vec::new();
    let mut i: usize = 0;
    while i < n
        invariant
            i <= n,
            n == index@.projects.len(),
            index@.wf(),
            forall|x: u128|
                out@.contains(x) <==> (exists|k: int|
                    0 <= k < i && (#[trigger] index@.projects[k]).0 == x && index@.is_descendant(
                        x,
                        start_uuid,
                    )),
            forall|a: int| 0 <= a < out@.len() ==> exists|k: int| 0 <= k < i && (#[trigger] index@.projects[k]).0 == #[trigger] out@[a],
            out@.no_duplicates(),
        decreases n - i,
    {
        let d = index.projects[i].0;
        assert(index@.projects[i as int].0 == d);
        proof {
            lemma_entry_at(index@, i as int);
        }
        let reach = reaches_within(index, d, start_uuid, n);
        assert(reach == index@.is_descendant(d, start_uuid));
        let ghost old_out = out@;
        if reach {
            proof {
                assert forall|a: int| 0 <= a < out@.len() implies out@[a] != d by {
                    let k = choose|k: int| 0 <= k < i && (#[trigger] index@.projects[k]).0 == out@[a];
                    assert(index@.projects[k].0 != index@.projects[i as int].0);
                }
            }
            out.push(d);
        }
        proof {
            assert forall|x: u128|
                out@.contains(x) <==> (exists|k: int|
                    0 <= k < i + 1 && (#[trigger] index@.projects[k]).0 == x && index@.is_descendant(
                        x,
                        start_uuid,
                    )) by {
                if out@.contains(x) {
                    if x == d && reach {
                        assert(index@.projects[i as int].0 == x);
                    } else {
                        let a = choose|a: int| 0 <= a < out@.len() && out@[a] == x;
                        if a < old_out.len() {
                            assert(old_out[a] == x);
                            assert(old_out.contains(x));
                        }
                    }
                }
                if exists|k: int|
                    0 <= k < i + 1 && (#[trigger] index@.projects[k]).0 == x && index@.is_descendant(
                        x,
                        start_uuid,
                    ) {
                    let k = choose|k: int|
                        0 <= k < i + 1 && (#[trigger] index@.projects[k]).0 == x && index@.is_descendant(
                            x,
                            start_uuid,
                        );
                    if k == i {
                        assert(out@[out@.len() - 1] == x);
                    } else {
                        assert(old_out.contains(x));
                        let a = choose|a: int| 0 <= a < old_out.len() && old_out[a] == x;
                        assert(out@[a] == x);
                    }
                }
            }
            assert forall|a: int| 0 <= a < out@.len() implies exists|k: int| 0 <= k < i + 1 && (#[trigger] index@.projects[k]).0 == #[trigger] out@[a] by {
                if a < old_out.len() {
                    assert(out@[a] == old_out[a]);
                } else {
                    assert(index@.projects[i as int].0 == out@[a]);
                }
            }
        }
        i = i + 1;
    }
    proof {
        assert forall|x: u128| index@.is_descendant(x, start_uuid) implies out@.contains(x) by {
            let k = choose|k: int| 0 <= k < index@.projects.len() && (#[trigger] index@.projects[k]).0 == x;
        }
    }
    out
}

/// Moves `project_to_move_uuid` under `new_parent_uuid` in the index, after the
/// safety checks: not onto itself, not under one of its own descendants, not onto
/// a name already used among the new siblings.
pub fn link_project(index: &mut GlobalIndex, project_to_move_uuid: u128, new_parent_uuid: u128) -> (r:
    Result<(), IndexError>)
    requires
        old(index)@.wf(),
    ensures
        final(index)@.wf(),
        ({
            let v = old(index)@;
            let mv = project_to_move_uuid;
            let np = new_parent_uuid;
            if mv == np {
                r is Err && r->Err_0@ == IndexErrorView::CircularDependency { cycle_node_uuid: mv }
                    && final(index)@ == v
            } else if v.is_descendant(np, mv) {
                r is Err && r->Err_0@ == IndexErrorView::CircularDependency { cycle_node_uuid: np }
                    && final(index)@ == v
            } else if !v.has(mv) {
                r is Err && r->Err_0@ == IndexErrorView::ProjectNotFoundInIndex { uuid: mv }
                    && final(index)@ == v
            } else if sibling_taken(v, np, v.entry(mv)->Some_0.name, Some(mv)) {
                r is Err && r->Err_0@ == IndexErrorView::NameAlreadyExists {
                    name: v.entry(mv)->Some_0.name,
                } && final(index)@ == v
            } else {
                r is Ok && final(index)@ == (GlobalIndexView {
                    projects: upsert(
                        v.projects,
                        mv,
                        IndexEntryView { parent: Some(np), ..v.entry(mv)->Some_0 },
                    ),
                    ..v
                })
            }
        }),
{
    if project_to_move_uuid == new_parent_uuid {
        return Err(IndexError::CircularDependency { cycle_node_uuid: project_to_move_uuid });
    }
    let descendants = get_all_descendants(index, project_to_move_uuid);
    if vec_contains(&descendants, new_parent_uuid) {
        return Err(IndexError::CircularDependency { cycle_node_uuid: new_parent_uuid });
    }
    let i = match find_project(index, project_to_move_uuid) {
        Some(i) => i,
        None => {
            return Err(IndexError::ProjectNotFoundInIndex { uuid: project_to_move_uuid });
        },
    };
    assert(index@.projects[i as int].1 == index.projects@[i as int].1@);
    let name = index.projects[i].1.name.clone();
    if is_sibling_name_taken(index, new_parent_uuid, name.as_str(), Some(project_to_move_uuid)) {
        return Err(IndexError::NameAlreadyExists { name });
    }
    let mut entry = copy_entry(&index.projects[i].1);
    entry.parent = Some(new_parent_uuid);
    put_project(index, project_to_move_uuid, entry);
    Ok(())
}

/// Whether a UUID occurs in a list.
pub fn vec_contains(v: &Vec<u128>, x: u128) -> (r: bool)
    ensures
        r == v@.contains(x),
{
    let mut i: usize = 0;
    while i < v.len()
        invariant
            i <= v@.len(),
            forall|k: int| 0 <= k < i ==> v@[k] != x,
        decreases v@.len() - i,
    {
        if v[i] == x {
            return true;
        }
        i = i + 1;
    }
    false
}

// =========================================================================
// === The link law
// =========================================================================

/// Re-parenting a registered project changes its entry and nothing else.
pub proof fn lemma_upsert_existing(v: GlobalIndexView, mv: u128, e: IndexEntryView, y: u128)
    requires
        v.wf(),
        v.has(mv),
    ensures
        ({
            let w = GlobalIndexView { projects: upsert(v.projects, mv, e), ..v };
            &&& w.wf()
            &&& w.projects.len() == v.projects.len()
            &&& w.has(y) == v.has(y)
            &&& w.entry(y) == if y == mv {
                Some(e)
            } else {
                v.entry(y)
            }
        }),
{
    let w = GlobalIndexView { projects: upsert(v.projects, mv, e), ..v };
    let i = choose|i: int| 0 <= i < v.projects.len() && (#[trigger] v.projects[i]).0 == mv;
    assert(w.projects == v.projects.update(i, (mv, e)));
    assert forall|a: int, b: int|
        0 <= a < b < w.projects.len() implies (#[trigger] w.projects[a]).0 != (
        #[trigger] w.projects[b]).0 by {
        assert(w.projects[a].0 == v.projects[a].0);
        assert(w.projects[b].0 == v.projects[b].0);
    }
    if y == mv {
        lemma_entry_at(w, i);
    } else if v.has(y) {
        let j = choose|j: int| 0 <= j < v.projects.len() && (#[trigger] v.projects[j]).0 == y;
        lemma_entry_at(v, j);
        assert(w.projects[j] == v.projects[j]);
        lemma_entry_at(w, j);
    } else {
        if w.has(y) {
            let j = choose|j: int| 0 <= j < w.projects.len() && (#[trigger] w.projects[j]).0 == y;
            assert(j != i);
            assert(v.projects[j].0 == y);
        }
    }
}

/// Ancestors compose: `a + b` steps up from `u` are `b` steps up from the `a`-th ancestor.
pub proof fn lemma_ancestor_add(v: GlobalIndexView, u: u128, x: u128, a: nat, b: nat)
    requires
        v.ancestor(u, a) == Some(x),
    ensures
        v.ancestor(u, a + b) == v.ancestor(x, b),
    decreases b,
{
    if b > 0 {
        lemma_ancestor_add(v, u, x, a, (b - 1) as nat);
        assert((a + b - 1) as nat == a + (b - 1) as nat);
    }
}

/// The first step at which a chain reaches a node it reaches at step `s`.
proof fn lemma_first_hit(v: GlobalIndexView, x: u128, target: u128, s: nat) -> (t: nat)
    requires
        v.ancestor(x, s) == Some(target),
    ensures
        t <= s,
        v.ancestor(x, t) == Some(target),
        forall|j: nat| j < t ==> #[trigger] v.ancestor(x, j) != Some(target),
    decreases s,
{
    if exists|j: nat| j < s && #[trigger] v.ancestor(x, j) == Some(target) {
        let j = choose|j: nat| j < s && #[trigger] v.ancestor(x, j) == Some(target);
        lemma_first_hit(v, x, target, j)
    } else {
        s
    }
}

/// A chain that avoids the moved project is the same before and after the move.
proof fn lemma_chain_unchanged(v: GlobalIndexView, w: GlobalIndexView, mv: u128, np: u128, x: u128, t: nat)
    requires
        v.wf(),
        v.has(mv),
        w == (GlobalIndexView {
            projects: upsert(v.projects, mv, IndexEntryView { parent: Some(np), ..v.entry(mv)->Some_0 }),
            ..v
        }),
        forall|j: nat| j < t ==> #[trigger] w.ancestor(x, j) != Some(mv),
    ensures
        w.ancestor(x, t) == v.ancestor(x, t),
    decreases t,
{
    if t > 0 {
        lemma_chain_unchanged(v, w, mv, np, x, (t - 1) as nat);
        match v.ancestor(x, (t - 1) as nat) {
            Some(y) => {
                lemma_upsert_existing(
                    v,
                    mv,
                    IndexEntryView { parent: Some(np), ..v.entry(mv)->Some_0 },
                    y,
                );
            },
            None => {},
        }
    }
}

/// Law: linking a project under a new parent never creates a cycle. When the
/// index has no cycle and the link's checks pass (the new parent is neither the
/// project nor one of its descendants), the linked index has no cycle either.
pub proof fn lemma_link_keeps_acyclic(v: GlobalIndexView, mv: u128, np: u128)
    requires
        v.wf(),
        v.acyclic(),
        v.has(mv),
        mv != np,
        !v.is_descendant(np, mv),
    ensures
        (GlobalIndexView {
            projects: upsert(v.projects, mv, IndexEntryView { parent: Some(np), ..v.entry(mv)->Some_0 }),
            ..v
        }).acyclic(),
{
    let e2 = IndexEntryView { parent: Some(np), ..v.entry(mv)->Some_0 };
    let w = GlobalIndexView { projects: upsert(v.projects, mv, e2), ..v };
    let n = v.projects.len();
    lemma_upsert_existing(v, mv, e2, mv);
    assert forall|u: u128| #[trigger] w.has(u) implies !w.is_descendant(u, u) by {
        lemma_upsert_existing(v, mv, e2, u);
        if w.is_descendant(u, u) {
            let k = choose|k: nat| 1 <= k <= w.projects.len() && #[trigger] w.ancestor(u, k) == Some(u);
            if exists|j: nat| j < k && #[trigger] w.ancestor(u, j) == Some(mv) {
                // The cycle passes through the moved project, hence through its new parent.
                let j0 = choose|j: nat| j < k && #[trigger] w.ancestor(u, j) == Some(mv);
                lemma_upsert_existing(v, mv, e2, mv);
                assert(w.parent_of(mv) == Some(np));
                assert(w.ancestor(u, j0 + 1) == Some(np));
                lemma_ancestor_add(w, u, u, k, j0);
                assert(w.ancestor(u, k + j0) == Some(mv));
                lemma_ancestor_add(w, u, np, j0 + 1, (k - 1) as nat);
                assert(j0 + 1 + (k - 1) as nat == k + j0);
                assert(w.ancestor(np, (k - 1) as nat) == Some(mv));
                let t = lemma_first_hit(w, np, mv, (k - 1) as nat);
                assert(t >= 1) by {
                    if t == 0 {
                        assert(w.ancestor(np, 0) == Some(np));
                    }
                }
                lemma_chain_unchanged(v, w, mv, np, np, t);
                assert(v.ancestor(np, t) == Some(mv));
                assert(v.ancestor(np, 1) is Some) by {
                    if v.ancestor(np, 1) is None {
                        lemma_none_stays(v, np, 1, t);
                    }
                }
                assert(v.ancestor(np, 0) == Some(np));
                assert(v.ancestor(np, 1) == v.parent_of(np));
                assert(v.entry(np) is Some);
                assert(v.has(np));
                assert(v.is_descendant(np, mv));
            } else {
                // The cycle avoids the moved project, so it was already there.
                lemma_chain_unchanged(v, w, mv, np, u, k);
                assert(v.ancestor(u, k) == Some(u));
                assert(v.is_descendant(u, u));
            }
        }
    }
}

/// A chain that has ended stays ended.
proof fn lemma_none_stays(v: GlobalIndexView, x: u128, a: nat, b: nat)
    requires
        a <= b,
        v.ancestor(x, a) is None,
    ensures
        v.ancestor(x, b) is None,
    decreases b - a,
{
    if a < b {
        lemma_none_stays(v, x, a, (b - 1) as nat);
    }
}

// =========================================================================
// === Removal, renames, reparenting
// =========================================================================

/// The entries whose UUID is not listed in `ids`, in order.
pub open spec fn kept(ps: Seq<(u128, IndexEntryView)>, ids: Seq<u128>) -> Seq<(u128, IndexEntryView)>
    decreases ps.len(),
{
    if ps.len() == 0 {
        Seq::empty()
    } else {
        kept(ps.drop_last(), ids) + if ids.contains(ps.last().0) {
            Seq::empty()
        } else {
            seq![ps.last()]
        }
    }
}

/// A subsequence of a list of distinct keys has distinct keys.
proof fn lemma_kept_len(ps: Seq<(u128, IndexEntryView)>, ids: Seq<u128>)
    ensures
        kept(ps, ids).len() <= ps.len(),
    decreases ps.len(),
{
    if ps.len() > 0 {
        lemma_kept_len(ps.drop_last(), ids);
    }
}

/// Removes the listed projects from the index and returns how many were removed.
pub fn remove_from_index(index: &mut GlobalIndex, uuids_to_remove: &[u128]) -> (r: usize)
    requires
        old(index)@.wf(),
    ensures
        final(index)@ == (GlobalIndexView {
            projects: kept(old(index)@.projects, uuids_to_remove@),
            ..old(index)@
        }),
        r == old(index)@.projects.len() - final(index)@.projects.len(),
        final(index)@.wf(),
{
    let ghost v = index@;
    let mut out: Vec<(u128, IndexEntry)> = Vec::new();
    let mut removed: usize = 0;
    let n = index.projects.len();
    let mut i: usize = 0;
    let ghost ps = v.projects;
    assert(ps.subrange(0, 0) =~= Seq::<(u128, IndexEntryView)>::empty());
    while i < n
        invariant
            i <= n,
            n == index.projects@.len(),
            index@ == v,
            ps == v.projects,
            v.wf(),
            out@.map_values(|p: (u128, IndexEntry)| (p.0, p.1@)) == kept(ps.subrange(0, i as int), uuids_to_remove@),
            removed + out@.len() == i,
            forall|a: int| 0 <= a < out@.len() ==> exists|k: int| 0 <= k < i && (#[trigger] ps[k]).0 == (#[trigger] out@[a]).0,
            forall|a: int, b: int| 0 <= a < b < out@.len() ==> (#[trigger] out@[a]).0 != (#[trigger] out@[b]).0,
        decreases n - i,
    {
        assert(ps.subrange(0, i + 1).drop_last() =~= ps.subrange(0, i as int));
        assert(ps[i as int] == (index.projects@[i as int].0, index.projects@[i as int].1@));
        let u = index.projects[i].0;
        let ghost prev = out@;
        if slice_contains(uuids_to_remove, u) {
            removed = removed + 1;
        } else {
            proof {
                assert forall|a: int| 0 <= a < out@.len() implies out@[a].0 != u by {
                    let k = choose|k: int| 0 <= k < i && (#[trigger] ps[k]).0 == out@[a].0;
                    assert(ps[k].0 != ps[i as int].0);
                }
            }
            out.push((u, copy_entry(&index.projects[i].1)));
            proof {
                assert(out@.map_values(|p: (u128, IndexEntry)| (p.0, p.1@)) =~= prev.map_values(
                    |p: (u128, IndexEntry)| (p.0, p.1@),
                ).push(ps[i as int]));
                assert forall|a: int| 0 <= a < out@.len() implies exists|k: int| 0 <= k < i + 1 && (#[trigger] ps[k]).0 == (#[trigger] out@[a]).0 by {
                    if a < prev.len() {
                        assert(out@[a] == prev[a]);
                    } else {
                        assert(ps[i as int].0 == out@[a].0);
                    }
                }
            }
        }
        i = i + 1;
    }
    assert(ps.subrange(0, i as int) =~= ps);
    index.projects = out;
    proof {
        assert(index@.projects =~= kept(v.projects, uuids_to_remove@));
    }
    removed
}

/// Whether a UUID occurs in a slice.
pub fn slice_contains(v: &[u128], x: u128) -> (r: bool)
    ensures
        r == v@.contains(x),
{
    let mut i: usize = 0;
    while i < v.len()
        invariant
            i <= v@.len(),
            forall|k: int| 0 <= k < i ==> v@[k] != x,
        decreases v@.len() - i,
    {
        if v[i] == x {
            return true;
        }
        i = i + 1;
    }
    false
}

/// Renames a project in the index, unless a sibling already has the new name.
pub fn rename_project(index: &mut GlobalIndex, target_uuid: u128, new_name: &str) -> (r: Result<
    (),
    IndexError,
>)
    requires
        old(index)@.wf(),
    ensures
        final(index)@.wf(),
        ({
            let v = old(index)@;
            match v.entry(target_uuid) {
                None => r is Err && r->Err_0@ == IndexErrorView::ProjectNotFoundInIndex {
                    uuid: target_uuid,
                } && final(index)@ == v,
                Some(e) => {
                    let parent = match e.parent {
                        Some(p) => p,
                        None => global_uuid(),
                    };
                    if sibling_taken(v, parent, new_name@, Some(target_uuid)) {
                        r is Err && r->Err_0@ == IndexErrorView::NameAlreadyExists {
                            name: new_name@,
                        } && final(index)@ == v
                    } else {
                        r is Ok && final(index)@ == (GlobalIndexView {
                            projects: upsert(
                                v.projects,
                                target_uuid,
                                IndexEntryView { name: new_name@, ..e },
                            ),
                            ..v
                        })
                    }
                },
            }
        }),
{
    let i = match find_project(index, target_uuid) {
        Some(i) => i,
        None => {
            return Err(IndexError::ProjectNotFoundInIndex { uuid: target_uuid });
        },
    };
    assert(index@.projects[i as int].1 == index.projects@[i as int].1@);
    let parent = match index.projects[i].1.parent {
        Some(p) => p,
        None => GLOBAL_PROJECT_UUID,
    };
    if is_sibling_name_taken(index, parent, new_name, Some(target_uuid)) {
        return Err(IndexError::NameAlreadyExists { name: owned(new_name) });
    }
    let mut entry = copy_entry(&index.projects[i].1);
    entry.name = owned(new_name);
    put_project(index, target_uuid, entry);
    Ok(())
}

/// The names of the children of `p`, in index order.
pub open spec fn names_under(ps: Seq<(u128, IndexEntryView)>, p: u128) -> Seq<Seq<char>>
    decreases ps.len(),
{
    if ps.len() == 0 {
        Seq::empty()
    } else {
        names_under(ps.drop_last(), p) + if ps.last().1.parent == Some(p) {
            seq![ps.last().1.name]
        } else {
            Seq::empty()
        }
    }
}

/// The warning given when a child is renamed to avoid a collision.
pub open spec fn rename_warning(name: Seq<char>, suggested: Seq<char>) -> Seq<char> {
    "Child '"@ + name + "' was automatically renamed to '"@ + suggested
        + "' to avoid collision."@
}

/// The names of the children of `p`, in index order.
pub(crate) fn children_names(index: &GlobalIndex, p: u128) -> (r: Vec<String>)
    ensures
        crate::parameters::strs_view(r@) == names_under(index@.projects, p),
{
    let ghost v = index@;
    let mut sibs: Vec<String> = Vec::new();
    let mut k: usize = 0;
    assert(v.projects.subrange(0, 0) =~= Seq::<(u128, IndexEntryView)>::empty());
    while k < index.projects.len()
        invariant
            k <= index.projects@.len(),
            index@ == v,
            crate::parameters::strs_view(sibs@) == names_under(v.projects.subrange(0, k as int), p),
        decreases index.projects@.len() - k,
    {
        assert(v.projects.subrange(0, k + 1).drop_last() =~= v.projects.subrange(0, k as int));
        assert(v.projects[k as int].1 == index.projects@[k as int].1@);
        if index.projects[k].1.parent == Some(p) {
            let ghost prev = crate::parameters::strs_view(sibs@);
            sibs.push(index.projects[k].1.name.clone());
            assert(crate::parameters::strs_view(sibs@) =~= prev + seq![v.projects[k as int].1.name]);
        } else {
            assert(names_under(v.projects.subrange(0, k + 1), p) =~= names_under(
                v.projects.subrange(0, k as int),
                p,
            ));
        }
        k = k + 1;
    }
    assert(v.projects.subrange(0, k as int) =~= v.projects);
    sibs
}

/// Reparenting from position `i` on: each child of `old_p` moves under `new_p`;
/// one whose name is among `sibs` (the names taken under `new_p`: those there
/// before the operation and those of the children already moved) is renamed
/// `<old name>_<name>`, unless that name is taken too, which stops the
/// operation with the suggested name (children already moved stay moved). The
/// final name of each moved child joins the taken names.
pub open spec fn reparent_from(
    ps: Seq<(u128, IndexEntryView)>,
    i: int,
    old_p: u128,
    new_p: u128,
    old_name: Seq<char>,
    sibs: Seq<Seq<char>>,
    warnings: Seq<Seq<char>>,
) -> (Seq<(u128, IndexEntryView)>, Result<Seq<Seq<char>>, Seq<char>>)
    decreases ps.len() - i,
{
    if i < 0 || i >= ps.len() {
        (ps, Ok(warnings))
    } else {
        let (u, e) = ps[i];
        if e.parent == Some(old_p) {
            if sibs.contains(e.name) {
                let sug = old_name + "_"@ + e.name;
                if sibs.contains(sug) {
                    (ps, Err(sug))
                } else {
                    reparent_from(
                        ps.update(i, (u, IndexEntryView { name: sug, parent: Some(new_p), ..e })),
                        i + 1,
                        old_p,
                        new_p,
                        old_name,
                        sibs.push(sug),
                        warnings.push(rename_warning(e.name, sug)),
                    )
                }
            } else {
                reparent_from(
                    ps.update(i, (u, IndexEntryView { parent: Some(new_p), ..e })),
                    i + 1,
                    old_p,
                    new_p,
                    old_name,
                    sibs.push(e.name),
                    warnings,
                )
            }
        } else {
            reparent_from(ps, i + 1, old_p, new_p, old_name, sibs, warnings)
        }
    }
}

/// Whether a name occurs in a list of names.
pub(crate) fn names_contain(names: &Vec<String>, n: &str) -> (r: bool)
    ensures
        r == crate::parameters::strs_view(names@).contains(n@),
{
    let mut i: usize = 0;
    let ghost all = crate::parameters::strs_view(names@);
    while i < names.len()
        invariant
            i <= names@.len(),
            all == crate::parameters::strs_view(names@),
            forall|k: int| 0 <= k < i ==> all[k] != n@,
        decreases names@.len() - i,
    {
        assert(all[i as int] == names@[i as int]@);
        if str_eq(names[i].as_str(), n) {
            return true;
        }
        i = i + 1;
    }
    false
}

/// Moves the direct children of `old_parent_uuid` under `new_parent_uuid`,
/// renaming a child whose name is taken there to `<old parent>_<child>`; returns a
/// warning for each such rename.
pub fn reparent_children(
    index: &mut GlobalIndex,
    old_parent_uuid: u128,
    new_parent_uuid: u128,
) -> (r: Result<Vec<String>, IndexError>)
    requires
        old(index)@.wf(),
    ensures
        final(index)@.wf(),
        ({
            let v = old(index)@;
            if old_parent_uuid == new_parent_uuid {
                r is Ok && r->Ok_0@.len() == 0 && final(index)@ == v
            } else {
                match v.entry(old_parent_uuid) {
                    None => r is Err && r->Err_0@ == IndexErrorView::ProjectNotFoundInIndex {
                        uuid: old_parent_uuid,
                    } && final(index)@ == v,
                    Some(pe) => {
                        let (ps, res) = reparent_from(
                            v.projects,
                            0,
                            old_parent_uuid,
                            new_parent_uuid,
                            pe.name,
                            names_under(v.projects, new_parent_uuid),
                            Seq::empty(),
                        );
                        &&& final(index)@ == (GlobalIndexView { projects: ps, ..v })
                        &&& match res {
                            Ok(w) => r is Ok && crate::parameters::strs_view(r->Ok_0@) == w,
                            Err(sug) => r is Err && r->Err_0@ == IndexErrorView::NameAlreadyExists {
                                name: sug,
                            },
                        }
                    },
                }
            }
        }),
{
    if old_parent_uuid == new_parent_uuid {
        return Ok(Vec::new());
    }
    let pi = match find_project(index, old_parent_uuid) {
        Some(i) => i,
        None => {
            return Err(IndexError::ProjectNotFoundInIndex { uuid: old_parent_uuid });
        },
    };
    assert(index@.projects[pi as int].1 == index.projects@[pi as int].1@);
    let old_name = index.projects[pi].1.name.clone();
    let ghost v = index@;
    // Names under the new parent, before any change.
    let mut sibs = children_names(index, new_parent_uuid);
    let ghost sib_names = names_under(v.projects, new_parent_uuid);
    let mut warnings: Vec<String> = Vec::new();
    let mut i: usize = 0;
    assert(crate::parameters::strs_view(warnings@) =~= Seq::<Seq<char>>::empty());
    while i < index.projects.len()
        invariant
            i <= index.projects@.len(),
            index.projects@.len() == v.projects.len(),
            index@.aliases == v.aliases,
            index@.last_used == v.last_used,
            forall|a: int| 0 <= a < v.projects.len() ==> (#[trigger] index@.projects[a]).0 == v.projects[a].0,
            sib_names == names_under(v.projects, new_parent_uuid),
            v == old(index)@,
            old_parent_uuid != new_parent_uuid,
            v.entry(old_parent_uuid) is Some,
            v.entry(old_parent_uuid)->Some_0.name == old_name@,
            reparent_from(v.projects, 0, old_parent_uuid, new_parent_uuid, old_name@, sib_names, Seq::empty())
                == reparent_from(index@.projects, i as int, old_parent_uuid, new_parent_uuid, old_name@,
                crate::parameters::strs_view(sibs@), crate::parameters::strs_view(warnings@)),
            v.wf(),
        decreases index.projects@.len() - i,
    {
        let ghost cur = index@.projects;
        assert(cur[i as int] == (index.projects@[i as int].0, index.projects@[i as int].1@));
        if index.projects[i].1.parent == Some(old_parent_uuid) {
            let name = index.projects[i].1.name.clone();
            let mut entry = copy_entry(&index.projects[i].1);
            entry.parent = Some(new_parent_uuid);
            if names_contain(&sibs, name.as_str()) {
                let mut sug = old_name.clone();
                sug.append("_");
                sug.append(name.as_str());
                if names_contain(&sibs, sug.as_str()) {
                    proof {
                        let sv = crate::parameters::strs_view(sibs@);
                        assert(sv.contains(cur[i as int].1.name));
                        assert(sug@ == old_name@ + "_"@ + cur[i as int].1.name);
                        assert(sv.contains(sug@));
                        assert(reparent_from(cur, i as int, old_parent_uuid, new_parent_uuid, old_name@, sv,
                            crate::parameters::strs_view(warnings@)) == (cur, Err::<Seq<Seq<char>>, Seq<char>>(sug@)));
                        assert(index@.projects =~= cur);
                        assert(index@ == GlobalIndexView { projects: cur, ..v });
                        assert forall|a: int, b: int| 0 <= a < b < index@.projects.len() implies (#[trigger] index@.projects[a]).0 != (#[trigger] index@.projects[b]).0 by {
                            assert(v.projects[a].0 != v.projects[b].0);
                        }
                    }
                    return Err(IndexError::NameAlreadyExists { name: sug });
                }
                let mut w = owned("Child '");
                w.append(name.as_str());
                w.append("' was automatically renamed to '");
                w.append(sug.as_str());
                w.append("' to avoid collision.");
                let ghost pw = crate::parameters::strs_view(warnings@);
                warnings.push(w);
                assert(crate::parameters::strs_view(warnings@) =~= pw.push(rename_warning(name@, sug@)));
                entry.name = sug;
            }
            let u = index.projects[i].0;
            let ghost e2 = entry@;
            let ghost ps = crate::parameters::strs_view(sibs@);
            sibs.push(entry.name.clone());
            assert(crate::parameters::strs_view(sibs@) =~= ps.push(e2.name));
            index.projects.set(i, (u, entry));
            assert(index@.projects =~= cur.update(i as int, (u, e2)));
        }
        i = i + 1;
    }
    proof {
        assert forall|a: int, b: int| 0 <= a < b < index@.projects.len() implies (#[trigger] index@.projects[a]).0 != (#[trigger] index@.projects[b]).0 by {
            assert(v.projects[a].0 != v.projects[b].0);
        }
    }
    Ok(warnings)
}

/// Whether the children of `p` among `ps` have pairwise distinct names.
pub open spec fn sibling_names_distinct(ps: Seq<(u128, IndexEntryView)>, p: u128) -> bool {
    forall|i: int, j: int|
        #![trigger ps[i], ps[j]]
        0 <= i < j < ps.len() && ps[i].1.parent == Some(p) && ps[j].1.parent == Some(p) ==> ps[i].1.name
            != ps[j].1.name
}

/// The names of the children of `p` are all among `names_under(ps, p)`.
proof fn lemma_names_under_contains(ps: Seq<(u128, IndexEntryView)>, p: u128, k: int)
    requires
        0 <= k < ps.len(),
        ps[k].1.parent == Some(p),
    ensures
        names_under(ps, p).contains(ps[k].1.name),
    decreases ps.len(),
{
    if k == ps.len() - 1 {
        let pre = names_under(ps.drop_last(), p);
        assert((pre + seq![ps.last().1.name])[pre.len() as int] == ps[k].1.name);
    } else {
        lemma_names_under_contains(ps.drop_last(), p, k);
        let pre = names_under(ps.drop_last(), p);
        let j = choose|j: int| 0 <= j < pre.len() && pre[j] == ps[k].1.name;
        let tail = if ps.last().1.parent == Some(p) {
            seq![ps.last().1.name]
        } else {
            Seq::empty()
        };
        assert((pre + tail)[j] == pre[j]);
    }
}

/// Each child that moves takes a name that no child of the new parent has,
/// and that name joins the taken names: the children of the new parent keep
/// pairwise distinct names.
proof fn lemma_reparent_from_distinct(
    ps: Seq<(u128, IndexEntryView)>,
    i: int,
    old_p: u128,
    new_p: u128,
    old_name: Seq<char>,
    sibs: Seq<Seq<char>>,
    warnings: Seq<Seq<char>>,
)
    requires
        0 <= i,
        old_p != new_p,
        sibling_names_distinct(ps, new_p),
        forall|k: int| 0 <= k < ps.len() && (#[trigger] ps[k]).1.parent == Some(new_p) ==> sibs.contains(ps[k].1.name),
    ensures
        reparent_from(ps, i, old_p, new_p, old_name, sibs, warnings).1 is Ok ==> sibling_names_distinct(
            reparent_from(ps, i, old_p, new_p, old_name, sibs, warnings).0,
            new_p,
        ),
    decreases ps.len() - i,
{
    if i < ps.len() {
        let (u, e) = ps[i];
        if e.parent == Some(old_p) {
            let fresh = if sibs.contains(e.name) {
                old_name + "_"@ + e.name
            } else {
                e.name
            };
            if !sibs.contains(fresh) {
                let moved = IndexEntryView { name: fresh, parent: Some(new_p), ..e };
                let ps2 = ps.update(i, (u, moved));
                assert forall|a: int, b: int|
                    #![trigger ps2[a], ps2[b]]
                    0 <= a < b < ps2.len() && ps2[a].1.parent == Some(new_p) && ps2[b].1.parent == Some(
                        new_p,
                    ) implies ps2[a].1.name != ps2[b].1.name by {
                    if a == i {
                        assert(sibs.contains(ps[b].1.name));
                    } else if b == i {
                        assert(sibs.contains(ps[a].1.name));
                    } else {
                        assert(ps2[a] == ps[a] && ps2[b] == ps[b]);
                    }
                }
                assert forall|k: int| 0 <= k < ps2.len() && (#[trigger] ps2[k]).1.parent == Some(new_p)
                    implies sibs.push(fresh).contains(ps2[k].1.name) by {
                    if k == i {
                        assert(sibs.push(fresh)[sibs.len() as int] == fresh);
                    } else {
                        assert(ps2[k] == ps[k]);
                        let j = choose|j: int| 0 <= j < sibs.len() && sibs[j] == ps[k].1.name;
                        assert(sibs.push(fresh)[j] == sibs[j]);
                    }
                }
                if sibs.contains(e.name) {
                    lemma_reparent_from_distinct(
                        ps2,
                        i + 1,
                        old_p,
                        new_p,
                        old_name,
                        sibs.push(fresh),
                        warnings.push(rename_warning(e.name, fresh)),
                    );
                } else {
                    assert(ps2 == ps.update(i, (u, IndexEntryView { parent: Some(new_p), ..e })));
                    lemma_reparent_from_distinct(ps2, i + 1, old_p, new_p, old_name, sibs.push(fresh), warnings);
                }
            }
        } else {
            lemma_reparent_from_distinct(ps, i + 1, old_p, new_p, old_name, sibs, warnings);
        }
    }
}

/// Law: after moving the children of `old_p` under `new_p`, the children of
/// `new_p` have pairwise distinct names, when they had before: a moved child
/// keeps its name when it is free there, and is renamed otherwise.
pub proof fn lemma_reparent_keeps_sibling_names_distinct(
    v: GlobalIndexView,
    old_p: u128,
    new_p: u128,
    old_name: Seq<char>,
)
    requires
        old_p != new_p,
        sibling_names_distinct(v.projects, new_p),
    ensures
        ({
            let (ps, res) = reparent_from(
                v.projects,
                0,
                old_p,
                new_p,
                old_name,
                names_under(v.projects, new_p),
                Seq::empty(),
            );
            res is Ok ==> sibling_names_distinct(ps, new_p)
        }),
{
    assert forall|k: int| 0 <= k < v.projects.len() && (#[trigger] v.projects[k]).1.parent == Some(new_p)
        implies names_under(v.projects, new_p).contains(v.projects[k].1.name) by {
        lemma_names_under_contains(v.projects, new_p, k);
    }
    lemma_reparent_from_distinct(
        v.projects,
        0,
        old_p,
        new_p,
        old_name,
        names_under(v.projects, new_p),
        Seq::empty(),
    );
}

// =========================================================================
// === Qualified names, cycles and aliases
// =========================================================================

/// The qualified name of `u` followed by `suffix`: the names from the top-most
/// project below the global one down to `u`, separated by `/`; `None` at a broken
/// parent link or when the chain is longer than `fuel`.
pub open spec fn qualified_with(v: GlobalIndexView, u: u128, fuel: nat, suffix: Seq<char>) -> Option<
    Seq<char>,
>
    decreases fuel,
{
    match v.entry(u) {
        None => None,
        Some(e) => {
            let s2 = e.name + suffix;
            match e.parent {
                None => Some(s2),
                Some(p) => if p == global_uuid() {
                    Some(s2)
                } else if fuel == 0 {
                    None
                } else {
                    qualified_with(v, p, (fuel - 1) as nat, "/"@ + s2)
                },
            }
        },
    }
}

/// The slash-separated qualified name of a project (`app/api/db`); the global
/// project's is its own name.
pub open spec fn qualified_name(v: GlobalIndexView, u: u128) -> Option<Seq<char>> {
    if u == global_uuid() {
        match v.entry(u) {
            Some(e) => Some(e.name),
            None => None,
        }
    } else {
        qualified_with(v, u, v.projects.len(), Seq::empty())
    }
}

/// Builds the qualified name of a project by walking up its parents (at most as
/// many steps as there are projects); `None` at a broken parent link.
pub fn build_qualified_name(start_uuid: u128, index: &GlobalIndex) -> (r: Option<String>)
    requires
        index@.wf(),
    ensures
        opt_string_view(r) == qualified_name(index@, start_uuid),
{
    if start_uuid == GLOBAL_PROJECT_UUID {
        return match find_project(index, start_uuid) {
            Some(i) => {
                assert(index@.projects[i as int].1 == index.projects@[i as int].1@);
                Some(index.projects[i].1.name.clone())
            },
            None => None,
        };
    }
    let n = index.projects.len();
    let mut cur = start_uuid;
    let mut suffix = String::new();
    let mut fuel = n;
    loop
        invariant
            index@.wf(),
            fuel <= n,
            n == index@.projects.len(),
            qualified_name(index@, start_uuid) == qualified_with(index@, cur, fuel as nat, suffix@),
        decreases fuel,
    {
        let i = match find_project(index, cur) {
            Some(i) => i,
            None => {
                return None;
            },
        };
        assert(index@.projects[i as int].1 == index.projects@[i as int].1@);
        let mut s2 = index.projects[i].1.name.clone();
        s2.append(suffix.as_str());
        match index.projects[i].1.parent {
            None => {
                return Some(s2);
            },
            Some(p) => {
                if p == GLOBAL_PROJECT_UUID {
                    return Some(s2);
                }
                if fuel == 0 {
                    return None;
                }
                let mut next = owned("/");
                next.append(s2.as_str());
                suffix = next;
                cur = p;
                fuel = fuel - 1;
            },
        }
    }
}

/// The view of an optional string.
pub open spec fn opt_string_view(o: Option<String>) -> Option<Seq<char>> {
    crate::models::opt_str(o)
}

/// The first repeated project on the parent chain from `cur`, having visited
/// `visited`; the walk stops without a repeat at a missing entry, at a root, or
/// after `fuel` more links.
pub open spec fn cycle_walk(v: GlobalIndexView, cur: u128, visited: Seq<u128>, fuel: nat) -> Option<u128>
    decreases fuel,
{
    if visited.contains(cur) {
        Some(cur)
    } else {
        match v.entry(cur) {
            None => None,
            Some(e) => match e.parent {
                None => None,
                Some(p) => if fuel == 0 {
                    None
                } else {
                    cycle_walk(v, p, visited.push(cur), (fuel - 1) as nat)
                },
            },
        }
    }
}

/// Walks up the parent chain from `start_node_uuid` (following at most one link
/// more than there are projects) and returns the first project met twice.
pub fn find_cycle_from_node(start_node_uuid: u128, index: &GlobalIndex) -> (r: Option<u128>)
    requires
        index@.wf(),
    ensures
        r == cycle_walk(index@, start_node_uuid, Seq::empty(), (index@.projects.len() + 1) as nat),
{
    let n = index.projects.len();
    let mut fuel: u128 = n as u128 + 1;
    let mut visited: Vec<u128> = Vec::new();
    let mut cur = start_node_uuid;
    assert(visited@ =~= Seq::<u128>::empty());
    loop
        invariant
            index@.wf(),
            cycle_walk(index@, start_node_uuid, Seq::empty(), (index@.projects.len() + 1) as nat) == cycle_walk(
                index@,
                cur,
                visited@,
                fuel as nat,
            ),
        decreases fuel,
    {
        if vec_contains(&visited, cur) {
            return Some(cur);
        }
        let i = match find_project(index, cur) {
            Some(i) => i,
            None => {
                return None;
            },
        };
        assert(index@.projects[i as int].1 == index.projects@[i as int].1@);
        match index.projects[i].1.parent {
            None => {
                return None;
            },
            Some(p) => {
                if fuel == 0 {
                    return None;
                }
                visited.push(cur);
                cur = p;
                fuel = fuel - 1;
            },
        }
    }
}

/// `index` with alias `name` pointing to `target`: in place when the alias
/// exists, appended otherwise.
pub open spec fn alias_upsert(aliases: Seq<(Seq<char>, u128)>, name: Seq<char>, target: u128) -> Seq<
    (Seq<char>, u128),
> {
    if exists|i: int| 0 <= i < aliases.len() && (#[trigger] aliases[i]).0 == name {
        let i = choose|i: int| 0 <= i < aliases.len() && (#[trigger] aliases[i]).0 == name;
        aliases.update(i, (name, target))
    } else {
        aliases.push((name, target))
    }
}

/// The position of an alias.
pub(crate) fn find_alias(index: &GlobalIndex, name: &str) -> (r: Option<usize>)
    requires
        index@.wf(),
    ensures
        match r {
            Some(i) => i < index@.aliases.len() && index@.aliases[i as int].0 == name@,
            None => forall|k: int| 0 <= k < index@.aliases.len() ==> (#[trigger] index@.aliases[k]).0 != name@,
        },
{
    let mut i: usize = 0;
    while i < index.aliases.len()
        invariant
            i <= index.aliases@.len(),
            forall|k: int| 0 <= k < i ==> (#[trigger] index@.aliases[k]).0 != name@,
        decreases index.aliases@.len() - i,
    {
        assert(index@.aliases[i as int].0 == index.aliases@[i as int].0@);
        if str_eq(index.aliases[i].0.as_str(), name) {
            return Some(i);
        }
        i = i + 1;
    }
    None
}

/// Sets or updates an alias to point to a project.
pub fn set_alias(index: &mut GlobalIndex, name: String, target_uuid: u128)
    requires
        old(index)@.wf(),
    ensures
        final(index)@ == (GlobalIndexView {
            aliases: alias_upsert(old(index)@.aliases, name@, target_uuid),
            ..old(index)@
        }),
        final(index)@.wf(),
        final(index)@.alias(name@) == Some(target_uuid),
        forall|other: Seq<char>| other != name@ ==> #[trigger] final(index)@.alias(other) == old(index)@.alias(other),
{
    let ghost v = index@;
    let ghost nm = name@;
    match find_alias(index, name.as_str()) {
        Some(i) => {
            index.aliases.set(i, (name, target_uuid));
            proof {
                let j = choose|j: int| 0 <= j < v.aliases.len() && (#[trigger] v.aliases[j]).0 == nm;
                if j != i as int {
                    if j < i {
                        assert(v.aliases[j].0 != v.aliases[i as int].0);
                    } else {
                        assert(v.aliases[i as int].0 != v.aliases[j].0);
                    }
                }
                assert(index@.aliases =~= v.aliases.update(i as int, (nm, target_uuid)));
            }
        },
        None => {
            index.aliases.push((name, target_uuid));
            proof {
                assert(index@.aliases =~= v.aliases.push((nm, target_uuid)));
            }
        },
    }
    proof {
        lemma_alias_upsert(v, nm, target_uuid);
    }
}

/// Setting an alias makes it point to its target and leaves the others alone.
pub proof fn lemma_alias_upsert(v: GlobalIndexView, nm: Seq<char>, t: u128)
    requires
        v.wf(),
    ensures
        ({
            let w = GlobalIndexView { aliases: alias_upsert(v.aliases, nm, t), ..v };
            &&& w.wf()
            &&& w.alias(nm) == Some(t)
            &&& forall|other: Seq<char>| other != nm ==> #[trigger] w.alias(other) == v.alias(other)
        }),
{
    let w = GlobalIndexView { aliases: alias_upsert(v.aliases, nm, t), ..v };
    let pos: int = if exists|i: int| 0 <= i < v.aliases.len() && (#[trigger] v.aliases[i]).0 == nm {
        choose|i: int| 0 <= i < v.aliases.len() && (#[trigger] v.aliases[i]).0 == nm
    } else {
        v.aliases.len() as int
    };
    assert(w.aliases[pos] == (nm, t));
    assert forall|a: int|
        0 <= a < w.aliases.len() && a != pos implies #[trigger] w.aliases[a] == v.aliases[a]
        && v.aliases[a].0 != nm by {
        if v.aliases[a].0 == nm {
            assert(exists|i: int| 0 <= i < v.aliases.len() && (#[trigger] v.aliases[i]).0 == nm);
            let c = choose|i: int| 0 <= i < v.aliases.len() && (#[trigger] v.aliases[i]).0 == nm;
            if a < c {
                assert(v.aliases[a].0 != v.aliases[c].0);
            } else if c < a {
                assert(v.aliases[c].0 != v.aliases[a].0);
            }
        }
    }
    assert forall|a: int, b: int|
        0 <= a < b < w.aliases.len() implies (#[trigger] w.aliases[a]).0 != (#[trigger] w.aliases[b]).0 by {
        if a != pos && b != pos {
            assert(v.aliases[a].0 != v.aliases[b].0);
        }
    }
    lemma_alias_at(w, pos);
    assert forall|other: Seq<char>| other != nm implies #[trigger] w.alias(other) == v.alias(other) by {
        if exists|i: int| 0 <= i < v.aliases.len() && (#[trigger] v.aliases[i]).0 == other {
            let c = choose|i: int| 0 <= i < v.aliases.len() && (#[trigger] v.aliases[i]).0 == other;
            lemma_alias_at(v, c);
            assert(c != pos);
            lemma_alias_at(w, c);
        } else {
            if exists|i: int| 0 <= i < w.aliases.len() && (#[trigger] w.aliases[i]).0 == other {
                let c = choose|i: int| 0 <= i < w.aliases.len() && (#[trigger] w.aliases[i]).0 == other;
                assert(c != pos);
                assert(v.aliases[c].0 == other);
            }
        }
    }
}

/// The aliases without `name`.
pub open spec fn alias_removed(aliases: Seq<(Seq<char>, u128)>, name: Seq<char>) -> Seq<(Seq<char>, u128)> {
    aliases.filter(|a: (Seq<char>, u128)| a.0 != name)
}

/// Deletes an alias; returns whether it existed.
pub fn remove_alias(index: &mut GlobalIndex, name: &str) -> (r: bool)
    requires
        old(index)@.wf(),
    ensures
        r == old(index)@.alias(name@) is Some,
        final(index)@.projects == old(index)@.projects,
        final(index)@.last_used == old(index)@.last_used,
        final(index)@.wf(),
        final(index)@.alias(name@) is None,
        forall|other: Seq<char>| other != name@ ==> #[trigger] final(index)@.alias(other) == old(index)@.alias(other),
{
    let ghost v = index@;
    match find_alias(index, name) {
        Some(i) => {
            index.aliases.remove(i);
            proof {
                lemma_alias_at(v, i as int);
                let w = index@;
                assert(w.aliases =~= v.aliases.remove(i as int));
                assert forall|a: int, b: int|
                    0 <= a < b < w.aliases.len() implies (#[trigger] w.aliases[a]).0 != (#[trigger] w.aliases[b]).0 by {
                    let a2 = if a < i { a } else { a + 1 };
                    let b2 = if b < i { b } else { b + 1 };
                    assert(w.aliases[a] == v.aliases[a2]);
                    assert(w.aliases[b] == v.aliases[b2]);
                    assert(v.aliases[a2].0 != v.aliases[b2].0);
                }
                assert(w.projects == v.projects);
                assert(w.wf());
                assert forall|k: int| 0 <= k < w.aliases.len() implies (#[trigger] w.aliases[k]).0 != name@ by {
                    let k2 = if k < i { k } else { k + 1 };
                    assert(w.aliases[k] == v.aliases[k2]);
                    if k2 < i {
                        assert(v.aliases[k2].0 != v.aliases[i as int].0);
                    } else {
                        assert(v.aliases[i as int].0 != v.aliases[k2].0);
                    }
                }
                assert forall|other: Seq<char>| other != name@ implies #[trigger] w.alias(other) == v.alias(other) by {
                    if exists|j: int| 0 <= j < v.aliases.len() && (#[trigger] v.aliases[j]).0 == other {
                        let c = choose|j: int| 0 <= j < v.aliases.len() && (#[trigger] v.aliases[j]).0 == other;
                        lemma_alias_at(v, c);
                        assert(c != i);
                        let c2 = if c < i { c } else { c - 1 };
                        assert(w.aliases[c2] == v.aliases[c]);
                        lemma_alias_at(w, c2);
                    } else {
                        if exists|j: int| 0 <= j < w.aliases.len() && (#[trigger] w.aliases[j]).0 == other {
                            let c = choose|j: int| 0 <= j < w.aliases.len() && (#[trigger] w.aliases[j]).0 == other;
                            let c2 = if c < i { c } else { c + 1 };
                            assert(w.aliases[c] == v.aliases[c2]);
                        }
                    }
                }
            }
            true
        },
        None => {
            proof {
                if exists|j: int| 0 <= j < v.aliases.len() && (#[trigger] v.aliases[j]).0 == name@ {
                    let c = choose|j: int| 0 <= j < v.aliases.len() && (#[trigger] v.aliases[j]).0 == name@;
                    assert(v.aliases[c].0 != name@);
                }
            }
            false
        },
    }
}


/// The entry of the global project, rooted at the configuration directory.
pub open spec fn global_entry_view(config_dir: Seq<char>) -> IndexEntryView {
    IndexEntryView {
        name: "global"@,
        path: config_dir,
        parent: None,
        config_hash: None,
        cache_dir: None,
        last_used_child: None,
    }
}

/// Makes sure the index holds the global project: when it is missing, adds it
/// (rooted at the configuration directory) and, unless the alias `g` exists,
/// the alias `g` to it. Tells whether the project was added (its files are then
/// to be created and the index saved).
pub fn ensure_global_project(index: &mut GlobalIndex, config_dir: &str) -> (r: bool)
    requires
        old(index)@.wf(),
    ensures
        final(index)@.wf(),
        r == !old(index)@.has(0),
        !r ==> final(index)@ == old(index)@,
        r ==> final(index)@ == (GlobalIndexView {
            projects: upsert(old(index)@.projects, 0, global_entry_view(config_dir@)),
            aliases: if old(index)@.alias("g"@) is Some {
                old(index)@.aliases
            } else {
                alias_upsert(old(index)@.aliases, "g"@, 0)
            },
            ..old(index)@
        }),
{
    if find_project(index, GLOBAL_PROJECT_UUID).is_some() {
        return false;
    }
    let entry = IndexEntry {
        name: owned("global"),
        path: owned(config_dir),
        parent: None,
        config_hash: None,
        cache_dir: None,
        last_used_child: None,
    };
    put_project(index, GLOBAL_PROJECT_UUID, entry);
    let ghost mid = index@;
    match find_alias(index, "g") {
        Some(i) => {
            proof {
                lemma_alias_at(index@, i as int);
            }
        },
        None => {
            assert(index@.alias("g"@) is None);
            set_alias(index, owned("g"), GLOBAL_PROJECT_UUID);
        },
    }
    true
}

/// The local identity of a registered project, rebuilt from the index (for a
/// project whose `project_ref.bin` is missing).
pub fn project_ref_from_index(index: &GlobalIndex, uuid: u128) -> (r: Result<ProjectRef, IndexError>)
    requires
        index@.wf(),
    ensures
        match index@.entry(uuid) {
            Some(e) => r is Ok && r->Ok_0.self_uuid == uuid && r->Ok_0.parent_uuid == e.parent
                && r->Ok_0.name@ == e.name,
            None => r is Err && r->Err_0@ == IndexErrorView::ProjectNotFoundInIndex { uuid },
        },
{
    match find_project(index, uuid) {
        Some(i) => {
            assert(index@.projects[i as int].1 == index.projects@[i as int].1@);
            Ok(ProjectRef { self_uuid: uuid, parent_uuid: index.projects[i].1.parent, name: index.projects[i].1.name.clone() })
        },
        None => Err(IndexError::ProjectNotFoundInIndex { uuid }),
    }
}

} // verus!
