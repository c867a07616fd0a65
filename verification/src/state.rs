//! The application state around the global index, with journaling: the index is
//! kept pristine until the first change, when a snapshot of the original is taken;
//! at the end, the index needs saving only when it differs from that snapshot.

use vstd::prelude::*;
use crate::index_manager::{
    find_project, find_alias, lemma_ancestor_add, lemma_entry_at, lemma_upsert_existing, upsert,
};
use crate::models::{
    copy_entry, opt_str, opt_str_eq, entry_eq, GlobalIndex, GlobalIndexView, IndexEntryView,
};

verus! {

/// The two conditions of the index.
#[derive(Debug)]
enum IndexState {
    /// Untouched: as loaded.
    Pristine(GlobalIndex),
    /// Changed at least once: the snapshot taken before the first change, and the
    /// current index.
    Dirty { original: GlobalIndex, current: GlobalIndex },
}

/// The journaled application state.
#[derive(Debug)]
pub struct AppState {
    state: IndexState,
}

pub ghost struct AppStateView {
    /// The snapshot, once the index was changed.
    pub original: Option<GlobalIndexView>,
    /// The current index.
    pub current: GlobalIndexView,
}

impl View for AppState {
    type V = AppStateView;

    closed spec fn view(&self) -> AppStateView {
        match &self.state {
            IndexState::Pristine(i) => AppStateView { original: None, current: i@ },
            IndexState::Dirty { original, current } => AppStateView {
                original: Some(original@),
                current: current@,
            },
        }
    }
}

/// Two indexes hold the same projects, aliases and last-used project.
pub open spec fn same_index(a: GlobalIndexView, b: GlobalIndexView) -> bool {
    &&& forall|u: u128| #[trigger] a.entry(u) == b.entry(u)
    &&& forall|n: Seq<char>| #[trigger] a.alias(n) == b.alias(n)
    &&& a.last_used == b.last_used
}

/// Whether a chain from `child` up the parents has a parent whose last-used child
/// is not the child it was reached from (within `fuel` more steps).
pub open spec fn chain_needs_update(v: GlobalIndexView, child: u128, fuel: nat) -> bool
    decreases fuel,
{
    match v.parent_of(child) {
        None => false,
        Some(p) => match v.entry(p) {
            None => false,
            Some(pe) => pe.last_used_child != Some(child) || (fuel > 0 && chain_needs_update(
                v,
                p,
                (fuel - 1) as nat,
            )),
        },
    }
}

/// The index with each parent up the chain from `child` recording the child it
/// was reached from as its last-used child (within `fuel` more steps).
pub open spec fn mark_chain(v: GlobalIndexView, child: u128, fuel: nat) -> GlobalIndexView
    decreases fuel,
{
    match v.parent_of(child) {
        None => v,
        Some(p) => match v.entry(p) {
            None => v,
            Some(pe) => {
                let v2 = GlobalIndexView {
                    projects: upsert(
                        v.projects,
                        p,
                        IndexEntryView { last_used_child: Some(child), ..pe },
                    ),
                    ..v
                };
                if fuel == 0 {
                    v2
                } else {
                    mark_chain(v2, p, (fuel - 1) as nat)
                }
            },
        },
    }
}

/// Whether recording `u` as last used changes anything.
pub open spec fn last_used_outdated(v: GlobalIndexView, u: u128) -> bool {
    v.last_used != Some(u) || chain_needs_update(v, u, v.projects.len())
}

/// The index after recording `u` as last used, globally and in each ancestor.
pub open spec fn last_used_recorded(v: GlobalIndexView, u: u128) -> GlobalIndexView {
    mark_chain(GlobalIndexView { last_used: Some(u), ..v }, u, v.projects.len())
}

impl AppState {
    /// A pristine state around a loaded index.
    pub fn new(index: GlobalIndex) -> (r: AppState)
        ensures
            r@ == (AppStateView { original: None, current: index@ }),
    {
        AppState { state: IndexState::Pristine(index) }
    }

    /// Whether the index was changed and now differs from its snapshot.
    pub fn needs_saving(&self) -> (r: bool)
        requires
            self@.current.wf(),
            self@.original matches Some(o) ==> o.wf(),
        ensures
            r == (self@.original matches Some(o) && !same_index(o, self@.current)),
    {
        match &self.state {
            IndexState::Pristine(_) => false,
            IndexState::Dirty { original, current } => !indexes_equal(original, current),
        }
    }

    /// The current index.
    pub fn index(&self) -> (r: &GlobalIndex)
        ensures
            r@ == self@.current,
    {
        match &self.state {
            IndexState::Pristine(i) => i,
            IndexState::Dirty { current, .. } => current,
        }
    }

    /// Takes the snapshot, if none was taken yet.
    fn ensure_dirty(&mut self)
        ensures
            final(self)@.current == old(self)@.current,
            final(self)@.original == match old(self)@.original {
                Some(o) => Some(o),
                None => Some(old(self)@.current),
            },
            final(self).state is Dirty,
    {
        let taken = match &self.state {
            IndexState::Pristine(i) => Some(clone_index(i)),
            IndexState::Dirty { .. } => None,
        };
        match taken {
            Some(copy) => {
                let copy2 = clone_index(&copy);
                self.state = IndexState::Dirty { original: copy, current: copy2 };
            },
            None => {},
        }
    }

    /// Replaces the current index by a changed one, taking the snapshot first.
    pub fn set_index(&mut self, index: GlobalIndex)
        ensures
            final(self)@.current == index@,
            final(self)@.original == match old(self)@.original {
                Some(o) => Some(o),
                None => Some(old(self)@.current),
            },
    {
        self.ensure_dirty();
        match &mut self.state {
            IndexState::Dirty { current, .. } => {
                *current = index;
            },
            IndexState::Pristine(_) => {},
        }
    }

    /// Records new cache metadata of a project, changing the index only when a
    /// given value differs from the stored one.
    pub fn update_project_cache_info(
        &mut self,
        uuid: u128,
        new_hash: Option<String>,
        new_cache_dir: Option<String>,
    )
        requires
            old(self)@.current.wf(),
        ensures
            final(self)@.current.wf(),
            ({
                let v = old(self)@.current;
                match v.entry(uuid) {
                    None => final(self)@ == old(self)@,
                    Some(e) => {
                        let hash_changed = opt_str(new_hash) is Some && e.config_hash != opt_str(
                            new_hash,
                        );
                        let dir_changed = opt_str(new_cache_dir) is Some && e.cache_dir != opt_str(
                            new_cache_dir,
                        );
                        if hash_changed || dir_changed {
                            final(self)@.original == (match old(self)@.original {
                                Some(o) => Some(o),
                                None => Some(v),
                            }) && final(self)@.current == (GlobalIndexView {
                                projects: upsert(
                                    v.projects,
                                    uuid,
                                    IndexEntryView {
                                        config_hash: if hash_changed {
                                            opt_str(new_hash)
                                        } else {
                                            e.config_hash
                                        },
                                        cache_dir: if dir_changed {
                                            opt_str(new_cache_dir)
                                        } else {
                                            e.cache_dir
                                        },
                                        ..e
                                    },
                                ),
                                ..v
                            })
                        } else {
                            final(self)@ == old(self)@
                        }
                    },
                }
            }),
    {
        let cur = self.index();
        let i = match find_project(cur, uuid) {
            Some(i) => i,
            None => {
                return;
            },
        };
        assert(cur@.projects[i as int].1 == cur.projects@[i as int].1@);
        let entry = &cur.projects[i].1;
        let hash_changed = new_hash.is_some() && !opt_str_eq(&entry.config_hash, &new_hash);
        let dir_changed = new_cache_dir.is_some() && !opt_str_eq(&entry.cache_dir, &new_cache_dir);
        if hash_changed || dir_changed {
            let mut new_entry = copy_entry(entry);
            if hash_changed {
                new_entry.config_hash = new_hash;
            }
            if dir_changed {
                new_entry.cache_dir = new_cache_dir;
            }
            let mut next = clone_index(cur);
            crate::index_manager::put_project(&mut next, uuid, new_entry);
            self.set_index(next);
        }
    }

    /// Records `final_uuid` as the last used project, and each of its ancestors'
    /// last-used child along the way up; the index changes only when some of
    /// this is not already recorded. The chain is followed for at most as many
    /// steps as there are projects.
    pub fn update_last_used_caches(&mut self, final_uuid: u128)
        requires
            old(self)@.current.wf(),
        ensures
            final(self)@.current.wf(),
            ({
                let v = old(self)@.current;
                if last_used_outdated(v, final_uuid) {
                    final(self)@.original == (match old(self)@.original {
                        Some(o) => Some(o),
                        None => Some(v),
                    }) && final(self)@.current == last_used_recorded(v, final_uuid)
                } else {
                    final(self)@ == old(self)@
                }
            }),
    {
        let cur = self.index();
        let n = cur.projects.len();
        let outdated = cur.last_used != Some(final_uuid) || chain_outdated(cur, final_uuid, n);
        if !outdated {
            return;
        }
        let mut next = clone_index(cur);
        next.last_used = Some(final_uuid);
        mark_chain_exec(&mut next, final_uuid, n);
        self.set_index(next);
    }
}

/// Executable [`chain_needs_update`].
fn chain_outdated(index: &GlobalIndex, child: u128, fuel: usize) -> (r: bool)
    requires
        index@.wf(),
    ensures
        r == chain_needs_update(index@, child, fuel as nat),
{
    let mut c = child;
    let mut f = fuel;
    loop
        invariant
            index@.wf(),
            chain_needs_update(index@, child, fuel as nat) == chain_needs_update(index@, c, f as nat),
        decreases f,
    {
        let p = match crate::index_manager::parent_of(index, c) {
            Some(p) => p,
            None => {
                return false;
            },
        };
        let i = match find_project(index, p) {
            Some(i) => i,
            None => {
                return false;
            },
        };
        assert(index@.projects[i as int].1 == index.projects@[i as int].1@);
        if index.projects[i].1.last_used_child != Some(c) {
            return true;
        }
        if f == 0 {
            return false;
        }
        c = p;
        f = f - 1;
    }
}

/// Executable [`mark_chain`].
fn mark_chain_exec(index: &mut GlobalIndex, child: u128, fuel: usize)
    requires
        old(index)@.wf(),
    ensures
        final(index)@ == mark_chain(old(index)@, child, fuel as nat),
        final(index)@.wf(),
{
    let ghost target = mark_chain(index@, child, fuel as nat);
    let mut c = child;
    let mut f = fuel;
    loop
        invariant
            index@.wf(),
            target == mark_chain(old(index)@, child, fuel as nat),
            target == mark_chain(index@, c, f as nat),
        decreases f,
    {
        let p = match crate::index_manager::parent_of(index, c) {
            Some(p) => p,
            None => {
                return;
            },
        };
        let i = match find_project(index, p) {
            Some(i) => i,
            None => {
                return;
            },
        };
        assert(index@.projects[i as int].1 == index.projects@[i as int].1@);
        let mut e = copy_entry(&index.projects[i].1);
        e.last_used_child = Some(c);
        crate::index_manager::put_project(index, p, e);
        if f == 0 {
            return;
        }
        c = p;
        f = f - 1;
    }
}

/// A copy of an index.
pub fn clone_index(index: &GlobalIndex) -> (r: GlobalIndex)
    ensures
        r@ == index@,
{
    let mut projects: Vec<(u128, crate::models::IndexEntry)> = Vec::new();
    let mut i: usize = 0;
    while i < index.projects.len()
        invariant
            i <= index.projects@.len(),
            projects@.map_values(|p: (u128, crate::models::IndexEntry)| (p.0, p.1@)) =~= index@.projects.subrange(0, i as int),
        decreases index.projects@.len() - i,
    {
        let ghost before = projects@;
        projects.push((index.projects[i].0, copy_entry(&index.projects[i].1)));
        assert(projects@ =~= before.push(projects@.last()));
        assert(index@.projects.subrange(0, i + 1) =~= index@.projects.subrange(0, i as int).push(index@.projects[i as int]));
        i = i + 1;
    }
    let mut aliases: Vec<(String, u128)> = Vec::new();
    let mut j: usize = 0;
    while j < index.aliases.len()
        invariant
            j <= index.aliases@.len(),
            aliases@.map_values(|a: (String, u128)| (a.0@, a.1)) =~= index@.aliases.subrange(0, j as int),
        decreases index.aliases@.len() - j,
    {
        let ghost before = aliases@;
        aliases.push((index.aliases[j].0.clone(), index.aliases[j].1));
        assert(aliases@ =~= before.push(aliases@.last()));
        assert(index@.aliases.subrange(0, j + 1) =~= index@.aliases.subrange(0, j as int).push(index@.aliases[j as int]));
        j = j + 1;
    }
    assert(index@.projects.subrange(0, i as int) =~= index@.projects);
    assert(index@.aliases.subrange(0, j as int) =~= index@.aliases);
    GlobalIndex { projects, aliases, last_used: index.last_used }
}

/// Whether every project and alias of `a` is in `b` with the same value.
fn contained_in(a: &GlobalIndex, b: &GlobalIndex) -> (r: bool)
    requires
        a@.wf(),
        b@.wf(),
    ensures
        r == ((forall|u: u128| #[trigger] a@.has(u) ==> a@.entry(u) == b@.entry(u)) && (forall|
            n: Seq<char>,
        | #[trigger] a@.alias(n) is Some ==> a@.alias(n) == b@.alias(n))),
{
    let mut i: usize = 0;
    while i < a.projects.len()
        invariant
            i <= a.projects@.len(),
            a@.wf(),
            b@.wf(),
            forall|k: int| 0 <= k < i ==> a@.entry((#[trigger] a@.projects[k]).0) == b@.entry(a@.projects[k].0),
        decreases a.projects@.len() - i,
    {
        let u = a.projects[i].0;
        proof {
            lemma_entry_at(a@, i as int);
        }
        assert(a@.projects[i as int] == (u, a.projects@[i as int].1@));
        match find_project(b, u) {
            Some(j) => {
                assert(b@.projects[j as int].1 == b.projects@[j as int].1@);
                if !entry_eq(&a.projects[i].1, &b.projects[j].1) {
                    return false;
                }
            },
            None => {
                return false;
            },
        }
        i = i + 1;
    }
    let mut k: usize = 0;
    while k < a.aliases.len()
        invariant
            k <= a.aliases@.len(),
            a@.wf(),
            b@.wf(),
            forall|x: int| 0 <= x < a@.projects.len() ==> a@.entry((#[trigger] a@.projects[x]).0) == b@.entry(a@.projects[x].0),
            forall|x: int| 0 <= x < k ==> a@.alias((#[trigger] a@.aliases[x]).0) == b@.alias(a@.aliases[x].0),
        decreases a.aliases@.len() - k,
    {
        proof {
            crate::index_manager::lemma_alias_at(a@, k as int);
        }
        assert(a@.aliases[k as int] == (a.aliases@[k as int].0@, a.aliases@[k as int].1));
        match find_alias(b, a.aliases[k].0.as_str()) {
            Some(j) => {
                proof {
                    crate::index_manager::lemma_alias_at(b@, j as int);
                }
                assert(b@.aliases[j as int] == (b.aliases@[j as int].0@, b.aliases@[j as int].1));
                if a.aliases[k].1 != b.aliases[j].1 {
                    return false;
                }
            },
            None => {
                proof {
                    if exists|x: int| 0 <= x < b@.aliases.len() && (#[trigger] b@.aliases[x]).0 == a@.aliases[k as int].0 {
                        let x = choose|x: int| 0 <= x < b@.aliases.len() && (#[trigger] b@.aliases[x]).0 == a@.aliases[k as int].0;
                        assert(b@.aliases[x].0 != a@.aliases[k as int].0);
                    }
                }
                return false;
            },
        }
        k = k + 1;
    }
    proof {
        assert forall|u: u128| #[trigger] a@.has(u) implies a@.entry(u) == b@.entry(u) by {
            let x = choose|x: int| 0 <= x < a@.projects.len() && (#[trigger] a@.projects[x]).0 == u;
        }
        assert forall|n: Seq<char>| #[trigger] a@.alias(n) is Some implies a@.alias(n) == b@.alias(n) by {
            let x = choose|x: int| 0 <= x < a@.aliases.len() && (#[trigger] a@.aliases[x]).0 == n;
        }
    }
    true
}

/// Whether two indexes hold the same projects, aliases and last-used project.
pub fn indexes_equal(a: &GlobalIndex, b: &GlobalIndex) -> (r: bool)
    requires
        a@.wf(),
        b@.wf(),
    ensures
        r == same_index(a@, b@),
{
    let r = a.last_used == b.last_used && contained_in(a, b) && contained_in(b, a);
    proof {
        if r {
            assert forall|u: u128| #[trigger] a@.entry(u) == b@.entry(u) by {
                if a@.has(u) {
                } else if b@.has(u) {
                } else {
                }
            }
            assert forall|n: Seq<char>| #[trigger] a@.alias(n) == b@.alias(n) by {
                if a@.alias(n) is Some {
                } else if b@.alias(n) is Some {
                } else {
                }
            }
        } else {
            if same_index(a@, b@) {
                assert forall|u: u128| #[trigger] a@.has(u) implies a@.entry(u) == b@.entry(u) by {
                }
                assert forall|u: u128| #[trigger] b@.has(u) implies b@.entry(u) == a@.entry(u) by {
                    assert(a@.entry(u) == b@.entry(u));
                }
                assert forall|n: Seq<char>| #[trigger] b@.alias(n) is Some implies b@.alias(n) == a@.alias(n) by {
                    assert(a@.alias(n) == b@.alias(n));
                }
            }
        }
    }
    r
}

/// Two indexes with the same parent links have the same ancestors.
proof fn lemma_same_ancestors(v: GlobalIndexView, w: GlobalIndexView, u: u128, n: nat)
    requires
        forall|x: u128| #[trigger] v.parent_of(x) == w.parent_of(x),
    ensures
        v.ancestor(u, n) == w.ancestor(u, n),
    decreases n,
{
    if n > 0 {
        lemma_same_ancestors(v, w, u, (n - 1) as nat);
    }
}

/// What marking a chain of last-used children keeps: the projects, their
/// parents, and every entry off the chain (the ancestors of `c`, one to
/// `f + 1` steps up).
proof fn lemma_mark_frame(v: GlobalIndexView, c: u128, f: nat)
    requires
        v.wf(),
    ensures
        ({
            let w = mark_chain(v, c, f);
            &&& w.wf()
            &&& w.projects.len() == v.projects.len()
            &&& w.last_used == v.last_used
            &&& forall|x: u128| #[trigger] w.has(x) == v.has(x)
            &&& forall|x: u128| #[trigger] w.parent_of(x) == v.parent_of(x)
            &&& forall|x: u128|
                (forall|k: nat| 1 <= k <= f + 1 ==> #[trigger] v.ancestor(c, k) != Some(x)) ==> #[trigger] w.entry(
                    x,
                ) == v.entry(x)
        }),
    decreases f,
{
    match v.parent_of(c) {
        None => {},
        Some(p) => match v.entry(p) {
            None => {},
            Some(pe) => {
                let e = IndexEntryView { last_used_child: Some(c), ..pe };
                let v2 = GlobalIndexView { projects: upsert(v.projects, p, e), ..v };
                assert forall|y: u128|
                    #![trigger v2.entry(y)]
                    #![trigger v2.has(y)]
                    #![trigger v2.parent_of(y)]
                    v2.has(y) == v.has(y) && v2.entry(y) == (if y == p {
                        Some(e)
                    } else {
                        v.entry(y)
                    }) && v2.parent_of(y) == v.parent_of(y) by {
                    lemma_upsert_existing(v, p, e, y);
                }
                lemma_upsert_existing(v, p, e, p);
                assert(v.ancestor(c, 1) == Some(p)) by {
                    reveal_with_fuel(GlobalIndexView::ancestor, 2);
                }
                if f > 0 {
                    let g = (f - 1) as nat;
                    lemma_mark_frame(v2, p, g);
                    let w = mark_chain(v, c, f);
                    assert(w == mark_chain(v2, p, g));
                    assert forall|x: u128|
                        (forall|k: nat| 1 <= k <= f + 1 ==> #[trigger] v.ancestor(c, k) != Some(x)) implies #[trigger] w.entry(
                        x,
                    ) == v.entry(x) by {
                        assert(x != p);
                        assert forall|k: nat| 1 <= k <= g + 1 implies #[trigger] v2.ancestor(p, k) != Some(x) by {
                            lemma_same_ancestors(v, v2, p, k);
                            lemma_ancestor_add(v, c, p, 1, k);
                            assert(v.ancestor(c, 1 + k) != Some(x));
                        }
                    }
                }
            },
        },
    }
}

/// After marking the chain of `c`, the chain needs no update, provided the
/// marked ancestors of `c` are pairwise distinct (a later mark never
/// overwrites an earlier one).
proof fn lemma_mark_settles(v: GlobalIndexView, c: u128, f: nat)
    requires
        v.wf(),
        forall|j: nat, k: nat|
            1 <= k < j <= f + 1 && #[trigger] v.ancestor(c, j) is Some ==> v.ancestor(c, j)
                != #[trigger] v.ancestor(c, k),
    ensures
        !chain_needs_update(mark_chain(v, c, f), c, f),
    decreases f,
{
    lemma_mark_frame(v, c, f);
    let w = mark_chain(v, c, f);
    match v.parent_of(c) {
        None => {
            assert(w.parent_of(c) == v.parent_of(c));
        },
        Some(p) => match v.entry(p) {
            None => {
                assert(w == v);
            },
            Some(pe) => {
                let e = IndexEntryView { last_used_child: Some(c), ..pe };
                let v2 = GlobalIndexView { projects: upsert(v.projects, p, e), ..v };
                assert forall|y: u128| #![trigger v2.parent_of(y)] v2.parent_of(y) == v.parent_of(y) by {
                    lemma_upsert_existing(v, p, e, y);
                }
                lemma_upsert_existing(v, p, e, p);
                assert(v.ancestor(c, 1) == Some(p)) by {
                    reveal_with_fuel(GlobalIndexView::ancestor, 2);
                }
                assert(w.parent_of(c) == Some(p));
                if f == 0 {
                    assert(w == v2);
                    assert(w.entry(p) == Some(e));
                } else {
                    let g = (f - 1) as nat;
                    assert(w == mark_chain(v2, p, g));
                    assert forall|j: nat, k: nat|
                        1 <= k < j <= g + 1 && #[trigger] v2.ancestor(p, j) is Some implies v2.ancestor(p, j)
                            != #[trigger] v2.ancestor(p, k) by {
                        lemma_same_ancestors(v, v2, p, j);
                        lemma_same_ancestors(v, v2, p, k);
                        lemma_ancestor_add(v, c, p, 1, j);
                        lemma_ancestor_add(v, c, p, 1, k);
                        assert(v.ancestor(c, 1 + j) is Some);
                        assert(v.ancestor(c, 1 + j) != v.ancestor(c, 1 + k));
                    }
                    lemma_mark_settles(v2, p, g);
                    lemma_mark_frame(v2, p, g);
                    assert forall|k: nat| 1 <= k <= g + 1 implies #[trigger] v2.ancestor(p, k) != Some(p) by {
                        lemma_same_ancestors(v, v2, p, k);
                        lemma_ancestor_add(v, c, p, 1, k);
                        if v.ancestor(c, 1 + k) == Some(p) {
                            assert(v.ancestor(c, 1 + k) is Some);
                            assert(v.ancestor(c, 1 + k) != v.ancestor(c, 1));
                        }
                    }
                    assert(w.entry(p) == v2.entry(p));
                    assert(w.entry(p) == Some(e));
                }
            },
        },
    }
}

/// An ancestor one or more steps up exists only for a registered project.
proof fn lemma_ancestor_needs_entry(v: GlobalIndexView, x: u128, m: nat)
    requires
        m >= 1,
        v.ancestor(x, m) is Some,
    ensures
        v.has(x),
    decreases m,
{
    if m > 1 {
        lemma_ancestor_needs_entry(v, x, (m - 1) as nat);
    } else {
        reveal_with_fuel(GlobalIndexView::ancestor, 2);
    }
}

/// Law: recording the same project as last used twice changes nothing the
/// second time. In an index without cycles, once `u` is recorded (globally
/// and as the last-used child of each of its ancestors), recording it again
/// finds nothing outdated, so the second update leaves the state unchanged.
pub proof fn lemma_recording_last_used_is_idempotent(v: GlobalIndexView, u: u128)
    requires
        v.wf(),
        v.acyclic(),
    ensures
        !last_used_outdated(last_used_recorded(v, u), u),
{
    let n = v.projects.len();
    let v1 = GlobalIndexView { last_used: Some(u), ..v };
    assert forall|x: u128| #![trigger v1.parent_of(x)] v1.parent_of(x) == v.parent_of(x) by {}
    assert forall|j: nat, k: nat|
        1 <= k < j <= n + 1 && #[trigger] v1.ancestor(u, j) is Some implies v1.ancestor(u, j)
            != #[trigger] v1.ancestor(u, k) by {
        lemma_same_ancestors(v, v1, u, j);
        lemma_same_ancestors(v, v1, u, k);
        if v.ancestor(u, j) == v.ancestor(u, k) {
            let x = v.ancestor(u, k)->Some_0;
            let m = (j - k) as nat;
            lemma_ancestor_add(v, u, x, k, m);
            assert(k + m == j);
            assert(v.ancestor(x, m) == Some(x));
            lemma_ancestor_needs_entry(v, x, m);
            assert(v.is_descendant(x, x));
        }
    }
    lemma_mark_settles(v1, u, n);
    lemma_mark_frame(v1, u, n);
}

} // verus!
