//! Resolution of a project context string (`my-app/api`, `.`, `_`, `**`,
//! `alias!/child`, `../*`) to a project of the index.
//!
//! The resolution is a walk: a start (found from the first part of the
//! context, in a fixed order of precedence), then one step per remaining part.
//! A `*` step without a valid remembered child asks the user to pick one of
//! the children; the caller asks and resumes the walk with the answer. At the
//! end, the chain of last-used projects is recorded and the qualified name of
//! the project is returned.

use vstd::prelude::*;
use crate::dispatch::{last_index_of, lemma_last_index_of};
use crate::index_manager::{
    build_qualified_name, find_alias, find_project, lemma_alias_at, lemma_entry_at, qualified_name,
    opt_string_view,
};
use crate::models::{GlobalIndex, GlobalIndexView, IndexEntryView};
use crate::parameters::strs_view;
use crate::paths::{path_has_prefix, path_starts_with, paths_equal, same_path};
use crate::state::{last_used_outdated, last_used_recorded, AppState};
use crate::text::{chars_of, owned, push_str, str_eq, str_less, str_lt, string_of, trim, trim_str};

verus! {

// =========================================================================
// === Splitting
// =========================================================================

/// The position of the first `c` in `s`, or -1.
pub open spec fn first_index_of(s: Seq<char>, c: char) -> int
    decreases s.len(),
{
    if s.len() == 0 {
        -1
    } else if s[0] == c {
        0
    } else {
        let r = first_index_of(s.drop_first(), c);
        if r < 0 {
            -1
        } else {
            r + 1
        }
    }
}

/// The first occurrence of `c` lies in `s`, and no `c` precedes it.
pub proof fn lemma_first_index_of(s: Seq<char>, c: char)
    ensures
        -1 <= first_index_of(s, c) < s.len(),
        first_index_of(s, c) >= 0 ==> s[first_index_of(s, c)] == c,
        forall|k: int|
            0 <= k < s.len() && (first_index_of(s, c) < 0 || k < first_index_of(s, c)) ==> s[k]
                != c,
    decreases s.len(),
{
    if s.len() > 0 && s[0] != c {
        lemma_first_index_of(s.drop_first(), c);
        assert forall|k: int|
            0 <= k < s.len() && (first_index_of(s, c) < 0 || k < first_index_of(s, c)) implies s[k]
            != c by {
            if k > 0 {
                assert(s.drop_first()[k - 1] == s[k]);
            }
        }
    }
}

/// A `c` at `f` with none before it is the first.
proof fn lemma_first_at(s: Seq<char>, c: char, f: int)
    requires
        0 <= f < s.len(),
        s[f] == c,
        forall|k: int| 0 <= k < f ==> s[k] != c,
    ensures
        first_index_of(s, c) == f,
    decreases s.len(),
{
    if f > 0 {
        assert forall|k: int| 0 <= k < f - 1 implies s.drop_first()[k] != c by {
            assert(s.drop_first()[k] == s[k + 1]);
        }
        lemma_first_at(s.drop_first(), c, f - 1);
    }
}

/// Without `c`, there is no first `c`.
proof fn lemma_first_none(s: Seq<char>, c: char)
    requires
        forall|k: int| 0 <= k < s.len() ==> s[k] != c,
    ensures
        first_index_of(s, c) == -1,
    decreases s.len(),
{
    if s.len() > 0 {
        assert forall|k: int| 0 <= k < s.len() - 1 implies s.drop_first()[k] != c by {
            assert(s.drop_first()[k] == s[k + 1]);
        }
        lemma_first_none(s.drop_first(), c);
    }
}

/// The pieces of `s` between the occurrences of `c` (`str::split`).
pub open spec fn split_on(s: Seq<char>, c: char) -> Seq<Seq<char>>
    decreases s.len(),
{
    let f = first_index_of(s, c);
    if f < 0 {
        seq![s]
    } else {
        proof {
            lemma_first_index_of(s, c);
        }
        seq![s.subrange(0, f)] + split_on(s.subrange(f + 1, s.len() as int), c)
    }
}

/// Splits a string at each `c`.
pub fn split_str(s: &str, c: char) -> (r: Vec<String>)
    ensures
        strs_view(r@) == split_on(s@, c),
{
    let v = chars_of(s);
    let n = v.len();
    let mut out: Vec<String> = Vec::new();
    let mut start: usize = 0;
    let mut i: usize = 0;
    assert(v@.subrange(0, n as int) =~= v@);
    while i < n
        invariant
            start <= i <= n,
            n == v@.len(),
            v@ == s@,
            split_on(v@, c) == strs_view(out@) + split_on(v@.subrange(start as int, n as int), c),
            forall|k: int| start <= k < i ==> v@[k] != c,
        decreases n - i,
    {
        if v[i] == c {
            let ghost rest = v@.subrange(start as int, n as int);
            proof {
                assert forall|k: int| 0 <= k < i - start implies rest[k] != c by {
                    assert(rest[k] == v@[start + k]);
                }
                lemma_first_at(rest, c, i - start);
                assert(rest.subrange(0, i - start) =~= v@.subrange(start as int, i as int));
                assert(rest.subrange(i - start + 1, rest.len() as int) =~= v@.subrange(
                    i + 1,
                    n as int,
                ));
            }
            let piece = string_of(&v, start, i);
            let ghost before = strs_view(out@);
            out.push(piece);
            assert(strs_view(out@) =~= before.push(v@.subrange(start as int, i as int)));
            assert(split_on(rest, c) == seq![v@.subrange(start as int, i as int)] + split_on(
                v@.subrange(i + 1, n as int),
                c,
            ));
            assert(strs_view(out@) + split_on(v@.subrange(i + 1, n as int), c) =~= before
                + split_on(rest, c));
            start = i + 1;
        }
        i = i + 1;
    }
    let ghost rest = v@.subrange(start as int, n as int);
    proof {
        assert forall|k: int| 0 <= k < rest.len() implies rest[k] != c by {
            assert(rest[k] == v@[start + k]);
        }
        lemma_first_none(rest, c);
    }
    let piece = string_of(&v, start, n);
    let ghost before = strs_view(out@);
    out.push(piece);
    assert(strs_view(out@) =~= before + seq![rest]);
    out
}

// =========================================================================
// === Errors
// =========================================================================

/// Why a context cannot be resolved.
#[derive(Debug, Clone)]
pub enum ContextError {
    /// The current directory could not be read or canonicalized.
    Io(String),
    GlobalRecentNotAtStart,
    AlreadyAtRoot,
    NoLastUsedProject,
    NoLastUsedChild { parent_name: String },
    ProjectNotFoundFromPath,
    ProjectNotFoundInCwd,
    ChildProjectNotFound { child_name: String, parent_name: String },
    AliasNotFound { name: String },
    AliasResolutionError,
    Cancelled,
}

pub ghost enum ContextErrorView {
    Io(Seq<char>),
    GlobalRecentNotAtStart,
    AlreadyAtRoot,
    NoLastUsedProject,
    NoLastUsedChild { parent_name: Seq<char> },
    ProjectNotFoundFromPath,
    ProjectNotFoundInCwd,
    ChildProjectNotFound { child_name: Seq<char>, parent_name: Seq<char> },
    AliasNotFound { name: Seq<char> },
    AliasResolutionError,
    Cancelled,
}

impl View for ContextError {
    type V = ContextErrorView;

    open spec fn view(&self) -> ContextErrorView {
        match self {
            ContextError::Io(m) => ContextErrorView::Io(m@),
            ContextError::GlobalRecentNotAtStart => ContextErrorView::GlobalRecentNotAtStart,
            ContextError::AlreadyAtRoot => ContextErrorView::AlreadyAtRoot,
            ContextError::NoLastUsedProject => ContextErrorView::NoLastUsedProject,
            ContextError::NoLastUsedChild { parent_name } => ContextErrorView::NoLastUsedChild {
                parent_name: parent_name@,
            },
            ContextError::ProjectNotFoundFromPath => ContextErrorView::ProjectNotFoundFromPath,
            ContextError::ProjectNotFoundInCwd => ContextErrorView::ProjectNotFoundInCwd,
            ContextError::ChildProjectNotFound { child_name, parent_name } =>
                ContextErrorView::ChildProjectNotFound {
                child_name: child_name@,
                parent_name: parent_name@,
            },
            ContextError::AliasNotFound { name } => ContextErrorView::AliasNotFound {
                name: name@,
            },
            ContextError::AliasResolutionError => ContextErrorView::AliasResolutionError,
            ContextError::Cancelled => ContextErrorView::Cancelled,
        }
    }
}

impl ContextError {
    /// The text of [`Self::message`].
    pub open spec fn message_text(&self) -> Seq<char> {
        match self {
            ContextError::Io(m) => "Filesystem Error: "@ + m@,
            ContextError::GlobalRecentNotAtStart => "Context '**' can only be used at the beginning of the path."@,
            ContextError::AlreadyAtRoot => "Cannot go further up the hierarchy. Already at a root project."@,
            ContextError::NoLastUsedProject => "No projects have been used recently. Cannot resolve '**'."@,
            ContextError::NoLastUsedChild { parent_name } => "Parent project '"@ + parent_name@
                + "' has not used any children recently. Cannot resolve '*'."@,
            ContextError::ProjectNotFoundFromPath => "No axes project found in current directory or any parent directories."@,
            ContextError::ProjectNotFoundInCwd => "No axes project found in current directory."@,
            ContextError::ChildProjectNotFound { child_name, parent_name } => "Child project '"@ + child_name@
                + "' not found for parent '"@ + parent_name@ + "'."@,
            ContextError::AliasNotFound { name } => "Alias '"@ + name@ + "!' not found."@,
            ContextError::AliasResolutionError => "Could not resolve project name for alias (possible broken parent link)."@,
            ContextError::Cancelled => "Operation cancelled by user."@,
        }
    }

    /// The message shown to the user.
    pub fn message(&self) -> (r: String)
        ensures
            r@ == self.message_text(),
    {
        match self {
            ContextError::Io(m) => {
                let mut s = owned("Filesystem Error: ");
                push_str(&mut s, m.as_str());
                s
            },
            ContextError::GlobalRecentNotAtStart => owned(
                "Context '**' can only be used at the beginning of the path.",
            ),
            ContextError::AlreadyAtRoot => owned(
                "Cannot go further up the hierarchy. Already at a root project.",
            ),
            ContextError::NoLastUsedProject => owned(
                "No projects have been used recently. Cannot resolve '**'.",
            ),
            ContextError::NoLastUsedChild { parent_name } => {
                let mut s = owned("Parent project '");
                push_str(&mut s, parent_name.as_str());
                push_str(&mut s, "' has not used any children recently. Cannot resolve '*'.");
                s
            },
            ContextError::ProjectNotFoundFromPath => owned(
                "No axes project found in current directory or any parent directories.",
            ),
            ContextError::ProjectNotFoundInCwd => owned("No axes project found in current directory."),
            ContextError::ChildProjectNotFound { child_name, parent_name } => {
                let mut s = owned("Child project '");
                push_str(&mut s, child_name.as_str());
                push_str(&mut s, "' not found for parent '");
                push_str(&mut s, parent_name.as_str());
                push_str(&mut s, "'.");
                s
            },
            ContextError::AliasNotFound { name } => {
                let mut s = owned("Alias '");
                push_str(&mut s, name.as_str());
                push_str(&mut s, "!' not found.");
                s
            },
            ContextError::AliasResolutionError => owned(
                "Could not resolve project name for alias (possible broken parent link).",
            ),
            ContextError::Cancelled => owned("Operation cancelled by user."),
        }
    }
}

// =========================================================================
// === Projects found from a directory
// =========================================================================

/// Among the projects whose root is a leading part of `path`, the first (in
/// index order) with the longest root, with the length of its root.
pub open spec fn best_ancestor(ps: Seq<(u128, IndexEntryView)>, path: Seq<char>) -> Option<
    (u128, nat),
>
    decreases ps.len(),
{
    if ps.len() == 0 {
        None
    } else {
        let b = best_ancestor(ps.drop_last(), path);
        let e = ps.last().1;
        if path_has_prefix(path, e.path) && (match b {
            None => true,
            Some(x) => e.path.len() > x.1,
        }) {
            Some((ps.last().0, e.path.len()))
        } else {
            b
        }
    }
}

/// The first project (in index order) whose root is `path`.
pub open spec fn first_at_path(ps: Seq<(u128, IndexEntryView)>, path: Seq<char>) -> Option<u128>
    decreases ps.len(),
{
    if ps.len() == 0 {
        None
    } else {
        match first_at_path(ps.drop_last(), path) {
            Some(u) => Some(u),
            None => if same_path(ps.last().1.path, path) {
                Some(ps.last().0)
            } else {
                None
            },
        }
    }
}

/// The project of a directory: searching up, the closest project whose root
/// contains it; otherwise the project rooted exactly there.
pub open spec fn project_at_path(v: GlobalIndexView, path: Seq<char>, search_up: bool) -> Result<
    u128,
    ContextErrorView,
> {
    if search_up {
        match best_ancestor(v.projects, path) {
            Some(x) => Ok(x.0),
            None => Err(ContextErrorView::ProjectNotFoundFromPath),
        }
    } else {
        match first_at_path(v.projects, path) {
            Some(u) => Ok(u),
            None => Err(ContextErrorView::ProjectNotFoundInCwd),
        }
    }
}

/// Finds the project of a canonical directory path: with `search_up`, the
/// registered project whose root is the longest leading part of the path
/// (mode `.`); otherwise the project rooted exactly at the path (mode `_`).
pub fn find_project_from_path(current_path: &str, search_up: bool, index: &GlobalIndex) -> (r:
    Result<u128, ContextError>)
    requires
        index@.wf(),
    ensures
        match project_at_path(index@, current_path@, search_up) {
            Ok(u) => r is Ok && r->Ok_0 == u && index@.has(u),
            Err(e) => r is Err && r->Err_0@ == e,
        },
{
    let ghost v = index@;
    let mut best: Option<(u128, usize)> = None;
    let mut found: Option<u128> = None;
    let mut k: usize = 0;
    assert(v.projects.subrange(0, 0) =~= Seq::<(u128, IndexEntryView)>::empty());
    while k < index.projects.len()
        invariant
            k <= index.projects@.len(),
            index@ == v,
            search_up ==> match best_ancestor(v.projects.subrange(0, k as int), current_path@) {
                None => best is None,
                Some(x) => best matches Some(b) && b.0 == x.0 && b.1 == x.1 && v.has(b.0),
            },
            !search_up ==> found == first_at_path(v.projects.subrange(0, k as int), current_path@)
                && (found matches Some(u) ==> v.has(u)),
        decreases index.projects@.len() - k,
    {
        assert(v.projects.subrange(0, k + 1).drop_last() =~= v.projects.subrange(0, k as int));
        assert(v.projects[k as int].1 == index.projects@[k as int].1@);
        assert(v.projects[k as int].0 == index.projects@[k as int].0);
        assert(v.projects.subrange(0, k + 1).last() == v.projects[k as int]);
        let e = &index.projects[k].1;
        if search_up {
            if path_starts_with(current_path, e.path.as_str()) {
                let len = e.path.as_str().unicode_len();
                let better = match best {
                    None => true,
                    Some(b) => len > b.1,
                };
                if better {
                    best = Some((index.projects[k].0, len));
                }
            }
        } else if found.is_none() && paths_equal(e.path.as_str(), current_path) {
            found = Some(index.projects[k].0);
        }
        k = k + 1;
    }
    assert(v.projects.subrange(0, k as int) =~= v.projects);
    if search_up {
        match best {
            Some(b) => Ok(b.0),
            None => Err(ContextError::ProjectNotFoundFromPath),
        }
    } else {
        match found {
            Some(u) => Ok(u),
            None => Err(ContextError::ProjectNotFoundInCwd),
        }
    }
}


// =========================================================================
// === The start of a walk
// =========================================================================

/// The parts of a context: the trimmed string split at each `/`.
pub open spec fn context_parts(context: Seq<char>) -> Seq<Seq<char>> {
    split_on(trim(context), '/')
}

/// A split has at least one piece.
pub proof fn lemma_split_nonempty(s: Seq<char>, c: char)
    ensures
        split_on(s, c).len() >= 1,
{
}

/// The first part, a blank one standing for `.`.
pub open spec fn lead_part(parts: Seq<Seq<char>>) -> Seq<char> {
    if trim(parts[0]).len() == 0 {
        "."@
    } else {
        parts[0]
    }
}

/// The view of the current directory, or of the error met reading it.
pub open spec fn cwd_view(cwd: Result<String, String>) -> Result<Seq<char>, Seq<char>> {
    match cwd {
        Ok(p) => Ok(p@),
        Err(m) => Err(m@),
    }
}

/// The project of the current directory.
pub open spec fn cwd_project(v: GlobalIndexView, cwd: Result<Seq<char>, Seq<char>>, search_up: bool) -> Result<
    u128,
    ContextErrorView,
> {
    match cwd {
        Err(m) => Err(ContextErrorView::Io(m)),
        Ok(p) => project_at_path(v, p, search_up),
    }
}

/// Whether the start of the walk goes up from the session's project (`..` in a
/// session), which then must be registered.
pub open spec fn starts_from_session_parent(
    v: GlobalIndexView,
    parts: Seq<Seq<char>>,
    session: Option<u128>,
) -> bool {
    let fp = lead_part(parts);
    &&& fp == ".."@
    &&& fp != v.entry(0)->Some_0.name
    &&& session is Some
}

/// The start of the walk and the position of the first part to walk, by the
/// first part of the context, in this order of precedence: `.` (the project
/// containing the current directory), `_` (the project rooted at the current
/// directory), `**` (the last used project), `name!` (an alias), the global
/// project's name; `..` (the parent of the session's project, or else of the
/// current directory's project); anything else is a child to look up from the
/// session's project, or else from the global project.
pub open spec fn walk_start(
    v: GlobalIndexView,
    parts: Seq<Seq<char>>,
    session: Option<u128>,
    cwd: Result<Seq<char>, Seq<char>>,
) -> Result<(u128, nat), ContextErrorView> {
    let fp = lead_part(parts);
    if fp == "."@ {
        match cwd_project(v, cwd, true) {
            Ok(u) => Ok((u, 1nat)),
            Err(e) => Err(e),
        }
    } else if fp == "_"@ {
        match cwd_project(v, cwd, false) {
            Ok(u) => Ok((u, 1nat)),
            Err(e) => Err(e),
        }
    } else if fp == "**"@ {
        match v.last_used {
            Some(u) => Ok((u, 1nat)),
            None => Err(ContextErrorView::NoLastUsedProject),
        }
    } else if fp.len() > 0 && fp.last() == '!' {
        match v.alias(fp.drop_last()) {
            Some(u) => Ok((u, 1nat)),
            None => Err(ContextErrorView::AliasNotFound { name: fp.drop_last() }),
        }
    } else if fp == v.entry(0)->Some_0.name {
        Ok((0, 1nat))
    } else if fp == ".."@ {
        let focus = match session {
            Some(s) => Ok(s),
            None => cwd_project(v, cwd, true),
        };
        match focus {
            Err(e) => Err(e),
            Ok(f) => match v.entry(f)->Some_0.parent {
                Some(p) => Ok((p, 1nat)),
                None => Err(ContextErrorView::AlreadyAtRoot),
            },
        }
    } else {
        Ok(
            (
                match session {
                    Some(s) => s,
                    None => 0,
                },
                0nat,
            ),
        )
    }
}

/// A walk through the parts of a context: the project reached, the parts, and
/// the position of the next part to walk.
#[derive(Debug)]
pub struct ContextWalk {
    pub current: u128,
    pub parts: Vec<String>,
    pub next: usize,
}

/// The project rooted at or containing the current directory.
fn cwd_project_exec(index: &GlobalIndex, cwd: &Result<String, String>, search_up: bool) -> (r: Result<
    u128,
    ContextError,
>)
    requires
        index@.wf(),
    ensures
        match cwd_project(index@, cwd_view(*cwd), search_up) {
            Ok(u) => r is Ok && r->Ok_0 == u && index@.has(u),
            Err(e) => r is Err && r->Err_0@ == e,
        },
{
    match cwd {
        Err(m) => Err(ContextError::Io(m.clone())),
        Ok(p) => find_project_from_path(p.as_str(), search_up, index),
    }
}

impl ContextWalk {
    /// Starts the walk of a context; see [`walk_start`]. `session_uuid` is the
    /// project of the enclosing session, if any; `cwd` is the canonical current
    /// directory, or the error met reading it.
    pub fn start(
        context: &str,
        index: &GlobalIndex,
        session_uuid: Option<u128>,
        cwd: &Result<String, String>,
    ) -> (r: Result<ContextWalk, ContextError>)
        requires
            index@.wf(),
            index@.has(0),
            starts_from_session_parent(index@, context_parts(context@), session_uuid) ==> index@.has(
                session_uuid->Some_0,
            ),
        ensures
            match walk_start(index@, context_parts(context@), session_uuid, cwd_view(*cwd)) {
                Ok(x) => r is Ok && r->Ok_0.current == x.0 && r->Ok_0.next == x.1 && strs_view(
                    r->Ok_0.parts@,
                ) == context_parts(context@),
                Err(e) => r is Err && r->Err_0@ == e,
            },
    {
        let ghost v = index@;
        let trimmed = trim_str(context);
        let parts = split_str(trimmed.as_str(), '/');
        proof {
            lemma_split_nonempty(trim(context@), '/');
        }
        let ghost pv = strs_view(parts@);
        assert(pv[0] == parts@[0]@);
        let lead_blank = trim_str(parts[0].as_str()).unicode_len() == 0;
        let fp: String = if lead_blank {
            owned(".")
        } else {
            parts[0].clone()
        };
        assert(fp@ == lead_part(pv));
        let gi = find_project(index, 0).unwrap();
        assert(v.projects[gi as int].1 == index.projects@[gi as int].1@);
        let f = fp.as_str();
        let fv = chars_of(f);
        let (current, next): (u128, usize) = if str_eq(f, ".") {
            (cwd_project_exec(index, cwd, true)?, 1)
        } else if str_eq(f, "_") {
            (cwd_project_exec(index, cwd, false)?, 1)
        } else if str_eq(f, "**") {
            match index.last_used {
                Some(u) => (u, 1),
                None => {
                    return Err(ContextError::NoLastUsedProject);
                },
            }
        } else if fv.len() > 0 && fv[fv.len() - 1] == '!' {
            let name = string_of(&fv, 0, fv.len() - 1);
            assert(fv@.drop_last() =~= fv@.subrange(0, fv@.len() - 1));
            match find_alias(index, name.as_str()) {
                Some(i) => {
                    proof {
                        lemma_alias_at(v, i as int);
                    }
                    assert(v.aliases[i as int].1 == index.aliases@[i as int].1);
                    (index.aliases[i].1, 1)
                },
                None => {
                    return Err(ContextError::AliasNotFound { name });
                },
            }
        } else if str_eq(f, index.projects[gi].1.name.as_str()) {
            (0, 1)
        } else if str_eq(f, "..") {
            let focus = match session_uuid {
                Some(s) => s,
                None => cwd_project_exec(index, cwd, true)?,
            };
            let fi = find_project(index, focus).unwrap();
            assert(v.projects[fi as int].1 == index.projects@[fi as int].1@);
            match index.projects[fi].1.parent {
                Some(p) => (p, 1),
                None => {
                    return Err(ContextError::AlreadyAtRoot);
                },
            }
        } else {
            (
                match session_uuid {
                    Some(s) => s,
                    None => 0,
                },
                0,
            )
        };
        Ok(ContextWalk { current, parts, next })
    }
}


// =========================================================================
// === The steps of a walk
// =========================================================================

/// What one part of the context does: move to a project, or ask the user to
/// pick one of the children of a project.
pub ghost enum StepView {
    Next(u128),
    Choose { parent_name: Seq<char>, children: Seq<(u128, Seq<char>)> },
}

/// The children of `p` with their names, in index order.
pub open spec fn children_of(ps: Seq<(u128, IndexEntryView)>, p: u128) -> Seq<(u128, Seq<char>)>
    decreases ps.len(),
{
    if ps.len() == 0 {
        Seq::empty()
    } else {
        children_of(ps.drop_last(), p) + if ps.last().1.parent == Some(p) {
            seq![(ps.last().0, ps.last().1.name)]
        } else {
            Seq::empty()
        }
    }
}

/// Inserts `x` after every element whose name is not greater than its own.
pub open spec fn insert_by_name(s: Seq<(u128, Seq<char>)>, x: (u128, Seq<char>)) -> Seq<
    (u128, Seq<char>),
>
    decreases s.len(),
{
    if s.len() == 0 {
        seq![x]
    } else if str_lt(x.1, s.last().1) {
        insert_by_name(s.drop_last(), x).push(s.last())
    } else {
        s.push(x)
    }
}

/// The stable sort by name (equal names keep their order).
pub open spec fn sort_by_name(s: Seq<(u128, Seq<char>)>) -> Seq<(u128, Seq<char>)>
    decreases s.len(),
{
    if s.len() == 0 {
        Seq::empty()
    } else {
        insert_by_name(sort_by_name(s.drop_last()), s.last())
    }
}

/// The first child of `p` named `name`, in index order.
pub open spec fn child_named(ps: Seq<(u128, IndexEntryView)>, p: u128, name: Seq<char>) -> Option<
    u128,
>
    decreases ps.len(),
{
    if ps.len() == 0 {
        None
    } else {
        match child_named(ps.drop_last(), p, name) {
            Some(u) => Some(u),
            None => if ps.last().1.parent == Some(p) && ps.last().1.name == name {
                Some(ps.last().0)
            } else {
                None
            },
        }
    }
}

/// `*` from `cur`: its remembered last-used child while that is still a
/// registered child of it; otherwise a choice among its children sorted by
/// name, or an error without children.
pub open spec fn last_used_child_step(v: GlobalIndexView, cur: u128) -> Result<
    StepView,
    ContextErrorView,
> {
    let e = v.entry(cur)->Some_0;
    let valid = match e.last_used_child {
        Some(u) => v.entry(u) matches Some(ce) && ce.parent == Some(cur),
        None => false,
    };
    if valid {
        Ok(StepView::Next(e.last_used_child->Some_0))
    } else if children_of(v.projects, cur).len() == 0 {
        Err(ContextErrorView::NoLastUsedChild { parent_name: e.name })
    } else {
        Ok(StepView::Choose { parent_name: e.name, children: sort_by_name(children_of(v.projects, cur)) })
    }
}

/// One part walked from `cur`: `.`, `_` and `**` are refused after the start;
/// `..` goes to the parent; `*` to the last-used child; a name to the child of
/// that name.
pub open spec fn step_of(v: GlobalIndexView, cur: u128, part: Seq<char>) -> Result<
    StepView,
    ContextErrorView,
> {
    let e = v.entry(cur)->Some_0;
    if part == "."@ || part == "_"@ || part == "**"@ {
        Err(ContextErrorView::GlobalRecentNotAtStart)
    } else if part == ".."@ {
        match e.parent {
            Some(p) => Ok(StepView::Next(p)),
            None => Err(ContextErrorView::AlreadyAtRoot),
        }
    } else if part == "*"@ {
        last_used_child_step(v, cur)
    } else {
        match child_named(v.projects, cur, part) {
            Some(c) => Ok(StepView::Next(c)),
            None => Err(ContextErrorView::ChildProjectNotFound { child_name: part, parent_name: e.name }),
        }
    }
}

/// The views of children with their names.
pub open spec fn kids_view(s: Seq<(u128, String)>) -> Seq<(u128, Seq<char>)> {
    s.map_values(|k: (u128, String)| (k.0, k.1@))
}

/// Inserting before the first of a run of greater names.
proof fn lemma_insert_at(s: Seq<(u128, Seq<char>)>, x: (u128, Seq<char>), j: int)
    requires
        0 <= j <= s.len(),
        forall|k: int| j <= k < s.len() ==> str_lt(x.1, #[trigger] s[k].1),
        j == 0 || !str_lt(x.1, s[j - 1].1),
    ensures
        insert_by_name(s, x) == s.subrange(0, j).push(x) + s.subrange(j, s.len() as int),
    decreases s.len(),
{
    if s.len() == 0 {
        assert(s.subrange(0, j).push(x) + s.subrange(j, s.len() as int) =~= seq![x]);
    } else if j == s.len() {
        assert(s.subrange(0, j) =~= s);
        assert(s.subrange(0, j).push(x) + s.subrange(j, s.len() as int) =~= s.push(x));
    } else {
        assert(str_lt(x.1, s[s.len() - 1].1));
        let d = s.drop_last();
        assert forall|k: int| j <= k < d.len() implies str_lt(x.1, #[trigger] d[k].1) by {
            assert(d[k] == s[k]);
        }
        if j > 0 {
            assert(d[j - 1] == s[j - 1]);
        }
        lemma_insert_at(d, x, j);
        assert(d.subrange(0, j).push(x) + d.subrange(j, d.len() as int) + seq![s.last()] =~= s.subrange(
            0,
            j,
        ).push(x) + s.subrange(j, s.len() as int));
    }
}

/// Inserts a named entry into a list sorted by name, after the entries whose
/// name is not greater (see [`insert_by_name`]).
pub(crate) fn insert_kid(out: &mut Vec<(u128, String)>, x: (u128, String))
    ensures
        kids_view(final(out)@) == insert_by_name(kids_view(old(out)@), (x.0, x.1@)),
{
    let ghost xv = (x.0, x.1@);
    let xc = chars_of(x.1.as_str());
    let ghost sv = kids_view(out@);
    let mut j = out.len();
    while j > 0
        invariant
            j <= out@.len(),
            sv == kids_view(out@),
            xc@ == xv.1,
            forall|q: int| j <= q < sv.len() ==> str_lt(xv.1, #[trigger] sv[q].1),
        ensures
            j <= out@.len(),
            forall|q: int| j <= q < sv.len() ==> str_lt(xv.1, #[trigger] sv[q].1),
            j == 0 || !str_lt(xv.1, sv[j - 1].1),
        decreases j,
    {
        let yc = chars_of(out[j - 1].1.as_str());
        assert(sv[j - 1].1 == out@[j - 1].1@);
        if !str_less(&xc, &yc) {
            break;
        }
        j = j - 1;
    }
    proof {
        lemma_insert_at(sv, xv, j as int);
    }
    out.insert(j, x);
    assert(kids_view(out@) =~= sv.subrange(0, j as int).push(xv) + sv.subrange(
        j as int,
        sv.len() as int,
    ));
}

/// The children of `p`, sorted by name.
pub fn sorted_children(index: &GlobalIndex, p: u128) -> (r: Vec<(u128, String)>)
    ensures
        kids_view(r@) == sort_by_name(children_of(index@.projects, p)),
{
    let ghost v = index@;
    let ghost all = children_of(v.projects, p);
    let mut out: Vec<(u128, String)> = Vec::new();
    let mut k: usize = 0;
    assert(v.projects.subrange(0, 0) =~= Seq::<(u128, IndexEntryView)>::empty());
    assert(kids_view(out@) =~= sort_by_name(children_of(v.projects.subrange(0, 0), p)));
    while k < index.projects.len()
        invariant
            k <= index.projects@.len(),
            index@ == v,
            kids_view(out@) == sort_by_name(children_of(v.projects.subrange(0, k as int), p)),
        decreases index.projects@.len() - k,
    {
        let ghost pre = v.projects.subrange(0, k as int);
        assert(v.projects.subrange(0, k + 1).drop_last() =~= pre);
        assert(v.projects[k as int].1 == index.projects@[k as int].1@);
        assert(v.projects[k as int].0 == index.projects@[k as int].0);
        if index.projects[k].1.parent == Some(p) {
            let x = (index.projects[k].0, index.projects[k].1.name.clone());
            let ghost xv = (x.0, x.1@);
            assert(children_of(v.projects.subrange(0, k + 1), p) =~= children_of(pre, p).push(xv));
            assert(children_of(v.projects.subrange(0, k + 1), p).drop_last() =~= children_of(pre, p));
            insert_kid(&mut out, x);
        } else {
            assert(children_of(v.projects.subrange(0, k + 1), p) =~= children_of(pre, p));
        }
        k = k + 1;
    }
    assert(v.projects.subrange(0, k as int) =~= v.projects);
    out
}

/// A choice among children is never empty; an empty list of children has no
/// sorted choice either.
proof fn lemma_sort_len(s: Seq<(u128, Seq<char>)>)
    ensures
        sort_by_name(s).len() == s.len(),
    decreases s.len(),
{
    if s.len() > 0 {
        lemma_sort_len(s.drop_last());
        lemma_insert_len(sort_by_name(s.drop_last()), s.last());
    }
}

proof fn lemma_insert_len(s: Seq<(u128, Seq<char>)>, x: (u128, Seq<char>))
    ensures
        insert_by_name(s, x).len() == s.len() + 1,
    decreases s.len(),
{
    if s.len() > 0 && str_lt(x.1, s.last().1) {
        lemma_insert_len(s.drop_last(), x);
    }
}

/// What a call of [`ContextWalk::advance`] asks of its caller.
#[derive(Debug)]
pub enum WalkAction {
    /// One more part was walked.
    Continue,
    /// The user picks one of these children (sorted by name); the walk then
    /// resumes with [`ContextWalk::pick_child`].
    AskChild { parent_name: String, children: Vec<(u128, String)> },
    /// The walk is over: the project and its qualified name.
    Resolved { uuid: u128, qualified_name: String },
}

/// The index once `u` is recorded as last used.
pub open spec fn after_use(v: GlobalIndexView, u: u128) -> GlobalIndexView {
    if last_used_outdated(v, u) {
        last_used_recorded(v, u)
    } else {
        v
    }
}

impl ContextWalk {
    /// Walks the next part of the context from the current project (see
    /// [`step_of`]); when no part is left, records the project as last used
    /// and returns it with its qualified name.
    pub fn advance(&mut self, state: &mut AppState) -> (r: Result<WalkAction, ContextError>)
        requires
            old(state)@.current.wf(),
            old(self).next < old(self).parts@.len() ==> old(state)@.current.has(old(self).current),
        ensures
            final(state)@.current.wf(),
            final(self).parts@ == old(self).parts@,
            ({
                let v = old(state)@.current;
                let cur = old(self).current;
                if old(self).next >= old(self).parts@.len() {
                    &&& final(state)@.current == after_use(v, cur)
                    &&& final(self).current == cur && final(self).next == old(self).next
                    &&& match qualified_name(after_use(v, cur), cur) {
                        Some(q) => r matches Ok(WalkAction::Resolved { uuid, qualified_name })
                            && uuid == cur && qualified_name@ == q,
                        None => r matches Err(ContextError::AliasResolutionError),
                    }
                } else {
                    &&& final(state)@ == old(state)@
                    &&& match step_of(v, cur, old(self).parts@[old(self).next as int]@) {
                        Err(e) => r is Err && r->Err_0@ == e && final(self).current == cur
                            && final(self).next == old(self).next,
                        Ok(StepView::Next(u)) => r matches Ok(WalkAction::Continue)
                            && final(self).current == u && final(self).next == old(self).next + 1,
                        Ok(StepView::Choose { parent_name, children }) => r matches Ok(
                            WalkAction::AskChild { parent_name: pn, children: ch },
                        ) && pn@ == parent_name && kids_view(ch@) == children && ch@.len() > 0
                            && final(self).current == cur && final(self).next == old(self).next,
                    }
                }
            }),
    {
        let cur = self.current;
        if self.next >= self.parts.len() {
            state.update_last_used_caches(cur);
            return match build_qualified_name(cur, state.index()) {
                Some(q) => Ok(WalkAction::Resolved { uuid: cur, qualified_name: q }),
                None => Err(ContextError::AliasResolutionError),
            };
        }
        let index = state.index();
        let ghost v = index@;
        let i = find_project(index, cur).unwrap();
        assert(v.projects[i as int].1 == index.projects@[i as int].1@);
        let e = &index.projects[i].1;
        let part = self.parts[self.next].as_str();
        if str_eq(part, ".") || str_eq(part, "_") || str_eq(part, "**") {
            return Err(ContextError::GlobalRecentNotAtStart);
        }
        let next_uuid = if str_eq(part, "..") {
            match e.parent {
                Some(p) => p,
                None => {
                    return Err(ContextError::AlreadyAtRoot);
                },
            }
        } else if str_eq(part, "*") {
            let remembered = match e.last_used_child {
                Some(u) => match find_project(index, u) {
                    Some(j) => {
                        assert(v.projects[j as int].1 == index.projects@[j as int].1@);
                        if index.projects[j].1.parent == Some(cur) {
                            Some(u)
                        } else {
                            None
                        }
                    },
                    None => None,
                },
                None => None,
            };
            match remembered {
                Some(u) => u,
                None => {
                    let children = sorted_children(index, cur);
                    proof {
                        lemma_sort_len(children_of(v.projects, cur));
                    }
                    if children.len() == 0 {
                        return Err(ContextError::NoLastUsedChild { parent_name: e.name.clone() });
                    }
                    return Ok(WalkAction::AskChild { parent_name: e.name.clone(), children });
                },
            }
        } else {
            let mut found: Option<u128> = None;
            let mut k: usize = 0;
            assert(v.projects.subrange(0, 0) =~= Seq::<(u128, IndexEntryView)>::empty());
            while k < index.projects.len()
                invariant
                    k <= index.projects@.len(),
                    index@ == v,
                    found == child_named(v.projects.subrange(0, k as int), cur, part@),
                decreases index.projects@.len() - k,
            {
                assert(v.projects.subrange(0, k + 1).drop_last() =~= v.projects.subrange(0, k as int));
                assert(v.projects[k as int].1 == index.projects@[k as int].1@);
                assert(v.projects[k as int].0 == index.projects@[k as int].0);
                if found.is_none() && index.projects[k].1.parent == Some(cur) && str_eq(
                    index.projects[k].1.name.as_str(),
                    part,
                ) {
                    found = Some(index.projects[k].0);
                }
                k = k + 1;
            }
            assert(v.projects.subrange(0, k as int) =~= v.projects);
            match found {
                Some(c) => c,
                None => {
                    return Err(
                        ContextError::ChildProjectNotFound {
                            child_name: owned(part),
                            parent_name: e.name.clone(),
                        },
                    );
                },
            }
        };
        self.current = next_uuid;
        self.next = self.next + 1;
        Ok(WalkAction::Continue)
    }

    /// Resumes the walk after the user picked `child` for a `*` part.
    pub fn pick_child(&mut self, child: u128)
        requires
            old(self).next < old(self).parts@.len(),
        ensures
            final(self).current == child,
            final(self).next == old(self).next + 1,
            final(self).parts@ == old(self).parts@,
    {
        let n = self.parts.len();
        assert(self.next < n);
        self.current = child;
        self.next = self.next + 1;
    }
}

/// Whether a context starts from the parent of the session's project (`..`)
/// while that project is not registered, so that [`ContextWalk::start`] has
/// nothing to start from.
pub fn session_project_missing(context: &str, index: &GlobalIndex, session: Option<u128>) -> (r: bool)
    requires
        index@.wf(),
        index@.has(0),
    ensures
        r == (starts_from_session_parent(index@, context_parts(context@), session) && !index@.has(
            session->Some_0,
        )),
{
    let ghost v = index@;
    let s = match session {
        Some(s) => s,
        None => {
            return false;
        },
    };
    let trimmed = trim_str(context);
    let parts = split_str(trimmed.as_str(), '/');
    proof {
        lemma_split_nonempty(trim(context@), '/');
    }
    let ghost pv = strs_view(parts@);
    assert(pv[0] == parts@[0]@);
    let lead_blank = trim_str(parts[0].as_str()).unicode_len() == 0;
    let fp: String = if lead_blank {
        owned(".")
    } else {
        parts[0].clone()
    };
    assert(fp@ == lead_part(pv));
    let gi = find_project(index, 0).unwrap();
    proof {
        lemma_entry_at(v, gi as int);
    }
    assert(v.projects[gi as int].1 == index.projects@[gi as int].1@);
    str_eq(fp.as_str(), "..") && !str_eq(fp.as_str(), index.projects[gi].1.name.as_str())
        && find_project(index, s).is_none()
}

/// What a pick in the parent browser does: choose a project, or visit one.
#[derive(Debug, Clone, Copy, PartialEq, Eq, Structural)]
pub enum BrowseStep {
    Choose(u128),
    Visit(u128),
}

/// The parent browser lists, at project `current`: "select this project", then
/// "go up" (except at the global project), then the children sorted by name.
/// Picking the first chooses `current`; "go up" visits its parent (the global
/// project when it has none); a child is visited; anything else stays put.
pub open spec fn browse_step_of(v: GlobalIndexView, current: u128, picked: int) -> BrowseStep {
    let kids = sort_by_name(children_of(v.projects, current));
    let first: int = if current == 0 {
        1
    } else {
        2
    };
    if picked == 0 {
        BrowseStep::Choose(current)
    } else if current != 0 && picked == 1 {
        BrowseStep::Visit(
            match v.entry(current)->Some_0.parent {
                Some(p) => p,
                None => 0,
            },
        )
    } else if first <= picked < first + kids.len() {
        BrowseStep::Visit(kids[picked - first].0)
    } else {
        BrowseStep::Visit(current)
    }
}

/// The step of the parent browser for the item picked at `current`; see
/// [`browse_step_of`].
pub fn browse_step(index: &GlobalIndex, current: u128, picked: usize) -> (r: BrowseStep)
    requires
        index@.wf(),
        index@.has(current),
    ensures
        r == browse_step_of(index@, current, picked as int),
{
    let ghost v = index@;
    if picked == 0 {
        return BrowseStep::Choose(current);
    }
    if current != 0 && picked == 1 {
        let i = find_project(index, current).unwrap();
        proof {
            lemma_entry_at(v, i as int);
        }
        assert(v.projects[i as int].1 == index.projects@[i as int].1@);
        return BrowseStep::Visit(
            match index.projects[i].1.parent {
                Some(p) => p,
                None => 0,
            },
        );
    }
    let kids = sorted_children(index, current);
    let first: usize = if current == 0 {
        1
    } else {
        2
    };
    if first <= picked && picked - first < kids.len() {
        assert(kids_view(kids@)[picked - first] == (kids@[picked - first].0, kids@[picked - first].1@));
        BrowseStep::Visit(kids[picked - first].0)
    } else {
        BrowseStep::Visit(current)
    }
}

} // verus!
