//! Registration of projects found on disk: the identity of each candidate (its
//! local `project_ref.bin`, or a new identity chosen by the user), its parent,
//! the checks against name and UUID collisions, and its entry in the index.

use vstd::prelude::*;
use crate::index_manager::{find_project, is_sibling_name_taken, new_uuid_v4, put_project, sibling_taken, upsert};
use crate::models::{GlobalIndex, GlobalIndexView, IndexEntry, IndexEntryView, ProjectRef};
use crate::paths::{file_name_of, path_file_name, paths_equal, same_path, uuid_to_string};
use crate::text::{owned, push_str, str_eq};

verus! {

/// Where the identity of a candidate comes from.
#[derive(Debug, Clone)]
pub enum IdentitySource {
    /// Its `.axes/project_ref.bin`.
    ProjectRef(ProjectRef),
    /// An `axes.toml` without a `project_ref.bin`.
    TomlOnly,
    /// No `axes.toml`: not a project.
    NotFound,
}

/// A project found on disk that may be registered.
#[derive(Debug, Clone)]
pub struct OnboardingCandidate {
    pub path: String,
    pub identity_source: IdentitySource,
    pub resolved_name: Option<String>,
    pub resolved_parent_uuid: Option<u128>,
    pub resolved_uuid: Option<u128>,
    pub should_register: bool,
}

impl OnboardingCandidate {
    /// A candidate at a canonical path, from what its directory holds: whether
    /// it has an `.axes/axes.toml`, and its local identity when one could be read.
    pub fn new(path: String, has_config: bool, project_ref: Option<ProjectRef>) -> (r: OnboardingCandidate)
        ensures
            r.path@ == path@,
            r.resolved_name is None && r.resolved_parent_uuid is None && r.resolved_uuid is None,
            !has_config ==> (r.identity_source is NotFound) && !r.should_register,
            has_config ==> r.should_register && match project_ref {
                Some(p) => r.identity_source matches IdentitySource::ProjectRef(q) && q.self_uuid
                    == p.self_uuid && q.parent_uuid == p.parent_uuid && q.name@ == p.name@,
                None => r.identity_source is TomlOnly,
            },
    {
        if !has_config {
            return OnboardingCandidate::invalid(path, IdentitySource::NotFound);
        }
        let identity_source = match project_ref {
            Some(p) => IdentitySource::ProjectRef(p),
            None => IdentitySource::TomlOnly,
        };
        OnboardingCandidate {
            path,
            identity_source,
            resolved_name: None,
            resolved_parent_uuid: None,
            resolved_uuid: None,
            should_register: true,
        }
    }

    /// A candidate that is not to be registered.
    pub fn invalid(path: String, source: IdentitySource) -> (r: OnboardingCandidate)
        ensures
            r.path@ == path@,
            r.identity_source == source,
            r.resolved_name is None && r.resolved_parent_uuid is None && r.resolved_uuid is None,
            !r.should_register,
    {
        OnboardingCandidate {
            path,
            identity_source: source,
            resolved_name: None,
            resolved_parent_uuid: None,
            resolved_uuid: None,
            should_register: false,
        }
    }
}

/// How to register: without questions (`--autosolve`), and the parent given on
/// the command line.
#[derive(Debug, Clone, Copy)]
pub struct OnboardingOptions {
    pub autosolve: bool,
    pub suggested_parent_uuid: Option<u128>,
}

/// Why registration stops.
#[derive(Debug, Clone)]
pub enum OnboardingError {
    /// The directory is no project (no `.axes/axes.toml`).
    NotAnAxesProject(String),
    /// The user cancelled.
    Cancelled,
    /// A project without identity in `--autosolve` mode.
    IdentitylessInAutosolve(String),
    /// The name is taken under the chosen parent.
    NameCollision(String),
    /// The UUID is registered at another path.
    UuidCollision(u128, String),
}

impl OnboardingError {
    /// The text of [`Self::message`].
    pub open spec fn message_text(&self) -> Seq<char> {
        match self {
            OnboardingError::NotAnAxesProject(p) => "The directory '"@ + p@
                + "' does not appear to be an axes project (missing '.axes/axes.toml')."@,
            OnboardingError::Cancelled => "Operation cancelled by user."@,
            OnboardingError::IdentitylessInAutosolve(p) => "Cannot register a project without identity in --autosolve mode. Project at '"@
                + p@ + "' was skipped."@,
            OnboardingError::NameCollision(n) => "A project with the same name '"@ + n@
                + "' already exists under the chosen parent."@,
            OnboardingError::UuidCollision(u, p) => "A project with UUID '"@ + crate::paths::uuid_text(*u)
                + "' is already registered at a different path: '"@ + p@ + "'."@,
        }
    }

    /// The message shown to the user.
    pub fn message(&self) -> (r: String)
        ensures
            r@ == self.message_text(),
    {
        match self {
            OnboardingError::NotAnAxesProject(p) => {
                let mut m = owned("The directory '");
                push_str(&mut m, p.as_str());
                push_str(&mut m, "' does not appear to be an axes project (missing '.axes/axes.toml').");
                m
            },
            OnboardingError::Cancelled => owned("Operation cancelled by user."),
            OnboardingError::IdentitylessInAutosolve(p) => {
                let mut m = owned(
                    "Cannot register a project without identity in --autosolve mode. Project at '",
                );
                push_str(&mut m, p.as_str());
                push_str(&mut m, "' was skipped.");
                m
            },
            OnboardingError::NameCollision(n) => {
                let mut m = owned("A project with the same name '");
                push_str(&mut m, n.as_str());
                push_str(&mut m, "' already exists under the chosen parent.");
                m
            },
            OnboardingError::UuidCollision(u, p) => {
                let mut m = owned("A project with UUID '");
                push_str(&mut m, uuid_to_string(*u).as_str());
                push_str(&mut m, "' is already registered at a different path: '");
                push_str(&mut m, p.as_str());
                push_str(&mut m, "'.");
                m
            },
        }
    }
}

/// What the identity of a candidate still needs.
#[derive(Debug)]
pub enum IdentityStep {
    /// Nothing: the identity is settled (or the candidate is skipped).
    Done,
    /// The candidate is skipped, with this warning.
    Skipped { warning: String },
    /// The user names the candidate (proposing the directory's name); the name
    /// is then validated and given with [`assign_identity`].
    NeedName { default_name: String },
}

/// The warning for a project without identity in `--autosolve` mode.
pub open spec fn autosolve_skip_warning(path: Seq<char>) -> Seq<char> {
    "Warning: Project at '"@ + path + "' has no identity and was skipped in --autosolve mode."@
}

/// What settling the identity of a candidate does (see
/// [`resolve_candidate_identity`]), from the candidate before (`old_c`) to the
/// candidate after (`new_c`) and the result `r`.
pub open spec fn identity_settled(
    old_c: OnboardingCandidate,
    new_c: OnboardingCandidate,
    v: GlobalIndexView,
    options: OnboardingOptions,
    r: Result<IdentityStep, OnboardingError>,
) -> bool {
    &&& new_c.path == old_c.path
    &&& new_c.resolved_parent_uuid == old_c.resolved_parent_uuid
    &&& match old_c.identity_source {
            IdentitySource::ProjectRef(p) => match v.entry(p.self_uuid) {
                Some(e) => if !same_path(e.path, old_c.path@) {
                    (r matches Err(OnboardingError::UuidCollision(u, at)) && u == p.self_uuid
                        && at@ == e.path) && new_c == old_c
                } else {
                    (r matches Ok(IdentityStep::Done)) && !new_c.should_register
                        && new_c.resolved_name == old_c.resolved_name
                        && new_c.resolved_uuid == old_c.resolved_uuid
                },
                None => (r matches Ok(IdentityStep::Done)) && new_c.should_register
                    == old_c.should_register && new_c.resolved_uuid == Some(
                    p.self_uuid,
                ) && (new_c.resolved_name matches Some(n) && n@ == p.name@),
            },
            IdentitySource::TomlOnly => if options.autosolve {
                (r matches Ok(IdentityStep::Skipped { warning }) && warning@
                    == autosolve_skip_warning(old_c.path@)) && !new_c.should_register && new_c.resolved_name == old_c.resolved_name
                    && new_c.resolved_uuid == old_c.resolved_uuid
            } else {
                (r matches Ok(IdentityStep::NeedName { default_name }) && Some(default_name@)
                    == file_name_of(old_c.path@)) && new_c == old_c
            },
            IdentitySource::NotFound => (r matches Ok(IdentityStep::Done)) && !new_c.should_register && new_c.resolved_name == old_c.resolved_name
                && new_c.resolved_uuid == old_c.resolved_uuid,
        }
}

/// Settles the identity of a candidate: a local identity whose UUID is
/// registered elsewhere is a collision, one registered at the same path means
/// the project is already known (skipped), and a new one is taken as is; a
/// project without identity is skipped in `--autosolve` mode, and otherwise
/// needs a name from the user; a directory without project is skipped.
pub fn resolve_candidate_identity(
    candidate: &mut OnboardingCandidate,
    index: &GlobalIndex,
    options: &OnboardingOptions,
) -> (r: Result<IdentityStep, OnboardingError>)
    requires
        index@.wf(),
        old(candidate).identity_source is TomlOnly && !options.autosolve ==> file_name_of(
            old(candidate).path@,
        ) is Some,
    ensures
        identity_settled(*old(candidate), *final(candidate), index@, *options, r),
{
    match &candidate.identity_source {
        IdentitySource::ProjectRef(p) => {
            let uuid = p.self_uuid;
            match find_project(index, uuid) {
                Some(i) => {
                    assert(index@.projects[i as int].1 == index.projects@[i as int].1@);
                    let existing = &index.projects[i].1;
                    if !paths_equal(existing.path.as_str(), candidate.path.as_str()) {
                        return Err(OnboardingError::UuidCollision(uuid, existing.path.clone()));
                    }
                    candidate.should_register = false;
                    Ok(IdentityStep::Done)
                },
                None => {
                    let name = p.name.clone();
                    candidate.resolved_uuid = Some(uuid);
                    candidate.resolved_name = Some(name);
                    Ok(IdentityStep::Done)
                },
            }
        },
        IdentitySource::TomlOnly => {
            if options.autosolve {
                let mut w = owned("Warning: Project at '");
                push_str(&mut w, candidate.path.as_str());
                push_str(&mut w, "' has no identity and was skipped in --autosolve mode.");
                candidate.should_register = false;
                return Ok(IdentityStep::Skipped { warning: w });
            }
            let default_name = path_file_name(candidate.path.as_str()).unwrap();
            Ok(IdentityStep::NeedName { default_name })
        },
        IdentitySource::NotFound => {
            candidate.should_register = false;
            Ok(IdentityStep::Done)
        },
    }
}

/// Settles the identity of a candidate like [`resolve_candidate_identity`],
/// unless it needs a name and its path has no last component to propose
/// (`None`, the candidate unchanged).
pub fn try_resolve_candidate_identity(
    candidate: &mut OnboardingCandidate,
    index: &GlobalIndex,
    options: &OnboardingOptions,
) -> (r: Option<Result<IdentityStep, OnboardingError>>)
    requires
        index@.wf(),
    ensures
        r is None <==> (old(candidate).identity_source is TomlOnly && !options.autosolve
            && file_name_of(old(candidate).path@) is None),
        r is None ==> *final(candidate) == *old(candidate),
        r matches Some(x) ==> identity_settled(*old(candidate), *final(candidate), index@, *options, x),
{
    let needs_name = match &candidate.identity_source {
        IdentitySource::TomlOnly => !options.autosolve,
        _ => false,
    };
    if needs_name && path_file_name(candidate.path.as_str()).is_none() {
        return None;
    }
    Some(resolve_candidate_identity(candidate, index, options))
}

/// Gives a candidate without identity the validated name chosen by the user and
/// a fresh random UUID.
pub fn assign_identity(candidate: &mut OnboardingCandidate, name: String)
    ensures
        final(candidate).path == old(candidate).path,
        final(candidate).should_register == old(candidate).should_register,
        final(candidate).resolved_parent_uuid == old(candidate).resolved_parent_uuid,
        (final(candidate).resolved_name matches Some(n) && n@ == name@),
        (final(candidate).resolved_uuid matches Some(u) && u != 0),
{
    candidate.resolved_name = Some(name);
    candidate.resolved_uuid = Some(new_uuid_v4());
}

/// The UUIDs of the candidates still to register.
pub open spec fn pending_uuids(cs: Seq<OnboardingCandidate>) -> Seq<u128>
    decreases cs.len(),
{
    if cs.len() == 0 {
        Seq::empty()
    } else {
        pending_uuids(cs.drop_last()) + if cs.last().should_register && cs.last().resolved_uuid is Some {
            seq![cs.last().resolved_uuid->Some_0]
        } else {
            Seq::empty()
        }
    }
}

/// The UUIDs of the candidates still to register, in order.
pub fn valid_candidate_uuids(candidates: &Vec<OnboardingCandidate>) -> (r: Vec<u128>)
    ensures
        r@ == pending_uuids(candidates@),
{
    let mut out: Vec<u128> = Vec::new();
    let mut i: usize = 0;
    while i < candidates.len()
        invariant
            i <= candidates@.len(),
            out@ == pending_uuids(candidates@.subrange(0, i as int)),
        decreases candidates@.len() - i,
    {
        assert(candidates@.subrange(0, i + 1).drop_last() =~= candidates@.subrange(0, i as int));
        let c = &candidates[i];
        if c.should_register {
            match c.resolved_uuid {
                Some(u) => {
                    out.push(u);
                },
                None => {},
            }
        }
        assert(out@ =~= pending_uuids(candidates@.subrange(0, i + 1)));
        i = i + 1;
    }
    assert(candidates@.subrange(0, i as int) =~= candidates@);
    out
}

/// What the parent of a candidate still needs.
#[derive(Debug, Clone, Copy, PartialEq, Eq, Structural)]
pub enum ParentStep {
    /// This project is the parent.
    Use(u128),
    /// The user chooses the parent; first warn that the parent named by the
    /// candidate's identity is unknown, when it names one.
    Choose { invalid_parent_warning: bool },
}

/// The parent named by a candidate's local identity, if any.
pub open spec fn identity_parent(c: OnboardingCandidate) -> Option<u128> {
    match c.identity_source {
        IdentitySource::ProjectRef(p) => p.parent_uuid,
        _ => None,
    }
}

/// Finds the parent of a candidate: the one given on the command line; else the
/// one of its identity, when it is registered or about to be; else the global
/// project in `--autosolve` mode, or the user's choice.
pub fn resolve_candidate_parent(
    candidate: &OnboardingCandidate,
    valid_candidate_uuids: &Vec<u128>,
    index: &GlobalIndex,
    options: &OnboardingOptions,
) -> (r: ParentStep)
    requires
        index@.wf(),
    ensures
        r == match options.suggested_parent_uuid {
            Some(s) => ParentStep::Use(s),
            None => match identity_parent(*candidate) {
                Some(q) if index@.has(q) || valid_candidate_uuids@.contains(q) => ParentStep::Use(q),
                _ => if options.autosolve {
                    ParentStep::Use(0)
                } else {
                    ParentStep::Choose { invalid_parent_warning: identity_parent(*candidate) is Some }
                },
            },
        },
{
    if let Some(s) = options.suggested_parent_uuid {
        return ParentStep::Use(s);
    }
    let named: Option<u128> = match &candidate.identity_source {
        IdentitySource::ProjectRef(p) => p.parent_uuid,
        _ => None,
    };
    if let Some(q) = named {
        let known = find_project(index, q).is_some() || crate::index_manager::vec_contains(
            valid_candidate_uuids,
            q,
        );
        if known {
            return ParentStep::Use(q);
        }
    }
    if options.autosolve {
        ParentStep::Use(0)
    } else {
        ParentStep::Choose { invalid_parent_warning: named.is_some() }
    }
}

/// Whether `(parent, name)` is among the registrations of this batch.
pub open spec fn pending_has(pending: Seq<(u128, String)>, parent: u128, name: Seq<char>) -> bool {
    exists|i: int| 0 <= i < pending.len() && pending[i].0 == parent && pending[i].1@ == name
}

/// Checks that a candidate's name is free under its parent, both in the index
/// and among the candidates of this batch, and records it for the batch.
pub fn check_candidate_collision(
    index: &GlobalIndex,
    parent_uuid: u128,
    name: &str,
    pending: &mut Vec<(u128, String)>,
) -> (r: Result<(), OnboardingError>)
    ensures
        sibling_taken(index@, parent_uuid, name@, None) || pending_has(old(pending)@, parent_uuid, name@)
            ==> (r matches Err(OnboardingError::NameCollision(n)) && n@ == name@) && final(pending)@
            == old(pending)@,
        !(sibling_taken(index@, parent_uuid, name@, None) || pending_has(
            old(pending)@,
            parent_uuid,
            name@,
        )) ==> r is Ok && final(pending)@.len() == old(pending)@.len() + 1 && final(pending)@.drop_last()
            == old(pending)@ && final(pending)@.last().0 == parent_uuid && final(pending)@.last().1@
            == name@,
{
    if is_sibling_name_taken(index, parent_uuid, name, None) {
        return Err(OnboardingError::NameCollision(owned(name)));
    }
    let mut i: usize = 0;
    while i < pending.len()
        invariant
            i <= pending@.len(),
            forall|k: int| 0 <= k < i ==> !(pending@[k].0 == parent_uuid && pending@[k].1@ == name@),
        decreases pending@.len() - i,
    {
        if pending[i].0 == parent_uuid && str_eq(pending[i].1.as_str(), name) {
            return Err(OnboardingError::NameCollision(owned(name)));
        }
        i = i + 1;
    }
    pending.push((parent_uuid, owned(name)));
    assert(pending@.drop_last() =~= old(pending)@);
    Ok(())
}

/// Registers a resolved candidate: its entry under its parent in the index,
/// and the local identity to write into its directory.
pub fn register_candidate(index: &mut GlobalIndex, candidate: &OnboardingCandidate) -> (r: ProjectRef)
    requires
        old(index)@.wf(),
        candidate.resolved_uuid is Some,
        candidate.resolved_name is Some,
        candidate.resolved_parent_uuid is Some,
    ensures
        final(index)@.wf(),
        final(index)@ == (GlobalIndexView {
            projects: upsert(
                old(index)@.projects,
                candidate.resolved_uuid->Some_0,
                IndexEntryView {
                    name: candidate.resolved_name->Some_0@,
                    path: candidate.path@,
                    parent: candidate.resolved_parent_uuid,
                    config_hash: None,
                    cache_dir: None,
                    last_used_child: None,
                },
            ),
            ..old(index)@
        }),
        r.self_uuid == candidate.resolved_uuid->Some_0,
        r.parent_uuid == candidate.resolved_parent_uuid,
        r.name@ == candidate.resolved_name->Some_0@,
{
    let uuid = candidate.resolved_uuid.unwrap();
    let name = match &candidate.resolved_name {
        Some(n) => n.clone(),
        None => String::new(),
    };
    let parent = candidate.resolved_parent_uuid.unwrap();
    let entry = IndexEntry {
        name: name.clone(),
        path: candidate.path.clone(),
        parent: Some(parent),
        config_hash: None,
        cache_dir: None,
        last_used_child: None,
    };
    put_project(index, uuid, entry);
    ProjectRef { self_uuid: uuid, parent_uuid: Some(parent), name }
}

} // verus!
