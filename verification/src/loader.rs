//! Loading of a project's configuration layers.
//!
//! The loader finds the inheritance chain of a project in the index, decides for
//! each layer whether its binary cache can be used or the `axes.toml` must be
//! compiled again, and once the layers are loaded, builds the resolved
//! configuration and brings the project's entry up to date: its content hash,
//! and its cache directory as the hierarchy now defines it (with the cache file
//! to move when that directory changed).
//!
//! Reading files, compiling TOML and writing caches happen around these
//! decisions, layer by layer.

use vstd::prelude::*;
use crate::cache::{content_hash, content_hash_of};
use crate::index_manager::{build_qualified_name, find_project, put_project, qualified_name, upsert};
use crate::models::{
    copy_entry, opt_str, CachedProjectConfigView, GlobalIndex, GlobalIndexView, IndexEntry,
    IndexEntryView, ProjectRef, TargetOs,
};
use crate::paths::{
    get_default_cache_dir_for_project, join_path, joined_path, nothing_to_expand, paths_equal,
    project_cache_dir,
    same_path, uuid_text, uuid_to_string,
};
use crate::resolved::{
    first_failure, first_option, layers_view, options_match, Layer, OptionText, OptionsError,
    ResolvedConfig,
};
use crate::text::{owned, push_str, str_eq};

verus! {

/// Why a configuration cannot be loaded.
#[derive(Debug, Clone)]
pub enum LoadError {
    /// A project of the chain names a parent missing from the index.
    MissingParent { child: u128, parent: u128 },
    /// The project is not in the index.
    MissingProject { uuid: u128 },
    /// A parent of an unregistered project is missing from the index.
    EphemeralParentMissing { path: String, parent: u128 },
    /// The options of the hierarchy could not be resolved.
    Options(OptionsError),
}

impl LoadError {
    /// The text of [`Self::message`].
    pub open spec fn message_text(&self) -> Seq<char> {
        match self {
            LoadError::MissingParent { child, parent } => "Data Integrity Error: Project UUID '"@ + uuid_text(*child)
                + "' lists a parent with UUID '"@ + uuid_text(*parent)
                + "', but no such project exists in the index."@,
            LoadError::MissingProject { uuid } => "Project UUID "@ + uuid_text(*uuid) + " not found in index."@,
            LoadError::EphemeralParentMissing { path, parent } => "Ephemeral project at '"@ + path@
                + "' depends on parent UUID '"@ + uuid_text(*parent)
                + "', which is not registered in the global index."@,
            LoadError::Options(e) => match e {
                OptionsError::Layer(m) => m@,
                OptionsError::Template(t) => match t {
                    crate::paths::TemplateError::DynamicToken { template } => "The cache path template '"@ + template@
                        + "' cannot hold an axes token."@,
                    crate::paths::TemplateError::Expansion { message } => message@,
                },
                OptionsError::NoCacheRoot => "Could not determine the cache directory."@,
            },
        }
    }

    /// The message shown to the user.
    pub fn message(&self) -> (r: String)
        ensures
            r@ == self.message_text(),
    {
        match self {
            LoadError::MissingParent { child, parent } => {
                let mut m = owned("Data Integrity Error: Project UUID '");
                push_str(&mut m, uuid_to_string(*child).as_str());
                push_str(&mut m, "' lists a parent with UUID '");
                push_str(&mut m, uuid_to_string(*parent).as_str());
                push_str(&mut m, "', but no such project exists in the index.");
                m
            },
            LoadError::MissingProject { uuid } => {
                let mut m = owned("Project UUID ");
                push_str(&mut m, uuid_to_string(*uuid).as_str());
                push_str(&mut m, " not found in index.");
                m
            },
            LoadError::EphemeralParentMissing { path, parent } => {
                let mut m = owned("Ephemeral project at '");
                push_str(&mut m, path.as_str());
                push_str(&mut m, "' depends on parent UUID '");
                push_str(&mut m, uuid_to_string(*parent).as_str());
                push_str(&mut m, "', which is not registered in the global index.");
                m
            },
            LoadError::Options(e) => match e {
                OptionsError::Layer(m) => m.clone(),
                OptionsError::Template(t) => match t {
                    crate::paths::TemplateError::DynamicToken { template } => {
                        let mut m = owned("The cache path template '");
                        push_str(&mut m, template.as_str());
                        push_str(&mut m, "' cannot hold an axes token.");
                        m
                    },
                    crate::paths::TemplateError::Expansion { message } => message.clone(),
                },
                OptionsError::NoCacheRoot => owned("Could not determine the cache directory."),
            },
        }
    }
}

// =========================================================================
// === The chain of a project
// =========================================================================

/// The chain from `u` up the parents (`u` reached from `child`), within `fuel`
/// steps: the UUIDs in order, or the first link to a missing project (the
/// project that names it, the missing UUID); `None` when the chain does not end
/// within `fuel` steps.
pub open spec fn chain_from(v: GlobalIndexView, u: u128, child: u128, fuel: nat) -> Option<
    Result<Seq<u128>, (u128, u128)>,
>
    decreases fuel,
{
    if fuel == 0 {
        None
    } else {
        match v.entry(u) {
            None => Some(Err((child, u))),
            Some(e) => match e.parent {
                None => Some(Ok(seq![u])),
                Some(p) => match chain_from(v, p, u, (fuel - 1) as nat) {
                    None => None,
                    Some(Ok(rest)) => Some(Ok(seq![u] + rest)),
                    Some(Err(x)) => Some(Err(x)),
                },
            },
        }
    }
}

/// The chain of a project: its inheritance hierarchy, the project first. It
/// ends within one step more than there are projects unless it has a cycle.
pub open spec fn hierarchy_of(v: GlobalIndexView, uuid: u128) -> Option<
    Result<Seq<u128>, (u128, u128)>,
> {
    chain_from(v, uuid, uuid, v.projects.len() + 1)
}

/// A chain already walked, followed by the rest.
pub open spec fn glued(h: Seq<u128>, r: Option<Result<Seq<u128>, (u128, u128)>>) -> Option<
    Result<Seq<u128>, (u128, u128)>,
> {
    match r {
        None => None,
        Some(Ok(t)) => Some(Ok(h + t)),
        Some(Err(x)) => Some(Err(x)),
    }
}

/// The parents of an unregistered project from `p` up, within `fuel` steps: the
/// UUIDs in order, or the first missing one.
pub open spec fn parents_from(v: GlobalIndexView, p: Option<u128>, fuel: nat) -> Option<
    Result<Seq<u128>, u128>,
>
    decreases fuel,
{
    match p {
        None => Some(Ok(Seq::empty())),
        Some(id) => if fuel == 0 {
            None
        } else {
            match v.entry(id) {
                None => Some(Err(id)),
                Some(e) => match parents_from(v, e.parent, (fuel - 1) as nat) {
                    None => None,
                    Some(Ok(rest)) => Some(Ok(seq![id] + rest)),
                    Some(Err(x)) => Some(Err(x)),
                },
            }
        },
    }
}

// =========================================================================
// === Layers
// =========================================================================

/// The change a recompiled layer asks of its project's entry.
#[derive(Debug, Clone)]
pub struct IndexUpdate {
    pub uuid: u128,
    pub new_hash: String,
    pub new_cache_dir: String,
}

/// The content hash of a configuration file; `empty` when there is no file.
pub open spec fn toml_hash_of(content: Option<Seq<u8>>) -> Seq<char> {
    match content {
        Some(c) => content_hash_of(c),
        None => "empty"@,
    }
}

/// Hashes the content of a configuration file, if there is one.
pub fn toml_hash(content: Option<&[u8]>) -> (r: String)
    ensures
        r@ == toml_hash_of(
            match content {
                Some(c) => Some(c@),
                None => None,
            },
        ),
{
    match content {
        Some(c) => content_hash(c),
        None => owned("empty"),
    }
}

/// The configuration file of a project: `<root>/.axes/axes.toml`.
pub open spec fn config_file_of(root: Seq<char>) -> Seq<char> {
    joined_path(joined_path(root, ".axes"@), "axes.toml"@)
}

/// The configuration file of a project root.
pub fn layer_config_path(root: &str) -> (r: String)
    ensures
        r@ == config_file_of(root@),
{
    let dir = join_path(root, ".axes");
    join_path(dir.as_str(), "axes.toml")
}

/// How to load one layer: the cache file to try first (when the saved hash is
/// the current one), the cache file to write after a compilation, and the
/// change to ask of the index then.
#[derive(Debug)]
pub struct LayerLoadPlan {
    pub try_cache: Option<String>,
    pub write_cache: String,
    pub update: IndexUpdate,
}

/// The cache directory of an entry: its own, or its default one.
pub open spec fn entry_cache_dir(e: IndexEntryView, uuid: u128, root: Option<Seq<char>>) -> Seq<
    char,
> {
    match e.cache_dir {
        Some(d) => d,
        None => project_cache_dir(root->Some_0, uuid),
    }
}

/// The configuration file of a registered project.
pub fn layer_config_path_for(index: &GlobalIndex, uuid: u128) -> (r: Result<String, LoadError>)
    requires
        index@.wf(),
    ensures
        match index@.entry(uuid) {
            Some(e) => r is Ok && r->Ok_0@ == config_file_of(e.path),
            None => r matches Err(LoadError::MissingProject { uuid: u }) && u == uuid,
        },
{
    match find_project(index, uuid) {
        Some(i) => {
            assert(index@.projects[i as int].1 == index.projects@[i as int].1@);
            Ok(layer_config_path(index.projects[i].1.path.as_str()))
        },
        None => Err(LoadError::MissingProject { uuid }),
    }
}

/// Plans the loading of a registered project's layer, given the content hash of
/// its configuration file now: the cache is tried when the index saved that
/// same hash; a compilation writes its cache under the entry's cache directory
/// (its default one when it has none) and asks for the new hash to be saved.
pub fn load_layer_task(
    uuid: u128,
    index: &GlobalIndex,
    default_cache_root: Option<&str>,
    current_hash: &str,
) -> (r: Result<LayerLoadPlan, LoadError>)
    requires
        index@.wf(),
        index@.entry(uuid) matches Some(e) && e.cache_dir is None ==> default_cache_root is Some,
    ensures
        match index@.entry(uuid) {
            None => r matches Err(LoadError::MissingProject { uuid: u }) && u == uuid,
            Some(e) => {
                let root = match default_cache_root {
                    Some(x) => Some(x@),
                    None => None,
                };
                let dir = entry_cache_dir(e, uuid, root);
                &&& r is Ok
                &&& opt_str(r->Ok_0.try_cache) == if e.config_hash == Some(current_hash@) {
                    Some(joined_path(dir, current_hash@))
                } else {
                    None
                }
                &&& r->Ok_0.write_cache@ == joined_path(dir, current_hash@)
                &&& r->Ok_0.update.uuid == uuid
                &&& r->Ok_0.update.new_hash@ == current_hash@
                &&& r->Ok_0.update.new_cache_dir@.len() == 0
            },
        },
{
    let i = match find_project(index, uuid) {
        Some(i) => i,
        None => {
            return Err(LoadError::MissingProject { uuid });
        },
    };
    assert(index@.projects[i as int].1 == index.projects@[i as int].1@);
    let e = &index.projects[i].1;
    let dir = match &e.cache_dir {
        Some(d) => d.clone(),
        None => get_default_cache_dir_for_project(uuid, default_cache_root.unwrap()),
    };
    let same = match &e.config_hash {
        Some(h) => str_eq(h.as_str(), current_hash),
        None => false,
    };
    let file = join_path(dir.as_str(), current_hash);
    let try_cache = if same {
        Some(file.clone())
    } else {
        None
    };
    Ok(
        LayerLoadPlan {
            try_cache,
            write_cache: file,
            update: IndexUpdate { uuid, new_hash: owned(current_hash), new_cache_dir: String::new() },
        },
    )
}


// =========================================================================
// === The loader
// =========================================================================

/// The cache file to move once the cache directory of a project changed.
#[derive(Debug)]
pub struct CacheMove {
    pub from: String,
    pub to: String,
}

/// The new hash that the updates give a project, the first one for it.
pub open spec fn first_update(us: Seq<IndexUpdate>, uuid: u128) -> Option<Seq<char>>
    decreases us.len(),
{
    if us.len() == 0 {
        None
    } else if us[0].uuid == uuid {
        Some(us[0].new_hash@)
    } else {
        first_update(us.drop_first(), uuid)
    }
}

/// Whether an entry's cache directory is another path than `dir`.
pub open spec fn cache_dir_differs(e: IndexEntryView, dir: Seq<char>) -> bool {
    !(e.cache_dir matches Some(c) && same_path(c, dir))
}

/// An entry with the new hash that the updates give it, when they give one.
pub open spec fn rehashed(e: IndexEntryView, hash: Option<Seq<char>>) -> IndexEntryView {
    IndexEntryView {
        config_hash: match hash {
            Some(h) => Some(h),
            None => e.config_hash,
        },
        ..e
    }
}

/// The registered projects with the new hash of every recompiled layer.
pub open spec fn apply_hashes(ps: Seq<(u128, IndexEntryView)>, us: Seq<IndexUpdate>) -> Seq<
    (u128, IndexEntryView),
> {
    ps.map_values(|p: (u128, IndexEntryView)| (p.0, rehashed(p.1, first_update(us, p.0))))
}

/// The entry brought up to date: the cache directory of the hierarchy and the
/// new hash, when there is one.
pub open spec fn synced_entry(e: IndexEntryView, dir: Seq<char>, hash: Option<Seq<char>>) -> IndexEntryView {
    IndexEntryView {
        cache_dir: if cache_dir_differs(e, dir) {
            Some(dir)
        } else {
            e.cache_dir
        },
        config_hash: match hash {
            Some(h) => Some(h),
            None => e.config_hash,
        },
        ..e
    }
}

/// Whether the chain of a project ends (at a root or at a missing project)
/// rather than running into a cycle: what [`discover_hierarchy`] needs.
pub fn hierarchy_ends(index: &GlobalIndex, uuid: u128) -> (r: bool)
    requires
        index@.wf(),
    ensures
        r == (hierarchy_of(index@, uuid) is Some),
{
    let ghost v = index@;
    let n = index.projects.len();
    let mut cur = uuid;
    let mut prev = uuid;
    let mut fuel: u128 = n as u128 + 1;
    loop
        invariant
            index@ == v,
            v.wf(),
            (chain_from(v, cur, prev, fuel as nat) is Some) == (hierarchy_of(v, uuid) is Some),
        decreases fuel,
    {
        if fuel == 0 {
            return false;
        }
        match find_project(index, cur) {
            None => {
                return true;
            },
            Some(i) => {
                assert(v.projects[i as int].1 == index.projects@[i as int].1@);
                match index.projects[i].1.parent {
                    None => {
                        return true;
                    },
                    Some(p) => {
                        prev = cur;
                        cur = p;
                        fuel = fuel - 1;
                    },
                }
            },
        }
    }
}

/// Whether the parents of an unregistered project, from `parent` up, end
/// rather than running into a cycle: what [`ephemeral_hierarchy`] needs.
pub fn parents_end(index: &GlobalIndex, parent: Option<u128>) -> (r: bool)
    requires
        index@.wf(),
    ensures
        r == (parents_from(index@, parent, index@.projects.len() + 1) is Some),
{
    let ghost v = index@;
    let n = index.projects.len();
    let mut cur = parent;
    let mut fuel: u128 = n as u128 + 1;
    loop
        invariant
            index@ == v,
            v.wf(),
            (parents_from(v, cur, fuel as nat) is Some) == (parents_from(v, parent, v.projects.len() + 1) is Some),
        decreases fuel,
    {
        match cur {
            None => {
                return true;
            },
            Some(id) => {
                if fuel == 0 {
                    return false;
                }
                match find_project(index, id) {
                    None => {
                        return true;
                    },
                    Some(i) => {
                        assert(v.projects[i as int].1 == index.projects@[i as int].1@);
                        cur = index.projects[i].1.parent;
                        fuel = fuel - 1;
                    },
                }
            },
        }
    }
}

/// The inheritance chain of a registered project, the project first; a
/// link to a missing project is an error naming the project that holds it.
pub fn discover_hierarchy(index: &GlobalIndex, uuid: u128) -> (r: Result<Vec<u128>, LoadError>)
    requires
        index@.wf(),
        hierarchy_of(index@, uuid) is Some,
    ensures
        match hierarchy_of(index@, uuid)->Some_0 {
            Ok(h) => r is Ok && r->Ok_0@ == h,
            Err(x) => r matches Err(LoadError::MissingParent { child, parent }) && child == x.0
                && parent == x.1,
        },
{
    let ghost v = index@;
    let n = index.projects.len();
    let mut hierarchy: Vec<u128> = Vec::new();
    let mut cur = uuid;
    let mut prev = uuid;
    let mut fuel: u128 = n as u128 + 1;
    assert(glued(hierarchy@, chain_from(v, cur, prev, fuel as nat)) == hierarchy_of(v, uuid)) by {
        assert(Seq::<u128>::empty() + seq![uuid] =~= seq![uuid]);
        match chain_from(v, uuid, uuid, fuel as nat) {
            Some(Ok(t)) => {
                assert(Seq::<u128>::empty() + t =~= t);
            },
            _ => {},
        }
    }
    loop
        invariant
            index@ == v,
            v.wf(),
            glued(hierarchy@, chain_from(v, cur, prev, fuel as nat)) == hierarchy_of(v, uuid),
            hierarchy_of(v, uuid) is Some,
        decreases fuel,
    {
        assert(fuel > 0);
        match find_project(index, cur) {
            None => {
                return Err(LoadError::MissingParent { child: prev, parent: cur });
            },
            Some(i) => {
                assert(v.projects[i as int].1 == index.projects@[i as int].1@);
                let ghost before = hierarchy@;
                hierarchy.push(cur);
                match index.projects[i].1.parent {
                    None => {
                        assert(before + seq![cur] =~= hierarchy@);
                        return Ok(hierarchy);
                    },
                    Some(p) => {
                        proof {
                            let rest = chain_from(v, p, cur, (fuel - 1) as nat);
                            match rest {
                                Some(Ok(t)) => {
                                    assert(before + (seq![cur] + t) =~= hierarchy@ + t);
                                },
                                _ => {},
                            }
                        }
                        prev = cur;
                        cur = p;
                        fuel = fuel - 1;
                    },
                }
            },
        }
    }
}

/// What a successful resolution gives, with `dir` the cache directory of the
/// hierarchy: the configuration of the hierarchy; the index with the new hash
/// of every recompiled layer and the project's entry synced to `dir`; and, when
/// the project was recompiled and its directory changed, the move of its new
/// cache file from where the layer was written (its indexed directory, see
/// [`load_layer_task`]) to `dir`.
pub open spec fn resolved_as(
    v: GlobalIndexView,
    after: GlobalIndexView,
    uuid: u128,
    hierarchy: Seq<u128>,
    ls: Seq<Result<CachedProjectConfigView, Seq<char>>>,
    os: TargetOs,
    us: Seq<IndexUpdate>,
    root: Option<Seq<char>>,
    dir: Seq<char>,
    out: (ResolvedConfig, Option<CacheMove>),
) -> bool {
    let e = v.entry(uuid)->Some_0;
    let hash = first_update(us, uuid);
    let rc = out.0;
    &&& rc.uuid == uuid
    &&& rc.qualified_name@ == match qualified_name(v, uuid) {
        Some(q) => q,
        None => e.name,
    }
    &&& rc.project_root@ == e.path
    &&& rc.hierarchy@ == hierarchy
    &&& layers_view(rc.layers@) == ls
    &&& rc.os == os
    &&& after == (GlobalIndexView {
        projects: upsert(apply_hashes(v.projects, us), uuid, synced_entry(e, dir, hash)),
        ..v
    })
    &&& match out.1 {
        Some(mv) => cache_dir_differs(e, dir) && hash is Some && mv.from@ == joined_path(
            entry_cache_dir(e, uuid, root),
            hash->Some_0,
        ) && mv.to@ == joined_path(dir, hash->Some_0) && !same_path(mv.from@, mv.to@),
        None => !(cache_dir_differs(e, dir) && hash is Some) || same_path(
            joined_path(entry_cache_dir(e, uuid, root), hash->Some_0),
            joined_path(dir, hash->Some_0),
        ),
    }
}

/// The new hash that the updates give a project, the first one for it.
fn find_update(updates: &Vec<IndexUpdate>, id: u128) -> (r: Option<String>)
    ensures
        opt_str(r) == first_update(updates@, id),
{
    let n = updates.len();
    let mut k: usize = 0;
    assert(updates@.subrange(0, n as int) =~= updates@);
    while k < n
        invariant
            k <= n,
            n == updates@.len(),
            first_update(updates@, id) == first_update(updates@.subrange(k as int, n as int), id),
        decreases n - k,
    {
        let ghost rest = updates@.subrange(k as int, n as int);
        assert(rest.drop_first() =~= updates@.subrange(k + 1, n as int));
        assert(rest[0] == updates@[k as int]);
        if updates[k].uuid == id {
            return Some(updates[k].new_hash.clone());
        }
        k = k + 1;
    }
    assert(updates@.subrange(k as int, n as int) =~= Seq::<IndexUpdate>::empty());
    None
}

/// Completes the resolution of a registered project once its layers are
/// loaded (`layers[k]` for `hierarchy[k]`, the project first) and `updates`
/// hold the new hashes of the recompiled ones: builds the resolved
/// configuration, writes the new hash of every recompiled layer into its
/// entry, and brings the project's entry up to date with the cache directory
/// of the hierarchy. When the project was recompiled and its directory
/// changed, the cache file written under the previous directory is to move to
/// the new one. See [`resolved_as`].
pub fn finish_resolve(
    index: &mut GlobalIndex,
    uuid: u128,
    hierarchy: Vec<u128>,
    layers: Vec<Layer>,
    updates: &Vec<IndexUpdate>,
    os: TargetOs,
    default_cache_root: Option<String>,
) -> (r: Result<(ResolvedConfig, Option<CacheMove>), LoadError>)
    requires
        old(index)@.wf(),
        old(index)@.has(uuid),
        hierarchy@.len() == layers@.len(),
        hierarchy@.len() > 0,
        hierarchy@[0] == uuid,
        (first_update(updates@, uuid) is Some && old(index)@.entry(uuid)->Some_0.cache_dir is None)
            ==> default_cache_root is Some,
    ensures
        final(index)@.wf(),
        ({
            let v = old(index)@;
            let ls = layers_view(layers@);
            let root = opt_str(default_cache_root);
            &&& (first_failure(ls) matches Some(m) ==> (r matches Err(
                LoadError::Options(OptionsError::Layer(x)),
            ) && x@ == m))
            &&& (first_failure(ls) is None && first_option(ls, OptionText::CacheDir) is None
                && root is Some) ==> r is Ok
            &&& (first_failure(ls) is None && first_option(ls, OptionText::CacheDir) is None
                && root is None ==> (r matches Err(LoadError::Options(OptionsError::NoCacheRoot))))
            &&& (first_failure(ls) is None && (first_option(ls, OptionText::CacheDir) is Some
                && first_option(ls, OptionText::CacheDir)->Some_0.contains('<'))) ==> (r matches Err(
                LoadError::Options(OptionsError::Template(crate::paths::TemplateError::DynamicToken { .. })),
            ))
            &&& (first_failure(ls) is None && (first_option(ls, OptionText::CacheDir) is Some
                && !first_option(ls, OptionText::CacheDir)->Some_0.contains('<')
                && nothing_to_expand(first_option(ls, OptionText::CacheDir)->Some_0))) ==> r is Ok
            &&& r is Err ==> final(index)@ == v && r->Err_0 is Options
            &&& r is Ok ==> exists|croot: Seq<char>|
                #![trigger project_cache_dir(croot, uuid)]
                (first_option(ls, OptionText::CacheDir) is None ==> croot == root->Some_0)
                    && ((first_option(ls, OptionText::CacheDir) is Some && nothing_to_expand(
                    first_option(ls, OptionText::CacheDir)->Some_0,
                )) ==> croot == first_option(ls, OptionText::CacheDir)->Some_0) && resolved_as(
                    v,
                    final(index)@,
                    uuid,
                    hierarchy@,
                    ls,
                    os,
                    updates@,
                    root,
                    project_cache_dir(croot, uuid),
                    r->Ok_0,
                )
        }),
{
    let ghost v = index@;
    let ghost ls = layers_view(layers@);
    let ghost hv = hierarchy@;
    let i = find_project(&*index, uuid).unwrap();
    assert(v.projects[i as int].1 == index.projects@[i as int].1@);
    let entry = copy_entry(&index.projects[i].1);
    let qualified_name = match build_qualified_name(uuid, &*index) {
        Some(q) => q,
        None => entry.name.clone(),
    };
    let resolved = ResolvedConfig::new(
        uuid,
        qualified_name,
        entry.path.clone(),
        hierarchy,
        layers,
        os,
    );
    let root_copy: Option<String> = match &default_cache_root {
        Some(x) => Some(x.clone()),
        None => None,
    };
    let options = match resolved.get_options(root_copy) {
        Ok(o) => o,
        Err(e) => {
            return Err(LoadError::Options(e));
        },
    };
    let ghost croot: Seq<char> = if first_option(ls, OptionText::CacheDir) is Some {
        let t = first_option(ls, OptionText::CacheDir)->Some_0;
        if nothing_to_expand(t) {
            t
        } else {
            choose|x: Seq<char>| #![trigger project_cache_dir(x, uuid)] options_match(options, ls, uuid, x)
        }
    } else {
        default_cache_root->Some_0@
    };
    assert(options_match(options, ls, uuid, croot));
    let dir = match options.cache_dir {
        Some(d) => d,
        None => {
            return Err(LoadError::Options(OptionsError::NoCacheRoot));
        },
    };
    assert(dir@ == project_cache_dir(croot, uuid));
    // The new hash of every recompiled layer.
    let mut p: usize = 0;
    while p < index.projects.len()
        invariant
            p <= index.projects@.len(),
            index.projects@.len() == v.projects.len(),
            index@.aliases == v.aliases,
            index@.last_used == v.last_used,
            forall|q: int| 0 <= q < p ==> index@.projects[q] == apply_hashes(v.projects, updates@)[q],
            forall|q: int| p <= q < v.projects.len() ==> index@.projects[q] == v.projects[q],
        decreases index.projects@.len() - p,
    {
        let ghost cur = index@.projects;
        assert(cur[p as int] == v.projects[p as int]);
        let id = index.projects[p].0;
        match find_update(updates, id) {
            Some(h) => {
                let mut rehashed_entry = copy_entry(&index.projects[p].1);
                rehashed_entry.config_hash = Some(h);
                index.projects.set(p, (id, rehashed_entry));
                assert(index@.projects =~= cur.update(p as int, (id, rehashed_entry@)));
            },
            None => {},
        }
        assert(index@.projects[p as int] == apply_hashes(v.projects, updates@)[p as int]);
        p = p + 1;
    }
    assert(index@.projects =~= apply_hashes(v.projects, updates@));
    assert(index@.wf()) by {
        assert forall|x: int, y: int| 0 <= x < y < index@.projects.len() implies (
        #[trigger] index@.projects[x]).0 != (#[trigger] index@.projects[y]).0 by {
            assert(v.projects[x].0 != v.projects[y].0);
        }
    }
    let new_hash = find_update(updates, uuid);
    let differs = match &entry.cache_dir {
        Some(c) => !paths_equal(c.as_str(), dir.as_str()),
        None => true,
    };
    let mut synced = copy_entry(&entry);
    if differs {
        synced.cache_dir = Some(dir.clone());
    }
    match &new_hash {
        Some(h) => {
            synced.config_hash = Some(h.clone());
        },
        None => {},
    }
    assert(synced@ == synced_entry(entry@, dir@, first_update(updates@, uuid)));
    let ghost hashed = index@;
    put_project(index, uuid, synced);
    let mut migration: Option<CacheMove> = None;
    if differs {
        match &new_hash {
            Some(h) => {
                let previous = match &entry.cache_dir {
                    Some(d) => d.clone(),
                    None => get_default_cache_dir_for_project(
                        uuid,
                        default_cache_root.as_ref().unwrap().as_str(),
                    ),
                };
                let from = join_path(previous.as_str(), h.as_str());
                let to = join_path(dir.as_str(), h.as_str());
                if !paths_equal(from.as_str(), to.as_str()) {
                    migration = Some(CacheMove { from, to });
                }
            },
            None => {},
        }
    }
    let out = (resolved, migration);
    assert(resolved_as(
        v,
        index@,
        uuid,
        hv,
        ls,
        os,
        updates@,
        opt_str(default_cache_root),
        project_cache_dir(croot, uuid),
        out,
    ));
    Ok(out)
}


/// The hierarchy of an unregistered project, from its local identity: the
/// project itself, then its registered parents up to the root.
pub fn ephemeral_hierarchy(index: &GlobalIndex, project_ref: &ProjectRef, canonical_path: &str) -> (r:
    Result<Vec<u128>, LoadError>)
    requires
        index@.wf(),
        parents_from(index@, project_ref.parent_uuid, index@.projects.len() + 1) is Some,
    ensures
        match parents_from(index@, project_ref.parent_uuid, index@.projects.len() + 1)->Some_0 {
            Ok(ps) => r is Ok && r->Ok_0@ == seq![project_ref.self_uuid] + ps,
            Err(id) => r matches Err(LoadError::EphemeralParentMissing { path, parent }) && path@
                == canonical_path@ && parent == id,
        },
{
    let ghost v = index@;
    let n = index.projects.len();
    let mut hierarchy: Vec<u128> = Vec::new();
    hierarchy.push(project_ref.self_uuid);
    let mut cur = project_ref.parent_uuid;
    let mut fuel: u128 = n as u128 + 1;
    let ghost whole = parents_from(v, project_ref.parent_uuid, (n + 1) as nat);
    loop
        invariant
            index@ == v,
            v.wf(),
            whole == parents_from(v, project_ref.parent_uuid, v.projects.len() + 1),
            whole is Some,
            match parents_from(v, cur, fuel as nat) {
                None => whole is None,
                Some(Ok(t)) => whole == Some(Ok::<Seq<u128>, u128>(hierarchy@.drop_first() + t))
                    && hierarchy@.len() >= 1 && hierarchy@[0] == project_ref.self_uuid,
                Some(Err(x)) => whole == Some(Err::<Seq<u128>, u128>(x)),
            },
        decreases fuel,
    {
        match cur {
            None => {
                assert(hierarchy@ =~= seq![project_ref.self_uuid] + (hierarchy@.drop_first() + Seq::<u128>::empty()));
                return Ok(hierarchy);
            },
            Some(id) => {
                assert(fuel > 0);
                match find_project(index, id) {
                    None => {
                        return Err(
                            LoadError::EphemeralParentMissing {
                                path: owned(canonical_path),
                                parent: id,
                            },
                        );
                    },
                    Some(i) => {
                        assert(v.projects[i as int].1 == index.projects@[i as int].1@);
                        let ghost before = hierarchy@;
                        hierarchy.push(id);
                        proof {
                            match parents_from(v, index.projects@[i as int].1.parent, (fuel - 1) as nat) {
                                Some(Ok(t)) => {
                                    assert(before.drop_first() + (seq![id] + t) =~= hierarchy@.drop_first() + t);
                                },
                                _ => {},
                            }
                        }
                        cur = index.projects[i].1.parent;
                        fuel = fuel - 1;
                    },
                }
            },
        }
    }
}

/// The transient entry of an unregistered project, from its local identity.
pub fn ephemeral_entry(project_ref: &ProjectRef, canonical_path: &str) -> (r: IndexEntry)
    ensures
        r@ == (IndexEntryView {
            name: project_ref.name@,
            path: canonical_path@,
            parent: project_ref.parent_uuid,
            config_hash: None,
            cache_dir: None,
            last_used_child: None,
        }),
{
    IndexEntry {
        name: project_ref.name.clone(),
        path: owned(canonical_path),
        parent: project_ref.parent_uuid,
        config_hash: None,
        cache_dir: None,
        last_used_child: None,
    }
}

/// The resolved configuration of an unregistered project once its layers are
/// loaded; its qualified name is its name after `_`.
pub fn finish_ephemeral(
    project_ref: &ProjectRef,
    canonical_path: String,
    hierarchy: Vec<u128>,
    layers: Vec<Layer>,
    os: TargetOs,
) -> (r: ResolvedConfig)
    ensures
        r.uuid == project_ref.self_uuid,
        r.qualified_name@ == "_"@ + project_ref.name@,
        r.project_root@ == canonical_path@,
        r.hierarchy@ == hierarchy@,
        layers_view(r.layers@) == layers_view(layers@),
        r.os == os,
{
    let mut name = owned("_");
    push_str(&mut name, project_ref.name.as_str());
    ResolvedConfig::new(project_ref.self_uuid, name, canonical_path, hierarchy, layers, os)
}

} // verus!
