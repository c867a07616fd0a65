//! The resolved configuration of a project: the compiled layers of its inheritance
//! chain (the project first, then its parents up to the root), with the lookups
//! that let children override their parents, the merge of options, the selection
//! of a platform's commands, and the flattening of script and variable
//! compositions.

use vstd::prelude::*;
use crate::models::{
    copy_opt_str, copy_task, copy_var, opt_cmd, opt_str, CachedProjectConfig,
    CachedProjectConfigView, CachedVar, CachedVarView, CommandExecution, CommandExecutionView,
    PlatformExecution, PlatformExecutionView, PlatformSpecializedTask, TargetOs, Task, TaskView,
};
use crate::text::{owned, str_eq};

verus! {

/// A configuration layer: compiled, or the message of the error that prevented it.
#[derive(Debug)]
pub enum Layer {
    Loaded(CachedProjectConfig),
    Failed(String),
}

impl View for Layer {
    type V = Result<CachedProjectConfigView, Seq<char>>;

    open spec fn view(&self) -> Result<CachedProjectConfigView, Seq<char>> {
        match self {
            Layer::Loaded(c) => Ok(c@),
            Layer::Failed(m) => Err(m@),
        }
    }
}

/// The views of the layers.
pub open spec fn layers_view(l: Seq<Layer>) -> Seq<Result<CachedProjectConfigView, Seq<char>>> {
    l.map_values(|x: Layer| x@)
}

/// A project's full, inherited configuration.
#[derive(Debug)]
pub struct ResolvedConfig {
    pub uuid: u128,
    pub qualified_name: String,
    pub project_root: String,
    pub hierarchy: Vec<u128>,
    pub layers: Vec<Layer>,
    pub os: TargetOs,
}

/// The value of the first entry with key `k`.
pub open spec fn first_value<T>(entries: Seq<(Seq<char>, T)>, k: Seq<char>) -> Option<T>
    decreases entries.len(),
{
    if entries.len() == 0 {
        None
    } else if entries[0].0 == k {
        Some(entries[0].1)
    } else {
        first_value(entries.drop_first(), k)
    }
}

/// The script `name` of the first layer, from the project up, that defines it; the
/// first failed layer met before it gives its error.
pub open spec fn script_in(
    layers: Seq<Result<CachedProjectConfigView, Seq<char>>>,
    name: Seq<char>,
) -> Result<Option<TaskView>, Seq<char>>
    decreases layers.len(),
{
    if layers.len() == 0 {
        Ok(None)
    } else {
        match layers[0] {
            Err(m) => Err(m),
            Ok(l) => match first_value(l.scripts, name) {
                Some(t) => Ok(Some(t)),
                None => script_in(layers.drop_first(), name),
            },
        }
    }
}

/// The variable `name` of the first layer, from the project up, that defines it.
pub open spec fn var_in(
    layers: Seq<Result<CachedProjectConfigView, Seq<char>>>,
    name: Seq<char>,
) -> Result<Option<CachedVarView>, Seq<char>>
    decreases layers.len(),
{
    if layers.len() == 0 {
        Ok(None)
    } else {
        match layers[0] {
            Err(m) => Err(m),
            Ok(l) => match first_value(l.vars, name) {
                Some(v) => Ok(Some(v)),
                None => var_in(layers.drop_first(), name),
            },
        }
    }
}

/// The first failed layer, if any.
pub open spec fn first_failure(layers: Seq<Result<CachedProjectConfigView, Seq<char>>>) -> Option<
    Seq<char>,
>
    decreases layers.len(),
{
    if layers.len() == 0 {
        None
    } else {
        match layers[0] {
            Err(m) => Some(m),
            Ok(_) => first_failure(layers.drop_first()),
        }
    }
}

/// The version (`version`) or description of a layer.
pub open spec fn layer_text(l: CachedProjectConfigView, version: bool) -> Option<Seq<char>> {
    if version {
        l.version
    } else {
        l.description
    }
}

/// The first version (or description) that a layer, from the project up,
/// defines; the first failed layer met before it gives its error.
pub open spec fn first_defined(
    layers: Seq<Result<CachedProjectConfigView, Seq<char>>>,
    version: bool,
) -> Result<Option<Seq<char>>, Seq<char>>
    decreases layers.len(),
{
    if layers.len() == 0 {
        Ok(None)
    } else {
        match layers[0] {
            Err(m) => Err(m),
            Ok(l) => match layer_text(l, version) {
                Some(v) => Ok(Some(v)),
                None => first_defined(layers.drop_first(), version),
            },
        }
    }
}

/// Law: a version (or description) is inherited from the closest layer that
/// defines it. When the layers before layer `k` all load and define none, and
/// layer `k` loads and defines one, that one is the resolved value (a project
/// without a version gets its parent's, or its grandparent's, ...).
pub proof fn lemma_text_from_closest_layer(
    layers: Seq<Result<CachedProjectConfigView, Seq<char>>>,
    version: bool,
    k: int,
)
    requires
        0 <= k < layers.len(),
        forall|j: int| 0 <= j < k ==> (#[trigger] layers[j]) is Ok && layer_text(layers[j]->Ok_0, version) is None,
        layers[k] is Ok,
        layer_text(layers[k]->Ok_0, version) is Some,
    ensures
        first_defined(layers, version) == Ok::<Option<Seq<char>>, Seq<char>>(
            layer_text(layers[k]->Ok_0, version),
        ),
    decreases k,
{
    if k > 0 {
        let rest = layers.drop_first();
        assert(layers[0] is Ok && layer_text(layers[0]->Ok_0, version) is None);
        assert forall|j: int| 0 <= j < k - 1 implies (#[trigger] rest[j]) is Ok && layer_text(
            rest[j]->Ok_0,
            version,
        ) is None by {
            assert(rest[j] == layers[j + 1]);
        }
        assert(rest[k - 1] == layers[k]);
        lemma_text_from_closest_layer(rest, version, k - 1);
    }
}

/// Law: a layer that fails to load before any layer defines the version (or
/// description) makes its resolution fail with that layer's error.
pub proof fn lemma_failed_layer_before_text(
    layers: Seq<Result<CachedProjectConfigView, Seq<char>>>,
    version: bool,
    k: int,
)
    requires
        0 <= k < layers.len(),
        forall|j: int| 0 <= j < k ==> (#[trigger] layers[j]) is Ok && layer_text(layers[j]->Ok_0, version) is None,
        layers[k] is Err,
    ensures
        first_defined(layers, version) == Err::<Option<Seq<char>>, Seq<char>>(layers[k]->Err_0),
    decreases k,
{
    if k > 0 {
        let rest = layers.drop_first();
        assert(layers[0] is Ok && layer_text(layers[0]->Ok_0, version) is None);
        assert forall|j: int| 0 <= j < k - 1 implies (#[trigger] rest[j]) is Ok && layer_text(
            rest[j]->Ok_0,
            version,
        ) is None by {
            assert(rest[j] == layers[j + 1]);
        }
        assert(rest[k - 1] == layers[k]);
        lemma_failed_layer_before_text(rest, version, k - 1);
    }
}

/// Law: no version (or description) is resolved only when no layer defines
/// one: the result is `None` exactly when every layer loads and none defines it.
pub proof fn lemma_no_text_only_when_undefined(
    layers: Seq<Result<CachedProjectConfigView, Seq<char>>>,
    version: bool,
)
    ensures
        first_defined(layers, version) == Ok::<Option<Seq<char>>, Seq<char>>(None) <==> forall|j: int|
            0 <= j < layers.len() ==> (#[trigger] layers[j]) is Ok && layer_text(layers[j]->Ok_0, version) is None,
    decreases layers.len(),
{
    if layers.len() > 0 {
        let rest = layers.drop_first();
        lemma_no_text_only_when_undefined(rest, version);
        assert forall|j: int| 1 <= j < layers.len() implies layers[j] == rest[j - 1] by {}
        if (forall|j: int| 0 <= j < rest.len() ==> (#[trigger] rest[j]) is Ok && layer_text(rest[j]->Ok_0, version) is None)
            && layers[0] is Ok && layer_text(layers[0]->Ok_0, version) is None {
            assert forall|j: int| 0 <= j < layers.len() implies (#[trigger] layers[j]) is Ok && layer_text(
                layers[j]->Ok_0,
                version,
            ) is None by {
                if j > 0 {
                    assert(layers[j] == rest[j - 1]);
                }
            }
        }
        if forall|j: int| 0 <= j < layers.len() ==> (#[trigger] layers[j]) is Ok && layer_text(layers[j]->Ok_0, version) is None {
            assert(layers[0] is Ok);
            assert forall|j: int| 0 <= j < rest.len() implies (#[trigger] rest[j]) is Ok && layer_text(
                rest[j]->Ok_0,
                version,
            ) is None by {
                assert(rest[j] == layers[j + 1]);
            }
        }
    }
}

/// `entries` with `k` mapped to `v`: in place when `k` is present, appended otherwise.
pub open spec fn put_pair<T>(entries: Seq<(Seq<char>, T)>, k: Seq<char>, v: T) -> Seq<(Seq<char>, T)>
    decreases entries.len(),
{
    if entries.len() == 0 {
        seq![(k, v)]
    } else if entries[0].0 == k {
        entries.update(0, (k, v))
    } else {
        seq![entries[0]] + put_pair(entries.drop_first(), k, v)
    }
}

/// `acc` with every entry of `entries` put in turn.
pub open spec fn put_all<T>(acc: Seq<(Seq<char>, T)>, entries: Seq<(Seq<char>, T)>) -> Seq<
    (Seq<char>, T),
>
    decreases entries.len(),
{
    if entries.len() == 0 {
        acc
    } else {
        put_all(put_pair(acc, entries[0].0, entries[0].1), entries.drop_first())
    }
}

/// The association lists of the layers merged from the root down to the project,
/// so that a child's entry overrides its parents'.
pub open spec fn merged<T>(
    layers: Seq<Result<CachedProjectConfigView, Seq<char>>>,
    f: spec_fn(CachedProjectConfigView) -> Seq<(Seq<char>, T)>,
) -> Seq<(Seq<char>, T)>
    decreases layers.len(),
{
    if layers.len() == 0 {
        Seq::empty()
    } else {
        match layers.last() {
            Ok(l) => put_all(merged(layers.drop_last(), f), f(l)),
            Err(_) => merged(layers.drop_last(), f),
        }
    }
}

/// The command of a platform block that the target system runs: its own entry,
/// else the default one (only the default on other systems).
pub open spec fn select_for(os: TargetOs, p: PlatformExecutionView) -> Option<CommandExecutionView> {
    match os {
        TargetOs::Windows => if p.windows is Some {
            p.windows
        } else {
            p.default
        },
        TargetOs::Linux => if p.linux is Some {
            p.linux
        } else {
            p.default
        },
        TargetOs::MacOs => if p.macos is Some {
            p.macos
        } else {
            p.default
        },
        TargetOs::Other => p.default,
    }
}

/// The commands of a task for the target system, one per line that has one.
pub open spec fn specialized(os: TargetOs, cmds: Seq<PlatformExecutionView>) -> Seq<
    CommandExecutionView,
>
    decreases cmds.len(),
{
    if cmds.len() == 0 {
        Seq::empty()
    } else {
        specialized(os, cmds.drop_last()) + match select_for(os, cmds.last()) {
            Some(c) => seq![c],
            None => Seq::empty(),
        }
    }
}

/// The view of a list of commands.
pub open spec fn cmds_view(s: Seq<CommandExecution>) -> Seq<CommandExecutionView> {
    s.map_values(|c: CommandExecution| c@)
}

/// Finds the value of a key in an association list of tasks.
pub(crate) fn find_task<'a>(entries: &'a Vec<(String, Task)>, k: &str) -> (r: Option<&'a Task>)
    ensures
        match first_value(crate::models::tasks_view(entries@), k@) {
            Some(t) => r is Some && r->Some_0@ == t,
            None => r is None,
        },
{
    let ghost all = crate::models::tasks_view(entries@);
    let mut j: usize = 0;
    assert(all.subrange(0, all.len() as int) =~= all);
    while j < entries.len()
        invariant
            j <= entries@.len(),
            all == crate::models::tasks_view(entries@),
            first_value(all, k@) == first_value(all.subrange(j as int, all.len() as int), k@),
        decreases entries@.len() - j,
    {
        let ghost rest = all.subrange(j as int, all.len() as int);
        assert(rest[0] == (entries@[j as int].0@, entries@[j as int].1@));
        if str_eq(entries[j].0.as_str(), k) {
            return Some(&entries[j].1);
        }
        assert(rest.drop_first() =~= all.subrange(j + 1, all.len() as int));
        j = j + 1;
    }
    None
}

/// Finds the value of a key in an association list of variables.
pub(crate) fn find_var<'a>(entries: &'a Vec<(String, CachedVar)>, k: &str) -> (r: Option<&'a CachedVar>)
    ensures
        match first_value(crate::models::vars_view(entries@), k@) {
            Some(v) => r is Some && r->Some_0@ == v,
            None => r is None,
        },
{
    let ghost all = crate::models::vars_view(entries@);
    let mut j: usize = 0;
    assert(all.subrange(0, all.len() as int) =~= all);
    while j < entries.len()
        invariant
            j <= entries@.len(),
            all == crate::models::vars_view(entries@),
            first_value(all, k@) == first_value(all.subrange(j as int, all.len() as int), k@),
        decreases entries@.len() - j,
    {
        let ghost rest = all.subrange(j as int, all.len() as int);
        assert(rest[0] == (entries@[j as int].0@, entries@[j as int].1@));
        if str_eq(entries[j].0.as_str(), k) {
            return Some(&entries[j].1);
        }
        assert(rest.drop_first() =~= all.subrange(j + 1, all.len() as int));
        j = j + 1;
    }
    None
}

/// The position of the first `u` in `h`, or -1.
pub open spec fn position_of(h: Seq<u128>, u: u128) -> int
    decreases h.len(),
{
    if h.len() == 0 {
        -1
    } else if h[0] == u {
        0
    } else {
        let r = position_of(h.drop_first(), u);
        if r < 0 {
            -1
        } else {
            r + 1
        }
    }
}

/// The error of a layer that is not in the hierarchy (`outside`) or was never loaded.
pub open spec fn missing_layer_message(uuid: u128, outside: bool) -> Seq<char> {
    if outside {
        "Internal logic error: attempt to get a layer for UUID "@ + crate::paths::uuid_text(uuid)
            + " not in the hierarchy."@
    } else {
        "Internal logic error: the layer for UUID "@ + crate::paths::uuid_text(uuid)
            + " was never loaded."@
    }
}

/// The text of [`missing_layer_message`].
fn missing_layer_text(uuid: u128, outside: bool) -> (r: String)
    ensures
        r@ == missing_layer_message(uuid, outside),
{
    let id = crate::paths::uuid_to_string(uuid);
    if outside {
        let mut m = owned("Internal logic error: attempt to get a layer for UUID ");
        m.append(id.as_str());
        m.append(" not in the hierarchy.");
        m
    } else {
        let mut m = owned("Internal logic error: the layer for UUID ");
        m.append(id.as_str());
        m.append(" was never loaded.");
        m
    }
}

impl ResolvedConfig {
    /// A resolved configuration over the layers of a project's hierarchy (the
    /// project first), for the given target system.
    pub fn new(
        uuid: u128,
        qualified_name: String,
        project_root: String,
        hierarchy: Vec<u128>,
        layers: Vec<Layer>,
        os: TargetOs,
    ) -> (r: ResolvedConfig)
        ensures
            r.uuid == uuid,
            r.qualified_name@ == qualified_name@,
            r.project_root@ == project_root@,
            r.hierarchy@ == hierarchy@,
            layers_view(r.layers@) == layers_view(layers@),
            r.os == os,
    {
        ResolvedConfig { uuid, qualified_name, project_root, hierarchy, layers, os }
    }

    /// The view of the layers.
    pub open spec fn layers_spec(&self) -> Seq<Result<CachedProjectConfigView, Seq<char>>> {
        layers_view(self.layers@)
    }

    /// The script `name`, from the project or its closest parent that defines it.
    pub fn get_script(&self, name: &str) -> (r: Result<Option<&Task>, String>)
        ensures
            match script_in(self.layers_spec(), name@) {
                Ok(Some(t)) => r is Ok && r->Ok_0 is Some && r->Ok_0->Some_0@ == t,
                Ok(None) => r is Ok && r->Ok_0 is None,
                Err(m) => r is Err && r->Err_0@ == m,
            },
    {
        let ghost ls = self.layers_spec();
        let mut i: usize = 0;
        assert(ls.subrange(0, ls.len() as int) =~= ls);
        while i < self.layers.len()
            invariant
                i <= self.layers@.len(),
                ls == self.layers_spec(),
                script_in(ls, name@) == script_in(ls.subrange(i as int, ls.len() as int), name@),
            decreases self.layers@.len() - i,
        {
            let ghost rest = ls.subrange(i as int, ls.len() as int);
            assert(rest[0] == self.layers@[i as int]@);
            assert(rest.drop_first() =~= ls.subrange(i + 1, ls.len() as int));
            match &self.layers[i] {
                Layer::Failed(m) => {
                    return Err(m.clone());
                },
                Layer::Loaded(l) => {
                    match find_task(&l.scripts, name) {
                        Some(t) => {
                            return Ok(Some(t));
                        },
                        None => {},
                    }
                },
            }
            i = i + 1;
        }
        Ok(None)
    }

    /// The variable `name`, from the project or its closest parent that defines it.
    pub fn get_var(&self, name: &str) -> (r: Result<Option<&CachedVar>, String>)
        ensures
            match var_in(self.layers_spec(), name@) {
                Ok(Some(v)) => r is Ok && r->Ok_0 is Some && r->Ok_0->Some_0@ == v,
                Ok(None) => r is Ok && r->Ok_0 is None,
                Err(m) => r is Err && r->Err_0@ == m,
            },
    {
        let ghost ls = self.layers_spec();
        let mut i: usize = 0;
        assert(ls.subrange(0, ls.len() as int) =~= ls);
        while i < self.layers.len()
            invariant
                i <= self.layers@.len(),
                ls == self.layers_spec(),
                var_in(ls, name@) == var_in(ls.subrange(i as int, ls.len() as int), name@),
            decreases self.layers@.len() - i,
        {
            let ghost rest = ls.subrange(i as int, ls.len() as int);
            assert(rest[0] == self.layers@[i as int]@);
            assert(rest.drop_first() =~= ls.subrange(i + 1, ls.len() as int));
            match &self.layers[i] {
                Layer::Failed(m) => {
                    return Err(m.clone());
                },
                Layer::Loaded(l) => {
                    match find_var(&l.vars, name) {
                        Some(v) => {
                            return Ok(Some(v));
                        },
                        None => {},
                    }
                },
            }
            i = i + 1;
        }
        Ok(None)
    }

    /// The compiled layer of a project of the hierarchy, or the error that
    /// prevented it.
    pub fn get_layer(&self, uuid: u128) -> (r: Result<&CachedProjectConfig, String>)
        ensures
            ({
                let i = position_of(self.hierarchy@, uuid);
                if i < 0 {
                    r is Err && r->Err_0@ == missing_layer_message(uuid, true)
                } else if i >= self.layers@.len() {
                    r is Err && r->Err_0@ == missing_layer_message(uuid, false)
                } else {
                    match self.layers_spec()[i] {
                        Ok(c) => r is Ok && r->Ok_0@ == c,
                        Err(m) => r is Err && r->Err_0@ == m,
                    }
                }
            }),
    {
        let mut i: usize = 0;
        assert(self.hierarchy@.subrange(0, self.hierarchy@.len() as int) =~= self.hierarchy@);
        while i < self.hierarchy.len()
            invariant
                i <= self.hierarchy@.len(),
                position_of(self.hierarchy@, uuid) == if position_of(
                    self.hierarchy@.subrange(i as int, self.hierarchy@.len() as int),
                    uuid,
                ) < 0 {
                    -1
                } else {
                    position_of(self.hierarchy@.subrange(i as int, self.hierarchy@.len() as int), uuid)
                        + i
                },
            decreases self.hierarchy@.len() - i,
        {
            let ghost rest = self.hierarchy@.subrange(i as int, self.hierarchy@.len() as int);
            if self.hierarchy[i] == uuid {
                assert(rest[0] == uuid);
                if i >= self.layers.len() {
                    return Err(missing_layer_text(uuid, false));
                }
                assert(self.layers_spec()[i as int] == self.layers@[i as int]@);
                return match &self.layers[i] {
                    Layer::Loaded(c) => Ok(c),
                    Layer::Failed(m) => Err(m.clone()),
                };
            }
            assert(rest.drop_first() =~= self.hierarchy@.subrange(i + 1, self.hierarchy@.len() as int));
            i = i + 1;
        }
        Err(missing_layer_text(uuid, true))
    }

    /// The project's version: the closest one defined from the project up.
    pub fn get_version(&self) -> (r: Result<Option<String>, String>)
        ensures
            match first_defined(self.layers_spec(), true) {
                Ok(v) => r is Ok && opt_str(r->Ok_0) == v,
                Err(m) => r is Err && r->Err_0@ == m,
            },
    {
        self.first_string(true)
    }

    /// The project's description: the closest one defined from the project up.
    pub fn get_description(&self) -> (r: Result<Option<String>, String>)
        ensures
            match first_defined(self.layers_spec(), false) {
                Ok(v) => r is Ok && opt_str(r->Ok_0) == v,
                Err(m) => r is Err && r->Err_0@ == m,
            },
    {
        self.first_string(false)
    }

    /// The closest version (or description) defined from the project up.
    fn first_string(&self, version: bool) -> (r: Result<Option<String>, String>)
        ensures
            match first_defined(self.layers_spec(), version) {
                Ok(v) => r is Ok && opt_str(r->Ok_0) == v,
                Err(m) => r is Err && r->Err_0@ == m,
            },
    {
        let ghost ls = self.layers_spec();
        let mut i: usize = 0;
        assert(ls.subrange(0, ls.len() as int) =~= ls);
        while i < self.layers.len()
            invariant
                i <= self.layers@.len(),
                ls == self.layers_spec(),
                first_defined(ls, version) == first_defined(
                    ls.subrange(i as int, ls.len() as int),
                    version,
                ),
            decreases self.layers@.len() - i,
        {
            let ghost rest = ls.subrange(i as int, ls.len() as int);
            assert(rest[0] == self.layers@[i as int]@);
            assert(rest.drop_first() =~= ls.subrange(i + 1, ls.len() as int));
            match &self.layers[i] {
                Layer::Failed(m) => {
                    return Err(m.clone());
                },
                Layer::Loaded(l) => {
                    let v = if version {
                        &l.version
                    } else {
                        &l.description
                    };
                    match v {
                        Some(s) => {
                            return Ok(Some(s.clone()));
                        },
                        None => {},
                    }
                },
            }
            i = i + 1;
        }
        Ok(None)
    }

    /// The command of a platform block for the target system.
    pub fn select_platform_exec<'a>(&self, plat_exec: &'a PlatformExecution) -> (r: Option<
        &'a CommandExecution,
    >)
        ensures
            match select_for(self.os, plat_exec@) {
                Some(c) => r is Some && r->Some_0@ == c,
                None => r is None,
            },
    {
        match self.os {
            TargetOs::Windows => if plat_exec.windows.is_some() {
                plat_exec.windows.as_ref()
            } else {
                plat_exec.default.as_ref()
            },
            TargetOs::Linux => if plat_exec.linux.is_some() {
                plat_exec.linux.as_ref()
            } else {
                plat_exec.default.as_ref()
            },
            TargetOs::MacOs => if plat_exec.macos.is_some() {
                plat_exec.macos.as_ref()
            } else {
                plat_exec.default.as_ref()
            },
            TargetOs::Other => plat_exec.default.as_ref(),
        }
    }

    /// The task with, for each line, the command of the target system (lines
    /// without one are dropped).
    pub fn specialize_task_for_platform(&self, universal_task: &Task) -> (r: PlatformSpecializedTask)
        ensures
            opt_str(r.desc) == opt_str(universal_task.desc),
            cmds_view(r.commands@) == specialized(self.os, crate::models::plat_seq_view(
                universal_task.commands@,
            )),
    {
        let ghost all = crate::models::plat_seq_view(universal_task.commands@);
        let mut out: Vec<CommandExecution> = Vec::new();
        let mut i: usize = 0;
        assert(all.subrange(0, 0) =~= Seq::<PlatformExecutionView>::empty());
        assert(cmds_view(out@) =~= Seq::<CommandExecutionView>::empty());
        while i < universal_task.commands.len()
            invariant
                i <= universal_task.commands@.len(),
                all == crate::models::plat_seq_view(universal_task.commands@),
                cmds_view(out@) == specialized(self.os, all.subrange(0, i as int)),
            decreases universal_task.commands@.len() - i,
        {
            assert(all.subrange(0, i + 1).drop_last() =~= all.subrange(0, i as int));
            assert(all[i as int] == universal_task.commands@[i as int]@);
            let ghost before = cmds_view(out@);
            match self.select_platform_exec(&universal_task.commands[i]) {
                Some(c) => {
                    out.push(crate::models::copy_cmd(c));
                    assert(cmds_view(out@) =~= before + seq![c@]);
                },
                None => {
                    assert(specialized(self.os, all.subrange(0, i + 1)) =~= before);
                },
            }
            i = i + 1;
        }
        assert(all.subrange(0, i as int) =~= all);
        PlatformSpecializedTask { desc: copy_opt_str(&universal_task.desc), commands: out }
    }
}

/// Law: a child's script overrides its parents'. When the project's own layer
/// defines a script, that definition is the one resolved, whatever its parents hold.
pub proof fn lemma_child_script_overrides(
    layers: Seq<Result<CachedProjectConfigView, Seq<char>>>,
    name: Seq<char>,
)
    requires
        layers.len() > 0,
        layers[0] is Ok,
        first_value(layers[0]->Ok_0.scripts, name) is Some,
    ensures
        script_in(layers, name) == Ok::<Option<TaskView>, Seq<char>>(
            first_value(layers[0]->Ok_0.scripts, name),
        ),
{
}

/// Law: a parent's script is inherited. When the project's own layer does not
/// define a script, the resolved script is the one its parents resolve.
pub proof fn lemma_parent_script_inherited(
    layers: Seq<Result<CachedProjectConfigView, Seq<char>>>,
    name: Seq<char>,
)
    requires
        layers.len() > 0,
        layers[0] is Ok,
        first_value(layers[0]->Ok_0.scripts, name) is None,
    ensures
        script_in(layers, name) == script_in(layers.drop_first(), name),
{
}

/// Law: a script of the root project is available everywhere. When every layer
/// of a hierarchy loads and only its root (the last layer) defines a script,
/// that definition is the one resolved.
pub proof fn lemma_root_script_available(
    layers: Seq<Result<CachedProjectConfigView, Seq<char>>>,
    name: Seq<char>,
)
    requires
        layers.len() > 0,
        forall|i: int| 0 <= i < layers.len() ==> #[trigger] layers[i] is Ok,
        forall|i: int| 0 <= i < layers.len() - 1 ==> first_value((#[trigger] layers[i])->Ok_0.scripts, name) is None,
        first_value(layers.last()->Ok_0.scripts, name) is Some,
    ensures
        script_in(layers, name) == Ok::<Option<TaskView>, Seq<char>>(
            first_value(layers.last()->Ok_0.scripts, name),
        ),
    decreases layers.len(),
{
    if layers.len() > 1 {
        let rest = layers.drop_first();
        assert(layers[0] is Ok);
        assert forall|i: int| 0 <= i < rest.len() implies #[trigger] rest[i] is Ok by {
            assert(rest[i] == layers[i + 1]);
        }
        assert forall|i: int| 0 <= i < rest.len() - 1 implies first_value((#[trigger] rest[i])->Ok_0.scripts, name) is None by {
            assert(rest[i] == layers[i + 1]);
        }
        assert(rest.last() == layers.last());
        lemma_root_script_available(rest, name);
    }
}

/// Law: a child's variable overrides its parents'. When the project's own layer
/// defines a variable, that definition is the one resolved.
pub proof fn lemma_child_var_overrides(
    layers: Seq<Result<CachedProjectConfigView, Seq<char>>>,
    name: Seq<char>,
)
    requires
        layers.len() > 0,
        layers[0] is Ok,
        first_value(layers[0]->Ok_0.vars, name) is Some,
    ensures
        var_in(layers, name) == Ok::<Option<CachedVarView>, Seq<char>>(
            first_value(layers[0]->Ok_0.vars, name),
        ),
{
}

/// Law: a parent's variable is inherited. When the project's own layer does not
/// define a variable, the resolved variable is the one its parents resolve.
pub proof fn lemma_parent_var_inherited(
    layers: Seq<Result<CachedProjectConfigView, Seq<char>>>,
    name: Seq<char>,
)
    requires
        layers.len() > 0,
        layers[0] is Ok,
        first_value(layers[0]->Ok_0.vars, name) is None,
    ensures
        var_in(layers, name) == var_in(layers.drop_first(), name),
{
}

/// Each key of an association list occurs once.
pub open spec fn unique_keys<T>(entries: Seq<(Seq<char>, T)>) -> bool {
    forall|i: int, j: int| 0 <= i < j < entries.len() ==> (#[trigger] entries[i]).0 != (#[trigger] entries[j]).0
}

/// Putting `k` changes the lookup of `k` alone.
proof fn lemma_put_pair_lookup<T>(entries: Seq<(Seq<char>, T)>, k: Seq<char>, v: T, q: Seq<char>)
    ensures
        first_value(put_pair(entries, k, v), q) == if q == k {
            Some(v)
        } else {
            first_value(entries, q)
        },
    decreases entries.len(),
{
    let r = put_pair(entries, k, v);
    if entries.len() == 0 {
        assert(r == seq![(k, v)]);
        assert(r.drop_first() =~= Seq::<(Seq<char>, T)>::empty());
        assert(r[0] == (k, v));
        assert(first_value(r.drop_first(), q) is None);
    } else if entries[0].0 == k {
        assert(r == entries.update(0, (k, v)));
        assert(r[0] == (k, v));
        assert(r.drop_first() =~= entries.drop_first());
    } else {
        lemma_put_pair_lookup(entries.drop_first(), k, v, q);
        assert(r == seq![entries[0]] + put_pair(entries.drop_first(), k, v));
        assert(r[0] == entries[0]);
        assert(r.drop_first() =~= put_pair(entries.drop_first(), k, v));
    }
}

/// Putting a list of distinct keys: each of them gets its value, the others keep theirs.
proof fn lemma_put_all_lookup<T>(acc: Seq<(Seq<char>, T)>, entries: Seq<(Seq<char>, T)>, q: Seq<char>)
    requires
        unique_keys(entries) || first_value(entries, q) is None,
    ensures
        first_value(put_all(acc, entries), q) == match first_value(entries, q) {
            Some(x) => Some(x),
            None => first_value(acc, q),
        },
    decreases entries.len(),
{
    if entries.len() > 0 {
        let rest = entries.drop_first();
        let acc2 = put_pair(acc, entries[0].0, entries[0].1);
        lemma_put_pair_lookup(acc, entries[0].0, entries[0].1, q);
        if entries[0].0 == q {
            assert(unique_keys(entries));
            assert forall|i: int| 0 <= i < rest.len() implies (#[trigger] rest[i]).0 != q by {
                assert(rest[i] == entries[i + 1]);
            }
            lemma_first_value_absent(rest, q);
            lemma_put_all_lookup(acc2, rest, q);
        } else {
            if unique_keys(entries) {
                assert forall|i: int, j: int| 0 <= i < j < rest.len() implies (#[trigger] rest[i]).0 != (
                #[trigger] rest[j]).0 by {
                    assert(rest[i] == entries[i + 1]);
                    assert(rest[j] == entries[j + 1]);
                }
            }
            lemma_put_all_lookup(acc2, rest, q);
        }
    }
}

/// A key that no entry has is not found.
proof fn lemma_first_value_absent<T>(entries: Seq<(Seq<char>, T)>, q: Seq<char>)
    requires
        forall|i: int| 0 <= i < entries.len() ==> (#[trigger] entries[i]).0 != q,
    ensures
        first_value(entries, q) is None,
    decreases entries.len(),
{
    if entries.len() > 0 {
        let rest = entries.drop_first();
        assert forall|i: int| 0 <= i < rest.len() implies (#[trigger] rest[i]).0 != q by {
            assert(rest[i] == entries[i + 1]);
        }
        lemma_first_value_absent(rest, q);
    }
}

/// Law: a child's environment variable overrides its parents'. When the
/// project's own layer sets a variable (each key of a layer once), the merged
/// environment gives it that layer's value.
pub proof fn lemma_child_env_overrides(
    layers: Seq<Result<CachedProjectConfigView, Seq<char>>>,
    key: Seq<char>,
)
    requires
        layers.len() > 0,
        layers[0] is Ok,
        unique_keys(layers[0]->Ok_0.env),
        first_value(layers[0]->Ok_0.env, key) is Some,
    ensures
        first_value(merged_env(layers), key) == first_value(layers[0]->Ok_0.env, key),
{
    lemma_put_all_lookup(merged_env(layers.drop_first()), layers[0]->Ok_0.env, key);
}

/// Law: a parent's environment variable is inherited. When the project's own
/// layer does not set a variable, the merged environment gives it the value
/// its parents' merged environment gives.
pub proof fn lemma_parent_env_inherited(
    layers: Seq<Result<CachedProjectConfigView, Seq<char>>>,
    key: Seq<char>,
)
    requires
        layers.len() > 0,
        layers[0] is Ok,
        first_value(layers[0]->Ok_0.env, key) is None,
    ensures
        first_value(merged_env(layers), key) == first_value(merged_env(layers.drop_first()), key),
{
    lemma_put_all_lookup(merged_env(layers.drop_first()), layers[0]->Ok_0.env, key);
}

// =========================================================================
// === Merged views of the hierarchy
// =========================================================================

/// The view of an association list.
pub open spec fn pairs_view<T: View>(s: Seq<(String, T)>) -> Seq<(Seq<char>, T::V)> {
    s.map_values(|p: (String, T)| (p.0@, p.1@))
}

/// Maps `k` to `v` in an association list: in place of the first entry with
/// key `k`, or appended.
pub(crate) fn put_pair_exec<T: View>(entries: &mut Vec<(String, T)>, k: String, v: T)
    ensures
        pairs_view(final(entries)@) == put_pair(pairs_view(old(entries)@), k@, v@),
{
    let ghost all = pairs_view(entries@);
    let mut j: usize = 0;
    assert(all.subrange(0, 0) =~= Seq::<(Seq<char>, T::V)>::empty());
    assert(all.subrange(0, all.len() as int) =~= all);
    while j < entries.len()
        invariant
            j <= entries@.len(),
            entries@ == old(entries)@,
            all == pairs_view(entries@),
            put_pair(all, k@, v@) == all.subrange(0, j as int) + put_pair(
                all.subrange(j as int, all.len() as int),
                k@,
                v@,
            ),
        decreases entries@.len() - j,
    {
        let ghost rest = all.subrange(j as int, all.len() as int);
        assert(rest[0] == (entries@[j as int].0@, entries@[j as int].1@));
        if str_eq(entries[j].0.as_str(), k.as_str()) {
            let ghost kv = k@;
            let ghost vv = v@;
            entries.set(j, (k, v));
            proof {
                assert(rest.update(0, (kv, vv)) =~= seq![(kv, vv)] + rest.drop_first());
                assert(pairs_view(entries@) =~= all.subrange(0, j as int) + (seq![(kv, vv)]
                    + rest.drop_first()));
            }
            return;
        }
        proof {
            assert(rest.drop_first() =~= all.subrange(j + 1, all.len() as int));
            assert(all.subrange(0, j as int) + (seq![rest[0]] + put_pair(rest.drop_first(), k@, v@))
                =~= all.subrange(0, j + 1) + put_pair(all.subrange(j + 1, all.len() as int), k@, v@));
        }
        j = j + 1;
    }
    let ghost kv = k@;
    let ghost vv = v@;
    entries.push((k, v));
    proof {
        assert(all.subrange(j as int, all.len() as int) =~= Seq::<(Seq<char>, T::V)>::empty());
        assert(pairs_view(entries@) =~= all + seq![(kv, vv)]);
    }
}

/// The failure of the root-most failed layer, if any (the merges visit the
/// layers from the root down).
pub open spec fn root_failure(layers: Seq<Result<CachedProjectConfigView, Seq<char>>>) -> Option<
    Seq<char>,
>
    decreases layers.len(),
{
    if layers.len() == 0 {
        None
    } else {
        match root_failure(layers.drop_first()) {
            Some(m) => Some(m),
            None => match layers[0] {
                Err(m) => Some(m),
                Ok(_) => None,
            },
        }
    }
}

/// The environment variables of the hierarchy, a child's overriding its parents'.
pub open spec fn merged_env(layers: Seq<Result<CachedProjectConfigView, Seq<char>>>) -> Seq<
    (Seq<char>, Seq<char>),
>
    decreases layers.len(),
{
    if layers.len() == 0 {
        Seq::empty()
    } else {
        match layers[0] {
            Ok(l) => put_all(merged_env(layers.drop_first()), l.env),
            Err(_) => merged_env(layers.drop_first()),
        }
    }
}

/// The scripts of the hierarchy, a child's overriding its parents'.
pub open spec fn merged_scripts(layers: Seq<Result<CachedProjectConfigView, Seq<char>>>) -> Seq<
    (Seq<char>, TaskView),
>
    decreases layers.len(),
{
    if layers.len() == 0 {
        Seq::empty()
    } else {
        match layers[0] {
            Ok(l) => put_all(merged_scripts(layers.drop_first()), l.scripts),
            Err(_) => merged_scripts(layers.drop_first()),
        }
    }
}

/// The variables of the hierarchy, a child's overriding its parents'.
pub open spec fn merged_vars(layers: Seq<Result<CachedProjectConfigView, Seq<char>>>) -> Seq<
    (Seq<char>, CachedVarView),
>
    decreases layers.len(),
{
    if layers.len() == 0 {
        Seq::empty()
    } else {
        match layers[0] {
            Ok(l) => put_all(merged_vars(layers.drop_first()), l.vars),
            Err(_) => merged_vars(layers.drop_first()),
        }
    }
}

/// The `open_with` commands of the hierarchy, a child's overriding its parents'.
pub open spec fn merged_open_with(layers: Seq<Result<CachedProjectConfigView, Seq<char>>>) -> Seq<
    (Seq<char>, TaskView),
>
    decreases layers.len(),
{
    if layers.len() == 0 {
        Seq::empty()
    } else {
        match layers[0] {
            Ok(l) => put_all(merged_open_with(layers.drop_first()), l.options.open_with_commands),
            Err(_) => merged_open_with(layers.drop_first()),
        }
    }
}

/// Puts each entry of a list of string pairs.
fn put_all_env(acc: &mut Vec<(String, String)>, entries: &Vec<(String, String)>)
    ensures
        pairs_view(final(acc)@) == put_all(pairs_view(old(acc)@), pairs_view(entries@)),
{
    let ghost e = pairs_view(entries@);
    let ghost a0 = pairs_view(acc@);
    let mut i: usize = 0;
    assert(e.subrange(0, e.len() as int) =~= e);
    while i < entries.len()
        invariant
            i <= entries@.len(),
            e == pairs_view(entries@),
            put_all(a0, e) == put_all(pairs_view(acc@), e.subrange(i as int, e.len() as int)),
        decreases entries@.len() - i,
    {
        let ghost rest = e.subrange(i as int, e.len() as int);
        assert(rest[0] == (entries@[i as int].0@, entries@[i as int].1@));
        assert(rest.drop_first() =~= e.subrange(i + 1, e.len() as int));
        put_pair_exec(acc, entries[i].0.clone(), entries[i].1.clone());
        i = i + 1;
    }
}

/// Puts each entry of a list of tasks.
fn put_all_tasks(acc: &mut Vec<(String, Task)>, entries: &Vec<(String, Task)>)
    ensures
        pairs_view(final(acc)@) == put_all(pairs_view(old(acc)@), pairs_view(entries@)),
{
    let ghost e = pairs_view(entries@);
    let ghost a0 = pairs_view(acc@);
    let mut i: usize = 0;
    assert(e.subrange(0, e.len() as int) =~= e);
    while i < entries.len()
        invariant
            i <= entries@.len(),
            e == pairs_view(entries@),
            put_all(a0, e) == put_all(pairs_view(acc@), e.subrange(i as int, e.len() as int)),
        decreases entries@.len() - i,
    {
        let ghost rest = e.subrange(i as int, e.len() as int);
        assert(rest[0] == (entries@[i as int].0@, entries@[i as int].1@));
        assert(rest.drop_first() =~= e.subrange(i + 1, e.len() as int));
        put_pair_exec(acc, entries[i].0.clone(), copy_task(&entries[i].1));
        i = i + 1;
    }
}

/// Puts each entry of a list of variables.
fn put_all_vars(acc: &mut Vec<(String, CachedVar)>, entries: &Vec<(String, CachedVar)>)
    ensures
        pairs_view(final(acc)@) == put_all(pairs_view(old(acc)@), pairs_view(entries@)),
{
    let ghost e = pairs_view(entries@);
    let ghost a0 = pairs_view(acc@);
    let mut i: usize = 0;
    assert(e.subrange(0, e.len() as int) =~= e);
    while i < entries.len()
        invariant
            i <= entries@.len(),
            e == pairs_view(entries@),
            put_all(a0, e) == put_all(pairs_view(acc@), e.subrange(i as int, e.len() as int)),
        decreases entries@.len() - i,
    {
        let ghost rest = e.subrange(i as int, e.len() as int);
        assert(rest[0] == (entries@[i as int].0@, entries@[i as int].1@));
        assert(rest.drop_first() =~= e.subrange(i + 1, e.len() as int));
        put_pair_exec(acc, entries[i].0.clone(), copy_var(&entries[i].1));
        i = i + 1;
    }
}

/// What a merge over the hierarchy sees of a layer: the layer list from position
/// `i` on.
pub open spec fn suffix(layers: Seq<Result<CachedProjectConfigView, Seq<char>>>, i: int) -> Seq<
    Result<CachedProjectConfigView, Seq<char>>,
> {
    layers.subrange(i, layers.len() as int)
}

impl ResolvedConfig {
    /// The environment variables of the whole hierarchy, a child's value
    /// overriding its parents'.
    pub fn get_env(&self) -> (r: Result<Vec<(String, String)>, String>)
        ensures
            match root_failure(self.layers_spec()) {
                Some(m) => r is Err && r->Err_0@ == m,
                None => r is Ok && pairs_view(r->Ok_0@) == merged_env(self.layers_spec()),
            },
    {
        let ghost ls = self.layers_spec();
        let mut acc: Vec<(String, String)> = Vec::new();
        let mut i = self.layers.len();
        assert(suffix(ls, i as int) =~= Seq::<Result<CachedProjectConfigView, Seq<char>>>::empty());
        assert(pairs_view(acc@) =~= Seq::<(Seq<char>, Seq<char>)>::empty());
        while i > 0
            invariant
                i <= self.layers@.len(),
                ls == self.layers_spec(),
                root_failure(suffix(ls, i as int)) is None,
                pairs_view(acc@) == merged_env(suffix(ls, i as int)),
            decreases i,
        {
            i = i - 1;
            assert(suffix(ls, i as int).drop_first() =~= suffix(ls, i + 1));
            assert(suffix(ls, i as int)[0] == self.layers@[i as int]@);
            match &self.layers[i] {
                Layer::Failed(m) => {
                    proof {
                        lemma_root_failure_extends(ls, i as int);
                    }
                    return Err(m.clone());
                },
                Layer::Loaded(l) => {
                    put_all_env(&mut acc, &l.env);
                },
            }
        }
        assert(suffix(ls, 0) =~= ls);
        Ok(acc)
    }

    /// Every script of the hierarchy, a child's definition overriding its parents'.
    pub fn get_all_scripts(&self) -> (r: Result<Vec<(String, Task)>, String>)
        ensures
            match root_failure(self.layers_spec()) {
                Some(m) => r is Err && r->Err_0@ == m,
                None => r is Ok && pairs_view(r->Ok_0@) == merged_scripts(self.layers_spec()),
            },
    {
        let ghost ls = self.layers_spec();
        let mut acc: Vec<(String, Task)> = Vec::new();
        let mut i = self.layers.len();
        assert(suffix(ls, i as int) =~= Seq::<Result<CachedProjectConfigView, Seq<char>>>::empty());
        assert(pairs_view(acc@) =~= Seq::<(Seq<char>, TaskView)>::empty());
        while i > 0
            invariant
                i <= self.layers@.len(),
                ls == self.layers_spec(),
                root_failure(suffix(ls, i as int)) is None,
                pairs_view(acc@) == merged_scripts(suffix(ls, i as int)),
            decreases i,
        {
            i = i - 1;
            assert(suffix(ls, i as int).drop_first() =~= suffix(ls, i + 1));
            assert(suffix(ls, i as int)[0] == self.layers@[i as int]@);
            match &self.layers[i] {
                Layer::Failed(m) => {
                    proof {
                        lemma_root_failure_extends(ls, i as int);
                    }
                    return Err(m.clone());
                },
                Layer::Loaded(l) => {
                    assert(pairs_view(l.scripts@) =~= crate::models::tasks_view(l.scripts@));
                    put_all_tasks(&mut acc, &l.scripts);
                },
            }
        }
        assert(suffix(ls, 0) =~= ls);
        Ok(acc)
    }

    /// Every variable of the hierarchy, a child's definition overriding its parents'.
    pub fn get_all_vars(&self) -> (r: Result<Vec<(String, CachedVar)>, String>)
        ensures
            match root_failure(self.layers_spec()) {
                Some(m) => r is Err && r->Err_0@ == m,
                None => r is Ok && pairs_view(r->Ok_0@) == merged_vars(self.layers_spec()),
            },
    {
        let ghost ls = self.layers_spec();
        let mut acc: Vec<(String, CachedVar)> = Vec::new();
        let mut i = self.layers.len();
        assert(suffix(ls, i as int) =~= Seq::<Result<CachedProjectConfigView, Seq<char>>>::empty());
        assert(pairs_view(acc@) =~= Seq::<(Seq<char>, CachedVarView)>::empty());
        while i > 0
            invariant
                i <= self.layers@.len(),
                ls == self.layers_spec(),
                root_failure(suffix(ls, i as int)) is None,
                pairs_view(acc@) == merged_vars(suffix(ls, i as int)),
            decreases i,
        {
            i = i - 1;
            assert(suffix(ls, i as int).drop_first() =~= suffix(ls, i + 1));
            assert(suffix(ls, i as int)[0] == self.layers@[i as int]@);
            match &self.layers[i] {
                Layer::Failed(m) => {
                    proof {
                        lemma_root_failure_extends(ls, i as int);
                    }
                    return Err(m.clone());
                },
                Layer::Loaded(l) => {
                    assert(pairs_view(l.vars@) =~= crate::models::vars_view(l.vars@));
                    put_all_vars(&mut acc, &l.vars);
                },
            }
        }
        assert(suffix(ls, 0) =~= ls);
        Ok(acc)
    }
}

/// A failed layer at `i`, below which none failed, is the root-most failure.
proof fn lemma_root_failure_extends(layers: Seq<Result<CachedProjectConfigView, Seq<char>>>, i: int)
    requires
        0 <= i < layers.len(),
        root_failure(suffix(layers, i + 1)) is None,
        layers[i] is Err,
    ensures
        root_failure(layers) == Some(layers[i]->Err_0),
    decreases i,
{
    assert(suffix(layers, i).drop_first() =~= suffix(layers, i + 1));
    assert(suffix(layers, i)[0] == layers[i]);
    lemma_root_failure_prefix(layers, i);
}

/// The root-most failure of the layers is that of a suffix holding one.
proof fn lemma_root_failure_prefix(layers: Seq<Result<CachedProjectConfigView, Seq<char>>>, i: int)
    requires
        0 <= i <= layers.len(),
        root_failure(suffix(layers, i)) is Some,
    ensures
        root_failure(layers) == root_failure(suffix(layers, i)),
    decreases i,
{
    if i > 0 {
        assert(suffix(layers, i - 1).drop_first() =~= suffix(layers, i));
        lemma_root_failure_prefix(layers, i - 1);
    } else {
        assert(suffix(layers, 0) =~= layers);
    }
}

// =========================================================================
// === Options
// =========================================================================

/// The textual options of a layer.
#[derive(Debug, Clone, Copy, PartialEq, Eq, Structural)]
pub enum OptionText {
    Shell,
    OpenWithDefault,
    Prompt,
    CacheDir,
}

/// A textual option of a layer.
pub open spec fn option_text(l: CachedProjectConfigView, f: OptionText) -> Option<Seq<char>> {
    match f {
        OptionText::Shell => l.options.shell,
        OptionText::OpenWithDefault => l.options.open_with_default,
        OptionText::Prompt => l.options.prompt,
        OptionText::CacheDir => l.options.cache_dir,
    }
}

/// The closest definition of a textual option, from the project up.
pub open spec fn first_option(layers: Seq<Result<CachedProjectConfigView, Seq<char>>>, f: OptionText) -> Option<
    Seq<char>,
>
    decreases layers.len(),
{
    if layers.len() == 0 {
        None
    } else {
        match layers[0] {
            Ok(l) => match option_text(l, f) {
                Some(v) => Some(v),
                None => first_option(layers.drop_first(), f),
            },
            Err(_) => first_option(layers.drop_first(), f),
        }
    }
}

/// The closest definition of a hook (`at_start`, or else `at_exit`), from the
/// project up.
pub open spec fn first_hook(layers: Seq<Result<CachedProjectConfigView, Seq<char>>>, start: bool) -> Option<
    TaskView,
>
    decreases layers.len(),
{
    if layers.len() == 0 {
        None
    } else {
        match layers[0] {
            Ok(l) => match (if start {
                l.options.at_start
            } else {
                l.options.at_exit
            }) {
                Some(t) => Some(t),
                None => first_hook(layers.drop_first(), start),
            },
            Err(_) => first_hook(layers.drop_first(), start),
        }
    }
}

/// Resolved `open_with` options.
#[derive(Debug, Default)]
pub struct ResolvedOpenWithConfig {
    pub default: Option<String>,
    pub commands: Vec<(String, Task)>,
}

/// Resolved `[options]` of a project.
#[derive(Debug, Default)]
pub struct ResolvedOptionsConfig {
    pub at_start: Option<Task>,
    pub at_exit: Option<Task>,
    pub shell: Option<String>,
    pub open_with: ResolvedOpenWithConfig,
    pub cache_dir: Option<String>,
    pub prompt: Option<String>,
}

/// Why the options could not be resolved.
#[derive(Debug, Clone)]
pub enum OptionsError {
    /// A layer of the hierarchy failed to load.
    Layer(String),
    /// The cache path template is invalid or could not be expanded.
    Template(crate::paths::TemplateError),
    /// No cache template is set and the default cache root is unknown.
    NoCacheRoot,
}

impl OptionsError {
    /// The text of [`Self::message`].
    pub open spec fn message_text(&self) -> Seq<char> {
        match self {
            OptionsError::Layer(m) => m@,
            OptionsError::Template(t) => t.message_text(),
            OptionsError::NoCacheRoot => "Could not find home directory"@,
        }
    }

    /// The message shown to the user.
    pub fn message(&self) -> (r: String)
        ensures
            r@ == self.message_text(),
    {
        match self {
            OptionsError::Layer(m) => m.clone(),
            OptionsError::Template(t) => t.message(),
            OptionsError::NoCacheRoot => owned("Could not find home directory"),
        }
    }
}

/// Whether the options are those of the hierarchy: hooks from the closest
/// definition, textual options from the closest definition, `open_with` commands
/// merged with children overriding parents, and the cache directory: the
/// project's own directory (`projects/<uuid>`) under the cache root.
pub open spec fn options_match(
    r: ResolvedOptionsConfig,
    layers: Seq<Result<CachedProjectConfigView, Seq<char>>>,
    uuid: u128,
    cache_root: Seq<char>,
) -> bool {
    &&& crate::models::opt_task(r.at_start) == first_hook(layers, true)
    &&& crate::models::opt_task(r.at_exit) == first_hook(layers, false)
    &&& opt_str(r.shell) == first_option(layers, OptionText::Shell)
    &&& opt_str(r.open_with.default) == first_option(layers, OptionText::OpenWithDefault)
    &&& opt_str(r.prompt) == first_option(layers, OptionText::Prompt)
    &&& pairs_view(r.open_with.commands@) == merged_open_with(layers)
    &&& opt_str(r.cache_dir) == Some(crate::paths::project_cache_dir(cache_root, uuid))
}

impl ResolvedConfig {
    /// The closest cache path template of the hierarchy, from the project up.
    fn cache_template(&self) -> (r: Result<Option<String>, OptionsError>)
        ensures
            ({
                let ls = self.layers_spec();
                match first_failure(ls) {
                    Some(m) => r matches Err(OptionsError::Layer(e)) && e@ == m,
                    None => r is Ok && opt_str(r->Ok_0) == first_option(ls, OptionText::CacheDir),
                }
            }),
    {
        let ghost ls = self.layers_spec();
        let mut template: Option<String> = None;
        let mut i: usize = 0;
        assert(suffix(ls, 0) =~= ls);
        while i < self.layers.len()
            invariant
                i <= self.layers@.len(),
                ls == self.layers_spec(),
                first_failure(ls) == first_failure(suffix(ls, i as int)),
                first_option(ls, OptionText::CacheDir) == match opt_str(template) {
                    Some(t) => Some(t),
                    None => first_option(suffix(ls, i as int), OptionText::CacheDir),
                },
            decreases self.layers@.len() - i,
        {
            assert(suffix(ls, i as int).drop_first() =~= suffix(ls, i + 1));
            assert(suffix(ls, i as int)[0] == self.layers@[i as int]@);
            match &self.layers[i] {
                Layer::Failed(m) => {
                    return Err(OptionsError::Layer(m.clone()));
                },
                Layer::Loaded(l) => {
                    if template.is_none() {
                        template = copy_opt_str(&l.options.cache_dir);
                    }
                },
            }
            i = i + 1;
        }
        assert(suffix(ls, i as int) =~= Seq::<Result<CachedProjectConfigView, Seq<char>>>::empty());
        Ok(template)
    }

    /// The merged options of the hierarchy; see [`options_match`]. The cache
    /// root is the expansion of the closest cache path template, which must hold
    /// no `<` token (a template with nothing to expand is the root itself);
    /// without a template, it is the default cache root, which must be known.
    pub fn get_options(&self, default_cache_root: Option<String>) -> (r: Result<
        ResolvedOptionsConfig,
        OptionsError,
    >)
        ensures
            ({
                let ls = self.layers_spec();
                match first_failure(ls) {
                    Some(m) => r matches Err(OptionsError::Layer(e)) && e@ == m,
                    None => match first_option(ls, OptionText::CacheDir) {
                        Some(t) => {
                            &&& t.contains('<') ==> (r matches Err(
                                OptionsError::Template(crate::paths::TemplateError::DynamicToken { .. }),
                            ))
                            &&& r is Err ==> (r matches Err(OptionsError::Template(_)))
                            &&& (r matches Err(
                                OptionsError::Template(crate::paths::TemplateError::Expansion { .. }),
                            )) ==> t.contains('$')
                            &&& (!t.contains('<') && crate::paths::nothing_to_expand(t)) ==> (r is Ok
                                && options_match(r->Ok_0, ls, self.uuid, t))
                            &&& r is Ok ==> !t.contains('<') && exists|root: Seq<char>|
                                #![trigger crate::paths::project_cache_dir(root, self.uuid)]
                                options_match(r->Ok_0, ls, self.uuid, root)
                        },
                        None => match default_cache_root {
                            None => r matches Err(OptionsError::NoCacheRoot),
                            Some(root) => r is Ok && options_match(r->Ok_0, ls, self.uuid, root@),
                        },
                    },
                }
            }),
    {
        let template = match self.cache_template() {
            Ok(t) => t,
            Err(e) => {
                return Err(e);
            },
        };
        let root: String = match template {
            Some(t) => match crate::paths::expand_path_template(t.as_str()) {
                Ok(x) => x,
                Err(e) => {
                    return Err(OptionsError::Template(e));
                },
            },
            None => match default_cache_root {
                Some(x) => x,
                None => {
                    return Err(OptionsError::NoCacheRoot);
                },
            },
        };
        let r = self.options_under(root.as_str());
        assert(r is Ok ==> options_match(r->Ok_0, self.layers_spec(), self.uuid, root@));
        r
    }

    /// The merged options of the hierarchy with the cache directory under
    /// `cache_root`; see [`options_match`].
    pub fn options_under(&self, cache_root: &str) -> (r: Result<ResolvedOptionsConfig, OptionsError>)
        ensures
            ({
                let ls = self.layers_spec();
                match first_failure(ls) {
                    Some(m) => r matches Err(OptionsError::Layer(e)) && e@ == m,
                    None => r is Ok && options_match(r->Ok_0, ls, self.uuid, cache_root@),
                }
            }),
    {
        let ghost ls = self.layers_spec();
        // Pass 1, from the project up: failures and the closest definitions.
        let mut at_start: Option<Task> = None;
        let mut at_exit: Option<Task> = None;
        let mut shell: Option<String> = None;
        let mut open_default: Option<String> = None;
        let mut prompt: Option<String> = None;
        let mut i: usize = 0;
        assert(suffix(ls, 0) =~= ls);
        while i < self.layers.len()
            invariant
                i <= self.layers@.len(),
                ls == self.layers_spec(),
                first_failure(ls) == first_failure(suffix(ls, i as int)),
                first_hook(ls, true) == match crate::models::opt_task(at_start) {
                    Some(t) => Some(t),
                    None => first_hook(suffix(ls, i as int), true),
                },
                first_hook(ls, false) == match crate::models::opt_task(at_exit) {
                    Some(t) => Some(t),
                    None => first_hook(suffix(ls, i as int), false),
                },
                first_option(ls, OptionText::Shell) == match opt_str(shell) {
                    Some(t) => Some(t),
                    None => first_option(suffix(ls, i as int), OptionText::Shell),
                },
                first_option(ls, OptionText::OpenWithDefault) == match opt_str(open_default) {
                    Some(t) => Some(t),
                    None => first_option(suffix(ls, i as int), OptionText::OpenWithDefault),
                },
                first_option(ls, OptionText::Prompt) == match opt_str(prompt) {
                    Some(t) => Some(t),
                    None => first_option(suffix(ls, i as int), OptionText::Prompt),
                },
            decreases self.layers@.len() - i,
        {
            assert(suffix(ls, i as int).drop_first() =~= suffix(ls, i + 1));
            assert(suffix(ls, i as int)[0] == self.layers@[i as int]@);
            match &self.layers[i] {
                Layer::Failed(m) => {
                    return Err(OptionsError::Layer(m.clone()));
                },
                Layer::Loaded(l) => {
                    if at_start.is_none() {
                        match &l.options.at_start {
                            Some(t) => {
                                at_start = Some(copy_task(t));
                            },
                            None => {},
                        }
                    }
                    if at_exit.is_none() {
                        match &l.options.at_exit {
                            Some(t) => {
                                at_exit = Some(copy_task(t));
                            },
                            None => {},
                        }
                    }
                    if shell.is_none() {
                        shell = copy_opt_str(&l.options.shell);
                    }
                    if open_default.is_none() {
                        open_default = copy_opt_str(&l.options.open_with.default);
                    }
                    if prompt.is_none() {
                        prompt = copy_opt_str(&l.options.prompt);
                    }
                },
            }
            i = i + 1;
        }
        assert(suffix(ls, i as int) =~= Seq::<Result<CachedProjectConfigView, Seq<char>>>::empty());
        // The cache directory.
        let cache_dir = crate::paths::get_default_cache_dir_for_project(self.uuid, cache_root);
        // Pass 2, from the root down: the `open_with` commands.
        let mut commands: Vec<(String, Task)> = Vec::new();
        let mut j = self.layers.len();
        assert(pairs_view(commands@) =~= Seq::<(Seq<char>, TaskView)>::empty());
        while j > 0
            invariant
                j <= self.layers@.len(),
                ls == self.layers_spec(),
                pairs_view(commands@) == merged_open_with(suffix(ls, j as int)),
            decreases j,
        {
            j = j - 1;
            assert(suffix(ls, j as int).drop_first() =~= suffix(ls, j + 1));
            assert(suffix(ls, j as int)[0] == self.layers@[j as int]@);
            match &self.layers[j] {
                Layer::Failed(_) => {},
                Layer::Loaded(l) => {
                    assert(pairs_view(l.options.open_with.commands@) =~= crate::models::tasks_view(
                        l.options.open_with.commands@,
                    ));
                    put_all_tasks(&mut commands, &l.options.open_with.commands);
                },
            }
        }
        assert(suffix(ls, 0) =~= ls);
        Ok(
            ResolvedOptionsConfig {
                at_start,
                at_exit,
                shell,
                open_with: ResolvedOpenWithConfig { default: open_default, commands },
                cache_dir: Some(cache_dir),
                prompt,
            },
        )
    }
}

// =========================================================================
// === Flattening of compositions
// =========================================================================

/// Why a task could not be flattened.
#[derive(Debug, Clone)]
pub enum FlattenError {
    /// A script or variable refers back to itself.
    Circular { is_var: bool, name: String },
    /// `<scripts::name>` names no script.
    BrokenScript(String),
    /// `<vars::name>` names no variable.
    BrokenVar(String),
    /// A variable has no value for the target system.
    VarNoValue(String),
    /// A script of several lines is used inside a line.
    MultiLineInline(String),
    /// A layer of the hierarchy failed to load.
    Layer(String),
}

pub ghost enum FlattenErrorView {
    Circular { is_var: bool, name: Seq<char> },
    BrokenScript(Seq<char>),
    BrokenVar(Seq<char>),
    VarNoValue(Seq<char>),
    MultiLineInline(Seq<char>),
    Layer(Seq<char>),
}

impl View for FlattenError {
    type V = FlattenErrorView;

    open spec fn view(&self) -> FlattenErrorView {
        match self {
            FlattenError::Circular { is_var, name } => FlattenErrorView::Circular {
                is_var: *is_var,
                name: name@,
            },
            FlattenError::BrokenScript(n) => FlattenErrorView::BrokenScript(n@),
            FlattenError::BrokenVar(n) => FlattenErrorView::BrokenVar(n@),
            FlattenError::VarNoValue(n) => FlattenErrorView::VarNoValue(n@),
            FlattenError::MultiLineInline(n) => FlattenErrorView::MultiLineInline(n@),
            FlattenError::Layer(m) => FlattenErrorView::Layer(m@),
        }
    }
}

impl FlattenError {
    /// The text of [`Self::message`].
    pub open spec fn message_text(&self) -> Seq<char> {
        match self {
            FlattenError::Circular { is_var, name } => "Circular dependency detected involving "@ + (if *is_var {
                "var"@
            } else {
                "script"@
            }) + ": '"@ + name@ + "'"@,
            FlattenError::BrokenScript(n) => "Broken Reference: Script '<scripts::"@ + n@ + ">' not found."@,
            FlattenError::BrokenVar(n) => "Broken Reference: Var '<vars::"@ + n@ + ">' not found."@,
            FlattenError::VarNoValue(n) => "Var '"@ + n@ + "' has no value for the current platform."@,
            FlattenError::MultiLineInline(n) => "Inline composition of multi-line script '"@ + n@
                + "' is not supported."@,
            FlattenError::Layer(msg) => msg@,
        }
    }

    /// The error message shown to the user.
    pub fn message(&self) -> (r: String)
        ensures
            r@ == self.message_text(),
    {
        match self {
            FlattenError::Circular { is_var, name } => {
                let mut m = owned("Circular dependency detected involving ");
                m.append(
                    if *is_var {
                        "var"
                    } else {
                        "script"
                    },
                );
                m.append(": '");
                m.append(name.as_str());
                m.append("'");
                m
            },
            FlattenError::BrokenScript(n) => {
                let mut m = owned("Broken Reference: Script '<scripts::");
                m.append(n.as_str());
                m.append(">' not found.");
                m
            },
            FlattenError::BrokenVar(n) => {
                let mut m = owned("Broken Reference: Var '<vars::");
                m.append(n.as_str());
                m.append(">' not found.");
                m
            },
            FlattenError::VarNoValue(n) => {
                let mut m = owned("Var '");
                m.append(n.as_str());
                m.append("' has no value for the current platform.");
                m
            },
            FlattenError::MultiLineInline(n) => {
                let mut m = owned("Inline composition of multi-line script '");
                m.append(n.as_str());
                m.append("' is not supported.");
                m
            },
            FlattenError::Layer(msg) => msg.clone(),
        }
    }
}

/// The names of the scripts (`false`) and variables (`true`) of the layers.
pub open spec fn universe(layers: Seq<Result<CachedProjectConfigView, Seq<char>>>) -> Seq<(bool, Seq<char>)>
    decreases layers.len(),
{
    if layers.len() == 0 {
        Seq::empty()
    } else {
        universe(layers.drop_first()) + match layers[0] {
            Ok(l) => l.scripts.map_values(|e: (Seq<char>, TaskView)| (false, e.0)) + l.vars.map_values(
                |e: (Seq<char>, CachedVarView)| (true, e.0),
            ),
            Err(_) => Seq::empty(),
        }
    }
}

/// The template of a command.
pub open spec fn template_of(c: CommandExecutionView) -> Seq<crate::models::TemplateComponentView> {
    match c.action {
        crate::models::CommandActionView::Execute(t) => t,
        crate::models::CommandActionView::Print(t) => t,
    }
}

/// A command with another template, of the same kind.
pub open spec fn with_template(c: CommandExecutionView, t: Seq<crate::models::TemplateComponentView>) -> CommandExecutionView {
    CommandExecutionView {
        action: match c.action {
            crate::models::CommandActionView::Execute(_) => crate::models::CommandActionView::Execute(t),
            crate::models::CommandActionView::Print(_) => crate::models::CommandActionView::Print(t),
        },
        ..c
    }
}

/// A command with the flags of the line that composed it added.
pub open spec fn inherit_cmd(c: CommandExecutionView, parent: CommandExecutionView) -> CommandExecutionView {
    CommandExecutionView {
        ignore_errors: c.ignore_errors || parent.ignore_errors,
        run_in_parallel: c.run_in_parallel || parent.run_in_parallel,
        silent_mode: c.silent_mode || parent.silent_mode,
        ..c
    }
}

/// An optional command with the flags of its composing line added.
pub open spec fn inherit_opt(o: Option<CommandExecutionView>, parent: CommandExecutionView) -> Option<
    CommandExecutionView,
> {
    match o {
        Some(c) => Some(inherit_cmd(c, parent)),
        None => None,
    }
}

/// The lines of a composed script with the flags of the composing line added.
pub open spec fn inherit(cmds: Seq<PlatformExecutionView>, parent: CommandExecutionView) -> Seq<
    PlatformExecutionView,
> {
    cmds.map_values(
        |p: PlatformExecutionView|
            PlatformExecutionView {
                default: inherit_opt(p.default, parent),
                windows: inherit_opt(p.windows, parent),
                linux: inherit_opt(p.linux, parent),
                macos: inherit_opt(p.macos, parent),
            },
    )
}

/// The name of a line that only runs another script (`<scripts::name>` alone), if it is one.
pub open spec fn composition_of(os: TargetOs, p: PlatformExecutionView) -> Option<(Seq<char>, CommandExecutionView)> {
    match select_for(os, p) {
        Some(c) => match c.action {
            crate::models::CommandActionView::Execute(t) => if t.len() == 1 && t[0] is Script {
                Some((t[0]->Script_0, c))
            } else {
                None
            },
            _ => None,
        },
        None => None,
    }
}

/// The flattened lines of a task: a line that only runs another script is
/// replaced by that script's flattened lines (with the line's flags added);
/// in every other line, `<scripts::...>` and `<vars::...>` references are
/// replaced by their flattened templates. `stack` holds the references being
/// expanded; meeting one again is a cycle.
pub open spec fn flat_cmds(
    os: TargetOs,
    layers: Seq<Result<CachedProjectConfigView, Seq<char>>>,
    cmds: Seq<PlatformExecutionView>,
    stack: Seq<(bool, Seq<char>)>,
) -> Result<Seq<PlatformExecutionView>, FlattenErrorView>
    decreases universe(layers).len() - stack.len(), cmds,
{
    if cmds.len() == 0 {
        Ok(Seq::empty())
    } else {
        match flat_line(os, layers, cmds[0], stack) {
            Err(e) => Err(e),
            Ok(first) => match flat_cmds(os, layers, cmds.drop_first(), stack) {
                Err(e) => Err(e),
                Ok(rest) => Ok(first + rest),
            },
        }
    }
}

/// The flattened lines of one line.
pub open spec fn flat_line(
    os: TargetOs,
    layers: Seq<Result<CachedProjectConfigView, Seq<char>>>,
    p: PlatformExecutionView,
    stack: Seq<(bool, Seq<char>)>,
) -> Result<Seq<PlatformExecutionView>, FlattenErrorView>
    decreases universe(layers).len() - stack.len(), p,
{
    match composition_of(os, p) {
        Some((name, c)) => {
            let key = (false, name);
            if stack.contains(key) {
                Err(FlattenErrorView::Circular { is_var: false, name })
            } else {
                match script_in(layers, name) {
                    Err(m) => Err(FlattenErrorView::Layer(m)),
                    Ok(None) => Err(FlattenErrorView::BrokenScript(name)),
                    Ok(Some(sub)) => if stack.len() + 1 > universe(layers).len() {
                        Err(FlattenErrorView::Circular { is_var: false, name })
                    } else {
                        match flat_cmds(os, layers, sub.commands, stack.push(key)) {
                            Err(e) => Err(e),
                            Ok(fc) => Ok(inherit(fc, c)),
                        }
                    },
                }
            }
        },
        None => match flat_opt(os, layers, p.default, stack) {
            Err(e) => Err(e),
            Ok(d) => match flat_opt(os, layers, p.windows, stack) {
                Err(e) => Err(e),
                Ok(w) => match flat_opt(os, layers, p.linux, stack) {
                    Err(e) => Err(e),
                    Ok(l) => match flat_opt(os, layers, p.macos, stack) {
                        Err(e) => Err(e),
                        Ok(m) => Ok(seq![PlatformExecutionView { default: d, windows: w, linux: l, macos: m }]),
                    },
                },
            },
        },
    }
}

/// The flattened optional command.
pub open spec fn flat_opt(
    os: TargetOs,
    layers: Seq<Result<CachedProjectConfigView, Seq<char>>>,
    o: Option<CommandExecutionView>,
    stack: Seq<(bool, Seq<char>)>,
) -> Result<Option<CommandExecutionView>, FlattenErrorView>
    decreases universe(layers).len() - stack.len(), o,
{
    match o {
        None => Ok(None),
        Some(c) => match c.action {
            crate::models::CommandActionView::Execute(t) => match flat_tpl(os, layers, t, stack) {
                Err(e) => Err(e),
                Ok(ft) => Ok(Some(with_template(c, ft))),
            },
            crate::models::CommandActionView::Print(t) => match flat_tpl(os, layers, t, stack) {
                Err(e) => Err(e),
                Ok(ft) => Ok(Some(with_template(c, ft))),
            },
        },
    }
}

/// The flattened template.
pub open spec fn flat_tpl(
    os: TargetOs,
    layers: Seq<Result<CachedProjectConfigView, Seq<char>>>,
    t: Seq<crate::models::TemplateComponentView>,
    stack: Seq<(bool, Seq<char>)>,
) -> Result<Seq<crate::models::TemplateComponentView>, FlattenErrorView>
    decreases universe(layers).len() - stack.len(), t,
{
    if t.len() == 0 {
        Ok(Seq::empty())
    } else {
        match flat_comp(os, layers, t[0], stack) {
            Err(e) => Err(e),
            Ok(first) => match flat_tpl(os, layers, t.drop_first(), stack) {
                Err(e) => Err(e),
                Ok(rest) => Ok(first + rest),
            },
        }
    }
}

/// The flattened component: a script or variable reference is replaced by the
/// flattened template it stands for.
pub open spec fn flat_comp(
    os: TargetOs,
    layers: Seq<Result<CachedProjectConfigView, Seq<char>>>,
    c: crate::models::TemplateComponentView,
    stack: Seq<(bool, Seq<char>)>,
) -> Result<Seq<crate::models::TemplateComponentView>, FlattenErrorView>
    decreases universe(layers).len() - stack.len(), c,
{
    match c {
        crate::models::TemplateComponentView::Var(name) => {
            let key = (true, name);
            if stack.contains(key) {
                Err(FlattenErrorView::Circular { is_var: true, name })
            } else {
                match var_in(layers, name) {
                    Err(m) => Err(FlattenErrorView::Layer(m)),
                    Ok(None) => Err(FlattenErrorView::BrokenVar(name)),
                    Ok(Some(v)) => match select_for(os, v.value) {
                        None => Err(FlattenErrorView::VarNoValue(name)),
                        Some(cmd) => if stack.len() + 1 > universe(layers).len() {
                            Err(FlattenErrorView::Circular { is_var: true, name })
                        } else {
                            flat_tpl(os, layers, template_of(cmd), stack.push(key))
                        },
                    },
                }
            }
        },
        crate::models::TemplateComponentView::Script(name) => {
            let key = (false, name);
            if stack.contains(key) {
                Err(FlattenErrorView::Circular { is_var: false, name })
            } else {
                match script_in(layers, name) {
                    Err(m) => Err(FlattenErrorView::Layer(m)),
                    Ok(None) => Err(FlattenErrorView::BrokenScript(name)),
                    Ok(Some(s)) => if s.commands.len() > 1 {
                        Err(FlattenErrorView::MultiLineInline(name))
                    } else if s.commands.len() == 1 && select_for(os, s.commands[0]) is Some {
                        if stack.len() + 1 > universe(layers).len() {
                            Err(FlattenErrorView::Circular { is_var: false, name })
                        } else {
                            flat_tpl(
                                os,
                                layers,
                                template_of(select_for(os, s.commands[0])->Some_0),
                                stack.push(key),
                            )
                        }
                    } else {
                        Ok(Seq::empty())
                    },
                }
            }
        },
        _ => Ok(seq![c]),
    }
}

/// The view of a stack of references.
pub open spec fn stack_view(s: Seq<(bool, String)>) -> Seq<(bool, Seq<char>)> {
    s.map_values(|k: (bool, String)| (k.0, k.1@))
}

/// The references being expanded are distinct names of the hierarchy.
pub open spec fn stack_ok(layers: Seq<Result<CachedProjectConfigView, Seq<char>>>, s: Seq<(bool, Seq<char>)>) -> bool {
    &&& s.no_duplicates()
    &&& forall|i: int| 0 <= i < s.len() ==> universe(layers).contains(#[trigger] s[i])
}

/// A key of an association list is found by its first entry.
proof fn lemma_first_value_contains<T>(entries: Seq<(Seq<char>, T)>, k: Seq<char>)
    requires
        first_value(entries, k) is Some,
    ensures
        exists|i: int| 0 <= i < entries.len() && (#[trigger] entries[i]).0 == k,
    decreases entries.len(),
{
    if entries[0].0 != k {
        lemma_first_value_contains(entries.drop_first(), k);
        let i = choose|i: int| 0 <= i < entries.len() - 1 && (#[trigger] entries.drop_first()[i]).0 == k;
        assert(entries[i + 1] == entries.drop_first()[i]);
    }
}

/// A script that resolves is one of the names of the hierarchy.
proof fn lemma_script_in_universe(layers: Seq<Result<CachedProjectConfigView, Seq<char>>>, name: Seq<char>)
    requires
        script_in(layers, name) matches Ok(Some(_)),
    ensures
        universe(layers).contains((false, name)),
    decreases layers.len(),
{
    let l = layers[0]->Ok_0;
    if first_value(l.scripts, name) is Some {
        lemma_first_value_contains(l.scripts, name);
        let i = choose|i: int| 0 <= i < l.scripts.len() && (#[trigger] l.scripts[i]).0 == name;
        let part = l.scripts.map_values(|e: (Seq<char>, TaskView)| (false, e.0)) + l.vars.map_values(
            |e: (Seq<char>, CachedVarView)| (true, e.0),
        );
        assert(part[i] == (false, name));
        let u = universe(layers);
        assert(u[universe(layers.drop_first()).len() + i] == (false, name));
    } else {
        lemma_script_in_universe(layers.drop_first(), name);
        let u0 = universe(layers.drop_first());
        let j = choose|j: int| 0 <= j < u0.len() && u0[j] == (false, name);
        assert(universe(layers)[j] == u0[j]);
    }
}

/// A variable that resolves is one of the names of the hierarchy.
proof fn lemma_var_in_universe(layers: Seq<Result<CachedProjectConfigView, Seq<char>>>, name: Seq<char>)
    requires
        var_in(layers, name) matches Ok(Some(_)),
    ensures
        universe(layers).contains((true, name)),
    decreases layers.len(),
{
    let l = layers[0]->Ok_0;
    if first_value(l.vars, name) is Some {
        lemma_first_value_contains(l.vars, name);
        let i = choose|i: int| 0 <= i < l.vars.len() && (#[trigger] l.vars[i]).0 == name;
        let sc = l.scripts.map_values(|e: (Seq<char>, TaskView)| (false, e.0));
        let part = sc + l.vars.map_values(|e: (Seq<char>, CachedVarView)| (true, e.0));
        assert(part[sc.len() + i] == (true, name));
        let u = universe(layers);
        assert(u[universe(layers.drop_first()).len() + sc.len() + i] == (true, name));
    } else {
        lemma_var_in_universe(layers.drop_first(), name);
        let u0 = universe(layers.drop_first());
        let j = choose|j: int| 0 <= j < u0.len() && u0[j] == (true, name);
        assert(universe(layers)[j] == u0[j]);
    }
}

/// A stack of distinct names of the hierarchy that can take one more name
/// is shorter than the list of all names.
proof fn lemma_stack_push(layers: Seq<Result<CachedProjectConfigView, Seq<char>>>, s: Seq<(bool, Seq<char>)>, key: (bool, Seq<char>))
    requires
        stack_ok(layers, s),
        !s.contains(key),
        universe(layers).contains(key),
    ensures
        stack_ok(layers, s.push(key)),
        s.len() + 1 <= universe(layers).len(),
{
    let t = s.push(key);
    assert forall|i: int, j: int| 0 <= i < t.len() && 0 <= j < t.len() && i != j implies t[i] != t[j] by {
        if i == s.len() {
            assert(t[j] == s[j]);
        } else if j == s.len() {
            assert(t[i] == s[i]);
        } else {
            assert(t[i] == s[i] && t[j] == s[j]);
        }
    }
    assert(t.no_duplicates());
    let u = universe(layers);
    t.unique_seq_to_set();
    u.lemma_cardinality_of_set();
    assert(t.to_set().subset_of(u.to_set())) by {
        assert forall|x: (bool, Seq<char>)| t.to_set().contains(x) implies u.to_set().contains(x) by {
            let i = choose|i: int| 0 <= i < t.len() && t[i] == x;
            if i < s.len() {
                assert(t[i] == s[i]);
            }
        }
    }
    vstd::set_lib::lemma_len_subset(t.to_set(), u.to_set());
}

/// The template of a command.
fn template_ref(c: &CommandExecution) -> (r: &Vec<crate::models::TemplateComponent>)
    ensures
        crate::models::template_view(r@) == template_of(c@),
{
    match &c.action {
        crate::models::CommandAction::Execute(t) => t,
        crate::models::CommandAction::Print(t) => t,
    }
}

/// Whether a stack of references holds a key.
fn stack_contains(stack: &Vec<(bool, String)>, is_var: bool, name: &str) -> (r: bool)
    ensures
        r == stack_view(stack@).contains((is_var, name@)),
{
    let ghost sv = stack_view(stack@);
    let mut i: usize = 0;
    while i < stack.len()
        invariant
            i <= stack@.len(),
            sv == stack_view(stack@),
            forall|k: int| 0 <= k < i ==> sv[k] != (is_var, name@),
        decreases stack@.len() - i,
    {
        assert(sv[i as int] == (stack@[i as int].0, stack@[i as int].1@));
        if stack[i].0 == is_var && str_eq(stack[i].1.as_str(), name) {
            return true;
        }
        i = i + 1;
    }
    false
}

/// A command with the flags of its composing line added.
fn inherit_exec(c: &Option<CommandExecution>, parent: &CommandExecution) -> (r: Option<CommandExecution>)
    ensures
        opt_cmd(r) == inherit_opt(opt_cmd(*c), parent@),
{
    match c {
        Some(x) => {
            let mut y = crate::models::copy_cmd(x);
            y.ignore_errors = y.ignore_errors || parent.ignore_errors;
            y.run_in_parallel = y.run_in_parallel || parent.run_in_parallel;
            y.silent_mode = y.silent_mode || parent.silent_mode;
            Some(y)
        },
        None => None,
    }
}

impl ResolvedConfig {
    /// Flattens a task: scripts composed by a whole line are inlined as lines
    /// (with the flags of the composing line), and `<scripts::...>` and
    /// `<vars::...>` references inside lines are inlined as templates; a
    /// reference cycle is an error.
    pub fn flatten_task(&self, top_level_task: &Task) -> (r: Result<Task, FlattenError>)
        ensures
            match flat_cmds(
                self.os,
                self.layers_spec(),
                crate::models::plat_seq_view(top_level_task.commands@),
                Seq::empty(),
            ) {
                Ok(c) => r is Ok && r->Ok_0@ == (TaskView { desc: opt_str(top_level_task.desc), commands: c }),
                Err(e) => r is Err && r->Err_0@ == e,
            },
    {
        let mut stack: Vec<(bool, String)> = Vec::new();
        assert(stack_view(stack@) =~= Seq::<(bool, Seq<char>)>::empty());
        let commands = self.flatten_cmds(&top_level_task.commands, &mut stack)?;
        Ok(Task { desc: copy_opt_str(&top_level_task.desc), commands })
    }

    fn flatten_cmds(&self, cmds: &Vec<PlatformExecution>, stack: &mut Vec<(bool, String)>) -> (r: Result<
        Vec<PlatformExecution>,
        FlattenError,
    >)
        requires
            stack_ok(self.layers_spec(), stack_view(old(stack)@)),
        ensures
            match flat_cmds(self.os, self.layers_spec(), crate::models::plat_seq_view(cmds@), stack_view(old(stack)@)) {
                Ok(c) => r is Ok && crate::models::plat_seq_view(r->Ok_0@) == c && stack_view(final(stack)@) == stack_view(old(stack)@),
                Err(e) => r is Err && r->Err_0@ == e,
            },
        decreases universe(self.layers_spec()).len() - stack_view(old(stack)@).len(), 4nat,
    {
        let ghost all = crate::models::plat_seq_view(cmds@);
        let ghost st = stack_view(stack@);
        let ghost ls = self.layers_spec();
        let mut out: Vec<PlatformExecution> = Vec::new();
        let mut i: usize = 0;
        assert(all.subrange(0, all.len() as int) =~= all);
        assert(crate::models::plat_seq_view(out@) =~= Seq::<PlatformExecutionView>::empty());
        while i < cmds.len()
            invariant
                i <= cmds@.len(),
                all == crate::models::plat_seq_view(cmds@),
                ls == self.layers_spec(),
                stack_view(stack@) == st,
                stack_ok(ls, st),
                st == stack_view(old(stack)@),
                flat_cmds(self.os, ls, all, st) == match flat_cmds(self.os, ls, all.subrange(i as int, all.len() as int), st) {
                    Ok(rest) => Ok(crate::models::plat_seq_view(out@) + rest),
                    Err(e) => Err::<Seq<PlatformExecutionView>, FlattenErrorView>(e),
                },
            decreases cmds@.len() - i,
        {
            let ghost rest = all.subrange(i as int, all.len() as int);
            assert(rest[0] == cmds@[i as int]@);
            assert(rest.drop_first() =~= all.subrange(i + 1, all.len() as int));
            let lines = self.flatten_line(&cmds[i], stack)?;
            let ghost before = crate::models::plat_seq_view(out@);
            let mut k: usize = 0;
            while k < lines.len()
                invariant
                    k <= lines@.len(),
                    crate::models::plat_seq_view(out@) == before + crate::models::plat_seq_view(lines@).subrange(0, k as int),
                decreases lines@.len() - k,
            {
                let ghost b2 = out@;
                out.push(crate::models::copy_plat(&lines[k]));
                assert(crate::models::plat_seq_view(out@) =~= crate::models::plat_seq_view(b2).push(lines@[k as int]@));
                assert(crate::models::plat_seq_view(lines@).subrange(0, k + 1) =~= crate::models::plat_seq_view(lines@).subrange(0, k as int).push(lines@[k as int]@));
                assert(crate::models::plat_seq_view(out@) =~= before + crate::models::plat_seq_view(lines@).subrange(0, k + 1));
                k = k + 1;
            }
            assert(crate::models::plat_seq_view(lines@).subrange(0, k as int) =~= crate::models::plat_seq_view(lines@));
            proof {
                let f = crate::models::plat_seq_view(lines@);
                match flat_cmds(self.os, ls, all.subrange(i + 1, all.len() as int), st) {
                    Ok(r2) => {
                        assert(before + (f + r2) =~= (before + f) + r2);
                    },
                    Err(_) => {},
                }
            }
            i = i + 1;
        }
        assert(all.subrange(i as int, all.len() as int) =~= Seq::<PlatformExecutionView>::empty());
        assert(crate::models::plat_seq_view(out@) + Seq::<PlatformExecutionView>::empty() =~= crate::models::plat_seq_view(out@));
        Ok(out)
    }

    fn flatten_line(&self, p: &PlatformExecution, stack: &mut Vec<(bool, String)>) -> (r: Result<
        Vec<PlatformExecution>,
        FlattenError,
    >)
        requires
            stack_ok(self.layers_spec(), stack_view(old(stack)@)),
        ensures
            match flat_line(self.os, self.layers_spec(), p@, stack_view(old(stack)@)) {
                Ok(c) => r is Ok && crate::models::plat_seq_view(r->Ok_0@) == c && stack_view(final(stack)@) == stack_view(old(stack)@),
                Err(e) => r is Err && r->Err_0@ == e,
            },
        decreases universe(self.layers_spec()).len() - stack_view(old(stack)@).len(), 3nat,
    {
        let ghost ls = self.layers_spec();
        let ghost st = stack_view(stack@);
        let composed: Option<(&String, &CommandExecution)> = match self.select_platform_exec(p) {
            Some(c) => match &c.action {
                crate::models::CommandAction::Execute(t) => {
                    if t.len() == 1 {
                        match &t[0] {
                            crate::models::TemplateComponent::Script(name) => Some((name, c)),
                            _ => None,
                        }
                    } else {
                        None
                    }
                },
                _ => None,
            },
            None => None,
        };
        match composed {
            Some((name, parent)) => {
                assert(composition_of(self.os, p@) == Some((name@, parent@)));
                if stack_contains(stack, false, name.as_str()) {
                    return Err(FlattenError::Circular { is_var: false, name: name.clone() });
                }
                let sub = match self.get_script(name.as_str()) {
                    Err(m) => {
                        return Err(FlattenError::Layer(m));
                    },
                    Ok(None) => {
                        return Err(FlattenError::BrokenScript(name.clone()));
                    },
                    Ok(Some(t)) => t,
                };
                proof {
                    lemma_script_in_universe(ls, name@);
                    lemma_stack_push(ls, st, (false, name@));
                }
                let ghost before = stack@;
                stack.push((false, name.clone()));
                assert(stack_view(stack@) =~= st.push((false, name@)));
                let flat = self.flatten_cmds(&sub.commands, stack);
                let flat = match flat {
                    Ok(f) => f,
                    Err(e) => {
                        return Err(e);
                    },
                };
                let ghost sb = stack@;
                stack.pop();
                assert(stack@ =~= sb.drop_last());
                assert(stack_view(sb.drop_last()) =~= stack_view(sb).drop_last());
                assert(stack_view(stack@) =~= st);
                let mut out: Vec<PlatformExecution> = Vec::new();
                let mut k: usize = 0;
                let ghost fv = crate::models::plat_seq_view(flat@);
                while k < flat.len()
                    invariant
                        k <= flat@.len(),
                        fv == crate::models::plat_seq_view(flat@),
                        crate::models::plat_seq_view(out@) =~= inherit(fv, parent@).subrange(0, k as int),
                    decreases flat@.len() - k,
                {
                    let q = &flat[k];
                    let np = PlatformExecution {
                        default: inherit_exec(&q.default, parent),
                        windows: inherit_exec(&q.windows, parent),
                        linux: inherit_exec(&q.linux, parent),
                        macos: inherit_exec(&q.macos, parent),
                    };
                    let ghost b = crate::models::plat_seq_view(out@);
                    out.push(np);
                    assert(fv[k as int] == q@);
                    assert(crate::models::plat_seq_view(out@) =~= b.push(np@));
                    assert(inherit(fv, parent@).subrange(0, k + 1) =~= inherit(fv, parent@).subrange(0, k as int).push(inherit(fv, parent@)[k as int]));
                    k = k + 1;
                }
                assert(inherit(fv, parent@).subrange(0, k as int) =~= inherit(fv, parent@));
                Ok(out)
            },
            None => {
                assert(composition_of(self.os, p@) is None);
                let d = self.flatten_opt(&p.default, stack)?;
                let w = self.flatten_opt(&p.windows, stack)?;
                let l = self.flatten_opt(&p.linux, stack)?;
                let m = self.flatten_opt(&p.macos, stack)?;
                let line = PlatformExecution { default: d, windows: w, linux: l, macos: m };
                let out = vec![line];
                assert(crate::models::plat_seq_view(out@) =~= seq![line@]);
                Ok(out)
            },
        }
    }

    fn flatten_opt(&self, o: &Option<CommandExecution>, stack: &mut Vec<(bool, String)>) -> (r: Result<
        Option<CommandExecution>,
        FlattenError,
    >)
        requires
            stack_ok(self.layers_spec(), stack_view(old(stack)@)),
        ensures
            match flat_opt(self.os, self.layers_spec(), opt_cmd(*o), stack_view(old(stack)@)) {
                Ok(c) => r is Ok && opt_cmd(r->Ok_0) == c && stack_view(final(stack)@) == stack_view(old(stack)@),
                Err(e) => r is Err && r->Err_0@ == e,
            },
        decreases universe(self.layers_spec()).len() - stack_view(old(stack)@).len(), 2nat,
    {
        match o {
            None => Ok(None),
            Some(c) => {
                let t = self.flatten_tpl(template_ref(c), stack)?;
                let action = match &c.action {
                    crate::models::CommandAction::Execute(_) => crate::models::CommandAction::Execute(t),
                    crate::models::CommandAction::Print(_) => crate::models::CommandAction::Print(t),
                };
                Ok(
                    Some(
                        CommandExecution {
                            action,
                            ignore_errors: c.ignore_errors,
                            run_in_parallel: c.run_in_parallel,
                            silent_mode: c.silent_mode,
                        },
                    ),
                )
            },
        }
    }

    fn flatten_tpl(&self, t: &Vec<crate::models::TemplateComponent>, stack: &mut Vec<(bool, String)>) -> (r: Result<
        Vec<crate::models::TemplateComponent>,
        FlattenError,
    >)
        requires
            stack_ok(self.layers_spec(), stack_view(old(stack)@)),
        ensures
            match flat_tpl(self.os, self.layers_spec(), crate::models::template_view(t@), stack_view(old(stack)@)) {
                Ok(c) => r is Ok && crate::models::template_view(r->Ok_0@) == c && stack_view(final(stack)@) == stack_view(old(stack)@),
                Err(e) => r is Err && r->Err_0@ == e,
            },
        decreases universe(self.layers_spec()).len() - stack_view(old(stack)@).len(), 1nat,
    {
        let ghost all = crate::models::template_view(t@);
        let ghost st = stack_view(stack@);
        let ghost ls = self.layers_spec();
        let mut out: Vec<crate::models::TemplateComponent> = Vec::new();
        let mut i: usize = 0;
        assert(all.subrange(0, all.len() as int) =~= all);
        assert(crate::models::template_view(out@) =~= Seq::<crate::models::TemplateComponentView>::empty());
        while i < t.len()
            invariant
                i <= t@.len(),
                all == crate::models::template_view(t@),
                ls == self.layers_spec(),
                stack_view(stack@) == st,
                stack_ok(ls, st),
                st == stack_view(old(stack)@),
                flat_tpl(self.os, ls, all, st) == match flat_tpl(self.os, ls, all.subrange(i as int, all.len() as int), st) {
                    Ok(rest) => Ok(crate::models::template_view(out@) + rest),
                    Err(e) => Err::<Seq<crate::models::TemplateComponentView>, FlattenErrorView>(e),
                },
            decreases t@.len() - i,
        {
            let ghost rest = all.subrange(i as int, all.len() as int);
            assert(rest[0] == t@[i as int]@);
            assert(rest.drop_first() =~= all.subrange(i + 1, all.len() as int));
            let comps = self.flatten_comp(&t[i], stack)?;
            let ghost before = crate::models::template_view(out@);
            let mut k: usize = 0;
            while k < comps.len()
                invariant
                    k <= comps@.len(),
                    crate::models::template_view(out@) == before + crate::models::template_view(comps@).subrange(0, k as int),
                decreases comps@.len() - k,
            {
                let ghost b2 = out@;
                out.push(crate::models::copy_component(&comps[k]));
                assert(crate::models::template_view(out@) =~= crate::models::template_view(b2).push(comps@[k as int]@));
                assert(crate::models::template_view(comps@).subrange(0, k + 1) =~= crate::models::template_view(comps@).subrange(0, k as int).push(comps@[k as int]@));
                assert(crate::models::template_view(out@) =~= before + crate::models::template_view(comps@).subrange(0, k + 1));
                k = k + 1;
            }
            assert(crate::models::template_view(comps@).subrange(0, k as int) =~= crate::models::template_view(comps@));
            proof {
                let f = crate::models::template_view(comps@);
                match flat_tpl(self.os, ls, all.subrange(i + 1, all.len() as int), st) {
                    Ok(r2) => {
                        assert(before + (f + r2) =~= (before + f) + r2);
                    },
                    Err(_) => {},
                }
            }
            i = i + 1;
        }
        assert(all.subrange(i as int, all.len() as int) =~= Seq::<crate::models::TemplateComponentView>::empty());
        assert(crate::models::template_view(out@) + Seq::<crate::models::TemplateComponentView>::empty() =~= crate::models::template_view(out@));
        Ok(out)
    }

    fn flatten_comp(&self, c: &crate::models::TemplateComponent, stack: &mut Vec<(bool, String)>) -> (r: Result<
        Vec<crate::models::TemplateComponent>,
        FlattenError,
    >)
        requires
            stack_ok(self.layers_spec(), stack_view(old(stack)@)),
        ensures
            match flat_comp(self.os, self.layers_spec(), c@, stack_view(old(stack)@)) {
                Ok(cs) => r is Ok && crate::models::template_view(r->Ok_0@) == cs && stack_view(final(stack)@) == stack_view(old(stack)@),
                Err(e) => r is Err && r->Err_0@ == e,
            },
        decreases universe(self.layers_spec()).len() - stack_view(old(stack)@).len(), 0nat,
    {
        let ghost ls = self.layers_spec();
        let ghost st = stack_view(stack@);
        match c {
            crate::models::TemplateComponent::Var(name) => {
                if stack_contains(stack, true, name.as_str()) {
                    return Err(FlattenError::Circular { is_var: true, name: name.clone() });
                }
                let v = match self.get_var(name.as_str()) {
                    Err(m) => {
                        return Err(FlattenError::Layer(m));
                    },
                    Ok(None) => {
                        return Err(FlattenError::BrokenVar(name.clone()));
                    },
                    Ok(Some(v)) => v,
                };
                let cmd = match self.select_platform_exec(&v.value) {
                    None => {
                        return Err(FlattenError::VarNoValue(name.clone()));
                    },
                    Some(cmd) => cmd,
                };
                proof {
                    lemma_var_in_universe(ls, name@);
                    lemma_stack_push(ls, st, (true, name@));
                }
                stack.push((true, name.clone()));
                assert(stack_view(stack@) =~= st.push((true, name@)));
                let r = self.flatten_tpl(template_ref(cmd), stack);
                let r = match r {
                    Ok(x) => x,
                    Err(e) => {
                        return Err(e);
                    },
                };
                let ghost sb = stack@;
                stack.pop();
                assert(stack@ =~= sb.drop_last());
                assert(stack_view(sb.drop_last()) =~= stack_view(sb).drop_last());
                assert(stack_view(stack@) =~= st);
                Ok(r)
            },
            crate::models::TemplateComponent::Script(name) => {
                if stack_contains(stack, false, name.as_str()) {
                    return Err(FlattenError::Circular { is_var: false, name: name.clone() });
                }
                let sc = match self.get_script(name.as_str()) {
                    Err(m) => {
                        return Err(FlattenError::Layer(m));
                    },
                    Ok(None) => {
                        return Err(FlattenError::BrokenScript(name.clone()));
                    },
                    Ok(Some(t)) => t,
                };
                if sc.commands.len() > 1 {
                    return Err(FlattenError::MultiLineInline(name.clone()));
                }
                if sc.commands.len() == 1 {
                    assert(crate::models::plat_seq_view(sc.commands@)[0] == sc.commands@[0]@);
                    match self.select_platform_exec(&sc.commands[0]) {
                        Some(cmd) => {
                            proof {
                                lemma_script_in_universe(ls, name@);
                                lemma_stack_push(ls, st, (false, name@));
                            }
                            stack.push((false, name.clone()));
                            assert(stack_view(stack@) =~= st.push((false, name@)));
                            let r = self.flatten_tpl(template_ref(cmd), stack);
                            let r = match r {
                                Ok(x) => x,
                                Err(e) => {
                                    return Err(e);
                                },
                            };
                            let ghost sb = stack@;
                            stack.pop();
                            assert(stack@ =~= sb.drop_last());
                            assert(stack_view(sb.drop_last()) =~= stack_view(sb).drop_last());
                            assert(stack_view(stack@) =~= st);
                            return Ok(r);
                        },
                        None => {},
                    }
                }
                let empty: Vec<crate::models::TemplateComponent> = Vec::new();
                assert(crate::models::template_view(empty@) =~= Seq::<crate::models::TemplateComponentView>::empty());
                Ok(empty)
            },
            _ => {
                let out = vec![crate::models::copy_component(c)];
                assert(crate::models::template_view(out@) =~= seq![c@]);
                Ok(out)
            },
        }
    }
}

// =========================================================================
// === The flattening law
// =========================================================================

/// A template without `<scripts::...>` or `<vars::...>` references.
pub open spec fn tpl_clean(t: Seq<crate::models::TemplateComponentView>) -> bool {
    forall|i: int| 0 <= i < t.len() ==> !(#[trigger] t[i] is Script) && !(t[i] is Var)
}

/// An optional command whose template has no references.
pub open spec fn opt_clean(o: Option<CommandExecutionView>) -> bool {
    match o {
        Some(c) => tpl_clean(template_of(c)),
        None => true,
    }
}

/// Lines whose commands have no references.
pub open spec fn lines_clean(ls: Seq<PlatformExecutionView>) -> bool {
    forall|i: int|
        0 <= i < ls.len() ==> opt_clean((#[trigger] ls[i]).default) && opt_clean(ls[i].windows)
            && opt_clean(ls[i].linux) && opt_clean(ls[i].macos)
}

proof fn lemma_tpl_concat_clean(a: Seq<crate::models::TemplateComponentView>, b: Seq<crate::models::TemplateComponentView>)
    requires
        tpl_clean(a),
        tpl_clean(b),
    ensures
        tpl_clean(a + b),
{
    assert forall|i: int| 0 <= i < (a + b).len() implies !(#[trigger] (a + b)[i] is Script) && !((a + b)[i] is Var) by {
        if i < a.len() {
            assert((a + b)[i] == a[i]);
        } else {
            assert((a + b)[i] == b[i - a.len()]);
        }
    }
}

proof fn lemma_flat_cmds_clean(
    os: TargetOs,
    layers: Seq<Result<CachedProjectConfigView, Seq<char>>>,
    cmds: Seq<PlatformExecutionView>,
    stack: Seq<(bool, Seq<char>)>,
)
    ensures
        flat_cmds(os, layers, cmds, stack) is Ok ==> lines_clean(flat_cmds(os, layers, cmds, stack)->Ok_0),
    decreases universe(layers).len() - stack.len(), cmds,
{
    if cmds.len() > 0 {
        lemma_flat_line_clean(os, layers, cmds[0], stack);
        lemma_flat_cmds_clean(os, layers, cmds.drop_first(), stack);
        if flat_cmds(os, layers, cmds, stack) is Ok {
            let a = flat_line(os, layers, cmds[0], stack)->Ok_0;
            let b = flat_cmds(os, layers, cmds.drop_first(), stack)->Ok_0;
            assert forall|i: int| 0 <= i < (a + b).len() implies opt_clean((#[trigger] (a + b)[i]).default)
                && opt_clean((a + b)[i].windows) && opt_clean((a + b)[i].linux) && opt_clean((a + b)[i].macos) by {
                if i < a.len() {
                    assert((a + b)[i] == a[i]);
                } else {
                    assert((a + b)[i] == b[i - a.len()]);
                }
            }
        }
    }
}

proof fn lemma_flat_line_clean(
    os: TargetOs,
    layers: Seq<Result<CachedProjectConfigView, Seq<char>>>,
    p: PlatformExecutionView,
    stack: Seq<(bool, Seq<char>)>,
)
    ensures
        flat_line(os, layers, p, stack) is Ok ==> lines_clean(flat_line(os, layers, p, stack)->Ok_0),
    decreases universe(layers).len() - stack.len(), p,
{
    match composition_of(os, p) {
        Some((name, c)) => {
            let key = (false, name);
            if !stack.contains(key) {
                match script_in(layers, name) {
                    Ok(Some(sub)) => {
                        if stack.len() + 1 <= universe(layers).len() {
                            lemma_flat_cmds_clean(os, layers, sub.commands, stack.push(key));
                            if flat_cmds(os, layers, sub.commands, stack.push(key)) is Ok {
                                let fc = flat_cmds(os, layers, sub.commands, stack.push(key))->Ok_0;
                                let r = inherit(fc, c);
                                assert forall|i: int| 0 <= i < r.len() implies opt_clean((#[trigger] r[i]).default)
                                    && opt_clean(r[i].windows) && opt_clean(r[i].linux) && opt_clean(r[i].macos) by {
                                    assert(r[i].default == inherit_opt(fc[i].default, c));
                                    assert(opt_clean(fc[i].default));
                                }
                            }
                        }
                    },
                    _ => {},
                }
            }
        },
        None => {
            lemma_flat_opt_clean(os, layers, p.default, stack);
            lemma_flat_opt_clean(os, layers, p.windows, stack);
            lemma_flat_opt_clean(os, layers, p.linux, stack);
            lemma_flat_opt_clean(os, layers, p.macos, stack);
        },
    }
}

proof fn lemma_flat_opt_clean(
    os: TargetOs,
    layers: Seq<Result<CachedProjectConfigView, Seq<char>>>,
    o: Option<CommandExecutionView>,
    stack: Seq<(bool, Seq<char>)>,
)
    ensures
        flat_opt(os, layers, o, stack) is Ok ==> opt_clean(flat_opt(os, layers, o, stack)->Ok_0),
    decreases universe(layers).len() - stack.len(), o,
{
    match o {
        None => {},
        Some(c) => match c.action {
            crate::models::CommandActionView::Execute(t) => {
                lemma_flat_tpl_clean(os, layers, t, stack);
            },
            crate::models::CommandActionView::Print(t) => {
                lemma_flat_tpl_clean(os, layers, t, stack);
            },
        },
    }
}

proof fn lemma_flat_tpl_clean(
    os: TargetOs,
    layers: Seq<Result<CachedProjectConfigView, Seq<char>>>,
    t: Seq<crate::models::TemplateComponentView>,
    stack: Seq<(bool, Seq<char>)>,
)
    ensures
        flat_tpl(os, layers, t, stack) is Ok ==> tpl_clean(flat_tpl(os, layers, t, stack)->Ok_0),
    decreases universe(layers).len() - stack.len(), t,
{
    if t.len() > 0 {
        lemma_flat_comp_clean(os, layers, t[0], stack);
        lemma_flat_tpl_clean(os, layers, t.drop_first(), stack);
        if flat_tpl(os, layers, t, stack) is Ok {
            lemma_tpl_concat_clean(
                flat_comp(os, layers, t[0], stack)->Ok_0,
                flat_tpl(os, layers, t.drop_first(), stack)->Ok_0,
            );
        }
    }
}

proof fn lemma_flat_comp_clean(
    os: TargetOs,
    layers: Seq<Result<CachedProjectConfigView, Seq<char>>>,
    c: crate::models::TemplateComponentView,
    stack: Seq<(bool, Seq<char>)>,
)
    ensures
        flat_comp(os, layers, c, stack) is Ok ==> tpl_clean(flat_comp(os, layers, c, stack)->Ok_0),
    decreases universe(layers).len() - stack.len(), c,
{
    match c {
        crate::models::TemplateComponentView::Var(name) => {
            let key = (true, name);
            if !stack.contains(key) {
                match var_in(layers, name) {
                    Ok(Some(v)) => match select_for(os, v.value) {
                        Some(cmd) => if stack.len() + 1 <= universe(layers).len() {
                            lemma_flat_tpl_clean(os, layers, template_of(cmd), stack.push(key));
                        },
                        None => {},
                    },
                    _ => {},
                }
            }
        },
        crate::models::TemplateComponentView::Script(name) => {
            let key = (false, name);
            if !stack.contains(key) {
                match script_in(layers, name) {
                    Ok(Some(s)) => {
                        if s.commands.len() == 1 && select_for(os, s.commands[0]) is Some && stack.len() + 1
                            <= universe(layers).len() {
                            lemma_flat_tpl_clean(
                                os,
                                layers,
                                template_of(select_for(os, s.commands[0])->Some_0),
                                stack.push(key),
                            );
                        }
                    },
                    _ => {},
                }
            }
        },
        _ => {},
    }
}

/// Law: flattening removes every composition. In a successfully flattened
/// task, no command of any line still refers to a script or a variable.
pub proof fn lemma_flatten_removes_references(
    os: TargetOs,
    layers: Seq<Result<CachedProjectConfigView, Seq<char>>>,
    cmds: Seq<PlatformExecutionView>,
)
    ensures
        flat_cmds(os, layers, cmds, Seq::empty()) is Ok ==> lines_clean(
            flat_cmds(os, layers, cmds, Seq::empty())->Ok_0,
        ),
{
    lemma_flat_cmds_clean(os, layers, cmds, Seq::empty());
}

/// Whether the optional command `x` is `y` with each flag (`-`, `>`, `@`) set
/// when `y` or the composing command `c` sets it.
pub open spec fn has_flags_of(x: Option<CommandExecutionView>, y: Option<CommandExecutionView>, c: CommandExecutionView) -> bool {
    match (x, y) {
        (Some(a), Some(b)) => {
            &&& a.action == b.action
            &&& a.ignore_errors == (b.ignore_errors || c.ignore_errors)
            &&& a.run_in_parallel == (b.run_in_parallel || c.run_in_parallel)
            &&& a.silent_mode == (b.silent_mode || c.silent_mode)
        },
        (None, None) => true,
        _ => false,
    }
}

/// Law: an inlined script inherits the prefixes of the line that runs it. When
/// a line only runs the script `name` (its command for the target system being
/// `c`) and flattening the line succeeds, the result has one line for each
/// flattened line of the script, and each of their commands is the script's
/// command with `-`, `>` and `@` set whenever that command or `c` sets them:
/// a `-<scripts::test>` line makes every command of `test` ignore errors.
pub proof fn lemma_composed_lines_inherit_prefixes(
    os: TargetOs,
    layers: Seq<Result<CachedProjectConfigView, Seq<char>>>,
    p: PlatformExecutionView,
    stack: Seq<(bool, Seq<char>)>,
)
    requires
        composition_of(os, p) is Some,
        flat_line(os, layers, p, stack) is Ok,
    ensures
        ({
            let name = composition_of(os, p)->Some_0.0;
            let c = composition_of(os, p)->Some_0.1;
            let ls = flat_line(os, layers, p, stack)->Ok_0;
            &&& script_in(layers, name) matches Ok(Some(_))
            &&& ({
                let sub = script_in(layers, name)->Ok_0->Some_0;
                let fc = flat_cmds(os, layers, sub.commands, stack.push((false, name)));
                &&& fc is Ok
                &&& ls.len() == fc->Ok_0.len()
                &&& forall|i: int|
                    0 <= i < ls.len() ==> {
                        &&& has_flags_of(#[trigger] ls[i].default, fc->Ok_0[i].default, c)
                        &&& has_flags_of(ls[i].windows, fc->Ok_0[i].windows, c)
                        &&& has_flags_of(ls[i].linux, fc->Ok_0[i].linux, c)
                        &&& has_flags_of(ls[i].macos, fc->Ok_0[i].macos, c)
                    }
            })
        }),
{
}

/// Law: flattening detects a script that runs itself. When a line runs the
/// script `name` and that script's first line runs `name` again, flattening
/// the line fails with the cycle on `name`.
pub proof fn lemma_self_composition_is_circular(
    os: TargetOs,
    layers: Seq<Result<CachedProjectConfigView, Seq<char>>>,
    p: PlatformExecutionView,
    name: Seq<char>,
)
    requires
        composition_of(os, p) is Some,
        composition_of(os, p)->Some_0.0 == name,
        script_in(layers, name) matches Ok(Some(sub)) && sub.commands.len() > 0 && composition_of(
            os,
            sub.commands[0],
        ) is Some && composition_of(os, sub.commands[0])->Some_0.0 == name,
    ensures
        flat_line(os, layers, p, Seq::empty()) == Err::<Seq<PlatformExecutionView>, FlattenErrorView>(
            FlattenErrorView::Circular { is_var: false, name },
        ),
{
    let key = (false, name);
    let sub = script_in(layers, name)->Ok_0->Some_0;
    let stack = Seq::<(bool, Seq<char>)>::empty().push(key);
    assert(stack.contains(key)) by {
        assert(stack[0] == key);
    }
    assert(flat_line(os, layers, sub.commands[0], stack) == Err::<Seq<PlatformExecutionView>, FlattenErrorView>(
        FlattenErrorView::Circular { is_var: false, name },
    ));
    assert(flat_cmds(os, layers, sub.commands, stack) == Err::<Seq<PlatformExecutionView>, FlattenErrorView>(
        FlattenErrorView::Circular { is_var: false, name },
    ));
}

} // verus!
