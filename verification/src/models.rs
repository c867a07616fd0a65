//! Data models of the library: the user-facing `axes.toml` syntax, the compiled
//! platform-agnostic AST, the project index, and their mathematical views.
//!
//! The tables of the configuration files are held as association lists
//! (`Vec<(key, value)>`); project identities are 128-bit integers.

use vstd::prelude::*;

verus! {

// =========================================================================
// === Platforms
// =========================================================================

/// The operating systems the compiled AST distinguishes.
#[derive(Clone, Copy, Debug, PartialEq, Eq, Structural)]
pub enum TargetOs {
    Windows,
    Linux,
    MacOs,
    Other,
}

// =========================================================================
// === User-facing TOML syntax
// =========================================================================

/// A platform-specific dictionary for a command or a variable's value.
#[derive(Debug, Clone, Default)]
pub struct PlatformCommand {
    pub default: Option<String>,
    pub windows: Option<String>,
    pub linux: Option<String>,
    pub macos: Option<String>,
}

/// One line of a script: a simple string or a platform block.
#[derive(Debug, Clone)]
pub enum TomlCommand {
    Simple(String),
    Platform(PlatformCommand),
}

/// `[scripts.x] desc = "..." run = ...`
#[derive(Debug)]
pub struct TomlScriptExtended {
    pub desc: Option<String>,
    pub run: Box<TomlScript>,
}

/// `[scripts.x] desc = "..." windows = "..." linux = "..."`
#[derive(Debug, Clone)]
pub struct TomlScriptPlatformDirect {
    pub desc: Option<String>,
    pub platform: PlatformCommand,
}

/// The flexible syntax of a script in `axes.toml`.
#[derive(Debug)]
pub enum TomlScript {
    Simple(String),
    Sequence(Vec<TomlCommand>),
    Platform(PlatformCommand),
    PlatformDirect(TomlScriptPlatformDirect),
    Extended(TomlScriptExtended),
}

/// The value part of a variable: a string or a platform block.
#[derive(Debug, Clone)]
pub enum TomlVarValue {
    Simple(String),
    Platform(PlatformCommand),
}

/// `[vars.x] desc = "..." value = ...`
#[derive(Debug, Clone)]
pub struct TomlVarExtended {
    pub desc: Option<String>,
    pub value: TomlVarValue,
}

/// The flexible syntax of a variable in `axes.toml`.
#[derive(Debug, Clone)]
pub enum TomlVar {
    Simple(String),
    Extended(TomlVarExtended),
}

/// `[options.open_with]`: a default key and named commands, in file order.
#[derive(Debug, Default)]
pub struct TomlOpenWithConfig {
    pub default: Option<String>,
    pub commands: Vec<(String, TomlScript)>,
}

/// The `[options]` section of `axes.toml`.
#[derive(Debug, Default)]
pub struct OptionsConfig {
    pub at_start: Option<TomlScript>,
    pub at_exit: Option<TomlScript>,
    pub shell: Option<String>,
    pub open_with: TomlOpenWithConfig,
    pub cache_dir: Option<String>,
    pub prompt: Option<String>,
}

/// The top-level structure of an `axes.toml` file.
#[derive(Debug, Default)]
pub struct ProjectConfig {
    pub name: Option<String>,
    pub version: Option<String>,
    pub description: Option<String>,
    pub scripts: Vec<(String, TomlScript)>,
    pub options: OptionsConfig,
    pub vars: Vec<(String, TomlVar)>,
    pub env: Vec<(String, String)>,
}

// =========================================================================
// === Compiled AST
// =========================================================================

/// `<params::0>` or `<params::name>`.
#[derive(Debug, Clone)]
pub enum ParameterKind {
    Positional { index: usize },
    Named { name: String },
}

/// Modifiers of a parameter token (`required`, `default`, `alias`, `map`, `literal`).
#[derive(Debug, Clone, Default)]
pub struct ParameterModifiers {
    pub required: bool,
    pub default_value: Option<String>,
    pub alias: Option<String>,
    pub map: Option<String>,
    pub literal: bool,
}

/// The contract of one parameter token found in a script.
#[derive(Debug, Clone)]
pub struct ParameterDef {
    pub kind: ParameterKind,
    pub modifiers: ParameterModifiers,
    pub original_token: String,
}

/// A dynamic execution token (`<run('...')>`).
#[derive(Debug, Clone)]
pub enum RunSpec {
    Literal(String),
}

/// Supported ANSI styles, used by the `<#style>` token.
#[derive(Debug, Clone, Copy, PartialEq, Eq, Structural)]
pub enum AnsiStyle {
    Reset,
    Bold,
    Dim,
    Italic,
    Underline,
    Black,
    Red,
    Green,
    Yellow,
    Blue,
    Magenta,
    Cyan,
    White,
    BrightBlack,
    BrightRed,
    BrightGreen,
    BrightYellow,
    BrightBlue,
    BrightMagenta,
    BrightCyan,
    BrightWhite,
}

/// One component of a compiled command template.
#[derive(Debug, Clone)]
pub enum TemplateComponent {
    Literal(String),
    Parameter(ParameterDef),
    GenericParams { literal: bool },
    Run(RunSpec),
    Path,
    Name,
    Uuid,
    Version,
    Color(AnsiStyle),
    Script(String),
    Var(String),
}

/// Execute a command or print a line.
#[derive(Debug, Clone)]
pub enum CommandAction {
    Execute(Vec<TemplateComponent>),
    Print(Vec<TemplateComponent>),
}

/// A compiled command line with its execution modifiers.
#[derive(Debug, Clone)]
pub struct CommandExecution {
    pub action: CommandAction,
    pub ignore_errors: bool,
    pub run_in_parallel: bool,
    pub silent_mode: bool,
}

/// One compiled command for each platform that defines it.
#[derive(Debug, Clone, Default)]
pub struct PlatformExecution {
    pub default: Option<CommandExecution>,
    pub windows: Option<CommandExecution>,
    pub linux: Option<CommandExecution>,
    pub macos: Option<CommandExecution>,
}

/// A compiled script: a description and a sequence of platform blocks.
#[derive(Debug, Clone, Default)]
pub struct Task {
    pub desc: Option<String>,
    pub commands: Vec<PlatformExecution>,
}

/// A task with the command of the current platform selected for each line.
#[derive(Debug, Clone, Default)]
pub struct PlatformSpecializedTask {
    pub desc: Option<String>,
    pub commands: Vec<CommandExecution>,
}

/// A compiled variable: a description and a single platform block.
#[derive(Debug, Clone, Default)]
pub struct CachedVar {
    pub desc: Option<String>,
    pub value: PlatformExecution,
}

/// Compiled `[options.open_with]`.
#[derive(Debug, Clone, Default)]
pub struct CachedOpenWithConfig {
    pub default: Option<String>,
    pub commands: Vec<(String, Task)>,
}

/// Compiled `[options]`.
#[derive(Debug, Clone, Default)]
pub struct CachedOptionsConfig {
    pub at_start: Option<Task>,
    pub at_exit: Option<Task>,
    pub shell: Option<String>,
    pub open_with: CachedOpenWithConfig,
    pub cache_dir: Option<String>,
    pub prompt: Option<String>,
}

/// The compiled content of one `axes.toml` file.
#[derive(Debug, Clone, Default)]
pub struct CachedProjectConfig {
    pub version: Option<String>,
    pub description: Option<String>,
    pub scripts: Vec<(String, Task)>,
    pub vars: Vec<(String, CachedVar)>,
    pub env: Vec<(String, String)>,
    pub options: CachedOptionsConfig,
}

// =========================================================================
// === Views of the compiled AST
// =========================================================================

pub ghost enum ParameterKindView {
    Positional { index: usize },
    Named { name: Seq<char> },
}

pub ghost struct ParameterModifiersView {
    pub required: bool,
    pub default_value: Option<Seq<char>>,
    pub alias: Option<Seq<char>>,
    pub map: Option<Seq<char>>,
    pub literal: bool,
}

pub ghost struct ParameterDefView {
    pub kind: ParameterKindView,
    pub modifiers: ParameterModifiersView,
    pub original_token: Seq<char>,
}

pub ghost enum TemplateComponentView {
    Literal(Seq<char>),
    Parameter(ParameterDefView),
    GenericParams { literal: bool },
    Run(Seq<char>),
    Path,
    Name,
    Uuid,
    Version,
    Color(AnsiStyle),
    Script(Seq<char>),
    Var(Seq<char>),
}

pub ghost enum CommandActionView {
    Execute(Seq<TemplateComponentView>),
    Print(Seq<TemplateComponentView>),
}

pub ghost struct CommandExecutionView {
    pub action: CommandActionView,
    pub ignore_errors: bool,
    pub run_in_parallel: bool,
    pub silent_mode: bool,
}

pub ghost struct PlatformExecutionView {
    pub default: Option<CommandExecutionView>,
    pub windows: Option<CommandExecutionView>,
    pub linux: Option<CommandExecutionView>,
    pub macos: Option<CommandExecutionView>,
}

pub ghost struct TaskView {
    pub desc: Option<Seq<char>>,
    pub commands: Seq<PlatformExecutionView>,
}

pub ghost struct CachedVarView {
    pub desc: Option<Seq<char>>,
    pub value: PlatformExecutionView,
}

/// The view of an optional list of strings.
pub open spec fn opt_str_seq(o: Option<Vec<String>>) -> Option<Seq<Seq<char>>> {
    match o {
        Some(v) => Some(v@.map_values(|s: String| s@)),
        None => None,
    }
}

/// The view of an optional string.
pub open spec fn opt_str(o: Option<String>) -> Option<Seq<char>> {
    match o {
        Some(s) => Some(s@),
        None => None,
    }
}

impl View for ParameterKind {
    type V = ParameterKindView;

    open spec fn view(&self) -> ParameterKindView {
        match self {
            ParameterKind::Positional { index } => ParameterKindView::Positional { index: *index },
            ParameterKind::Named { name } => ParameterKindView::Named { name: name@ },
        }
    }
}

impl View for ParameterModifiers {
    type V = ParameterModifiersView;

    open spec fn view(&self) -> ParameterModifiersView {
        ParameterModifiersView {
            required: self.required,
            default_value: opt_str(self.default_value),
            alias: opt_str(self.alias),
            map: opt_str(self.map),
            literal: self.literal,
        }
    }
}

impl View for ParameterDef {
    type V = ParameterDefView;

    open spec fn view(&self) -> ParameterDefView {
        ParameterDefView {
            kind: self.kind@,
            modifiers: self.modifiers@,
            original_token: self.original_token@,
        }
    }
}

impl View for TemplateComponent {
    type V = TemplateComponentView;

    open spec fn view(&self) -> TemplateComponentView {
        match self {
            TemplateComponent::Literal(s) => TemplateComponentView::Literal(s@),
            TemplateComponent::Parameter(p) => TemplateComponentView::Parameter(p@),
            TemplateComponent::GenericParams { literal } => TemplateComponentView::GenericParams {
                literal: *literal,
            },
            TemplateComponent::Run(RunSpec::Literal(s)) => TemplateComponentView::Run(s@),
            TemplateComponent::Path => TemplateComponentView::Path,
            TemplateComponent::Name => TemplateComponentView::Name,
            TemplateComponent::Uuid => TemplateComponentView::Uuid,
            TemplateComponent::Version => TemplateComponentView::Version,
            TemplateComponent::Color(c) => TemplateComponentView::Color(*c),
            TemplateComponent::Script(s) => TemplateComponentView::Script(s@),
            TemplateComponent::Var(s) => TemplateComponentView::Var(s@),
        }
    }
}

/// The view of a template: the view of each component.
pub open spec fn template_view(t: Seq<TemplateComponent>) -> Seq<TemplateComponentView> {
    t.map_values(|c: TemplateComponent| c@)
}

impl View for CommandAction {
    type V = CommandActionView;

    open spec fn view(&self) -> CommandActionView {
        match self {
            CommandAction::Execute(t) => CommandActionView::Execute(template_view(t@)),
            CommandAction::Print(t) => CommandActionView::Print(template_view(t@)),
        }
    }
}

impl View for CommandExecution {
    type V = CommandExecutionView;

    open spec fn view(&self) -> CommandExecutionView {
        CommandExecutionView {
            action: self.action@,
            ignore_errors: self.ignore_errors,
            run_in_parallel: self.run_in_parallel,
            silent_mode: self.silent_mode,
        }
    }
}

/// The view of an optional command.
pub open spec fn opt_cmd(o: Option<CommandExecution>) -> Option<CommandExecutionView> {
    match o {
        Some(c) => Some(c@),
        None => None,
    }
}

impl View for PlatformExecution {
    type V = PlatformExecutionView;

    open spec fn view(&self) -> PlatformExecutionView {
        PlatformExecutionView {
            default: opt_cmd(self.default),
            windows: opt_cmd(self.windows),
            linux: opt_cmd(self.linux),
            macos: opt_cmd(self.macos),
        }
    }
}

/// The view of a sequence of platform blocks.
pub open spec fn plat_seq_view(s: Seq<PlatformExecution>) -> Seq<PlatformExecutionView> {
    s.map_values(|p: PlatformExecution| p@)
}

impl View for Task {
    type V = TaskView;

    open spec fn view(&self) -> TaskView {
        TaskView { desc: opt_str(self.desc), commands: plat_seq_view(self.commands@) }
    }
}

impl View for CachedVar {
    type V = CachedVarView;

    open spec fn view(&self) -> CachedVarView {
        CachedVarView { desc: opt_str(self.desc), value: self.value@ }
    }
}

/// The view of an association list of strings.
pub open spec fn str_pairs_view(s: Seq<(String, String)>) -> Seq<(Seq<char>, Seq<char>)> {
    s.map_values(|p: (String, String)| (p.0@, p.1@))
}

/// The view of an association list of tasks.
pub open spec fn tasks_view(s: Seq<(String, Task)>) -> Seq<(Seq<char>, TaskView)> {
    s.map_values(|p: (String, Task)| (p.0@, p.1@))
}

/// The view of an association list of variables.
pub open spec fn vars_view(s: Seq<(String, CachedVar)>) -> Seq<(Seq<char>, CachedVarView)> {
    s.map_values(|p: (String, CachedVar)| (p.0@, p.1@))
}

/// The view of an optional task.
pub open spec fn opt_task(o: Option<Task>) -> Option<TaskView> {
    match o {
        Some(t) => Some(t@),
        None => None,
    }
}

// =========================================================================
// === Project index
// =========================================================================

/// A project's entry in the global index. Project identities are 128-bit UUIDs;
/// the nil UUID (0) is the global project.
#[derive(Debug, Clone, Default)]
pub struct IndexEntry {
    pub name: String,
    pub path: String,
    pub parent: Option<u128>,
    pub config_hash: Option<String>,
    pub cache_dir: Option<String>,
    pub last_used_child: Option<u128>,
}

/// The global index of registered projects and aliases. Each UUID occurs at most
/// once in `projects` and each alias name at most once in `aliases`.
#[derive(Debug, Clone, Default)]
pub struct GlobalIndex {
    pub projects: Vec<(u128, IndexEntry)>,
    pub aliases: Vec<(String, u128)>,
    pub last_used: Option<u128>,
}

/// A project's local identity (`.axes/project_ref.bin`).
#[derive(Debug, Clone)]
pub struct ProjectRef {
    pub self_uuid: u128,
    pub parent_uuid: Option<u128>,
    pub name: String,
}

/// A shell configured in `shells.toml`.
#[derive(Debug, Clone)]
pub struct ShellConfig {
    pub path: String,
    pub interactive_args: Option<Vec<String>>,
}

/// The content of `shells.toml`, in file order.
#[derive(Debug, Clone, Default)]
pub struct ShellsConfig {
    pub shells: Vec<(String, ShellConfig)>,
}

pub ghost struct IndexEntryView {
    pub name: Seq<char>,
    pub path: Seq<char>,
    pub parent: Option<u128>,
    pub config_hash: Option<Seq<char>>,
    pub cache_dir: Option<Seq<char>>,
    pub last_used_child: Option<u128>,
}

impl View for IndexEntry {
    type V = IndexEntryView;

    open spec fn view(&self) -> IndexEntryView {
        IndexEntryView {
            name: self.name@,
            path: self.path@,
            parent: self.parent,
            config_hash: opt_str(self.config_hash),
            cache_dir: opt_str(self.cache_dir),
            last_used_child: self.last_used_child,
        }
    }
}

pub ghost struct GlobalIndexView {
    pub projects: Seq<(u128, IndexEntryView)>,
    pub aliases: Seq<(Seq<char>, u128)>,
    pub last_used: Option<u128>,
}

impl View for GlobalIndex {
    type V = GlobalIndexView;

    open spec fn view(&self) -> GlobalIndexView {
        GlobalIndexView {
            projects: self.projects@.map_values(|p: (u128, IndexEntry)| (p.0, p.1@)),
            aliases: self.aliases@.map_values(|a: (String, u128)| (a.0@, a.1)),
            last_used: self.last_used,
        }
    }
}

/// The UUID of the virtual global project.
pub open spec fn global_uuid() -> u128 {
    0
}

impl GlobalIndexView {
    /// Each project and each alias is listed once.
    pub open spec fn wf(self) -> bool {
        &&& forall|i: int, j: int|
            0 <= i < j < self.projects.len() ==> (#[trigger] self.projects[i]).0 != (
            #[trigger] self.projects[j]).0
        &&& forall|i: int, j: int|
            0 <= i < j < self.aliases.len() ==> (#[trigger] self.aliases[i]).0 != (
            #[trigger] self.aliases[j]).0
    }

    /// Whether `u` is registered.
    pub open spec fn has(self, u: u128) -> bool {
        exists|i: int| 0 <= i < self.projects.len() && (#[trigger] self.projects[i]).0 == u
    }

    /// The entry of `u`, if registered.
    pub open spec fn entry(self, u: u128) -> Option<IndexEntryView> {
        if self.has(u) {
            let i = choose|i: int| 0 <= i < self.projects.len() && (#[trigger] self.projects[i]).0 == u;
            Some(self.projects[i].1)
        } else {
            None
        }
    }

    /// The project an alias points to, if the alias exists.
    pub open spec fn alias(self, name: Seq<char>) -> Option<u128> {
        if exists|i: int| 0 <= i < self.aliases.len() && (#[trigger] self.aliases[i]).0 == name {
            let i = choose|i: int| 0 <= i < self.aliases.len() && (#[trigger] self.aliases[i]).0 == name;
            Some(self.aliases[i].1)
        } else {
            None
        }
    }

    /// The parent of `u`, if `u` is registered and has one.
    pub open spec fn parent_of(self, u: u128) -> Option<u128> {
        match self.entry(u) {
            Some(e) => e.parent,
            None => None,
        }
    }

    /// The `n`-th ancestor of `u` (`u` itself for `n == 0`), following parent
    /// links through registered projects.
    pub open spec fn ancestor(self, u: u128, n: nat) -> Option<u128>
        decreases n,
    {
        if n == 0 {
            Some(u)
        } else {
            match self.ancestor(u, (n - 1) as nat) {
                Some(a) => self.parent_of(a),
                None => None,
            }
        }
    }

    /// Whether `d` lies strictly below `a`: within as many parent steps as there
    /// are projects, the chain of `d` reaches `a`.
    pub open spec fn is_descendant(self, d: u128, a: u128) -> bool {
        self.has(d) && exists|k: nat| 1 <= k <= self.projects.len() && #[trigger] self.ancestor(d, k) == Some(a)
    }

    /// No project is its own ancestor.
    pub open spec fn acyclic(self) -> bool {
        forall|u: u128| #[trigger] self.has(u) ==> !self.is_descendant(u, u)
    }
}

/// Equality of optional strings.
pub fn opt_str_eq(a: &Option<String>, b: &Option<String>) -> (r: bool)
    ensures
        r == (opt_str(*a) == opt_str(*b)),
{
    match (a, b) {
        (Some(x), Some(y)) => crate::text::str_eq(x.as_str(), y.as_str()),
        (None, None) => true,
        _ => false,
    }
}

/// Equality of index entries.
pub fn entry_eq(a: &IndexEntry, b: &IndexEntry) -> (r: bool)
    ensures
        r == (a@ == b@),
{
    crate::text::str_eq(a.name.as_str(), b.name.as_str()) && crate::text::str_eq(
        a.path.as_str(),
        b.path.as_str(),
    ) && a.parent == b.parent && opt_str_eq(&a.config_hash, &b.config_hash) && opt_str_eq(
        &a.cache_dir,
        &b.cache_dir,
    ) && a.last_used_child == b.last_used_child
}

/// A copy of an index entry.
pub fn copy_entry(e: &IndexEntry) -> (r: IndexEntry)
    ensures
        r@ == e@,
{
    IndexEntry {
        name: e.name.clone(),
        path: e.path.clone(),
        parent: e.parent,
        config_hash: match &e.config_hash {
            Some(s) => Some(s.clone()),
            None => None,
        },
        cache_dir: match &e.cache_dir {
            Some(s) => Some(s.clone()),
            None => None,
        },
        last_used_child: e.last_used_child,
    }
}

// =========================================================================
// === Views of compiled layers
// =========================================================================

pub ghost struct CachedOptionsView {
    pub at_start: Option<TaskView>,
    pub at_exit: Option<TaskView>,
    pub shell: Option<Seq<char>>,
    pub open_with_default: Option<Seq<char>>,
    pub open_with_commands: Seq<(Seq<char>, TaskView)>,
    pub cache_dir: Option<Seq<char>>,
    pub prompt: Option<Seq<char>>,
}

pub ghost struct CachedProjectConfigView {
    pub version: Option<Seq<char>>,
    pub description: Option<Seq<char>>,
    pub scripts: Seq<(Seq<char>, TaskView)>,
    pub vars: Seq<(Seq<char>, CachedVarView)>,
    pub env: Seq<(Seq<char>, Seq<char>)>,
    pub options: CachedOptionsView,
}

impl View for CachedProjectConfig {
    type V = CachedProjectConfigView;

    open spec fn view(&self) -> CachedProjectConfigView {
        CachedProjectConfigView {
            version: opt_str(self.version),
            description: opt_str(self.description),
            scripts: tasks_view(self.scripts@),
            vars: vars_view(self.vars@),
            env: str_pairs_view(self.env@),
            options: CachedOptionsView {
                at_start: opt_task(self.options.at_start),
                at_exit: opt_task(self.options.at_exit),
                shell: opt_str(self.options.shell),
                open_with_default: opt_str(self.options.open_with.default),
                open_with_commands: tasks_view(self.options.open_with.commands@),
                cache_dir: opt_str(self.options.cache_dir),
                prompt: opt_str(self.options.prompt),
            },
        }
    }
}

// =========================================================================
// === Copies with their views
// =========================================================================

/// A copy of an optional string.
pub fn copy_opt_str(o: &Option<String>) -> (r: Option<String>)
    ensures
        opt_str(r) == opt_str(*o),
{
    match o {
        Some(s) => Some(s.clone()),
        None => None,
    }
}

/// A copy of a parameter definition.
pub fn copy_param(d: &ParameterDef) -> (r: ParameterDef)
    ensures
        r@ == d@,
{
    ParameterDef {
        kind: match &d.kind {
            ParameterKind::Positional { index } => ParameterKind::Positional { index: *index },
            ParameterKind::Named { name } => ParameterKind::Named { name: name.clone() },
        },
        modifiers: ParameterModifiers {
            required: d.modifiers.required,
            default_value: copy_opt_str(&d.modifiers.default_value),
            alias: copy_opt_str(&d.modifiers.alias),
            map: copy_opt_str(&d.modifiers.map),
            literal: d.modifiers.literal,
        },
        original_token: d.original_token.clone(),
    }
}

/// A copy of a template component.
pub fn copy_component(c: &TemplateComponent) -> (r: TemplateComponent)
    ensures
        r@ == c@,
{
    match c {
        TemplateComponent::Literal(s) => TemplateComponent::Literal(s.clone()),
        TemplateComponent::Parameter(d) => TemplateComponent::Parameter(copy_param(d)),
        TemplateComponent::GenericParams { literal } => TemplateComponent::GenericParams {
            literal: *literal,
        },
        TemplateComponent::Run(RunSpec::Literal(s)) => TemplateComponent::Run(
            RunSpec::Literal(s.clone()),
        ),
        TemplateComponent::Path => TemplateComponent::Path,
        TemplateComponent::Name => TemplateComponent::Name,
        TemplateComponent::Uuid => TemplateComponent::Uuid,
        TemplateComponent::Version => TemplateComponent::Version,
        TemplateComponent::Color(st) => TemplateComponent::Color(*st),
        TemplateComponent::Script(s) => TemplateComponent::Script(s.clone()),
        TemplateComponent::Var(s) => TemplateComponent::Var(s.clone()),
    }
}

/// A copy of a template.
pub fn copy_template(t: &Vec<TemplateComponent>) -> (r: Vec<TemplateComponent>)
    ensures
        template_view(r@) == template_view(t@),
{
    let mut out: Vec<TemplateComponent> = Vec::new();
    let mut i: usize = 0;
    while i < t.len()
        invariant
            i <= t@.len(),
            template_view(out@) =~= template_view(t@.subrange(0, i as int)),
        decreases t@.len() - i,
    {
        let ghost before = out@;
        out.push(copy_component(&t[i]));
        assert(template_view(out@) =~= template_view(before).push(t@[i as int]@));
        assert(template_view(t@.subrange(0, i + 1)) =~= template_view(t@.subrange(0, i as int)).push(
            t@[i as int]@,
        ));
        i = i + 1;
    }
    assert(t@.subrange(0, i as int) =~= t@);
    out
}

/// A copy of a command.
pub fn copy_cmd(c: &CommandExecution) -> (r: CommandExecution)
    ensures
        r@ == c@,
{
    CommandExecution {
        action: match &c.action {
            CommandAction::Execute(t) => CommandAction::Execute(copy_template(t)),
            CommandAction::Print(t) => CommandAction::Print(copy_template(t)),
        },
        ignore_errors: c.ignore_errors,
        run_in_parallel: c.run_in_parallel,
        silent_mode: c.silent_mode,
    }
}

/// A copy of an optional command.
pub fn copy_opt_cmd(o: &Option<CommandExecution>) -> (r: Option<CommandExecution>)
    ensures
        opt_cmd(r) == opt_cmd(*o),
{
    match o {
        Some(c) => Some(copy_cmd(c)),
        None => None,
    }
}

/// A copy of a platform block.
pub fn copy_plat(p: &PlatformExecution) -> (r: PlatformExecution)
    ensures
        r@ == p@,
{
    PlatformExecution {
        default: copy_opt_cmd(&p.default),
        windows: copy_opt_cmd(&p.windows),
        linux: copy_opt_cmd(&p.linux),
        macos: copy_opt_cmd(&p.macos),
    }
}

/// A copy of a task.
pub fn copy_task(t: &Task) -> (r: Task)
    ensures
        r@ == t@,
{
    let mut out: Vec<PlatformExecution> = Vec::new();
    let mut i: usize = 0;
    while i < t.commands.len()
        invariant
            i <= t.commands@.len(),
            plat_seq_view(out@) =~= plat_seq_view(t.commands@.subrange(0, i as int)),
        decreases t.commands@.len() - i,
    {
        let ghost before = out@;
        out.push(copy_plat(&t.commands[i]));
        assert(plat_seq_view(out@) =~= plat_seq_view(before).push(t.commands@[i as int]@));
        assert(plat_seq_view(t.commands@.subrange(0, i + 1)) =~= plat_seq_view(
            t.commands@.subrange(0, i as int),
        ).push(t.commands@[i as int]@));
        i = i + 1;
    }
    assert(t.commands@.subrange(0, i as int) =~= t.commands@);
    Task { desc: copy_opt_str(&t.desc), commands: out }
}

/// A copy of a variable.
pub fn copy_var(v: &CachedVar) -> (r: CachedVar)
    ensures
        r@ == v@,
{
    CachedVar { desc: copy_opt_str(&v.desc), value: copy_plat(&v.value) }
}

// =========================================================================
// === Default configurations
// =========================================================================

impl ProjectConfig {
    /// The default configuration of the global project: `open_with` commands for an
    /// editor, an IDE, the target system's file browser and a terminal, variables
    /// for the first three of those tools, and a prompt.
    pub fn new(os: TargetOs) -> (r: ProjectConfig)
        ensures
            opt_str(r.name) == Some("global"@),
            opt_str(r.version) == Some("0.1.0"@),
            opt_str(r.description) == Some("The global axes project configuration."@),
            r.scripts@.len() == 0,
            r.env@.len() == 0,
            r.options.at_start is None,
            r.options.at_exit is None,
            r.options.shell is None,
            r.options.cache_dir is None,
            opt_str(r.options.prompt) == Some("(axes: <#cyan><name><#reset>) $ "@),
            opt_str(r.options.open_with.default) == Some(
                match os {
                    TargetOs::Windows => "explorer"@,
                    TargetOs::MacOs => "finder"@,
                    _ => "files"@,
                },
            ),
            r.options.open_with.commands@.len() == 4,
            r.options.open_with.commands@[0].0@ == "editor"@,
            r.options.open_with.commands@[0].1 matches TomlScript::Simple(s) && s@
                == "<vars::editor_cmd> \"<path>\""@,
            r.options.open_with.commands@[1].0@ == "idea"@,
            r.options.open_with.commands@[1].1 matches TomlScript::Simple(s) && s@
                == "<vars::idea_cmd> \"<path>\""@,
            r.options.open_with.commands@[2].0@ == match os {
                TargetOs::Windows => "explorer"@,
                TargetOs::MacOs => "finder"@,
                _ => "files"@,
            },
            r.options.open_with.commands@[2].1 matches TomlScript::Simple(s) && s@ == match os {
                TargetOs::Windows => "-explorer \"<path>\""@,
                TargetOs::MacOs => "open \"<path>\""@,
                _ => "xdg-open \"<path>\""@,
            },
            r.options.open_with.commands@[3].0@ == "shell"@,
            r.options.open_with.commands@[3].1 matches TomlScript::Simple(s) && s@ == match os {
                TargetOs::Windows => "start cmd.exe /K \"cd /D <path>\""@,
                _ => "<vars::terminal_cmd>"@,
            },
            r.vars@.len() == 3,
            r.vars@[0].0@ == "editor_cmd"@ && (r.vars@[0].1 matches TomlVar::Simple(s) && s@ == "code"@),
            r.vars@[1].0@ == "idea_cmd"@ && (r.vars@[1].1 matches TomlVar::Simple(s) && s@ == "idea"@),
            r.vars@[2].0@ == "terminal_cmd"@ && (r.vars@[2].1 matches TomlVar::Simple(s) && s@
                == "gnome-terminal --working-directory=<path>"@),
    {
        let mut commands: Vec<(String, TomlScript)> = Vec::new();
        commands.push(
            (
                String::from_str("editor"),
                TomlScript::Simple(String::from_str("<vars::editor_cmd> \"<path>\"")),
            ),
        );
        commands.push(
            (String::from_str("idea"), TomlScript::Simple(String::from_str("<vars::idea_cmd> \"<path>\""))),
        );
        let browser = match os {
            TargetOs::Windows => (
                String::from_str("explorer"),
                TomlScript::Simple(String::from_str("-explorer \"<path>\"")),
            ),
            TargetOs::MacOs => (
                String::from_str("finder"),
                TomlScript::Simple(String::from_str("open \"<path>\"")),
            ),
            _ => (
                String::from_str("files"),
                TomlScript::Simple(String::from_str("xdg-open \"<path>\"")),
            ),
        };
        commands.push(browser);
        let terminal = match os {
            TargetOs::Windows => TomlScript::Simple(String::from_str("start cmd.exe /K \"cd /D <path>\"")),
            _ => TomlScript::Simple(String::from_str("<vars::terminal_cmd>")),
        };
        commands.push((String::from_str("shell"), terminal));
        let default = match os {
            TargetOs::Windows => String::from_str("explorer"),
            TargetOs::MacOs => String::from_str("finder"),
            _ => String::from_str("files"),
        };
        let mut vars: Vec<(String, TomlVar)> = Vec::new();
        vars.push((String::from_str("editor_cmd"), TomlVar::Simple(String::from_str("code"))));
        vars.push((String::from_str("idea_cmd"), TomlVar::Simple(String::from_str("idea"))));
        vars.push(
            (
                String::from_str("terminal_cmd"),
                TomlVar::Simple(String::from_str("gnome-terminal --working-directory=<path>")),
            ),
        );
        ProjectConfig {
            name: Some(String::from_str("global")),
            version: Some(String::from_str("0.1.0")),
            description: Some(String::from_str("The global axes project configuration.")),
            scripts: Vec::new(),
            options: OptionsConfig {
                at_start: None,
                at_exit: None,
                shell: None,
                open_with: TomlOpenWithConfig { default: Some(default), commands },
                cache_dir: None,
                prompt: Some(String::from_str("(axes: <#cyan><name><#reset>) $ ")),
            },
            vars,
            env: Vec::new(),
        }
    }

    /// A minimal configuration for a new project: a `test` script, a `GREETING`
    /// variable, and commented-out session hooks.
    pub fn new_for_init(name: &str, version: &str, description: &str) -> (r: ProjectConfig)
        ensures
            opt_str(r.name) == Some(name@),
            opt_str(r.version) == Some(version@),
            opt_str(r.description) == Some(description@),
            r.env@.len() == 0,
            r.scripts@.len() == 1,
            r.scripts@[0].0@ == "test"@,
            r.scripts@[0].1 matches TomlScript::Extended(e) && opt_str(e.desc) == Some(
                "Run a simple test echo command."@,
            ) && (*e.run matches TomlScript::Simple(s) && s@ == "echo \"✅ Test for '<name>' successful!\""@),
            r.vars@.len() == 1,
            r.vars@[0].0@ == "GREETING"@,
            r.vars@[0].1 matches TomlVar::Simple(s) && s@ == "Hello from an axes variable!"@,
            r.options.at_start matches Some(TomlScript::Extended(e)) && opt_str(e.desc) == Some(
                "Commands to run when entering a session (e.g., `source .venv/bin/activate`)"@,
            ) && (*e.run matches TomlScript::Simple(s) && s@ == "# echo 'Entering session...'"@),
            r.options.at_exit matches Some(TomlScript::Extended(e)) && opt_str(e.desc) == Some(
                "Commands to run when exiting a session (e.g., `docker-compose down`)"@,
            ) && (*e.run matches TomlScript::Simple(s) && s@ == "# echo 'Exiting session...'"@),
            r.options.shell is None,
            r.options.cache_dir is None,
            r.options.prompt is None,
            r.options.open_with.default is None,
            r.options.open_with.commands@.len() == 0,
    {
        let test_script = TomlScript::Extended(
            TomlScriptExtended {
                desc: Some(String::from_str("Run a simple test echo command.")),
                run: Box::new(
                    TomlScript::Simple(String::from_str("echo \"✅ Test for '<name>' successful!\"")),
                ),
            },
        );
        let mut scripts: Vec<(String, TomlScript)> = Vec::new();
        scripts.push((String::from_str("test"), test_script));
        let mut vars: Vec<(String, TomlVar)> = Vec::new();
        vars.push(
            (
                String::from_str("GREETING"),
                TomlVar::Simple(String::from_str("Hello from an axes variable!")),
            ),
        );
        let options = OptionsConfig {
            at_start: Some(
                TomlScript::Extended(
                    TomlScriptExtended {
                        desc: Some(
                            String::from_str(
                                "Commands to run when entering a session (e.g., `source .venv/bin/activate`)",
                            ),
                        ),
                        run: Box::new(TomlScript::Simple(String::from_str("# echo 'Entering session...'"))),
                    },
                ),
            ),
            at_exit: Some(
                TomlScript::Extended(
                    TomlScriptExtended {
                        desc: Some(
                            String::from_str(
                                "Commands to run when exiting a session (e.g., `docker-compose down`)",
                            ),
                        ),
                        run: Box::new(TomlScript::Simple(String::from_str("# echo 'Exiting session...'"))),
                    },
                ),
            ),
            shell: None,
            open_with: TomlOpenWithConfig { default: None, commands: Vec::new() },
            cache_dir: None,
            prompt: None,
        };
        ProjectConfig {
            name: Some(String::from_str(name)),
            version: Some(String::from_str(version)),
            description: Some(String::from_str(description)),
            scripts,
            vars,
            options,
            env: Vec::new(),
        }
    }
}

} // verus!
