//! Rendering of command templates into command lines, and the schedule of a
//! task's commands (sequential ones one by one, consecutive parallel ones in
//! batches).
//!
//! A `<run('...')>` token needs the output of a command: rendering stops at the
//! first such token whose output is not known yet and hands back the template
//! of the command to run. The caller renders and runs it, and renders again
//! with one more output; outputs are used in the order of the tokens.

use vstd::prelude::*;
use crate::color::{ansi_code, style_to_ansi_code};
use crate::commons::{wrap_value, wrapped};
use crate::compiler::{tokenize, tokenize_string, TokenError, TokenErrorView};
use crate::handlers::{join_strings, joined};
use crate::models::{
    CommandAction, CommandExecution, PlatformSpecializedTask, RunSpec, TemplateComponent,
    TemplateComponentView, template_view,
};
use crate::parameters::{lookup, opt_view, strs_view, ArgResolver, ResolverView};
use crate::paths::{uuid_text, uuid_to_string};
use crate::resolved::{first_defined, ResolvedConfig};
use crate::text::{owned, push_str, trim, trim_str};

verus! {

/// How deep `<run(...)>` commands may nest inside one another.
pub const MAX_RECURSION_DEPTH: u32 = 32;

/// Why a template cannot be rendered.
#[derive(Debug, Clone)]
pub enum AssembleError {
    /// A layer of the hierarchy failed to load (its message).
    Layer(String),
    /// The command of a `<run>` token is not a valid template.
    Token(TokenError),
    /// A `<scripts::..>` (or `<vars::..>`) token was left in the template.
    Unflattened { is_var: bool, name: String },
    /// `<run(...)>` commands nest deeper than [`MAX_RECURSION_DEPTH`].
    TooDeep { depth: u32 },
}

pub ghost enum AssembleErrorView {
    Layer(Seq<char>),
    Token(TokenErrorView),
    Unflattened { is_var: bool, name: Seq<char> },
    TooDeep { depth: u32 },
}

impl View for AssembleError {
    type V = AssembleErrorView;

    open spec fn view(&self) -> AssembleErrorView {
        match self {
            AssembleError::Layer(m) => AssembleErrorView::Layer(m@),
            AssembleError::Token(e) => AssembleErrorView::Token(e@),
            AssembleError::Unflattened { is_var, name } => AssembleErrorView::Unflattened {
                is_var: *is_var,
                name: name@,
            },
            AssembleError::TooDeep { depth } => AssembleErrorView::TooDeep { depth: *depth },
        }
    }
}

impl AssembleError {
    /// The text of [`Self::message`].
    pub open spec fn message_text(&self) -> Seq<char> {
        match self {
            AssembleError::Layer(m) => m@,
            AssembleError::Token(e) => e.message_text(),
            AssembleError::Unflattened { is_var, name } => "Internal Compiler Error: Unflattened symbolic reference '<"@
                + (if *is_var {
                "vars"@
            } else {
                "scripts"@
            }) + "::"@ + name@ + ">' found during final command assembly."@,
            AssembleError::TooDeep { .. } => "Maximum recursion depth exceeded while rendering nested <run(...)> commands."@,
        }
    }

    /// The message shown to the user.
    pub fn message(&self) -> (r: String)
        ensures
            r@ == self.message_text(),
    {
        match self {
            AssembleError::Layer(m) => m.clone(),
            AssembleError::Token(e) => e.message(),
            AssembleError::Unflattened { is_var, name } => {
                let mut m = owned(
                    "Internal Compiler Error: Unflattened symbolic reference '<",
                );
                push_str(
                    &mut m,
                    if *is_var {
                        "vars"
                    } else {
                        "scripts"
                    },
                );
                push_str(&mut m, "::");
                push_str(&mut m, name.as_str());
                push_str(&mut m, ">' found during final command assembly.");
                m
            },
            AssembleError::TooDeep { .. } => owned(
                "Maximum recursion depth exceeded while rendering nested <run(...)> commands.",
            ),
        }
    }
}

/// The result of rendering: the command line, or the template of the command
/// whose output the next `<run>` token needs.
#[derive(Debug)]
pub enum Assembly {
    Done(String),
    NeedRun(Vec<TemplateComponent>),
}

pub ghost enum AssemblyView {
    Done(Seq<char>),
    NeedRun(Seq<TemplateComponentView>),
}

impl View for Assembly {
    type V = AssemblyView;

    open spec fn view(&self) -> AssemblyView {
        match self {
            Assembly::Done(s) => AssemblyView::Done(s@),
            Assembly::NeedRun(t) => AssemblyView::NeedRun(template_view(t@)),
        }
    }
}

/// The arguments of the generic `<params>` token, space-separated (each quoted
/// for `<params(literal)>`).
pub open spec fn generic_text(vals: Seq<Seq<char>>, literal: bool) -> Seq<char> {
    joined(
        if literal {
            vals.map_values(|v: Seq<char>| wrapped(v))
        } else {
            vals
        },
        " "@,
    )
}

/// The text of a component other than `<run>`: a literal as written, a
/// parameter's resolved value (empty without one), the generic arguments, a
/// style's escape code, the project's root, qualified name, UUID or version
/// (empty without one); a symbolic reference is an error.
pub open spec fn component_value(c: TemplateComponentView, config: ResolvedConfig, res: ResolverView) -> Result<
    Seq<char>,
    AssembleErrorView,
> {
    match c {
        TemplateComponentView::Literal(s) => Ok(s),
        TemplateComponentView::Parameter(d) => Ok(
            match lookup(res.resolved, d.original_token) {
                Some(v) => v,
                None => Seq::empty(),
            },
        ),
        TemplateComponentView::GenericParams { literal } => Ok(generic_text(res.unclaimed, literal)),
        TemplateComponentView::Color(style) => Ok(ansi_code(style)),
        TemplateComponentView::Path => Ok(config.project_root@),
        TemplateComponentView::Name => Ok(config.qualified_name@),
        TemplateComponentView::Uuid => Ok(uuid_text(config.uuid)),
        TemplateComponentView::Version => match first_defined(config.layers_spec(), true) {
            Ok(Some(v)) => Ok(v),
            Ok(None) => Ok(Seq::empty()),
            Err(m) => Err(AssembleErrorView::Layer(m)),
        },
        TemplateComponentView::Script(name) => Err(AssembleErrorView::Unflattened { is_var: false, name }),
        TemplateComponentView::Var(name) => Err(AssembleErrorView::Unflattened { is_var: true, name }),
        TemplateComponentView::Run(_) => Ok(Seq::empty()),
    }
}

/// Law: the generic `<params>` token renders the leftover arguments separated
/// by single spaces, each quoted with `<params(literal)>`: nothing for none, the
/// argument for one, and one more argument adds a space and that argument.
pub proof fn lemma_generic_params_spaced(
    config: ResolvedConfig,
    res: ResolverView,
    vals: Seq<Seq<char>>,
    x: Seq<char>,
    literal: bool,
)
    ensures
        ({
            let tok = TemplateComponentView::GenericParams { literal };
            let item = if literal {
                crate::commons::wrapped(x)
            } else {
                x
            };
            &&& component_value(tok, config, ResolverView { unclaimed: Seq::empty(), ..res }) == Ok::<
                Seq<char>,
                AssembleErrorView,
            >(Seq::empty())
            &&& component_value(tok, config, ResolverView { unclaimed: seq![x], ..res }) == Ok::<
                Seq<char>,
                AssembleErrorView,
            >(item)
            &&& vals.len() > 0 ==> component_value(tok, config, ResolverView { unclaimed: vals.push(x), ..res })
                == Ok::<Seq<char>, AssembleErrorView>(
                component_value(tok, config, ResolverView { unclaimed: vals, ..res })->Ok_0 + " "@ + item,
            )
        }),
{
    let f = |v: Seq<char>| crate::commons::wrapped(v);
    assert(Seq::<Seq<char>>::empty().map_values(f) =~= Seq::<Seq<char>>::empty());
    assert(seq![x].map_values(f) =~= seq![f(x)]);
    let pushed = vals.push(x);
    assert(pushed.map_values(f).drop_last() =~= vals.map_values(f));
    assert(pushed.drop_last() =~= vals);
}

/// Rendering from component `i` on, with `k` outputs used and `acc` rendered:
/// a `<run>` token takes the next output, trimmed; without one left, rendering
/// stops with the tokenized command to run.
pub open spec fn assemble_from(
    t: Seq<TemplateComponentView>,
    i: int,
    k: int,
    acc: Seq<char>,
    config: ResolvedConfig,
    res: ResolverView,
    outs: Seq<Seq<char>>,
) -> Result<AssemblyView, AssembleErrorView>
    decreases t.len() - i,
{
    if i < 0 || i >= t.len() {
        Ok(AssemblyView::Done(acc))
    } else {
        match t[i] {
            TemplateComponentView::Run(cmd) => if 0 <= k < outs.len() {
                assemble_from(t, i + 1, k + 1, acc + trim(outs[k]), config, res, outs)
            } else {
                match tokenize(cmd) {
                    Ok(tt) => Ok(AssemblyView::NeedRun(tt)),
                    Err(e) => Err(AssembleErrorView::Token(e)),
                }
            },
            _ => match component_value(t[i], config, res) {
                Ok(s) => assemble_from(t, i + 1, k, acc + s, config, res, outs),
                Err(e) => Err(e),
            },
        }
    }
}

/// The generic arguments, space-separated, each quoted when `literal`.
fn generic_values_text(vals: &Vec<String>, literal: bool) -> (r: String)
    ensures
        r@ == generic_text(strs_view(vals@), literal),
{
    if !literal {
        return join_strings(vals, " ");
    }
    let mut quoted: Vec<String> = Vec::new();
    let mut i: usize = 0;
    while i < vals.len()
        invariant
            i <= vals@.len(),
            strs_view(quoted@) == strs_view(vals@).subrange(0, i as int).map_values(
                |v: Seq<char>| wrapped(v),
            ),
        decreases vals@.len() - i,
    {
        let ghost before = strs_view(quoted@);
        let ghost sv = strs_view(vals@);
        assert(sv[i as int] == vals@[i as int]@);
        quoted.push(wrap_value(vals[i].as_str()));
        assert(strs_view(quoted@) =~= before.push(wrapped(sv[i as int])));
        assert(sv.subrange(0, i + 1).map_values(|v: Seq<char>| wrapped(v)) =~= sv.subrange(
            0,
            i as int,
        ).map_values(|v: Seq<char>| wrapped(v)).push(wrapped(sv[i as int])));
        i = i + 1;
    }
    assert(strs_view(vals@).subrange(0, i as int) =~= strs_view(vals@));
    join_strings(&quoted, " ")
}

/// Renders a template into a command line, given the outputs of the `<run>`
/// tokens met so far (in order); see [`assemble_from`]. `depth` counts the
/// `<run(...)>` commands this template is nested in: past
/// [`MAX_RECURSION_DEPTH`] the template is refused.
pub fn assemble_final_command(
    template: &[TemplateComponent],
    config: &ResolvedConfig,
    resolver: &ArgResolver,
    outputs: &[String],
    depth: u32,
) -> (r: Result<Assembly, AssembleError>)
    ensures
        depth > MAX_RECURSION_DEPTH ==> (r matches Err(AssembleError::TooDeep { depth: d }) && d == depth),
        depth <= MAX_RECURSION_DEPTH ==> match assemble_from(
            template_view(template@),
            0,
            0,
            Seq::empty(),
            *config,
            resolver@,
            strs_view(outputs@),
        ) {
            Ok(a) => r is Ok && r->Ok_0@ == a,
            Err(e) => r is Err && r->Err_0@ == e,
        },
{
    if depth > MAX_RECURSION_DEPTH {
        return Err(AssembleError::TooDeep { depth });
    }
    let ghost t = template_view(template@);
    let ghost outs = strs_view(outputs@);
    let mut acc = String::new();
    let mut k: usize = 0;
    let mut i: usize = 0;
    while i < template.len()
        invariant
            depth <= MAX_RECURSION_DEPTH,
            i <= template@.len(),
            k <= outputs@.len(),
            t == template_view(template@),
            outs == strs_view(outputs@),
            assemble_from(t, 0, 0, Seq::empty(), *config, resolver@, outs) == assemble_from(
                t,
                i as int,
                k as int,
                acc@,
                *config,
                resolver@,
                outs,
            ),
        decreases template@.len() - i,
    {
        assert(t[i as int] == template@[i as int]@);
        match &template[i] {
            TemplateComponent::Run(RunSpec::Literal(cmd)) => {
                if k < outputs.len() {
                    assert(outs[k as int] == outputs@[k as int]@);
                    let o = trim_str(outputs[k].as_str());
                    push_str(&mut acc, o.as_str());
                    k = k + 1;
                } else {
                    return match tokenize_string(cmd.as_str()) {
                        Ok(tt) => Ok(Assembly::NeedRun(tt)),
                        Err(e) => Err(AssembleError::Token(e)),
                    };
                }
            },
            TemplateComponent::Literal(s) => {
                push_str(&mut acc, s.as_str());
            },
            TemplateComponent::Parameter(d) => {
                match resolver.get_specific_value(d.original_token.as_str()) {
                    Some(v) => push_str(&mut acc, v.as_str()),
                    None => {},
                }
            },
            TemplateComponent::GenericParams { literal } => {
                let text = generic_values_text(resolver.get_generic_values(), *literal);
                push_str(&mut acc, text.as_str());
            },
            TemplateComponent::Color(style) => {
                push_str(&mut acc, style_to_ansi_code(*style));
            },
            TemplateComponent::Path => {
                push_str(&mut acc, config.project_root.as_str());
            },
            TemplateComponent::Name => {
                push_str(&mut acc, config.qualified_name.as_str());
            },
            TemplateComponent::Uuid => {
                let id = uuid_to_string(config.uuid);
                push_str(&mut acc, id.as_str());
            },
            TemplateComponent::Version => {
                match config.get_version() {
                    Ok(Some(v)) => push_str(&mut acc, v.as_str()),
                    Ok(None) => {},
                    Err(m) => {
                        return Err(AssembleError::Layer(m));
                    },
                }
            },
            TemplateComponent::Script(name) => {
                return Err(AssembleError::Unflattened { is_var: false, name: name.clone() });
            },
            TemplateComponent::Var(name) => {
                return Err(AssembleError::Unflattened { is_var: true, name: name.clone() });
            },
        }
        i = i + 1;
    }
    Ok(Assembly::Done(acc))
}


// =========================================================================
// === The schedule of a task
// =========================================================================

/// A command waiting in a parallel batch: its line, and its modifiers.
#[derive(Debug, Clone)]
pub struct BatchEntry {
    pub command: String,
    pub ignore_errors: bool,
    pub silent: bool,
}

pub ghost struct BatchEntryView {
    pub command: Seq<char>,
    pub ignore_errors: bool,
    pub silent: bool,
}

impl View for BatchEntry {
    type V = BatchEntryView;

    open spec fn view(&self) -> BatchEntryView {
        BatchEntryView { command: self.command@, ignore_errors: self.ignore_errors, silent: self.silent }
    }
}

/// The views of a batch.
pub open spec fn batch_view(b: Seq<BatchEntry>) -> Seq<BatchEntryView> {
    b.map_values(|e: BatchEntry| e@)
}

/// Whether every command of a batch is silent.
pub fn batch_is_silent(batch: &Vec<BatchEntry>) -> (r: bool)
    ensures
        r == forall|i: int| 0 <= i < batch@.len() ==> (#[trigger] batch@[i]).silent,
{
    let mut i: usize = 0;
    while i < batch.len()
        invariant
            i <= batch@.len(),
            forall|k: int| 0 <= k < i ==> (#[trigger] batch@[k]).silent,
        decreases batch@.len() - i,
    {
        if !batch[i].silent {
            return false;
        }
        i = i + 1;
    }
    true
}

/// What the schedule of a task asks next.
#[derive(Debug)]
pub enum TaskStep {
    /// Run these commands in parallel, then ask again.
    RunBatch(Vec<BatchEntry>),
    /// Render the command at this position, then report it with
    /// [`TaskRunner::rendered`].
    Render(usize),
    /// The task is over.
    Done,
}

/// What to do with a rendered command.
#[derive(Debug)]
pub enum RenderedAction {
    /// Nothing: the command line is blank.
    Skip,
    /// The command joined the parallel batch.
    Batched,
    /// Run this (trimmed) command line now, in the foreground.
    RunNow { command: String, ignore_errors: bool, silent: bool },
    /// Print this line.
    Print(String),
}

/// The schedule of a platform-specialized task: commands in order; a
/// sequential command first runs the pending parallel batch; consecutive
/// parallel commands gather in a batch, run before the next sequential command
/// and at the end.
#[derive(Debug)]
pub struct TaskRunner {
    pub next: usize,
    pub batch: Vec<BatchEntry>,
}

impl TaskRunner {
    /// The schedule before the first command.
    pub fn new() -> (r: TaskRunner)
        ensures
            r.next == 0,
            r.batch@.len() == 0,
    {
        TaskRunner { next: 0, batch: Vec::new() }
    }

    /// The next step of the schedule.
    pub fn next_step(&mut self, task: &PlatformSpecializedTask) -> (r: TaskStep)
        ensures
            final(self).next == old(self).next,
            ({
                let n = old(self).next;
                let b = old(self).batch@;
                let flush = b.len() > 0 && (n >= task.commands@.len()
                    || !task.commands@[n as int].run_in_parallel);
                if flush {
                    r matches TaskStep::RunBatch(x) && batch_view(x@) == batch_view(b)
                        && final(self).batch@.len() == 0
                } else if n < task.commands@.len() {
                    r matches TaskStep::Render(i) && i == n && final(self).batch@ == b
                } else {
                    r matches TaskStep::Done && final(self).batch@ == b
                }
            }),
    {
        let n = self.next;
        let flush = self.batch.len() > 0 && (n >= task.commands.len()
            || !task.commands[n].run_in_parallel);
        if flush {
            let mut out: Vec<BatchEntry> = Vec::new();
            std::mem::swap(&mut out, &mut self.batch);
            TaskStep::RunBatch(out)
        } else if n < task.commands.len() {
            TaskStep::Render(n)
        } else {
            TaskStep::Done
        }
    }

    /// Takes the rendered line of the current command and moves on: a printed
    /// line is printed; a blank command line is skipped; a parallel command
    /// joins the batch as rendered; a sequential one runs now, trimmed.
    pub fn rendered(&mut self, task: &PlatformSpecializedTask, rendered: String) -> (r:
        RenderedAction)
        requires
            old(self).next < task.commands@.len(),
        ensures
            final(self).next == old(self).next + 1,
            ({
                let c = task.commands@[old(self).next as int];
                let b = old(self).batch@;
                match c.action {
                    CommandAction::Print(_) => (r matches RenderedAction::Print(p) && p@ == rendered@)
                        && final(self).batch@ == b,
                    CommandAction::Execute(_) => if trim(rendered@).len() == 0 {
                        (r matches RenderedAction::Skip) && final(self).batch@ == b
                    } else if c.run_in_parallel {
                        (r matches RenderedAction::Batched) && batch_view(final(self).batch@)
                            == batch_view(b).push(
                            BatchEntryView {
                                command: rendered@,
                                ignore_errors: c.ignore_errors,
                                silent: c.silent_mode,
                            },
                        )
                    } else {
                        (r matches RenderedAction::RunNow { command, ignore_errors, silent }
                            && command@ == trim(rendered@) && ignore_errors == c.ignore_errors
                            && silent == c.silent_mode) && final(self).batch@ == b
                    },
                }
            }),
    {
        let n = self.next;
        let _len = task.commands.len();
        self.next = n + 1;
        let c = &task.commands[n];
        match &c.action {
            CommandAction::Print(_) => RenderedAction::Print(rendered),
            CommandAction::Execute(_) => {
                let t = trim_str(rendered.as_str());
                if t.unicode_len() == 0 {
                    RenderedAction::Skip
                } else if c.run_in_parallel {
                    let ghost before = batch_view(self.batch@);
                    self.batch.push(
                        BatchEntry {
                            command: rendered,
                            ignore_errors: c.ignore_errors,
                            silent: c.silent_mode,
                        },
                    );
                    assert(batch_view(self.batch@) =~= before.push(self.batch@.last()@));
                    RenderedAction::Batched
                } else {
                    RenderedAction::RunNow {
                        command: t,
                        ignore_errors: c.ignore_errors,
                        silent: c.silent_mode,
                    }
                }
            },
        }
    }
}

} // verus!
