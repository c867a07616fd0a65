//! Decisions shared by the command handlers: validation of project and alias
//! names, the parameters a script accepts, the plan of a `delete` or
//! `unregister`, the checks before a `link` or a `rename`, and the rendering of
//! templates for display.

use std::sync::Arc;
use vstd::prelude::*;
use crate::color::{lowercase_of, to_lowercase};
use crate::dispatch::{last_index, last_index_of, lemma_last_index_of};
use crate::index_manager::{
    children_names, find_project, get_all_descendants, names_contain, names_under, rename_warning,
    reparent_from,
};
use crate::models::{
    AnsiStyle,
    CommandAction, GlobalIndex, GlobalIndexView, IndexEntryView, ParameterDef, ParameterDefView,
    ParameterKind, PlatformExecution, PlatformExecutionView, Task, TaskView, TemplateComponent,
    TemplateComponentView, CommandExecution, CommandExecutionView, opt_str_eq, template_view,
};
use crate::parameters::{defs_view, strs_view, ArgResolver, ParamError};
use crate::resolved::template_of;
use crate::text::{
    chars_of, is_whitespace, is_ws, owned, push_str, str_eq, string_of, trim, trim_str,
};

verus! {

// =========================================================================
// === Names
// =========================================================================

/// What `char::is_alphanumeric` says of `c` (Unicode `Alphabetic` or `Numeric`).
pub uninterp spec fn alphanumeric(c: char) -> bool;

/// Whether a character is alphanumeric, by `char::is_alphanumeric`.
///
/// Trusted: the result is std's Unicode classification of the argument; nothing
/// more of it is stated.
#[verifier::external_body]
pub(crate) fn is_alphanumeric(c: char) -> (r: bool)
    ensures
        r == alphanumeric(c),
{
    c.is_alphanumeric()
}

/// Whether `s` holds a whitespace character.
pub open spec fn has_ws(s: Seq<char>) -> bool {
    exists|i: int| 0 <= i < s.len() && is_ws(#[trigger] s[i])
}

/// Whether `v` holds a whitespace character.
fn has_whitespace(v: &Vec<char>) -> (r: bool)
    ensures
        r == has_ws(v@),
{
    let mut i: usize = 0;
    while i < v.len()
        invariant
            i <= v@.len(),
            forall|k: int| 0 <= k < i ==> !is_ws(#[trigger] v@[k]),
        decreases v@.len() - i,
    {
        if is_whitespace(v[i]) {
            return true;
        }
        i = i + 1;
    }
    false
}

/// Whether `v` holds `c`.
fn has_char(v: &Vec<char>, c: char) -> (r: bool)
    ensures
        r == v@.contains(c),
{
    let mut i: usize = 0;
    while i < v.len()
        invariant
            i <= v@.len(),
            forall|k: int| 0 <= k < i ==> v@[k] != c,
        decreases v@.len() - i,
    {
        if v[i] == c {
            return true;
        }
        i = i + 1;
    }
    false
}

/// Why a project name is refused.
#[derive(Debug, Clone)]
pub enum NameError {
    Empty,
    ContainsWhitespace,
    InvalidChars,
    Reserved { name: String },
}

pub ghost enum NameErrorView {
    Empty,
    ContainsWhitespace,
    InvalidChars,
    Reserved { name: Seq<char> },
}

impl View for NameError {
    type V = NameErrorView;

    open spec fn view(&self) -> NameErrorView {
        match self {
            NameError::Empty => NameErrorView::Empty,
            NameError::ContainsWhitespace => NameErrorView::ContainsWhitespace,
            NameError::InvalidChars => NameErrorView::InvalidChars,
            NameError::Reserved { name } => NameErrorView::Reserved { name: name@ },
        }
    }
}

impl NameError {
    /// The text of [`Self::message`].
    pub open spec fn message_text(&self) -> Seq<char> {
        match self {
            NameError::Empty => "Project name cannot be empty."@,
            NameError::ContainsWhitespace => "Project name cannot contain whitespace."@,
            NameError::InvalidChars => "Project name cannot contain '/' or '\\'."@,
            NameError::Reserved { name } => "The name '"@ + name@ + "' is reserved."@,
        }
    }

    /// The message shown to the user.
    pub fn message(&self) -> (r: String)
        ensures
            r@ == self.message_text(),
    {
        match self {
            NameError::Empty => owned("Project name cannot be empty."),
            NameError::ContainsWhitespace => owned("Project name cannot contain whitespace."),
            NameError::InvalidChars => owned("Project name cannot contain '/' or '\\'."),
            NameError::Reserved { name } => {
                let mut m = owned("The name '");
                push_str(&mut m, name.as_str());
                push_str(&mut m, "' is reserved.");
                m
            },
        }
    }
}

/// Names reserved for navigation in project contexts.
pub open spec fn reserved_project_name(lower: Seq<char>) -> bool {
    lower == ".."@ || lower == "*"@ || lower == "**"@ || lower == "_"@
}

/// The rules of project names, on the raw input: the trimmed name, or why it
/// is refused (checked in this order).
pub open spec fn project_name_check(raw: Seq<char>) -> Result<Seq<char>, NameErrorView> {
    let name = trim(raw);
    if name.len() == 0 {
        Err(NameErrorView::Empty)
    } else if has_ws(name) {
        Err(NameErrorView::ContainsWhitespace)
    } else if name.contains('/') || name.contains('\\') {
        Err(NameErrorView::InvalidChars)
    } else if reserved_project_name(lowercase_of(name)) {
        Err(NameErrorView::Reserved { name })
    } else {
        Ok(name)
    }
}

/// The warning for a name that does not start with a letter or digit.
pub open spec fn starts_warning(name: Seq<char>) -> Seq<char> {
    "Warning: The name '"@ + name
        + "' starts with a non-alphanumeric character. This is allowed but may cause confusion."@
}

/// The warning for a name that ends with a character other than a letter, a
/// digit or `_`.
pub open spec fn ends_warning(name: Seq<char>) -> Seq<char> {
    "Warning: The name '"@ + name
        + "' ends with a special character. This is allowed but not recommended."@
}

/// The stylistic warnings of an accepted name.
pub open spec fn name_warnings(name: Seq<char>) -> Seq<Seq<char>> {
    (if !alphanumeric(name[0]) {
        seq![starts_warning(name)]
    } else {
        Seq::empty()
    }) + (if !alphanumeric(name.last()) && name.last() != '_' {
        seq![ends_warning(name)]
    } else {
        Seq::empty()
    })
}

/// An accepted project name with its non-blocking warnings.
#[derive(Debug)]
pub struct ValidName {
    pub name: String,
    pub warnings: Vec<String>,
}

/// Validates a project name: trims it, refuses an empty name, whitespace, `/`,
/// `\` and the reserved names `..`, `*`, `**`, `_` (in any case), and warns of a
/// name that starts with a non-alphanumeric character or ends with a special one.
pub fn validate_project_name(raw_name: &str) -> (r: Result<ValidName, NameError>)
    ensures
        match project_name_check(raw_name@) {
            Ok(n) => r is Ok && r->Ok_0.name@ == n && strs_view(r->Ok_0.warnings@)
                == name_warnings(n),
            Err(e) => r is Err && r->Err_0@ == e,
        },
{
    let name = trim_str(raw_name);
    let v = chars_of(name.as_str());
    if v.len() == 0 {
        return Err(NameError::Empty);
    }
    if has_whitespace(&v) {
        return Err(NameError::ContainsWhitespace);
    }
    if has_char(&v, '/') || has_char(&v, '\\') {
        return Err(NameError::InvalidChars);
    }
    let lower = to_lowercase(name.as_str());
    let l = lower.as_str();
    if str_eq(l, "..") || str_eq(l, "*") || str_eq(l, "**") || str_eq(l, "_") {
        return Err(NameError::Reserved { name });
    }
    let mut warnings: Vec<String> = Vec::new();
    if !is_alphanumeric(v[0]) {
        let mut m = owned("Warning: The name '");
        push_str(&mut m, name.as_str());
        push_str(
            &mut m,
            "' starts with a non-alphanumeric character. This is allowed but may cause confusion.",
        );
        warnings.push(m);
    }
    let last = v[v.len() - 1];
    if !is_alphanumeric(last) && last != '_' {
        let mut m = owned("Warning: The name '");
        push_str(&mut m, name.as_str());
        push_str(&mut m, "' ends with a special character. This is allowed but not recommended.");
        warnings.push(m);
    }
    assert(strs_view(warnings@) =~= name_warnings(name@));
    Ok(ValidName { name, warnings })
}

/// Why an alias name is refused.
#[derive(Debug, Clone)]
pub enum AliasNameError {
    Empty,
    InvalidChars { name: String },
    Reserved { name: String },
}

pub ghost enum AliasNameErrorView {
    Empty,
    InvalidChars { name: Seq<char> },
    Reserved { name: Seq<char> },
}

impl View for AliasNameError {
    type V = AliasNameErrorView;

    open spec fn view(&self) -> AliasNameErrorView {
        match self {
            AliasNameError::Empty => AliasNameErrorView::Empty,
            AliasNameError::InvalidChars { name } => AliasNameErrorView::InvalidChars {
                name: name@,
            },
            AliasNameError::Reserved { name } => AliasNameErrorView::Reserved { name: name@ },
        }
    }
}

impl AliasNameError {
    /// The text of [`Self::message`].
    pub open spec fn message_text(&self) -> Seq<char> {
        match self {
            AliasNameError::Empty => "Alias name cannot be empty."@,
            AliasNameError::InvalidChars { name } => "Alias name '"@ + name@
                + "' cannot contain whitespace, '/' or '\\'."@,
            AliasNameError::Reserved { name } => "The name '"@ + name@
                + "' is reserved and cannot be used as an alias."@,
        }
    }

    /// The message shown to the user.
    pub fn message(&self) -> (r: String)
        ensures
            r@ == self.message_text(),
    {
        match self {
            AliasNameError::Empty => owned("Alias name cannot be empty."),
            AliasNameError::InvalidChars { name } => {
                let mut m = owned("Alias name '");
                push_str(&mut m, name.as_str());
                push_str(&mut m, "' cannot contain whitespace, '/' or '\\'.");
                m
            },
            AliasNameError::Reserved { name } => {
                let mut m = owned("The name '");
                push_str(&mut m, name.as_str());
                push_str(&mut m, "' is reserved and cannot be used as an alias.");
                m
            },
        }
    }
}

/// Names reserved for navigation, which no alias may take.
pub open spec fn reserved_alias_name(lower: Seq<char>) -> bool {
    lower == "."@ || lower == ".."@ || lower == "*"@ || lower == "**"@ || lower == "_"@
}

/// The rules of alias names: the trimmed input without one trailing `!`, or why
/// it is refused (checked in this order).
pub open spec fn alias_name_check(raw: Seq<char>) -> Result<Seq<char>, AliasNameErrorView> {
    let t = trim(raw);
    let name = if t.len() > 0 && t.last() == '!' {
        t.drop_last()
    } else {
        t
    };
    if name.len() == 0 {
        Err(AliasNameErrorView::Empty)
    } else if has_ws(name) || name.contains('/') || name.contains('\\') {
        Err(AliasNameErrorView::InvalidChars { name })
    } else if reserved_alias_name(lowercase_of(name)) {
        Err(AliasNameErrorView::Reserved { name })
    } else {
        Ok(name)
    }
}

/// Validates an alias name, accepting it with or without its `!` suffix.
pub fn validate_alias_name(raw_name: &str) -> (r: Result<String, AliasNameError>)
    ensures
        match alias_name_check(raw_name@) {
            Ok(n) => r is Ok && r->Ok_0@ == n,
            Err(e) => r is Err && r->Err_0@ == e,
        },
{
    let t = trim_str(raw_name);
    let tv = chars_of(t.as_str());
    let end = if tv.len() > 0 && tv[tv.len() - 1] == '!' {
        tv.len() - 1
    } else {
        tv.len()
    };
    let name = string_of(&tv, 0, end);
    assert(tv@.drop_last() =~= tv@.subrange(0, tv@.len() - 1));
    assert(tv@.subrange(0, tv@.len() as int) =~= tv@);
    let v = chars_of(name.as_str());
    if v.len() == 0 {
        return Err(AliasNameError::Empty);
    }
    if has_whitespace(&v) || has_char(&v, '/') || has_char(&v, '\\') {
        return Err(AliasNameError::InvalidChars { name });
    }
    let lower = to_lowercase(name.as_str());
    let l = lower.as_str();
    if str_eq(l, ".") || str_eq(l, "..") || str_eq(l, "*") || str_eq(l, "**") || str_eq(l, "_") {
        return Err(AliasNameError::Reserved { name });
    }
    Ok(name)
}

/// Whether an alias name is `g`, in any case: the conventional alias of the
/// global project, changed only after confirmation.
pub fn is_global_alias(name: &str) -> (r: bool)
    ensures
        r == (lowercase_of(name@) == "g"@),
{
    let lower = to_lowercase(name);
    str_eq(lower.as_str(), "g")
}

// =========================================================================
// === Prefix of a script header
// =========================================================================

/// The short form of a qualified name shown before a script's name: a name of
/// more than two parts becomes `.../<second to last part>/<last part>`; a name
/// of one or two parts stays whole.
pub open spec fn prefix_path(s: Seq<char>) -> Seq<char> {
    let l = last_index_of(s, '/');
    if l < 0 {
        s
    } else {
        let head = s.subrange(0, l);
        let p = last_index_of(head, '/');
        if p < 0 {
            s
        } else {
            ".../"@ + head.subrange(p + 1, l) + "/"@ + s.subrange(l + 1, s.len() as int)
        }
    }
}

/// Shortens a qualified name for the header of a script run.
pub fn format_prefix_path(qualified_name: &str) -> (r: String)
    ensures
        r@ == prefix_path(qualified_name@),
{
    let v = chars_of(qualified_name);
    proof {
        lemma_last_index_of(v@, '/');
    }
    assert(v@.subrange(0, v@.len() as int) =~= v@);
    match last_index(&v, v.len(), '/') {
        None => owned(qualified_name),
        Some(l) => {
            proof {
                lemma_last_index_of(v@.subrange(0, l as int), '/');
            }
            let start = match last_index(&v, l, '/') {
                Some(p) => p + 1,
                None => {
                    return owned(qualified_name);
                },
            };
            let mut r = owned(".../");
            let second = string_of(&v, start, l);
            push_str(&mut r, second.as_str());
            push_str(&mut r, "/");
            let last = string_of(&v, l + 1, v.len());
            push_str(&mut r, last.as_str());
            assert(v@.subrange(0, l as int).subrange(start as int, l as int) =~= v@.subrange(
                start as int,
                l as int,
            ));
            r
        },
    }
}

// =========================================================================
// === Dry-run flag
// =========================================================================

/// `s` without any occurrence of `x`, in order.
pub open spec fn without(s: Seq<Seq<char>>, x: Seq<char>) -> Seq<Seq<char>>
    decreases s.len(),
{
    if s.len() == 0 {
        Seq::empty()
    } else if s.last() == x {
        without(s.drop_last(), x)
    } else {
        without(s.drop_last(), x).push(s.last())
    }
}

/// Separates the `--dry-run` flag from the parameters of a script: whether it
/// occurs, and the other parameters in order.
pub fn parse_dry_run_flag(params: &[String]) -> (r: (bool, Vec<String>))
    ensures
        r.0 == strs_view(params@).contains("--dry-run"@),
        strs_view(r.1@) == without(strs_view(params@), "--dry-run"@),
{
    let ghost all = strs_view(params@);
    let mut is_dry_run = false;
    let mut rest: Vec<String> = Vec::new();
    let mut i: usize = 0;
    while i < params.len()
        invariant
            i <= params@.len(),
            all == strs_view(params@),
            is_dry_run == all.subrange(0, i as int).contains("--dry-run"@),
            strs_view(rest@) == without(all.subrange(0, i as int), "--dry-run"@),
        decreases params@.len() - i,
    {
        assert(all.subrange(0, i + 1).drop_last() =~= all.subrange(0, i as int));
        assert(all[i as int] == params@[i as int]@);
        if str_eq(params[i].as_str(), "--dry-run") {
            is_dry_run = true;
            assert(all.subrange(0, i + 1)[i as int] == "--dry-run"@);
        } else {
            let ghost before = strs_view(rest@);
            rest.push(params[i].clone());
            assert(strs_view(rest@) =~= before.push(all[i as int]));
            assert forall|k: int| 0 <= k < i + 1 && #[trigger] all.subrange(0, i + 1)[k] == "--dry-run"@ implies
                all.subrange(0, i as int).contains("--dry-run"@) by {
                assert(all.subrange(0, i as int)[k] == all.subrange(0, i + 1)[k]);
            }
        }
        i = i + 1;
    }
    assert(all.subrange(0, i as int) =~= all);
    (is_dry_run, rest)
}


// =========================================================================
// === Parameters of a task
// =========================================================================

/// The parameter definition of a template component, if it is one.
pub open spec fn comp_params(c: TemplateComponentView) -> Seq<ParameterDefView> {
    match c {
        TemplateComponentView::Parameter(d) => seq![d],
        _ => Seq::empty(),
    }
}

/// The parameter definitions of a template, in order.
pub open spec fn template_params(t: Seq<TemplateComponentView>) -> Seq<ParameterDefView>
    decreases t.len(),
{
    if t.len() == 0 {
        Seq::empty()
    } else {
        template_params(t.drop_last()) + comp_params(t.last())
    }
}

/// The parameter definitions of an optional command.
pub open spec fn opt_params(o: Option<CommandExecutionView>) -> Seq<ParameterDefView> {
    match o {
        Some(c) => template_params(template_of(c)),
        None => Seq::empty(),
    }
}

/// The parameter definitions of a platform block: default, Windows, Linux, macOS.
pub open spec fn plat_params(p: PlatformExecutionView) -> Seq<ParameterDefView> {
    opt_params(p.default) + opt_params(p.windows) + opt_params(p.linux) + opt_params(p.macos)
}

/// The parameter definitions of the lines of a task, in order.
pub open spec fn commands_params(cmds: Seq<PlatformExecutionView>) -> Seq<ParameterDefView>
    decreases cmds.len(),
{
    if cmds.len() == 0 {
        Seq::empty()
    } else {
        commands_params(cmds.drop_last()) + plat_params(cmds.last())
    }
}

/// The first occurrence of each element, in order.
pub open spec fn distinct_in_order(s: Seq<ParameterDefView>) -> Seq<ParameterDefView>
    decreases s.len(),
{
    if s.len() == 0 {
        Seq::empty()
    } else {
        let d = distinct_in_order(s.drop_last());
        if d.contains(s.last()) {
            d
        } else {
            d.push(s.last())
        }
    }
}

/// Equality of parameter definitions.
pub fn param_eq(a: &ParameterDef, b: &ParameterDef) -> (r: bool)
    ensures
        r == (a@ == b@),
{
    let same_kind = match (&a.kind, &b.kind) {
        (ParameterKind::Positional { index: i }, ParameterKind::Positional { index: j }) => *i
            == *j,
        (ParameterKind::Named { name: x }, ParameterKind::Named { name: y }) => str_eq(
            x.as_str(),
            y.as_str(),
        ),
        _ => false,
    };
    same_kind && a.modifiers.required == b.modifiers.required && opt_str_eq(
        &a.modifiers.default_value,
        &b.modifiers.default_value,
    ) && opt_str_eq(&a.modifiers.alias, &b.modifiers.alias) && opt_str_eq(
        &a.modifiers.map,
        &b.modifiers.map,
    ) && a.modifiers.literal == b.modifiers.literal && str_eq(
        a.original_token.as_str(),
        b.original_token.as_str(),
    )
}

/// Whether a definition occurs in a list.
fn defs_contain(v: &Vec<ParameterDef>, d: &ParameterDef) -> (r: bool)
    ensures
        r == defs_view(v@).contains(d@),
{
    let mut i: usize = 0;
    while i < v.len()
        invariant
            i <= v@.len(),
            forall|k: int| 0 <= k < i ==> defs_view(v@)[k] != d@,
        decreases v@.len() - i,
    {
        if param_eq(&v[i], d) {
            assert(defs_view(v@)[i as int] == d@);
            return true;
        }
        i = i + 1;
    }
    false
}

/// Appends the parameter definitions of a template.
fn template_params_into(t: &Vec<TemplateComponent>, acc: &mut Vec<ParameterDef>)
    ensures
        defs_view(final(acc)@) == defs_view(old(acc)@) + template_params(template_view(t@)),
{
    let ghost start = defs_view(acc@);
    let ghost tv = template_view(t@);
    let mut i: usize = 0;
    assert(tv.subrange(0, 0) =~= Seq::<TemplateComponentView>::empty());
    assert(defs_view(acc@) =~= start + template_params(tv.subrange(0, 0)));
    while i < t.len()
        invariant
            i <= t@.len(),
            tv == template_view(t@),
            defs_view(acc@) == start + template_params(tv.subrange(0, i as int)),
        decreases t@.len() - i,
    {
        assert(tv.subrange(0, i + 1).drop_last() =~= tv.subrange(0, i as int));
        assert(tv[i as int] == t@[i as int]@);
        match &t[i] {
            TemplateComponent::Parameter(d) => {
                let ghost before = defs_view(acc@);
                acc.push(crate::models::copy_param(d));
                assert(defs_view(acc@) =~= before + seq![d@]);
            },
            _ => {
                assert(comp_params(tv[i as int]) =~= Seq::<ParameterDefView>::empty());
            },
        }
        i = i + 1;
    }
    assert(tv.subrange(0, i as int) =~= tv);
}

/// Appends the parameter definitions of an optional command.
fn opt_params_into(o: &Option<CommandExecution>, acc: &mut Vec<ParameterDef>)
    ensures
        defs_view(final(acc)@) == defs_view(old(acc)@) + opt_params(crate::models::opt_cmd(*o)),
{
    match o {
        Some(c) => match &c.action {
            CommandAction::Execute(t) => template_params_into(t, acc),
            CommandAction::Print(t) => template_params_into(t, acc),
        },
        None => {
            assert(defs_view(acc@) =~= defs_view(acc@) + Seq::<ParameterDefView>::empty());
        },
    }
}

/// Every parameter definition of a task's lines, in order, repeats included.
fn all_parameter_defs(task: &Task) -> (r: Vec<ParameterDef>)
    ensures
        defs_view(r@) == commands_params(task@.commands),
{
    let ghost cmds = task@.commands;
    let mut acc: Vec<ParameterDef> = Vec::new();
    let mut i: usize = 0;
    assert(defs_view(acc@) =~= commands_params(cmds.subrange(0, 0)));
    while i < task.commands.len()
        invariant
            i <= task.commands@.len(),
            cmds == task@.commands,
            cmds.len() == task.commands@.len(),
            defs_view(acc@) == commands_params(cmds.subrange(0, i as int)),
        decreases task.commands@.len() - i,
    {
        assert(cmds.subrange(0, i + 1).drop_last() =~= cmds.subrange(0, i as int));
        assert(cmds[i as int] == task.commands@[i as int]@);
        let p = &task.commands[i];
        let ghost before = defs_view(acc@);
        opt_params_into(&p.default, &mut acc);
        opt_params_into(&p.windows, &mut acc);
        opt_params_into(&p.linux, &mut acc);
        opt_params_into(&p.macos, &mut acc);
        assert(defs_view(acc@) =~= before + plat_params(cmds[i as int]));
        i = i + 1;
    }
    assert(cmds.subrange(0, i as int) =~= cmds);
    acc
}

/// Collects every distinct parameter definition of a task, in the order of
/// first occurrence (line by line; in each line the default, Windows, Linux and
/// macOS commands; in each command its template).
pub fn collect_parameter_defs_from_task(task: &Arc<Task>) -> (r: Vec<ParameterDef>)
    ensures
        defs_view(r@) == distinct_in_order(commands_params(task@.commands)),
{
    let all = all_parameter_defs(&**task);
    let ghost av = defs_view(all@);
    let mut out: Vec<ParameterDef> = Vec::new();
    let mut i: usize = 0;
    assert(defs_view(out@) =~= distinct_in_order(av.subrange(0, 0)));
    while i < all.len()
        invariant
            i <= all@.len(),
            av == defs_view(all@),
            defs_view(out@) == distinct_in_order(av.subrange(0, i as int)),
        decreases all@.len() - i,
    {
        assert(av.subrange(0, i + 1).drop_last() =~= av.subrange(0, i as int));
        assert(av[i as int] == all@[i as int]@);
        if !defs_contain(&out, &all[i]) {
            let ghost before = defs_view(out@);
            out.push(crate::models::copy_param(&all[i]));
            assert(defs_view(out@) =~= before.push(av[i as int]));
        }
        i = i + 1;
    }
    assert(av.subrange(0, i as int) =~= av);
    out
}

/// Whether a template holds the generic `<params>` token.
pub open spec fn template_generic(t: Seq<TemplateComponentView>) -> bool {
    exists|i: int| 0 <= i < t.len() && t[i] is GenericParams
}

/// Whether an optional command holds the generic `<params>` token.
pub open spec fn opt_generic(o: Option<CommandExecutionView>) -> bool {
    match o {
        Some(c) => template_generic(template_of(c)),
        None => false,
    }
}

/// Whether a platform block holds the generic `<params>` token.
pub open spec fn plat_generic(p: PlatformExecutionView) -> bool {
    opt_generic(p.default) || opt_generic(p.windows) || opt_generic(p.linux) || opt_generic(
        p.macos,
    )
}

/// Whether any line of a task holds the generic `<params>` token.
pub open spec fn task_generic(cmds: Seq<PlatformExecutionView>) -> bool {
    exists|i: int| 0 <= i < cmds.len() && plat_generic(#[trigger] cmds[i])
}

/// Whether a template holds the generic `<params>` token.
fn template_has_generic(t: &Vec<TemplateComponent>) -> (r: bool)
    ensures
        r == template_generic(template_view(t@)),
{
    let ghost tv = template_view(t@);
    let mut i: usize = 0;
    while i < t.len()
        invariant
            i <= t@.len(),
            tv == template_view(t@),
            forall|k: int| 0 <= k < i ==> !(tv[k] is GenericParams),
        decreases t@.len() - i,
    {
        assert(tv[i as int] == t@[i as int]@);
        if let TemplateComponent::GenericParams { .. } = &t[i] {
            return true;
        }
        i = i + 1;
    }
    false
}

/// Whether an optional command holds the generic `<params>` token.
fn opt_has_generic(o: &Option<CommandExecution>) -> (r: bool)
    ensures
        r == opt_generic(crate::models::opt_cmd(*o)),
{
    match o {
        Some(c) => match &c.action {
            CommandAction::Execute(t) => template_has_generic(t),
            CommandAction::Print(t) => template_has_generic(t),
        },
        None => false,
    }
}

/// Whether any command of a task holds the generic `<params>` token.
pub fn task_has_generic_params(task: &Task) -> (r: bool)
    ensures
        r == task_generic(task@.commands),
{
    let ghost cmds = task@.commands;
    let mut i: usize = 0;
    while i < task.commands.len()
        invariant
            i <= task.commands@.len(),
            cmds == task@.commands,
            forall|k: int| 0 <= k < i ==> !plat_generic(#[trigger] cmds[k]),
        decreases task.commands@.len() - i,
    {
        assert(cmds[i as int] == task.commands@[i as int]@);
        let p = &task.commands[i];
        if opt_has_generic(&p.default) || opt_has_generic(&p.windows) || opt_has_generic(&p.linux)
            || opt_has_generic(&p.macos) {
            return true;
        }
        i = i + 1;
    }
    false
}

/// The argument resolver of a task for the parameters given on the command
/// line: the task's distinct parameter definitions, and whether it holds the
/// generic `<params>` token.
pub fn build_resolver_for_task(task: &Arc<Task>, params: &[String]) -> (r: Result<
    ArgResolver,
    ParamError,
>)
    ensures
        match crate::parameters::resolution(
            distinct_in_order(commands_params(task@.commands)),
            strs_view(params@),
            task_generic(task@.commands),
        ) {
            Ok((resolved, left)) => r is Ok && r->Ok_0@.resolved == resolved && r->Ok_0@.unclaimed
                == left,
            Err(e) => r is Err && r->Err_0@ == e,
        },
{
    let defs = collect_parameter_defs_from_task(task);
    let generic = task_has_generic_params(&**task);
    ArgResolver::new(defs.as_slice(), params, generic)
}


// =========================================================================
// === Plans of `delete` and `unregister`
// =========================================================================

/// The report of a child that collides under its new parent even once renamed.
pub open spec fn collision_note(name: Seq<char>, suggested: Seq<char>) -> Seq<char> {
    "'"@ + name + "' (also conflicts as '"@ + suggested + "')"@
}

/// The warning of a child that will be renamed to avoid a collision.
pub open spec fn rename_note(name: Seq<char>, suggested: Seq<char>) -> Seq<char> {
    "Child '"@ + name + "' will be renamed to '"@ + suggested + "' to avoid collision."@
}

/// The collisions of the children of `old_p` among `ps[i..]` (in order), with
/// `sibs` the names taken under the new parent and `w`, `c` the warnings and
/// conflicts so far: a child whose name is taken gets a warning when
/// `<old_name>_<name>` is free, and a conflict when it is taken too. The final
/// name of each child that can move joins the taken names, as in the move itself.
pub open spec fn collisions_from(
    ps: Seq<(u128, IndexEntryView)>,
    i: int,
    old_p: u128,
    old_name: Seq<char>,
    sibs: Seq<Seq<char>>,
    w: Seq<Seq<char>>,
    c: Seq<Seq<char>>,
) -> (Seq<Seq<char>>, Seq<Seq<char>>)
    decreases ps.len() - i,
{
    if i < 0 || i >= ps.len() {
        (w, c)
    } else {
        let e = ps[i].1;
        if e.parent == Some(old_p) {
            if sibs.contains(e.name) {
                let sug = old_name + "_"@ + e.name;
                if sibs.contains(sug) {
                    collisions_from(ps, i + 1, old_p, old_name, sibs, w, c.push(collision_note(e.name, sug)))
                } else {
                    collisions_from(
                        ps,
                        i + 1,
                        old_p,
                        old_name,
                        sibs.push(sug),
                        w.push(rename_note(e.name, sug)),
                        c,
                    )
                }
            } else {
                collisions_from(ps, i + 1, old_p, old_name, sibs.push(e.name), w, c)
            }
        } else {
            collisions_from(ps, i + 1, old_p, old_name, sibs, w, c)
        }
    }
}

/// The warnings and conflicts of moving the children of `old_p` among `ps`
/// under a parent whose children are named `sibs`; see [`collisions_from`].
pub open spec fn collisions(
    ps: Seq<(u128, IndexEntryView)>,
    old_p: u128,
    old_name: Seq<char>,
    sibs: Seq<Seq<char>>,
) -> (Seq<Seq<char>>, Seq<Seq<char>>) {
    collisions_from(ps, 0, old_p, old_name, sibs, Seq::empty(), Seq::empty())
}

/// From any position on, the preview and the move read the same entries and
/// take the same names: the preview adds no conflict exactly when the move
/// succeeds.
proof fn lemma_collisions_match_move(
    ps: Seq<(u128, IndexEntryView)>,
    qs: Seq<(u128, IndexEntryView)>,
    i: int,
    old_p: u128,
    new_p: u128,
    old_name: Seq<char>,
    sibs: Seq<Seq<char>>,
    w: Seq<Seq<char>>,
    c: Seq<Seq<char>>,
    w2: Seq<Seq<char>>,
)
    requires
        0 <= i,
        qs.len() == ps.len(),
        forall|k: int| i <= k < ps.len() ==> qs[k] == ps[k],
    ensures
        (collisions_from(ps, i, old_p, old_name, sibs, w, c).1.len() == c.len()) <==> (reparent_from(
            qs,
            i,
            old_p,
            new_p,
            old_name,
            sibs,
            w2,
        ).1 is Ok),
        collisions_from(ps, i, old_p, old_name, sibs, w, c).1.len() >= c.len(),
    decreases ps.len() - i,
{
    if i < ps.len() {
        let (u, e) = qs[i];
        assert(ps[i] == qs[i]);
        if e.parent == Some(old_p) {
            if sibs.contains(e.name) {
                let sug = old_name + "_"@ + e.name;
                if sibs.contains(sug) {
                    lemma_collisions_match_move(ps, qs, i + 1, old_p, new_p, old_name, sibs, w,
                        c.push(collision_note(e.name, sug)), w2);
                } else {
                    let qs2 = qs.update(i, (u, IndexEntryView { name: sug, parent: Some(new_p), ..e }));
                    lemma_collisions_match_move(ps, qs2, i + 1, old_p, new_p, old_name, sibs.push(sug),
                        w.push(rename_note(e.name, sug)), c, w2.push(rename_warning(e.name, sug)));
                }
            } else {
                let qs2 = qs.update(i, (u, IndexEntryView { parent: Some(new_p), ..e }));
                lemma_collisions_match_move(ps, qs2, i + 1, old_p, new_p, old_name, sibs.push(e.name), w,
                    c, w2);
            }
        } else {
            lemma_collisions_match_move(ps, qs, i + 1, old_p, new_p, old_name, sibs, w, c, w2);
        }
    }
}

/// The plan of a move foresees its outcome: moving the children of `old_p`
/// under `new_p` ([`crate::index_manager::reparent_children`]) succeeds exactly when
/// [`check_reparent_collisions`] finds no conflict.
pub proof fn lemma_preview_foresees_move(v: GlobalIndexView, old_p: u128, new_p: u128)
    requires
        v.wf(),
        v.has(old_p),
    ensures
        (collisions(v.projects, old_p, v.entry(old_p)->Some_0.name, names_under(v.projects, new_p)).1.len()
            == 0) <==> (reparent_from(
            v.projects,
            0,
            old_p,
            new_p,
            v.entry(old_p)->Some_0.name,
            names_under(v.projects, new_p),
            Seq::empty(),
        ).1 is Ok),
{
    lemma_collisions_match_move(
        v.projects,
        v.projects,
        0,
        old_p,
        new_p,
        v.entry(old_p)->Some_0.name,
        names_under(v.projects, new_p),
        Seq::empty(),
        Seq::empty(),
        Seq::empty(),
    );
}

/// Checks the name collisions that moving the children of `old_parent_uuid`
/// under `new_parent_uuid` would cause: the warnings of automatic renames, and
/// the conflicts that no rename avoids (names given during the move count as
/// taken, as in the move itself).
pub fn check_reparent_collisions(
    index: &GlobalIndex,
    old_parent_uuid: u128,
    new_parent_uuid: u128,
) -> (r: (Vec<String>, Vec<String>))
    requires
        index@.wf(),
        index@.has(old_parent_uuid),
    ensures
        (strs_view(r.0@), strs_view(r.1@)) == collisions(
            index@.projects,
            old_parent_uuid,
            index@.entry(old_parent_uuid)->Some_0.name,
            names_under(index@.projects, new_parent_uuid),
        ),
{
    let ghost v = index@;
    let pi = find_project(index, old_parent_uuid).unwrap();
    assert(v.projects[pi as int].1 == index.projects@[pi as int].1@);
    let old_name = index.projects[pi].1.name.as_str();
    let mut sibs = children_names(index, new_parent_uuid);
    let mut warnings: Vec<String> = Vec::new();
    let mut conflicts: Vec<String> = Vec::new();
    let mut k: usize = 0;
    assert(strs_view(warnings@) =~= Seq::<Seq<char>>::empty());
    assert(strs_view(conflicts@) =~= Seq::<Seq<char>>::empty());
    while k < index.projects.len()
        invariant
            k <= index.projects@.len(),
            index@ == v,
            old_name@ == v.entry(old_parent_uuid)->Some_0.name,
            collisions(
                v.projects,
                old_parent_uuid,
                old_name@,
                names_under(v.projects, new_parent_uuid),
            ) == collisions_from(
                v.projects,
                k as int,
                old_parent_uuid,
                old_name@,
                strs_view(sibs@),
                strs_view(warnings@),
                strs_view(conflicts@),
            ),
        decreases index.projects@.len() - k,
    {
        assert(v.projects[k as int].1 == index.projects@[k as int].1@);
        let e = &index.projects[k].1;
        if e.parent == Some(old_parent_uuid) {
            if names_contain(&sibs, e.name.as_str()) {
                let mut sug = owned(old_name);
                push_str(&mut sug, "_");
                push_str(&mut sug, e.name.as_str());
                if names_contain(&sibs, sug.as_str()) {
                    let mut m = owned("'");
                    push_str(&mut m, e.name.as_str());
                    push_str(&mut m, "' (also conflicts as '");
                    push_str(&mut m, sug.as_str());
                    push_str(&mut m, "')");
                    let ghost before = strs_view(conflicts@);
                    conflicts.push(m);
                    assert(strs_view(conflicts@) =~= before.push(collision_note(e.name@, sug@)));
                } else {
                    let mut m = owned("Child '");
                    push_str(&mut m, e.name.as_str());
                    push_str(&mut m, "' will be renamed to '");
                    push_str(&mut m, sug.as_str());
                    push_str(&mut m, "' to avoid collision.");
                    let ghost before = strs_view(warnings@);
                    warnings.push(m);
                    assert(strs_view(warnings@) =~= before.push(rename_note(e.name@, sug@)));
                    let ghost sb = strs_view(sibs@);
                    sibs.push(sug);
                    assert(strs_view(sibs@) =~= sb.push(sug@));
                }
            } else {
                let ghost sb = strs_view(sibs@);
                sibs.push(e.name.clone());
                assert(strs_view(sibs@) =~= sb.push(e.name@));
            }
        }
        k = k + 1;
    }
    (warnings, conflicts)
}

/// The entries `sep`-separated.
pub open spec fn joined(s: Seq<Seq<char>>, sep: Seq<char>) -> Seq<char>
    decreases s.len(),
{
    if s.len() == 0 {
        Seq::empty()
    } else if s.len() == 1 {
        s[0]
    } else {
        joined(s.drop_last(), sep) + sep + s.last()
    }
}

/// Joins strings with a separator.
pub fn join_strings(v: &Vec<String>, sep: &str) -> (r: String)
    ensures
        r@ == joined(strs_view(v@), sep@),
{
    let ghost all = strs_view(v@);
    let mut out = String::new();
    let mut i: usize = 0;
    while i < v.len()
        invariant
            i <= v@.len(),
            all == strs_view(v@),
            out@ == joined(all.subrange(0, i as int), sep@),
        decreases v@.len() - i,
    {
        assert(all.subrange(0, i + 1).drop_last() =~= all.subrange(0, i as int));
        assert(all[i as int] == v@[i as int]@);
        if i > 0 {
            push_str(&mut out, sep);
        }
        push_str(&mut out, v[i].as_str());
        i = i + 1;
    }
    assert(all.subrange(0, i as int) =~= all);
    out
}

/// Why an operation plan cannot be made.
#[derive(Debug, Clone)]
pub enum PlanError {
    /// `--recursive` together with a new parent for the children.
    RecursiveAndReparent,
    /// Children that would collide under their new parent even once renamed.
    ReparentCollision { conflicts: String },
}

impl PlanError {
    /// The text of [`Self::message`].
    pub open spec fn message_text(&self) -> Seq<char> {
        match self {
            PlanError::RecursiveAndReparent => "A recursive operation cannot also move the children to a new parent."@,
            PlanError::ReparentCollision { conflicts } => "Moving the children would cause name conflicts: "@
                + conflicts@,
        }
    }

    /// The message shown to the user.
    pub fn message(&self) -> (r: String)
        ensures
            r@ == self.message_text(),
    {
        match self {
            PlanError::RecursiveAndReparent => owned(
                "A recursive operation cannot also move the children to a new parent.",
            ),
            PlanError::ReparentCollision { conflicts } => {
                let mut m = owned("Moving the children would cause name conflicts: ");
                push_str(&mut m, conflicts.as_str());
                m
            },
        }
    }
}

/// The effects of a `delete` or `unregister`, computed before anything changes.
#[derive(Debug, Default)]
pub struct OperationPlan {
    /// The projects that leave the index.
    pub uuids_to_remove: Vec<u128>,
    /// For `delete`, the project roots whose `.axes` directory is purged.
    pub paths_to_purge: Vec<String>,
    /// The automatic renames of children that reparenting needs.
    pub reparent_warnings: Vec<String>,
    /// The summary shown to the user.
    pub summary_lines: Vec<String>,
}

/// The summary of a recursive operation.
pub open spec fn recursive_summary(is_destructive: bool, name: Seq<char>) -> Seq<char> {
    if is_destructive {
        "Delete '"@ + name + "' and all of its descendants."@
    } else {
        "Unregister '"@ + name + "' and all of its descendants."@
    }
}

/// The summary of a single-project operation.
pub open spec fn single_summary(name: Seq<char>) -> Seq<char> {
    "Unregister '"@ + name + "'."@
}

/// The line saying where the children go.
pub open spec fn reparent_summary(parent_name: Seq<char>) -> Seq<char> {
    "Its children will move under '"@ + parent_name + "'."@
}

/// The roots of the registered projects among `uuids`, in order.
pub open spec fn paths_of(v: GlobalIndexView, uuids: Seq<u128>) -> Seq<Seq<char>>
    decreases uuids.len(),
{
    if uuids.len() == 0 {
        Seq::empty()
    } else {
        paths_of(v, uuids.drop_last()) + match v.entry(uuids.last()) {
            Some(e) => seq![e.path],
            None => Seq::empty(),
        }
    }
}

/// The roots of the registered projects among `uuids`.
fn paths_to_purge(index: &GlobalIndex, uuids: &Vec<u128>) -> (r: Vec<String>)
    requires
        index@.wf(),
    ensures
        strs_view(r@) == paths_of(index@, uuids@),
{
    let mut out: Vec<String> = Vec::new();
    let mut i: usize = 0;
    assert(uuids@.subrange(0, 0) =~= Seq::<u128>::empty());
    while i < uuids.len()
        invariant
            i <= uuids@.len(),
            index@.wf(),
            strs_view(out@) == paths_of(index@, uuids@.subrange(0, i as int)),
        decreases uuids@.len() - i,
    {
        assert(uuids@.subrange(0, i + 1).drop_last() =~= uuids@.subrange(0, i as int));
        match find_project(index, uuids[i]) {
            Some(j) => {
                assert(index@.projects[j as int].1 == index.projects@[j as int].1@);
                let ghost before = strs_view(out@);
                out.push(index.projects[j].1.path.clone());
                assert(strs_view(out@) =~= before.push(index@.entry(uuids@[i as int])->Some_0.path));
            },
            None => {},
        }
        i = i + 1;
    }
    assert(uuids@.subrange(0, i as int) =~= uuids@);
    out
}

/// Prepares the plan of a `delete` (`is_destructive`) or `unregister` of the
/// project of `config`. A recursive plan removes the project and all its
/// descendants and cannot move children elsewhere; a single plan removes the
/// project and moves its children under `reparent_to` (the global project when
/// `None`), refusing when a child would collide there even once renamed.
pub fn prepare_operation_plan(
    index: &GlobalIndex,
    config: &crate::resolved::ResolvedConfig,
    recursive: bool,
    reparent_to: Option<u128>,
    is_destructive: bool,
) -> (r: Result<OperationPlan, PlanError>)
    requires
        index@.wf(),
        !recursive ==> index@.has(config.uuid),
        !recursive ==> index@.has(
            match reparent_to {
                Some(p) => p,
                None => 0,
            },
        ),
    ensures
        recursive && reparent_to is Some ==> r matches Err(PlanError::RecursiveAndReparent),
        recursive && reparent_to is None ==> r is Ok && ({
            let p = r->Ok_0;
            &&& p.uuids_to_remove@.len() >= 1
            &&& p.uuids_to_remove@[0] == config.uuid
            &&& forall|x: u128| #[trigger]
                p.uuids_to_remove@.drop_first().contains(x) <==> index@.is_descendant(
                    x,
                    config.uuid,
                )
            &&& p.uuids_to_remove@.drop_first().no_duplicates()
            &&& strs_view(p.summary_lines@) == seq![
                recursive_summary(is_destructive, config.qualified_name@),
            ]
            &&& p.reparent_warnings@.len() == 0
        }),
        !recursive ==> ({
            let np = match reparent_to {
                Some(p) => p,
                None => 0,
            };
            let (w, c) = collisions(
                index@.projects,
                config.uuid,
                index@.entry(config.uuid)->Some_0.name,
                names_under(index@.projects, np),
            );
            if c.len() > 0 {
                r matches Err(PlanError::ReparentCollision { conflicts }) && conflicts@ == joined(
                    c,
                    "', '"@,
                )
            } else {
                r is Ok && r->Ok_0.uuids_to_remove@ == seq![config.uuid] && strs_view(
                    r->Ok_0.summary_lines@,
                ) == seq![
                    single_summary(config.qualified_name@),
                    reparent_summary(index@.entry(np)->Some_0.name),
                ] && strs_view(r->Ok_0.reparent_warnings@) == w
            }
        }),
        r is Ok ==> strs_view(r->Ok_0.paths_to_purge@) == if is_destructive {
            paths_of(index@, r->Ok_0.uuids_to_remove@)
        } else {
            Seq::empty()
        },
{
    let mut plan = OperationPlan {
        uuids_to_remove: Vec::new(),
        paths_to_purge: Vec::new(),
        reparent_warnings: Vec::new(),
        summary_lines: Vec::new(),
    };
    if recursive {
        if reparent_to.is_some() {
            return Err(PlanError::RecursiveAndReparent);
        }
        plan.uuids_to_remove.push(config.uuid);
        let desc = get_all_descendants(index, config.uuid);
        let ghost d = desc@;
        let mut i: usize = 0;
        while i < desc.len()
            invariant
                i <= desc@.len(),
                d == desc@,
                plan.uuids_to_remove@ == seq![config.uuid] + d.subrange(0, i as int),
                plan.summary_lines@.len() == 0,
                plan.reparent_warnings@.len() == 0,
                plan.paths_to_purge@.len() == 0,
            decreases desc@.len() - i,
        {
            plan.uuids_to_remove.push(desc[i]);
            assert(d.subrange(0, i + 1) =~= d.subrange(0, i as int).push(d[i as int]));
            i = i + 1;
        }
        assert(d.subrange(0, i as int) =~= d);
        assert(plan.uuids_to_remove@.drop_first() =~= d);
        let mut line = if is_destructive {
            owned("Delete '")
        } else {
            owned("Unregister '")
        };
        push_str(&mut line, config.qualified_name.as_str());
        push_str(&mut line, "' and all of its descendants.");
        plan.summary_lines.push(line);
        assert(strs_view(plan.summary_lines@) =~= seq![
            recursive_summary(is_destructive, config.qualified_name@),
        ]);
    } else {
        plan.uuids_to_remove.push(config.uuid);
        let mut line = owned("Unregister '");
        push_str(&mut line, config.qualified_name.as_str());
        push_str(&mut line, "'.");
        plan.summary_lines.push(line);
        let np = match reparent_to {
            Some(p) => p,
            None => 0,
        };
        let pj = find_project(index, np).unwrap();
        assert(index@.projects[pj as int].1 == index.projects@[pj as int].1@);
        let mut line2 = owned("Its children will move under '");
        push_str(&mut line2, index.projects[pj].1.name.as_str());
        push_str(&mut line2, "'.");
        plan.summary_lines.push(line2);
        let (warnings, conflicts) = check_reparent_collisions(index, config.uuid, np);
        if conflicts.len() > 0 {
            return Err(PlanError::ReparentCollision { conflicts: join_strings(&conflicts, "', '") });
        }
        plan.reparent_warnings = warnings;
        assert(strs_view(plan.summary_lines@) =~= seq![
            single_summary(config.qualified_name@),
            reparent_summary(index@.entry(np)->Some_0.name),
        ]);
    }
    if is_destructive {
        plan.paths_to_purge = paths_to_purge(index, &plan.uuids_to_remove);
    }
    Ok(plan)
}

// =========================================================================
// === Checks before `link` and `rename`
// =========================================================================

/// Why a project cannot be linked to a new parent.
#[derive(Debug, Clone, Copy, PartialEq, Eq, Structural)]
pub enum LinkError {
    /// The global project has no parent.
    CannotLinkGlobal,
    /// A project cannot be its own parent.
    LinkToSelf,
}

impl LinkError {
    /// The text of [`Self::message`].
    pub open spec fn message_text(&self) -> Seq<char> {
        match self {
            LinkError::CannotLinkGlobal => "The global project cannot be linked to a parent."@,
            LinkError::LinkToSelf => "A project cannot be linked to itself."@,
        }
    }

    /// The message shown to the user.
    pub fn message(&self) -> (r: String)
        ensures
            r@ == self.message_text(),
    {
        match self {
            LinkError::CannotLinkGlobal => owned("The global project cannot be linked to a parent."),
            LinkError::LinkToSelf => owned("A project cannot be linked to itself."),
        }
    }
}

/// The checks before a `link`: the global project and a link to oneself are
/// refused; `Ok(None)` when the project is already a child of the new parent
/// (nothing to do); `Ok(Some(()))` when the link may proceed.
pub fn validate_link_operation(
    index: &GlobalIndex,
    project_to_move_uuid: u128,
    new_parent_uuid: u128,
) -> (r: Result<Option<()>, LinkError>)
    requires
        index@.wf(),
        project_to_move_uuid != 0 && project_to_move_uuid != new_parent_uuid ==> index@.has(
            project_to_move_uuid,
        ),
    ensures
        project_to_move_uuid == 0 ==> r == Err::<Option<()>, LinkError>(LinkError::CannotLinkGlobal),
        project_to_move_uuid != 0 && project_to_move_uuid == new_parent_uuid ==> r == Err::<
            Option<()>,
            LinkError,
        >(LinkError::LinkToSelf),
        project_to_move_uuid != 0 && project_to_move_uuid != new_parent_uuid ==> r == if index@.entry(
            project_to_move_uuid,
        )->Some_0.parent == Some(new_parent_uuid) {
            Ok::<Option<()>, LinkError>(None)
        } else {
            Ok(Some(()))
        },
{
    if project_to_move_uuid == 0 {
        return Err(LinkError::CannotLinkGlobal);
    }
    if project_to_move_uuid == new_parent_uuid {
        return Err(LinkError::LinkToSelf);
    }
    let i = find_project(index, project_to_move_uuid).unwrap();
    assert(index@.projects[i as int].1 == index.projects@[i as int].1@);
    if index.projects[i].1.parent == Some(new_parent_uuid) {
        return Ok(None);
    }
    Ok(Some(()))
}

/// What a `rename` does after its checks.
#[derive(Debug, Clone, Copy, PartialEq, Eq, Structural)]
pub enum RenameCheck {
    /// The new name is the current one: nothing to do.
    NoChange,
    /// The global project is renamed: the user confirms first.
    ConfirmGlobal,
    /// The rename may proceed.
    Proceed,
}

/// The checks before a `rename`.
pub fn pre_rename_validation(uuid: u128, old_name: &str, new_name: &str) -> (r: RenameCheck)
    ensures
        r == if old_name@ == new_name@ {
            RenameCheck::NoChange
        } else if uuid == 0 {
            RenameCheck::ConfirmGlobal
        } else {
            RenameCheck::Proceed
        },
{
    if str_eq(old_name, new_name) {
        RenameCheck::NoChange
    } else if uuid == 0 {
        RenameCheck::ConfirmGlobal
    } else {
        RenameCheck::Proceed
    }
}


// =========================================================================
// === Templates rendered for display
// =========================================================================

/// The token of a style as displayed: `<#` and the lower-cased name of the style.
pub open spec fn style_token(style: AnsiStyle) -> Seq<char> {
    match style {
        AnsiStyle::Reset => "<#reset>"@,
        AnsiStyle::Bold => "<#bold>"@,
        AnsiStyle::Dim => "<#dim>"@,
        AnsiStyle::Italic => "<#italic>"@,
        AnsiStyle::Underline => "<#underline>"@,
        AnsiStyle::Black => "<#black>"@,
        AnsiStyle::Red => "<#red>"@,
        AnsiStyle::Green => "<#green>"@,
        AnsiStyle::Yellow => "<#yellow>"@,
        AnsiStyle::Blue => "<#blue>"@,
        AnsiStyle::Magenta => "<#magenta>"@,
        AnsiStyle::Cyan => "<#cyan>"@,
        AnsiStyle::White => "<#white>"@,
        AnsiStyle::BrightBlack => "<#brightblack>"@,
        AnsiStyle::BrightRed => "<#brightred>"@,
        AnsiStyle::BrightGreen => "<#brightgreen>"@,
        AnsiStyle::BrightYellow => "<#brightyellow>"@,
        AnsiStyle::BrightBlue => "<#brightblue>"@,
        AnsiStyle::BrightMagenta => "<#brightmagenta>"@,
        AnsiStyle::BrightCyan => "<#brightcyan>"@,
        AnsiStyle::BrightWhite => "<#brightwhite>"@,
    }
}

/// The token of a style as displayed.
fn style_token_exec(style: AnsiStyle) -> (r: &'static str)
    ensures
        r@ == style_token(style),
{
    match style {
        AnsiStyle::Reset => "<#reset>",
        AnsiStyle::Bold => "<#bold>",
        AnsiStyle::Dim => "<#dim>",
        AnsiStyle::Italic => "<#italic>",
        AnsiStyle::Underline => "<#underline>",
        AnsiStyle::Black => "<#black>",
        AnsiStyle::Red => "<#red>",
        AnsiStyle::Green => "<#green>",
        AnsiStyle::Yellow => "<#yellow>",
        AnsiStyle::Blue => "<#blue>",
        AnsiStyle::Magenta => "<#magenta>",
        AnsiStyle::Cyan => "<#cyan>",
        AnsiStyle::White => "<#white>",
        AnsiStyle::BrightBlack => "<#brightblack>",
        AnsiStyle::BrightRed => "<#brightred>",
        AnsiStyle::BrightGreen => "<#brightgreen>",
        AnsiStyle::BrightYellow => "<#brightyellow>",
        AnsiStyle::BrightBlue => "<#brightblue>",
        AnsiStyle::BrightMagenta => "<#brightmagenta>",
        AnsiStyle::BrightCyan => "<#brightcyan>",
        AnsiStyle::BrightWhite => "<#brightwhite>",
    }
}

/// The text that stands for a template component in displays: the literal text,
/// the original token of a parameter, or the token that the component was
/// compiled from.
pub open spec fn component_text(c: TemplateComponentView) -> Seq<char> {
    match c {
        TemplateComponentView::Literal(s) => s,
        TemplateComponentView::Parameter(p) => p.original_token,
        TemplateComponentView::GenericParams { literal } => if literal {
            "<params(literal)>"@
        } else {
            "<params>"@
        },
        TemplateComponentView::Color(style) => style_token(style),
        TemplateComponentView::Run(cmd) => "<run('"@ + cmd + "')>"@,
        TemplateComponentView::Path => "<path>"@,
        TemplateComponentView::Name => "<name>"@,
        TemplateComponentView::Uuid => "<uuid>"@,
        TemplateComponentView::Version => "<version>"@,
        TemplateComponentView::Script(s) => "<scripts::"@ + s + ">"@,
        TemplateComponentView::Var(v) => "<vars::"@ + v + ">"@,
    }
}

/// The text of a whole template.
pub open spec fn template_text(t: Seq<TemplateComponentView>) -> Seq<char>
    decreases t.len(),
{
    if t.len() == 0 {
        Seq::empty()
    } else {
        template_text(t.drop_last()) + component_text(t.last())
    }
}

/// Renders a template component back into the token it stands for.
pub fn render_component_to_string(component: &TemplateComponent) -> (r: String)
    ensures
        r@ == component_text(component@),
{
    match component {
        TemplateComponent::Literal(s) => s.clone(),
        TemplateComponent::Parameter(p) => p.original_token.clone(),
        TemplateComponent::GenericParams { literal } => if *literal {
            owned("<params(literal)>")
        } else {
            owned("<params>")
        },
        TemplateComponent::Color(style) => owned(style_token_exec(*style)),
        TemplateComponent::Run(crate::models::RunSpec::Literal(cmd)) => {
            let mut m = owned("<run('");
            push_str(&mut m, cmd.as_str());
            push_str(&mut m, "')>");
            m
        },
        TemplateComponent::Path => owned("<path>"),
        TemplateComponent::Name => owned("<name>"),
        TemplateComponent::Uuid => owned("<uuid>"),
        TemplateComponent::Version => owned("<version>"),
        TemplateComponent::Script(name) => {
            let mut m = owned("<scripts::");
            push_str(&mut m, name.as_str());
            push_str(&mut m, ">");
            m
        },
        TemplateComponent::Var(name) => {
            let mut m = owned("<vars::");
            push_str(&mut m, name.as_str());
            push_str(&mut m, ">");
            m
        },
    }
}

/// Renders a template back into the text it was compiled from.
pub fn render_template_to_string(template: &[TemplateComponent]) -> (r: String)
    ensures
        r@ == template_text(template_view(template@)),
{
    let ghost tv = template_view(template@);
    let mut out = String::new();
    let mut i: usize = 0;
    while i < template.len()
        invariant
            i <= template@.len(),
            tv == template_view(template@),
            out@ == template_text(tv.subrange(0, i as int)),
        decreases template@.len() - i,
    {
        assert(tv.subrange(0, i + 1).drop_last() =~= tv.subrange(0, i as int));
        assert(tv[i as int] == template@[i as int]@);
        let piece = render_component_to_string(&template[i]);
        push_str(&mut out, piece.as_str());
        i = i + 1;
    }
    assert(tv.subrange(0, i as int) =~= tv);
    out
}

/// The template of the command that a platform block has for the target system.
pub fn get_template_for_platform<'a>(
    plat_exec: &'a PlatformExecution,
    config: &crate::resolved::ResolvedConfig,
) -> (r: Option<&'a Vec<TemplateComponent>>)
    ensures
        match crate::resolved::select_for(config.os, plat_exec@) {
            Some(c) => r is Some && template_view(r->Some_0@) == template_of(c),
            None => r is None,
        },
{
    match config.select_platform_exec(plat_exec) {
        Some(c) => match &c.action {
            CommandAction::Execute(t) => Some(t),
            CommandAction::Print(t) => Some(t),
        },
        None => None,
    }
}

/// The text of a variable's value for the target system, if it has one there.
pub fn render_var_to_string(var: &Arc<crate::models::CachedVar>, config: &crate::resolved::ResolvedConfig) -> (r:
    Option<String>)
    ensures
        match crate::resolved::select_for(config.os, var@.value) {
            Some(c) => r is Some && r->Some_0@ == template_text(template_of(c)),
            None => r is None,
        },
{
    match get_template_for_platform(&var.value, config) {
        Some(t) => Some(render_template_to_string(t.as_slice())),
        None => None,
    }
}


// =========================================================================
// === `init`
// =========================================================================

/// Why `init` cannot create the project.
#[derive(Debug, Clone)]
pub enum InitError {
    /// A `KEY=VALUE` argument without `=`.
    InvalidKvPair(String),
    /// The name is taken under the chosen parent.
    NameCollision(String),
}

impl InitError {
    /// The text of [`Self::message`].
    pub open spec fn message_text(&self) -> Seq<char> {
        match self {
            InitError::InvalidKvPair(p) => "Invalid KEY=VALUE pair: '"@ + p@ + "'."@,
            InitError::NameCollision(n) => "A project named '"@ + n@ + "' already exists under the chosen parent."@,
        }
    }

    /// The message shown to the user.
    pub fn message(&self) -> (r: String)
        ensures
            r@ == self.message_text(),
    {
        match self {
            InitError::InvalidKvPair(p) => {
                let mut m = owned("Invalid KEY=VALUE pair: '");
                push_str(&mut m, p.as_str());
                push_str(&mut m, "'.");
                m
            },
            InitError::NameCollision(n) => {
                let mut m = owned("A project named '");
                push_str(&mut m, n.as_str());
                push_str(&mut m, "' already exists under the chosen parent.");
                m
            },
        }
    }
}

/// A `KEY=VALUE` argument split at its first `=`, both sides trimmed.
pub open spec fn kv_pair(s: Seq<char>) -> Option<(Seq<char>, Seq<char>)> {
    let f = crate::context::first_index_of(s, '=');
    if f < 0 {
        None
    } else {
        Some((trim(s.subrange(0, f)), trim(s.subrange(f + 1, s.len() as int))))
    }
}

/// The pairs of `KEY=VALUE` arguments put in turn into `acc` (a later key
/// replaces an earlier one); the first argument without `=` is an error.
pub open spec fn kv_map(pairs: Seq<Seq<char>>, acc: Seq<(Seq<char>, Seq<char>)>) -> Result<
    Seq<(Seq<char>, Seq<char>)>,
    Seq<char>,
>
    decreases pairs.len(),
{
    if pairs.len() == 0 {
        Ok(acc)
    } else {
        match kv_pair(pairs[0]) {
            None => Err(pairs[0]),
            Some(kv) => kv_map(pairs.drop_first(), crate::resolved::put_pair(acc, kv.0, kv.1)),
        }
    }
}

/// Parses `KEY=VALUE` arguments (`--env`, `--var`) into a map.
pub fn parse_key_value_pairs(pairs: &[String]) -> (r: Result<Vec<(String, String)>, InitError>)
    ensures
        match kv_map(strs_view(pairs@), Seq::empty()) {
            Ok(m) => r is Ok && crate::resolved::pairs_view(r->Ok_0@) == m,
            Err(p) => (r matches Err(InitError::InvalidKvPair(x)) && x@ == p),
        },
{
    let ghost all = strs_view(pairs@);
    let mut map: Vec<(String, String)> = Vec::new();
    let mut i: usize = 0;
    assert(all.subrange(0, all.len() as int) =~= all);
    assert(crate::resolved::pairs_view(map@) =~= Seq::<(Seq<char>, Seq<char>)>::empty());
    while i < pairs.len()
        invariant
            i <= pairs@.len(),
            all == strs_view(pairs@),
            kv_map(all, Seq::empty()) == kv_map(
                all.subrange(i as int, all.len() as int),
                crate::resolved::pairs_view(map@),
            ),
        decreases pairs@.len() - i,
    {
        let ghost rest = all.subrange(i as int, all.len() as int);
        assert(rest[0] == pairs@[i as int]@);
        assert(rest.drop_first() =~= all.subrange(i + 1, all.len() as int));
        let v = chars_of(pairs[i].as_str());
        let mut f: usize = 0;
        while f < v.len() && v[f] != '='
            invariant
                f <= v@.len(),
                forall|k: int| 0 <= k < f ==> v@[k] != '=',
            decreases v@.len() - f,
        {
            f = f + 1;
        }
        if f >= v.len() {
            proof {
                crate::context::lemma_first_index_of(v@, '=');
            }
            return Err(InitError::InvalidKvPair(pairs[i].clone()));
        }
        proof {
            crate::context::lemma_first_index_of(v@, '=');
        }
        let key_raw = string_of(&v, 0, f);
        let value_raw = string_of(&v, f + 1, v.len());
        let key = trim_str(key_raw.as_str());
        let value = trim_str(value_raw.as_str());
        crate::resolved::put_pair_exec(&mut map, key, value);
        i = i + 1;
    }
    assert(all.subrange(i as int, all.len() as int) =~= Seq::<Seq<char>>::empty());
    Ok(map)
}

/// The description proposed for a new project.
pub open spec fn default_description(name: Seq<char>) -> Seq<char> {
    "A new project named '"@ + name + "', managed by `axes`."@
}

/// The description proposed for a new project.
pub fn default_project_description(name: &str) -> (r: String)
    ensures
        r@ == default_description(name@),
{
    let mut m = owned("A new project named '");
    push_str(&mut m, name);
    push_str(&mut m, "', managed by `axes`.");
    m
}

/// The name proposed for a new project: its directory's name (empty without one).
pub fn default_project_name(dir: &str) -> (r: String)
    ensures
        r@ == match crate::paths::file_name_of(dir@) {
            Some(n) => n,
            None => Seq::empty(),
        },
{
    match crate::paths::path_file_name(dir) {
        Some(n) => n,
        None => String::new(),
    }
}

/// Puts a simple variable into the variables of an `axes.toml`: in place of the
/// first variable of that name, or at the end.
pub fn put_simple_var(vars: &mut Vec<(String, crate::models::TomlVar)>, key: String, value: String)
    ensures
        ({
            let o = old(vars)@;
            let f = final(vars)@;
            if exists|i: int| 0 <= i < o.len() && (#[trigger] o[i]).0@ == key@ {
                let i = choose|i: int| 0 <= i < o.len() && (#[trigger] o[i]).0@ == key@ && forall|j: int|
                    0 <= j < i ==> o[j].0@ != key@;
                &&& f.len() == o.len()
                &&& forall|j: int| 0 <= j < o.len() && j != i ==> f[j] == o[j]
                &&& f[i].0@ == key@
                &&& (f[i].1 matches crate::models::TomlVar::Simple(s) && s@ == value@)
            } else {
                &&& f.len() == o.len() + 1
                &&& f.drop_last() == o
                &&& f.last().0@ == key@
                &&& (f.last().1 matches crate::models::TomlVar::Simple(s) && s@ == value@)
            }
        }),
{
    let mut j: usize = 0;
    while j < vars.len()
        invariant
            j <= vars@.len(),
            vars@ == old(vars)@,
            forall|k: int| 0 <= k < j ==> vars@[k].0@ != key@,
        decreases vars@.len() - j,
    {
        if str_eq(vars[j].0.as_str(), key.as_str()) {
            let ghost o = vars@;
            assert(forall|k: int| 0 <= k < j ==> o[k].0@ != key@);
            let ghost ch = choose|i: int| 0 <= i < o.len() && (#[trigger] o[i]).0@ == key@ && forall|jj: int|
                0 <= jj < i ==> o[jj].0@ != key@;
            assert(0 <= j < o.len() && o[j as int].0@ == key@ && forall|jj: int| 0 <= jj < j ==> o[jj].0@ != key@);
            assert(ch == j) by {
                if ch < j {
                    assert(o[ch].0@ != key@);
                } else if ch > j {
                    assert(o[j as int].0@ != key@);
                }
            }
            vars.set(j, (key, crate::models::TomlVar::Simple(value)));
            return;
        }
        j = j + 1;
    }
    vars.push((key, crate::models::TomlVar::Simple(value)));
    assert(vars@.drop_last() =~= old(vars)@);
}


// =========================================================================
// === Preparing a task to run
// =========================================================================

/// Why a task cannot be prepared.
#[derive(Debug, Clone)]
pub enum PrepareError {
    /// Its compositions could not be flattened.
    Flatten(crate::resolved::FlattenError),
    /// Its parameters do not accept the arguments.
    Params(ParamError),
}

impl PrepareError {
    /// The text of [`Self::message`].
    pub open spec fn message_text(&self) -> Seq<char> {
        match self {
            PrepareError::Flatten(e) => e.message_text(),
            PrepareError::Params(e) => e.message_text(),
        }
    }

    /// The message shown to the user.
    pub fn message(&self) -> (r: String)
        ensures
            r@ == self.message_text(),
    {
        match self {
            PrepareError::Flatten(e) => e.message(),
            PrepareError::Params(e) => e.message(),
        }
    }
}

/// A task ready to run: specialized for the target system, with the resolver
/// of its arguments.
#[derive(Debug)]
pub struct PreparedTask {
    pub task: crate::models::PlatformSpecializedTask,
    pub resolver: ArgResolver,
}

/// Prepares a task to run with the arguments of the command line: its
/// compositions flattened, its arguments resolved against its parameters, and
/// its commands specialized for the target system.
pub fn prepare_task(config: &crate::resolved::ResolvedConfig, task: &Task, params: &[String]) -> (r:
    Result<PreparedTask, PrepareError>)
    ensures
        match crate::resolved::flat_cmds(
            config.os,
            config.layers_spec(),
            crate::models::plat_seq_view(task.commands@),
            Seq::empty(),
        ) {
            Err(e) => (r matches Err(PrepareError::Flatten(x)) && x@ == e),
            Ok(c) => match crate::parameters::resolution(
                distinct_in_order(commands_params(c)),
                strs_view(params@),
                task_generic(c),
            ) {
                Err(e) => (r matches Err(PrepareError::Params(x)) && x@ == e),
                Ok((resolved, left)) => r is Ok && r->Ok_0.resolver@.resolved == resolved
                    && r->Ok_0.resolver@.unclaimed == left && crate::models::opt_str(r->Ok_0.task.desc)
                    == crate::models::opt_str(task.desc) && crate::resolved::cmds_view(
                    r->Ok_0.task.commands@,
                ) == crate::resolved::specialized(config.os, c),
            },
        },
{
    let flat = match config.flatten_task(task) {
        Ok(t) => t,
        Err(e) => {
            return Err(PrepareError::Flatten(e));
        },
    };
    let shared = Arc::new(flat);
    let resolver = match build_resolver_for_task(&shared, params) {
        Ok(res) => res,
        Err(e) => {
            return Err(PrepareError::Params(e));
        },
    };
    let specialized = config.specialize_task_for_platform(&*shared);
    Ok(PreparedTask { task: specialized, resolver })
}

/// The hooks of a session, flattened, with one resolver for both: the
/// parameters of `at_start` then those of `at_exit`, and the generic
/// arguments when either holds `<params>`.
#[derive(Debug)]
pub struct PreparedHooks {
    pub at_start: Option<Task>,
    pub at_exit: Option<Task>,
    pub resolver: ArgResolver,
}

/// The flattened form of an optional hook.
pub open spec fn flat_hook(
    config: crate::resolved::ResolvedConfig,
    hook: Option<TaskView>,
) -> Option<Result<Seq<PlatformExecutionView>, crate::resolved::FlattenErrorView>> {
    match hook {
        Some(t) => Some(
            crate::resolved::flat_cmds(config.os, config.layers_spec(), t.commands, Seq::empty()),
        ),
        None => None,
    }
}

/// The parameters of an optional flattened hook.
pub open spec fn hook_params(c: Option<Seq<PlatformExecutionView>>) -> Seq<ParameterDefView> {
    match c {
        Some(x) => distinct_in_order(commands_params(x)),
        None => Seq::empty(),
    }
}

/// Whether an optional flattened hook holds `<params>`.
pub open spec fn hook_generic(c: Option<Seq<PlatformExecutionView>>) -> bool {
    match c {
        Some(x) => task_generic(x),
        None => false,
    }
}

/// Flattens an optional hook.
fn flatten_hook(config: &crate::resolved::ResolvedConfig, hook: &Option<Task>) -> (r: Result<
    Option<Task>,
    crate::resolved::FlattenError,
>)
    ensures
        match flat_hook(*config, crate::models::opt_task(*hook)) {
            None => r matches Ok(None),
            Some(Err(e)) => r is Err && r->Err_0@ == e,
            Some(Ok(c)) => (r matches Ok(Some(t)) && t@.commands == c && t@.desc == hook->Some_0@.desc),
        },
{
    match hook {
        Some(t) => match config.flatten_task(t) {
            Ok(f) => Ok(Some(f)),
            Err(e) => Err(e),
        },
        None => Ok(None),
    }
}

/// Prepares the hooks of a session (`axes start`) with the arguments of the
/// command line: `at_start` then `at_exit` flattened, and one resolver over the
/// parameters of both.
pub fn prepare_session_hooks(
    config: &crate::resolved::ResolvedConfig,
    at_start: &Option<Task>,
    at_exit: &Option<Task>,
    params: &[String],
) -> (r: Result<PreparedHooks, PrepareError>)
    ensures
        ({
            let fs = flat_hook(*config, crate::models::opt_task(*at_start));
            let fe = flat_hook(*config, crate::models::opt_task(*at_exit));
            match fs {
                Some(Err(e)) => (r matches Err(PrepareError::Flatten(x)) && x@ == e),
                _ => match fe {
                Some(Err(e)) => (r matches Err(PrepareError::Flatten(x)) && x@ == e),
                _ => {
                let cs = match fs {
                    Some(Ok(c)) => Some(c),
                    _ => None,
                };
                let ce = match fe {
                    Some(Ok(c)) => Some(c),
                    _ => None,
                };
                match crate::parameters::resolution(
                    hook_params(cs) + hook_params(ce),
                    strs_view(params@),
                    hook_generic(cs) || hook_generic(ce),
                ) {
                    Err(e) => (r matches Err(PrepareError::Params(x)) && x@ == e),
                    Ok((resolved, left)) => r is Ok && r->Ok_0.resolver@.resolved == resolved
                        && r->Ok_0.resolver@.unclaimed == left && (match cs {
                        Some(c) => r->Ok_0.at_start matches Some(t) && t@.commands == c,
                        None => r->Ok_0.at_start is None,
                    }) && (match ce {
                        Some(c) => r->Ok_0.at_exit matches Some(t) && t@.commands == c,
                        None => r->Ok_0.at_exit is None,
                    }),
                }
                },
                },
            }
        }),
{
    let fs = match flatten_hook(config, at_start) {
        Ok(f) => f,
        Err(e) => {
            return Err(PrepareError::Flatten(e));
        },
    };
    let fe = match flatten_hook(config, at_exit) {
        Ok(f) => f,
        Err(e) => {
            return Err(PrepareError::Flatten(e));
        },
    };
    let mut defs: Vec<ParameterDef> = Vec::new();
    let mut generic = false;
    match &fs {
        Some(t) => {
            let shared = Arc::new(crate::models::copy_task(t));
            defs = collect_parameter_defs_from_task(&shared);
            generic = task_has_generic_params(t);
        },
        None => {},
    }
    match &fe {
        Some(t) => {
            let shared = Arc::new(crate::models::copy_task(t));
            let more = collect_parameter_defs_from_task(&shared);
            let ghost before = defs_view(defs@);
            let mut i: usize = 0;
            while i < more.len()
                invariant
                    i <= more@.len(),
                    defs_view(defs@) == before + defs_view(more@).subrange(0, i as int),
                decreases more@.len() - i,
            {
                let ghost d0 = defs_view(defs@);
                defs.push(crate::models::copy_param(&more[i]));
                assert(defs_view(defs@) =~= d0.push(defs_view(more@)[i as int]));
                assert(defs_view(more@).subrange(0, i + 1) =~= defs_view(more@).subrange(
                    0,
                    i as int,
                ).push(defs_view(more@)[i as int]));
                i = i + 1;
            }
            assert(defs_view(more@).subrange(0, i as int) =~= defs_view(more@));
            generic = generic || task_has_generic_params(t);
        },
        None => {},
    }
    proof {
        if fs is None {
            assert(defs_view(defs@) =~= hook_params(None) + defs_view(defs@));
        }
    }
    assert(defs_view(defs@) =~= hook_params(
        match fs {
            Some(t) => Some(t@.commands),
            None => None,
        },
    ) + hook_params(
        match fe {
            Some(t) => Some(t@.commands),
            None => None,
        },
    ));
    let resolver = match ArgResolver::new(defs.as_slice(), params, generic) {
        Ok(res) => res,
        Err(e) => {
            return Err(PrepareError::Params(e));
        },
    };
    Ok(PreparedHooks { at_start: fs, at_exit: fe, resolver })
}

/// Why an `open` command cannot run.
#[derive(Debug, Clone)]
pub enum OpenError {
    /// No key given and no default configured.
    NoDefault,
    /// The configured default names no command.
    DefaultNotFound(String),
    /// The given key names no command.
    KeyNotFound(String),
}

impl OpenError {
    /// The text of [`Self::message`].
    pub open spec fn message_text(&self) -> Seq<char> {
        match self {
            OpenError::NoDefault => "No application specified and no default 'open_with' command is configured."@,
            OpenError::DefaultNotFound(k) => "The default 'open_with' command '"@ + k@ + "' is not defined."@,
            OpenError::KeyNotFound(k) => "No 'open_with' command named '"@ + k@ + "' is defined."@,
        }
    }

    /// The message shown to the user.
    pub fn message(&self) -> (r: String)
        ensures
            r@ == self.message_text(),
    {
        match self {
            OpenError::NoDefault => owned(
                "No application specified and no default 'open_with' command is configured.",
            ),
            OpenError::DefaultNotFound(k) => {
                let mut m = owned("The default 'open_with' command '");
                m.append(k.as_str());
                m.append("' is not defined.");
                m
            },
            OpenError::KeyNotFound(k) => {
                let mut m = owned("No 'open_with' command named '");
                m.append(k.as_str());
                m.append("' is defined.");
                m
            },
        }
    }
}

/// Selects the `open_with` command to run: the given key, else the default one.
pub fn select_open_command<'a>(
    app_key: Option<&str>,
    open_with: &'a crate::resolved::ResolvedOpenWithConfig,
) -> (r: Result<(String, &'a Task), OpenError>)
    ensures
        ({
            let key = match app_key {
                Some(k) => Some(k@),
                None => crate::models::opt_str(open_with.default),
            };
            match key {
                None => r matches Err(OpenError::NoDefault),
                Some(k) => match crate::resolved::first_value(
                    crate::resolved::pairs_view(open_with.commands@),
                    k,
                ) {
                    Some(t) => r is Ok && r->Ok_0.0@ == k && r->Ok_0.1@ == t,
                    None => if crate::models::opt_str(open_with.default) == Some(k) {
                        (r matches Err(OpenError::DefaultNotFound(x)) && x@ == k)
                    } else {
                        (r matches Err(OpenError::KeyNotFound(x)) && x@ == k)
                    },
                },
            }
        }),
{
    let key: String = match app_key {
        Some(k) => owned(k),
        None => match &open_with.default {
            Some(d) => d.clone(),
            None => {
                return Err(OpenError::NoDefault);
            },
        },
    };
    let ghost all = crate::resolved::pairs_view(open_with.commands@);
    let mut j: usize = 0;
    assert(all.subrange(0, all.len() as int) =~= all);
    while j < open_with.commands.len()
        invariant
            j <= open_with.commands@.len(),
            all == crate::resolved::pairs_view(open_with.commands@),
            crate::resolved::first_value(all, key@) == crate::resolved::first_value(
                all.subrange(j as int, all.len() as int),
                key@,
            ),
            Some(key@) == match app_key {
                Some(k) => Some(k@),
                None => crate::models::opt_str(open_with.default),
            },
        decreases open_with.commands@.len() - j,
    {
        let ghost rest = all.subrange(j as int, all.len() as int);
        assert(rest[0] == (open_with.commands@[j as int].0@, open_with.commands@[j as int].1@));
        if str_eq(open_with.commands[j].0.as_str(), key.as_str()) {
            assert(rest.len() > 0 && rest[0].0 == key@);
            assert(crate::resolved::first_value(rest, key@) == Some(rest[0].1));
            return Ok((key, &open_with.commands[j].1));
        }
        assert(rest.drop_first() =~= all.subrange(j + 1, all.len() as int));
        j = j + 1;
    }
    let is_default = match &open_with.default {
        Some(d) => str_eq(d.as_str(), key.as_str()),
        None => false,
    };
    if is_default {
        Err(OpenError::DefaultNotFound(key))
    } else {
        Err(OpenError::KeyNotFound(key))
    }
}

/// The prefixes shown before a command in a dry run: `@` when silent, `-` when
/// errors are ignored, `>` when parallel.
pub open spec fn dry_run_prefix_text(c: CommandExecutionView) -> Seq<char> {
    (if c.silent_mode {
        seq!['@']
    } else {
        Seq::empty()
    }) + (if c.ignore_errors {
        seq!['-']
    } else {
        Seq::empty()
    }) + (if c.run_in_parallel {
        seq!['>']
    } else {
        Seq::empty()
    })
}

/// The prefixes shown before a command in a dry run.
pub fn dry_run_prefixes(c: &CommandExecution) -> (r: String)
    ensures
        r@ == dry_run_prefix_text(c@),
{
    let mut p = String::new();
    if c.silent_mode {
        crate::text::push_char(&mut p, '@');
    }
    if c.ignore_errors {
        crate::text::push_char(&mut p, '-');
    }
    if c.run_in_parallel {
        crate::text::push_char(&mut p, '>');
    }
    p
}

/// Whether every command of a task is silent (then no header is shown).
pub fn task_is_silent(task: &crate::models::PlatformSpecializedTask) -> (r: bool)
    ensures
        r == forall|i: int| 0 <= i < task.commands@.len() ==> (#[trigger] task.commands@[i]).silent_mode,
{
    let mut i: usize = 0;
    while i < task.commands.len()
        invariant
            i <= task.commands@.len(),
            forall|k: int| 0 <= k < i ==> (#[trigger] task.commands@[k]).silent_mode,
        decreases task.commands@.len() - i,
    {
        if !task.commands[i].silent_mode {
            return false;
        }
        i = i + 1;
    }
    true
}

/// Why `run` cannot find its script.
#[derive(Debug, Clone)]
pub enum RunError {
    /// A layer of the hierarchy failed to load (its message).
    Layer(String),
    /// No layer of the hierarchy defines the script.
    NotFound { script: String, project: String },
}

impl RunError {
    /// The text of [`Self::message`].
    pub open spec fn message_text(&self) -> Seq<char> {
        match self {
            RunError::Layer(m) => m@,
            RunError::NotFound { script, project } => "Script '"@ + script@ + "' not found in project '"@
                + project@ + "' or its parents."@,
        }
    }

    /// The message shown to the user.
    pub fn message(&self) -> (r: String)
        ensures
            r@ == self.message_text(),
    {
        match self {
            RunError::Layer(m) => m.clone(),
            RunError::NotFound { script, project } => {
                let mut m = owned("Script '");
                m.append(script.as_str());
                m.append("' not found in project '");
                m.append(project.as_str());
                m.append("' or its parents.");
                m
            },
        }
    }
}

/// The script to run, from the project or its closest parent that defines it.
pub fn find_script_to_run(config: &crate::resolved::ResolvedConfig, script_name: &str) -> (r: Result<
    Task,
    RunError,
>)
    ensures
        match crate::resolved::script_in(config.layers_spec(), script_name@) {
            Ok(Some(t)) => r is Ok && r->Ok_0@ == t,
            Ok(None) => (r matches Err(RunError::NotFound { script, project }) && script@
                == script_name@ && project@ == config.qualified_name@),
            Err(m) => (r matches Err(RunError::Layer(x)) && x@ == m),
        },
{
    match config.get_script(script_name) {
        Ok(Some(t)) => Ok(crate::models::copy_task(t)),
        Ok(None) => Err(RunError::NotFound { script: owned(script_name), project: config.qualified_name.clone() }),
        Err(m) => Err(RunError::Layer(m)),
    }
}

} // verus!
