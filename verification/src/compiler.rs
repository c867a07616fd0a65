//! Ahead-of-time compilation of the flexible `axes.toml` syntax into the
//! platform-agnostic command AST: execution prefixes (`@`, `-`, `>`, `#`), the
//! token grammar (`<name>`, `<params::0>`, `<#red>`, `<run('...')>`, ...) and the
//! compilation of scripts, variables and whole project layers.

use vstd::prelude::*;
use crate::color::{parse_style_name, style_named, UnknownStyle};
use crate::models::{
    opt_cmd, opt_str, opt_task, plat_seq_view, str_pairs_view, tasks_view, template_view, vars_view,
    CachedOpenWithConfig, CachedOptionsConfig, CachedProjectConfig, ProjectConfig, CachedVar,
    CachedVarView, CommandAction,
    CommandActionView, CommandExecution, CommandExecutionView, PlatformCommand, PlatformExecution,
    PlatformExecutionView, RunSpec, Task, TaskView, TemplateComponent, TemplateComponentView,
    TomlCommand, TomlScript, TomlVar, TomlVarValue,
};
use crate::parameters::{
    modifiers_of, parameter_token, parse_parameter_modifiers_from_str, parse_parameter_token,
    ParamError, ParamErrorView,
};
use crate::text::{
    chars_eq, chars_of, has_at, lemma_scan, owned, push_char, scan, scan_exec,
    spells, starts, starts_with, string_of, trim, trim_chars, trim_end, trim_end_len, trim_start,
    CharClass,
};

verus! {

// =========================================================================
// === Token errors
// =========================================================================

/// Why the content of a token could not be understood.
#[derive(Debug, Clone)]
pub enum TokenCause {
    /// A parameter token with an invalid definition or modifiers.
    Parameter(ParamError),
    /// `<#name>` with an unknown style.
    UnknownStyle(UnknownStyle),
    /// `<run...>` not of the form `<run('command')>`.
    InvalidRunSyntax,
    /// A token of no known namespace.
    UnknownNamespace,
}

/// A token that could not be parsed, with the token as written.
#[derive(Debug, Clone)]
pub struct TokenError {
    pub token: String,
    pub cause: TokenCause,
}

pub ghost enum TokenCauseView {
    Parameter(ParamErrorView),
    UnknownStyle(Seq<char>),
    InvalidRunSyntax,
    UnknownNamespace,
}

pub ghost struct TokenErrorView {
    pub token: Seq<char>,
    pub cause: TokenCauseView,
}

impl View for TokenCause {
    type V = TokenCauseView;

    open spec fn view(&self) -> TokenCauseView {
        match self {
            TokenCause::Parameter(e) => TokenCauseView::Parameter(e@),
            TokenCause::UnknownStyle(u) => TokenCauseView::UnknownStyle(u.name@),
            TokenCause::InvalidRunSyntax => TokenCauseView::InvalidRunSyntax,
            TokenCause::UnknownNamespace => TokenCauseView::UnknownNamespace,
        }
    }
}

impl View for TokenError {
    type V = TokenErrorView;

    open spec fn view(&self) -> TokenErrorView {
        TokenErrorView { token: self.token@, cause: self.cause@ }
    }
}

impl TokenError {
    /// The text of [`Self::message`].
    pub open spec fn message_text(&self) -> Seq<char> {
        "Failed to parse token: '"@ + self.token@ + "': "@ + (match self.cause {
            TokenCause::Parameter(e) => e.message_text(),
            TokenCause::UnknownStyle(u) => u.message_text(),
            TokenCause::InvalidRunSyntax => "Invalid run syntax"@,
            TokenCause::UnknownNamespace => "Unknown token namespace"@,
        })
    }

    /// The error message shown to the user.
    pub fn message(&self) -> (r: String)
        ensures
            r@ == self.message_text(),
    {
        let mut m = String::new();
        m.append("Failed to parse token: '");
        m.append(self.token.as_str());
        m.append("': ");
        match &self.cause {
            TokenCause::Parameter(e) => {
                let inner = e.message();
                m.append(inner.as_str());
            },
            TokenCause::UnknownStyle(u) => {
                let inner = u.message();
                m.append(inner.as_str());
            },
            TokenCause::InvalidRunSyntax => {
                m.append("Invalid run syntax");
            },
            TokenCause::UnknownNamespace => {
                m.append("Unknown token namespace");
            },
        }
        m
    }
}

// =========================================================================
// === Token contents
// =========================================================================

/// The component that the content of a token denotes, the content taken without
/// surrounding whitespace: `params::spec`, `params(modifiers)`, `params`, `#style`,
/// `run('command')`, `path`, `name`, `uuid`, `version`, `scripts::name`, `vars::name`.
pub open spec fn token_component(content: Seq<char>, full: Seq<char>) -> Result<
    TemplateComponentView,
    TokenCauseView,
> {
    let t = trim(content);
    if starts_with(t, "params::"@) {
        match parameter_token(full, t.subrange(8, t.len() as int)) {
            Ok(d) => Ok(TemplateComponentView::Parameter(d)),
            Err(e) => Err(TokenCauseView::Parameter(e)),
        }
    } else if starts_with(t, "params("@) && t.len() >= 8 && t[t.len() - 1] == ')' {
        match modifiers_of(t.subrange(7, t.len() - 1)) {
            Ok(m) => Ok(TemplateComponentView::GenericParams { literal: m.literal }),
            Err(e) => Err(TokenCauseView::Parameter(e)),
        }
    } else if t == "params"@ {
        Ok(TemplateComponentView::GenericParams { literal: false })
    } else if t.len() > 0 && t[0] == '#' {
        match style_named(t.drop_first()) {
            Some(st) => Ok(TemplateComponentView::Color(st)),
            None => Err(TokenCauseView::UnknownStyle(t.drop_first())),
        }
    } else if starts_with(t, "run"@) {
        if starts_with(t, "run('"@) && t.len() >= 7 && t[t.len() - 2] == '\'' && t[t.len() - 1]
            == ')' {
            Ok(TemplateComponentView::Run(t.subrange(5, t.len() - 2)))
        } else {
            Err(TokenCauseView::InvalidRunSyntax)
        }
    } else if t == "path"@ {
        Ok(TemplateComponentView::Path)
    } else if t == "name"@ {
        Ok(TemplateComponentView::Name)
    } else if t == "uuid"@ {
        Ok(TemplateComponentView::Uuid)
    } else if t == "version"@ {
        Ok(TemplateComponentView::Version)
    } else if starts_with(t, "scripts::"@) {
        Ok(TemplateComponentView::Script(t.subrange(9, t.len() as int)))
    } else if starts_with(t, "vars::"@) {
        Ok(TemplateComponentView::Var(t.subrange(6, t.len() as int)))
    } else {
        Err(TokenCauseView::UnknownNamespace)
    }
}

/// Parses the inner content of a token `<...>`; `full` is the whole token.
pub fn parse_token_content(content: &str, full: &str) -> (r: Result<TemplateComponent, TokenCause>)
    ensures
        match token_component(content@, full@) {
            Ok(c) => r is Ok && r->Ok_0@ == c,
            Err(e) => r is Err && r->Err_0@ == e,
        },
{
    let cv = chars_of(content);
    let t = trim_chars(&cv);
    let n = t.len();
    proof {
        reveal_strlit("params::");
        reveal_strlit("params(");
        reveal_strlit("run");
        reveal_strlit("run('");
        reveal_strlit("scripts::");
        reveal_strlit("vars::");
    }
    if starts(&t, "params::") {
        let spec_text = string_of(&t, 8, n);
        match parse_parameter_token(full, spec_text.as_str()) {
            Ok(d) => Ok(TemplateComponent::Parameter(d)),
            Err(e) => Err(TokenCause::Parameter(e)),
        }
    } else if starts(&t, "params(") && n >= 8 && t[n - 1] == ')' {
        let mods = string_of(&t, 7, n - 1);
        match parse_parameter_modifiers_from_str(mods.as_str()) {
            Ok(m) => Ok(TemplateComponent::GenericParams { literal: m.literal }),
            Err(e) => Err(TokenCause::Parameter(e)),
        }
    } else if spells(&t, "params") {
        Ok(TemplateComponent::GenericParams { literal: false })
    } else if n > 0 && t[0] == '#' {
        let name = string_of(&t, 1, n);
        assert(name@ =~= t@.drop_first());
        match parse_style_name(name.as_str()) {
            Ok(st) => Ok(TemplateComponent::Color(st)),
            Err(u) => Err(TokenCause::UnknownStyle(u)),
        }
    } else if starts(&t, "run") {
        if starts(&t, "run('") && n >= 7 && t[n - 2] == '\'' && t[n - 1] == ')' {
            Ok(TemplateComponent::Run(RunSpec::Literal(string_of(&t, 5, n - 2))))
        } else {
            Err(TokenCause::InvalidRunSyntax)
        }
    } else if spells(&t, "path") {
        Ok(TemplateComponent::Path)
    } else if spells(&t, "name") {
        Ok(TemplateComponent::Name)
    } else if spells(&t, "uuid") {
        Ok(TemplateComponent::Uuid)
    } else if spells(&t, "version") {
        Ok(TemplateComponent::Version)
    } else if starts(&t, "scripts::") {
        Ok(TemplateComponent::Script(string_of(&t, 9, n)))
    } else if starts(&t, "vars::") {
        Ok(TemplateComponent::Var(string_of(&t, 6, n)))
    } else {
        Err(TokenCause::UnknownNamespace)
    }
}

// =========================================================================
// === Tokenizer
// =========================================================================

/// `acc` with the pending literal text appended, when there is any.
pub open spec fn flush(acc: Seq<TemplateComponentView>, lit: Seq<char>) -> Seq<
    TemplateComponentView,
> {
    if lit.len() == 0 {
        acc
    } else {
        acc.push(TemplateComponentView::Literal(lit))
    }
}

/// The components of `s` from position `i` on, with the literal text `lit` not yet
/// emitted and the components `acc` already emitted.
///
/// At each position: `\<...>` (with at least one character before the first `>`)
/// is literal text without its backslash; `<...>` (likewise) is a token, parsed by
/// [`token_component`]; any other character is literal text. Adjacent literal text
/// is merged into one component.
pub open spec fn tokenize_from(
    s: Seq<char>,
    i: int,
    lit: Seq<char>,
    acc: Seq<TemplateComponentView>,
) -> Result<Seq<TemplateComponentView>, TokenErrorView>
    decreases s.len() - i,
{
    if i < 0 || i >= s.len() {
        Ok(flush(acc, lit))
    } else {
        let k1 = scan(s, i + 2, CharClass::Not('>'));
        let k2 = scan(s, i + 1, CharClass::Not('>'));
        if s[i] == '\\' && i + 1 < s.len() && s[i + 1] == '<' && i + 2 < k1 < s.len() {
            tokenize_from(s, k1 + 1, lit + s.subrange(i + 1, k1 + 1), acc)
        } else if s[i] == '<' && i + 1 < k2 < s.len() {
            match token_component(s.subrange(i + 1, k2), s.subrange(i, k2 + 1)) {
                Ok(c) => tokenize_from(s, k2 + 1, Seq::empty(), flush(acc, lit).push(c)),
                Err(e) => Err(TokenErrorView { token: s.subrange(i, k2 + 1), cause: e }),
            }
        } else {
            tokenize_from(s, i + 1, lit.push(s[i]), acc)
        }
    }
}

/// The components of a command string.
pub open spec fn tokenize(s: Seq<char>) -> Result<Seq<TemplateComponentView>, TokenErrorView> {
    tokenize_from(s, 0, Seq::empty(), Seq::empty())
}

/// No literal component is empty, and no two literal components are adjacent.
pub open spec fn literals_merged(c: Seq<TemplateComponentView>) -> bool {
    &&& forall|i: int| 0 <= i < c.len() ==> (#[trigger] c[i] is Literal ==> c[i]->Literal_0.len()
        > 0)
    &&& forall|i: int|
        0 <= i < c.len() - 1 ==> !(#[trigger] c[i] is Literal && c[i + 1] is Literal)
}

/// A token is never literal text.
proof fn lemma_token_not_literal(content: Seq<char>, full: Seq<char>)
    ensures
        token_component(content, full) is Ok ==> !(token_component(content, full)->Ok_0 is Literal),
{
}

/// The tokenizer keeps literal text merged: what it emits before the end never ends
/// with a literal, and flushing a pending literal keeps the components merged.
proof fn lemma_tokenize_from_merged(
    s: Seq<char>,
    i: int,
    lit: Seq<char>,
    acc: Seq<TemplateComponentView>,
)
    requires
        literals_merged(acc),
        acc.len() > 0 ==> !(acc.last() is Literal),
    ensures
        tokenize_from(s, i, lit, acc) is Ok ==> literals_merged(tokenize_from(s, i, lit, acc)->Ok_0),
    decreases s.len() - i,
{
    if i < 0 || i >= s.len() {
    } else {
        let k1 = scan(s, i + 2, CharClass::Not('>'));
        let k2 = scan(s, i + 1, CharClass::Not('>'));
        if s[i] == '\\' && i + 1 < s.len() && s[i + 1] == '<' && i + 2 < k1 < s.len() {
            lemma_tokenize_from_merged(s, k1 + 1, lit + s.subrange(i + 1, k1 + 1), acc);
        } else if s[i] == '<' && i + 1 < k2 < s.len() {
            let content = s.subrange(i + 1, k2);
            let full = s.subrange(i, k2 + 1);
            lemma_token_not_literal(content, full);
            if token_component(content, full) is Ok {
                let c = token_component(content, full)->Ok_0;
                let next = flush(acc, lit).push(c);
                assert(next.last() == c);
                assert forall|j: int| 0 <= j < next.len() - 1 implies !(#[trigger] next[j] is Literal
                    && next[j + 1] is Literal) by {
                    if j + 1 == next.len() - 1 {
                    } else if lit.len() > 0 && j + 1 == next.len() - 2 {
                        assert(next[j] == acc[j]);
                    } else {
                        assert(next[j] == acc[j]);
                        assert(next[j + 1] == acc[j + 1]);
                    }
                }
                assert forall|j: int| 0 <= j < next.len() implies (#[trigger] next[j] is Literal
                    ==> next[j]->Literal_0.len() > 0) by {
                    if j < acc.len() {
                        assert(next[j] == acc[j]);
                    }
                }
                lemma_tokenize_from_merged(s, k2 + 1, Seq::empty(), next);
            }
        } else {
            lemma_tokenize_from_merged(s, i + 1, lit.push(s[i]), acc);
        }
    }
}

/// Law: the components of a tokenized string hold no empty literal and no two
/// adjacent literals.
pub proof fn lemma_tokenize_literals_merged(s: Seq<char>)
    ensures
        tokenize(s) is Ok ==> literals_merged(tokenize(s)->Ok_0),
{
    lemma_tokenize_from_merged(s, 0, Seq::empty(), Seq::empty());
}

/// Without `<`, every character from `i` on is literal text.
proof fn lemma_tokenize_from_plain(s: Seq<char>, i: int, lit: Seq<char>, acc: Seq<TemplateComponentView>)
    requires
        0 <= i <= s.len(),
        !s.contains('<'),
    ensures
        tokenize_from(s, i, lit, acc) == Ok::<Seq<TemplateComponentView>, TokenErrorView>(
            flush(acc, lit + s.subrange(i, s.len() as int)),
        ),
    decreases s.len() - i,
{
    if i >= s.len() {
        assert(lit + s.subrange(i, s.len() as int) =~= lit);
    } else {
        assert(s[i] != '<');
        if i + 1 < s.len() {
            assert(s[i + 1] != '<');
        }
        lemma_tokenize_from_plain(s, i + 1, lit.push(s[i]), acc);
        assert(lit.push(s[i]) + s.subrange(i + 1, s.len() as int) =~= lit + s.subrange(i, s.len() as int));
    }
}

/// Law: text without `<` holds no token: it tokenizes to nothing when empty,
/// and to one literal holding the whole text otherwise.
pub proof fn lemma_tokenize_plain_text(s: Seq<char>)
    requires
        !s.contains('<'),
    ensures
        tokenize(s) == Ok::<Seq<TemplateComponentView>, TokenErrorView>(
            if s.len() == 0 {
                Seq::empty()
            } else {
                seq![TemplateComponentView::Literal(s)]
            },
        ),
{
    lemma_tokenize_from_plain(s, 0, Seq::empty(), Seq::empty());
    assert(Seq::<char>::empty() + s.subrange(0, s.len() as int) =~= s);
    if s.len() > 0 {
        assert(Seq::<TemplateComponentView>::empty().push(TemplateComponentView::Literal(s)) =~= seq![
            TemplateComponentView::Literal(s),
        ]);
    }
}

/// Appends the pending literal text, if any, as one component.
fn flush_exec(acc: &mut Vec<TemplateComponent>, lit: String)
    ensures
        template_view(final(acc)@) == flush(template_view(old(acc)@), lit@),
{
    if lit.as_str().unicode_len() > 0 {
        acc.push(TemplateComponent::Literal(lit));
        assert(template_view(acc@) =~= template_view(old(acc)@).push(
            TemplateComponentView::Literal(lit@),
        ));
    }
}

/// Transforms a command string into template components, merging adjacent literal text.
pub fn tokenize_string(text: &str) -> (r: Result<Vec<TemplateComponent>, TokenError>)
    ensures
        match tokenize(text@) {
            Ok(c) => r is Ok && template_view(r->Ok_0@) == c,
            Err(e) => r is Err && r->Err_0@ == e,
        },
{
    let s = chars_of(text);
    let n = s.len();
    let mut acc: Vec<TemplateComponent> = Vec::new();
    let mut lit = String::new();
    let mut i: usize = 0;
    assert(template_view(acc@) =~= Seq::<TemplateComponentView>::empty());
    while i < n
        invariant
            i <= n,
            n == s@.len(),
            s@ == text@,
            tokenize(text@) == tokenize_from(s@, i as int, lit@, template_view(acc@)),
        decreases n - i,
    {
        let k1 = if n - i >= 2 {
            scan_exec(&s, i + 2, CharClass::Not('>'))
        } else {
            n
        };
        let k2 = scan_exec(&s, i + 1, CharClass::Not('>'));
        proof {
            if i + 2 > n {
                assert(scan(s@, i + 2, CharClass::Not('>')) == n);
            }
        }
        if s[i] == '\\' && i + 1 < n && s[i + 1] == '<' && i + 2 < k1 && k1 < n {
            let piece = string_of(&s, i + 1, k1 + 1);
            lit.append(piece.as_str());
            i = k1 + 1;
        } else if s[i] == '<' && i + 1 < k2 && k2 < n {
            let content = string_of(&s, i + 1, k2);
            let full = string_of(&s, i, k2 + 1);
            match parse_token_content(content.as_str(), full.as_str()) {
                Ok(c) => {
                    let pending = lit;
                    lit = String::new();
                    flush_exec(&mut acc, pending);
                    let ghost before = template_view(acc@);
                    acc.push(c);
                    assert(template_view(acc@) =~= before.push(c@));
                    i = k2 + 1;
                },
                Err(e) => {
                    return Err(TokenError { token: full, cause: e });
                },
            }
        } else {
            push_char(&mut lit, s[i]);
            i = i + 1;
        }
    }
    flush_exec(&mut acc, lit);
    Ok(acc)
}

// =========================================================================
// === Execution prefixes
// =========================================================================

/// The execution prefixes read from the start of a line.
#[derive(Debug, Clone, Copy, Default, PartialEq, Eq, Structural)]
pub struct Prefixes {
    /// `-`: ignore errors.
    pub ignore_errors: bool,
    /// `>`: run in parallel with the neighbouring `>` lines.
    pub run_in_parallel: bool,
    /// `@`: do not echo the command.
    pub silent_mode: bool,
    /// `#`: print the line instead of running it.
    pub is_echo: bool,
}

/// No prefix set.
pub open spec fn no_prefixes() -> Prefixes {
    Prefixes { ignore_errors: false, run_in_parallel: false, silent_mode: false, is_echo: false }
}

/// The prefixes read from position `k` on, and where the command starts: `-`, `>`
/// and `@` set their flag, whitespace is skipped, `|` ends the prefixes (the command
/// starts after it) and any other character starts the command. A line made only
/// of prefixes and whitespace has no command left.
pub open spec fn prefix_scan(s: Seq<char>, k: int, acc: Prefixes) -> (Prefixes, int)
    decreases s.len() - k,
{
    if k < 0 || k >= s.len() {
        (acc, s.len() as int)
    } else {
        let c = s[k];
        if c == '-' {
            prefix_scan(s, k + 1, Prefixes { ignore_errors: true, ..acc })
        } else if c == '>' {
            prefix_scan(s, k + 1, Prefixes { run_in_parallel: true, ..acc })
        } else if c == '@' {
            prefix_scan(s, k + 1, Prefixes { silent_mode: true, ..acc })
        } else if c == '|' {
            (acc, k + 1)
        } else if !crate::text::is_ws(c) {
            (acc, k)
        } else {
            prefix_scan(s, k + 1, acc)
        }
    }
}

/// The prefixes of a line and the command text after them. A line starting with
/// `#` is a line to print: its text follows the `#` and one optional space.
pub open spec fn prefixes_of(s: Seq<char>) -> (Prefixes, Seq<char>) {
    if s.len() > 0 && s[0] == '#' {
        let rest = s.drop_first();
        (
            Prefixes { is_echo: true, ..no_prefixes() },
            if rest.len() > 0 && rest[0] == ' ' {
                rest.drop_first()
            } else {
                rest
            },
        )
    } else {
        let (p, pos) = prefix_scan(s, 0, no_prefixes());
        (p, trim_start(s.subrange(pos, s.len() as int)))
    }
}

/// Law: the command text of a line that is not a `#` line is a suffix of the line.
pub proof fn lemma_prefixes_command_is_suffix(s: Seq<char>)
    ensures
        !(s.len() > 0 && s[0] == '#') ==> exists|k: int|
            0 <= k <= s.len() && prefixes_of(s).1 == #[trigger] s.subrange(k, s.len() as int),
{
    if !(s.len() > 0 && s[0] == '#') {
        lemma_prefix_scan_range(s, 0, no_prefixes());
        let pos = prefix_scan(s, 0, no_prefixes()).1;
        let t = s.subrange(pos, s.len() as int);
        let a = scan(t, 0, CharClass::Whitespace);
        lemma_scan(t, 0, CharClass::Whitespace);
        assert(t.subrange(a, t.len() as int) =~= s.subrange(pos + a, s.len() as int));
    }
}

/// A character that may stand among the prefixes of a line: a prefix or
/// whitespace.
pub open spec fn is_prefix_char(c: char) -> bool {
    c == '-' || c == '>' || c == '@' || crate::text::is_ws(c)
}

/// Whether `h` is the head of a line: prefixes and whitespace, optionally
/// followed by one `|` and whitespace.
pub open spec fn prefix_head(h: Seq<char>) -> bool {
    ||| forall|j: int| 0 <= j < h.len() ==> is_prefix_char(#[trigger] h[j])
    ||| exists|k: int|
        #![trigger h[k]]
        0 <= k < h.len() && h[k] == '|' && (forall|j: int| 0 <= j < k ==> is_prefix_char(#[trigger] h[j]))
            && (forall|j: int| k < j < h.len() ==> crate::text::is_ws(#[trigger] h[j]))
}

/// Whether `c` occurs before position `n` of `s`.
pub open spec fn occurs_before(s: Seq<char>, n: int, c: char) -> bool {
    exists|j: int| 0 <= j < n && #[trigger] s[j] == c
}

/// The scan reads prefix characters only, setting each flag exactly when its
/// character was read, and stops at the end, after a `|`, or at a character
/// that starts the command.
proof fn lemma_prefix_scan_shape(s: Seq<char>, k: int, acc: Prefixes)
    requires
        0 <= k <= s.len(),
        forall|j: int| 0 <= j < k ==> is_prefix_char(#[trigger] s[j]),
        acc.ignore_errors == occurs_before(s, k, '-'),
        acc.run_in_parallel == occurs_before(s, k, '>'),
        acc.silent_mode == occurs_before(s, k, '@'),
        !acc.is_echo,
    ensures
        ({
            let (p, pos) = prefix_scan(s, k, acc);
            &&& k <= pos <= s.len()
            &&& !p.is_echo
            &&& p.ignore_errors == occurs_before(s, pos, '-')
            &&& p.run_in_parallel == occurs_before(s, pos, '>')
            &&& p.silent_mode == occurs_before(s, pos, '@')
            &&& {
                ||| (pos == s.len() && forall|j: int| 0 <= j < pos ==> is_prefix_char(#[trigger] s[j]))
                ||| (pos >= 1 && s[pos - 1] == '|' && forall|j: int|
                    0 <= j < pos - 1 ==> is_prefix_char(#[trigger] s[j]))
                ||| (pos < s.len() && !crate::text::is_ws(s[pos]) && forall|j: int|
                    0 <= j < pos ==> is_prefix_char(#[trigger] s[j]))
            }
        }),
    decreases s.len() - k,
{
    if k < s.len() {
        let c = s[k];
        let nxt = if c == '-' {
            Prefixes { ignore_errors: true, ..acc }
        } else if c == '>' {
            Prefixes { run_in_parallel: true, ..acc }
        } else if c == '@' {
            Prefixes { silent_mode: true, ..acc }
        } else {
            acc
        };
        if c == '-' || c == '>' || c == '@' || (c != '|' && crate::text::is_ws(c)) {
            assert forall|j: int| 0 <= j < k + 1 implies is_prefix_char(#[trigger] s[j]) by {}
            assert(occurs_before(s, k + 1, '-') == (occurs_before(s, k, '-') || c == '-')) by {
                if c == '-' {
                    assert(s[k] == '-');
                }
                if occurs_before(s, k + 1, '-') && c != '-' {
                    let j = choose|j: int| 0 <= j < k + 1 && #[trigger] s[j] == '-';
                    assert(j < k);
                }
            }
            assert(occurs_before(s, k + 1, '>') == (occurs_before(s, k, '>') || c == '>')) by {
                if c == '>' {
                    assert(s[k] == '>');
                }
                if occurs_before(s, k + 1, '>') && c != '>' {
                    let j = choose|j: int| 0 <= j < k + 1 && #[trigger] s[j] == '>';
                    assert(j < k);
                }
            }
            assert(occurs_before(s, k + 1, '@') == (occurs_before(s, k, '@') || c == '@')) by {
                if c == '@' {
                    assert(s[k] == '@');
                }
                if occurs_before(s, k + 1, '@') && c != '@' {
                    let j = choose|j: int| 0 <= j < k + 1 && #[trigger] s[j] == '@';
                    assert(j < k);
                }
            }
            lemma_prefix_scan_shape(s, k + 1, nxt);
        } else if c == '|' {
            assert(occurs_before(s, k + 1, '-') == occurs_before(s, k, '-')) by {
                if occurs_before(s, k + 1, '-') {
                    let j = choose|j: int| 0 <= j < k + 1 && #[trigger] s[j] == '-';
                    assert(j < k);
                }
            }
            assert(occurs_before(s, k + 1, '>') == occurs_before(s, k, '>')) by {
                if occurs_before(s, k + 1, '>') {
                    let j = choose|j: int| 0 <= j < k + 1 && #[trigger] s[j] == '>';
                    assert(j < k);
                }
            }
            assert(occurs_before(s, k + 1, '@') == occurs_before(s, k, '@')) by {
                if occurs_before(s, k + 1, '@') {
                    let j = choose|j: int| 0 <= j < k + 1 && #[trigger] s[j] == '@';
                    assert(j < k);
                }
            }
        }
    }
}

/// Law: a line splits into a head and the command text. A `#` line sets only
/// the echo flag. Any other line is its head followed by the command text: the
/// head holds prefixes and whitespace (optionally then one `|` and
/// whitespace), the command text starts with no whitespace, and each flag is
/// set exactly when its character (`-`, `>`, `@`) occurs in the head.
pub proof fn lemma_prefixes_shape(s: Seq<char>)
    ensures
        ({
            let (p, rest) = prefixes_of(s);
            let head = s.subrange(0, s.len() - rest.len());
            &&& rest.len() <= s.len()
            &&& s == head + rest
            &&& (s.len() > 0 && s[0] == '#') ==> p == Prefixes { is_echo: true, ..no_prefixes() }
            &&& !(s.len() > 0 && s[0] == '#') ==> {
                &&& !p.is_echo
                &&& prefix_head(head)
                &&& (rest.len() > 0 ==> !crate::text::is_ws(rest[0]))
                &&& p.ignore_errors == head.contains('-')
                &&& p.run_in_parallel == head.contains('>')
                &&& p.silent_mode == head.contains('@')
            }
        }),
{
    let (p, rest) = prefixes_of(s);
    if s.len() > 0 && s[0] == '#' {
        let r = s.drop_first();
        if r.len() > 0 && r[0] == ' ' {
            assert(s =~= s.subrange(0, 2) + r.drop_first());
        } else {
            assert(s =~= s.subrange(0, 1) + r);
        }
    } else {
        assert(no_prefixes().ignore_errors == occurs_before(s, 0, '-'));
        assert(no_prefixes().run_in_parallel == occurs_before(s, 0, '>'));
        assert(no_prefixes().silent_mode == occurs_before(s, 0, '@'));
        lemma_prefix_scan_shape(s, 0, no_prefixes());
        let pos = prefix_scan(s, 0, no_prefixes()).1;
        let t = s.subrange(pos, s.len() as int);
        let a = scan(t, 0, CharClass::Whitespace);
        lemma_scan(t, 0, CharClass::Whitespace);
        assert(rest =~= s.subrange(pos + a, s.len() as int));
        let head = s.subrange(0, s.len() - rest.len());
        assert(head =~= s.subrange(0, pos + a));
        assert(s =~= head + rest);
        assert forall|j: int| pos <= j < pos + a implies crate::text::is_ws(#[trigger] head[j]) by {
            assert(head[j] == t[j - pos]);
        }
        if rest.len() > 0 {
            assert(rest[0] == t[a]);
        }
        if pos < s.len() && !crate::text::is_ws(s[pos]) {
            assert(t[0] == s[pos]);
            assert(a == 0);
        }
        assert forall|c: char| c == '-' || c == '>' || c == '@' implies (head.contains(c) == occurs_before(
            s,
            pos,
            c,
        )) by {
            if head.contains(c) {
                let j = choose|j: int| 0 <= j < head.len() && head[j] == c;
                if j >= pos {
                    assert(crate::text::is_ws(head[j]));
                }
                assert(s[j] == c);
            }
            if occurs_before(s, pos, c) {
                let j = choose|j: int| 0 <= j < pos && #[trigger] s[j] == c;
                assert(head[j] == c);
            }
        }
        if pos >= 1 && s[pos - 1] == '|' && (forall|j: int| 0 <= j < pos - 1 ==> is_prefix_char(#[trigger] s[j])) {
            assert(head[pos - 1] == '|');
            assert forall|j: int| pos - 1 < j < head.len() implies crate::text::is_ws(#[trigger] head[j]) by {}
        }
    }
}

/// Where the command starts lies within the line.
proof fn lemma_prefix_scan_range(s: Seq<char>, k: int, acc: Prefixes)
    requires
        0 <= k,
    ensures
        0 <= prefix_scan(s, k, acc).1 <= s.len(),
    decreases s.len() - k,
{
    if k < s.len() {
        lemma_prefix_scan_range(s, k + 1, Prefixes { ignore_errors: true, ..acc });
        lemma_prefix_scan_range(s, k + 1, Prefixes { run_in_parallel: true, ..acc });
        lemma_prefix_scan_range(s, k + 1, Prefixes { silent_mode: true, ..acc });
        lemma_prefix_scan_range(s, k + 1, acc);
    }
}

/// Parses the execution prefixes (`@`, `-`, `>`, `#`) at the start of a line and
/// returns them with the command text that follows.
pub fn parse_prefixes(line: &str) -> (r: (Prefixes, String))
    ensures
        r.0 == prefixes_of(line@).0,
        r.1@ == prefixes_of(line@).1,
{
    let s = chars_of(line);
    let n = s.len();
    if n > 0 && s[0] == '#' {
        let prefixes = Prefixes { is_echo: true, ..Prefixes::default_prefixes() };
        let start: usize = if n > 1 && s[1] == ' ' {
            2
        } else {
            1
        };
        let text = string_of(&s, start, n);
        proof {
            let rest = s@.drop_first();
            if n > 1 && s@[1] == ' ' {
                assert(text@ =~= rest.drop_first());
            } else {
                assert(text@ =~= rest);
            }
        }
        return (prefixes, text);
    }
    let mut prefixes = Prefixes::default_prefixes();
    let mut k: usize = 0;
    let mut pos: usize = 0;
    let mut done = false;
    while k < n && !done
        invariant
            k <= n,
            n == s@.len(),
            pos <= n,
            done ==> prefix_scan(s@, 0, no_prefixes()) == (prefixes, pos as int),
            !done ==> prefix_scan(s@, 0, no_prefixes()) == prefix_scan(s@, k as int, prefixes),
        decreases n - k + (if done { 0int } else { 1int }),
    {
        let c = s[k];
        if c == '-' {
            prefixes.ignore_errors = true;
            k = k + 1;
        } else if c == '>' {
            prefixes.run_in_parallel = true;
            k = k + 1;
        } else if c == '@' {
            prefixes.silent_mode = true;
            k = k + 1;
        } else if c == '|' {
            pos = k + 1;
            done = true;
        } else if !crate::text::is_whitespace(c) {
            pos = k;
            done = true;
        } else {
            k = k + 1;
        }
    }
    if !done {
        pos = n;
    }
    let rest_start = scan_exec(&s, pos, CharClass::Whitespace);
    let text = string_of(&s, rest_start, n);
    proof {
        let t = s@.subrange(pos as int, n as int);
        lemma_scan_shift(s@, pos as int);
        assert(text@ =~= t.subrange(scan(t, 0, CharClass::Whitespace), t.len() as int));
    }
    (prefixes, text)
}

/// Scanning a suffix is scanning the whole from the suffix's start.
proof fn lemma_scan_shift(s: Seq<char>, p: int)
    requires
        0 <= p <= s.len(),
    ensures
        scan(s.subrange(p, s.len() as int), 0, CharClass::Whitespace) + p == scan(
            s,
            p,
            CharClass::Whitespace,
        ),
{
    lemma_scan_shift_from(s, p, 0);
}

proof fn lemma_scan_shift_from(s: Seq<char>, p: int, j: int)
    requires
        0 <= p <= s.len(),
        0 <= j <= s.len() - p,
    ensures
        scan(s.subrange(p, s.len() as int), j, CharClass::Whitespace) + p == scan(
            s,
            p + j,
            CharClass::Whitespace,
        ),
    decreases s.len() - p - j,
{
    let t = s.subrange(p, s.len() as int);
    if j < t.len() {
        assert(t[j] == s[p + j]);
        lemma_scan_shift_from(s, p, j + 1);
    }
}

impl Prefixes {
    /// No prefix set.
    pub fn default_prefixes() -> (r: Prefixes)
        ensures
            r == no_prefixes(),
    {
        Prefixes { ignore_errors: false, run_in_parallel: false, silent_mode: false, is_echo: false }
    }
}

// =========================================================================
// === Scripts and variables
// =========================================================================

/// The compiled command of one line: its prefixes (when they are parsed) and the
/// tokens of its command text.
pub open spec fn command_exec(s: Seq<char>, parse_action_prefixes: bool) -> Result<
    CommandExecutionView,
    TokenErrorView,
> {
    let (p, text) = if parse_action_prefixes {
        prefixes_of(s)
    } else {
        (no_prefixes(), s)
    };
    match tokenize(text) {
        Ok(t) => Ok(
            CommandExecutionView {
                action: if p.is_echo {
                    CommandActionView::Print(t)
                } else {
                    CommandActionView::Execute(t)
                },
                ignore_errors: p.ignore_errors,
                run_in_parallel: p.run_in_parallel,
                silent_mode: p.silent_mode,
            },
        ),
        Err(e) => Err(e),
    }
}

/// The compiled command of an optional line.
pub open spec fn opt_command_exec(o: Option<Seq<char>>, parse_action_prefixes: bool) -> Result<
    Option<CommandExecutionView>,
    TokenErrorView,
> {
    match o {
        None => Ok(None),
        Some(s) => match command_exec(s, parse_action_prefixes) {
            Ok(c) => Ok(Some(c)),
            Err(e) => Err(e),
        },
    }
}

/// The compiled platform block of a platform dictionary; the first failing entry,
/// in the order default, windows, linux, macos, gives the error.
pub open spec fn platform_exec(pc: PlatformCommand, parse_action_prefixes: bool) -> Result<
    PlatformExecutionView,
    TokenErrorView,
> {
    match opt_command_exec(opt_str(pc.default), parse_action_prefixes) {
        Err(e) => Err(e),
        Ok(d) => match opt_command_exec(opt_str(pc.windows), parse_action_prefixes) {
            Err(e) => Err(e),
            Ok(w) => match opt_command_exec(opt_str(pc.linux), parse_action_prefixes) {
                Err(e) => Err(e),
                Ok(l) => match opt_command_exec(opt_str(pc.macos), parse_action_prefixes) {
                    Err(e) => Err(e),
                    Ok(m) => Ok(PlatformExecutionView { default: d, windows: w, linux: l, macos: m }),
                },
            },
        },
    }
}

/// Whether the compiled entry `x` is what compiling the line `o` alone gives.
pub open spec fn compiled_in_place(x: Option<CommandExecutionView>, o: Option<Seq<char>>, parse_action_prefixes: bool) -> bool {
    match o {
        None => x is None,
        Some(s) => command_exec(s, parse_action_prefixes) is Ok && x == Some(
            command_exec(s, parse_action_prefixes)->Ok_0,
        ),
    }
}

/// Law: compiling a platform dictionary keeps each entry in its own slot. It
/// succeeds exactly when each of its lines compiles, and then its default,
/// windows, linux and macos commands are the compilations of the dictionary's
/// default, windows, linux and macos lines, each taken alone.
pub proof fn lemma_platform_entries_keep_their_slots(pc: PlatformCommand, parse_action_prefixes: bool)
    ensures
        platform_exec(pc, parse_action_prefixes) is Ok <==> (
            (pc.default matches Some(s) ==> command_exec(s@, parse_action_prefixes) is Ok)
            && (pc.windows matches Some(s) ==> command_exec(s@, parse_action_prefixes) is Ok)
            && (pc.linux matches Some(s) ==> command_exec(s@, parse_action_prefixes) is Ok)
            && (pc.macos matches Some(s) ==> command_exec(s@, parse_action_prefixes) is Ok)),
        platform_exec(pc, parse_action_prefixes) is Ok ==> {
            let p = platform_exec(pc, parse_action_prefixes)->Ok_0;
            &&& compiled_in_place(p.default, opt_str(pc.default), parse_action_prefixes)
            &&& compiled_in_place(p.windows, opt_str(pc.windows), parse_action_prefixes)
            &&& compiled_in_place(p.linux, opt_str(pc.linux), parse_action_prefixes)
            &&& compiled_in_place(p.macos, opt_str(pc.macos), parse_action_prefixes)
        },
{
}

/// A platform block with only a default command.
pub open spec fn default_only(c: CommandExecutionView) -> PlatformExecutionView {
    PlatformExecutionView { default: Some(c), windows: None, linux: None, macos: None }
}

/// The compiled platform block of one script line (prefixes are parsed).
pub open spec fn toml_command_exec(tc: TomlCommand) -> Result<PlatformExecutionView, TokenErrorView> {
    match tc {
        TomlCommand::Simple(s) => match command_exec(s@, true) {
            Ok(c) => Ok(default_only(c)),
            Err(e) => Err(e),
        },
        TomlCommand::Platform(pc) => platform_exec(pc, true),
    }
}

/// The compiled lines of a sequence; the first failing line gives the error.
pub open spec fn commands_exec(cmds: Seq<TomlCommand>) -> Result<
    Seq<PlatformExecutionView>,
    TokenErrorView,
>
    decreases cmds.len(),
{
    if cmds.len() == 0 {
        Ok(Seq::empty())
    } else {
        match commands_exec(cmds.drop_last()) {
            Err(e) => Err(e),
            Ok(prefix) => match toml_command_exec(cmds.last()) {
                Ok(p) => Ok(prefix.push(p)),
                Err(e) => Err(e),
            },
        }
    }
}

/// The task that a script compiles to.
pub open spec fn script_task(ts: TomlScript) -> Result<TaskView, TokenErrorView>
    decreases ts,
{
    match ts {
        TomlScript::Simple(s) => match toml_command_exec(TomlCommand::Simple(s)) {
            Ok(p) => Ok(TaskView { desc: None, commands: seq![p] }),
            Err(e) => Err(e),
        },
        TomlScript::Sequence(cmds) => match commands_exec(cmds@) {
            Ok(ps) => Ok(TaskView { desc: None, commands: ps }),
            Err(e) => Err(e),
        },
        TomlScript::Platform(pc) => match platform_exec(pc, true) {
            Ok(p) => Ok(TaskView { desc: None, commands: seq![p] }),
            Err(e) => Err(e),
        },
        TomlScript::PlatformDirect(pd) => match platform_exec(pd.platform, true) {
            Ok(p) => Ok(TaskView { desc: opt_str(pd.desc), commands: seq![p] }),
            Err(e) => Err(e),
        },
        TomlScript::Extended(ext) => match script_task(*ext.run) {
            Ok(t) => Ok(TaskView { desc: opt_str(ext.desc), commands: t.commands }),
            Err(e) => Err(e),
        },
    }
}

/// The compiled variable; prefixes are never parsed in a variable's value.
pub open spec fn var_value(tv: TomlVar) -> Result<CachedVarView, TokenErrorView> {
    match tv {
        TomlVar::Simple(s) => match command_exec(s@, false) {
            Ok(c) => Ok(CachedVarView { desc: None, value: default_only(c) }),
            Err(e) => Err(e),
        },
        TomlVar::Extended(ext) => match ext.value {
            TomlVarValue::Simple(s) => match command_exec(s@, false) {
                Ok(c) => Ok(CachedVarView { desc: opt_str(ext.desc), value: default_only(c) }),
                Err(e) => Err(e),
            },
            TomlVarValue::Platform(pc) => match platform_exec(pc, false) {
                Ok(p) => Ok(CachedVarView { desc: opt_str(ext.desc), value: p }),
                Err(e) => Err(e),
            },
        },
    }
}

/// A copy of an optional string.
pub fn copy_opt(o: &Option<String>) -> (r: Option<String>)
    ensures
        opt_str(r) == opt_str(*o),
{
    match o {
        Some(s) => Some(s.clone()),
        None => None,
    }
}

/// The lowest level of compilation: a string, with or without its prefixes parsed.
pub fn compile_string_to_command_execution(s: &str, parse_action_prefixes: bool) -> (r: Result<
    CommandExecution,
    TokenError,
>)
    ensures
        match command_exec(s@, parse_action_prefixes) {
            Ok(c) => r is Ok && r->Ok_0@ == c,
            Err(e) => r is Err && r->Err_0@ == e,
        },
{
    let (prefixes, text) = if parse_action_prefixes {
        parse_prefixes(s)
    } else {
        (Prefixes::default_prefixes(), owned(s))
    };
    let template = tokenize_string(text.as_str())?;
    let action = if prefixes.is_echo {
        CommandAction::Print(template)
    } else {
        CommandAction::Execute(template)
    };
    Ok(
        CommandExecution {
            action,
            ignore_errors: prefixes.ignore_errors,
            run_in_parallel: prefixes.run_in_parallel,
            silent_mode: prefixes.silent_mode,
        },
    )
}

/// Compiles an optional line.
fn compile_opt(o: &Option<String>, parse_action_prefixes: bool) -> (r: Result<
    Option<CommandExecution>,
    TokenError,
>)
    ensures
        match opt_command_exec(opt_str(*o), parse_action_prefixes) {
            Ok(c) => r is Ok && opt_cmd(r->Ok_0) == c,
            Err(e) => r is Err && r->Err_0@ == e,
        },
{
    match o {
        Some(s) => {
            let c = compile_string_to_command_execution(s.as_str(), parse_action_prefixes)?;
            Ok(Some(c))
        },
        None => Ok(None),
    }
}

/// Compiles a platform dictionary into a platform block.
pub fn compile_platform_command_to_platform_execution(
    platform_command: &PlatformCommand,
    parse_action_prefixes: bool,
) -> (r: Result<PlatformExecution, TokenError>)
    ensures
        match platform_exec(*platform_command, parse_action_prefixes) {
            Ok(p) => r is Ok && r->Ok_0@ == p,
            Err(e) => r is Err && r->Err_0@ == e,
        },
{
    let default = compile_opt(&platform_command.default, parse_action_prefixes)?;
    let windows = compile_opt(&platform_command.windows, parse_action_prefixes)?;
    let linux = compile_opt(&platform_command.linux, parse_action_prefixes)?;
    let macos = compile_opt(&platform_command.macos, parse_action_prefixes)?;
    Ok(PlatformExecution { default, windows, linux, macos })
}

/// Compiles one line of a script into a platform block.
pub fn compile_toml_command_to_platform_execution(toml_command: &TomlCommand) -> (r: Result<
    PlatformExecution,
    TokenError,
>)
    ensures
        match toml_command_exec(*toml_command) {
            Ok(p) => r is Ok && r->Ok_0@ == p,
            Err(e) => r is Err && r->Err_0@ == e,
        },
{
    match toml_command {
        TomlCommand::Simple(s) => {
            let c = compile_string_to_command_execution(s.as_str(), true)?;
            Ok(PlatformExecution { default: Some(c), windows: None, linux: None, macos: None })
        },
        TomlCommand::Platform(pc) => compile_platform_command_to_platform_execution(pc, true),
    }
}

/// Once a line fails, every longer prefix of the sequence fails with its error.
proof fn lemma_commands_err(cmds: Seq<TomlCommand>, i: int, j: int)
    requires
        0 <= i < j <= cmds.len(),
        commands_exec(cmds.subrange(0, i + 1)) is Err,
    ensures
        commands_exec(cmds.subrange(0, j)) == commands_exec(cmds.subrange(0, i + 1)),
    decreases j - i,
{
    if j > i + 1 {
        lemma_commands_err(cmds, i, j - 1);
        assert(cmds.subrange(0, j).drop_last() =~= cmds.subrange(0, j - 1));
    }
}

/// Compiles the lines of a sequence.
fn compile_commands(cmds: &Vec<TomlCommand>) -> (r: Result<Vec<PlatformExecution>, TokenError>)
    ensures
        match commands_exec(cmds@) {
            Ok(ps) => r is Ok && plat_seq_view(r->Ok_0@) == ps,
            Err(e) => r is Err && r->Err_0@ == e,
        },
{
    let mut out: Vec<PlatformExecution> = Vec::new();
    let mut i: usize = 0;
    assert(cmds@.subrange(0, 0) =~= Seq::<TomlCommand>::empty());
    assert(plat_seq_view(out@) =~= Seq::<PlatformExecutionView>::empty());
    while i < cmds.len()
        invariant
            i <= cmds@.len(),
            commands_exec(cmds@.subrange(0, i as int)) == Ok::<
                Seq<PlatformExecutionView>,
                TokenErrorView,
            >(plat_seq_view(out@)),
        decreases cmds@.len() - i,
    {
        assert(cmds@.subrange(0, i + 1).drop_last() =~= cmds@.subrange(0, i as int));
        let p = match compile_toml_command_to_platform_execution(&cmds[i]) {
            Ok(p) => p,
            Err(e) => {
                proof {
                    lemma_commands_err(cmds@, i as int, cmds@.len() as int);
                    assert(cmds@.subrange(0, cmds@.len() as int) =~= cmds@);
                }
                return Err(e);
            },
        };
        let ghost before = plat_seq_view(out@);
        out.push(p);
        assert(plat_seq_view(out@) =~= before.push(p@));
        i = i + 1;
    }
    assert(cmds@.subrange(0, i as int) =~= cmds@);
    Ok(out)
}

/// Compiles a script by reference.
fn compile_script_ref(toml_script: &TomlScript) -> (r: Result<Task, TokenError>)
    ensures
        match script_task(*toml_script) {
            Ok(t) => r is Ok && r->Ok_0@ == t,
            Err(e) => r is Err && r->Err_0@ == e,
        },
    decreases toml_script,
{
    match toml_script {
        TomlScript::Simple(s) => {
            let c = compile_string_to_command_execution(s.as_str(), true)?;
            let p = PlatformExecution { default: Some(c), windows: None, linux: None, macos: None };
            let commands = vec![p];
            assert(plat_seq_view(commands@) =~= seq![p@]);
            Ok(Task { desc: None, commands })
        },
        TomlScript::Sequence(cmds) => {
            let commands = compile_commands(cmds)?;
            Ok(Task { desc: None, commands })
        },
        TomlScript::Platform(pc) => {
            let p = compile_platform_command_to_platform_execution(pc, true)?;
            let commands = vec![p];
            assert(plat_seq_view(commands@) =~= seq![p@]);
            Ok(Task { desc: None, commands })
        },
        TomlScript::PlatformDirect(pd) => {
            let p = compile_platform_command_to_platform_execution(&pd.platform, true)?;
            let commands = vec![p];
            assert(plat_seq_view(commands@) =~= seq![p@]);
            Ok(Task { desc: copy_opt(&pd.desc), commands })
        },
        TomlScript::Extended(ext) => {
            let mut task = compile_script_ref(&ext.run)?;
            task.desc = copy_opt(&ext.desc);
            Ok(task)
        },
    }
}

/// Compiles a script, in any of its forms, into a platform-agnostic task.
pub fn compile_script(toml_script: TomlScript) -> (r: Result<Task, TokenError>)
    ensures
        match script_task(toml_script) {
            Ok(t) => r is Ok && r->Ok_0@ == t,
            Err(e) => r is Err && r->Err_0@ == e,
        },
{
    compile_script_ref(&toml_script)
}

/// Compiles a variable by reference.
fn compile_var_ref(toml_var: &TomlVar) -> (r: Result<CachedVar, TokenError>)
    ensures
        match var_value(*toml_var) {
            Ok(v) => r is Ok && r->Ok_0@ == v,
            Err(e) => r is Err && r->Err_0@ == e,
        },
{
    match toml_var {
        TomlVar::Simple(s) => {
            let c = compile_string_to_command_execution(s.as_str(), false)?;
            Ok(
                CachedVar {
                    desc: None,
                    value: PlatformExecution {
                        default: Some(c),
                        windows: None,
                        linux: None,
                        macos: None,
                    },
                },
            )
        },
        TomlVar::Extended(ext) => {
            let value = match &ext.value {
                TomlVarValue::Simple(s) => {
                    let c = compile_string_to_command_execution(s.as_str(), false)?;
                    PlatformExecution { default: Some(c), windows: None, linux: None, macos: None }
                },
                TomlVarValue::Platform(pc) => compile_platform_command_to_platform_execution(
                    pc,
                    false,
                )?,
            };
            Ok(CachedVar { desc: copy_opt(&ext.desc), value })
        },
    }
}

/// Compiles a variable into its platform block; its value never has prefixes.
pub fn compile_var(toml_var: TomlVar) -> (r: Result<CachedVar, TokenError>)
    ensures
        match var_value(toml_var) {
            Ok(v) => r is Ok && r->Ok_0@ == v,
            Err(e) => r is Err && r->Err_0@ == e,
        },
{
    compile_var_ref(&toml_var)
}

// =========================================================================
// === Project layers
// =========================================================================

/// The section of `axes.toml` in which compilation failed.
#[derive(Debug, Clone, Copy, PartialEq, Eq, Structural)]
pub enum LayerSection {
    Scripts,
    Vars,
    OpenWith,
    AtStart,
    AtExit,
}

/// A compilation error in a project layer: where it happened and why.
#[derive(Debug, Clone)]
pub struct LayerError {
    pub section: LayerSection,
    pub name: Option<String>,
    pub error: TokenError,
}

impl LayerError {
    /// The text of [`Self::message`].
    pub open spec fn message_text(&self) -> Seq<char> {
        (match self.section {
            LayerSection::Scripts => "Error compiling [scripts] section"@,
            LayerSection::Vars => "Error compiling [vars] section"@,
            LayerSection::OpenWith => "Error compiling [options.open_with] commands"@,
            LayerSection::AtStart => "Error compiling [options.at_start]"@,
            LayerSection::AtExit => "Error compiling [options.at_exit]"@,
        }) + (match self.name {
            Some(n) => ": '"@ + n@ + "'"@,
            None => Seq::empty(),
        }) + ": "@ + self.error.message_text()
    }

    /// The error message shown to the user.
    pub fn message(&self) -> (r: String)
        ensures
            r@ == self.message_text(),
    {
        let mut m = String::new();
        match self.section {
            LayerSection::Scripts => m.append("Error compiling [scripts] section"),
            LayerSection::Vars => m.append("Error compiling [vars] section"),
            LayerSection::OpenWith => m.append("Error compiling [options.open_with] commands"),
            LayerSection::AtStart => m.append("Error compiling [options.at_start]"),
            LayerSection::AtExit => m.append("Error compiling [options.at_exit]"),
        }
        match &self.name {
            Some(n) => {
                m.append(": '");
                m.append(n.as_str());
                m.append("'");
            },
            None => {},
        }
        m.append(": ");
        let inner = self.error.message();
        m.append(inner.as_str());
        m
    }
}

/// The compiled entries of a named list of scripts, in order; the first failing
/// entry gives its name and error.
pub open spec fn named_tasks(entries: Seq<(String, TomlScript)>) -> Result<
    Seq<(Seq<char>, TaskView)>,
    (Seq<char>, TokenErrorView),
>
    decreases entries.len(),
{
    if entries.len() == 0 {
        Ok(Seq::empty())
    } else {
        match named_tasks(entries.drop_last()) {
            Err(e) => Err(e),
            Ok(prefix) => match script_task(entries.last().1) {
                Ok(t) => Ok(prefix.push((entries.last().0@, t))),
                Err(e) => Err((entries.last().0@, e)),
            },
        }
    }
}

/// The compiled entries of a named list of variables, in order.
pub open spec fn named_vars(entries: Seq<(String, TomlVar)>) -> Result<
    Seq<(Seq<char>, CachedVarView)>,
    (Seq<char>, TokenErrorView),
>
    decreases entries.len(),
{
    if entries.len() == 0 {
        Ok(Seq::empty())
    } else {
        match named_vars(entries.drop_last()) {
            Err(e) => Err(e),
            Ok(prefix) => match var_value(entries.last().1) {
                Ok(v) => Ok(prefix.push((entries.last().0@, v))),
                Err(e) => Err((entries.last().0@, e)),
            },
        }
    }
}

/// The compiled optional hook.
pub open spec fn opt_script_task(o: Option<TomlScript>) -> Result<Option<TaskView>, TokenErrorView> {
    match o {
        None => Ok(None),
        Some(ts) => match script_task(ts) {
            Ok(t) => Ok(Some(t)),
            Err(e) => Err(e),
        },
    }
}

/// The view of a layer error.
pub open spec fn layer_error(section: LayerSection, name: Option<Seq<char>>, e: TokenErrorView) -> (
    LayerSection,
    Option<Seq<char>>,
    TokenErrorView,
) {
    (section, name, e)
}

/// The error of compiling a layer, if any: sections in the order scripts, vars,
/// open_with commands, at_start, at_exit, and the first failing entry in each.
pub open spec fn layer_failure(c: ProjectConfig) -> Option<
    (LayerSection, Option<Seq<char>>, TokenErrorView),
> {
    match named_tasks(c.scripts@) {
        Err((n, e)) => Some(layer_error(LayerSection::Scripts, Some(n), e)),
        Ok(_) => match named_vars(c.vars@) {
            Err((n, e)) => Some(layer_error(LayerSection::Vars, Some(n), e)),
            Ok(_) => match named_tasks(c.options.open_with.commands@) {
                Err((n, e)) => Some(layer_error(LayerSection::OpenWith, Some(n), e)),
                Ok(_) => match opt_script_task(c.options.at_start) {
                    Err(e) => Some(layer_error(LayerSection::AtStart, None, e)),
                    Ok(_) => match opt_script_task(c.options.at_exit) {
                        Err(e) => Some(layer_error(LayerSection::AtExit, None, e)),
                        Ok(_) => None,
                    },
                },
            },
        },
    }
}

/// Every prefix of a list past a failing entry fails with that entry's error.
proof fn lemma_named_tasks_err(entries: Seq<(String, TomlScript)>, i: int, j: int)
    requires
        0 <= i < j <= entries.len(),
        named_tasks(entries.subrange(0, i + 1)) is Err,
    ensures
        named_tasks(entries.subrange(0, j)) == named_tasks(entries.subrange(0, i + 1)),
    decreases j - i,
{
    if j > i + 1 {
        lemma_named_tasks_err(entries, i, j - 1);
        assert(entries.subrange(0, j).drop_last() =~= entries.subrange(0, j - 1));
    }
}

proof fn lemma_named_vars_err(entries: Seq<(String, TomlVar)>, i: int, j: int)
    requires
        0 <= i < j <= entries.len(),
        named_vars(entries.subrange(0, i + 1)) is Err,
    ensures
        named_vars(entries.subrange(0, j)) == named_vars(entries.subrange(0, i + 1)),
    decreases j - i,
{
    if j > i + 1 {
        lemma_named_vars_err(entries, i, j - 1);
        assert(entries.subrange(0, j).drop_last() =~= entries.subrange(0, j - 1));
    }
}

/// Compiles a named list of scripts.
fn compile_named_tasks(entries: &Vec<(String, TomlScript)>) -> (r: Result<
    Vec<(String, Task)>,
    (String, TokenError),
>)
    ensures
        match named_tasks(entries@) {
            Ok(ts) => r is Ok && tasks_view(r->Ok_0@) == ts,
            Err((n, e)) => r is Err && r->Err_0.0@ == n && r->Err_0.1@ == e,
        },
{
    let mut out: Vec<(String, Task)> = Vec::new();
    let mut i: usize = 0;
    assert(entries@.subrange(0, 0) =~= Seq::<(String, TomlScript)>::empty());
    assert(tasks_view(out@) =~= Seq::<(Seq<char>, TaskView)>::empty());
    while i < entries.len()
        invariant
            i <= entries@.len(),
            named_tasks(entries@.subrange(0, i as int)) == Ok::<
                Seq<(Seq<char>, TaskView)>,
                (Seq<char>, TokenErrorView),
            >(tasks_view(out@)),
        decreases entries@.len() - i,
    {
        assert(entries@.subrange(0, i + 1).drop_last() =~= entries@.subrange(0, i as int));
        let entry = &entries[i];
        match compile_script_ref(&entry.1) {
            Ok(t) => {
                let ghost before = tasks_view(out@);
                out.push((entry.0.clone(), t));
                assert(tasks_view(out@) =~= before.push((entry.0@, t@)));
            },
            Err(e) => {
                proof {
                    lemma_named_tasks_err(entries@, i as int, entries@.len() as int);
                    assert(entries@.subrange(0, entries@.len() as int) =~= entries@);
                }
                return Err((entry.0.clone(), e));
            },
        }
        i = i + 1;
    }
    assert(entries@.subrange(0, i as int) =~= entries@);
    Ok(out)
}

/// Compiles a named list of variables.
fn compile_named_vars(entries: &Vec<(String, TomlVar)>) -> (r: Result<
    Vec<(String, CachedVar)>,
    (String, TokenError),
>)
    ensures
        match named_vars(entries@) {
            Ok(vs) => r is Ok && vars_view(r->Ok_0@) == vs,
            Err((n, e)) => r is Err && r->Err_0.0@ == n && r->Err_0.1@ == e,
        },
{
    let mut out: Vec<(String, CachedVar)> = Vec::new();
    let mut i: usize = 0;
    assert(entries@.subrange(0, 0) =~= Seq::<(String, TomlVar)>::empty());
    assert(vars_view(out@) =~= Seq::<(Seq<char>, CachedVarView)>::empty());
    while i < entries.len()
        invariant
            i <= entries@.len(),
            named_vars(entries@.subrange(0, i as int)) == Ok::<
                Seq<(Seq<char>, CachedVarView)>,
                (Seq<char>, TokenErrorView),
            >(vars_view(out@)),
        decreases entries@.len() - i,
    {
        assert(entries@.subrange(0, i + 1).drop_last() =~= entries@.subrange(0, i as int));
        let entry = &entries[i];
        match compile_var_ref(&entry.1) {
            Ok(v) => {
                let ghost before = vars_view(out@);
                out.push((entry.0.clone(), v));
                assert(vars_view(out@) =~= before.push((entry.0@, v@)));
            },
            Err(e) => {
                proof {
                    lemma_named_vars_err(entries@, i as int, entries@.len() as int);
                    assert(entries@.subrange(0, entries@.len() as int) =~= entries@);
                }
                return Err((entry.0.clone(), e));
            },
        }
        i = i + 1;
    }
    assert(entries@.subrange(0, i as int) =~= entries@);
    Ok(out)
}

/// Compiles an optional hook.
fn compile_opt_script(o: &Option<TomlScript>) -> (r: Result<Option<Task>, TokenError>)
    ensures
        match opt_script_task(*o) {
            Ok(t) => r is Ok && opt_task(r->Ok_0) == t,
            Err(e) => r is Err && r->Err_0@ == e,
        },
{
    match o {
        Some(ts) => {
            let t = compile_script_ref(ts)?;
            Ok(Some(t))
        },
        None => Ok(None),
    }
}

/// A copy of an association list of strings.
pub fn copy_str_pairs(v: &Vec<(String, String)>) -> (r: Vec<(String, String)>)
    ensures
        str_pairs_view(r@) == str_pairs_view(v@),
{
    let mut out: Vec<(String, String)> = Vec::new();
    let mut i: usize = 0;
    while i < v.len()
        invariant
            i <= v@.len(),
            str_pairs_view(out@) =~= str_pairs_view(v@.subrange(0, i as int)),
        decreases v@.len() - i,
    {
        let a = v[i].0.clone();
        let b = v[i].1.clone();
        let ghost before = out@;
        out.push((a, b));
        assert(out@ =~= before.push((a, b)));
        assert(v@.subrange(0, i + 1) =~= v@.subrange(0, i as int).push(v@[i as int]));
        assert(str_pairs_view(out@) =~= str_pairs_view(before).push((a@, b@)));
        assert(str_pairs_view(v@.subrange(0, i + 1)) =~= str_pairs_view(v@.subrange(0, i as int)).push(
            (v@[i as int].0@, v@[i as int].1@),
        ));
        i = i + 1;
    }
    assert(v@.subrange(0, i as int) =~= v@);
    out
}

/// Compiles the content of one `axes.toml` into its cached AST: every script,
/// variable, `open_with` command and hook compiled, the other settings copied.
pub fn compile_project_config(config: &ProjectConfig) -> (r: Result<CachedProjectConfig, LayerError>)
    ensures
        match layer_failure(*config) {
            Some((section, name, e)) => r is Err && r->Err_0.section == section && opt_str(
                r->Err_0.name,
            ) == name && r->Err_0.error@ == e,
            None => r is Ok && {
                let l = r->Ok_0;
                &&& named_tasks(config.scripts@) == Ok::<
                    Seq<(Seq<char>, TaskView)>,
                    (Seq<char>, TokenErrorView),
                >(tasks_view(l.scripts@))
                &&& named_vars(config.vars@) == Ok::<
                    Seq<(Seq<char>, CachedVarView)>,
                    (Seq<char>, TokenErrorView),
                >(vars_view(l.vars@))
                &&& named_tasks(config.options.open_with.commands@) == Ok::<
                    Seq<(Seq<char>, TaskView)>,
                    (Seq<char>, TokenErrorView),
                >(tasks_view(l.options.open_with.commands@))
                &&& opt_script_task(config.options.at_start) == Ok::<
                    Option<TaskView>,
                    TokenErrorView,
                >(opt_task(l.options.at_start))
                &&& opt_script_task(config.options.at_exit) == Ok::<
                    Option<TaskView>,
                    TokenErrorView,
                >(opt_task(l.options.at_exit))
                &&& opt_str(l.version) == opt_str(config.version)
                &&& opt_str(l.description) == opt_str(config.description)
                &&& str_pairs_view(l.env@) == str_pairs_view(config.env@)
                &&& opt_str(l.options.shell) == opt_str(config.options.shell)
                &&& opt_str(l.options.cache_dir) == opt_str(config.options.cache_dir)
                &&& opt_str(l.options.prompt) == opt_str(config.options.prompt)
                &&& opt_str(l.options.open_with.default) == opt_str(
                    config.options.open_with.default,
                )
            },
        },
{
    let scripts = match compile_named_tasks(&config.scripts) {
        Ok(s) => s,
        Err((n, e)) => {
            return Err(LayerError { section: LayerSection::Scripts, name: Some(n), error: e });
        },
    };
    let vars = match compile_named_vars(&config.vars) {
        Ok(v) => v,
        Err((n, e)) => {
            return Err(LayerError { section: LayerSection::Vars, name: Some(n), error: e });
        },
    };
    let open_with_commands = match compile_named_tasks(&config.options.open_with.commands) {
        Ok(c) => c,
        Err((n, e)) => {
            return Err(LayerError { section: LayerSection::OpenWith, name: Some(n), error: e });
        },
    };
    let at_start = match compile_opt_script(&config.options.at_start) {
        Ok(t) => t,
        Err(e) => {
            return Err(LayerError { section: LayerSection::AtStart, name: None, error: e });
        },
    };
    let at_exit = match compile_opt_script(&config.options.at_exit) {
        Ok(t) => t,
        Err(e) => {
            return Err(LayerError { section: LayerSection::AtExit, name: None, error: e });
        },
    };
    Ok(
        CachedProjectConfig {
            version: copy_opt(&config.version),
            description: copy_opt(&config.description),
            scripts,
            vars,
            env: copy_str_pairs(&config.env),
            options: CachedOptionsConfig {
                at_start,
                at_exit,
                shell: copy_opt(&config.options.shell),
                open_with: CachedOpenWithConfig {
                    default: copy_opt(&config.options.open_with.default),
                    commands: open_with_commands,
                },
                cache_dir: copy_opt(&config.options.cache_dir),
                prompt: copy_opt(&config.options.prompt),
            },
        },
    )
}

} // verus!
