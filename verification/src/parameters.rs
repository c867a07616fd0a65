//! Parameter tokens of scripts (`<params::0(required)>`, `<params::tag(map='--tag=')>`):
//! the grammar of their definitions and modifiers, the state of the command-line
//! arguments given to a script, and the resolution of every token to its final text.

use vstd::prelude::*;
use crate::models::{
    ParameterDef, ParameterDefView, ParameterKind, ParameterKindView, ParameterModifiers,
    ParameterModifiersView,
};
use crate::text::{
    chars_of, in_class, is_ws, no_newline, scan, scan_exec, string_of, str_eq, trim_end, CharClass,
    lemma_scan, lemma_trim_end, no_newline_exec, trim_end_len,
};

verus! {

// =========================================================================
// === Errors
// =========================================================================

/// Why a parameter token or its modifiers could not be parsed, or why the
/// arguments of a script do not fit its parameters.
#[derive(Debug, Clone)]
pub enum ParamError {
    /// The token is not of the form `specifier(modifiers)`.
    InvalidFormat { token: String },
    /// A `key=value` modifier with an unknown key.
    UnknownModifierKey { key: String },
    /// A bare modifier other than `required` and `literal`.
    UnknownBooleanModifier { key: String },
    /// Both a flag and its alias were given.
    Conflict { name: String, alias: String },
    /// A required positional argument is missing.
    PositionalRequired { index: usize },
    /// A required flag is missing.
    FlagRequired { name: String },
    /// Arguments were left over and the script has no generic `<params>` token.
    UnexpectedArguments { args: Vec<String> },
}

pub ghost enum ParamErrorView {
    InvalidFormat { token: Seq<char> },
    UnknownModifierKey { key: Seq<char> },
    UnknownBooleanModifier { key: Seq<char> },
    Conflict { name: Seq<char>, alias: Seq<char> },
    PositionalRequired { index: usize },
    FlagRequired { name: Seq<char> },
    UnexpectedArguments { args: Seq<Seq<char>> },
}

/// The views of a sequence of strings.
pub open spec fn strs_view(v: Seq<String>) -> Seq<Seq<char>> {
    v.map_values(|s: String| s@)
}

impl View for ParamError {
    type V = ParamErrorView;

    open spec fn view(&self) -> ParamErrorView {
        match self {
            ParamError::InvalidFormat { token } => ParamErrorView::InvalidFormat { token: token@ },
            ParamError::UnknownModifierKey { key } => ParamErrorView::UnknownModifierKey {
                key: key@,
            },
            ParamError::UnknownBooleanModifier { key } => ParamErrorView::UnknownBooleanModifier {
                key: key@,
            },
            ParamError::Conflict { name, alias } => ParamErrorView::Conflict {
                name: name@,
                alias: alias@,
            },
            ParamError::PositionalRequired { index } => ParamErrorView::PositionalRequired {
                index: *index,
            },
            ParamError::FlagRequired { name } => ParamErrorView::FlagRequired { name: name@ },
            ParamError::UnexpectedArguments { args } => ParamErrorView::UnexpectedArguments {
                args: strs_view(args@),
            },
        }
    }
}

impl ParamError {
    /// The text of [`Self::message`].
    pub open spec fn message_text(&self) -> Seq<char> {
        match self {
            ParamError::InvalidFormat { token } => "Invalid parameter format in token: "@ + token@,
            ParamError::UnknownModifierKey { key } => "Unknown modifier key: '"@ + key@ + "'"@,
            ParamError::UnknownBooleanModifier { key } => "Unknown boolean modifier: '"@ + key@
                + "' (or missing value)"@,
            ParamError::Conflict { name, alias } => "Conflict: Both flag '--"@ + name@ + "' and its alias '"@
                + alias@ + "' were provided."@,
            ParamError::PositionalRequired { index } => "Positional argument at index "@
                + crate::text::decimal(*index as nat) + " is required but was not provided."@,
            ParamError::FlagRequired { name } => "Flag '--"@ + name@ + "' is required but was not provided."@,
            ParamError::UnexpectedArguments { args } => "Error: Unexpected arguments were provided. The script does not define a generic `<params>` token to accept them.\nProvided unhandled arguments: "@
                + crate::handlers::joined(strs_view(args@), " "@),
        }
    }

    /// The error message shown to the user.
    pub fn message(&self) -> (r: String)
        ensures
            r@ == self.message_text(),
    {
        let mut m = String::new();
        match self {
            ParamError::InvalidFormat { token } => {
                m.append("Invalid parameter format in token: ");
                m.append(token.as_str());
            },
            ParamError::UnknownModifierKey { key } => {
                m.append("Unknown modifier key: '");
                m.append(key.as_str());
                m.append("'");
            },
            ParamError::UnknownBooleanModifier { key } => {
                m.append("Unknown boolean modifier: '");
                m.append(key.as_str());
                m.append("' (or missing value)");
            },
            ParamError::Conflict { name, alias } => {
                m.append("Conflict: Both flag '--");
                m.append(name.as_str());
                m.append("' and its alias '");
                m.append(alias.as_str());
                m.append("' were provided.");
            },
            ParamError::PositionalRequired { index } => {
                m.append("Positional argument at index ");
                m.append(crate::text::usize_to_string(*index).as_str());
                m.append(" is required but was not provided.");
            },
            ParamError::FlagRequired { name } => {
                m.append("Flag '--");
                m.append(name.as_str());
                m.append("' is required but was not provided.");
            },
            ParamError::UnexpectedArguments { args } => {
                m.append(
                    "Error: Unexpected arguments were provided. The script does not define a generic `<params>` token to accept them.\nProvided unhandled arguments: ",
                );
                let joined = crate::handlers::join_strings(args, " ");
                m.append(joined.as_str());
            },
        }
        m
    }
}

// =========================================================================
// === Modifiers: `required, default='x', alias='-t', map='--tag=', literal`
// =========================================================================

/// Modifiers with nothing set.
pub open spec fn no_modifiers() -> ParameterModifiersView {
    ParameterModifiersView {
        required: false,
        default_value: None,
        alias: None,
        map: None,
        literal: false,
    }
}

/// The value of the modifier whose key ends at `kend`, and where the modifier ends:
/// after optional whitespace, `=` and whitespace, a single-quoted, a double-quoted
/// or a bare value (up to the next comma); no value when no `=` follows.
pub open spec fn modifier_value(s: Seq<char>, kend: int) -> (Option<Seq<char>>, int) {
    let w = scan(s, kend, CharClass::Whitespace);
    if w < s.len() && s[w] == '=' {
        let v = scan(s, w + 1, CharClass::Whitespace);
        let sq = scan(s, v + 1, CharClass::Not('\''));
        let dq = scan(s, v + 1, CharClass::Not('"'));
        if v < s.len() && s[v] == '\'' && sq < s.len() {
            (Some(s.subrange(v + 1, sq)), sq + 1)
        } else if v < s.len() && s[v] == '"' && dq < s.len() {
            (Some(s.subrange(v + 1, dq)), dq + 1)
        } else {
            let e = scan(s, v, CharClass::Not(','));
            (Some(s.subrange(v, e)), e)
        }
    } else {
        (None, kend)
    }
}

/// The modifiers after one `key` or `key=value` is applied.
pub open spec fn apply_modifier(
    acc: ParameterModifiersView,
    key: Seq<char>,
    value: Option<Seq<char>>,
) -> Result<ParameterModifiersView, ParamErrorView> {
    match value {
        Some(val) => if key == "default"@ {
            Ok(ParameterModifiersView { default_value: Some(val), ..acc })
        } else if key == "alias"@ {
            Ok(ParameterModifiersView { alias: Some(val), ..acc })
        } else if key == "map"@ {
            Ok(ParameterModifiersView { map: Some(val), ..acc })
        } else {
            Err(ParamErrorView::UnknownModifierKey { key })
        },
        None => if key == "required"@ {
            Ok(ParameterModifiersView { required: true, ..acc })
        } else if key == "literal"@ {
            Ok(ParameterModifiersView { literal: true, ..acc })
        } else {
            Err(ParamErrorView::UnknownBooleanModifier { key })
        },
    }
}

/// The modifiers of `s` from position `p` on, applied over `acc`: each key is the
/// next maximal run of characters other than `=`, `,` and whitespace.
pub open spec fn modifiers_from(s: Seq<char>, p: int, acc: ParameterModifiersView) -> Result<
    ParameterModifiersView,
    ParamErrorView,
>
    decreases s.len() - p,
{
    if p < 0 || p >= s.len() {
        Ok(acc)
    } else {
        let q = scan(s, p, CharClass::NonKey);
        if q >= s.len() {
            Ok(acc)
        } else {
            let kend = scan(s, q, CharClass::ModifierKey);
            let (value, end) = modifier_value(s, kend);
            match apply_modifier(acc, s.subrange(q, kend), value) {
                Ok(next) => if p < end <= s.len() {
                    modifiers_from(s, end, next)
                } else {
                    Ok(next)
                },
                Err(e) => Err(e),
            }
        }
    }
}

/// The modifiers that a modifier string sets.
pub open spec fn modifiers_of(s: Seq<char>) -> Result<ParameterModifiersView, ParamErrorView> {
    modifiers_from(s, 0, no_modifiers())
}

/// The end of a modifier lies past its key.
proof fn lemma_modifier_value(s: Seq<char>, kend: int)
    requires
        0 <= kend <= s.len(),
    ensures
        kend <= modifier_value(s, kend).1 <= s.len(),
{
    let w = scan(s, kend, CharClass::Whitespace);
    lemma_scan(s, kend, CharClass::Whitespace);
    if w < s.len() && s[w] == '=' {
        let v = scan(s, w + 1, CharClass::Whitespace);
        lemma_scan(s, w + 1, CharClass::Whitespace);
        lemma_scan(s, v, CharClass::Not(','));
        if v < s.len() {
            lemma_scan(s, v + 1, CharClass::Not('\''));
            lemma_scan(s, v + 1, CharClass::Not('"'));
        }
    }
}

/// Executable [`modifier_value`].
fn modifier_value_exec(v: &Vec<char>, kend: usize) -> (r: (Option<String>, usize))
    requires
        kend <= v@.len(),
    ensures
        r.1 == modifier_value(v@, kend as int).1,
        match (r.0, modifier_value(v@, kend as int).0) {
            (Some(a), Some(b)) => a@ == b,
            (None, None) => true,
            _ => false,
        },
        kend <= r.1 <= v@.len(),
{
    proof {
        lemma_modifier_value(v@, kend as int);
    }
    let w = scan_exec(v, kend, CharClass::Whitespace);
    if w < v.len() && v[w] == '=' {
        let p = scan_exec(v, w + 1, CharClass::Whitespace);
        if p < v.len() && v[p] == '\'' {
            let c = scan_exec(v, p + 1, CharClass::Not('\''));
            if c < v.len() {
                return (Some(string_of(v, p + 1, c)), c + 1);
            }
        }
        if p < v.len() && v[p] == '"' {
            let c = scan_exec(v, p + 1, CharClass::Not('"'));
            if c < v.len() {
                return (Some(string_of(v, p + 1, c)), c + 1);
            }
        }
        let e = scan_exec(v, p, CharClass::Not(','));
        (Some(string_of(v, p, e)), e)
    } else {
        (None, kend)
    }
}

/// Executable [`apply_modifier`].
fn apply_modifier_exec(acc: &mut ParameterModifiers, key: String, value: Option<String>) -> (r:
    Result<(), ParamError>)
    ensures
        match apply_modifier(old(acc)@, key@, opt_view(value)) {
            Ok(m) => r is Ok && final(acc)@ == m,
            Err(e) => r is Err && r->Err_0@ == e,
        },
{
    match value {
        Some(val) => {
            if str_eq(key.as_str(), "default") {
                acc.default_value = Some(val);
                Ok(())
            } else if str_eq(key.as_str(), "alias") {
                acc.alias = Some(val);
                Ok(())
            } else if str_eq(key.as_str(), "map") {
                acc.map = Some(val);
                Ok(())
            } else {
                Err(ParamError::UnknownModifierKey { key })
            }
        },
        None => {
            if str_eq(key.as_str(), "required") {
                acc.required = true;
                Ok(())
            } else if str_eq(key.as_str(), "literal") {
                acc.literal = true;
                Ok(())
            } else {
                Err(ParamError::UnknownBooleanModifier { key })
            }
        },
    }
}

/// The view of an optional string.
pub open spec fn opt_view(o: Option<String>) -> Option<Seq<char>> {
    match o {
        Some(s) => Some(s@),
        None => None,
    }
}

/// Parses a modifier string such as `required, default='staging', literal`.
pub fn parse_parameter_modifiers_from_str(s: &str) -> (r: Result<ParameterModifiers, ParamError>)
    ensures
        match modifiers_of(s@) {
            Ok(m) => r is Ok && r->Ok_0@ == m,
            Err(e) => r is Err && r->Err_0@ == e,
        },
{
    let v = chars_of(s);
    let mut acc = ParameterModifiers {
        required: false,
        default_value: None,
        alias: None,
        map: None,
        literal: false,
    };
    let mut p: usize = 0;
    while p < v.len()
        invariant
            p <= v@.len(),
            v@ == s@,
            modifiers_of(s@) == modifiers_from(s@, p as int, acc@),
        decreases v@.len() - p,
    {
        let q = scan_exec(&v, p, CharClass::NonKey);
        if q >= v.len() {
            return Ok(acc);
        }
        proof {
            lemma_scan(v@, p as int, CharClass::NonKey);
            lemma_scan(v@, q as int, CharClass::ModifierKey);
            assert(!in_class(CharClass::NonKey, v@[q as int]));
            assert(in_class(CharClass::ModifierKey, v@[q as int]));
        }
        let kend = scan_exec(&v, q, CharClass::ModifierKey);
        let (value, end) = modifier_value_exec(&v, kend);
        let key = string_of(&v, q, kend);
        match apply_modifier_exec(&mut acc, key, value) {
            Ok(()) => {},
            Err(e) => {
                return Err(e);
            },
        }
        p = end;
    }
    Ok(acc)
}

// =========================================================================
// === Parameter tokens: `0`, `env(required)`, `(literal)`
// =========================================================================

/// Whether every character of `d` is an ASCII digit.
pub open spec fn all_digits(d: Seq<char>) -> bool {
    forall|i: int| 0 <= i < d.len() ==> '0' <= #[trigger] d[i] <= '9'
}

/// The number that a string of decimal digits denotes.
pub open spec fn digits_value(d: Seq<char>) -> int
    decreases d.len(),
{
    if d.len() == 0 {
        0
    } else {
        digits_value(d.drop_last()) * 10 + (d.last() as int - '0' as int)
    }
}

/// What `usize::from_str` gives: an optional `+` and at least one ASCII digit,
/// with a value that fits.
pub open spec fn parse_usize(s: Seq<char>) -> Option<usize> {
    let d = if s.len() > 0 && s[0] == '+' {
        s.drop_first()
    } else {
        s
    };
    if d.len() > 0 && all_digits(d) && digits_value(d) <= usize::MAX {
        Some(digits_value(d) as usize)
    } else {
        None
    }
}

/// The value of digits is never negative.
proof fn lemma_digits_nonneg(d: Seq<char>)
    requires
        all_digits(d),
    ensures
        digits_value(d) >= 0,
    decreases d.len(),
{
    if d.len() > 0 {
        assert(all_digits(d.drop_last()));
        lemma_digits_nonneg(d.drop_last());
        assert('0' <= d[d.len() - 1] <= '9');
    }
}

/// Appending digits never lowers the value.
proof fn lemma_digits_monotonic(d: Seq<char>, i: int, j: int)
    requires
        0 <= i <= j <= d.len(),
        all_digits(d),
    ensures
        0 <= digits_value(d.subrange(0, i)) <= digits_value(d.subrange(0, j)),
    decreases j - i,
{
    if i < j {
        lemma_digits_monotonic(d, i, j - 1);
        assert(d.subrange(0, j).drop_last() =~= d.subrange(0, j - 1));
        assert(d.subrange(0, j).last() == d[j - 1]);
        assert('0' <= d[j - 1] <= '9');
    } else {
        assert(all_digits(d.subrange(0, i)));
        lemma_digits_nonneg(d.subrange(0, i));
    }
}

/// Executable [`parse_usize`].
pub fn parse_usize_exec(v: &Vec<char>, from: usize, to: usize) -> (r: Option<usize>)
    requires
        from <= to <= v@.len(),
    ensures
        r == parse_usize(v@.subrange(from as int, to as int)),
{
    let ghost s = v@.subrange(from as int, to as int);
    let mut start = from;
    if start < to && v[start] == '+' {
        start = start + 1;
    }
    let ghost d = v@.subrange(start as int, to as int);
    assert(d =~= (if s.len() > 0 && s[0] == '+' {
        s.drop_first()
    } else {
        s
    }));
    if start >= to {
        return None;
    }
    let mut i = start;
    let mut value: usize = 0;
    while i < to
        invariant
            from <= start <= i <= to <= v@.len(),
            d == v@.subrange(start as int, to as int),
            d.len() > 0,
            parse_usize(v@.subrange(from as int, to as int)) == (if d.len() > 0 && all_digits(d)
                && digits_value(d) <= usize::MAX {
                Some(digits_value(d) as usize)
            } else {
                None
            }),
            forall|k: int| start <= k < i ==> '0' <= #[trigger] v@[k] <= '9',
            value == digits_value(v@.subrange(start as int, i as int)),
        decreases to - i,
    {
        let c = v[i];
        if !('0' <= c && c <= '9') {
            assert(d[i - start] == c);
            assert(!('0' <= d[i - start] <= '9'));
            return None;
        }
        let digit = (c as u32 - '0' as u32) as usize;
        assert(v@.subrange(start as int, i + 1).drop_last() =~= v@.subrange(
            start as int,
            i as int,
        ));
        assert(v@.subrange(start as int, i + 1).last() == c);
        let next = match value.checked_mul(10) {
            Some(x) => x.checked_add(digit),
            None => None,
        };
        match next {
            Some(n) => {
                value = n;
            },
            None => {
                proof {
                    assert(digits_value(v@.subrange(start as int, i + 1)) > usize::MAX);
                    if all_digits(d) {
                        lemma_digits_monotonic(d, i + 1 - start, d.len() as int);
                        assert(d.subrange(0, i + 1 - start) =~= v@.subrange(start as int, i + 1));
                        assert(d.subrange(0, d.len() as int) =~= d);
                    }
                }
                return None;
            },
        }
        i = i + 1;
    }
    assert(v@.subrange(start as int, i as int) =~= d);
    Some(value)
}

/// A parameter definition with the given parts.
pub open spec fn param_def(
    kind: ParameterKindView,
    modifiers: ParameterModifiersView,
    token: Seq<char>,
) -> ParameterDefView {
    ParameterDefView { kind, modifiers, original_token: token }
}

/// The definition that the content of a parameter token gives.
///
/// Content that is empty or starts with `(` has no specifier (the generic form,
/// whose kind is the positional index `usize::MAX`). Otherwise the specifier is the
/// first run of characters other than `(` and whitespace, an index when it reads
/// as a `usize` and a flag name otherwise; what follows is whitespace, or
/// `( modifiers )` up to the last non-whitespace character, on one line.
pub open spec fn parameter_token(orig: Seq<char>, c: Seq<char>) -> Result<
    ParameterDefView,
    ParamErrorView,
> {
    if c.len() == 0 || c[0] == '(' {
        let ms = if c.len() >= 2 && c[0] == '(' && c[c.len() - 1] == ')' {
            c.subrange(1, c.len() - 1)
        } else {
            Seq::empty()
        };
        match modifiers_of(ms) {
            Ok(m) => Ok(param_def(ParameterKindView::Positional { index: usize::MAX }, m, orig)),
            Err(e) => Err(e),
        }
    } else {
        let a = scan(c, 0, CharClass::Whitespace);
        let b = scan(c, a, CharClass::Specifier);
        if b == a {
            Err(ParamErrorView::InvalidFormat { token: orig })
        } else {
            let spec_str = c.subrange(a, b);
            let kind = match parse_usize(spec_str) {
                Some(n) => ParameterKindView::Positional { index: n },
                None => ParameterKindView::Named { name: spec_str },
            };
            let e = scan(c, b, CharClass::Whitespace);
            let tl = trim_end(c).len() as int;
            if e >= c.len() {
                Ok(param_def(kind, no_modifiers(), orig))
            } else if c[e] == '(' && e + 1 < tl && c[tl - 1] == ')' && no_newline(
                c.subrange(e + 1, tl - 1),
            ) {
                match modifiers_of(c.subrange(e + 1, tl - 1)) {
                    Ok(m) => Ok(param_def(kind, m, orig)),
                    Err(err) => Err(err),
                }
            } else {
                Err(ParamErrorView::InvalidFormat { token: orig })
            }
        }
    }
}

/// Parses the content of a parameter token, such as `0(required)` or `target(alias='-t')`.
pub fn parse_parameter_token(original_token: &str, content: &str) -> (r: Result<
    ParameterDef,
    ParamError,
>)
    ensures
        match parameter_token(original_token@, content@) {
            Ok(d) => r is Ok && r->Ok_0@ == d,
            Err(e) => r is Err && r->Err_0@ == e,
        },
{
    let v = chars_of(content);
    let n = v.len();
    if n == 0 || v[0] == '(' {
        let ms = if n >= 2 && v[0] == '(' && v[n - 1] == ')' {
            string_of(&v, 1, n - 1)
        } else {
            String::new()
        };
        let modifiers = parse_parameter_modifiers_from_str(ms.as_str())?;
        return Ok(
            ParameterDef {
                kind: ParameterKind::Positional { index: usize::MAX },
                modifiers,
                original_token: crate::text::owned(original_token),
            },
        );
    }
    let a = scan_exec(&v, 0, CharClass::Whitespace);
    let b = scan_exec(&v, a, CharClass::Specifier);
    if b == a {
        return Err(ParamError::InvalidFormat { token: crate::text::owned(original_token) });
    }
    let kind = match parse_usize_exec(&v, a, b) {
        Some(index) => ParameterKind::Positional { index },
        None => ParameterKind::Named { name: string_of(&v, a, b) },
    };
    let e = scan_exec(&v, b, CharClass::Whitespace);
    let tl = trim_end_len(&v);
    proof {
        lemma_trim_end(v@);
        lemma_scan(v@, a as int, CharClass::Specifier);
        lemma_scan(v@, b as int, CharClass::Whitespace);
    }
    if e >= n {
        return Ok(
            ParameterDef {
                kind,
                modifiers: ParameterModifiers {
                    required: false,
                    default_value: None,
                    alias: None,
                    map: None,
                    literal: false,
                },
                original_token: crate::text::owned(original_token),
            },
        );
    }
    if v[e] == '(' && e + 1 < tl && v[tl - 1] == ')' && no_newline_exec(&v, e + 1, tl - 1) {
        let ms = string_of(&v, e + 1, tl - 1);
        let modifiers = parse_parameter_modifiers_from_str(ms.as_str())?;
        Ok(ParameterDef { kind, modifiers, original_token: crate::text::owned(original_token) })
    } else {
        Err(ParamError::InvalidFormat { token: crate::text::owned(original_token) })
    }
}

// =========================================================================
// === Command-line arguments given to a script
// =========================================================================

/// A positional argument and whether a token has consumed it.
#[derive(Debug, Clone)]
pub struct CliArgument {
    pub value: String,
    pub consumed: bool,
}

/// A flag (`--name`, `-n`), the value that followed it, and whether a token has
/// consumed it. `key` is the flag without `--` (a single-dash flag keeps its dash);
/// `flag` is the flag as it was written.
#[derive(Debug, Clone)]
pub struct NamedArgument {
    pub key: String,
    pub flag: String,
    pub value: Option<String>,
    pub consumed: bool,
}

/// The arguments given to a script, classified into positional arguments and
/// flags (held in ascending order of their keys), with their consumption state.
#[derive(Debug, Clone)]
pub struct CliInputState {
    positional: Vec<CliArgument>,
    named: Vec<NamedArgument>,
}

pub ghost struct NamedView {
    pub key: Seq<char>,
    pub flag: Seq<char>,
    pub value: Option<Seq<char>>,
    pub consumed: bool,
}

pub ghost struct CliStateView {
    pub positional: Seq<(Seq<char>, bool)>,
    pub named: Seq<NamedView>,
}

impl View for NamedArgument {
    type V = NamedView;

    open spec fn view(&self) -> NamedView {
        NamedView {
            key: self.key@,
            flag: self.flag@,
            value: opt_view(self.value),
            consumed: self.consumed,
        }
    }
}

/// The view of the positional arguments.
pub open spec fn positional_view(v: Seq<CliArgument>) -> Seq<(Seq<char>, bool)> {
    v.map_values(|a: CliArgument| (a.value@, a.consumed))
}

/// The view of the flags.
pub open spec fn named_view(v: Seq<NamedArgument>) -> Seq<NamedView> {
    v.map_values(|a: NamedArgument| a@)
}

impl View for CliInputState {
    type V = CliStateView;

    closed spec fn view(&self) -> CliStateView {
        CliStateView { positional: positional_view(self.positional@), named: named_view(self.named@) }
    }
}

/// Whether an argument starts with `-`.
pub open spec fn starts_dash(s: Seq<char>) -> bool {
    s.len() > 0 && s[0] == '-'
}

/// The flags with `nv` recorded: in place of the flag with the same key, or at its
/// place in the ascending order of keys.
pub open spec fn sorted_insert(named: Seq<NamedView>, nv: NamedView) -> Seq<NamedView>
    decreases named.len(),
{
    if named.len() == 0 {
        seq![nv]
    } else if named[0].key == nv.key {
        named.update(0, nv)
    } else if crate::text::str_lt(nv.key, named[0].key) {
        seq![nv] + named
    } else {
        seq![named[0]] + sorted_insert(named.drop_first(), nv)
    }
}

/// The state built from the arguments `params[i..]` over `st`: an argument starting
/// with `-` is a flag, which takes the next argument as its value unless that one
/// starts with `-` too; any other argument is positional.
pub open spec fn cli_parse(params: Seq<Seq<char>>, i: int, st: CliStateView) -> CliStateView
    decreases params.len() - i,
{
    if i < 0 || i >= params.len() {
        st
    } else {
        let p = params[i];
        let has_value = i + 1 < params.len() && !starts_dash(params[i + 1]);
        let value = if has_value {
            Some(params[i + 1])
        } else {
            None
        };
        let next = if has_value {
            i + 2
        } else {
            i + 1
        };
        if starts_dash(p) {
            let key = if crate::text::starts_with(p, "--"@) {
                p.subrange(2, p.len() as int)
            } else {
                p
            };
            let nv = NamedView { key, flag: p, value, consumed: false };
            cli_parse(params, next, CliStateView { named: sorted_insert(st.named, nv), ..st })
        } else {
            cli_parse(
                params,
                i + 1,
                CliStateView { positional: st.positional.push((p, false)), ..st },
            )
        }
    }
}

/// The state of a script's arguments before any token consumes them.
pub open spec fn cli_state_of(params: Seq<Seq<char>>) -> CliStateView {
    cli_parse(params, 0, CliStateView { positional: Seq::empty(), named: Seq::empty() })
}

/// The first flag with key `k`.
pub open spec fn find_key(named: Seq<NamedView>, k: Seq<char>) -> Option<int>
    decreases named.len(),
{
    if named.len() == 0 {
        None
    } else if named[0].key == k {
        Some(0)
    } else {
        match find_key(named.drop_first(), k) {
            Some(j) => Some(j + 1),
            None => None,
        }
    }
}

/// Consuming the positional argument at `index`: its value, unless it is missing
/// or already consumed.
pub open spec fn consume_positional_spec(st: CliStateView, index: int) -> (
    CliStateView,
    Option<Seq<char>>,
) {
    if 0 <= index < st.positional.len() && !st.positional[index].1 {
        (
            CliStateView {
                positional: st.positional.update(index, (st.positional[index].0, true)),
                ..st
            },
            Some(st.positional[index].0),
        )
    } else {
        (st, None)
    }
}

/// Consuming the flag `name` or its alias: an error when both were given; the
/// flag's value (itself optional) when it was given and not yet consumed.
pub open spec fn consume_named_spec(
    st: CliStateView,
    name: Seq<char>,
    alias: Option<Seq<char>>,
) -> Result<(CliStateView, Option<Option<Seq<char>>>), ParamErrorView> {
    let ni = find_key(st.named, name);
    let ai = match alias {
        Some(a) => find_key(st.named, a),
        None => None,
    };
    if ni is Some && ai is Some {
        Err(ParamErrorView::Conflict { name, alias: alias->Some_0 })
    } else {
        let idx = if ni is Some {
            ni
        } else {
            ai
        };
        match idx {
            Some(j) => if !st.named[j].consumed {
                Ok(
                    (
                        CliStateView {
                            named: st.named.update(j, NamedView { consumed: true, ..st.named[j] }),
                            ..st
                        },
                        Some(st.named[j].value),
                    ),
                )
            } else {
                Ok((st, None))
            },
            None => Ok((st, None)),
        }
    }
}

/// The unconsumed positional arguments, in order.
pub open spec fn unconsumed_positional(p: Seq<(Seq<char>, bool)>) -> Seq<Seq<char>>
    decreases p.len(),
{
    if p.len() == 0 {
        Seq::empty()
    } else {
        unconsumed_positional(p.drop_last()) + if !p.last().1 {
            seq![p.last().0]
        } else {
            Seq::empty()
        }
    }
}

/// The unconsumed flags as written, each followed by its value if it has one.
pub open spec fn unconsumed_named(n: Seq<NamedView>) -> Seq<Seq<char>>
    decreases n.len(),
{
    if n.len() == 0 {
        Seq::empty()
    } else {
        unconsumed_named(n.drop_last()) + if !n.last().consumed {
            seq![n.last().flag] + match n.last().value {
                Some(v) => seq![v],
                None => Seq::empty(),
            }
        } else {
            Seq::empty()
        }
    }
}

/// Whether any argument is left unconsumed.
pub open spec fn has_unconsumed(st: CliStateView) -> bool {
    (exists|i: int| 0 <= i < st.positional.len() && !(#[trigger] st.positional[i]).1) || (exists|
        i: int,
    | 0 <= i < st.named.len() && !(#[trigger] st.named[i]).consumed)
}

impl CliInputState {
    /// Classifies the raw arguments of a script into positional arguments and flags.
    pub fn new(cli_params: &[String]) -> (r: CliInputState)
        ensures
            r@ == cli_state_of(strs_view(cli_params@)),
    {
        let ghost params = strs_view(cli_params@);
        let mut st = CliInputState { positional: Vec::new(), named: Vec::new() };
        let mut i: usize = 0;
        let n = cli_params.len();
        assert(st@.positional =~= Seq::<(Seq<char>, bool)>::empty());
        assert(st@.named =~= Seq::<NamedView>::empty());
        while i < n
            invariant
                i <= n,
                n == cli_params@.len(),
                params == strs_view(cli_params@),
                cli_state_of(params) == cli_parse(params, i as int, st@),
            decreases n - i,
        {
            let p = &cli_params[i];
            let has_value = i + 1 < n && !starts_with_dash(cli_params[i + 1].as_str());
            let value = if has_value {
                Some(cli_params[i + 1].clone())
            } else {
                None
            };
            let next = if has_value {
                i + 2
            } else {
                i + 1
            };
            assert(params[i as int] == p@);
            if has_value {
                assert(params[i + 1] == cli_params@[i + 1]@);
            }
            if starts_with_dash(p.as_str()) {
                let pv = chars_of(p.as_str());
                let key = if pv.len() >= 2 && pv[0] == '-' && pv[1] == '-' {
                    proof {
                        reveal_strlit("--");
                        assert(pv@.subrange(0, 2) =~= "--"@);
                    }
                    string_of(&pv, 2, pv.len())
                } else {
                    proof {
                        reveal_strlit("--");
                        if pv@.len() >= 2 {
                            assert(pv@.subrange(0, 2)[1] == pv@[1]);
                        }
                    }
                    p.clone()
                };
                let nv = NamedArgument { key, flag: p.clone(), value, consumed: false };
                let ghost before = st@;
                st.insert_named(nv);
                assert(starts_dash(params[i as int]));
                assert(cli_parse(params, i as int, before) == cli_parse(
                    params,
                    next as int,
                    CliStateView { named: sorted_insert(before.named, nv@), ..before },
                ));
            } else {
                let ghost before = st@;
                st.positional.push(CliArgument { value: p.clone(), consumed: false });
                assert(st@.positional =~= before.positional.push((p@, false)));
                assert(st@.named == before.named);
                assert(cli_parse(params, i as int, before) == cli_parse(
                    params,
                    i + 1,
                    CliStateView { positional: before.positional.push((p@, false)), ..before },
                ));
            }
            i = if starts_with_dash(p.as_str()) {
                next
            } else {
                i + 1
            };
        }
        st
    }

    /// Records a flag in place of the flag with the same key, or at its place in
    /// the ascending order of keys.
    fn insert_named(&mut self, nv: NamedArgument)
        ensures
            final(self)@ == (CliStateView {
                named: sorted_insert(old(self)@.named, nv@),
                ..old(self)@
            }),
    {
        insert_sorted(&mut self.named, nv);
    }

    /// The number of positional arguments.
    pub fn positional_len(&self) -> (r: usize)
        ensures
            r == self@.positional.len(),
    {
        self.positional.len()
    }

    /// The positional argument at `index`, if there is one.
    pub fn positional_value(&self, index: usize) -> (r: Option<String>)
        ensures
            match r {
                Some(v) => index < self@.positional.len() && v@ == self@.positional[index as int].0,
                None => index >= self@.positional.len(),
            },
    {
        if index < self.positional.len() {
            Some(self.positional[index].value.clone())
        } else {
            None
        }
    }

    /// The number of distinct flags.
    pub fn named_len(&self) -> (r: usize)
        ensures
            r == self@.named.len(),
    {
        self.named.len()
    }

    /// The first flag with key `key`.
    fn find(&self, key: &str) -> (r: Option<usize>)
        ensures
            match find_key(self@.named, key@) {
                Some(j) => r is Some && r->Some_0 as int == j,
                None => r is None,
            },
            r matches Some(j) ==> j < self@.named.len(),
    {
        let kv = chars_of(key);
        let mut j: usize = 0;
        let ghost named0 = self@.named;
        assert(named0.subrange(0, named0.len() as int) =~= named0);
        while j < self.named.len()
            invariant
                j <= self.named@.len(),
                named0 == self@.named,
                kv@ == key@,
                find_key(named0, key@) == match find_key(
                    named0.subrange(j as int, named0.len() as int),
                    key@,
                ) {
                    Some(x) => Some(x + j),
                    None => None::<int>,
                },
            decreases self.named@.len() - j,
        {
            let kj = chars_of(self.named[j].key.as_str());
            let ghost rest = named0.subrange(j as int, named0.len() as int);
            assert(rest[0] == named0[j as int]);
            if crate::text::chars_eq(&kj, &kv) {
                return Some(j);
            }
            assert(rest.drop_first() =~= named0.subrange(j + 1, named0.len() as int));
            j = j + 1;
        }
        None
    }

    /// The value of the flag with key `key`: `None` when it was not given,
    /// `Some(None)` when it was given without a value.
    pub fn named_value(&self, key: &str) -> (r: Option<Option<String>>)
        ensures
            match find_key(self@.named, key@) {
                Some(j) => r is Some && opt_view(r->Some_0) == self@.named[j].value,
                None => r is None,
            },
    {
        match self.find(key) {
            Some(j) => {
                assert(self@.named[j as int] == self.named@[j as int]@);
                Some(copy_opt_string(&self.named[j].value))
            },
            None => None,
        }
    }

    /// Consumes the positional argument at `index`, if it exists and is not consumed.
    pub fn consume_positional(&mut self, index: usize) -> (r: Option<String>)
        ensures
            (final(self)@, opt_view(r)) == consume_positional_spec(old(self)@, index as int),
    {
        if index < self.positional.len() && !self.positional[index].consumed {
            let v = self.positional[index].value.clone();
            let ghost before = self@;
            let mut arg = self.positional[index].clone();
            arg = CliArgument { value: v.clone(), consumed: true };
            self.positional.set(index, arg);
            assert(self@.positional =~= before.positional.update(
                index as int,
                (before.positional[index as int].0, true),
            ));
            Some(v)
        } else {
            None
        }
    }

    /// Consumes the flag `name`, or its alias when only the alias was given.
    pub fn consume_named(&mut self, name: &str, alias: Option<&str>) -> (r: Result<
        Option<Option<String>>,
        ParamError,
    >)
        ensures
            match consume_named_spec(old(self)@, name@, opt_str_ref(alias)) {
                Ok((st, v)) => r is Ok && final(self)@ == st && opt_opt_view(r->Ok_0) == v,
                Err(e) => r is Err && r->Err_0@ == e && final(self)@ == old(self)@,
            },
    {
        let ni = self.find(name);
        let ai = match alias {
            Some(a) => self.find(a),
            None => None,
        };
        if ni.is_some() && ai.is_some() {
            let a = match alias {
                Some(a) => crate::text::owned(a),
                None => String::new(),
            };
            return Err(ParamError::Conflict { name: crate::text::owned(name), alias: a });
        }
        let idx = if ni.is_some() {
            ni
        } else {
            ai
        };
        match idx {
            Some(j) => {
                assert(self@.named[j as int] == self.named@[j as int]@);
                if !self.named[j].consumed {
                    let value = copy_opt_string(&self.named[j].value);
                    let arg = NamedArgument {
                        key: self.named[j].key.clone(),
                        flag: self.named[j].flag.clone(),
                        value: copy_opt_string(&self.named[j].value),
                        consumed: true,
                    };
                    let ghost before = self@;
                    self.named.set(j, arg);
                    assert(self@.named =~= before.named.update(
                        j as int,
                        NamedView { consumed: true, ..before.named[j as int] },
                    ));
                    Ok(Some(value))
                } else {
                    Ok(None)
                }
            },
            None => Ok(None),
        }
    }

    /// The unconsumed arguments: positional ones first, then each flag as written
    /// followed by its value, in ascending order of keys; and whether there was any.
    pub fn get_unconsumed_values(&self) -> (r: (Vec<String>, bool))
        ensures
            strs_view(r.0@) == unconsumed_positional(self@.positional) + unconsumed_named(
                self@.named,
            ),
            r.1 == has_unconsumed(self@),
    {
        let mut parts: Vec<String> = Vec::new();
        let mut had = false;
        let mut i: usize = 0;
        let ghost st = self@;
        assert(strs_view(parts@) =~= Seq::<Seq<char>>::empty());
        assert(st.positional.subrange(0, 0) =~= Seq::<(Seq<char>, bool)>::empty());
        while i < self.positional.len()
            invariant
                i <= self.positional@.len(),
                st == self@,
                strs_view(parts@) == unconsumed_positional(st.positional.subrange(0, i as int)),
                had == (exists|k: int| 0 <= k < i && !(#[trigger] st.positional[k]).1),
            decreases self.positional@.len() - i,
        {
            assert(st.positional.subrange(0, i + 1).drop_last() =~= st.positional.subrange(
                0,
                i as int,
            ));
            assert(st.positional[i as int] == (self.positional@[i as int].value@,
                self.positional@[i as int].consumed));
            if !self.positional[i].consumed {
                let ghost before = strs_view(parts@);
                parts.push(self.positional[i].value.clone());
                assert(strs_view(parts@) =~= before + seq![st.positional[i as int].0]);
                had = true;
            } else {
                assert(unconsumed_positional(st.positional.subrange(0, i + 1)) =~= unconsumed_positional(
                    st.positional.subrange(0, i as int),
                ));
            }
            i = i + 1;
        }
        assert(st.positional.subrange(0, i as int) =~= st.positional);
        let ghost pos_part = strs_view(parts@);
        let mut j: usize = 0;
        assert(st.named.subrange(0, 0) =~= Seq::<NamedView>::empty());
        assert(pos_part + unconsumed_named(st.named.subrange(0, 0)) =~= pos_part);
        while j < self.named.len()
            invariant
                j <= self.named@.len(),
                st == self@,
                pos_part == unconsumed_positional(st.positional),
                strs_view(parts@) == pos_part + unconsumed_named(st.named.subrange(0, j as int)),
                had == ((exists|k: int| 0 <= k < st.positional.len() && !(#[trigger] st.positional[k]).1)
                    || (exists|k: int| 0 <= k < j && !(#[trigger] st.named[k]).consumed)),
            decreases self.named@.len() - j,
        {
            assert(st.named.subrange(0, j + 1).drop_last() =~= st.named.subrange(0, j as int));
            assert(st.named[j as int] == self.named@[j as int]@);
            if !self.named[j].consumed {
                let ghost before = strs_view(parts@);
                parts.push(self.named[j].flag.clone());
                match &self.named[j].value {
                    Some(v) => {
                        parts.push(v.clone());
                        assert(strs_view(parts@) =~= before + (seq![st.named[j as int].flag] + seq![
                            st.named[j as int].value->Some_0,
                        ]));
                    },
                    None => {
                        assert(strs_view(parts@) =~= before + (seq![st.named[j as int].flag]
                            + Seq::<Seq<char>>::empty()));
                    },
                }
                had = true;
            } else {
                assert(unconsumed_named(st.named.subrange(0, j + 1)) =~= unconsumed_named(
                    st.named.subrange(0, j as int),
                ));
            }
            j = j + 1;
        }
        assert(st.named.subrange(0, j as int) =~= st.named);
        (parts, had)
    }
}

/// Records a flag in place of the flag with the same key, or at its place in
/// the ascending order of keys.
pub(crate) fn insert_sorted(named: &mut Vec<NamedArgument>, nv: NamedArgument)
    ensures
        named_view(final(named)@) == sorted_insert(named_view(old(named)@), nv@),
{
    let kv = chars_of(nv.key.as_str());
    let mut j: usize = 0;
    let ghost named0 = named_view(old(named)@);
    proof {
        assert(named0.subrange(0, 0) =~= Seq::<NamedView>::empty());
        assert(named0.subrange(0, named0.len() as int) =~= named0);
    }
    while j < named.len()
        invariant
            j <= named@.len(),
            named@ == old(named)@,
            named0 == named_view(old(named)@),
            kv@ == nv.key@,
            sorted_insert(named0, nv@) == named0.subrange(0, j as int) + sorted_insert(
                named0.subrange(j as int, named0.len() as int),
                nv@,
            ),
        decreases named@.len() - j,
    {
        let kj = chars_of(named[j].key.as_str());
        let ghost rest = named0.subrange(j as int, named0.len() as int);
        assert(rest[0] == named0[j as int]);
        if crate::text::chars_eq(&kj, &kv) {
                            named.set(j, nv);
            proof {
                assert(rest.update(0, nv@) =~= seq![nv@] + rest.drop_first());
                assert(named0.subrange(0, j as int) + (seq![nv@] + rest.drop_first()) =~= named0.update(
                    j as int,
                    nv@,
                ));
                assert(named_view(named@) =~= named0.update(j as int, nv@));
            }
            return;
        }
        if crate::text::str_less(&kv, &kj) {
                            named.insert(j, nv);
            proof {
                assert(named0.subrange(0, j as int) + (seq![nv@] + rest) =~= named0.insert(
                    j as int,
                    nv@,
                ));
                assert(named_view(named@) =~= named0.insert(j as int, nv@));
            }
            return;
        }
        proof {
            assert(rest.drop_first() =~= named0.subrange(j + 1, named0.len() as int));
            assert(named0.subrange(0, j as int) + (seq![rest[0]] + sorted_insert(
                rest.drop_first(),
                nv@,
            )) =~= named0.subrange(0, j + 1) + sorted_insert(
                named0.subrange(j + 1, named0.len() as int),
                nv@,
            ));
        }
        j = j + 1;
    }
            named.push(nv);
    proof {
        assert(named0.subrange(j as int, named0.len() as int) =~= Seq::<NamedView>::empty());
        assert(named_view(named@) =~= named0.push(nv@));
        assert(named0.subrange(0, j as int) + seq![nv@] =~= named0.push(nv@));
    }
}

/// Whether a string starts with `-`.
pub(crate) fn starts_with_dash(s: &str) -> (r: bool)
    ensures
        r == starts_dash(s@),
{
    let v = chars_of(s);
    v.len() > 0 && v[0] == '-'
}

/// A copy of an optional string.
pub(crate) fn copy_opt_string(o: &Option<String>) -> (r: Option<String>)
    ensures
        opt_view(r) == opt_view(*o),
{
    match o {
        Some(s) => Some(s.clone()),
        None => None,
    }
}

/// The view of an optional string slice.
pub open spec fn opt_str_ref(o: Option<&str>) -> Option<Seq<char>> {
    match o {
        Some(s) => Some(s@),
        None => None,
    }
}

/// The view of an optional optional string.
pub open spec fn opt_opt_view(o: Option<Option<String>>) -> Option<Option<Seq<char>>> {
    match o {
        Some(v) => Some(opt_view(v)),
        None => None,
    }
}

// =========================================================================
// === Resolution of parameter tokens
// =========================================================================

/// The conflict of a definition: a flag given together with its alias.
pub open spec fn def_conflict(d: ParameterDefView, st: CliStateView) -> Option<ParamErrorView> {
    match d.kind {
        ParameterKindView::Named { name } => match d.modifiers.alias {
            Some(a) => if find_key(st.named, name) is Some && find_key(st.named, a) is Some {
                Some(ParamErrorView::Conflict { name, alias: a })
            } else {
                None
            },
            None => None,
        },
        _ => None,
    }
}

/// The first conflict among the definitions, in order.
pub open spec fn first_conflict(defs: Seq<ParameterDefView>, st: CliStateView) -> Option<
    ParamErrorView,
>
    decreases defs.len(),
{
    if defs.len() == 0 {
        None
    } else {
        match first_conflict(defs.drop_last(), st) {
            Some(e) => Some(e),
            None => def_conflict(defs.last(), st),
        }
    }
}

/// The value of the first entry with key `k`.
pub open spec fn lookup(entries: Seq<(Seq<char>, Seq<char>)>, k: Seq<char>) -> Option<Seq<char>>
    decreases entries.len(),
{
    if entries.len() == 0 {
        None
    } else if entries[0].0 == k {
        Some(entries[0].1)
    } else {
        lookup(entries.drop_first(), k)
    }
}

/// A value, wrapped in quotes when the parameter is `literal`.
pub open spec fn maybe_wrapped(d: ParameterDefView, val: Seq<char>) -> Seq<char> {
    if d.modifiers.literal {
        crate::commons::wrapped(val)
    } else {
        val
    }
}

/// The text of a flag parameter. With `map`, only the value matters: the map
/// prefix and the value (from the command line, else the default), or nothing
/// when there is no value. Without `map`, the flag passes through when it was
/// given: `--name value` or `--name`; nothing when it was not given.
pub open spec fn flag_text(
    d: ParameterDefView,
    name: Seq<char>,
    presence: Option<Option<Seq<char>>>,
) -> Seq<char> {
    let base = match presence {
        Some(Some(v)) => Some(v),
        _ => d.modifiers.default_value,
    };
    match d.modifiers.map {
        Some(m) => match base {
            None => Seq::empty(),
            Some(val) => if m.len() == 0 {
                maybe_wrapped(d, val)
            } else {
                m + maybe_wrapped(d, val)
            },
        },
        None => if presence is Some {
            match base {
                Some(val) => "--"@ + name + " "@ + maybe_wrapped(d, val),
                None => "--"@ + name,
            }
        } else {
            Seq::empty()
        },
    }
}

/// The text of one parameter and the state after it consumed its argument.
pub open spec fn resolve_one(d: ParameterDefView, st: CliStateView) -> Result<
    (CliStateView, Seq<char>),
    ParamErrorView,
> {
    match d.kind {
        ParameterKindView::Positional { index } => {
            let (st2, v) = consume_positional_spec(st, index as int);
            if d.modifiers.required && v is None {
                Err(ParamErrorView::PositionalRequired { index })
            } else {
                let fv = match v {
                    Some(x) => Some(x),
                    None => d.modifiers.default_value,
                };
                Ok(
                    (
                        st2,
                        match fv {
                            Some(val) => maybe_wrapped(d, val),
                            None => Seq::empty(),
                        },
                    ),
                )
            }
        },
        ParameterKindView::Named { name } => match consume_named_spec(
            st,
            name,
            d.modifiers.alias,
        ) {
            Err(e) => Err(e),
            Ok((st2, presence)) => if d.modifiers.required && presence is None {
                Err(ParamErrorView::FlagRequired { name })
            } else {
                Ok((st2, flag_text(d, name, presence)))
            },
        },
    }
}

/// Whether a definition is the generic one (no specifier).
pub open spec fn is_generic_def(d: ParameterDefView) -> bool {
    d.kind matches ParameterKindView::Positional { index } && index == usize::MAX
}

/// The texts of the definitions from `i` on; a definition whose token was
/// already resolved, and the generic one, are skipped.
pub open spec fn resolve_defs(
    defs: Seq<ParameterDefView>,
    i: int,
    st: CliStateView,
    resolved: Seq<(Seq<char>, Seq<char>)>,
) -> Result<(CliStateView, Seq<(Seq<char>, Seq<char>)>), ParamErrorView>
    decreases defs.len() - i,
{
    if i < 0 || i >= defs.len() {
        Ok((st, resolved))
    } else {
        let d = defs[i];
        if is_generic_def(d) || lookup(resolved, d.original_token) is Some {
            resolve_defs(defs, i + 1, st, resolved)
        } else {
            match resolve_one(d, st) {
                Err(e) => Err(e),
                Ok((st2, text)) => resolve_defs(
                    defs,
                    i + 1,
                    st2,
                    resolved.push((d.original_token, text)),
                ),
            }
        }
    }
}

/// The flag `find_key` finds lies in range and has the key looked for.
proof fn lemma_find_key_range(named: Seq<NamedView>, k: Seq<char>)
    ensures
        find_key(named, k) matches Some(j) ==> 0 <= j < named.len() && named[j].key == k,
    decreases named.len(),
{
    if named.len() > 0 && named[0].key != k {
        lemma_find_key_range(named.drop_first(), k);
        match find_key(named.drop_first(), k) {
            Some(j) => {
                assert(named.drop_first()[j] == named[j + 1]);
            },
            None => {},
        }
    }
}

/// Recording a flag that is not consumed keeps every flag unconsumed.
proof fn lemma_sorted_insert_fresh(named: Seq<NamedView>, nv: NamedView)
    requires
        forall|k: int| 0 <= k < named.len() ==> !(#[trigger] named[k]).consumed,
        !nv.consumed,
    ensures
        forall|k: int| 0 <= k < sorted_insert(named, nv).len() ==> !(#[trigger] sorted_insert(named, nv)[k]).consumed,
    decreases named.len(),
{
    if named.len() > 0 {
        let rest = named.drop_first();
        assert forall|k: int| 0 <= k < rest.len() implies !(#[trigger] rest[k]).consumed by {
            assert(rest[k] == named[k + 1]);
        }
        lemma_sorted_insert_fresh(rest, nv);
        let r = sorted_insert(named, nv);
        if named[0].key == nv.key {
        } else if crate::text::str_lt(nv.key, named[0].key) {
            assert forall|k: int| 0 < k < r.len() implies r[k] == named[k - 1] by {}
        } else {
            assert forall|k: int| 0 < k < r.len() implies r[k] == sorted_insert(rest, nv)[k - 1] by {}
        }
    }
}

/// Classifying arguments marks no argument as consumed.
proof fn lemma_cli_parse_fresh(params: Seq<Seq<char>>, i: int, st: CliStateView)
    requires
        forall|k: int| 0 <= k < st.positional.len() ==> !(#[trigger] st.positional[k]).1,
        forall|k: int| 0 <= k < st.named.len() ==> !(#[trigger] st.named[k]).consumed,
    ensures
        forall|k: int|
            0 <= k < cli_parse(params, i, st).positional.len() ==> !(#[trigger] cli_parse(
                params,
                i,
                st,
            ).positional[k]).1,
        forall|k: int|
            0 <= k < cli_parse(params, i, st).named.len() ==> !(#[trigger] cli_parse(params, i, st).named[k]).consumed,
    decreases params.len() - i,
{
    if 0 <= i < params.len() {
        let p = params[i];
        let has_value = i + 1 < params.len() && !starts_dash(params[i + 1]);
        let value = if has_value {
            Some(params[i + 1])
        } else {
            None
        };
        let next = if has_value {
            i + 2
        } else {
            i + 1
        };
        if starts_dash(p) {
            let key = if crate::text::starts_with(p, "--"@) {
                p.subrange(2, p.len() as int)
            } else {
                p
            };
            let nv = NamedView { key, flag: p, value, consumed: false };
            let st2 = CliStateView { named: sorted_insert(st.named, nv), ..st };
            lemma_sorted_insert_fresh(st.named, nv);
            assert(cli_parse(params, i, st) == cli_parse(params, next, st2));
            lemma_cli_parse_fresh(params, next, st2);
        } else {
            let st2 = CliStateView { positional: st.positional.push((p, false)), ..st };
            assert forall|k: int| 0 <= k < st2.positional.len() implies !(#[trigger] st2.positional[k]).1 by {
                if k < st.positional.len() {
                    assert(st2.positional[k] == st.positional[k]);
                }
            }
            assert(cli_parse(params, i, st) == cli_parse(params, i + 1, st2));
            lemma_cli_parse_fresh(params, i + 1, st2);
        }
    }
}

/// The text a positional parameter receives: the argument at its position,
/// or else its default; quoted when the parameter is `literal`.
pub open spec fn positional_text(d: ParameterDefView, index: int, params: Seq<Seq<char>>) -> Seq<char> {
    let ps = cli_state_of(params).positional;
    let value = if 0 <= index < ps.len() {
        Some(ps[index].0)
    } else {
        d.modifiers.default_value
    };
    match value {
        Some(v) => if d.modifiers.literal {
            crate::commons::wrapped(v)
        } else {
            v
        },
        None => Seq::empty(),
    }
}

/// The text a flag parameter `--name` (without alias) receives. Its value is
/// the one given on the command line, or else its default; quoted when the
/// parameter is `literal`. With `map`, the text is the map prefix followed by
/// the value (nothing without a value); without `map`, a given flag passes
/// through as `--name value` (or `--name`), and an absent one gives nothing.
pub open spec fn flag_param_text(d: ParameterDefView, name: Seq<char>, params: Seq<Seq<char>>) -> Seq<char> {
    let named = cli_state_of(params).named;
    let given: Option<Option<Seq<char>>> = match find_key(named, name) {
        Some(j) => Some(named[j].value),
        None => None,
    };
    let value = match given {
        Some(Some(v)) => Some(v),
        _ => d.modifiers.default_value,
    };
    let item = match value {
        Some(v) => if d.modifiers.literal {
            crate::commons::wrapped(v)
        } else {
            v
        },
        None => Seq::empty(),
    };
    match d.modifiers.map {
        Some(m) => if value is Some {
            m + item
        } else {
            Seq::empty()
        },
        None => match given {
            Some(_) => if value is Some {
                "--"@ + name + " "@ + item
            } else {
                "--"@ + name
            },
            None => Seq::empty(),
        },
    }
}

/// What resolving the definitions of a script against its arguments gives: the
/// text of each token, and the arguments left for the generic `<params>` token;
/// or the first conflict, the first missing required argument, or leftover
/// arguments when the script has no generic token.
pub open spec fn resolution(
    defs: Seq<ParameterDefView>,
    params: Seq<Seq<char>>,
    has_generic: bool,
) -> Result<(Seq<(Seq<char>, Seq<char>)>, Seq<Seq<char>>), ParamErrorView> {
    let st0 = cli_state_of(params);
    match first_conflict(defs, st0) {
        Some(e) => Err(e),
        None => match resolve_defs(defs, 0, st0, Seq::empty()) {
            Err(e) => Err(e),
            Ok((st, resolved)) => {
                let left = unconsumed_positional(st.positional) + unconsumed_named(st.named);
                if has_unconsumed(st) && !has_generic {
                    Err(ParamErrorView::UnexpectedArguments { args: left })
                } else {
                    Ok((resolved, left))
                }
            },
        },
    }
}

/// The resolved value of every parameter token of a script, and the arguments
/// left for its generic `<params>` token.
#[derive(Debug)]
pub struct ArgResolver {
    resolved_values: Vec<(String, String)>,
    unclaimed_args: Vec<String>,
}

pub ghost struct ResolverView {
    pub resolved: Seq<(Seq<char>, Seq<char>)>,
    pub unclaimed: Seq<Seq<char>>,
}

impl View for ArgResolver {
    type V = ResolverView;

    closed spec fn view(&self) -> ResolverView {
        ResolverView {
            resolved: crate::models::str_pairs_view(self.resolved_values@),
            unclaimed: strs_view(self.unclaimed_args@),
        }
    }
}

/// Copies a string slice.
fn copy_str(s: &str) -> (r: String)
    ensures
        r@ == s@,
{
    crate::text::owned(s)
}

/// The view of a sequence of definitions.
pub open spec fn defs_view(defs: Seq<ParameterDef>) -> Seq<ParameterDefView> {
    defs.map_values(|d: ParameterDef| d@)
}

/// The value of the first entry with key `k`, in an association list of strings.
fn lookup_exec(entries: &Vec<(String, String)>, k: &str) -> (r: Option<String>)
    ensures
        opt_view(r) == lookup(crate::models::str_pairs_view(entries@), k@),
{
    let kv = chars_of(k);
    let ghost all = crate::models::str_pairs_view(entries@);
    let mut j: usize = 0;
    assert(all.subrange(0, all.len() as int) =~= all);
    while j < entries.len()
        invariant
            j <= entries@.len(),
            all == crate::models::str_pairs_view(entries@),
            kv@ == k@,
            lookup(all, k@) == lookup(all.subrange(j as int, all.len() as int), k@),
        decreases entries@.len() - j,
    {
        let ghost rest = all.subrange(j as int, all.len() as int);
        assert(rest[0] == (entries@[j as int].0@, entries@[j as int].1@));
        let kj = chars_of(entries[j].0.as_str());
        if crate::text::chars_eq(&kj, &kv) {
            return Some(entries[j].1.clone());
        }
        assert(rest.drop_first() =~= all.subrange(j + 1, all.len() as int));
        j = j + 1;
    }
    None
}

/// Appends `text` to `out`.
fn append_text(out: &mut String, text: &str)
    ensures
        final(out)@ == old(out)@ + text@,
{
    out.append(text);
}

/// A value, wrapped in quotes when the parameter is `literal`.
fn maybe_wrap(d: &ParameterDef, val: &str) -> (r: String)
    ensures
        r@ == maybe_wrapped(d@, val@),
{
    if d.modifiers.literal {
        crate::commons::wrap_value(val)
    } else {
        copy_str(val)
    }
}

/// The text of a flag parameter; see [`flag_text`].
fn flag_text_exec(d: &ParameterDef, name: &str, presence: &Option<Option<String>>) -> (r: String)
    ensures
        r@ == flag_text(d@, name@, opt_opt_view(*presence)),
{
    let base: Option<String> = match presence {
        Some(Some(v)) => Some(v.clone()),
        _ => copy_opt_string(&d.modifiers.default_value),
    };
    match &d.modifiers.map {
        Some(m) => match base {
            None => String::new(),
            Some(val) => {
                let w = maybe_wrap(d, val.as_str());
                if m.as_str().unicode_len() == 0 {
                    w
                } else {
                    let mut out = m.clone();
                    append_text(&mut out, w.as_str());
                    out
                }
            },
        },
        None => {
            if presence.is_some() {
                let mut out = copy_str("--");
                append_text(&mut out, name);
                match base {
                    Some(val) => {
                        append_text(&mut out, " ");
                        let w = maybe_wrap(d, val.as_str());
                        append_text(&mut out, w.as_str());
                    },
                    None => {},
                }
                out
            } else {
                String::new()
            }
        },
    }
}

/// Law: a positional parameter receives the argument at its position, or else
/// its default, and a `literal` one receives it quoted. For a script whose
/// parameter is the positional `d`, whatever the arguments, a successful
/// resolution gives `d`'s token that text; with `literal`, it is always the
/// quoted value (or nothing, without a value).
pub proof fn lemma_positional_parameter_text(d: ParameterDefView, params: Seq<Seq<char>>, has_generic: bool)
    requires
        d.kind is Positional,
        d.kind->index != usize::MAX,
    ensures
        resolution(seq![d], params, has_generic) is Ok ==> lookup(
            resolution(seq![d], params, has_generic)->Ok_0.0,
            d.original_token,
        ) == Some(positional_text(d, d.kind->index as int, params)),
        resolution(seq![d], params, has_generic) is Ok && d.modifiers.literal ==> {
            let t = lookup(resolution(seq![d], params, has_generic)->Ok_0.0, d.original_token)->Some_0;
            t.len() == 0 || (t.len() >= 2 && t[0] == '"' && t.last() == '"')
        },
{
    let st0 = cli_state_of(params);
    lemma_cli_parse_fresh(params, 0, CliStateView { positional: Seq::empty(), named: Seq::empty() });
    let defs = seq![d];
    assert(defs.drop_last() =~= Seq::<ParameterDefView>::empty());
    assert(first_conflict(defs.drop_last(), st0) is None);
    assert(defs.last() == d);
    assert(def_conflict(d, st0) is None);
    assert(first_conflict(defs, st0) is None);
    let index = d.kind->index as int;
    if 0 <= index < st0.positional.len() {
        assert(!st0.positional[index].1);
    }
    match resolve_one(d, st0) {
        Ok((st2, text)) => {
            assert(resolve_defs(defs, 1, st2, Seq::empty().push((d.original_token, text))) == Ok::<
                (CliStateView, Seq<(Seq<char>, Seq<char>)>),
                ParamErrorView,
            >((st2, Seq::empty().push((d.original_token, text)))));
            assert(Seq::<(Seq<char>, Seq<char>)>::empty().push((d.original_token, text))[0].0 == d.original_token);
        },
        Err(_) => {},
    }
}

/// Law: a flag parameter receives the value given on the command line, or
/// else its default, quoted when `literal`; with `map` it is the map prefix and
/// the value, and without `map` a given flag passes through as `--name value`.
/// For a script whose parameter is the flag `d` (without alias), whatever the
/// arguments, a successful resolution gives `d`'s token that text.
pub proof fn lemma_flag_parameter_text(d: ParameterDefView, params: Seq<Seq<char>>, has_generic: bool)
    requires
        d.kind is Named,
        d.modifiers.alias is None,
    ensures
        resolution(seq![d], params, has_generic) is Ok ==> lookup(
            resolution(seq![d], params, has_generic)->Ok_0.0,
            d.original_token,
        ) == Some(flag_param_text(d, d.kind->name, params)),
{
    let st0 = cli_state_of(params);
    lemma_cli_parse_fresh(params, 0, CliStateView { positional: Seq::empty(), named: Seq::empty() });
    let defs = seq![d];
    assert(defs.drop_last() =~= Seq::<ParameterDefView>::empty());
    assert(first_conflict(defs.drop_last(), st0) is None);
    assert(defs.last() == d);
    assert(def_conflict(d, st0) is None);
    let name = d.kind->name;
    match find_key(st0.named, name) {
        Some(j) => {
            lemma_find_key_range(st0.named, name);
            assert(!st0.named[j].consumed);
        },
        None => {},
    }
    if d.modifiers.map is Some && d.modifiers.map->Some_0.len() == 0 {
        let m = d.modifiers.map->Some_0;
        match (match find_key(st0.named, name) {
            Some(j) => match st0.named[j].value {
                Some(v) => Some(v),
                None => d.modifiers.default_value,
            },
            None => d.modifiers.default_value,
        }) {
            Some(v) => {
                assert(m + crate::commons::wrapped(v) =~= crate::commons::wrapped(v));
                assert(m + v =~= v);
            },
            None => {},
        }
    }
    match resolve_one(d, st0) {
        Ok((st2, text)) => {
            assert(resolve_defs(defs, 1, st2, Seq::empty().push((d.original_token, text))) == Ok::<
                (CliStateView, Seq<(Seq<char>, Seq<char>)>),
                ParamErrorView,
            >((st2, Seq::empty().push((d.original_token, text)))));
            assert(Seq::<(Seq<char>, Seq<char>)>::empty().push((d.original_token, text))[0].0 == d.original_token);
        },
        Err(_) => {},
    }
}

/// Law: a required parameter without an argument is refused. For a script
/// whose parameter is a required positional `d`, arguments with no positional
/// argument at its position give the error naming it.
pub proof fn lemma_required_positional_missing(d: ParameterDefView, params: Seq<Seq<char>>, has_generic: bool)
    requires
        d.kind is Positional,
        d.kind->index != usize::MAX,
        d.modifiers.required,
        d.kind->index >= cli_state_of(params).positional.len(),
    ensures
        resolution(seq![d], params, has_generic) == Err::<
            (Seq<(Seq<char>, Seq<char>)>, Seq<Seq<char>>),
            ParamErrorView,
        >(ParamErrorView::PositionalRequired { index: d.kind->index }),
{
    let st0 = cli_state_of(params);
    let defs = seq![d];
    assert(defs.drop_last() =~= Seq::<ParameterDefView>::empty());
    assert(first_conflict(defs.drop_last(), st0) is None);
    assert(defs.last() == d);
    assert(first_conflict(defs, st0) is None);
}

impl ArgResolver {
    /// Validates the arguments of a script against its parameter definitions and
    /// computes the final text of every parameter token.
    pub fn new(definitions: &[ParameterDef], cli_params: &[String], has_generic_params: bool) -> (r:
        Result<ArgResolver, ParamError>)
        ensures
            match resolution(defs_view(definitions@), strs_view(cli_params@), has_generic_params) {
                Ok((resolved, left)) => r is Ok && r->Ok_0@.resolved == resolved
                    && r->Ok_0@.unclaimed == left,
                Err(e) => r is Err && r->Err_0@ == e,
            },
    {
        let ghost defs = defs_view(definitions@);
        let mut st = CliInputState::new(cli_params);
        let ghost st0 = st@;
        // Conflicting flags are rejected before anything is consumed.
        let mut c: usize = 0;
        assert(defs.subrange(0, 0) =~= Seq::<ParameterDefView>::empty());
        while c < definitions.len()
            invariant
                c <= definitions@.len(),
                defs == defs_view(definitions@),
                st@ == st0,
                st0 == cli_state_of(strs_view(cli_params@)),
                first_conflict(defs.subrange(0, c as int), st0) is None,
            decreases definitions@.len() - c,
        {
            let d = &definitions[c];
            assert(defs[c as int] == d@);
            assert(defs.subrange(0, c + 1).drop_last() =~= defs.subrange(0, c as int));
            match &d.kind {
                ParameterKind::Named { name } => match &d.modifiers.alias {
                    Some(a) => {
                        let ni = st.find(name.as_str());
                        let ai = st.find(a.as_str());
                        if ni.is_some() && ai.is_some() {
                            proof {
                                lemma_first_conflict_stays(defs, st0, c as int, defs.len() as int);
                                assert(defs.subrange(0, defs.len() as int) =~= defs);
                            }
                            return Err(ParamError::Conflict { name: name.clone(), alias: a.clone() });
                        }
                    },
                    None => {},
                },
                _ => {},
            }
            c = c + 1;
        }
        assert(defs.subrange(0, c as int) =~= defs);
        let mut resolved: Vec<(String, String)> = Vec::new();
        let mut i: usize = 0;
        assert(crate::models::str_pairs_view(resolved@) =~= Seq::<(Seq<char>, Seq<char>)>::empty());
        while i < definitions.len()
            invariant
                i <= definitions@.len(),
                defs == defs_view(definitions@),
                st0 == cli_state_of(strs_view(cli_params@)),
                first_conflict(defs, st0) is None,
                resolve_defs(defs, 0, st0, Seq::empty()) == resolve_defs(
                    defs,
                    i as int,
                    st@,
                    crate::models::str_pairs_view(resolved@),
                ),
            decreases definitions@.len() - i,
        {
            let d = &definitions[i];
            assert(defs[i as int] == d@);
            let is_generic = match &d.kind {
                ParameterKind::Positional { index } => *index == usize::MAX,
                _ => false,
            };
            let seen = lookup_exec(&resolved, d.original_token.as_str());
            if is_generic || seen.is_some() {
                i = i + 1;
                continue;
            }
            let text: String = match &d.kind {
                ParameterKind::Positional { index } => {
                    let v = st.consume_positional(*index);
                    if d.modifiers.required && v.is_none() {
                        return Err(ParamError::PositionalRequired { index: *index });
                    }
                    let fv = match v {
                        Some(x) => Some(x),
                        None => copy_opt_string(&d.modifiers.default_value),
                    };
                    match fv {
                        Some(val) => maybe_wrap(d, val.as_str()),
                        None => String::new(),
                    }
                },
                ParameterKind::Named { name } => {
                    let alias: Option<&str> = match &d.modifiers.alias {
                        Some(a) => Some(a.as_str()),
                        None => None,
                    };
                    let presence = st.consume_named(name.as_str(), alias)?;
                    if d.modifiers.required && presence.is_none() {
                        return Err(ParamError::FlagRequired { name: name.clone() });
                    }
                    flag_text_exec(d, name.as_str(), &presence)
                },
            };
            let ghost before = crate::models::str_pairs_view(resolved@);
            resolved.push((d.original_token.clone(), text));
            assert(crate::models::str_pairs_view(resolved@) =~= before.push(
                (d@.original_token, text@),
            ));
            i = i + 1;
        }
        let (unclaimed, had) = st.get_unconsumed_values();
        if had && !has_generic_params {
            return Err(ParamError::UnexpectedArguments { args: unclaimed });
        }
        Ok(ArgResolver { resolved_values: resolved, unclaimed_args: unclaimed })
    }

    /// The resolved text of a parameter token, by the token as written.
    pub fn get_specific_value(&self, original_token: &str) -> (r: Option<String>)
        ensures
            opt_view(r) == lookup(self@.resolved, original_token@),
    {
        lookup_exec(&self.resolved_values, original_token)
    }

    /// The arguments left for the generic `<params>` token.
    pub fn get_generic_values(&self) -> (r: &Vec<String>)
        ensures
            strs_view(r@) == self@.unclaimed,
    {
        &self.unclaimed_args
    }
}

/// Once a definition conflicts, every longer prefix of the definitions has a conflict.
proof fn lemma_first_conflict_stays(defs: Seq<ParameterDefView>, st: CliStateView, c: int, j: int)
    requires
        0 <= c < j <= defs.len(),
        first_conflict(defs.subrange(0, c), st) is None,
        def_conflict(defs[c], st) is Some,
    ensures
        first_conflict(defs.subrange(0, j), st) == def_conflict(defs[c], st),
    decreases j - c,
{
    if j > c + 1 {
        lemma_first_conflict_stays(defs, st, c, j - 1);
        assert(defs.subrange(0, j).drop_last() =~= defs.subrange(0, j - 1));
    } else {
        assert(defs.subrange(0, j).drop_last() =~= defs.subrange(0, c));
        assert(defs.subrange(0, j).last() == defs[c]);
    }
}

} // verus!
