//! ANSI styles: parsing of style names (`<#bright-green>`) and their escape codes.

use vstd::prelude::*;
use crate::models::AnsiStyle;
use crate::text::{chars_of, push_char, str_eq};

verus! {

/// What `str::to_lowercase` returns for `s` (full Unicode case mapping).
pub uninterp spec fn lowercase_of(s: Seq<char>) -> Seq<char>;

/// Lower-cases a string with `str::to_lowercase`.
///
/// Trusted: the result is what std's Unicode lower-case mapping gives for the
/// argument; nothing more of it is stated.
#[verifier::external_body]
pub(crate) fn to_lowercase(s: &str) -> (r: String)
    ensures
        r@ == lowercase_of(s@),
{
    s.to_lowercase()
}

/// `s` with every `_` replaced by `-`.
pub open spec fn underscores_to_dashes(s: Seq<char>) -> Seq<char> {
    s.map_values(|c: char| if c == '_' { '-' } else { c })
}

/// The style named by an already normalized (lower-case, dash-separated) name.
pub open spec fn style_of_normalized(n: Seq<char>) -> Option<AnsiStyle> {
    if n == "reset"@ {
        Some(AnsiStyle::Reset)
    } else if n == "bold"@ {
        Some(AnsiStyle::Bold)
    } else if n == "dim"@ {
        Some(AnsiStyle::Dim)
    } else if n == "italic"@ {
        Some(AnsiStyle::Italic)
    } else if n == "underline"@ {
        Some(AnsiStyle::Underline)
    } else if n == "black"@ {
        Some(AnsiStyle::Black)
    } else if n == "red"@ {
        Some(AnsiStyle::Red)
    } else if n == "green"@ {
        Some(AnsiStyle::Green)
    } else if n == "yellow"@ {
        Some(AnsiStyle::Yellow)
    } else if n == "blue"@ {
        Some(AnsiStyle::Blue)
    } else if n == "magenta"@ {
        Some(AnsiStyle::Magenta)
    } else if n == "cyan"@ {
        Some(AnsiStyle::Cyan)
    } else if n == "white"@ {
        Some(AnsiStyle::White)
    } else if n == "bright-black"@ || n == "gray"@ || n == "grey"@ {
        Some(AnsiStyle::BrightBlack)
    } else if n == "bright-red"@ {
        Some(AnsiStyle::BrightRed)
    } else if n == "bright-green"@ {
        Some(AnsiStyle::BrightGreen)
    } else if n == "bright-yellow"@ {
        Some(AnsiStyle::BrightYellow)
    } else if n == "bright-blue"@ {
        Some(AnsiStyle::BrightBlue)
    } else if n == "bright-magenta"@ {
        Some(AnsiStyle::BrightMagenta)
    } else if n == "bright-cyan"@ {
        Some(AnsiStyle::BrightCyan)
    } else if n == "bright-white"@ {
        Some(AnsiStyle::BrightWhite)
    } else {
        None
    }
}

/// The style that a `<#name>` token names: case-insensitive, `_` read as `-`.
pub open spec fn style_named(name: Seq<char>) -> Option<AnsiStyle> {
    style_of_normalized(underscores_to_dashes(lowercase_of(name)))
}

/// An unknown style name, as written in the token.
#[derive(Debug, Clone)]
pub struct UnknownStyle {
    pub name: String,
}

impl UnknownStyle {
    /// The text of [`Self::message`].
    pub open spec fn message_text(&self) -> Seq<char> {
        "Unknown style token: '<#"@ + self.name@ + ">'"@
    }

    /// The error message shown to the user.
    pub fn message(&self) -> (r: String)
        ensures
            r@ == self.message_text(),
    {
        let mut m = crate::text::owned("Unknown style token: '<#");
        m.append(self.name.as_str());
        m.append(">'");
        m
    }
}

/// Replaces each `_` by `-`.
fn dashes(s: &str) -> (r: String)
    ensures
        r@ == underscores_to_dashes(s@),
{
    let v = chars_of(s);
    let mut r = String::new();
    let mut i: usize = 0;
    while i < v.len()
        invariant
            i <= v@.len(),
            v@ == s@,
            r@ == underscores_to_dashes(s@).subrange(0, i as int),
        decreases v@.len() - i,
    {
        let c = if v[i] == '_' { '-' } else { v[i] };
        push_char(&mut r, c);
        assert(underscores_to_dashes(s@).subrange(0, i + 1) =~= underscores_to_dashes(
            s@,
        ).subrange(0, i as int).push(c));
        i = i + 1;
    }
    assert(underscores_to_dashes(s@).subrange(0, i as int) =~= underscores_to_dashes(s@));
    r
}

/// The style of a normalized name (lower-case, `-` as separator).
pub fn style_from_normalized(n: &str) -> (r: Option<AnsiStyle>)
    ensures
        r == style_of_normalized(n@),
{
    if str_eq(n, "reset") {
        Some(AnsiStyle::Reset)
    } else if str_eq(n, "bold") {
        Some(AnsiStyle::Bold)
    } else if str_eq(n, "dim") {
        Some(AnsiStyle::Dim)
    } else if str_eq(n, "italic") {
        Some(AnsiStyle::Italic)
    } else if str_eq(n, "underline") {
        Some(AnsiStyle::Underline)
    } else if str_eq(n, "black") {
        Some(AnsiStyle::Black)
    } else if str_eq(n, "red") {
        Some(AnsiStyle::Red)
    } else if str_eq(n, "green") {
        Some(AnsiStyle::Green)
    } else if str_eq(n, "yellow") {
        Some(AnsiStyle::Yellow)
    } else if str_eq(n, "blue") {
        Some(AnsiStyle::Blue)
    } else if str_eq(n, "magenta") {
        Some(AnsiStyle::Magenta)
    } else if str_eq(n, "cyan") {
        Some(AnsiStyle::Cyan)
    } else if str_eq(n, "white") {
        Some(AnsiStyle::White)
    } else if str_eq(n, "bright-black") || str_eq(n, "gray") || str_eq(n, "grey") {
        Some(AnsiStyle::BrightBlack)
    } else if str_eq(n, "bright-red") {
        Some(AnsiStyle::BrightRed)
    } else if str_eq(n, "bright-green") {
        Some(AnsiStyle::BrightGreen)
    } else if str_eq(n, "bright-yellow") {
        Some(AnsiStyle::BrightYellow)
    } else if str_eq(n, "bright-blue") {
        Some(AnsiStyle::BrightBlue)
    } else if str_eq(n, "bright-magenta") {
        Some(AnsiStyle::BrightMagenta)
    } else if str_eq(n, "bright-cyan") {
        Some(AnsiStyle::BrightCyan)
    } else if str_eq(n, "bright-white") {
        Some(AnsiStyle::BrightWhite)
    } else {
        None
    }
}

/// Parses a style name (`red`, `Bold`, `bright_green`, `grey`), case-insensitively.
pub fn parse_style_name(name: &str) -> (r: Result<AnsiStyle, UnknownStyle>)
    ensures
        match r {
            Ok(st) => style_named(name@) == Some(st),
            Err(e) => style_named(name@).is_none() && e.name@ == name@,
        },
{
    let lower = to_lowercase(name);
    let normalized = dashes(lower.as_str());
    match style_from_normalized(normalized.as_str()) {
        Some(st) => Ok(st),
        None => Err(UnknownStyle { name: crate::text::owned(name) }),
    }
}

/// The escape sequence of a style.
pub open spec fn ansi_code(style: AnsiStyle) -> Seq<char> {
    match style {
        AnsiStyle::Reset => "\x1b[0m"@,
        AnsiStyle::Bold => "\x1b[1m"@,
        AnsiStyle::Dim => "\x1b[2m"@,
        AnsiStyle::Italic => "\x1b[3m"@,
        AnsiStyle::Underline => "\x1b[4m"@,
        AnsiStyle::Black => "\x1b[30m"@,
        AnsiStyle::Red => "\x1b[31m"@,
        AnsiStyle::Green => "\x1b[32m"@,
        AnsiStyle::Yellow => "\x1b[33m"@,
        AnsiStyle::Blue => "\x1b[34m"@,
        AnsiStyle::Magenta => "\x1b[35m"@,
        AnsiStyle::Cyan => "\x1b[36m"@,
        AnsiStyle::White => "\x1b[37m"@,
        AnsiStyle::BrightBlack => "\x1b[90m"@,
        AnsiStyle::BrightRed => "\x1b[91m"@,
        AnsiStyle::BrightGreen => "\x1b[92m"@,
        AnsiStyle::BrightYellow => "\x1b[93m"@,
        AnsiStyle::BrightBlue => "\x1b[94m"@,
        AnsiStyle::BrightMagenta => "\x1b[95m"@,
        AnsiStyle::BrightCyan => "\x1b[96m"@,
        AnsiStyle::BrightWhite => "\x1b[97m"@,
    }
}

/// The raw ANSI escape code of a style.
pub fn style_to_ansi_code(style: AnsiStyle) -> (r: &'static str)
    ensures
        r@ == ansi_code(style),
{
    match style {
        AnsiStyle::Reset => "\x1b[0m",
        AnsiStyle::Bold => "\x1b[1m",
        AnsiStyle::Dim => "\x1b[2m",
        AnsiStyle::Italic => "\x1b[3m",
        AnsiStyle::Underline => "\x1b[4m",
        AnsiStyle::Black => "\x1b[30m",
        AnsiStyle::Red => "\x1b[31m",
        AnsiStyle::Green => "\x1b[32m",
        AnsiStyle::Yellow => "\x1b[33m",
        AnsiStyle::Blue => "\x1b[34m",
        AnsiStyle::Magenta => "\x1b[35m",
        AnsiStyle::Cyan => "\x1b[36m",
        AnsiStyle::White => "\x1b[37m",
        AnsiStyle::BrightBlack => "\x1b[90m",
        AnsiStyle::BrightRed => "\x1b[91m",
        AnsiStyle::BrightGreen => "\x1b[92m",
        AnsiStyle::BrightYellow => "\x1b[93m",
        AnsiStyle::BrightBlue => "\x1b[94m",
        AnsiStyle::BrightMagenta => "\x1b[95m",
        AnsiStyle::BrightCyan => "\x1b[96m",
        AnsiStyle::BrightWhite => "\x1b[97m",
    }
}

} // verus!
