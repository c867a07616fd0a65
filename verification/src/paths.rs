//! Paths of the configuration: the global index file, cache directories and the
//! expansion of user-given cache path templates.

use vstd::prelude::*;
use crate::cache::hex_digit;
use crate::text::{chars_of, owned};

verus! {

/// The name of the global index file in the configuration directory.
pub const GLOBAL_INDEX_FILENAME: &'static str = "index.bin";

/// What `Path::join` gives for a base path and a relative part.
pub uninterp spec fn joined_path(base: Seq<char>, part: Seq<char>) -> Seq<char>;

/// Joins a path and a part with `std::path::Path::join`.
///
/// Trusted: the result is what std's `join` gives for these two strings on this
/// platform, converted back losslessly (both are valid UTF-8); it is only named.
#[verifier::external_body]
pub(crate) fn join_path(base: &str, part: &str) -> (r: String)
    ensures
        r@ == joined_path(base@, part@),
{
    std::path::Path::new(base).join(part).to_string_lossy().into_owned()
}

/// What `Path::starts_with` answers for `path` and `base`: whether `base` is a
/// prefix of `path`, component by component.
pub uninterp spec fn path_has_prefix(path: Seq<char>, base: Seq<char>) -> bool;

/// Whether `base` is a leading part of `path`, by `std::path::Path::starts_with`.
///
/// Trusted: the result is what std's component-wise comparison gives for these
/// two strings on this platform; it is only named.
#[verifier::external_body]
pub(crate) fn path_starts_with(path: &str, base: &str) -> (r: bool)
    ensures
        r == path_has_prefix(path@, base@),
{
    std::path::Path::new(path).starts_with(base)
}

/// What `==` on `std::path::Path` answers for `a` and `b`: equal components.
pub uninterp spec fn same_path(a: Seq<char>, b: Seq<char>) -> bool;

/// Whether two paths are equal, by `==` on `std::path::Path`.
///
/// Trusted: the result is what std's component-wise equality gives for these two
/// strings on this platform; it is only named.
#[verifier::external_body]
pub(crate) fn paths_equal(a: &str, b: &str) -> (r: bool)
    ensures
        r == same_path(a@, b@),
{
    std::path::Path::new(a) == std::path::Path::new(b)
}

/// What `Path::file_name` gives for a path (its last component, lossily as
/// text), or `None` when the path ends in `..` or is a root.
pub uninterp spec fn file_name_of(path: Seq<char>) -> Option<Seq<char>>;

/// The last component of a path, by `std::path::Path::file_name`.
///
/// Trusted: the result is std's answer for this path on this platform,
/// converted to text; it is only named.
#[verifier::external_body]
pub(crate) fn path_file_name(path: &str) -> (r: Option<String>)
    ensures
        match r {
            Some(n) => file_name_of(path@) == Some(n@),
            None => file_name_of(path@) is None,
        },
{
    std::path::Path::new(path).file_name().map(|n| n.to_string_lossy().into_owned())
}

/// The 16^k.
pub open spec fn pow16(k: nat) -> int
    decreases k,
{
    if k == 0 {
        1
    } else {
        16 * pow16((k - 1) as nat)
    }
}

/// The hexadecimal digits of a UUID, most significant first.
pub open spec fn uuid_hex(u: u128) -> Seq<char> {
    Seq::new(32, |k: int| hex_digit((u as int / pow16((31 - k) as nat)) % 16))
}

/// The hyphenated, lower-case text of a UUID (8-4-4-4-12 digits).
pub open spec fn uuid_text(u: u128) -> Seq<char> {
    let h = uuid_hex(u);
    h.subrange(0, 8) + "-"@ + h.subrange(8, 12) + "-"@ + h.subrange(12, 16) + "-"@ + h.subrange(
        16,
        20,
    ) + "-"@ + h.subrange(20, 32)
}

/// Formats a UUID with `uuid::Uuid::to_string`.
///
/// Trusted: the crate documents `to_string` as the hyphenated lower-case form,
/// which [`uuid_text`] spells out digit by digit.
#[verifier::external_body]
pub(crate) fn uuid_to_string(u: u128) -> (r: String)
    ensures
        r@ == uuid_text(u),
{
    uuid::Uuid::from_u128(u).to_string()
}

/// The path of the global index file in a configuration directory.
pub fn get_global_index_path(config_dir: &str) -> (r: String)
    ensures
        r@ == joined_path(config_dir@, GLOBAL_INDEX_FILENAME@),
{
    join_path(config_dir, GLOBAL_INDEX_FILENAME)
}

/// The cache directory of a project under a cache root: `<root>/projects/<uuid>`.
pub open spec fn project_cache_dir(root: Seq<char>, uuid: u128) -> Seq<char> {
    joined_path(joined_path(root, "projects"@), uuid_text(uuid))
}

/// The default cache directory of a project under the default cache root.
pub fn get_default_cache_dir_for_project(uuid: u128, cache_root: &str) -> (r: String)
    ensures
        r@ == project_cache_dir(cache_root@, uuid),
{
    let projects = join_path(cache_root, "projects");
    let id = uuid_to_string(uuid);
    join_path(projects.as_str(), id.as_str())
}

/// Why a cache path template could not be expanded.
#[derive(Debug, Clone)]
pub enum TemplateError {
    /// The template holds an `axes` token (`<...>`), which is not allowed there.
    DynamicToken { template: String },
    /// Expanding `~` or an environment variable failed.
    Expansion { message: String },
}

impl TemplateError {
    /// The text of [`Self::message`].
    pub open spec fn message_text(&self) -> Seq<char> {
        match self {
            TemplateError::DynamicToken { template } => "The 'cache_dir' path template should only define a root directory and must not contain dynamic axes tokens like <uuid>. Invalid template: '"@
                + template@ + "'"@,
            TemplateError::Expansion { message } => message@,
        }
    }

    /// The message shown to the user.
    pub fn message(&self) -> (r: String)
        ensures
            r@ == self.message_text(),
    {
        match self {
            TemplateError::DynamicToken { template } => {
                let mut m = owned(
                    "The 'cache_dir' path template should only define a root directory and must not contain dynamic axes tokens like <uuid>. Invalid template: '",
                );
                m.append(template.as_str());
                m.append("'");
                m
            },
            TemplateError::Expansion { message } => message.clone(),
        }
    }
}

/// Whether a template holds nothing to expand: no `$` and no leading `~`.
pub open spec fn nothing_to_expand(t: Seq<char>) -> bool {
    !t.contains('$') && !(t.len() > 0 && t[0] == '~')
}

/// Expands `~` and environment variables with `shellexpand::full`.
///
/// Trusted: what a `$VAR` or a leading `~` expands to depends on the
/// environment and the home directory, and is left unsaid. What is stated: a
/// template with no `$` and no leading `~` comes back unchanged, and only a
/// template with a `$` can fail (the error carries the crate's message).
#[verifier::external_body]
fn shell_expand(template: &str) -> (r: Result<String, String>)
    ensures
        nothing_to_expand(template@) ==> (r is Ok && r->Ok_0@ == template@),
        r is Err ==> template@.contains('$'),
{
    match shellexpand::full(template) {
        Ok(s) => Ok(s.into_owned()),
        Err(e) => Err(e.to_string()),
    }
}

/// Whether a string holds `<`.
pub fn contains_lt(s: &str) -> (r: bool)
    ensures
        r == s@.contains('<'),
{
    let v = chars_of(s);
    let mut i: usize = 0;
    while i < v.len()
        invariant
            i <= v@.len(),
            v@ == s@,
            forall|k: int| 0 <= k < i ==> v@[k] != '<',
        decreases v@.len() - i,
    {
        if v[i] == '<' {
            return true;
        }
        i = i + 1;
    }
    false
}

/// Expands a cache path template (home directory and environment variables); a
/// template with an `axes` token (`<`) is refused. A template with nothing to
/// expand is its own expansion, and only one with a `$` can fail to expand.
pub fn expand_path_template(template: &str) -> (r: Result<String, TemplateError>)
    ensures
        template@.contains('<') <==> (r matches Err(TemplateError::DynamicToken { .. })),
        r matches Err(TemplateError::DynamicToken { template: t }) ==> t@ == template@,
        r matches Err(TemplateError::Expansion { .. }) ==> template@.contains('$'),
        !template@.contains('<') && nothing_to_expand(template@) ==> (r is Ok && r->Ok_0@ == template@),
{
    if contains_lt(template) {
        return Err(TemplateError::DynamicToken { template: owned(template) });
    }
    match shell_expand(template) {
        Ok(s) => Ok(s),
        Err(message) => Err(TemplateError::Expansion { message }),
    }
}


/// Why the configuration directory is unavailable.
#[derive(Debug, Clone)]
pub enum PathError {
    /// The system has no configuration directory.
    ConfigDirNotFound,
    /// The directory could not be created (its path, the error).
    ConfigDirCreation { path: String, source: String },
}

impl PathError {
    /// The text of [`Self::message`].
    pub open spec fn message_text(&self) -> Seq<char> {
        match self {
            PathError::ConfigDirNotFound => "Could not find system config directory."@,
            PathError::ConfigDirCreation { path, source } => "Could not create config directory at '"@ + path@
                + "': "@ + source@,
        }
    }

    /// The message shown to the user.
    pub fn message(&self) -> (r: String)
        ensures
            r@ == self.message_text(),
    {
        match self {
            PathError::ConfigDirNotFound => owned("Could not find system config directory."),
            PathError::ConfigDirCreation { path, source } => {
                let mut m = owned("Could not create config directory at '");
                m.append(path.as_str());
                m.append("': ");
                m.append(source.as_str());
                m
            },
        }
    }
}

/// The configuration directory of the application: `axes` under the system's.
pub fn axes_config_dir(system_config_dir: &str) -> (r: String)
    ensures
        r@ == joined_path(system_config_dir@, "axes"@),
{
    join_path(system_config_dir, "axes")
}

} // verus!
