//! Interactive sessions: the shell to use, and the initialization script that sets
//! the project's environment, runs the `at_start` hook and sets the prompt.

use vstd::prelude::*;
use crate::models::{ShellConfig, ShellsConfig, TargetOs};
use crate::resolved::{pairs_view, root_failure, merged_env, ResolvedConfig};
use crate::text::{chars_of, owned, push_char, push_str, str_eq, trim};

verus! {

/// The escapings used in initialization scripts.
#[derive(Debug, Clone, Copy, PartialEq, Eq, Structural)]
pub enum Escaping {
    /// A value in `cmd.exe`'s `set "KEY=VALUE"`.
    CmdSet,
    /// A value between single quotes in a POSIX shell.
    PosixValue,
    /// A prompt between single quotes in bash or zsh.
    PosixPrompt,
    /// A prompt for `cmd.exe`'s `PROMPT`.
    CmdPrompt,
    /// A prompt between single quotes in PowerShell.
    PowerShellPrompt,
    /// Text between double quotes for `echo`.
    EchoText,
}

/// How one character is written under an escaping.
pub open spec fn escape_char(e: Escaping, c: char) -> Seq<char> {
    match e {
        Escaping::CmdSet => if c == '%' {
            seq!['%', '%']
        } else if c == '^' || c == '&' || c == '<' || c == '>' || c == '|' {
            seq!['^', c]
        } else {
            seq![c]
        },
        Escaping::PosixValue => if c == '\'' {
            seq!['\'', '\\', '\'', '\'']
        } else {
            seq![c]
        },
        Escaping::PosixPrompt => if c == '\\' || c == '$' || c == '`' {
            seq!['\\', c]
        } else {
            seq![c]
        },
        Escaping::CmdPrompt => if c == '$' {
            seq!['$', '$']
        } else {
            seq![c]
        },
        Escaping::PowerShellPrompt => if c == '\'' {
            seq!['\'', '\'']
        } else {
            seq![c]
        },
        Escaping::EchoText => if c == '"' {
            seq!['\\', '"']
        } else {
            seq![c]
        },
    }
}

/// A string with every character escaped.
pub open spec fn escaped(e: Escaping, s: Seq<char>) -> Seq<char>
    decreases s.len(),
{
    if s.len() == 0 {
        Seq::empty()
    } else {
        escaped(e, s.drop_last()) + escape_char(e, s.last())
    }
}

/// Escapes a string.
pub fn escape(e: Escaping, value: &str) -> (r: String)
    ensures
        r@ == escaped(e, value@),
{
    let v = chars_of(value);
    let mut out = String::new();
    let mut i: usize = 0;
    assert(v@.subrange(0, 0) =~= Seq::<char>::empty());
    while i < v.len()
        invariant
            i <= v@.len(),
            v@ == value@,
            out@ == escaped(e, v@.subrange(0, i as int)),
        decreases v@.len() - i,
    {
        let c = v[i];
        assert(v@.subrange(0, i + 1).drop_last() =~= v@.subrange(0, i as int));
        let ghost before = out@;
        match e {
            Escaping::CmdSet => {
                if c == '%' {
                    push_char(&mut out, '%');
                    push_char(&mut out, '%');
                } else if c == '^' || c == '&' || c == '<' || c == '>' || c == '|' {
                    push_char(&mut out, '^');
                    push_char(&mut out, c);
                } else {
                    push_char(&mut out, c);
                }
            },
            Escaping::PosixValue => {
                if c == '\'' {
                    push_char(&mut out, '\'');
                    push_char(&mut out, '\\');
                    push_char(&mut out, '\'');
                    push_char(&mut out, '\'');
                } else {
                    push_char(&mut out, c);
                }
            },
            Escaping::PosixPrompt => {
                if c == '\\' || c == '$' || c == '`' {
                    push_char(&mut out, '\\');
                    push_char(&mut out, c);
                } else {
                    push_char(&mut out, c);
                }
            },
            Escaping::CmdPrompt => {
                if c == '$' {
                    push_char(&mut out, '$');
                    push_char(&mut out, '$');
                } else {
                    push_char(&mut out, c);
                }
            },
            Escaping::PowerShellPrompt => {
                if c == '\'' {
                    push_char(&mut out, '\'');
                    push_char(&mut out, '\'');
                } else {
                    push_char(&mut out, c);
                }
            },
            Escaping::EchoText => {
                if c == '"' {
                    push_char(&mut out, '\\');
                    push_char(&mut out, '"');
                } else {
                    push_char(&mut out, c);
                }
            },
        }
        assert(out@ =~= before + escape_char(e, c));
        i = i + 1;
    }
    assert(v@.subrange(0, i as int) =~= v@);
    out
}

/// Escapes a value for `cmd.exe`'s `set "KEY=VALUE"`: `%` is doubled, and `^`,
/// `&`, `<`, `>` and `|` are preceded by `^`.
pub fn escape_for_cmd_set(value: &str) -> (r: String)
    ensures
        r@ == escaped(Escaping::CmdSet, value@),
{
    escape(Escaping::CmdSet, value)
}

/// The lines that set the environment variables.
pub open spec fn env_lines(env: Seq<(Seq<char>, Seq<char>)>, is_cmd: bool) -> Seq<char>
    decreases env.len(),
{
    if env.len() == 0 {
        Seq::empty()
    } else {
        let (k, v) = env.last();
        env_lines(env.drop_last(), is_cmd) + if is_cmd {
            "set \""@ + k + "="@ + escaped(Escaping::CmdSet, v) + "\"\n"@
        } else {
            "export "@ + k + "='"@ + escaped(Escaping::PosixValue, v) + "'\n"@
        }
    }
}

/// The lines of the hook's commands, blank ones left out.
pub open spec fn command_lines(cmds: Seq<Seq<char>>) -> Seq<char>
    decreases cmds.len(),
{
    if cmds.len() == 0 {
        Seq::empty()
    } else {
        command_lines(cmds.drop_last()) + if trim(cmds.last()).len() == 0 {
            Seq::empty()
        } else {
            cmds.last() + "\n"@
        }
    }
}

/// The prompt setting of a shell.
pub open spec fn prompt_lines(shell: Seq<char>, prompt: Option<Seq<char>>) -> Seq<char> {
    match prompt {
        None => Seq::empty(),
        Some(p) => if shell == "bash"@ || shell == "zsh"@ {
            "\nexport PS1='"@ + escaped(Escaping::PosixPrompt, p) + "'\n"@
        } else if shell == "cmd"@ {
            "\nPROMPT "@ + escaped(Escaping::CmdPrompt, p) + "\n"@
        } else if shell == "powershell"@ {
            "\nfunction prompt { Write-Host -NoNewline '"@ + escaped(Escaping::PowerShellPrompt, p)
                + "'; return ' ' }\n"@
        } else {
            Seq::empty()
        },
    }
}

/// The initialization script of a session.
pub open spec fn init_script(
    env: Seq<(Seq<char>, Seq<char>)>,
    cmds: Seq<Seq<char>>,
    shell: Seq<char>,
    prompt: Option<Seq<char>>,
) -> Seq<char> {
    let is_cmd = shell == "cmd"@;
    (if is_cmd {
        "@echo off\n"@
    } else {
        Seq::empty()
    }) + env_lines(env, is_cmd) + "\n"@ + command_lines(cmds) + prompt_lines(shell, prompt) + if is_cmd {
        "\necho.\necho --- Type 'exit' to leave. ---\necho.\n"@
    } else {
        "\necho ''\necho '--- Type 'exit' to leave. ---'\necho ''\n"@
    }
}

/// Whether a string is blank.
fn is_blank(s: &str) -> (r: bool)
    ensures
        r == (trim(s@).len() == 0),
{
    let v = chars_of(s);
    let a = crate::text::scan_exec(&v, 0, crate::text::CharClass::Whitespace);
    proof {
        crate::text::lemma_scan(v@, 0, crate::text::CharClass::Whitespace);
        let t = crate::text::trim_start(v@);
        crate::text::lemma_trim_end(t);
        if a < v@.len() {
            assert(t[0] == v@[a as int]);
            assert(!crate::text::is_ws(t[0]));
            if crate::text::trim_end(t).len() == 0 {
                assert(crate::text::is_ws(t[0]));
            }
        }
    }
    a >= v.len()
}

/// Builds the initialization script of a session: the project's environment, the
/// rendered `at_start` commands, the prompt for the shell, and a closing hint.
pub fn build_init_script(
    config: &ResolvedConfig,
    at_start_commands: &Vec<String>,
    shell_name: &str,
    prompt: Option<&str>,
) -> (r: Result<String, String>)
    ensures
        match root_failure(config.layers_spec()) {
            Some(m) => r is Err && r->Err_0@ == m,
            None => r is Ok && r->Ok_0@ == init_script(
                merged_env(config.layers_spec()),
                crate::parameters::strs_view(at_start_commands@),
                shell_name@,
                crate::parameters::opt_str_ref(prompt),
            ),
        },
{
    let env = config.get_env()?;
    let is_cmd = str_eq(shell_name, "cmd");
    let mut script = String::new();
    if is_cmd {
        push_str(&mut script, "@echo off\n");
    }
    let ghost ev = pairs_view(env@);
    let ghost head = script@;
    let mut i: usize = 0;
    assert(ev.subrange(0, 0) =~= Seq::<(Seq<char>, Seq<char>)>::empty());
    while i < env.len()
        invariant
            i <= env@.len(),
            ev == pairs_view(env@),
            script@ == head + env_lines(ev.subrange(0, i as int), is_cmd),
        decreases env@.len() - i,
    {
        assert(ev.subrange(0, i + 1).drop_last() =~= ev.subrange(0, i as int));
        assert(ev[i as int] == (env@[i as int].0@, env@[i as int].1@));
        let ghost before = script@;
        if is_cmd {
            push_str(&mut script, "set \"");
            push_str(&mut script, env[i].0.as_str());
            push_str(&mut script, "=");
            let e = escape_for_cmd_set(env[i].1.as_str());
            push_str(&mut script, e.as_str());
            push_str(&mut script, "\"\n");
        } else {
            push_str(&mut script, "export ");
            push_str(&mut script, env[i].0.as_str());
            push_str(&mut script, "='");
            let e = escape(Escaping::PosixValue, env[i].1.as_str());
            push_str(&mut script, e.as_str());
            push_str(&mut script, "'\n");
        }
        assert(script@ =~= head + env_lines(ev.subrange(0, i + 1), is_cmd));
        i = i + 1;
    }
    assert(ev.subrange(0, i as int) =~= ev);
    push_str(&mut script, "\n");
    let ghost head2 = script@;
    let ghost cv = crate::parameters::strs_view(at_start_commands@);
    let mut j: usize = 0;
    assert(cv.subrange(0, 0) =~= Seq::<Seq<char>>::empty());
    while j < at_start_commands.len()
        invariant
            j <= at_start_commands@.len(),
            cv == crate::parameters::strs_view(at_start_commands@),
            script@ == head2 + command_lines(cv.subrange(0, j as int)),
        decreases at_start_commands@.len() - j,
    {
        assert(cv.subrange(0, j + 1).drop_last() =~= cv.subrange(0, j as int));
        assert(cv[j as int] == at_start_commands@[j as int]@);
        if !is_blank(at_start_commands[j].as_str()) {
            push_str(&mut script, at_start_commands[j].as_str());
            push_str(&mut script, "\n");
        }
        assert(script@ =~= head2 + command_lines(cv.subrange(0, j + 1)));
        j = j + 1;
    }
    assert(cv.subrange(0, j as int) =~= cv);
    let ghost head3 = script@;
    match prompt {
        Some(p) => {
            if str_eq(shell_name, "bash") || str_eq(shell_name, "zsh") {
                push_str(&mut script, "\nexport PS1='");
                let e = escape(Escaping::PosixPrompt, p);
                push_str(&mut script, e.as_str());
                push_str(&mut script, "'\n");
            } else if is_cmd {
                push_str(&mut script, "\nPROMPT ");
                let e = escape(Escaping::CmdPrompt, p);
                push_str(&mut script, e.as_str());
                push_str(&mut script, "\n");
            } else if str_eq(shell_name, "powershell") {
                push_str(&mut script, "\nfunction prompt { Write-Host -NoNewline '");
                let e = escape(Escaping::PowerShellPrompt, p);
                push_str(&mut script, e.as_str());
                push_str(&mut script, "'; return ' ' }\n");
            }
        },
        None => {},
    }
    assert(script@ =~= head3 + prompt_lines(shell_name@, crate::parameters::opt_str_ref(prompt)));
    if is_cmd {
        push_str(&mut script, "\necho.\necho --- Type 'exit' to leave. ---\necho.\n");
    } else {
        push_str(&mut script, "\necho ''\necho '--- Type 'exit' to leave. ---'\necho ''\n");
    }
    Ok(script)
}

// =========================================================================
// === Shells
// =========================================================================

/// The default shell of a system.
pub open spec fn default_shell(os: TargetOs) -> Seq<char> {
    if os == TargetOs::Windows {
        "cmd"@
    } else {
        "bash"@
    }
}

/// The name of the default shell: `cmd` on Windows, `bash` elsewhere.
pub fn get_default_shell_name(os: TargetOs) -> (r: &'static str)
    ensures
        r@ == default_shell(os),
{
    if os == TargetOs::Windows {
        "cmd"
    } else {
        "bash"
    }
}

/// Whether optional arguments are present and equal to `expected`.
pub open spec fn args_are(args: Option<Vec<String>>, expected: Seq<Seq<char>>) -> bool {
    match args {
        Some(a) => crate::parameters::strs_view(a@) == expected,
        None => false,
    }
}

/// The default `shells.toml`: on Windows `cmd` (with `/K`) and, when found,
/// `powershell` (with `-NoExit -File`); everywhere `bash` (with `--rcfile`) when
/// found. `powershell_found` and `bash_found` tell whether the executables are
/// on the `PATH`.
pub fn generate_default_shells_config(os: TargetOs, powershell_found: bool, bash_found: bool) -> (r:
    ShellsConfig)
    ensures
        r.shells@.len() == (if os == TargetOs::Windows {
            1 + (if powershell_found {
                1int
            } else {
                0
            })
        } else {
            0
        }) + (if bash_found {
            1int
        } else {
            0
        }),
        os == TargetOs::Windows ==> r.shells@[0].0@ == "cmd"@ && r.shells@[0].1.path@ == "cmd.exe"@
            && args_are(r.shells@[0].1.interactive_args, seq!["/K"@]),
        os == TargetOs::Windows && powershell_found ==> r.shells@[1].0@ == "powershell"@
            && r.shells@[1].1.path@ == "powershell.exe"@
            && args_are(r.shells@[1].1.interactive_args, seq!["-NoExit"@, "-File"@]),
        bash_found ==> r.shells@.last().0@ == "bash"@ && r.shells@.last().1.path@ == (if os
            == TargetOs::Windows {
            "bash.exe"@
        } else {
            "bash"@
        }) && args_are(r.shells@.last().1.interactive_args, seq!["--rcfile"@]),
{
    let mut shells: Vec<(String, ShellConfig)> = Vec::new();
    if os == TargetOs::Windows {
        let args = vec![owned("/K")];
        assert(crate::parameters::strs_view(args@) =~= seq!["/K"@]);
        shells.push((owned("cmd"), ShellConfig { path: owned("cmd.exe"), interactive_args: Some(args) }));
        if powershell_found {
            let args = vec![owned("-NoExit"), owned("-File")];
            assert(crate::parameters::strs_view(args@) =~= seq!["-NoExit"@, "-File"@]);
            shells.push(
                (
                    owned("powershell"),
                    ShellConfig { path: owned("powershell.exe"), interactive_args: Some(args) },
                ),
            );
        }
    }
    if bash_found {
        let path = if os == TargetOs::Windows {
            owned("bash.exe")
        } else {
            owned("bash")
        };
        let args = vec![owned("--rcfile")];
        assert(crate::parameters::strs_view(args@) =~= seq!["--rcfile"@]);
        shells.push((owned("bash"), ShellConfig { path, interactive_args: Some(args) }));
    }
    ShellsConfig { shells }
}

/// The configuration of a shell by name, if defined.
pub fn find_shell<'a>(config: &'a ShellsConfig, name: &str) -> (r: Option<&'a ShellConfig>)
    ensures
        match r {
            Some(s) => exists|i: int| 0 <= i < config.shells@.len() && config.shells@[i].0@ == name@ && config.shells@[i].1 == *s,
            None => forall|i: int| 0 <= i < config.shells@.len() ==> config.shells@[i].0@ != name@,
        },
{
    let mut i: usize = 0;
    while i < config.shells.len()
        invariant
            i <= config.shells@.len(),
            forall|k: int| 0 <= k < i ==> config.shells@[k].0@ != name@,
        decreases config.shells@.len() - i,
    {
        if str_eq(config.shells[i].0.as_str(), name) {
            return Some(&config.shells[i].1);
        }
        i = i + 1;
    }
    None
}


// =========================================================================
// === Sessions
// =========================================================================

/// The line an `at_start` hook command gives in the initialization script: a
/// command as rendered, a printed line as an `echo` of its text in double
/// quotes.
pub open spec fn hook_line(is_print: bool, text: Seq<char>) -> Seq<char> {
    if is_print {
        "echo \""@ + escaped(Escaping::EchoText, text) + "\""@
    } else {
        text
    }
}

/// The line of an `at_start` hook command in the initialization script.
pub fn hook_command_line(is_print: bool, text: &str) -> (r: String)
    ensures
        r@ == hook_line(is_print, text@),
{
    if is_print {
        let mut line = owned("echo \"");
        let e = escape(Escaping::EchoText, text);
        push_str(&mut line, e.as_str());
        push_str(&mut line, "\"");
        line
    } else {
        owned(text)
    }
}

/// Why a session cannot start.
#[derive(Debug, Clone)]
pub enum ShellError {
    /// The shell is not defined in `shells.toml`.
    ShellNotDefined(String),
    /// A layer of the hierarchy failed to load (its message).
    Layer(String),
}

impl ShellError {
    /// The text of [`Self::message`].
    pub open spec fn message_text(&self) -> Seq<char> {
        match self {
            ShellError::ShellNotDefined(n) => "Requested shell '"@ + n@ + "' is not defined in shells.toml."@,
            ShellError::Layer(m) => m@,
        }
    }

    /// The message shown to the user.
    pub fn message(&self) -> (r: String)
        ensures
            r@ == self.message_text(),
    {
        match self {
            ShellError::ShellNotDefined(n) => {
                let mut m = owned("Requested shell '");
                push_str(&mut m, n.as_str());
                push_str(&mut m, "' is not defined in shells.toml.");
                m
            },
            ShellError::Layer(m) => m.clone(),
        }
    }
}

/// How to launch a session: the shell, its interactive arguments (the script
/// path follows them), the extension of the initialization script, and the
/// environment of the shell, in the order it is set.
#[derive(Debug)]
pub struct SessionPlan {
    pub shell_name: String,
    pub shell_path: String,
    pub interactive_args: Option<Vec<String>>,
    pub script_extension: String,
    pub env: Vec<(String, String)>,
}

/// The shell of a session: the configured one, or the system's default.
pub open spec fn session_shell(configured: Option<Seq<char>>, os: TargetOs) -> Seq<char> {
    match configured {
        Some(s) => s,
        None => default_shell(os),
    }
}

/// The variables that identify the project in its session.
pub open spec fn session_vars(config: ResolvedConfig) -> Seq<(Seq<char>, Seq<char>)> {
    seq![
        ("AXES_PROJECT_ROOT"@, config.project_root@),
        ("AXES_PROJECT_NAME"@, config.qualified_name@),
        ("AXES_PROJECT_UUID"@, crate::paths::uuid_text(config.uuid)),
    ]
}

/// Plans a session: the shell must be defined in `shells.toml`; Windows shells
/// (`cmd`, `powershell`) get a `.bat` script, the others a `.sh` one; the
/// environment is the project's identification followed by its merged `[env]`.
pub fn plan_session(config: &ResolvedConfig, configured_shell: Option<String>, shells: &ShellsConfig) -> (r:
    Result<SessionPlan, ShellError>)
    ensures
        ({
            let name = session_shell(crate::models::opt_str(configured_shell), config.os);
            if forall|i: int| 0 <= i < shells.shells@.len() ==> shells.shells@[i].0@ != name {
                (r matches Err(ShellError::ShellNotDefined(n)) && n@ == name)
            } else {
                match root_failure(config.layers_spec()) {
                    Some(m) => (r matches Err(ShellError::Layer(x)) && x@ == m),
                    None => r is Ok && r->Ok_0.shell_name@ == name && (exists|i: int|
                        0 <= i < shells.shells@.len() && shells.shells@[i].0@ == name
                            && shells.shells@[i].1.path@ == r->Ok_0.shell_path@
                            && crate::models::opt_str_seq(shells.shells@[i].1.interactive_args)
                            == crate::models::opt_str_seq(r->Ok_0.interactive_args))
                        && r->Ok_0.script_extension@ == (if name == "cmd"@ || name == "powershell"@ {
                        "bat"@
                    } else {
                        "sh"@
                    }) && pairs_view(r->Ok_0.env@) == session_vars(*config) + merged_env(
                        config.layers_spec(),
                    ),
                }
            }
        }),
{
    let name: String = match configured_shell {
        Some(s) => s,
        None => owned(get_default_shell_name(config.os)),
    };
    let shell = match find_shell(shells, name.as_str()) {
        Some(s) => s,
        None => {
            return Err(ShellError::ShellNotDefined(name));
        },
    };
    let ext = if str_eq(name.as_str(), "cmd") || str_eq(name.as_str(), "powershell") {
        owned("bat")
    } else {
        owned("sh")
    };
    let project_env = match config.get_env() {
        Ok(e) => e,
        Err(m) => {
            return Err(ShellError::Layer(m));
        },
    };
    let mut env: Vec<(String, String)> = Vec::new();
    env.push((owned("AXES_PROJECT_ROOT"), config.project_root.clone()));
    env.push((owned("AXES_PROJECT_NAME"), config.qualified_name.clone()));
    env.push((owned("AXES_PROJECT_UUID"), crate::paths::uuid_to_string(config.uuid)));
    let ghost head = pairs_view(env@);
    assert(head =~= session_vars(*config));
    let mut i: usize = 0;
    while i < project_env.len()
        invariant
            i <= project_env@.len(),
            pairs_view(env@) == head + pairs_view(project_env@).subrange(0, i as int),
        decreases project_env@.len() - i,
    {
        let ghost before = pairs_view(env@);
        env.push((project_env[i].0.clone(), project_env[i].1.clone()));
        assert(pairs_view(env@) =~= before.push(pairs_view(project_env@)[i as int]));
        assert(pairs_view(project_env@).subrange(0, i + 1) =~= pairs_view(project_env@).subrange(
            0,
            i as int,
        ).push(pairs_view(project_env@)[i as int]));
        i = i + 1;
    }
    assert(pairs_view(project_env@).subrange(0, i as int) =~= pairs_view(project_env@));
    let args: Option<Vec<String>> = match &shell.interactive_args {
        Some(a) => Some(a.clone()),
        None => None,
    };
    Ok(
        SessionPlan {
            shell_name: name,
            shell_path: shell.path.clone(),
            interactive_args: args,
            script_extension: ext,
            env,
        },
    )
}

} // verus!
