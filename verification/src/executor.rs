//! The decisions around running a system command: how a command line is
//! split into a program and its arguments, and what the exit of the process
//! means for the caller.

use vstd::prelude::*;
use crate::parameters::strs_view;
use crate::text::{owned, push_str, trim, trim_str};

verus! {

/// Why running a command failed.
#[derive(Debug, Clone)]
pub enum ExecutionError {
    /// The command line is not valid shell syntax (unbalanced quotes).
    CommandParse(String),
    /// The process could not be started or waited for (the command, the error).
    CommandFailed(String, String),
    /// The process exited with a failure status.
    NonZeroExitStatus(String),
    /// The process was interrupted by a signal.
    Interrupted { command: String },
    /// The captured output is not UTF-8.
    InvalidUtf8Output { command: String },
}

pub ghost enum ExecutionErrorView {
    CommandParse(Seq<char>),
    CommandFailed(Seq<char>, Seq<char>),
    NonZeroExitStatus(Seq<char>),
    Interrupted { command: Seq<char> },
    InvalidUtf8Output { command: Seq<char> },
}

impl View for ExecutionError {
    type V = ExecutionErrorView;

    open spec fn view(&self) -> ExecutionErrorView {
        match self {
            ExecutionError::CommandParse(c) => ExecutionErrorView::CommandParse(c@),
            ExecutionError::CommandFailed(c, e) => ExecutionErrorView::CommandFailed(c@, e@),
            ExecutionError::NonZeroExitStatus(c) => ExecutionErrorView::NonZeroExitStatus(c@),
            ExecutionError::Interrupted { command } => ExecutionErrorView::Interrupted {
                command: command@,
            },
            ExecutionError::InvalidUtf8Output { command } => ExecutionErrorView::InvalidUtf8Output {
                command: command@,
            },
        }
    }
}

impl ExecutionError {
    /// The text of [`Self::message`].
    pub open spec fn message_text(&self) -> Seq<char> {
        match self {
            ExecutionError::CommandParse(c) => "Command could not be parsed: "@ + c@,
            ExecutionError::CommandFailed(c, e) => "Command '"@ + c@ + "' could not be executed: "@ + e@,
            ExecutionError::NonZeroExitStatus(c) => "Command '"@ + c@ + "' exited with a non-zero error code."@,
            ExecutionError::Interrupted { command } => "Command '"@ + command@
                + "' was interrupted by a signal (e.g., Ctrl+C)."@,
            ExecutionError::InvalidUtf8Output { command } => "Command '"@ + command@
                + "' produced output that was not valid UTF-8"@,
        }
    }

    /// The message shown to the user.
    pub fn message(&self) -> (r: String)
        ensures
            r@ == self.message_text(),
    {
        match self {
            ExecutionError::CommandParse(c) => {
                let mut m = owned("Command could not be parsed: ");
                push_str(&mut m, c.as_str());
                m
            },
            ExecutionError::CommandFailed(c, e) => {
                let mut m = owned("Command '");
                push_str(&mut m, c.as_str());
                push_str(&mut m, "' could not be executed: ");
                push_str(&mut m, e.as_str());
                m
            },
            ExecutionError::NonZeroExitStatus(c) => {
                let mut m = owned("Command '");
                push_str(&mut m, c.as_str());
                push_str(&mut m, "' exited with a non-zero error code.");
                m
            },
            ExecutionError::Interrupted { command } => {
                let mut m = owned("Command '");
                push_str(&mut m, command.as_str());
                push_str(&mut m, "' was interrupted by a signal (e.g., Ctrl+C).");
                m
            },
            ExecutionError::InvalidUtf8Output { command } => {
                let mut m = owned("Command '");
                push_str(&mut m, command.as_str());
                push_str(&mut m, "' produced output that was not valid UTF-8");
                m
            },
        }
    }
}

/// What `shlex::split` returns for a command line: its words, or `None` for
/// invalid syntax.
pub uninterp spec fn shell_words(line: Seq<char>) -> Option<Seq<Seq<char>>>;

/// Splits a command line into words with `shlex::split`.
///
/// Trusted: the result is the crate's POSIX-shell-like splitting of the
/// argument, named by [`shell_words`]; nothing more of it is stated.
#[verifier::external_body]
fn shlex_split(line: &str) -> (r: Option<Vec<String>>)
    ensures
        match r {
            Some(w) => shell_words(line@) == Some(strs_view(w@)),
            None => shell_words(line@) is None,
        },
{
    shlex::split(line)
}

/// A command ready to run: the trimmed command line, the program and its
/// arguments.
#[derive(Debug)]
pub struct CommandLine {
    pub trimmed: String,
    pub program: String,
    pub args: Vec<String>,
}

/// Prepares a command line: nothing to run when it is blank or has no words;
/// an error when it is not valid shell syntax; otherwise its first word is the
/// program and the others its arguments.
pub fn prepare_command(command: &str) -> (r: Result<Option<CommandLine>, ExecutionError>)
    ensures
        ({
            let t = trim(command@);
            if t.len() == 0 {
                r matches Ok(None)
            } else {
                match shell_words(t) {
                    None => r is Err && r->Err_0@ == ExecutionErrorView::CommandParse(t),
                    Some(w) => if w.len() == 0 {
                        r matches Ok(None)
                    } else {
                        r matches Ok(Some(c)) && c.trimmed@ == t && c.program@ == w[0]
                            && strs_view(c.args@) == w.drop_first()
                    },
                }
            }
        }),
{
    let trimmed = trim_str(command);
    if trimmed.unicode_len() == 0 {
        return Ok(None);
    }
    let words = match shlex_split(trimmed.as_str()) {
        Some(w) => w,
        None => {
            return Err(ExecutionError::CommandParse(trimmed));
        },
    };
    if words.len() == 0 {
        return Ok(None);
    }
    let ghost wv = strs_view(words@);
    let program = words[0].clone();
    let mut args: Vec<String> = Vec::new();
    let mut i: usize = 1;
    while i < words.len()
        invariant
            1 <= i <= words@.len(),
            wv == strs_view(words@),
            strs_view(args@) == wv.subrange(1, i as int),
        decreases words@.len() - i,
    {
        let ghost before = strs_view(args@);
        args.push(words[i].clone());
        assert(strs_view(args@) =~= before.push(wv[i as int]));
        assert(wv.subrange(1, i + 1) =~= wv.subrange(1, i as int).push(wv[i as int]));
        i = i + 1;
    }
    assert(wv.drop_first() =~= wv.subrange(1, i as int));
    Ok(Some(CommandLine { trimmed, program, args }))
}

/// What the exit of a foreground command means: a failure status is an error
/// unless errors are ignored.
pub fn exit_outcome(trimmed: &str, success: bool, ignore_errors: bool) -> (r: Result<(), ExecutionError>)
    ensures
        r is Err <==> (!success && !ignore_errors),
        r is Err ==> r->Err_0@ == ExecutionErrorView::NonZeroExitStatus(trimmed@),
{
    if !success && !ignore_errors {
        Err(ExecutionError::NonZeroExitStatus(owned(trimmed)))
    } else {
        Ok(())
    }
}

/// What `String::from_utf8` gives for some bytes: their text, or `None` when
/// they are not UTF-8.
pub uninterp spec fn utf8_text(bytes: Seq<u8>) -> Option<Seq<char>>;

/// Decodes bytes as UTF-8 with `String::from_utf8`.
///
/// Trusted: the result is std's decoding of the argument, named by
/// [`utf8_text`].
#[verifier::external_body]
fn decode_utf8(bytes: Vec<u8>) -> (r: Option<String>)
    ensures
        match r {
            Some(s) => utf8_text(bytes@) == Some(s@),
            None => utf8_text(bytes@) is None,
        },
{
    String::from_utf8(bytes).ok()
}

/// The captured output of a command: a failure status is an error, and so is
/// output that is not UTF-8.
pub fn captured_output(trimmed: &str, success: bool, stdout: Vec<u8>) -> (r: Result<
    String,
    ExecutionError,
>)
    ensures
        !success ==> r is Err && r->Err_0@ == ExecutionErrorView::NonZeroExitStatus(trimmed@),
        success ==> match utf8_text(stdout@) {
            Some(t) => r is Ok && r->Ok_0@ == t,
            None => r is Err && r->Err_0@ == ExecutionErrorView::InvalidUtf8Output {
                command: trimmed@,
            },
        },
{
    if !success {
        return Err(ExecutionError::NonZeroExitStatus(owned(trimmed)));
    }
    match decode_utf8(stdout) {
        Some(s) => Ok(s),
        None => Err(ExecutionError::InvalidUtf8Output { command: owned(trimmed) }),
    }
}

} // verus!
