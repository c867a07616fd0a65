//! The universal grammar of the command line: which command runs, in which
//! context, with which arguments.
//!
//! The rules, in order of precedence:
//! 1. `axes <script_path> -- [params...]` runs a script (escape hatch).
//! 2. `axes <context> <action> [args...]` runs an action in a context.
//! 3. `axes <action> [args...]` runs an action in the global context.
//! 4. `axes <script_path> [params...]` runs a script.

use vstd::prelude::*;
use crate::parameters::strs_view;
use crate::text::{chars_of, str_eq, string_of};

verus! {

/// The commands of the application.
#[derive(Debug, Clone, Copy, PartialEq, Eq, Structural)]
pub enum CommandName {
    Alias,
    Cache,
    Delete,
    Info,
    Init,
    Link,
    Open,
    Register,
    Rename,
    Run,
    Start,
    Tree,
    Unregister,
    Repair,
}

/// The command called `s`, by its name or one of its aliases.
pub open spec fn command_named(s: Seq<char>) -> Option<CommandName> {
    if s == "alias"@ {
        Some(CommandName::Alias)
    } else if s == "cache"@ {
        Some(CommandName::Cache)
    } else if s == "delete"@ || s == "del"@ {
        Some(CommandName::Delete)
    } else if s == "info"@ {
        Some(CommandName::Info)
    } else if s == "init"@ || s == "new"@ {
        Some(CommandName::Init)
    } else if s == "link"@ {
        Some(CommandName::Link)
    } else if s == "open"@ {
        Some(CommandName::Open)
    } else if s == "register"@ || s == "reg"@ {
        Some(CommandName::Register)
    } else if s == "rename"@ {
        Some(CommandName::Rename)
    } else if s == "run"@ {
        Some(CommandName::Run)
    } else if s == "start"@ {
        Some(CommandName::Start)
    } else if s == "tree"@ || s == "ls"@ {
        Some(CommandName::Tree)
    } else if s == "unregister"@ || s == "unreg"@ {
        Some(CommandName::Unregister)
    } else if s == "repair"@ || s == "rep"@ {
        Some(CommandName::Repair)
    } else {
        None
    }
}

/// Finds a command by its name or alias.
pub fn find_command(name: &str) -> (r: Option<CommandName>)
    ensures
        r == command_named(name@),
{
    if str_eq(name, "alias") {
        Some(CommandName::Alias)
    } else if str_eq(name, "cache") {
        Some(CommandName::Cache)
    } else if str_eq(name, "delete") || str_eq(name, "del") {
        Some(CommandName::Delete)
    } else if str_eq(name, "info") {
        Some(CommandName::Info)
    } else if str_eq(name, "init") || str_eq(name, "new") {
        Some(CommandName::Init)
    } else if str_eq(name, "link") {
        Some(CommandName::Link)
    } else if str_eq(name, "open") {
        Some(CommandName::Open)
    } else if str_eq(name, "register") || str_eq(name, "reg") {
        Some(CommandName::Register)
    } else if str_eq(name, "rename") {
        Some(CommandName::Rename)
    } else if str_eq(name, "run") {
        Some(CommandName::Run)
    } else if str_eq(name, "start") {
        Some(CommandName::Start)
    } else if str_eq(name, "tree") || str_eq(name, "ls") {
        Some(CommandName::Tree)
    } else if str_eq(name, "unregister") || str_eq(name, "unreg") {
        Some(CommandName::Unregister)
    } else if str_eq(name, "repair") || str_eq(name, "rep") {
        Some(CommandName::Repair)
    } else {
        None
    }
}

/// The position of the last `c` in `s`, or -1.
pub open spec fn last_index_of(s: Seq<char>, c: char) -> int
    decreases s.len(),
{
    if s.len() == 0 {
        -1
    } else if s.last() == c {
        s.len() - 1
    } else {
        last_index_of(s.drop_last(), c)
    }
}

/// The last occurrence of `c` lies in `s`, and no `c` follows it.
pub proof fn lemma_last_index_of(s: Seq<char>, c: char)
    ensures
        -1 <= last_index_of(s, c) < s.len(),
        last_index_of(s, c) >= 0 ==> s[last_index_of(s, c)] == c,
        forall|k: int| last_index_of(s, c) < k < s.len() ==> s[k] != c,
    decreases s.len(),
{
    if s.len() > 0 && s.last() != c {
        lemma_last_index_of(s.drop_last(), c);
        assert forall|k: int| last_index_of(s, c) < k < s.len() implies s[k] != c by {
            if k < s.len() - 1 {
                assert(s.drop_last()[k] == s[k]);
            }
        }
    }
}

/// The position of the last `c` in `v[..to]`.
pub fn last_index(v: &Vec<char>, to: usize, c: char) -> (r: Option<usize>)
    requires
        to <= v@.len(),
    ensures
        match r {
            Some(i) => i == last_index_of(v@.subrange(0, to as int), c),
            None => last_index_of(v@.subrange(0, to as int), c) == -1,
        },
{
    let mut i = to;
    while i > 0
        invariant
            i <= to <= v@.len(),
            last_index_of(v@.subrange(0, to as int), c) == last_index_of(
                v@.subrange(0, i as int),
                c,
            ),
        decreases i,
    {
        if v[i - 1] == c {
            return Some(i - 1);
        }
        assert(v@.subrange(0, i as int).drop_last() =~= v@.subrange(0, i - 1));
        i = i - 1;
    }
    None
}

/// A script path split at its last `/` into context and script name.
pub open spec fn script_path(s: Seq<char>) -> (Option<Seq<char>>, Seq<char>) {
    let l = last_index_of(s, '/');
    if l < 0 {
        (None, s)
    } else {
        (Some(s.subrange(0, l)), s.subrange(l + 1, s.len() as int))
    }
}

/// Splits a script path such as `my-app/api/build` at its last `/` into the
/// context (`my-app/api`) and the script name (`build`); without `/`, the whole
/// path is the script name.
pub fn parse_script_path(full_path: &str) -> (r: (Option<String>, String))
    ensures
        (match r.0 {
            Some(c) => Some(c@),
            None => None,
        }, r.1@) == script_path(full_path@),
{
    let v = chars_of(full_path);
    proof {
        lemma_last_index_of(v@, '/');
    }
    assert(v@.subrange(0, v@.len() as int) =~= v@);
    match last_index(&v, v.len(), '/') {
        Some(l) => (Some(string_of(&v, 0, l)), string_of(&v, l + 1, v.len())),
        None => (None, string_of(&v, 0, v.len())),
    }
}

/// What the command line asks for.
#[derive(Debug)]
pub enum Dispatch {
    /// No arguments: the welcome message.
    Welcome,
    /// A command, with its context and its own arguments.
    Invoke { command: CommandName, context: Option<String>, args: Vec<String> },
}

pub ghost enum DispatchView {
    Welcome,
    Invoke { command: CommandName, context: Option<Seq<char>>, args: Seq<Seq<char>> },
}

impl View for Dispatch {
    type V = DispatchView;

    open spec fn view(&self) -> DispatchView {
        match self {
            Dispatch::Welcome => DispatchView::Welcome,
            Dispatch::Invoke { command, context, args } => DispatchView::Invoke {
                command: *command,
                context: match context {
                    Some(c) => Some(c@),
                    None => None,
                },
                args: strs_view(args@),
            },
        }
    }
}

/// The `run` command on the script path `p`, followed by `rest`.
pub open spec fn run_script(p: Seq<char>, rest: Seq<Seq<char>>) -> DispatchView {
    DispatchView::Invoke {
        command: CommandName::Run,
        context: script_path(p).0,
        args: seq![script_path(p).1] + rest,
    }
}

/// The grammar, applied to the whole argument list.
pub open spec fn dispatch_of(args: Seq<Seq<char>>) -> DispatchView {
    if args.len() == 0 {
        DispatchView::Welcome
    } else if args.len() >= 2 && args[1] == "--"@ {
        run_script(args[0], args.skip(2))
    } else if args.len() >= 2 && command_named(args[1]) is Some {
        DispatchView::Invoke {
            command: command_named(args[1])->Some_0,
            context: Some(args[0]),
            args: args.skip(2),
        }
    } else if command_named(args[0]) is Some {
        DispatchView::Invoke {
            command: command_named(args[0])->Some_0,
            context: None,
            args: args.skip(1),
        }
    } else {
        run_script(args[0], args.skip(1))
    }
}

/// The arguments from position `from` on.
fn tail(all_args: &[String], from: usize, acc: &mut Vec<String>)
    requires
        from <= all_args@.len(),
    ensures
        strs_view(final(acc)@) == strs_view(old(acc)@) + strs_view(all_args@).skip(from as int),
{
    let ghost start = strs_view(acc@);
    let mut i = from;
    while i < all_args.len()
        invariant
            from <= i <= all_args@.len(),
            strs_view(acc@) == start + strs_view(all_args@).subrange(from as int, i as int),
        decreases all_args@.len() - i,
    {
        let ghost before = acc@;
        acc.push(all_args[i].clone());
        assert(strs_view(acc@) =~= strs_view(before).push(all_args@[i as int]@));
        assert(strs_view(acc@) =~= start + strs_view(all_args@).subrange(from as int, i + 1));
        i = i + 1;
    }
    assert(strs_view(all_args@).skip(from as int) =~= strs_view(all_args@).subrange(
        from as int,
        all_args@.len() as int,
    ));
}

/// Applies the grammar to the arguments of the command line.
pub fn dispatch(all_args: &[String]) -> (r: Dispatch)
    ensures
        r@ == dispatch_of(strs_view(all_args@)),
{
    let ghost a = strs_view(all_args@);
    if all_args.len() == 0 {
        return Dispatch::Welcome;
    }
    assert(a[0] == all_args@[0]@);
    let second_is_dashes = all_args.len() >= 2 && str_eq(all_args[1].as_str(), "--");
    let second_command = if all_args.len() >= 2 && !second_is_dashes {
        find_command(all_args[1].as_str())
    } else {
        None
    };
    let first_command = find_command(all_args[0].as_str());
    if second_is_dashes || (second_command.is_none() && first_command.is_none()) {
        let skip: usize = if second_is_dashes {
            2
        } else {
            1
        };
        let (context, script) = parse_script_path(all_args[0].as_str());
        let mut args: Vec<String> = Vec::new();
        args.push(script);
        tail(all_args, skip, &mut args);
        assert(strs_view(args@) =~= seq![script_path(a[0]).1] + a.skip(skip as int));
        Dispatch::Invoke { command: CommandName::Run, context, args }
    } else if let Some(command) = second_command {
        assert(a[1] == all_args@[1]@);
        let mut args: Vec<String> = Vec::new();
        tail(all_args, 2, &mut args);
        assert(strs_view(args@) =~= a.skip(2));
        Dispatch::Invoke { command, context: Some(all_args[0].clone()), args }
    } else {
        let mut args: Vec<String> = Vec::new();
        tail(all_args, 1, &mut args);
        assert(strs_view(args@) =~= a.skip(1));
        Dispatch::Invoke { command: first_command.unwrap(), context: None, args }
    }
}

} // verus!
