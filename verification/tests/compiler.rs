use axes::compiler::{compile_script, compile_var, parse_prefixes, tokenize_string};
use axes::models::{
    AnsiStyle, CommandAction, PlatformCommand, TemplateComponent, TomlCommand, TomlScript,
    TomlScriptExtended, TomlScriptPlatformDirect, TomlVar, TomlVarExtended, TomlVarValue,
};

#[test]
fn test_compile_simple_script_with_prefixes() {
    let script = TomlScript::Simple("@-echo 'hello'".to_string());
    let task = compile_script(script).unwrap();
    assert_eq!(task.commands.len(), 1);
    let exec = task.commands[0].default.as_ref().unwrap();
    assert!(exec.silent_mode);
    assert!(exec.ignore_errors);
    assert!(!exec.run_in_parallel);
    assert!(matches!(exec.action, CommandAction::Execute(_)));
}

#[test]
fn test_compile_sequence_script_mixed() {
    let script = TomlScript::Sequence(vec![
        TomlCommand::Simple("# Step 1".to_string()),
        TomlCommand::Platform(PlatformCommand {
            windows: Some("dir".to_string()),
            default: Some("ls -la".to_string()),
            ..Default::default()
        }),
    ]);
    let task = compile_script(script).unwrap();
    assert_eq!(task.commands.len(), 2);

    let first_cmd = task.commands[0].default.as_ref().unwrap();
    assert!(matches!(first_cmd.action, CommandAction::Print(_)));

    let second_cmd = &task.commands[1];
    assert!(second_cmd.windows.is_some());
    assert!(second_cmd.default.is_some());
    assert!(second_cmd.linux.is_none());
}

#[test]
fn test_compile_extended_script_with_run_sequence() {
    let script = TomlScript::Extended(TomlScriptExtended {
        desc: Some("A complex script".to_string()),
        run: Box::new(TomlScript::Sequence(vec![
            TomlCommand::Simple("cmd1".to_string()),
            TomlCommand::Simple("cmd2".to_string()),
        ])),
    });
    let task = compile_script(script).unwrap();
    assert_eq!(task.desc.as_deref(), Some("A complex script"));
    assert_eq!(task.commands.len(), 2);
}

#[test]
fn test_compile_platform_direct_script() {
    let script = TomlScript::PlatformDirect(TomlScriptPlatformDirect {
        desc: Some("Platform direct".to_string()),
        platform: PlatformCommand {
            windows: Some("echo 'win'".to_string()),
            ..Default::default()
        },
    });
    let task = compile_script(script).unwrap();
    assert_eq!(task.desc.as_deref(), Some("Platform direct"));
    assert_eq!(task.commands.len(), 1);
    assert!(task.commands[0].windows.is_some());
    assert!(task.commands[0].default.is_none());
}

#[test]
fn test_compile_simple_var_no_prefixes() {
    let var = TomlVar::Simple("@-my-value".to_string());
    let cached_var = compile_var(var).unwrap();
    let exec = cached_var.value.default.as_ref().unwrap();

    assert!(!exec.silent_mode);
    assert!(!exec.ignore_errors);

    if let CommandAction::Execute(tpl) = &exec.action {
        if let TemplateComponent::Literal(s) = &tpl[0] {
            assert_eq!(s, "@-my-value");
        } else {
            panic!("Expected literal");
        }
    } else {
        panic!("Expected Execute action");
    }
}

#[test]
fn test_compile_extended_var_platform() {
    let var = TomlVar::Extended(TomlVarExtended {
        desc: Some("Path to binary".to_string()),
        value: TomlVarValue::Platform(PlatformCommand {
            windows: Some("bin\\app.exe".to_string()),
            default: Some("bin/app".to_string()),
            ..Default::default()
        }),
    });
    let cached_var = compile_var(var).unwrap();
    assert_eq!(cached_var.desc.as_deref(), Some("Path to binary"));
    assert!(cached_var.value.windows.is_some());
    assert!(cached_var.value.default.is_some());
}

#[test]
fn test_tokenizer_handles_escaped_tokens_and_merges_literals() {
    let text = r"echo '\<hello> world <name>'";
    let components = tokenize_string(text).unwrap();
    assert_eq!(components.len(), 3);
    assert!(
        matches!(&components[0], TemplateComponent::Literal(s) if s == "echo '<hello> world ")
    );
    assert!(matches!(&components[1], TemplateComponent::Name));
    assert!(matches!(&components[2], TemplateComponent::Literal(s) if s == "'"));
}

#[test]
fn test_tokenizer_with_complex_tokens() {
    let text = r"<run('git status')> <params::0(required)> <#red>ERROR<#reset>";
    let components = tokenize_string(text).unwrap();
    assert_eq!(components.len(), 7);
    assert!(matches!(&components[0], TemplateComponent::Run(_)));
    assert!(matches!(&components[1], TemplateComponent::Literal(s) if s == " "));
    assert!(matches!(&components[2], TemplateComponent::Parameter(_)));
    assert!(matches!(&components[3], TemplateComponent::Literal(s) if s == " "));
    assert!(matches!(&components[4], TemplateComponent::Color(c) if *c == AnsiStyle::Red));
    assert!(matches!(&components[5], TemplateComponent::Literal(s) if s == "ERROR"));
    assert!(matches!(&components[6], TemplateComponent::Color(c) if *c == AnsiStyle::Reset));
}

#[test]
fn test_empty_script_compiles_to_empty_task() {
    let script = TomlScript::Simple("".to_string());
    let task = compile_script(script).unwrap();
    assert_eq!(task.commands.len(), 1);
    let exec = task.commands[0].default.as_ref().unwrap();
    if let CommandAction::Execute(tpl) = &exec.action {
        assert!(tpl.is_empty());
    } else {
        panic!("Expected Execute action");
    }
}

// --- Prefixes ---

#[test]
fn prefixes_echo_line_strips_one_space() {
    let (p, text) = parse_prefixes("#  hello");
    assert!(p.is_echo);
    assert!(!p.silent_mode && !p.ignore_errors && !p.run_in_parallel);
    assert_eq!(text, " hello");
}

#[test]
fn prefixes_pipe_terminates_prefixes() {
    let (p, text) = parse_prefixes(">@| -rf x");
    assert!(p.run_in_parallel);
    assert!(p.silent_mode);
    assert!(!p.ignore_errors);
    assert_eq!(text, "-rf x");
}

#[test]
fn prefixes_only_prefixes_leave_no_command() {
    let (p, text) = parse_prefixes("@- ");
    assert!(p.silent_mode && p.ignore_errors);
    assert_eq!(text, "");
}

#[test]
fn prefixes_whitespace_before_command_is_skipped() {
    let (p, text) = parse_prefixes("  - cargo build");
    assert!(p.ignore_errors);
    assert_eq!(text, "cargo build");
}

#[test]
fn prefixes_followed_by_non_ascii_whitespace_leave_no_command() {
    let (p, text) = parse_prefixes("@-\u{a0}");
    assert!(p.silent_mode && p.ignore_errors);
    assert_eq!(text, "");
    let (p, text) = parse_prefixes("-\u{a0}ls");
    assert!(p.ignore_errors);
    assert_eq!(text, "ls");
}

// --- Tokenizer edge cases ---

#[test]
fn tokenizer_literals_never_adjacent_or_empty() {
    let components = tokenize_string("a\\<b>c<name>d<> e<").unwrap();
    for (i, c) in components.iter().enumerate() {
        if let TemplateComponent::Literal(s) = c {
            assert!(!s.is_empty());
            if i + 1 < components.len() {
                assert!(!matches!(components[i + 1], TemplateComponent::Literal(_)));
            }
        }
    }
    assert_eq!(components.len(), 3);
    assert!(matches!(&components[0], TemplateComponent::Literal(s) if s == "a<b>c"));
    assert!(matches!(&components[1], TemplateComponent::Name));
    assert!(matches!(&components[2], TemplateComponent::Literal(s) if s == "d<> e<"));
}

#[test]
fn tokenizer_unknown_namespace_is_an_error() {
    let err = tokenize_string("echo <nope>").unwrap_err();
    assert_eq!(err.token, "<nope>");
    assert!(err.message().contains("Unknown token namespace"));
}

#[test]
fn tokenizer_invalid_run_syntax_is_an_error() {
    let err = tokenize_string("<run(git status)>").unwrap_err();
    assert!(err.message().contains("Invalid run syntax"));
}

#[test]
fn tokenizer_unknown_style_is_an_error() {
    let err = tokenize_string("<#purple>").unwrap_err();
    assert!(err.message().contains("Unknown style token: '<#purple>'"));
}

#[test]
fn tokenizer_references_and_metadata() {
    let c = tokenize_string("<scripts::build> <vars::x> < path > <uuid><version><params><params(literal)>").unwrap();
    assert!(matches!(&c[0], TemplateComponent::Script(s) if s == "build"));
    assert!(matches!(&c[2], TemplateComponent::Var(s) if s == "x"));
    assert!(matches!(&c[4], TemplateComponent::Path));
    assert!(matches!(&c[6], TemplateComponent::Uuid));
    assert!(matches!(&c[7], TemplateComponent::Version));
    assert!(matches!(&c[8], TemplateComponent::GenericParams { literal: false }));
    assert!(matches!(&c[9], TemplateComponent::GenericParams { literal: true }));
}

#[test]
fn tokenizer_style_names_are_case_insensitive() {
    let c = tokenize_string("<#Bright_Green><#GREY>").unwrap();
    assert!(matches!(&c[0], TemplateComponent::Color(AnsiStyle::BrightGreen)));
    assert!(matches!(&c[1], TemplateComponent::Color(AnsiStyle::BrightBlack)));
}

#[test]
fn run_token_keeps_inner_command() {
    let c = tokenize_string("<run('git rev-parse HEAD')>").unwrap();
    match &c[0] {
        TemplateComponent::Run(axes::models::RunSpec::Literal(cmd)) => {
            assert_eq!(cmd, "git rev-parse HEAD")
        }
        _ => panic!("expected a run token"),
    }
}

#[test]
fn text_without_tokens_is_one_literal_or_nothing() {
    assert!(tokenize_string("").unwrap().is_empty());
    let c = tokenize_string("echo a\\b > out.txt").unwrap();
    assert_eq!(c.len(), 1);
    assert!(matches!(&c[0], TemplateComponent::Literal(s) if s == "echo a\\b > out.txt"));
}

#[test]
fn prefix_heads_set_the_flags_they_hold() {
    let (p, text) = parse_prefixes(" @ > | -x");
    assert!(p.silent_mode && p.run_in_parallel && !p.ignore_errors && !p.is_echo);
    assert_eq!(text, "-x");
    let (p, text) = parse_prefixes("# -@ note");
    assert!(p.is_echo && !p.ignore_errors && !p.silent_mode && !p.run_in_parallel);
    assert_eq!(text, "-@ note");
}
