use axes::compiler::{compile_script, tokenize_string};
use axes::executor::{captured_output, exit_outcome, prepare_command, ExecutionError};
use axes::models::{
    CachedProjectConfig, ShellConfig, ShellsConfig, TargetOs, TomlCommand, TomlScript,
};
use axes::parameters::ArgResolver;
use axes::resolved::{Layer, ResolvedConfig};
use axes::shell::{
    build_init_script, escape_for_cmd_set, generate_default_shells_config, get_default_shell_name,
    hook_command_line, plan_session, ShellError,
};
use axes::task_executor::{
    assemble_final_command, AssembleError, Assembly, MAX_RECURSION_DEPTH, RenderedAction, TaskRunner, TaskStep,
};

fn config() -> ResolvedConfig {
    let mut layer = CachedProjectConfig::default();
    layer.version = Some("1.2.3".to_string());
    layer.env = vec![("MODE".to_string(), "dev's".to_string())];
    ResolvedConfig::new(
        1,
        "app/api".to_string(),
        "/w/api".to_string(),
        vec![1],
        vec![Layer::Loaded(layer)],
        TargetOs::Linux,
    )
}

fn resolver(defs_from: &str, params: &[&str]) -> ArgResolver {
    let task = std::sync::Arc::new(compile_script(TomlScript::Simple(defs_from.to_string())).unwrap());
    let params: Vec<String> = params.iter().map(|s| s.to_string()).collect();
    axes::handlers::build_resolver_for_task(&task, &params).unwrap()
}

#[test]
fn commands_are_split_into_program_and_arguments() {
    let c = prepare_command("  ls -la 'my dir' ").unwrap().unwrap();
    assert_eq!(c.trimmed, "ls -la 'my dir'");
    assert_eq!(c.program, "ls");
    assert_eq!(c.args, vec!["-la".to_string(), "my dir".to_string()]);
    assert!(prepare_command("   ").unwrap().is_none());
    assert!(matches!(prepare_command("echo 'open"), Err(ExecutionError::CommandParse(ref c)) if c == "echo 'open"));
}

#[test]
fn exit_statuses() {
    assert!(exit_outcome("x", true, false).is_ok());
    assert!(exit_outcome("x", false, true).is_ok());
    let e = exit_outcome("x", false, false).unwrap_err();
    assert_eq!(e.message(), "Command 'x' exited with a non-zero error code.");
    assert_eq!(captured_output("x", true, b"out\n".to_vec()).unwrap(), "out\n");
    assert!(matches!(captured_output("x", true, vec![0xff, 0xfe]), Err(ExecutionError::InvalidUtf8Output { .. })));
    assert!(matches!(captured_output("x", false, vec![]), Err(ExecutionError::NonZeroExitStatus(_))));
}

#[test]
fn templates_render_with_parameters_and_metadata() {
    let res = resolver("echo <params::0> <params(literal)>", &["first", "a b", "c"]);
    let t = tokenize_string("<name>@<version> <params::0> <params(literal)> <uuid> <path>").unwrap();
    match assemble_final_command(&t, &config(), &res, &[], 0).unwrap() {
        Assembly::Done(s) => assert_eq!(
            s,
            "app/api@1.2.3 first \"a b\" \"c\" 00000000-0000-0000-0000-000000000001 /w/api"
        ),
        other => panic!("unexpected {:?}", other),
    }
}

#[test]
fn run_tokens_ask_for_their_output_in_order() {
    let res = resolver("echo", &[]);
    let t = tokenize_string("x=<run('git rev-parse HEAD')> y=<run('date')>").unwrap();
    let first = assemble_final_command(&t, &config(), &res, &[], 0).unwrap();
    match first {
        Assembly::NeedRun(inner) => {
            let inner_text = assemble_final_command(&inner, &config(), &res, &[], 0).unwrap();
            assert!(matches!(inner_text, Assembly::Done(ref s) if s == "git rev-parse HEAD"));
        }
        other => panic!("unexpected {:?}", other),
    }
    let second = assemble_final_command(&t, &config(), &res, &["abc\n".to_string()], 0).unwrap();
    assert!(matches!(second, Assembly::NeedRun(_)));
    let done = assemble_final_command(&t, &config(), &res, &[" abc\n".to_string(), "today".to_string()], 0).unwrap();
    assert!(matches!(done, Assembly::Done(ref s) if s == "x=abc y=today"));
}

#[test]
fn run_commands_nest_at_most_the_recursion_limit() {
    let res = resolver("echo", &[]);
    let t = tokenize_string("x=<run('date')>").unwrap();
    assert!(matches!(
        assemble_final_command(&t, &config(), &res, &[], MAX_RECURSION_DEPTH).unwrap(),
        Assembly::NeedRun(_)
    ));
    let e = assemble_final_command(&t, &config(), &res, &[], MAX_RECURSION_DEPTH + 1).unwrap_err();
    assert!(matches!(e, AssembleError::TooDeep { depth: 33 }));
    assert!(e.message().contains("recursion depth"));
}

#[test]
fn unflattened_references_are_errors() {
    let res = resolver("echo", &[]);
    let t = tokenize_string("a <scripts::b>").unwrap();
    let e = assemble_final_command(&t, &config(), &res, &[], 0).unwrap_err();
    assert!(matches!(e, AssembleError::Unflattened { is_var: false, ref name } if name == "b"));
    assert!(e.message().contains("'<scripts::b>'"));
}

#[test]
fn tasks_run_parallel_commands_in_batches() {
    let task = compile_script(TomlScript::Sequence(vec![
        TomlCommand::Simple(">one".to_string()),
        TomlCommand::Simple(">two".to_string()),
        TomlCommand::Simple("three".to_string()),
        TomlCommand::Simple("# note".to_string()),
    ]))
    .unwrap();
    let c = config();
    let special = c.specialize_task_for_platform(&task);
    let mut runner = TaskRunner::new();
    let mut log: Vec<String> = Vec::new();
    loop {
        match runner.next_step(&special) {
            TaskStep::Done => break,
            TaskStep::RunBatch(b) => {
                log.push(format!("batch:{}", b.iter().map(|e| e.command.as_str()).collect::<Vec<_>>().join("+")))
            }
            TaskStep::Render(i) => {
                let line = match &special.commands[i].action {
                    axes::models::CommandAction::Execute(t) | axes::models::CommandAction::Print(t) => {
                        match assemble_final_command(t, &c, &resolver("echo", &[]), &[], 0).unwrap() {
                            Assembly::Done(s) => s,
                            Assembly::NeedRun(_) => unreachable!(),
                        }
                    }
                };
                match runner.rendered(&special, line) {
                    RenderedAction::RunNow { command, .. } => log.push(format!("run:{}", command)),
                    RenderedAction::Print(p) => log.push(format!("print:{}", p)),
                    RenderedAction::Batched | RenderedAction::Skip => {}
                }
            }
        }
    }
    assert_eq!(log, vec!["batch:one+two", "run:three", "print:note"]);
}

#[test]
fn sessions_are_planned_from_shells_toml() {
    let shells = generate_default_shells_config(TargetOs::Linux, false, true);
    assert_eq!(shells.shells.len(), 1);
    assert_eq!(shells.shells[0].0, "bash");
    let plan = plan_session(&config(), None, &shells).unwrap();
    assert_eq!(plan.shell_path, "bash");
    assert_eq!(plan.script_extension, "sh");
    assert_eq!(plan.interactive_args, Some(vec!["--rcfile".to_string()]));
    assert_eq!(plan.env[0], ("AXES_PROJECT_ROOT".to_string(), "/w/api".to_string()));
    assert_eq!(plan.env[2].1, "00000000-0000-0000-0000-000000000001");
    assert_eq!(plan.env[3], ("MODE".to_string(), "dev's".to_string()));
    let r = plan_session(&config(), Some("fish".to_string()), &shells);
    assert!(matches!(r, Err(ShellError::ShellNotDefined(ref n)) if n == "fish"));
    let cmd = ShellsConfig { shells: vec![("cmd".to_string(), ShellConfig { path: "cmd.exe".to_string(), interactive_args: None })] };
    assert_eq!(plan_session(&config(), Some("cmd".to_string()), &cmd).unwrap().script_extension, "bat");
    assert_eq!(get_default_shell_name(TargetOs::Windows), "cmd");
    let win = generate_default_shells_config(TargetOs::Windows, true, true);
    let names: Vec<&str> = win.shells.iter().map(|(n, _)| n.as_str()).collect();
    assert_eq!(names, vec!["cmd", "powershell", "bash"]);
}

#[test]
fn init_scripts_set_the_environment_and_the_prompt() {
    let script = build_init_script(&config(), &vec!["echo hi".to_string(), "  ".to_string()], "bash", Some("$ `x`")).unwrap();
    assert_eq!(
        script,
        "export MODE='dev'\\''s'\n\necho hi\n\nexport PS1='\\$ \\`x\\`'\n\necho ''\necho '--- Type 'exit' to leave. ---'\necho ''\n"
    );
    let script = build_init_script(&config(), &vec![], "cmd", None).unwrap();
    assert!(script.starts_with("@echo off\nset \"MODE=dev's\"\n"));
    assert_eq!(escape_for_cmd_set("a%b^c&d<e>f|g"), "a%%b^^c^&d^<e^>f^|g");
    assert_eq!(hook_command_line(true, "say \"hi\""), "echo \"say \\\"hi\\\"\"");
    assert_eq!(hook_command_line(false, "ls"), "ls");
}
