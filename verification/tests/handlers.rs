use std::sync::Arc;

use axes::compiler::{compile_script, tokenize_string};
use axes::dispatch::{dispatch, find_command, parse_script_path, CommandName, Dispatch};
use axes::handlers::{
    build_resolver_for_task, check_reparent_collisions, collect_parameter_defs_from_task,
    default_project_description, dry_run_prefixes, format_prefix_path, join_strings,
    parse_dry_run_flag, parse_key_value_pairs, pre_rename_validation, prepare_operation_plan,
    put_simple_var, render_component_to_string, render_template_to_string, select_open_command,
    task_has_generic_params, validate_alias_name, validate_link_operation, validate_project_name,
    AliasNameError, InitError, LinkError, NameError, OpenError, PlanError, RenameCheck,
};
use axes::index_manager::reparent_children;
use axes::models::{
    AnsiStyle, CommandAction, CommandExecution, GlobalIndex, IndexEntry, ParameterKind,
    TargetOs, Task, TemplateComponent, TomlScript, TomlVar,
};
use axes::resolved::{ResolvedConfig, ResolvedOpenWithConfig};

fn args(v: &[&str]) -> Vec<String> {
    v.iter().map(|s| s.to_string()).collect()
}

fn invoke(v: &[&str]) -> (CommandName, Option<String>, Vec<String>) {
    match dispatch(&args(v)) {
        Dispatch::Invoke { command, context, args } => (command, context, args),
        Dispatch::Welcome => panic!("expected a command"),
    }
}

#[test]
fn dispatch_without_arguments_welcomes() {
    assert!(matches!(dispatch(&[]), Dispatch::Welcome));
}

#[test]
fn dispatch_escape_hatch_runs_the_script_path() {
    let (c, ctx, a) = invoke(&["app/api/build", "--", "--release", "x"]);
    assert_eq!(c, CommandName::Run);
    assert_eq!(ctx.as_deref(), Some("app/api"));
    assert_eq!(a, args(&["build", "--release", "x"]));
}

#[test]
fn dispatch_explicit_action_in_context() {
    let (c, ctx, a) = invoke(&["app", "del", "--recursive"]);
    assert_eq!(c, CommandName::Delete);
    assert_eq!(ctx.as_deref(), Some("app"));
    assert_eq!(a, args(&["--recursive"]));
}

#[test]
fn dispatch_global_action() {
    let (c, ctx, a) = invoke(&["ls", "--paths"]);
    assert_eq!(c, CommandName::Tree);
    assert_eq!(ctx, None);
    assert_eq!(a, args(&["--paths"]));
    let (c, ctx, a) = invoke(&["init"]);
    assert_eq!(c, CommandName::Init);
    assert_eq!(ctx, None);
    assert!(a.is_empty());
}

#[test]
fn dispatch_implicit_script() {
    let (c, ctx, a) = invoke(&["build", "fast"]);
    assert_eq!(c, CommandName::Run);
    assert_eq!(ctx, None);
    assert_eq!(a, args(&["build", "fast"]));
    let (c, ctx, a) = invoke(&["app/test"]);
    assert_eq!(c, CommandName::Run);
    assert_eq!(ctx.as_deref(), Some("app"));
    assert_eq!(a, args(&["test"]));
}

#[test]
fn commands_are_found_by_alias() {
    assert_eq!(find_command("unreg"), Some(CommandName::Unregister));
    assert_eq!(find_command("rep"), Some(CommandName::Repair));
    assert_eq!(find_command("new"), Some(CommandName::Init));
    assert_eq!(find_command("reg"), Some(CommandName::Register));
    assert_eq!(find_command("build"), None);
}

#[test]
fn script_paths_split_at_the_last_slash() {
    assert_eq!(parse_script_path("a/b/c"), (Some("a/b".to_string()), "c".to_string()));
    assert_eq!(parse_script_path("c"), (None, "c".to_string()));
    assert_eq!(parse_script_path("a/"), (Some("a".to_string()), String::new()));
}

#[test]
fn dry_run_flag_is_removed_from_the_parameters() {
    let (dry, rest) = parse_dry_run_flag(&args(&["a", "--dry-run", "b", "--dry-run"]));
    assert!(dry);
    assert_eq!(rest, args(&["a", "b"]));
    let (dry, rest) = parse_dry_run_flag(&args(&["a"]));
    assert!(!dry);
    assert_eq!(rest, args(&["a"]));
}

#[test]
fn prefix_paths_keep_the_last_two_parts() {
    assert_eq!(format_prefix_path("a/b/c/d"), ".../c/d");
    assert_eq!(format_prefix_path("a/b"), "a/b");
    assert_eq!(format_prefix_path("x/a/b/c"), ".../b/c");
    assert_eq!(format_prefix_path("solo"), "solo");
}

#[test]
fn project_names_are_validated() {
    let ok = validate_project_name("  my-app ").unwrap();
    assert_eq!(ok.name, "my-app");
    assert!(ok.warnings.is_empty());
    assert!(matches!(validate_project_name("   "), Err(NameError::Empty)));
    assert!(matches!(validate_project_name("my app"), Err(NameError::ContainsWhitespace)));
    assert!(matches!(validate_project_name("a/b"), Err(NameError::InvalidChars)));
    assert!(matches!(validate_project_name("a\\b"), Err(NameError::InvalidChars)));
    assert!(matches!(validate_project_name(".."), Err(NameError::Reserved { .. })));
    assert!(matches!(validate_project_name("**"), Err(NameError::Reserved { .. })));
    let warned = validate_project_name("-tool-").unwrap();
    assert_eq!(warned.warnings.len(), 2);
    assert!(warned.warnings[0].contains("starts with a non-alphanumeric character"));
    assert!(warned.warnings[1].contains("ends with a special character"));
    assert!(validate_project_name("tool_").unwrap().warnings.is_empty());
    assert_eq!(
        NameError::Reserved { name: "_".to_string() }.message(),
        "The name '_' is reserved."
    );
}

#[test]
fn alias_names_drop_one_bang() {
    assert_eq!(validate_alias_name(" api! ").unwrap(), "api");
    assert_eq!(validate_alias_name("api!!").unwrap(), "api!");
    assert!(matches!(validate_alias_name("!"), Err(AliasNameError::Empty)));
    assert!(matches!(validate_alias_name("a b"), Err(AliasNameError::InvalidChars { .. })));
    assert!(matches!(validate_alias_name("."), Err(AliasNameError::Reserved { .. })));
    assert!(matches!(validate_alias_name("*!"), Err(AliasNameError::Reserved { .. })));
}

fn task_of(line: &str) -> Task {
    compile_script(TomlScript::Simple(line.to_string())).unwrap()
}

#[test]
fn parameter_definitions_are_collected_once_in_order() {
    let task = Arc::new(task_of("run <params::1> <params::0> <params::1> <params::tag>"));
    let defs = collect_parameter_defs_from_task(&task);
    assert_eq!(defs.len(), 3);
    assert!(matches!(defs[0].kind, ParameterKind::Positional { index: 1 }));
    assert!(matches!(defs[1].kind, ParameterKind::Positional { index: 0 }));
    assert!(matches!(defs[2].kind, ParameterKind::Named { ref name } if name == "tag"));
    assert!(!task_has_generic_params(&task));
    assert!(task_has_generic_params(&task_of("run <params>")));
}

#[test]
fn resolver_of_a_task_uses_its_parameters() {
    let task = Arc::new(task_of("echo <params::0> <params>"));
    let r = build_resolver_for_task(&task, &args(&["one", "two", "three"])).unwrap();
    assert_eq!(r.get_specific_value("<params::0>").as_deref(), Some("one"));
    assert_eq!(r.get_generic_values(), &args(&["two", "three"]));
    let task = Arc::new(task_of("echo <params::0>"));
    assert!(build_resolver_for_task(&task, &args(&["one", "two"])).is_err());
}

fn entry(name: &str, path: &str, parent: Option<u128>) -> IndexEntry {
    IndexEntry { name: name.to_string(), path: path.to_string(), parent, ..Default::default() }
}

fn plan_index() -> GlobalIndex {
    GlobalIndex {
        projects: vec![
            (0, entry("global", "/g", None)),
            (1, entry("app", "/w/app", Some(0))),
            (2, entry("api", "/w/app/api", Some(1))),
            (3, entry("web", "/w/app/web", Some(1))),
            (4, entry("api", "/w/api", Some(0))),
        ],
        aliases: vec![],
        last_used: None,
    }
}

fn config_for(uuid: u128, name: &str) -> ResolvedConfig {
    ResolvedConfig::new(uuid, name.to_string(), "/w".to_string(), vec![uuid], vec![], TargetOs::Linux)
}

#[test]
fn collisions_warn_or_conflict() {
    let index = plan_index();
    let (warnings, conflicts) = check_reparent_collisions(&index, 1, 0);
    assert_eq!(warnings, vec!["Child 'api' will be renamed to 'app_api' to avoid collision.".to_string()]);
    assert!(conflicts.is_empty());
    let mut index = plan_index();
    index.projects.push((5, entry("app_api", "/w/app_api", Some(0))));
    let (warnings, conflicts) = check_reparent_collisions(&index, 1, 0);
    assert!(warnings.is_empty());
    assert_eq!(conflicts, vec!["'api' (also conflicts as 'app_api')".to_string()]);
}

#[test]
fn collisions_count_names_given_by_earlier_renames() {
    let mut index = plan_index();
    index.projects.push((6, entry("app_api", "/w/app/app_api", Some(1))));
    index.projects.push((7, entry("app_app_api", "/w/app_app_api", Some(0))));
    // `api` is renamed `app_api`, which the child named `app_api` then collides with.
    let (warnings, conflicts) = check_reparent_collisions(&index, 1, 0);
    assert_eq!(warnings, vec!["Child 'api' will be renamed to 'app_api' to avoid collision.".to_string()]);
    assert_eq!(conflicts, vec!["'app_api' (also conflicts as 'app_app_api')".to_string()]);
}

#[test]
fn the_preview_foresees_whether_the_move_succeeds() {
    let mut index = plan_index();
    let (_, conflicts) = check_reparent_collisions(&index, 1, 0);
    assert!(conflicts.is_empty());
    assert!(reparent_children(&mut index, 1, 0).is_ok());
    let mut index = plan_index();
    index.projects.push((6, entry("app_api", "/w/app/app_api", Some(1))));
    index.projects.push((7, entry("app_app_api", "/w/app_app_api", Some(0))));
    let (_, conflicts) = check_reparent_collisions(&index, 1, 0);
    assert!(!conflicts.is_empty());
    assert!(reparent_children(&mut index, 1, 0).is_err());
}

#[test]
fn operation_plans() {
    let index = plan_index();
    let config = config_for(1, "app");
    let r = prepare_operation_plan(&index, &config, true, Some(4), true);
    assert!(matches!(r, Err(PlanError::RecursiveAndReparent)));

    let plan = prepare_operation_plan(&index, &config, true, None, true).unwrap();
    assert_eq!(plan.uuids_to_remove[0], 1);
    let mut rest = plan.uuids_to_remove[1..].to_vec();
    rest.sort();
    assert_eq!(rest, vec![2, 3]);
    assert_eq!(plan.paths_to_purge.len(), 3);
    assert_eq!(plan.summary_lines, vec!["Delete 'app' and all of its descendants.".to_string()]);

    let plan = prepare_operation_plan(&index, &config, false, None, false).unwrap();
    assert_eq!(plan.uuids_to_remove, vec![1]);
    assert!(plan.paths_to_purge.is_empty());
    assert_eq!(plan.reparent_warnings.len(), 1);
    assert_eq!(
        plan.summary_lines,
        vec!["Unregister 'app'.".to_string(), "Its children will move under 'global'.".to_string()]
    );

    let mut index = plan_index();
    index.projects.push((5, entry("app_api", "/w/app_api", Some(0))));
    let r = prepare_operation_plan(&index, &config, false, None, false);
    assert!(matches!(r, Err(PlanError::ReparentCollision { ref conflicts })
        if conflicts == "'api' (also conflicts as 'app_api')"));
}

#[test]
fn strings_are_joined_with_the_separator() {
    assert_eq!(join_strings(&args(&["a", "b", "c"]), "', '"), "a', 'b', 'c");
    assert_eq!(join_strings(&vec![], ", "), "");
}

#[test]
fn link_checks() {
    let index = plan_index();
    assert_eq!(validate_link_operation(&index, 0, 1), Err(LinkError::CannotLinkGlobal));
    assert_eq!(validate_link_operation(&index, 2, 2), Err(LinkError::LinkToSelf));
    assert_eq!(validate_link_operation(&index, 2, 1), Ok(None));
    assert_eq!(validate_link_operation(&index, 2, 4), Ok(Some(())));
}

#[test]
fn rename_checks() {
    assert_eq!(pre_rename_validation(3, "web", "web"), RenameCheck::NoChange);
    assert_eq!(pre_rename_validation(0, "global", "root"), RenameCheck::ConfirmGlobal);
    assert_eq!(pre_rename_validation(3, "web", "site"), RenameCheck::Proceed);
}

#[test]
fn templates_render_back_to_their_tokens() {
    let t = tokenize_string("a <params::0> <#BRIGHT_RED> <run('ls')> <params(literal)> <vars::x> <path>").unwrap();
    assert_eq!(
        render_template_to_string(&t),
        "a <params::0> <#brightred> <run('ls')> <params(literal)> <vars::x> <path>"
    );
    assert_eq!(render_component_to_string(&TemplateComponent::Color(AnsiStyle::Bold)), "<#bold>");
    assert_eq!(render_component_to_string(&TemplateComponent::Script("b".to_string())), "<scripts::b>");
}

#[test]
fn key_value_pairs_are_trimmed_and_later_keys_win() {
    let m = parse_key_value_pairs(&args(&[" A = 1 ", "B=x=y", "A=2"])).unwrap();
    assert_eq!(m, vec![("A".to_string(), "2".to_string()), ("B".to_string(), "x=y".to_string())]);
    assert!(matches!(parse_key_value_pairs(&args(&["novalue"])), Err(InitError::InvalidKvPair(ref p)) if p == "novalue"));
    assert_eq!(default_project_description("x"), "A new project named 'x', managed by `axes`.");
}

#[test]
fn simple_vars_replace_or_append() {
    let mut vars = vec![("GREETING".to_string(), TomlVar::Simple("hi".to_string()))];
    put_simple_var(&mut vars, "GREETING".to_string(), "hello".to_string());
    put_simple_var(&mut vars, "NAME".to_string(), "axes".to_string());
    assert_eq!(vars.len(), 2);
    assert!(matches!(vars[0].1, TomlVar::Simple(ref s) if s == "hello"));
    assert!(matches!(vars[1].1, TomlVar::Simple(ref s) if s == "axes"));
}

#[test]
fn open_command_selection() {
    let open_with = ResolvedOpenWithConfig {
        default: Some("editor".to_string()),
        commands: vec![("editor".to_string(), task_of("code ."))],
    };
    let (k, _) = select_open_command(None, &open_with).unwrap();
    assert_eq!(k, "editor");
    assert!(matches!(select_open_command(Some("ide"), &open_with), Err(OpenError::KeyNotFound(ref k)) if k == "ide"));
    let broken = ResolvedOpenWithConfig { default: Some("x".to_string()), commands: vec![] };
    assert!(matches!(select_open_command(None, &broken), Err(OpenError::DefaultNotFound(ref k)) if k == "x"));
    let none = ResolvedOpenWithConfig { default: None, commands: vec![] };
    assert!(matches!(select_open_command(None, &none), Err(OpenError::NoDefault)));
}

#[test]
fn dry_run_prefixes_follow_the_modifiers() {
    let c = CommandExecution {
        action: CommandAction::Execute(vec![]),
        ignore_errors: true,
        run_in_parallel: true,
        silent_mode: true,
    };
    assert_eq!(dry_run_prefixes(&c), "@->");
    let c = CommandExecution { ignore_errors: false, run_in_parallel: false, ..c };
    assert_eq!(dry_run_prefixes(&c), "@");
}
