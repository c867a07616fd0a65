use axes::compiler::compile_script;
use axes::models::{CachedProjectConfig, CachedVar, PlatformExecution, TargetOs, Task, TomlScript};
use axes::resolved::{Layer, ResolvedConfig};

fn task(line: &str) -> Task {
    compile_script(TomlScript::Simple(line.to_string())).unwrap()
}

fn var(desc: &str) -> CachedVar {
    CachedVar { desc: Some(desc.to_string()), value: PlatformExecution::default() }
}

/// api (child) -> app -> global (root).
fn config() -> ResolvedConfig {
    let mut api = CachedProjectConfig::default();
    api.scripts = vec![("build".to_string(), task("cargo build -p api"))];
    api.vars = vec![("port".to_string(), var("api port"))];
    api.env = vec![("MODE".to_string(), "api".to_string())];
    let mut app = CachedProjectConfig::default();
    app.scripts = vec![("build".to_string(), task("cargo build")), ("lint".to_string(), task("cargo clippy"))];
    app.vars = vec![("port".to_string(), var("app port")), ("host".to_string(), var("app host"))];
    app.env = vec![("MODE".to_string(), "app".to_string()), ("REGION".to_string(), "eu".to_string())];
    let mut global = CachedProjectConfig::default();
    global.scripts = vec![("hello".to_string(), task("echo hello"))];
    global.env = vec![("EDITOR".to_string(), "vim".to_string())];
    ResolvedConfig::new(
        2,
        "app/api".to_string(),
        "/w/app/api".to_string(),
        vec![2, 1, 0],
        vec![Layer::Loaded(api), Layer::Loaded(app), Layer::Loaded(global)],
        TargetOs::Linux,
    )
}

fn first_literal(t: &Task) -> String {
    match &t.commands[0].default.as_ref().unwrap().action {
        axes::models::CommandAction::Execute(c) => match &c[0] {
            axes::models::TemplateComponent::Literal(s) => s.clone(),
            other => panic!("unexpected component {:?}", other),
        },
        other => panic!("unexpected action {:?}", other),
    }
}

#[test]
fn a_child_script_overrides_its_parents() {
    let c = config();
    let t = c.get_script("build").unwrap().unwrap();
    assert_eq!(first_literal(t), "cargo build -p api");
}

#[test]
fn parent_scripts_are_inherited_and_root_scripts_are_available_everywhere() {
    let c = config();
    assert_eq!(first_literal(c.get_script("lint").unwrap().unwrap()), "cargo clippy");
    assert_eq!(first_literal(c.get_script("hello").unwrap().unwrap()), "echo hello");
    assert!(c.get_script("missing").unwrap().is_none());
}

#[test]
fn variables_override_and_inherit() {
    let c = config();
    assert_eq!(c.get_var("port").unwrap().unwrap().desc.as_deref(), Some("api port"));
    assert_eq!(c.get_var("host").unwrap().unwrap().desc.as_deref(), Some("app host"));
}

#[test]
fn environment_overrides_and_inherits() {
    let c = config();
    let env = c.get_env().unwrap();
    let get = |k: &str| env.iter().find(|(key, _)| key == k).map(|(_, v)| v.clone());
    assert_eq!(get("MODE").as_deref(), Some("api"));
    assert_eq!(get("REGION").as_deref(), Some("eu"));
    assert_eq!(get("EDITOR").as_deref(), Some("vim"));
}

#[test]
fn a_failed_layer_is_reported_before_parents_are_consulted() {
    let mut api = CachedProjectConfig::default();
    api.scripts = vec![("build".to_string(), task("make"))];
    let c = ResolvedConfig::new(
        2,
        "app/api".to_string(),
        "/w".to_string(),
        vec![2, 1],
        vec![Layer::Loaded(api), Layer::Failed("broken parent".to_string())],
        TargetOs::Linux,
    );
    assert_eq!(first_literal(c.get_script("build").unwrap().unwrap()), "make");
    assert_eq!(c.get_script("other").unwrap_err(), "broken parent");
    assert_eq!(c.get_env().unwrap_err(), "broken parent");
}

fn with_options(cache_dir: Option<&str>, shell: Option<&str>) -> CachedProjectConfig {
    let mut c = CachedProjectConfig::default();
    c.options.cache_dir = cache_dir.map(|s| s.to_string());
    c.options.shell = shell.map(|s| s.to_string());
    c
}

#[test]
fn options_take_the_closest_definition_and_the_project_cache_directory() {
    let c = ResolvedConfig::new(
        2,
        "app/api".to_string(),
        "/w/app/api".to_string(),
        vec![2, 1, 0],
        vec![
            Layer::Loaded(with_options(None, None)),
            Layer::Loaded(with_options(Some("/srv/cache"), Some("zsh"))),
            Layer::Loaded(with_options(Some("/ignored"), Some("bash"))),
        ],
        TargetOs::Linux,
    );
    let o = c.get_options(Some("/home/u/.cache/axes".to_string())).unwrap();
    assert_eq!(o.shell.as_deref(), Some("zsh"));
    assert_eq!(o.cache_dir.as_deref(), Some("/srv/cache/projects/00000000-0000-0000-0000-000000000002"));
    let u = c.options_under("/root").unwrap();
    assert_eq!(u.cache_dir.as_deref(), Some("/root/projects/00000000-0000-0000-0000-000000000002"));
    // Without a template, the default cache root is used.
    let plain = ResolvedConfig::new(
        2,
        "api".to_string(),
        "/w/api".to_string(),
        vec![2],
        vec![Layer::Loaded(with_options(None, None))],
        TargetOs::Linux,
    );
    let o = plain.get_options(Some("/home/u/.cache/axes".to_string())).unwrap();
    assert_eq!(
        o.cache_dir.as_deref(),
        Some("/home/u/.cache/axes/projects/00000000-0000-0000-0000-000000000002")
    );
    assert!(plain.get_options(None).is_err());
}
