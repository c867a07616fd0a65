use axes::compiler::compile_script;
use axes::display::{
    alias_lines, count_broken, find_task_source, hierarchy_names, node_labels, script_listing,
    sorted_alias_pairs, tree_layout, var_listing, DisplayOptions, NodeLabel, TreeLayout,
};
use axes::models::{
    CachedProjectConfig, CachedVar, GlobalIndex, IndexEntry, PlatformExecution, TargetOs,
    TomlScript,
};
use axes::display::{env_listing, open_listing};
use axes::handlers::is_global_alias;
use axes::resolved::{Layer, ResolvedConfig, ResolvedOpenWithConfig};

fn entry(name: &str, path: &str, parent: Option<u128>) -> IndexEntry {
    IndexEntry { name: name.to_string(), path: path.to_string(), parent, ..Default::default() }
}

/// global(0) -> app(1) -> {web(3), api(2)}, global(0) -> tools(4).
fn index() -> GlobalIndex {
    GlobalIndex {
        projects: vec![
            (0, entry("global", "/g", None)),
            (1, entry("app", "/w/app", Some(0))),
            (3, entry("web", "/w/app/web", Some(1))),
            (2, entry("api", "/w/app/api", Some(1))),
            (4, entry("tools", "/w/tools", Some(0))),
        ],
        aliases: vec![("w".to_string(), 3), ("a".to_string(), 2), ("gone".to_string(), 9), ("b".to_string(), 2)],
        last_used: Some(2),
    }
}

fn rows_of(layout: TreeLayout) -> Vec<(String, String)> {
    match layout {
        TreeLayout::Tree { rows, .. } => rows.into_iter().map(|r| (r.lead, r.name)).collect(),
        other => panic!("no tree: {:?}", other),
    }
}

#[test]
fn the_tree_lists_children_by_name_with_connectors() {
    let layout = tree_layout(&index(), None, &DisplayOptions::default());
    if let TreeLayout::Tree { header, .. } = &layout {
        assert_eq!(header.as_ref().map(|h| h.1.as_str()), Some("global"));
    }
    let rows = rows_of(layout);
    let expected: Vec<(String, String)> = vec![
        ("├─".to_string(), "app".to_string()),
        ("│  ├─".to_string(), "api".to_string()),
        ("│  └─".to_string(), "web".to_string()),
        ("└─".to_string(), "tools".to_string()),
    ];
    assert_eq!(rows, expected);
}

#[test]
fn the_tree_stops_at_the_depth_limit_and_shows_subtrees_without_header() {
    let opts = DisplayOptions { max_depth: Some(1), ..Default::default() };
    let rows = rows_of(tree_layout(&index(), None, &opts));
    assert_eq!(rows.iter().map(|r| r.1.as_str()).collect::<Vec<_>>(), vec!["app", "tools"]);

    let layout = tree_layout(&index(), Some(1), &DisplayOptions::default());
    if let TreeLayout::Tree { header, .. } = &layout {
        assert!(header.is_none());
    }
    let rows = rows_of(layout);
    assert_eq!(rows, vec![("├─".to_string(), "api".to_string()), ("└─".to_string(), "web".to_string())]);
}

#[test]
fn the_tree_reports_what_is_missing() {
    assert!(matches!(tree_layout(&GlobalIndex::default(), None, &DisplayOptions::default()), TreeLayout::NoProjects));
    assert!(matches!(
        tree_layout(&index(), Some(77), &DisplayOptions::default()),
        TreeLayout::StartMissing { subtree: true }
    ));
    let mut no_root = index();
    no_root.projects.remove(0);
    assert!(matches!(
        tree_layout(&no_root, None, &DisplayOptions::default()),
        TreeLayout::StartMissing { subtree: false }
    ));
}

#[test]
fn node_labels_follow_the_options() {
    let idx = index();
    let sorted = sorted_alias_pairs(&idx);
    let opts = DisplayOptions { show_paths: true, show_uuids: true, show_health: true, max_depth: None };
    let labels = node_labels(&idx, &sorted, 2, "/w/app/api", &opts, false);
    assert!(matches!(labels[0], NodeLabel::BrokenPath));
    assert!(matches!(labels[1], NodeLabel::LastUsed));
    assert!(matches!(labels[2], NodeLabel::Aliases(ref s) if s == "a!, b!"));
    assert!(matches!(labels[3], NodeLabel::Path(ref s) if s == "[/w/app/api]"));
    assert!(matches!(labels[4], NodeLabel::Uuid(ref s) if s == "(00000000-0000-0000-0000-000000000002)"));
    assert_eq!(labels.len(), 5);
    let plain = node_labels(&idx, &sorted, 4, "/w/tools", &DisplayOptions::default(), false);
    assert!(plain.is_empty());
}

#[test]
fn alias_reports_are_sorted_and_mark_broken_links() {
    let idx = index();
    let lines = alias_lines(&idx);
    let names: Vec<&str> = lines.iter().map(|l| l.name.as_str()).collect();
    assert_eq!(names, vec!["a", "b", "gone", "w"]);
    assert_eq!(lines[0].target.as_deref(), Some("app/api"));
    assert_eq!(lines[3].target.as_deref(), Some("app/web"));
    assert!(lines[2].target.is_none());
    assert_eq!(count_broken(&lines), 1);
}

fn task(desc: Option<&str>) -> axes::models::Task {
    let mut t = compile_script(TomlScript::Simple("echo hi".to_string())).unwrap();
    t.desc = desc.map(|d| d.to_string());
    t
}

fn layered_config() -> ResolvedConfig {
    let mut child = CachedProjectConfig::default();
    child.scripts = vec![("build".to_string(), task(Some("Build it"))), ("lint".to_string(), task(Some("  ")))];
    child.vars = vec![("port".to_string(), CachedVar { desc: None, value: PlatformExecution::default() })];
    let mut parent = CachedProjectConfig::default();
    parent.scripts = vec![("deploy".to_string(), task(None)), ("build".to_string(), task(None))];
    ResolvedConfig::new(
        2,
        "app/api".to_string(),
        "/w/app/api".to_string(),
        vec![2, 1],
        vec![Layer::Loaded(child), Layer::Loaded(parent)],
        TargetOs::Linux,
    )
}

#[test]
fn task_sources_name_the_defining_project() {
    let idx = index();
    let config = layered_config();
    assert_eq!(find_task_source("scripts", "build", &config, &idx).unwrap(), "app/api");
    assert_eq!(find_task_source("scripts", "deploy", &config, &idx).unwrap(), "app");
    assert_eq!(find_task_source("scripts", "missing", &config, &idx).unwrap(), "app/api");
    assert_eq!(find_task_source("vars", "port", &config, &idx).unwrap(), "app/api");
    assert_eq!(hierarchy_names(&config, &idx), vec!["app/api".to_string(), "app".to_string()]);
}

#[test]
fn script_listings_are_sorted_with_sources_and_descriptions() {
    let idx = index();
    let list = script_listing(&layered_config(), &idx).unwrap();
    let names: Vec<&str> = list.iter().map(|e| e.name.as_str()).collect();
    assert_eq!(names, vec!["build", "deploy", "lint"]);
    assert_eq!(list[0].desc.as_deref(), Some("Build it"));
    assert!(list[0].inherited_from.is_none());
    assert_eq!(list[1].inherited_from.as_deref(), Some("app"));
    assert!(list[2].desc.is_none());
    let vars = var_listing(&layered_config(), &idx).unwrap();
    assert_eq!(vars.len(), 1);
    assert_eq!(vars[0].name, "port");
}

#[test]
fn unknown_projects_are_named_by_uuid() {
    let idx = index();
    let mut config = layered_config();
    config.hierarchy = vec![2, 9];
    assert_eq!(
        hierarchy_names(&config, &idx)[1],
        "<unknown: 00000000-0000-0000-0000-000000000009>"
    );
}

#[test]
fn open_commands_and_environment_are_listed_by_name() {
    let open_with = ResolvedOpenWithConfig {
        default: Some("editor".to_string()),
        commands: vec![("term".to_string(), task(None)), ("editor".to_string(), task(Some("Edit")))],
    };
    let lines = open_listing(&open_with);
    assert_eq!(lines.len(), 2);
    assert_eq!(lines[0].key, "editor");
    assert!(lines[0].is_default);
    assert_eq!(lines[0].desc.as_deref(), Some("Edit"));
    assert_eq!(lines[1].key, "term");
    assert!(!lines[1].is_default);

    let mut layer = CachedProjectConfig::default();
    layer.env = vec![("ZED".to_string(), "1".to_string()), ("ALPHA".to_string(), "2".to_string())];
    let config = ResolvedConfig::new(1, "app".to_string(), "/w".to_string(), vec![1], vec![Layer::Loaded(layer)], TargetOs::Linux);
    let env = env_listing(&config).unwrap();
    assert_eq!(env, vec![("ALPHA".to_string(), "2".to_string()), ("ZED".to_string(), "1".to_string())]);
}

#[test]
fn only_the_g_alias_needs_confirmation() {
    assert!(is_global_alias("g"));
    assert!(is_global_alias("G"));
    assert!(!is_global_alias("gg"));
}
