use axes::cache::{content_hash, frame_cached_layer, unframe_cached_layer, CacheReadError};
use axes::loader::{
    discover_hierarchy, ephemeral_entry, ephemeral_hierarchy, finish_ephemeral, finish_resolve,
    layer_config_path, load_layer_task, toml_hash, IndexUpdate, LoadError,
};
use axes::models::{
    CachedOptionsConfig, CachedProjectConfig, GlobalIndex, IndexEntry, ProjectRef, TargetOs,
};
use axes::paths::{expand_path_template, TemplateError};
use axes::resolved::{Layer, OptionsError};

fn entry(name: &str, path: &str, parent: Option<u128>) -> IndexEntry {
    IndexEntry { name: name.to_string(), path: path.to_string(), parent, ..Default::default() }
}

fn index() -> GlobalIndex {
    GlobalIndex {
        projects: vec![
            (0, entry("global", "/cfg", None)),
            (1, entry("app", "/w/app", Some(0))),
            (2, entry("api", "/w/app/api", Some(1))),
        ],
        aliases: vec![],
        last_used: None,
    }
}

const UUID_2: &str = "00000000-0000-0000-0000-000000000002";

#[test]
fn hierarchy_goes_up_to_the_root() {
    assert_eq!(discover_hierarchy(&index(), 2).unwrap(), vec![2, 1, 0]);
    assert_eq!(discover_hierarchy(&index(), 0).unwrap(), vec![0]);
}

#[test]
fn hierarchy_reports_the_project_with_a_broken_link() {
    let mut idx = index();
    idx.projects[1].1.parent = Some(9);
    let r = discover_hierarchy(&idx, 2);
    assert!(matches!(r, Err(LoadError::MissingParent { child: 1, parent: 9 })));
    let r = discover_hierarchy(&idx, 7);
    assert!(matches!(r, Err(LoadError::MissingParent { child: 7, parent: 7 })));
    let msg = LoadError::MissingParent { child: 1, parent: 9 }.message();
    assert!(msg.contains("'00000000-0000-0000-0000-000000000001' lists a parent with UUID '00000000-0000-0000-0000-000000000009'"));
}

#[test]
fn layer_plans_try_the_cache_only_with_the_same_hash() {
    let mut idx = index();
    idx.projects[2].1.config_hash = Some("h1".to_string());
    idx.projects[2].1.cache_dir = Some("/c/api".to_string());
    let plan = load_layer_task(2, &idx, None, "h1").unwrap();
    assert_eq!(plan.try_cache.as_deref(), Some("/c/api/h1"));
    assert_eq!(plan.write_cache, "/c/api/h1");
    assert_eq!(plan.update.new_hash, "h1");
    let plan = load_layer_task(2, &idx, None, "h2").unwrap();
    assert_eq!(plan.try_cache, None);
    assert_eq!(plan.write_cache, "/c/api/h2");
    // Without a cache directory of its own, the default one is used.
    let plan = load_layer_task(1, &idx, Some("/cache"), "h").unwrap();
    assert_eq!(plan.write_cache, "/cache/projects/00000000-0000-0000-0000-000000000001/h");
    assert!(matches!(load_layer_task(5, &idx, Some("/c"), "h"), Err(LoadError::MissingProject { uuid: 5 })));
}

#[test]
fn config_files_and_hashes() {
    assert_eq!(layer_config_path("/w/app"), "/w/app/.axes/axes.toml");
    assert_eq!(toml_hash(None), "empty");
    assert_eq!(toml_hash(Some(b"")), content_hash(b""));
    assert_eq!(toml_hash(Some(b"a")).len(), 32);
}

fn layer_with_cache_dir(dir: Option<&str>) -> Layer {
    Layer::Loaded(CachedProjectConfig {
        options: CachedOptionsConfig { cache_dir: dir.map(|s| s.to_string()), ..Default::default() },
        ..Default::default()
    })
}

#[test]
fn finishing_updates_the_entry_and_plans_the_move() {
    let mut idx = index();
    idx.projects[2].1.cache_dir = Some("/old".to_string());
    let updates = vec![IndexUpdate { uuid: 2, new_hash: "h9".to_string(), new_cache_dir: String::new() }];
    let layers = vec![layer_with_cache_dir(None), layer_with_cache_dir(Some("/shared")), layer_with_cache_dir(None)];
    let (rc, mv) = finish_resolve(&mut idx, 2, vec![2, 1, 0], layers, &updates, TargetOs::Linux, Some("/cache".to_string())).unwrap();
    assert_eq!(rc.qualified_name, "app/api");
    assert_eq!(rc.project_root, "/w/app/api");
    let e = &idx.projects[2].1;
    // The inherited template is the cache root; the project has its own directory under it.
    let shared = format!("/shared/projects/{}", UUID_2);
    assert_eq!(e.cache_dir.as_deref(), Some(shared.as_str()));
    assert_eq!(e.config_hash.as_deref(), Some("h9"));
    // The layer was written under the indexed directory, from where it moves.
    let mv = mv.unwrap();
    assert_eq!(mv.from, "/old/h9");
    assert_eq!(mv.to, format!("{}/h9", shared));
}

#[test]
fn finishing_moves_a_layer_written_under_the_default_directory() {
    let mut idx = index();
    let updates = vec![IndexUpdate { uuid: 2, new_hash: "h3".to_string(), new_cache_dir: String::new() }];
    let layers = vec![layer_with_cache_dir(Some("/tmp/c")), layer_with_cache_dir(None), layer_with_cache_dir(None)];
    let plan = load_layer_task(2, &idx, Some("/cache"), "h3").unwrap();
    let (_, mv) = finish_resolve(&mut idx, 2, vec![2, 1, 0], layers, &updates, TargetOs::Linux, Some("/cache".to_string())).unwrap();
    let mv = mv.unwrap();
    assert_eq!(mv.from, plan.write_cache);
    assert_eq!(mv.to, format!("/tmp/c/projects/{}/h3", UUID_2));
}

#[test]
fn finishing_writes_the_hash_of_every_recompiled_layer() {
    let mut idx = index();
    idx.projects[0].1.config_hash = Some("old0".to_string());
    idx.projects[1].1.config_hash = Some("old1".to_string());
    let updates = vec![
        IndexUpdate { uuid: 1, new_hash: "new1".to_string(), new_cache_dir: String::new() },
        IndexUpdate { uuid: 2, new_hash: "new2".to_string(), new_cache_dir: String::new() },
    ];
    let layers = vec![layer_with_cache_dir(None), layer_with_cache_dir(None), layer_with_cache_dir(None)];
    finish_resolve(&mut idx, 2, vec![2, 1, 0], layers, &updates, TargetOs::Linux, Some("/cache".to_string())).unwrap();
    assert_eq!(idx.projects[0].1.config_hash.as_deref(), Some("old0"));
    assert_eq!(idx.projects[1].1.config_hash.as_deref(), Some("new1"));
    assert_eq!(idx.projects[2].1.config_hash.as_deref(), Some("new2"));
    // Only the resolved project's cache directory is synced.
    assert_eq!(idx.projects[1].1.cache_dir, None);
}

#[test]
fn finishing_refuses_a_template_with_an_axes_token() {
    let mut idx = index();
    let layers = vec![layer_with_cache_dir(Some("/c/<uuid>")), layer_with_cache_dir(None), layer_with_cache_dir(None)];
    let r = finish_resolve(&mut idx, 2, vec![2, 1, 0], layers, &vec![], TargetOs::Linux, Some("/cache".to_string()));
    assert!(matches!(r, Err(LoadError::Options(OptionsError::Template(TemplateError::DynamicToken { .. })))));
}

#[test]
fn finishing_without_changes_moves_nothing() {
    let mut idx = index();
    idx.projects[2].1.cache_dir = Some(format!("/cache/projects/{}", UUID_2));
    let layers = vec![layer_with_cache_dir(None), layer_with_cache_dir(None), layer_with_cache_dir(None)];
    let (_, mv) = finish_resolve(&mut idx, 2, vec![2, 1, 0], layers, &vec![], TargetOs::Linux, Some("/cache".to_string())).unwrap();
    assert!(mv.is_none());
    assert_eq!(idx.projects[2].1.config_hash, None);
}

#[test]
fn finishing_fails_on_a_failed_layer_and_keeps_the_index() {
    let mut idx = index();
    let before = format!("{:?}", idx);
    let layers = vec![layer_with_cache_dir(None), Layer::Failed("boom".to_string()), layer_with_cache_dir(None)];
    let r = finish_resolve(&mut idx, 2, vec![2, 1, 0], layers, &vec![], TargetOs::Linux, Some("/c".to_string()));
    assert!(matches!(r, Err(LoadError::Options(OptionsError::Layer(ref m))) if m == "boom"));
    assert_eq!(format!("{:?}", idx), before);
    let layers = vec![layer_with_cache_dir(None)];
    let r = finish_resolve(&mut idx, 0, vec![0], layers, &vec![], TargetOs::Linux, None);
    assert!(matches!(r, Err(LoadError::Options(OptionsError::NoCacheRoot))));
}

#[test]
fn ephemeral_projects_borrow_their_parents_from_the_index() {
    let pref = ProjectRef { self_uuid: 50, parent_uuid: Some(1), name: "tmp".to_string() };
    assert_eq!(ephemeral_hierarchy(&index(), &pref, "/t").unwrap(), vec![50, 1, 0]);
    let orphan = ProjectRef { self_uuid: 50, parent_uuid: Some(8), name: "tmp".to_string() };
    let r = ephemeral_hierarchy(&index(), &orphan, "/t");
    assert!(matches!(r, Err(LoadError::EphemeralParentMissing { ref path, parent: 8 }) if path == "/t"));
    let e = ephemeral_entry(&pref, "/t");
    assert_eq!((e.name.as_str(), e.path.as_str(), e.parent), ("tmp", "/t", Some(1)));
    let rc = finish_ephemeral(&pref, "/t".to_string(), vec![50, 1, 0], vec![], TargetOs::Linux);
    assert_eq!(rc.qualified_name, "_tmp");
}

#[test]
fn cache_frames_read_back_their_bytes() {
    let data = b"serialized layer bytes, serialized layer bytes".to_vec();
    let framed = frame_cached_layer(&data);
    assert!(framed.len() >= 4);
    assert_eq!(unframe_cached_layer(&framed).unwrap(), data);
    assert!(matches!(unframe_cached_layer(&[]), Err(CacheReadError::Empty)));
    assert!(matches!(unframe_cached_layer(&[1, 0]), Err(CacheReadError::Corrupt(_))));
    assert_eq!(CacheReadError::Empty.message(), "Cache file is empty.");
}

#[test]
fn cycles_are_detected_before_walking_a_hierarchy() {
    let idx = index();
    assert!(axes::loader::hierarchy_ends(&idx, 2));
    assert!(axes::loader::hierarchy_ends(&idx, 9));
    assert!(axes::loader::parents_end(&idx, Some(2)));
    assert!(axes::loader::parents_end(&idx, None));
    let mut looped = index();
    looped.projects[0].1.parent = Some(2);
    assert!(!axes::loader::hierarchy_ends(&looped, 2));
    assert!(!axes::loader::parents_end(&looped, Some(1)));
}

#[test]
fn templates_with_nothing_to_expand_are_their_own_root() {
    assert_eq!(expand_path_template("/srv/cache").unwrap(), "/srv/cache");
    assert!(matches!(expand_path_template("/c/<uuid>"), Err(TemplateError::DynamicToken { .. })));
    let r = expand_path_template("/c/$AXES_SURELY_UNSET_VARIABLE_42");
    assert!(matches!(r, Err(TemplateError::Expansion { .. })));
}
