use axes::index_manager::{
    add_project_to_index, build_qualified_name, find_cycle_from_node, get_all_descendants,
    is_sibling_name_taken, link_project, remove_alias, remove_from_index, rename_project,
    reparent_children, set_alias, IndexError,
};
use axes::models::{GlobalIndex, IndexEntry};
use axes::state::AppState;

fn entry(name: &str, path: &str, parent: Option<u128>) -> IndexEntry {
    IndexEntry {
        name: name.to_string(),
        path: path.to_string(),
        parent,
        ..Default::default()
    }
}

/// global(0) -> app(1) -> api(2), app(1) -> web(3); tools(4) under global.
fn sample_index() -> GlobalIndex {
    GlobalIndex {
        projects: vec![
            (0, entry("global", "/home/u/.config/axes", None)),
            (1, entry("app", "/w/app", Some(0))),
            (2, entry("api", "/w/app/api", Some(1))),
            (3, entry("web", "/w/app/web", Some(1))),
            (4, entry("tools", "/w/tools", Some(0))),
        ],
        aliases: vec![],
        last_used: None,
    }
}

fn parent_of(index: &GlobalIndex, u: u128) -> Option<u128> {
    index.projects.iter().find(|(id, _)| *id == u).and_then(|(_, e)| e.parent)
}

fn name_of(index: &GlobalIndex, u: u128) -> String {
    index.projects.iter().find(|(id, _)| *id == u).unwrap().1.name.clone()
}

#[test]
fn qualified_names_walk_up_to_the_global_project() {
    let index = sample_index();
    assert_eq!(build_qualified_name(2, &index).as_deref(), Some("app/api"));
    assert_eq!(build_qualified_name(1, &index).as_deref(), Some("app"));
    assert_eq!(build_qualified_name(0, &index).as_deref(), Some("global"));
    assert_eq!(build_qualified_name(99, &index), None);
}

#[test]
fn add_project_refuses_a_taken_sibling_name() {
    let mut index = sample_index();
    let before = index.projects.len();
    let err = add_project_to_index(&mut index, "api".to_string(), "/x".to_string(), Some(1));
    assert!(matches!(err, Err(IndexError::NameAlreadyExists { ref name }) if name == "api"));
    assert_eq!(index.projects.len(), before);

    let (uuid, e) =
        add_project_to_index(&mut index, "db".to_string(), "/w/app/db".to_string(), Some(1))
            .unwrap();
    assert_ne!(uuid, 0);
    assert_eq!(e.parent, Some(1));
    assert_eq!(index.projects.len(), before + 1);
    assert_eq!(build_qualified_name(uuid, &index).as_deref(), Some("app/db"));
}

#[test]
fn add_project_without_parent_goes_under_global() {
    let mut index = sample_index();
    let (uuid, e) =
        add_project_to_index(&mut index, "solo".to_string(), "/s".to_string(), None).unwrap();
    assert_eq!(e.parent, Some(0));
    assert_eq!(build_qualified_name(uuid, &index).as_deref(), Some("solo"));
}

#[test]
fn link_refuses_cycles_and_keeps_the_index() {
    let mut index = sample_index();
    // Moving `app` under its own child `api` would make a cycle.
    let r = link_project(&mut index, 1, 2);
    assert!(matches!(r, Err(IndexError::CircularDependency { cycle_node_uuid: 2 })));
    assert_eq!(parent_of(&index, 1), Some(0));
    let r = link_project(&mut index, 1, 1);
    assert!(matches!(r, Err(IndexError::CircularDependency { cycle_node_uuid: 1 })));
    // The index stays acyclic after a valid link.
    link_project(&mut index, 4, 2).unwrap();
    assert_eq!(parent_of(&index, 4), Some(2));
    for (u, _) in &index.projects {
        assert_eq!(find_cycle_from_node(*u, &index), None);
    }
}

#[test]
fn link_refuses_missing_project_and_taken_name() {
    let mut index = sample_index();
    let r = link_project(&mut index, 77, 0);
    assert!(matches!(r, Err(IndexError::ProjectNotFoundInIndex { uuid: 77 })));
    index.projects.push((5, entry("api", "/w/other/api", Some(0))));
    let r = link_project(&mut index, 5, 1);
    assert!(matches!(r, Err(IndexError::NameAlreadyExists { ref name }) if name == "api"));
}

#[test]
fn descendants_are_listed_once() {
    let index = sample_index();
    let mut d = get_all_descendants(&index, 1);
    d.sort();
    assert_eq!(d, vec![2, 3]);
    let mut all = get_all_descendants(&index, 0);
    all.sort();
    assert_eq!(all, vec![1, 2, 3, 4]);
    assert!(get_all_descendants(&index, 2).is_empty());
}

#[test]
fn remove_counts_the_removed_projects() {
    let mut index = sample_index();
    let n = remove_from_index(&mut index, &[2, 3, 99]);
    assert_eq!(n, 2);
    assert_eq!(index.projects.len(), 3);
}

#[test]
fn rename_checks_siblings() {
    let mut index = sample_index();
    let r = rename_project(&mut index, 2, "web");
    assert!(matches!(r, Err(IndexError::NameAlreadyExists { .. })));
    rename_project(&mut index, 2, "backend").unwrap();
    assert_eq!(build_qualified_name(2, &index).as_deref(), Some("app/backend"));
    let r = rename_project(&mut index, 42, "x");
    assert!(matches!(r, Err(IndexError::ProjectNotFoundInIndex { uuid: 42 })));
}

#[test]
fn sibling_names_ignore_the_project_itself() {
    let index = sample_index();
    assert!(is_sibling_name_taken(&index, 1, "api", None));
    assert!(!is_sibling_name_taken(&index, 1, "api", Some(2)));
    assert!(!is_sibling_name_taken(&index, 0, "api", None));
}

#[test]
fn reparent_renames_colliding_children() {
    let mut index = sample_index();
    index.projects.push((5, entry("api", "/w/tools/api", Some(4))));
    // Moving the children of `app` under `tools`: `api` collides and becomes `app_api`.
    let warnings = reparent_children(&mut index, 1, 4).unwrap();
    assert_eq!(warnings.len(), 1);
    assert_eq!(parent_of(&index, 2), Some(4));
    assert_eq!(name_of(&index, 2), "app_api");
    assert_eq!(parent_of(&index, 3), Some(4));
    assert_eq!(name_of(&index, 3), "web");
}

#[test]
fn reparent_counts_names_given_during_the_move_as_taken() {
    let mut index = sample_index();
    index.projects.push((5, entry("api", "/w/tools/api", Some(4))));
    index.projects.push((7, entry("app_api", "/w/app/app_api", Some(1))));
    // `api` becomes `app_api`; the child already named `app_api` then collides with it.
    let warnings = reparent_children(&mut index, 1, 4).unwrap();
    assert_eq!(warnings.len(), 2);
    assert_eq!(name_of(&index, 2), "app_api");
    assert_eq!(name_of(&index, 3), "web");
    assert_eq!(name_of(&index, 7), "app_app_api");
    assert_eq!(parent_of(&index, 7), Some(4));
}

#[test]
fn reparent_fails_when_the_suggested_name_is_taken_too() {
    let mut index = sample_index();
    index.projects.push((5, entry("api", "/w/tools/api", Some(4))));
    index.projects.push((6, entry("app_api", "/w/tools/app_api", Some(4))));
    let r = reparent_children(&mut index, 1, 4);
    assert!(matches!(r, Err(IndexError::NameAlreadyExists { ref name }) if name == "app_api"));
}

#[test]
fn aliases_are_set_replaced_and_removed() {
    let mut index = sample_index();
    set_alias(&mut index, "b".to_string(), 2);
    set_alias(&mut index, "b".to_string(), 3);
    assert_eq!(index.aliases, vec![("b".to_string(), 3)]);
    assert!(remove_alias(&mut index, "b"));
    assert!(!remove_alias(&mut index, "b"));
    assert!(index.aliases.is_empty());
}

#[test]
fn cycles_are_reported_from_their_first_repeat() {
    let mut index = sample_index();
    // Corrupt the index: app -> api -> app.
    index.projects[1].1.parent = Some(2);
    assert_eq!(find_cycle_from_node(3, &index), Some(1));
    assert_eq!(build_qualified_name(2, &index), None);
}

#[test]
fn state_needs_saving_only_after_a_real_change() {
    let mut state = AppState::new(sample_index());
    assert!(!state.needs_saving());
    // Recording the last used chain changes the index.
    state.update_last_used_caches(2);
    assert!(state.needs_saving());
    assert_eq!(state.index().last_used, Some(2));
    let app = state.index().projects.iter().find(|(u, _)| *u == 1).unwrap().1.clone();
    assert_eq!(app.last_used_child, Some(2));
    // Setting back the original index makes the change vanish.
    state.set_index(sample_index());
    assert!(!state.needs_saving());
}

#[test]
fn recording_the_same_last_used_twice_changes_nothing_more() {
    let mut state = AppState::new(sample_index());
    state.update_last_used_caches(3);
    let after_first = state.index().clone();
    state.update_last_used_caches(3);
    assert_eq!(format!("{:?}", state.index()), format!("{:?}", after_first));
}

#[test]
fn cache_info_update_marks_the_state_dirty() {
    let mut state = AppState::new(sample_index());
    state.update_project_cache_info(2, Some("abc".to_string()), Some("/c/2".to_string()));
    assert!(state.needs_saving());
    let e = state.index().projects.iter().find(|(u, _)| *u == 2).unwrap().1.clone();
    assert_eq!(e.config_hash.as_deref(), Some("abc"));
    assert_eq!(e.cache_dir.as_deref(), Some("/c/2"));
}
