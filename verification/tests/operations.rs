use axes::handlers::OperationPlan;
use axes::index_manager::IndexError;
use axes::models::{GlobalIndex, IndexEntry, ProjectRef};
use axes::onboarding::{
    assign_identity, check_candidate_collision, register_candidate, resolve_candidate_identity,
    resolve_candidate_parent, valid_candidate_uuids, IdentitySource, IdentityStep,
    OnboardingCandidate, OnboardingError, OnboardingOptions, ParentStep,
};
use axes::operations::{
    apply_path_fixes, apply_removal_plan, cache_file_for, clear_cache_info, delete_confirmed,
    path_mismatch, recursive_delete_name, scan_depth,
};

fn entry(name: &str, path: &str, parent: Option<u128>) -> IndexEntry {
    IndexEntry { name: name.to_string(), path: path.to_string(), parent, ..Default::default() }
}

fn index() -> GlobalIndex {
    GlobalIndex {
        projects: vec![
            (0, entry("global", "/cfg", None)),
            (1, entry("app", "/w/app", Some(0))),
            (2, entry("api", "/w/app/api", Some(1))),
            (3, entry("web", "/w/app/web", Some(1))),
        ],
        aliases: vec![],
        last_used: None,
    }
}

fn plan(uuids: Vec<u128>) -> OperationPlan {
    OperationPlan { uuids_to_remove: uuids, ..Default::default() }
}

#[test]
fn removal_moves_children_then_removes() {
    let mut idx = index();
    let (removed, warnings) = apply_removal_plan(&mut idx, 1, &plan(vec![1]), false, 0).unwrap();
    assert_eq!(removed, 1);
    assert!(warnings.is_empty());
    assert_eq!(idx.projects.len(), 3);
    assert!(idx.projects.iter().filter(|(u, _)| *u == 2 || *u == 3).all(|(_, e)| e.parent == Some(0)));
}

#[test]
fn recursive_removal_removes_the_whole_subtree() {
    let mut idx = index();
    let (removed, _) = apply_removal_plan(&mut idx, 1, &plan(vec![1, 2, 3]), true, 0).unwrap();
    assert_eq!(removed, 3);
    assert_eq!(idx.projects.len(), 1);
}

#[test]
fn removal_stops_on_a_reparent_conflict() {
    let mut idx = index();
    idx.projects.push((4, entry("api", "/w/api", Some(0))));
    idx.projects.push((5, entry("app_api", "/w/app_api", Some(0))));
    let r = apply_removal_plan(&mut idx, 1, &plan(vec![1]), false, 0);
    assert!(matches!(r, Err(IndexError::NameAlreadyExists { .. })));
    assert!(idx.projects.iter().any(|(u, _)| *u == 1));
}

#[test]
fn recursive_delete_confirmation() {
    assert_eq!(recursive_delete_name("app/api").as_deref(), Some("api"));
    assert_eq!(recursive_delete_name("app/"), None);
    assert!(delete_confirmed("  api ", "api"));
    assert!(!delete_confirmed("app", "api"));
}

#[test]
fn repair_finds_and_fixes_moved_projects() {
    let mut idx = index();
    let pref = ProjectRef { self_uuid: 2, parent_uuid: Some(1), name: "api".to_string() };
    assert!(path_mismatch(&idx, "/w/app/api/", &pref).is_none());
    let m = path_mismatch(&idx, "/new/api", &pref).unwrap();
    assert_eq!((m.old_path.as_str(), m.new_path.as_str()), ("/w/app/api", "/new/api"));
    let unknown = ProjectRef { self_uuid: 9, parent_uuid: None, name: "x".to_string() };
    assert!(path_mismatch(&idx, "/x", &unknown).is_none());
    let mut gone = m.clone();
    gone.uuid = 42;
    let fixed = apply_path_fixes(&mut idx, &vec![m, gone]);
    assert_eq!(fixed, 1);
    assert_eq!(idx.projects[2].1.path, "/new/api");
    assert_eq!(scan_depth(false, Some(5)), Some(1));
    assert_eq!(scan_depth(true, Some(5)), Some(5));
    assert_eq!(scan_depth(true, None), None);
}

#[test]
fn cache_information_is_found_and_cleared() {
    let mut idx = index();
    assert_eq!(cache_file_for(&idx, 2), None);
    idx.projects[2].1.cache_dir = Some("/c".to_string());
    idx.projects[2].1.config_hash = Some("h".to_string());
    assert_eq!(cache_file_for(&idx, 2).as_deref(), Some("/c/h"));
    assert!(clear_cache_info(&mut idx, 2));
    assert!(!clear_cache_info(&mut idx, 2));
    assert_eq!(idx.projects[2].1.cache_dir, None);
}

fn options(autosolve: bool) -> OnboardingOptions {
    OnboardingOptions { autosolve, suggested_parent_uuid: None }
}

#[test]
fn candidates_take_their_local_identity() {
    let idx = index();
    let pref = ProjectRef { self_uuid: 10, parent_uuid: Some(1), name: "db".to_string() };
    let mut c = OnboardingCandidate::new("/w/app/db".to_string(), true, Some(pref.clone()));
    assert!(matches!(resolve_candidate_identity(&mut c, &idx, &options(true)), Ok(IdentityStep::Done)));
    assert_eq!(c.resolved_uuid, Some(10));
    assert_eq!(c.resolved_name.as_deref(), Some("db"));
    assert!(c.should_register);
    assert_eq!(resolve_candidate_parent(&c, &vec![], &idx, &options(true)), ParentStep::Use(1));
}

#[test]
fn candidates_already_known_or_colliding() {
    let idx = index();
    let known = ProjectRef { self_uuid: 2, parent_uuid: Some(1), name: "api".to_string() };
    let mut c = OnboardingCandidate::new("/w/app/api".to_string(), true, Some(known.clone()));
    resolve_candidate_identity(&mut c, &idx, &options(true)).unwrap();
    assert!(!c.should_register);
    let mut c = OnboardingCandidate::new("/moved/api".to_string(), true, Some(known));
    let r = resolve_candidate_identity(&mut c, &idx, &options(true));
    assert!(matches!(r, Err(OnboardingError::UuidCollision(2, ref p)) if p == "/w/app/api"));
}

#[test]
fn candidates_without_identity() {
    let idx = index();
    let mut c = OnboardingCandidate::new("/w/fresh".to_string(), true, None);
    assert!(matches!(c.identity_source, IdentitySource::TomlOnly));
    let r = resolve_candidate_identity(&mut c.clone(), &idx, &options(true)).unwrap();
    assert!(matches!(r, IdentityStep::Skipped { ref warning } if warning.contains("/w/fresh")));
    match resolve_candidate_identity(&mut c, &idx, &options(false)).unwrap() {
        IdentityStep::NeedName { default_name } => assert_eq!(default_name, "fresh"),
        other => panic!("unexpected {:?}", other),
    }
    assign_identity(&mut c, "fresh".to_string());
    assert!(c.resolved_uuid.unwrap() != 0);
    let not_a_project = OnboardingCandidate::new("/w/x".to_string(), false, None);
    assert!(!not_a_project.should_register);
}

#[test]
fn parents_of_candidates() {
    let idx = index();
    let pref = ProjectRef { self_uuid: 10, parent_uuid: Some(11), name: "db".to_string() };
    let c = OnboardingCandidate::new("/w/db".to_string(), true, Some(pref));
    // The named parent is unknown: the global project, or a question.
    assert_eq!(resolve_candidate_parent(&c, &vec![], &idx, &options(true)), ParentStep::Use(0));
    assert_eq!(
        resolve_candidate_parent(&c, &vec![], &idx, &options(false)),
        ParentStep::Choose { invalid_parent_warning: true }
    );
    // A parent registered in the same batch is valid.
    assert_eq!(resolve_candidate_parent(&c, &vec![11], &idx, &options(false)), ParentStep::Use(11));
    let suggested = OnboardingOptions { autosolve: false, suggested_parent_uuid: Some(3) };
    assert_eq!(resolve_candidate_parent(&c, &vec![], &idx, &suggested), ParentStep::Use(3));
}

#[test]
fn batch_collisions_and_registration() {
    let mut idx = index();
    let mut pending = Vec::new();
    assert!(matches!(check_candidate_collision(&idx, 1, "api", &mut pending), Err(OnboardingError::NameCollision(_))));
    check_candidate_collision(&idx, 1, "db", &mut pending).unwrap();
    assert!(matches!(check_candidate_collision(&idx, 1, "db", &mut pending), Err(OnboardingError::NameCollision(_))));
    let mut c = OnboardingCandidate::new("/w/app/db".to_string(), true, None);
    c.resolved_uuid = Some(20);
    c.resolved_name = Some("db".to_string());
    c.resolved_parent_uuid = Some(1);
    assert_eq!(valid_candidate_uuids(&vec![c.clone()]), vec![20]);
    let r = register_candidate(&mut idx, &c);
    assert_eq!((r.self_uuid, r.parent_uuid, r.name.as_str()), (20, Some(1), "db"));
    assert!(idx.projects.iter().any(|(u, e)| *u == 20 && e.path == "/w/app/db"));
}
