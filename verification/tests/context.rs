use axes::context::{
    browse_step, find_project_from_path, session_project_missing, split_str, BrowseStep, ContextError,
    ContextWalk, WalkAction,
};
use axes::models::{GlobalIndex, IndexEntry};
use axes::state::AppState;

fn entry(name: &str, path: &str, parent: Option<u128>) -> IndexEntry {
    IndexEntry { name: name.to_string(), path: path.to_string(), parent, ..Default::default() }
}

fn index() -> GlobalIndex {
    GlobalIndex {
        projects: vec![
            (0, entry("global", "/cfg", None)),
            (1, entry("app", "/w/app", Some(0))),
            (2, entry("api", "/w/app/api", Some(1))),
            (3, entry("web", "/w/app/web", Some(1))),
            (4, entry("lib", "/w/lib", Some(0))),
        ],
        aliases: vec![("be".to_string(), 2)],
        last_used: Some(3),
    }
}

/// Runs a walk to its end, picking the first child when asked.
fn resolve(
    context: &str,
    state: &mut AppState,
    session: Option<u128>,
    cwd: &Result<String, String>,
) -> Result<(u128, String), ContextError> {
    let mut walk = ContextWalk::start(context, state.index(), session, cwd)?;
    loop {
        match walk.advance(state)? {
            WalkAction::Continue => {}
            WalkAction::AskChild { children, .. } => walk.pick_child(children[0].0),
            WalkAction::Resolved { uuid, qualified_name } => return Ok((uuid, qualified_name)),
        }
    }
}

fn cwd(p: &str) -> Result<String, String> {
    Ok(p.to_string())
}

#[test]
fn split_keeps_empty_pieces() {
    assert_eq!(split_str("a//b/", '/'), vec!["a", "", "b", ""]);
    assert_eq!(split_str("", '/'), vec![""]);
}

#[test]
fn names_resolve_from_the_global_project() {
    let mut state = AppState::new(index());
    let (u, q) = resolve("app/api", &mut state, None, &cwd("/")).unwrap();
    assert_eq!((u, q.as_str()), (2, "app/api"));
    // The walk records the project as last used, and its chain of last-used children.
    assert_eq!(state.index().last_used, Some(2));
    assert_eq!(state.index().projects[1].1.last_used_child, Some(2));
}

#[test]
fn session_names_resolve_from_the_session_project() {
    let mut state = AppState::new(index());
    let (u, _) = resolve("web", &mut state, Some(1), &cwd("/")).unwrap();
    assert_eq!(u, 3);
    let (u, _) = resolve("..", &mut state, Some(2), &cwd("/")).unwrap();
    assert_eq!(u, 1);
}

#[test]
fn dot_finds_the_closest_project_of_the_directory() {
    let mut state = AppState::new(index());
    let (u, _) = resolve(".", &mut state, None, &cwd("/w/app/api/src")).unwrap();
    assert_eq!(u, 2);
    let (u, _) = resolve("", &mut state, None, &cwd("/w/app/api/src")).unwrap();
    assert_eq!(u, 2);
    let (u, _) = resolve("./..", &mut state, None, &cwd("/w/app/web")).unwrap();
    assert_eq!(u, 1);
    let r = resolve(".", &mut state, None, &cwd("/elsewhere"));
    assert!(matches!(r, Err(ContextError::ProjectNotFoundFromPath)));
    let r = resolve(".", &mut state, None, &Err("denied".to_string()));
    assert!(matches!(r, Err(ContextError::Io(ref m)) if m == "denied"));
}

#[test]
fn underscore_needs_a_project_rooted_at_the_directory() {
    let mut state = AppState::new(index());
    let (u, _) = resolve("_", &mut state, None, &cwd("/w/lib")).unwrap();
    assert_eq!(u, 4);
    let r = resolve("_", &mut state, None, &cwd("/w/lib/src"));
    assert!(matches!(r, Err(ContextError::ProjectNotFoundInCwd)));
}

#[test]
fn aliases_last_used_and_parents() {
    let mut state = AppState::new(index());
    let (u, _) = resolve("be!", &mut state, None, &cwd("/")).unwrap();
    assert_eq!(u, 2);
    let r = resolve("nope!", &mut state, None, &cwd("/"));
    assert!(matches!(r, Err(ContextError::AliasNotFound { ref name }) if name == "nope"));
    let mut state = AppState::new(index());
    let (u, _) = resolve("**", &mut state, None, &cwd("/")).unwrap();
    assert_eq!(u, 3);
    let (u, q) = resolve("global", &mut state, None, &cwd("/")).unwrap();
    assert_eq!((u, q.as_str()), (0, "global"));
    let r = resolve("global/..", &mut state, None, &cwd("/"));
    assert!(matches!(r, Err(ContextError::AlreadyAtRoot)));
}

#[test]
fn misplaced_tokens_and_unknown_children_are_errors() {
    let mut state = AppState::new(index());
    let r = resolve("app/**", &mut state, None, &cwd("/"));
    assert!(matches!(r, Err(ContextError::GlobalRecentNotAtStart)));
    let r = resolve("app/db", &mut state, None, &cwd("/"));
    assert!(matches!(r, Err(ContextError::ChildProjectNotFound { ref child_name, ref parent_name })
        if child_name == "db" && parent_name == "app"));
}

#[test]
fn star_uses_the_remembered_child_or_asks() {
    let mut state = AppState::new(index());
    let mut walk = ContextWalk::start("app/*", state.index(), None, &cwd("/")).unwrap();
    assert!(matches!(walk.advance(&mut state), Ok(WalkAction::Continue)));
    match walk.advance(&mut state) {
        Ok(WalkAction::AskChild { parent_name, children }) => {
            assert_eq!(parent_name, "app");
            let names: Vec<&str> = children.iter().map(|(_, n)| n.as_str()).collect();
            assert_eq!(names, vec!["api", "web"]);
        }
        other => panic!("unexpected {:?}", other),
    }
    // Once `web` was used, `*` goes there directly.
    resolve("app/web", &mut state, None, &cwd("/")).unwrap();
    let (u, _) = resolve("app/*", &mut state, None, &cwd("/")).unwrap();
    assert_eq!(u, 3);
    let r = resolve("lib/*", &mut state, None, &cwd("/"));
    assert!(matches!(r, Err(ContextError::NoLastUsedChild { ref parent_name }) if parent_name == "lib"));
}

#[test]
fn paths_are_compared_by_components() {
    let idx = index();
    assert_eq!(find_project_from_path("/w/app/", false, &idx).ok(), Some(1));
    assert_eq!(find_project_from_path("/w/application", true, &idx).ok(), None);
}

#[test]
fn a_session_parent_needs_a_registered_session_project() {
    let idx = index();
    assert!(session_project_missing("../x", &idx, Some(99)));
    assert!(!session_project_missing("../x", &idx, Some(2)));
    assert!(!session_project_missing("../x", &idx, None));
    assert!(!session_project_missing("app/api", &idx, Some(99)));
}

#[test]
fn browsing_chooses_goes_up_or_visits_a_child() {
    let idx = index();
    // At the global project: 0 selects, then the children `app`, `lib`.
    assert_eq!(browse_step(&idx, 0, 0), BrowseStep::Choose(0));
    assert_eq!(browse_step(&idx, 0, 1), BrowseStep::Visit(1));
    assert_eq!(browse_step(&idx, 0, 2), BrowseStep::Visit(4));
    assert_eq!(browse_step(&idx, 0, 9), BrowseStep::Visit(0));
    // Below it: 1 goes up, then the children `api`, `web`.
    assert_eq!(browse_step(&idx, 1, 1), BrowseStep::Visit(0));
    assert_eq!(browse_step(&idx, 1, 2), BrowseStep::Visit(2));
    assert_eq!(browse_step(&idx, 1, 3), BrowseStep::Visit(3));
}
