use doggo_core::interner::StringPool;
use doggo_core::manifest::parse_manifest;
use doggo_core::project::path_starts_with;
use doggo_core::project::member_path;
use doggo_core::project::LoadStep;
use doggo_core::project::Package;
use doggo_core::project::Workspace;
use doggo_core::project::WorkspaceError;

fn load_package(pool: &mut StringPool, path: &str, text: &str) -> Package {
    let m = parse_manifest(pool, text).unwrap();
    Package::from_manifest(pool, path.to_string(), m).unwrap()
}

#[test]
fn path_prefix_is_component_wise() {
    assert!(path_starts_with("/ws/b/src", "/ws/b"));
    assert!(path_starts_with("/ws/b", "/ws/b"));
    assert!(!path_starts_with("/ws/bb", "/ws/b"));
    assert!(!path_starts_with("/ws", "/ws/b"));
    assert!(path_starts_with("/ws/b", "/ws"));
}

#[test]
fn member_path_joins_with_a_separator() {
    assert_eq!(member_path("/ws", "core").as_str(), "/ws/core");
}

#[test]
fn current_directory_inside_a_member_selects_it() {
    // A workspace listing members a and b, resolved from a directory in
    // b's tree, selects b without any selector.
    let mut pool = StringPool::new();
    let a = load_package(&mut pool, "/ws/a", "[package]\nname = \"a\"\n");
    let b = load_package(&mut pool, "/ws/b", "[package]\nname = \"b\"\n");
    let step = Workspace::from_found(
        &mut pool,
        "/ws".to_string(),
        Vec::new(),
        vec![a, b],
        "/ws/b/src",
        None,
    )
    .unwrap();
    match step {
        LoadStep::Done(ws) => {
            assert_eq!(ws.current_member, Some(1));
            assert_eq!(ws.path.as_str(), "/ws");
            assert_eq!(ws.members.len(), 2);
        }
        LoadStep::CheckStandalone(_) => panic!("expected a settled workspace"),
    }
}

#[test]
fn selector_picks_the_named_member() {
    let mut pool = StringPool::new();
    let a = load_package(&mut pool, "/ws/a", "[package]\nname = \"a\"\n");
    let b = load_package(&mut pool, "/ws/b", "[package]\nname = \"b\"\n");
    let step = Workspace::from_found(
        &mut pool,
        "/ws".to_string(),
        Vec::new(),
        vec![a, b],
        "/somewhere/else",
        Some("a".to_string()),
    )
    .unwrap();
    match step {
        LoadStep::Done(ws) => assert_eq!(ws.current_member, Some(0)),
        LoadStep::CheckStandalone(_) => panic!("expected a settled workspace"),
    }
}

#[test]
fn unknown_selector_is_member_not_found() {
    let mut pool = StringPool::new();
    let a = load_package(&mut pool, "/ws/a", "[package]\nname = \"a\"\n");
    let r = Workspace::from_found(
        &mut pool,
        "/ws".to_string(),
        Vec::new(),
        vec![a],
        "/ws/a",
        Some("missing".to_string()),
    );
    match r {
        Err(WorkspaceError::CannotFindMember(name, root)) => {
            assert_eq!(name.as_str(), "missing");
            assert_eq!(root.as_str(), "/ws");
        }
        _ => panic!("expected a member-not-found error"),
    }
}

#[test]
fn directory_outside_every_member_asks_for_the_standalone_check() {
    let mut pool = StringPool::new();
    let a = load_package(&mut pool, "/ws/a", "[package]\nname = \"a\"\n");
    let step = Workspace::from_found(
        &mut pool,
        "/ws".to_string(),
        Vec::new(),
        vec![a],
        "/ws/c",
        None,
    )
    .unwrap();
    assert!(matches!(step, LoadStep::CheckStandalone(_)));
}

#[test]
fn unlisted_package_inside_the_root_is_an_error() {
    // A package manifest inside the workspace root but absent from the
    // members list, with the current directory pointing at it, is fatal.
    let mut pool = StringPool::new();
    let a = load_package(&mut pool, "/ws/a", "[package]\nname = \"a\"\n");
    let step = Workspace::from_found(
        &mut pool,
        "/ws".to_string(),
        Vec::new(),
        vec![a],
        "/ws/c",
        None,
    )
    .unwrap();
    let ws = match step {
        LoadStep::CheckStandalone(ws) => ws,
        LoadStep::Done(_) => panic!("expected the standalone check"),
    };
    let m = parse_manifest(&mut pool, "[package]\nname = \"c\"\n").unwrap();
    let standalone = Workspace::from_first_package(&mut pool, "/ws/c".to_string(), m).unwrap();
    let r = Workspace::check_membership(&mut pool, ws, Some(standalone));
    match r {
        Err(WorkspaceError::PackageNotInWorkspace(pkg, root)) => {
            assert_eq!(pkg.as_str(), "/ws/c");
            assert_eq!(root.as_str(), "/ws");
        }
        _ => panic!("expected a package-not-in-workspace error"),
    }
}

#[test]
fn standalone_package_outside_the_root_is_tolerated() {
    let mut pool = StringPool::new();
    let a = load_package(&mut pool, "/ws/a", "[package]\nname = \"a\"\n");
    let step = Workspace::from_found(
        &mut pool,
        "/ws".to_string(),
        Vec::new(),
        vec![a],
        "/elsewhere/c",
        None,
    )
    .unwrap();
    let ws = match step {
        LoadStep::CheckStandalone(ws) => ws,
        LoadStep::Done(_) => panic!("expected the standalone check"),
    };
    let m = parse_manifest(&mut pool, "[package]\nname = \"c\"\n").unwrap();
    let standalone =
        Workspace::from_first_package(&mut pool, "/elsewhere/c".to_string(), m).unwrap();
    let r = Workspace::check_membership(&mut pool, ws, Some(standalone)).unwrap();
    let ws = r.unwrap();
    assert_eq!(ws.current_member, None);
}

#[test]
fn standalone_package_with_workspace_dependency_is_invalid() {
    // A lone package whose dependency table asks for a workspace member
    // fails at resolution: there is no workspace to satisfy it.
    let mut pool = StringPool::new();
    let m = parse_manifest(
        &mut pool,
        "[package]\nname = \"solo\"\n[dependencies]\nhelper = { workspace = true }\n",
    )
    .unwrap();
    let r = Workspace::from_first_package(&mut pool, "/solo".to_string(), m);
    match r {
        Err(WorkspaceError::InvalidDependency(name, path)) => {
            assert_eq!(name.as_str(), "helper");
            assert_eq!(path.as_str(), "/solo");
        }
        _ => panic!("expected an invalid-dependency error"),
    }
}

#[test]
fn standalone_package_becomes_its_own_workspace() {
    let mut pool = StringPool::new();
    let m = parse_manifest(
        &mut pool,
        "[package]\nname = \"solo\"\n[dependencies]\nlocal = { path = \"../local\" }\n",
    )
    .unwrap();
    let ws = Workspace::from_first_package(&mut pool, "/solo".to_string(), m).unwrap();
    assert_eq!(ws.current_member, Some(0));
    assert_eq!(ws.members.len(), 1);
    assert_eq!(ws.path.as_str(), "/solo");
    assert_eq!(ws.members[0].name.get(&pool).as_str(), "solo");
    assert_eq!(ws.dependencies.len(), 1);
    assert_eq!(ws.dependencies[0].0.get(&pool).as_str(), "local");
}

#[test]
fn workspace_dependency_naming_a_member_is_valid() {
    let mut pool = StringPool::new();
    let a = load_package(
        &mut pool,
        "/ws/a",
        "[package]\nname = \"a\"\n[dependencies]\nb = { workspace = true }\n",
    );
    let b = load_package(&mut pool, "/ws/b", "[package]\nname = \"b\"\n");
    let step = Workspace::from_found(
        &mut pool,
        "/ws".to_string(),
        Vec::new(),
        vec![a, b],
        "/ws/a",
        None,
    )
    .unwrap();
    assert!(matches!(step, LoadStep::Done(_)));
}

#[test]
fn workspace_dependency_naming_no_member_is_invalid() {
    let mut pool = StringPool::new();
    let a = load_package(
        &mut pool,
        "/ws/a",
        "[package]\nname = \"a\"\n[dependencies]\nghost = { workspace = true }\n",
    );
    let r = Workspace::from_found(
        &mut pool,
        "/ws".to_string(),
        Vec::new(),
        vec![a],
        "/ws/a",
        None,
    );
    match r {
        Err(WorkspaceError::InvalidDependency(name, path)) => {
            assert_eq!(name.as_str(), "ghost");
            assert_eq!(path.as_str(), "/ws/a");
        }
        _ => panic!("expected an invalid-dependency error"),
    }
}

#[test]
fn member_load_outcomes_are_shaped() {
    let mut pool = StringPool::new();
    let r = Package::require_loaded(&mut pool, "/ws/gone".to_string(), None);
    match r {
        Err(WorkspaceError::PackageNotFound(p)) => assert_eq!(p.as_str(), "/ws/gone"),
        _ => panic!("expected a package-not-found error"),
    }
    let m = parse_manifest(&mut pool, "[workspace]\nmembers = []\n").unwrap();
    let r = Package::require_loaded(&mut pool, "/ws/nested".to_string(), Some(m));
    match r {
        Err(WorkspaceError::ExpectedPackage(p)) => assert_eq!(p.as_str(), "/ws/nested"),
        _ => panic!("expected an expected-package error"),
    }
}

#[test]
fn expected_package_maps_to_no_standalone() {
    let r: Result<Option<Workspace>, WorkspaceError> =
        Err(WorkspaceError::ExpectedPackage("/ws".to_string()));
    let mapped = Workspace::map_expected_package_to_none(r);
    assert!(matches!(mapped, Ok(None)));
    let other: Result<Option<Workspace>, WorkspaceError> =
        Err(WorkspaceError::PackageNotFound("/x".to_string()));
    assert!(matches!(
        Workspace::map_expected_package_to_none(other),
        Err(WorkspaceError::PackageNotFound(_))
    ));
}
