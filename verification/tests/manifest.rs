use doggo_core::interner::StringPool;
use doggo_core::manifest::parse_manifest;
use doggo_core::manifest::Dependency;
use doggo_core::manifest::ManifestError;
use doggo_core::manifest::ManifestKind;
use doggo_core::manifest::PackageKind;

#[test]
fn package_manifest_parses_with_defaults() {
    let mut pool = StringPool::new();
    let m = parse_manifest(&mut pool, "[package]\nname = \"demo\"\n").unwrap();
    match &m.kind {
        ManifestKind::Package(p) => {
            assert_eq!(p.name.get(&pool).as_str(), "demo");
            assert_eq!(p.output, PackageKind::Executable);
            assert!(!p.lto);
        }
        ManifestKind::Workspace(_) => panic!("expected a package manifest"),
    }
    assert!(m.dependencies.is_empty());
}

#[test]
fn package_manifest_parses_output_and_lto() {
    let mut pool = StringPool::new();
    let m = parse_manifest(
        &mut pool,
        "[package]\nname = \"libdemo\"\noutput = \"staticlib\"\nlto = true\n",
    )
    .unwrap();
    match &m.kind {
        ManifestKind::Package(p) => {
            assert_eq!(p.output, PackageKind::StaticLibrary);
            assert!(p.lto);
        }
        ManifestKind::Workspace(_) => panic!("expected a package manifest"),
    }
}

#[test]
fn output_aliases_are_accepted() {
    for (alias, kind) in [
        ("executable", PackageKind::Executable),
        ("exe", PackageKind::Executable),
        ("staticlib", PackageKind::StaticLibrary),
        ("static", PackageKind::StaticLibrary),
        ("dynamiclib", PackageKind::DynamicLibrary),
        ("dynamic", PackageKind::DynamicLibrary),
        ("dylib", PackageKind::DynamicLibrary),
        ("so", PackageKind::DynamicLibrary),
        ("dll", PackageKind::DynamicLibrary),
    ] {
        let mut pool = StringPool::new();
        let text = format!("[package]\nname = \"x\"\noutput = \"{}\"\n", alias);
        let m = parse_manifest(&mut pool, &text).unwrap();
        match &m.kind {
            ManifestKind::Package(p) => assert_eq!(p.output, kind),
            ManifestKind::Workspace(_) => panic!("expected a package manifest"),
        }
    }
}

#[test]
fn unknown_output_alias_is_a_parse_error() {
    let mut pool = StringPool::new();
    let r = parse_manifest(&mut pool, "[package]\nname = \"x\"\noutput = \"sharedlib\"\n");
    assert!(matches!(r, Err(ManifestError::Toml(_))));
}

#[test]
fn missing_name_is_a_parse_error() {
    let mut pool = StringPool::new();
    let r = parse_manifest(&mut pool, "[package]\nlto = true\n");
    assert!(matches!(r, Err(ManifestError::Toml(_))));
}

#[test]
fn malformed_toml_is_a_parse_error() {
    let mut pool = StringPool::new();
    let r = parse_manifest(&mut pool, "[package\nname = \"x\"");
    assert!(matches!(r, Err(ManifestError::Toml(_))));
}

#[test]
fn both_package_and_workspace_are_rejected() {
    let mut pool = StringPool::new();
    let r = parse_manifest(
        &mut pool,
        "[package]\nname = \"x\"\n[workspace]\nmembers = []\n",
    );
    assert!(matches!(r, Err(ManifestError::Toml(_))));
}

#[test]
fn neither_package_nor_workspace_is_rejected() {
    let mut pool = StringPool::new();
    let r = parse_manifest(&mut pool, "[dependencies]\n");
    assert!(matches!(r, Err(ManifestError::Toml(_))));
}

#[test]
fn lto_of_the_wrong_type_is_rejected() {
    let mut pool = StringPool::new();
    let r = parse_manifest(&mut pool, "[package]\nname = \"x\"\nlto = \"yes\"\n");
    assert!(matches!(r, Err(ManifestError::Toml(_))));
}

#[test]
fn workspace_manifest_keeps_member_order() {
    let mut pool = StringPool::new();
    let m = parse_manifest(
        &mut pool,
        "[workspace]\nmembers = [\"app\", \"core\", \"util\"]\n",
    )
    .unwrap();
    match &m.kind {
        ManifestKind::Workspace(w) => {
            let names: Vec<String> = w
                .members
                .iter()
                .map(|h| h.get(&pool).clone())
                .collect();
            assert_eq!(names, vec!["app", "core", "util"]);
        }
        ManifestKind::Package(_) => panic!("expected a workspace manifest"),
    }
}

#[test]
fn workspace_members_default_to_empty() {
    let mut pool = StringPool::new();
    let m = parse_manifest(&mut pool, "[workspace]\n").unwrap();
    match &m.kind {
        ManifestKind::Workspace(w) => assert!(w.members.is_empty()),
        ManifestKind::Package(_) => panic!("expected a workspace manifest"),
    }
}

#[test]
fn dependencies_parse_both_forms() {
    let mut pool = StringPool::new();
    let m = parse_manifest(
        &mut pool,
        "[package]\nname = \"x\"\n[dependencies]\nbare = \"1.2\"\nrich = { path = \"../rich\", version = \"0.3\", features = [\"fast\", \"small\"], workspace = true }\n",
    )
    .unwrap();
    assert_eq!(m.dependencies.len(), 2);
    let mut found_bare = false;
    let mut found_rich = false;
    for (name, dep) in &m.dependencies {
        match name.get(&pool).as_str() {
            "bare" => {
                found_bare = true;
                match dep {
                    Dependency::Simple(spec) => assert_eq!(spec.get(&pool).as_str(), "1.2"),
                    Dependency::Complex { .. } => panic!("expected the simple form"),
                }
            }
            "rich" => {
                found_rich = true;
                match dep {
                    Dependency::Simple(_) => panic!("expected the richer form"),
                    Dependency::Complex {
                        path,
                        version,
                        workspace,
                        features,
                    } => {
                        assert_eq!(path.as_ref().unwrap().get(&pool).as_str(), "../rich");
                        assert_eq!(version.as_ref().unwrap().get(&pool).as_str(), "0.3");
                        assert!(*workspace);
                        let fs: Vec<String> =
                            features.iter().map(|h| h.get(&pool).clone()).collect();
                        assert_eq!(fs, vec!["fast", "small"]);
                    }
                }
            }
            other => panic!("unexpected dependency name {}", other),
        }
    }
    assert!(found_bare && found_rich);
}

#[test]
fn dependency_defaults_are_applied() {
    let mut pool = StringPool::new();
    let m = parse_manifest(
        &mut pool,
        "[package]\nname = \"x\"\n[dependencies]\nlocal = { path = \"../local\" }\n",
    )
    .unwrap();
    match &m.dependencies[0].1 {
        Dependency::Complex {
            path,
            version,
            workspace,
            features,
        } => {
            assert!(path.is_some());
            assert!(version.is_none());
            assert!(!*workspace);
            assert!(features.is_empty());
        }
        Dependency::Simple(_) => panic!("expected the richer form"),
    }
}

#[test]
fn unknown_dependency_keys_are_ignored() {
    let mut pool = StringPool::new();
    let m = parse_manifest(
        &mut pool,
        "[package]\nname = \"x\"\n[dependencies]\nd = { git = \"nowhere\" }\n",
    )
    .unwrap();
    assert!(matches!(m.dependencies[0].1, Dependency::Complex { .. }));
}

#[test]
fn unknown_package_keys_are_ignored() {
    let mut pool = StringPool::new();
    let m = parse_manifest(&mut pool, "[package]\nname = \"x\"\nauthors = []\n").unwrap();
    assert!(matches!(m.kind, ManifestKind::Package(_)));
}

#[test]
fn unknown_top_level_key_is_rejected() {
    let mut pool = StringPool::new();
    let r = parse_manifest(&mut pool, "[package]\nname = \"x\"\n[profile]\nopt = \"2\"\n");
    assert!(matches!(r, Err(ManifestError::Toml(_))));
}

#[test]
fn interned_names_are_shared_across_the_manifest() {
    // The same content appearing twice lands on the same interner slot.
    let mut pool = StringPool::new();
    let m = parse_manifest(
        &mut pool,
        "[package]\nname = \"same\"\n[dependencies]\nsame = \"1\"\n",
    )
    .unwrap();
    match &m.kind {
        ManifestKind::Package(p) => {
            assert_eq!(p.name, m.dependencies[0].0);
        }
        ManifestKind::Workspace(_) => panic!("expected a package manifest"),
    }
}
