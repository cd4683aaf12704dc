use apollo_p2p_sync::manifest::{CrateCargoToml, Dependency, LocalCrate, RootCargoToml};

/// The manifest of this crate, which is its own workspace: its one member is
/// itself, and it takes its dependencies from the registry.
fn root_toml() -> RootCargoToml {
    let dependencies = vec![
        Dependency { name: "futures".to_string(), version: Some("0.3".to_string()), path: None },
        Dependency { name: "tokio".to_string(), version: Some("1".to_string()), path: None },
    ];
    RootCargoToml {
        members: vec![".".to_string()],
        workspace_version: "0.1.0".to_string(),
        workspace_dependencies: dependencies.clone(),
        member_cargo_tomls: vec![CrateCargoToml { dependencies }],
    }
}

#[test]
fn test_path_dependencies_are_members() {
    let root = root_toml();
    let non_member_path_crates: Vec<LocalCrate> = root
        .workspace_path_dependencies()
        .into_iter()
        .filter(|LocalCrate { path, .. }| !root.members().contains(path))
        .collect();
    assert!(
        non_member_path_crates.is_empty(),
        "The following crates are path dependencies but not members of the workspace: {non_member_path_crates:?}."
    );
}

#[test]
fn test_version_alignment() {
    let root = root_toml();
    let workspace_version = root.workspace_version();
    let crates_with_incorrect_version: Vec<LocalCrate> = root
        .workspace_path_dependencies()
        .into_iter()
        .filter(|LocalCrate { version, .. }| version != workspace_version)
        .collect();
    assert!(
        crates_with_incorrect_version.is_empty(),
        "The following crates have versions different from the workspace version '{workspace_version}': \
         {crates_with_incorrect_version:?}."
    );
}

#[test]
fn validate_no_path_dependencies() {
    let root = root_toml();
    let mut all_crate_paths: Vec<LocalCrate> = Vec::new();
    for crate_cargo_toml in root.member_cargo_tomls().iter() {
        if crate_cargo_toml.has_dependencies() {
            let crate_paths: Vec<LocalCrate> = crate_cargo_toml.crate_path_dependencies();
            all_crate_paths.extend(crate_paths);
        } else {
            println!("No dependencies exist");
        }
        assert!(all_crate_paths.is_empty(), "The following crates have path dependency {all_crate_paths:?}.");
    }
}

#[test]
fn path_dependencies_are_found_in_order() {
    let member = CrateCargoToml {
        dependencies: vec![
            Dependency { name: "a".to_string(), version: Some("1.0.0".to_string()), path: Some("crates/a".to_string()) },
            Dependency { name: "b".to_string(), version: Some("2".to_string()), path: None },
            Dependency { name: "c".to_string(), version: None, path: Some("crates/c".to_string()) },
        ],
    };
    assert!(member.has_dependencies());
    assert!(!CrateCargoToml { dependencies: vec![] }.has_dependencies());
    assert_eq!(
        member.crate_path_dependencies(),
        vec![
            LocalCrate { name: "a".to_string(), path: "crates/a".to_string(), version: "1.0.0".to_string() },
            LocalCrate { name: "c".to_string(), path: "crates/c".to_string(), version: String::new() },
        ]
    );
}
