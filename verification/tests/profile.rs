use near::config::{ConfigLayer, ConfigLayerKind, ConfigValue};
use near::profile::{
    check_manifest, config_engine, validate_manifest_files, AtomicSettingsDocumentStore, ConfigArguments,
    ProfileRoots, ProfileTransfer, DOCUMENTS,
};
use near::strmap::StrMap;

fn args(list: &[&str]) -> Vec<Option<String>> {
    list.iter().map(|a| Some((*a).to_owned())).collect()
}

#[test]
fn all_shipped_document_names_are_stable() {
    assert_eq!(
        DOCUMENTS,
        [
            "keymap.toml",
            "theme.toml",
            "confirmations.toml",
            "handlers.toml",
            "macros.toml",
            "panel-modes.toml",
            "editor.toml",
            "history.toml",
            "interface.toml",
            "highlighting.toml",
            "user-menu.toml",
            "descriptions.toml",
            "filters.toml",
            "connections.toml",
            "shell.toml",
            "viewer.toml",
        ]
    );
}

#[test]
fn atomic_settings_store_rejects_unmapped_documents() {
    let store = AtomicSettingsDocumentStore { paths: StrMap::new() };
    assert!(store.persist("viewer.toml", "schema = 1\n").is_err());
}

#[test]
fn command_line_configuration_overrides_are_explicit() {
    let parsed = ConfigArguments::parse(args(&["--theme", "custom.toml", "--trust-workspace"]), &StrMap::new(), "/work").unwrap();
    assert_eq!(parsed.override_path("theme.toml").map(String::as_str), Some("custom.toml"));
    assert!(parsed.trust_workspace);
}

#[test]
fn portable_mode_redirects_both_roots_and_profile_actions_are_exclusive() {
    let parsed = ConfigArguments::parse(
        args(&["--portable", "portable-profile", "--export-profile", "bundle"]),
        &StrMap::new(),
        "/work",
    )
    .unwrap();
    assert_eq!(parsed.config_root.as_deref(), Some("/work/portable-profile/config"));
    assert_eq!(parsed.data_root.as_deref(), Some("/work/portable-profile/state"));
    assert!(matches!(parsed.transfer, Some(ProfileTransfer::Export(_))));
    let error = ConfigArguments::parse(
        args(&["--export-profile", "one", "--import-profile", "two"]),
        &StrMap::new(),
        "/work",
    )
    .err()
    .unwrap();
    assert!(error.contains("only one profile"));
}

#[test]
fn argument_errors_and_environment_overrides() {
    assert_eq!(
        ConfigArguments::parse(args(&["--bogus"]), &StrMap::new(), "/work").err(),
        Some("unknown near-fm argument: --bogus".to_owned())
    );
    assert_eq!(
        ConfigArguments::parse(args(&["--theme"]), &StrMap::new(), "/work").err(),
        Some("--theme requires a path".to_owned())
    );
    assert_eq!(
        ConfigArguments::parse(vec![None], &StrMap::new(), "/work").err(),
        Some("configuration arguments must be valid Unicode".to_owned())
    );
    let mut env = StrMap::new();
    env.insert("NEAR_THEME".to_owned(), "env-theme.toml".to_owned());
    env.insert("NEAR_KEYMAP".to_owned(), "env-keys.toml".to_owned());
    env.insert("NEAR_TRUST_WORKSPACE".to_owned(), "1".to_owned());
    let parsed = ConfigArguments::parse(args(&["--theme", "cli.toml"]), &env, "/work").unwrap();
    assert_eq!(parsed.override_path("theme.toml").map(String::as_str), Some("cli.toml"));
    assert_eq!(parsed.override_path("keymap.toml").map(String::as_str), Some("env-keys.toml"));
    assert!(parsed.trust_workspace);
}

#[test]
fn writable_store_maps_documents_to_root_and_overrides() {
    let parsed = ConfigArguments::parse(args(&["--config-root", "/cfg", "--viewer", "/tmp/v.toml"]), &StrMap::new(), "/work").unwrap();
    let store = AtomicSettingsDocumentStore::new(&parsed, None).unwrap();
    let write = store.persist("keymap.toml", "x").unwrap();
    assert_eq!(write.path, "/cfg/keymap.toml");
    assert_eq!(write.contents, "x");
    let provenance = store.provenance("viewer.toml").unwrap();
    assert_eq!(provenance.layer, ConfigLayerKind::Cli);
    assert_eq!(provenance.source, "/tmp/v.toml");
    assert!(store.load("theme.toml").is_err());
    assert!(AtomicSettingsDocumentStore::new(&ConfigArguments::default(), None).is_none());
    let roots = ProfileRoots::portable("/p/", "/work");
    assert_eq!(roots.config, "/p/config");
}

#[test]
fn profile_manifest_checks() {
    assert!(check_manifest(1, "near-fm").is_ok());
    assert_eq!(check_manifest(2, "other").err(), Some("unsupported profile other schema 2".to_owned()));
    assert!(validate_manifest_files(&["keymap.toml".to_owned()], &["keymap.toml"], "configuration").is_ok());
    assert_eq!(
        validate_manifest_files(&["evil.toml".to_owned()], &["keymap.toml"], "state").err(),
        Some("profile contains unsupported state file evil.toml".to_owned())
    );
}

#[test]
fn macro_configuration_migrates_schema_one_to_binding_schema_two() {
    let effective = config_engine("macros.toml")
        .resolve(vec![ConfigLayer::new(
            ConfigLayerKind::BuiltIn,
            "macros-v1.toml",
            "schema = 1\nmacros = []\n",
        )])
        .unwrap();
    let schema = match effective.value() {
        ConfigValue::Table(entries) => entries
            .iter()
            .find(|(key, _)| key == "schema")
            .and_then(|(_, value)| match value {
                ConfigValue::Integer(number) => Some(*number),
                _ => None,
            }),
        _ => None,
    };
    assert_eq!(schema, Some(2));
}

#[test]
fn profile_roots_resolve_against_the_current_directory() {
    let roots = ProfileRoots::resolve(None, None, Some("/home/u/.config/near"), "/home/u/.local/share/near", "/work");
    assert_eq!(roots.config, "/home/u/.config/near");
    assert_eq!(roots.data, "/home/u/.local/share/near");
    let roots = ProfileRoots::resolve(Some("cfg"), Some("state"), None, "/data", "/work");
    assert_eq!(roots.config, "/work/cfg");
    assert_eq!(roots.data, "/work/state");
    let roots = ProfileRoots::resolve(None, None, None, "/data", "/work");
    assert_eq!(roots.config, "/data/config");
    assert_eq!(roots.data, "/data");
}
