use near::config::{
    ConfigEngine, ConfigErrorKind, ConfigLayer, ConfigLayerKind, ConfigManager, ConfigMigrate,
    ConfigMigration, ConfigValue,
};
use near::config_text::{assignment_positions, line_column};

fn layer(kind: ConfigLayerKind, source: &str, value: &str) -> ConfigLayer {
    ConfigLayer::new(kind, source, &format!("schema = 1\nvalue = {value}\n"))
}

fn get<'a>(value: &'a ConfigValue, key: &str) -> Option<&'a ConfigValue> {
    match value {
        ConfigValue::Table(entries) => entries.iter().find(|(k, _)| k == key).map(|(_, v)| v),
        _ => None,
    }
}

fn integer(value: Option<&ConfigValue>) -> Option<i64> {
    match value {
        Some(ConfigValue::Integer(i)) => Some(*i),
        _ => None,
    }
}

#[test]
fn all_six_layers_resolve_deterministically_with_winning_origin() {
    let layers = vec![
        layer(ConfigLayerKind::Cli, "cli", "6"),
        layer(ConfigLayerKind::BuiltIn, "builtin", "1"),
        layer(ConfigLayerKind::Workspace, "workspace", "5").trusted(),
        layer(ConfigLayerKind::Plugin, "plugin", "3"),
        layer(ConfigLayerKind::User, "user", "4"),
        layer(ConfigLayerKind::Platform, "platform", "2"),
    ];
    let effective = ConfigEngine::default().resolve(layers).unwrap();
    assert_eq!(integer(get(effective.value(), "value")), Some(6));
    assert_eq!(effective.origin("value").unwrap().source, "cli");
    assert_eq!(effective.origin("value").unwrap().line, 2);
}

#[test]
fn plugin_priority_and_source_name_break_ties_deterministically() {
    let effective = ConfigEngine::default()
        .resolve(vec![
            layer(ConfigLayerKind::Plugin, "z-plugin", "2").with_priority(5),
            layer(ConfigLayerKind::Plugin, "a-plugin", "1").with_priority(5),
        ])
        .unwrap();
    assert_eq!(integer(get(effective.value(), "value")), Some(2));
    assert_eq!(effective.origin("value").unwrap().source, "z-plugin");
}

#[test]
fn invalid_hot_reload_retains_last_valid_configuration_and_position() {
    let mut manager = ConfigManager::new(
        ConfigEngine::default(),
        vec![layer(ConfigLayerKind::BuiltIn, "builtin.toml", "1")],
    )
    .ok()
    .unwrap();
    let error = manager
        .reload(vec![ConfigLayer::new(ConfigLayerKind::User, "user.toml", "schema = 1\nvalue = [\n")])
        .unwrap_err();
    assert!(error.retained_last_valid);
    assert_eq!(integer(get(manager.current().value(), "value")), Some(1));
    assert_eq!(error.error.source, "user.toml");
    assert_eq!(error.error.line, 2);
}

#[test]
fn untrusted_workspace_layer_is_rejected() {
    let error = ConfigEngine::default()
        .resolve(vec![layer(ConfigLayerKind::Workspace, ".near/config.toml", "5")])
        .err()
        .unwrap();
    assert_eq!(error.kind, ConfigErrorKind::UntrustedWorkspace);
}

struct RenameOldName;

impl ConfigMigrate for RenameOldName {
    fn migrate(&self, value: ConfigValue) -> Result<ConfigValue, String> {
        let ConfigValue::Table(mut entries) = value else {
            return Err("root must be a table".to_owned());
        };
        let index = entries
            .iter()
            .position(|(k, _)| k == "old_name")
            .ok_or_else(|| "old_name is required".to_owned())?;
        let (_, old) = entries.remove(index);
        entries.push(("new_name".to_owned(), old));
        Ok(ConfigValue::Table(entries))
    }
}

#[test]
fn registered_migration_updates_old_fixture_and_records_origin() {
    let engine = ConfigEngine::default().with_migration(ConfigMigration::new(0, 1, Box::new(RenameOldName)));
    let effective = engine
        .resolve(vec![ConfigLayer::new(
            ConfigLayerKind::User,
            "v0.toml",
            "schema = 0\nold_name = \"migrated\"\n",
        )])
        .ok()
        .unwrap();
    assert_eq!(get(effective.value(), "new_name"), Some(&ConfigValue::String("migrated".to_owned())));
    assert_eq!(effective.origin("new_name").unwrap().migrated_from, Some(0));
    assert_eq!(integer(get(effective.value(), "schema")), Some(1));
}

#[test]
fn schema_errors_point_at_the_schema_assignment() {
    let error = ConfigEngine::default()
        .resolve(vec![ConfigLayer::new(ConfigLayerKind::User, "u.toml", "value = 1\n  schema = 7\n")])
        .err()
        .unwrap();
    assert_eq!(error.kind, ConfigErrorKind::UnsupportedSchema);
    assert_eq!(error.message, "schema 7 is newer than supported schema 1");
    assert_eq!((error.line, error.column), (2, 3));
    assert_eq!(error.field.as_deref(), Some("schema"));
    let missing = ConfigEngine::default()
        .resolve(vec![ConfigLayer::new(ConfigLayerKind::User, "u.toml", "value = 1\n")])
        .err()
        .unwrap();
    assert_eq!(missing.kind, ConfigErrorKind::MissingSchema);
    assert_eq!(missing.text(), "u.toml:1:1: missing schema (field schema)");
}

#[test]
fn nested_tables_merge_and_replaced_tables_drop_origins() {
    let effective = ConfigEngine::default()
        .resolve(vec![
            ConfigLayer::new(ConfigLayerKind::BuiltIn, "base", "schema = 1\n[a]\nx = 1\ny = 2\n"),
            ConfigLayer::new(ConfigLayerKind::User, "user", "schema = 1\n[a]\ny = 3\n"),
            ConfigLayer::new(ConfigLayerKind::Cli, "cli", "schema = 1\nb = 4\n"),
        ])
        .ok()
        .unwrap();
    assert_eq!(effective.origin("a.x").unwrap().source, "base");
    assert_eq!(effective.origin("a.y").unwrap().source, "user");
    assert_eq!(effective.origin("a.y").unwrap().line, 3);
    assert_eq!(effective.origin("b").unwrap().source, "cli");
    let replaced = ConfigEngine::default()
        .resolve(vec![
            ConfigLayer::new(ConfigLayerKind::BuiltIn, "base", "schema = 1\n[a]\nx = 1\n"),
            ConfigLayer::new(ConfigLayerKind::User, "user", "schema = 1\na = 5\n"),
        ])
        .ok()
        .unwrap();
    assert!(replaced.origin("a.x").is_none());
    assert_eq!(replaced.origin("a").unwrap().source, "user");
}

#[test]
fn positions_and_line_columns() {
    let positions = assignment_positions("schema = 1\n[table]\n  key = 2\n\"quoted\" = 3\n[[list]]\n");
    assert_eq!(positions.get("schema"), Some(&(1, 1)));
    assert_eq!(positions.get("table"), Some(&(2, 1)));
    assert_eq!(positions.get("table.key"), Some(&(3, 3)));
    assert_eq!(positions.get("table.quoted"), Some(&(4, 1)));
    assert_eq!(positions.get("list"), Some(&(5, 1)));
    assert_eq!(line_column("ab\ncd\nef", 7), (3, 2));
    assert_eq!(line_column("ab", 99), (1, 3));
}
