use near::diagnostic::{
    redact_fields, sensitive_key, DiagnosticDomain, DiagnosticExport, DiagnosticJournal,
    DiagnosticPhase,
};
use near::strmap::StrMap;
use serde_json::Value;

fn fields(pairs: &[(&str, &str)]) -> StrMap<String> {
    let mut map = StrMap::new();
    for (key, value) in pairs {
        map.insert((*key).to_owned(), (*value).to_owned());
    }
    map
}

fn field<'a>(map: &'a StrMap<String>, key: &str) -> &'a str {
    map.get(key).map(String::as_str).unwrap()
}

/// The export as JSON, field by field, as the application writes it.
fn export_json(export: &DiagnosticExport) -> String {
    let mut events = Vec::new();
    for event in &export.events {
        let mut fields = serde_json::Map::new();
        for index in 0..event.fields.len() {
            fields.insert(
                event.fields.key_at(index).clone(),
                Value::String(event.fields.value_at(index).clone()),
            );
        }
        let mut object = serde_json::Map::new();
        object.insert("correlation".to_owned(), Value::from(event.correlation.0));
        object.insert(
            "parent".to_owned(),
            event.parent.map_or(Value::Null, |parent| Value::from(parent.0)),
        );
        object.insert("name".to_owned(), Value::String(event.name.clone()));
        object.insert("fields".to_owned(), Value::Object(fields));
        events.push(Value::Object(object));
    }
    let mut root = serde_json::Map::new();
    root.insert("schema".to_owned(), Value::from(export.schema));
    root.insert("near_version".to_owned(), Value::String(export.near_version.clone()));
    root.insert(
        "capabilities".to_owned(),
        Value::Array(export.capabilities.iter().cloned().map(Value::String).collect()),
    );
    root.insert("events".to_owned(), Value::Array(events));
    serde_json::to_string_pretty(&Value::Object(root)).unwrap()
}

#[test]
fn trace_spans_domains_and_redacts_sensitive_fields() {
    let mut journal = DiagnosticJournal::default();
    let command = journal.begin(DiagnosticDomain::Command, "near.resource.copy", None);
    let task = journal.begin(DiagnosticDomain::Task, "copy", Some(command));
    journal.record(
        task,
        Some(command),
        DiagnosticDomain::Provider,
        DiagnosticPhase::Completed,
        "near.local-fs",
        fields(&[("item-count", "2"), ("source-path", "/private/user/file")]),
    );
    let export = journal.export("0.1.0", &vec!["resource.copy".to_owned(), "resource.read".to_owned()]);
    assert_eq!(export.events.len(), 3);
    assert_eq!(export.events[1].parent, Some(command));
    assert_eq!(field(&export.events[2].fields, "source-path"), "<redacted>");
    assert_eq!(field(&export.events[2].fields, "item-count"), "2");
    assert_eq!(export.near_version, "0.1.0");
    assert_eq!(export.capabilities.len(), 2);
    let json = export_json(&export);
    assert!(json.contains("\"schema\": 1"));
    assert!(!json.contains("/private/user/file"));
}

#[test]
fn correlations_are_numbered_from_one() {
    let mut journal = DiagnosticJournal::default();
    let first = journal.begin(DiagnosticDomain::Operation, "a", None);
    let second = journal.begin(DiagnosticDomain::Plugin, "b", Some(first));
    assert_eq!(first.0, 1);
    assert_eq!(second.0, 2);
    assert_eq!(journal.events()[0].phase, DiagnosticPhase::Started);
    assert_eq!(journal.events()[1].domain, DiagnosticDomain::Plugin);
}

#[test]
fn sensitive_keys_are_recognized_in_any_case() {
    for key in ["Path", "file-CONTENT", "api_token", "Secret", "credentials", "PASSWORD"] {
        assert!(sensitive_key(key), "{key}");
    }
    for key in ["item-count", "name", "pat"] {
        assert!(!sensitive_key(key), "{key}");
    }
    let redacted = redact_fields(fields(&[("Token", "abc"), ("size", "3")]));
    assert_eq!(field(&redacted, "Token"), "<redacted>");
    assert_eq!(field(&redacted, "size"), "3");
    assert_eq!(redacted.len(), 2);
}
