use near::apply_command::{ApplyCommandTarget, ApplyCommandTemplate, ApplyCommandTemplateError};
use near::ids::ProviderId;
use near::resource::{Location, ResourceMetadata, ResourceRef};

fn target(label: &str, resource: &str, name: &str) -> ApplyCommandTarget {
    ApplyCommandTarget {
        label: label.to_owned(),
        resource_argument: resource.to_owned(),
        name_argument: name.to_owned(),
    }
}

#[test]
fn sequential_expansion_preserves_prequoted_arguments() {
    let template = ApplyCommandTemplate::parse(
        "tool --root {panel} --input {resource} --name {name} --literal {{ok}}".to_owned(),
    )
    .unwrap();
    let command =
        template.expand_sequential(&target("a b.txt", "'/tmp/a b.txt'", "'a b.txt'"), "'/tmp'");
    assert_eq!(
        command,
        "tool --root '/tmp' --input '/tmp/a b.txt' --name 'a b.txt' --literal {ok}"
    );
}

#[test]
fn batch_expansion_uses_one_structured_argument_per_target() {
    let template = ApplyCommandTemplate::parse("tool {resources}".to_owned()).unwrap();
    let command = template
        .expand_batch(
            &[
                target("one", "'/tmp/one file'", "one"),
                target("two", "'/tmp/two file'", "two"),
            ],
            "'/tmp'",
        )
        .unwrap();
    assert_eq!(command, "tool '/tmp/one file' '/tmp/two file'");
}

#[test]
fn batch_expansion_rejects_ambiguous_per_item_placeholders() {
    let template = ApplyCommandTemplate::parse("tool {resource}".to_owned()).unwrap();
    assert_eq!(
        template.expand_batch(&[target("one", "one", "one")], "/tmp"),
        Err(ApplyCommandTemplateError::SequentialPlaceholderInBatch("resource"))
    );
}

#[test]
fn compact_display_decodes_local_paths_without_changing_remote_locations() {
    assert_eq!(
        Location::new("file:///Users/test/My%20Files").display_compact(),
        "/Users/test/My Files"
    );
    assert_eq!(Location::new("sftp://host/path").display_compact(), "sftp://host/path");
}

#[test]
fn durable_identity_is_provider_scoped_and_ignores_display_location() {
    let metadata = ResourceMetadata {
        name: "display name".to_owned(),
        stable_id: Some("device:42:inode:7".to_owned()),
        ..ResourceMetadata::default()
    };
    let before = ResourceRef {
        provider: ProviderId::new("near.local-file"),
        location: Location::new("file:///before.txt"),
    };
    let after = ResourceRef {
        provider: ProviderId::new("near.local-file"),
        location: Location::new("file:///after.txt"),
    };
    assert_eq!(metadata.identity_for(&before), metadata.identity_for(&after));
    let identity = metadata.identity_for(&before).unwrap();
    assert_eq!(identity.provider().as_str(), "near.local-file");
    assert_eq!(identity.stable_id(), "device:42:inode:7");
}

#[test]
fn template_parse_reports_errors() {
    assert_eq!(ApplyCommandTemplate::parse("".to_owned()), Err(ApplyCommandTemplateError::Empty));
    assert_eq!(
        ApplyCommandTemplate::parse("tool {resource".to_owned()),
        Err(ApplyCommandTemplateError::UnclosedPlaceholder)
    );
    assert_eq!(
        ApplyCommandTemplate::parse("tool {other}".to_owned()),
        Err(ApplyCommandTemplateError::UnknownPlaceholder("other".to_owned()))
    );
}

#[test]
fn compact_display_of_invalid_escape_keeps_text() {
    assert_eq!(Location::new("file:///a%2").display_compact(), "/a%2");
}

fn descriptor(arguments: near::strmap::StrMap<near::command::ArgumentSchema>) -> near::command::CommandDescriptor {
    near::command::CommandDescriptor {
        id: near::ids::CommandId::new("test.command"),
        title: "Test command".to_owned(),
        description: "Test command discoverability".to_owned(),
        category: vec!["Test".to_owned()],
        safety: near::command::SafetyClass::ReadOnly,
        arguments,
    }
}

fn one_argument(name: &str, required: bool, description: &str) -> near::strmap::StrMap<near::command::ArgumentSchema> {
    let mut arguments = near::strmap::StrMap::new();
    arguments.insert(
        name.to_owned(),
        near::command::ArgumentSchema {
            kind: near::command::ArgumentKind::String,
            required,
            description: description.to_owned(),
            default: None,
        },
    );
    arguments
}

#[test]
fn argument_free_invocation_requires_no_required_arguments() {
    assert!(descriptor(near::strmap::StrMap::new()).invokable_without_arguments());
    assert!(descriptor(one_argument("optional", false, "Optional value")).invokable_without_arguments());
    assert!(!descriptor(one_argument("required", true, "Required value")).invokable_without_arguments());
}
