use near::command_line::CommandLineArgumentResolver;
use near::ids::ProviderId;
use near::local_fs::{native_path_from_text, LocalFileProvider, NativePath, PathStyle};
use near::local_stores::{
    check_stored_schema, is_valid_document_name, LocalCommandLineArgumentResolver,
    shortcut_entries, shortcut_slots, LocalStateDocumentStore, StoredDocument,
};
use near::navigation::FolderLocationEntry;
use near::resource::{Location, ResourceRef};

#[test]
fn command_line_arguments_quote_native_paths_and_reject_virtual_providers() {
    let resolver = LocalCommandLineArgumentResolver::new(PathStyle::Unix);
    let folder = native_path_from_text(PathStyle::Unix, "/tmp/near-fixture");
    let file = native_path_from_text(PathStyle::Unix, "/tmp/near-fixture/two words'file.txt");
    let location = LocalFileProvider::location(&folder);
    let resource = ResourceRef {
        provider: ProviderId::new("near.local-fs"),
        location: LocalFileProvider::location(&file),
    };
    assert_eq!(
        resolver.location_argument(&location).unwrap(),
        resolver.quote_text("/tmp/near-fixture")
    );
    assert_eq!(
        resolver.resource_argument(&resource).unwrap(),
        resolver.quote_text("/tmp/near-fixture/two words'file.txt")
    );
    let virtual_resource = ResourceRef {
        provider: ProviderId::new("near.virtual"),
        location: Location::new("virtual:///item"),
    };
    assert!(resolver
        .resource_argument(&virtual_resource)
        .unwrap_err()
        .contains("no native command-line path"));
    assert_eq!(resolver.quote_text("plain/name-1.txt"), "plain/name-1.txt");
    assert_eq!(resolver.quote_text("it's here"), "'it'\\''s here'");
    assert_eq!(
        resolver.location_argument(&Location::new("file:///tmp/a%20b")),
        Ok("'/tmp/a b'".to_owned())
    );
    assert_eq!(
        resolver.location_argument(&Location::new("archive:///x")),
        Err("provider location archive:///x has no native command-line path".to_owned())
    );
    assert_eq!(
        resolver.location_argument(&Location::new("file:///bad%ff")),
        Err("native path cannot be represented in the command shell encoding".to_owned())
    );
    let remote = ResourceRef {
        provider: ProviderId::new("near.sftp"),
        location: Location::new("sftp://host/x"),
    };
    assert_eq!(
        resolver.resource_argument(&remote),
        Err("provider near.sftp has no native command-line path".to_owned())
    );
    let local = ResourceRef {
        provider: ProviderId::new("near.local-fs"),
        location: Location::new("file:///srv/data"),
    };
    assert_eq!(resolver.resource_argument(&local), Ok("/srv/data".to_owned()));
    assert_eq!(
        resolver.native_working_directory(&Location::new("file:///srv")),
        Ok(Some("/srv".to_owned()))
    );
    assert!(resolver
        .native_working_directory(&Location::new("virtual:///srv"))
        .is_err());
}

#[test]
fn state_document_names_are_single_file_names() {
    assert!(is_valid_document_name(PathStyle::Unix, "session.toml"));
    assert!(is_valid_document_name(PathStyle::Unix, "session.toml/"));
    assert!(!is_valid_document_name(PathStyle::Unix, ""));
    assert!(!is_valid_document_name(PathStyle::Unix, "."));
    assert!(!is_valid_document_name(PathStyle::Unix, ".."));
    assert!(!is_valid_document_name(PathStyle::Unix, "./a"));
    assert!(!is_valid_document_name(PathStyle::Unix, "a/b"));
    assert!(!is_valid_document_name(PathStyle::Unix, "/a"));
    assert!(!is_valid_document_name(PathStyle::Windows, "C:a"));
    assert!(!is_valid_document_name(PathStyle::Windows, "a\\b"));
}

#[test]
fn state_document_paths_join_the_root() {
    let store = LocalStateDocumentStore::new(native_path_from_text(PathStyle::Unix, "/state"));
    assert_eq!(
        store.document_path("panels.toml"),
        Ok(NativePath::Unix(b"/state/panels.toml".to_vec()))
    );
    assert_eq!(
        store.document_path("../escape.toml"),
        Err("invalid state document name: ../escape.toml".to_owned())
    );
    let drive = LocalStateDocumentStore::new(native_path_from_text(PathStyle::Windows, "C:"));
    assert_eq!(
        drive.document_path("a"),
        Ok(native_path_from_text(PathStyle::Windows, "C:a"))
    );
    let folder = LocalStateDocumentStore::new(native_path_from_text(PathStyle::Windows, "C:\\s"));
    assert_eq!(
        folder.document_path("a"),
        Ok(native_path_from_text(PathStyle::Windows, "C:\\s\\a"))
    );
}

#[test]
fn stored_documents_are_read_only_at_schema_one() {
    assert_eq!(check_stored_schema(StoredDocument::CommandHistory, 1), Ok(()));
    assert_eq!(
        check_stored_schema(StoredDocument::CommandHistory, 2),
        Err("unsupported command history schema 2".to_owned())
    );
    assert_eq!(
        check_stored_schema(StoredDocument::ViewerState, 10),
        Err("unsupported viewer state schema 10".to_owned())
    );
    assert_eq!(
        check_stored_schema(StoredDocument::FolderNavigation, 0),
        Err("unsupported folder navigation schema 0".to_owned())
    );
}

fn folder(label: &str) -> FolderLocationEntry {
    FolderLocationEntry::new(
        ProviderId::new("near.local-fs"),
        Location::new(&format!("file:///{label}")),
        label.to_owned(),
    )
}

#[test]
fn folder_shortcuts_fill_ten_slots_and_round_trip() {
    let slots = shortcut_slots(vec![
        (3, folder("first")),
        (12, folder("ignored")),
        (3, folder("second")),
        (0, folder("zero")),
    ]);
    assert_eq!(slots.len(), 10);
    assert_eq!(slots[0], Some(folder("zero")));
    assert_eq!(slots[3], Some(folder("second")));
    assert_eq!(slots.iter().filter(|slot| slot.is_some()).count(), 2);
    let stored = shortcut_entries(slots.clone());
    assert_eq!(stored, vec![(0, folder("zero")), (3, folder("second"))]);
    assert_eq!(shortcut_slots(stored), slots);
}
