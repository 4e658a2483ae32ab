use near::archive::{
    addition_item, extraction_plan, extraction_source, hex_decode, kept_entries, normalize_inner,
    numbered, refuses_move, safe_zip_path, transfer_kind, ArchiveAddress, ArchiveEntryFacts,
    ArchiveIndex, ArchiveParent, ArchiveTransfer, ZipArchiveProvider,
};
use near::execution::OperationIntent;
use near::ids::{CapabilityId, ProviderId};
use near::local_fs::{hex_encode, PathStyle};
use near::provider::{CancellationToken, ListRequest, ListingGeneration, ProviderError};
use near::resource::{Location, ResourceKind, ResourceRef};

fn entry(name: Option<&str>, directory: bool, size: u64) -> ArchiveEntryFacts {
    ArchiveEntryFacts {
        enclosed_name: name.map(|n| n.to_owned()),
        directory,
        size,
        compressed_size: size / 2,
        unix_mode: None,
    }
}

/// The entries of the fixture archive: a folder, a nested file, a root file and an entry
/// whose name escapes the archive.
fn fixture_entries() -> Vec<ArchiveEntryFacts> {
    vec![
        entry(Some("folder/"), true, 0),
        entry(Some("folder/nested.txt"), false, 19),
        entry(Some("root.txt"), false, 17),
        entry(None, false, 18),
    ]
}

fn source() -> Location {
    Location::new("file:///tmp/fixture.zip")
}

fn failed_message(error: ProviderError) -> String {
    match error {
        ProviderError::Failed(message) => message,
        other => panic!("unexpected error {other:?}"),
    }
}

#[test]
fn hex_text_round_trips_bytes() {
    let bytes = "file:///tmp/ä.zip".as_bytes();
    let text = hex_encode(bytes);
    assert_eq!(text, "66696c653a2f2f2f746d702fc3a42e7a6970");
    assert_eq!(hex_decode(&text).unwrap(), bytes.to_vec());
    assert_eq!(hex_decode("+f0A").unwrap(), vec![15, 10]);
    assert_eq!(
        failed_message(hex_decode("abc").unwrap_err()),
        "invalid archive source encoding"
    );
    assert_eq!(
        failed_message(hex_decode("zz").unwrap_err()),
        "invalid archive source encoding"
    );
}

#[test]
fn inner_paths_are_normalized_or_refused() {
    assert_eq!(normalize_inner("a/./b//c", PathStyle::Unix).unwrap(), "a/b/c");
    assert_eq!(normalize_inner("", PathStyle::Unix).unwrap(), "");
    assert_eq!(normalize_inner(r"a\b", PathStyle::Unix).unwrap(), r"a\b");
    assert_eq!(normalize_inner(r"a\b", PathStyle::Windows).unwrap(), "a/b");
    for unsafe_path in ["../escape.txt", "a/../../b", "/etc/passwd"] {
        assert_eq!(
            failed_message(normalize_inner(unsafe_path, PathStyle::Unix).unwrap_err()),
            "unsafe archive path"
        );
    }
    assert!(normalize_inner("C:evil", PathStyle::Windows).is_err());
    assert!(normalize_inner("C:evil", PathStyle::Unix).is_ok());
}

#[test]
fn archive_locations_round_trip() {
    let address = ArchiveAddress { source: source(), inner: "folder/nested.txt".to_owned() };
    let location = address.location();
    assert!(location.as_str().starts_with("archive://zip/"));
    assert_eq!(
        ZipArchiveProvider::root_for(&source()).as_str(),
        "archive://zip/66696c653a2f2f2f746d702f666978747572652e7a6970!/"
    );
    let parsed = ArchiveAddress::parse(&location, PathStyle::Unix).unwrap();
    assert_eq!(parsed.source, source());
    assert_eq!(parsed.inner, "folder/nested.txt");
    let parent = parsed.parent().unwrap();
    assert_eq!(parent.inner, "folder");
    assert_eq!(parent.parent().unwrap().inner, "");
    assert!(parent.parent().unwrap().parent().is_none());
    assert_eq!(parent.child("other.txt").inner, "folder/other.txt");
}

#[test]
fn malformed_archive_locations_are_refused() {
    let cases = [
        ("file:///tmp/x", "unsupported archive location"),
        ("archive://zip/6162", "invalid archive location"),
        ("archive://zip/6g!/x", "invalid archive source encoding"),
        ("archive://zip/ff!/x", "archive source is not UTF-8: "),
        ("archive://zip/61!/../x", "unsafe archive path"),
    ];
    for (text, message) in cases {
        let error = ArchiveAddress::parse(&Location::new(text), PathStyle::Unix).unwrap_err();
        assert!(failed_message(error).starts_with(message), "{text}");
    }
}

#[test]
fn escaping_entries_are_never_indexed() {
    let index = ArchiveIndex::from_entries(&fixture_entries(), PathStyle::Unix).unwrap();
    let names: Vec<String> = index.children("").into_iter().map(|node| node.path).collect();
    assert_eq!(names, ["folder", "root.txt"]);
    let nested: Vec<String> = index.children("folder").into_iter().map(|node| node.path).collect();
    assert_eq!(nested, ["folder/nested.txt"]);
    assert!(index.node("escape.txt").is_none());
    assert!(index.node("").unwrap().directory);
    assert_eq!(safe_zip_path(&entry(Some(r"dir\file.txt"), false, 1), PathStyle::Unix).unwrap(), "dir/file.txt");
    assert!(safe_zip_path(&entry(Some("../x"), false, 1), PathStyle::Unix).is_none());
}

#[test]
fn missing_parent_directories_are_synthesized() {
    let entries = vec![entry(Some("a/b/c.txt"), false, 3)];
    let index = ArchiveIndex::from_entries(&entries, PathStyle::Unix).unwrap();
    assert!(index.node("a").unwrap().directory);
    assert!(index.node("a/b").unwrap().directory);
    assert_eq!(index.node("a/b/c.txt").unwrap().size, 3);
}

#[test]
fn archive_limits_are_enforced() {
    let too_large = vec![entry(Some("big.bin"), false, 268_435_457)];
    assert_eq!(
        failed_message(ArchiveIndex::from_entries(&too_large, PathStyle::Unix).err().unwrap()),
        "archive entry big.bin exceeds the 268435456 byte safety limit"
    );
    let many = vec![entry(Some("x"), false, 1); 100_001];
    assert_eq!(
        failed_message(ArchiveIndex::from_entries(&many, PathStyle::Unix).err().unwrap()),
        "archive contains more than 100000 entries"
    );
}

#[test]
fn listings_page_through_archive_directories() {
    let index = ArchiveIndex::from_entries(&fixture_entries(), PathStyle::Unix).unwrap();
    let provider = ZipArchiveProvider;
    let root = ArchiveAddress { source: source(), inner: String::new() };
    let request = ListRequest {
        generation: ListingGeneration(4),
        continuation: None,
        page_size: 1,
        cancellation: CancellationToken::default(),
    };
    let first = provider.list(&root, &index, &request).unwrap();
    assert_eq!(first.entries.len(), 1);
    assert_eq!(first.entries[0].metadata.name, "folder");
    assert_eq!(first.entries[0].metadata.kind, ResourceKind::Directory);
    assert_eq!(first.entries[0].details, "archive directory");
    assert_eq!(first.continuation.as_deref(), Some("1"));
    assert!(!first.complete);
    let second = provider
        .list(
            &root,
            &index,
            &ListRequest {
                generation: ListingGeneration(4),
                continuation: first.continuation.clone(),
                page_size: 10,
                cancellation: CancellationToken::default(),
            },
        )
        .unwrap();
    assert_eq!(second.entries.len(), 1);
    let file = &second.entries[0];
    assert_eq!(file.metadata.name, "root.txt");
    assert_eq!(file.metadata.size, Some(17));
    assert_eq!(file.details, "17 B → 8 B");
    assert_eq!(file.metadata.stable_id.as_deref(), Some("zip:file:///tmp/fixture.zip:root.txt"));
    assert!(second.complete);
    assert!(second.continuation.is_none());
    let file_address = ArchiveAddress { source: source(), inner: "root.txt".to_owned() };
    assert!(matches!(
        provider.list(&file_address, &index, &request),
        Err(ProviderError::Unsupported(message)) if message == "root.txt is not an archive directory"
    ));
    let missing = ArchiveAddress { source: source(), inner: "nope".to_owned() };
    assert!(matches!(provider.list(&missing, &index, &request), Err(ProviderError::NotFound(_))));
}

#[test]
fn capabilities_follow_the_entry_kind() {
    let index = ArchiveIndex::from_entries(&fixture_entries(), PathStyle::Unix).unwrap();
    let folder = index.node("folder").unwrap();
    let file = index.node("root.txt").unwrap();
    let folder_caps = ZipArchiveProvider::capabilities_for(Some(&folder));
    assert!(folder_caps.contains(&CapabilityId::new("resource.list")));
    assert!(folder_caps.contains(&CapabilityId::new("archive.update")));
    assert!(!folder_caps.contains(&CapabilityId::new("resource.read")));
    let file_caps = ZipArchiveProvider::capabilities_for(Some(&file));
    assert!(file_caps.contains(&CapabilityId::new("resource.read")));
    assert!(ZipArchiveProvider::capabilities_for(None).iter().is_empty());
}

#[test]
fn archive_creation_is_format_and_capability_driven_by_name() {
    let provider = ZipArchiveProvider;
    let parent = Location::new("file:///tmp/out");
    assert!(provider.container_name(&parent, "bundle.zip").unwrap());
    assert!(provider.container_name(&parent, "Bundle.ZIP").unwrap());
    assert!(!provider.container_name(&parent, "bundle.tar").unwrap());
    assert_eq!(
        failed_message(provider.container_name(&parent, "a/b.zip").unwrap_err()),
        "invalid archive name: a/b.zip"
    );
    assert!(!provider.container_name(&Location::new("sftp://host/x"), "a/b.zip").unwrap());
    assert!(ZipArchiveProvider::format_capabilities().contains(&CapabilityId::new("archive.create")));
    let caps = provider.container_capabilities(&parent);
    assert!(caps.contains(&CapabilityId::new("archive.create")));
    assert!(!caps.contains(&CapabilityId::new("archive.update")));
}

#[test]
fn navigating_up_leaves_the_archive_at_its_root() {
    let provider = ZipArchiveProvider;
    let inside = ArchiveAddress { source: source(), inner: "folder/nested.txt".to_owned() };
    match provider.parent(&inside.location(), PathStyle::Unix) {
        Some(ArchiveParent::Entry(location)) => {
            assert_eq!(location, ArchiveAddress { source: source(), inner: "folder".to_owned() }.location())
        }
        other => panic!("unexpected parent {other:?}"),
    }
    match provider.parent(&ZipArchiveProvider::root_for(&source()), PathStyle::Unix) {
        Some(ArchiveParent::ArchiveFileDirectory(location)) => assert_eq!(location, source()),
        other => panic!("unexpected parent {other:?}"),
    }
    assert!(provider.parent(&Location::new("file:///x"), PathStyle::Unix).is_none());
}

#[test]
fn extraction_writes_only_the_selected_safe_entries() {
    let entries = fixture_entries();
    let folder = extraction_plan(&entries, "folder", true, PathStyle::Unix);
    assert!(folder.failure.is_none());
    assert_eq!(folder.steps.len(), 1);
    assert_eq!(folder.steps[0].entry, 1);
    assert_eq!(folder.steps[0].relative.as_deref(), Some("nested.txt"));
    let single = extraction_plan(&entries, "root.txt", false, PathStyle::Unix);
    assert_eq!(single.steps.len(), 1);
    assert_eq!(single.steps[0].entry, 2);
    assert!(single.steps[0].relative.is_none());
    let mut with_link = entries.clone();
    with_link.push(ArchiveEntryFacts {
        enclosed_name: Some("folder/link".to_owned()),
        directory: false,
        size: 4,
        compressed_size: 4,
        unix_mode: Some(0o120777),
    });
    let refused = extraction_plan(&with_link, "folder", true, PathStyle::Unix);
    assert_eq!(refused.steps.len(), 1);
    assert_eq!(refused.failure.as_deref(), Some("archive symlink entries are rejected: folder/link"));
    let huge = vec![
        entry(Some("d/a"), false, 268_435_456),
        entry(Some("d/b"), false, 268_435_456),
        entry(Some("d/c"), false, 268_435_456),
        entry(Some("d/e"), false, 268_435_456),
        entry(Some("d/f"), false, 1),
    ];
    let stopped = extraction_plan(&huge, "d", true, PathStyle::Unix);
    assert_eq!(stopped.steps.len(), 4);
    assert_eq!(stopped.failure.as_deref(), Some("archive extraction exceeds 1073741824 bytes"));
}

#[test]
fn rebuilding_an_archive_drops_only_replaced_entries() {
    let entries = vec![
        entry(Some("added.txt"), false, 3),
        entry(Some("added.txt.bak"), false, 3),
        entry(Some("dir/"), true, 0),
        entry(Some("dir/x"), false, 1),
    ];
    let kept = kept_entries(&entries, "dir", true, PathStyle::Unix);
    let paths: Vec<&str> = kept.iter().map(|(_, path, _)| path.as_str()).collect();
    assert_eq!(paths, ["added.txt", "added.txt.bak"]);
    let kept_all = kept_entries(&entries, "dir", false, PathStyle::Unix);
    assert_eq!(kept_all.len(), 4);
    assert_eq!(numbered("root", Some("txt"), 1), "root (1).txt");
    assert_eq!(numbered("item", None, 12), "item (12)");
}

#[test]
fn archive_transfers_are_recognized_by_their_endpoints() {
    let archive_source = ResourceRef {
        provider: ProviderId::new("near.archive"),
        location: ArchiveAddress { source: source(), inner: "root.txt".to_owned() }.location(),
    };
    let local_source = ResourceRef {
        provider: ProviderId::new("near.local-fs"),
        location: Location::new("file:///tmp/added.txt"),
    };
    let root = ZipArchiveProvider::root_for(&source());
    assert_eq!(
        transfer_kind(&vec![archive_source.clone()], &Location::new("file:///tmp/out")),
        Some(ArchiveTransfer::Extract)
    );
    assert_eq!(transfer_kind(&vec![local_source.clone()], &root), Some(ArchiveTransfer::Add));
    assert_eq!(transfer_kind(&vec![local_source.clone()], &Location::new("file:///x")), None);
    assert!(refuses_move(&OperationIntent::MoveTo {
        sources: vec![archive_source.clone()],
        destination: Location::new("file:///tmp/out"),
    }));
    assert!(refuses_move(&OperationIntent::MoveTo { sources: vec![local_source.clone()], destination: root.clone() }));
    assert!(!refuses_move(&OperationIntent::MoveTo {
        sources: vec![local_source.clone()],
        destination: Location::new("file:///x"),
    }));
    let index = ArchiveIndex::from_entries(&fixture_entries(), PathStyle::Unix).unwrap();
    let root_address = ArchiveAddress { source: source(), inner: String::new() };
    let item = addition_item(&root_address, &local_source, Some("root.txt"), false, Some(&index)).unwrap();
    assert!(item.conflict_expected);
    assert_eq!(item.target, ArchiveAddress { source: source(), inner: "root.txt".to_owned() }.location());
    assert_eq!(item.parameters.get("near.archive.mode").map(String::as_str), Some("add"));
    let fresh = addition_item(&root_address, &local_source, Some("added.txt"), false, Some(&index)).unwrap();
    assert!(!fresh.conflict_expected);
    assert_eq!(
        addition_item(&root_address, &local_source, None, false, None).unwrap_err(),
        "local source has no portable file name"
    );
    let address = ArchiveAddress { source: source(), inner: "folder/nested.txt".to_owned() };
    let node = index.node("folder/nested.txt");
    assert_eq!(extraction_source(&address, node.as_ref()).unwrap(), ("nested.txt".to_owned(), false));
    assert_eq!(
        extraction_source(&address, None).unwrap_err(),
        "archive entry not found: folder/nested.txt"
    );
}

#[test]
fn reads_are_bounded_and_refused_for_directories() {
    assert!(matches!(
        ZipArchiveProvider::read_window(true, 0, 0, 10),
        Err(ProviderError::Unsupported(_))
    ));
    assert_eq!(ZipArchiveProvider::read_window(false, 19, 7, 7).unwrap(), (7, 7));
    assert_eq!(ZipArchiveProvider::read_window(false, 19, 40, usize::MAX).unwrap(), (19, 4_194_304));
    assert!(ZipArchiveProvider::read_window(false, 268_435_457, 0, 1).is_err());
    assert!(ZipArchiveProvider::read_reaches_end(7, 12, 19));
    assert!(!ZipArchiveProvider::read_reaches_end(7, 7, 19));
}
