use near::document_policy::{
    find_bytes, rfind_bytes, EditorSettings, ResourceOpenPolicy, ViewerEncoding, ViewerSettings,
};
use near::ids::ProviderId;
use near::navigation::ViewerStateEntry;
use near::resource::Location;

#[test]
fn document_policies_validate_versions_and_ranges() {
    let viewer = ViewerSettings::from_toml(
        "schema = 1\nwrap = true\nencoding = 'latin1'\nopen_policy = 'external'\n",
    )
    .unwrap();
    assert!(viewer.wrap);
    assert_eq!(viewer.encoding, ViewerEncoding::Latin1);
    assert_eq!(viewer.open_policy, ResourceOpenPolicy::External);
    let editor = EditorSettings::from_toml(
        "schema = 1\ntab_size = 8\nexpand_tabs = true\nopen_policy = 'association'\n",
    )
    .unwrap();
    assert_eq!(editor.tab_size, 8);
    assert!(editor.expand_tabs);
    assert_eq!(editor.open_policy, ResourceOpenPolicy::Association);
    assert!(ViewerSettings::from_toml("schema = 2\n").is_err());
    assert!(EditorSettings::from_toml("schema = 1\ntab_size = 0\n").is_err());
    let utf16le = [0xff, 0xfe, b'N', 0, b'e', 0, b'a', 0, b'r', 0, b'\n', 0];
    assert_eq!(ViewerEncoding::detect(&utf16le), ViewerEncoding::Utf16Le);
    assert_eq!(ViewerEncoding::Auto.resolved(&utf16le), ViewerEncoding::Utf16Le);
    assert_eq!(ViewerEncoding::Utf16Le.decode(&utf16le), "Near\n");
    assert_eq!(ViewerEncoding::Utf16Le.encode("Near\n"), utf16le[2..]);
    assert_eq!(ViewerEncoding::Utf16Le.newline_bytes(), b"\n\0");
    assert_eq!(ViewerEncoding::Utf16Le.byte_column(&utf16le, 2), 6);
    assert!(ViewerSettings::is_binary(b"text\0binary"));
    assert!(!ViewerSettings::is_binary(b"ordinary text\n"));
    let state = ViewerStateEntry {
        provider: ProviderId::new("test"),
        location: Location::new("test://resource"),
        offset: 42,
        bookmarks: [(1, 21)].into_iter().collect(),
        navigation_history: vec![0, 42],
        navigation_index: 1,
        encoding: Some("utf-16le".to_owned()),
        wrap: Some(true),
        hex: Some(false),
    };
    assert!(ViewerSettings { remember_per_resource: false, ..ViewerSettings::default() }
        .filter_state(state.clone())
        .is_none());
    let filtered = ViewerSettings {
        remember_position: false,
        remember_bookmarks: false,
        ..ViewerSettings::default()
    }
    .filter_state(state)
    .unwrap();
    assert_eq!(filtered.offset, 0);
    assert!(filtered.bookmarks.is_empty());
    assert_eq!(filtered.encoding.as_deref(), Some("utf-16le"));
}

#[test]
fn encoding_names_parse_case_insensitively() {
    assert_eq!(ViewerEncoding::parse(" UTF-8 "), Some(ViewerEncoding::Utf8Lossy));
    assert_eq!(ViewerEncoding::parse("utf-16be"), Some(ViewerEncoding::Utf16Be));
    assert_eq!(ViewerEncoding::parse("Latin-1"), Some(ViewerEncoding::Latin1));
    assert_eq!(ViewerEncoding::parse("ebcdic"), None);
    assert_eq!(ViewerEncoding::Utf16Be.config_name(), "utf16be");
    assert_eq!(ViewerEncoding::Latin1.label(), "latin-1");
}

#[test]
fn detection_uses_nul_positions_without_a_byte_order_mark() {
    assert_eq!(ViewerEncoding::detect(&[0, b'a', 0, b'b']), ViewerEncoding::Utf16Be);
    assert_eq!(ViewerEncoding::detect(&[b'a', 0, b'b', 0]), ViewerEncoding::Utf16Le);
    assert_eq!(ViewerEncoding::detect(b"plain"), ViewerEncoding::Utf8Lossy);
    assert_eq!(ViewerEncoding::detect(&[0xfe, 0xff, 0, b'x']), ViewerEncoding::Utf16Be);
}

#[test]
fn decoding_and_encoding_cover_every_encoding() {
    assert_eq!(ViewerEncoding::Utf8Lossy.decode(b"\xef\xbb\xbfhi"), "hi");
    assert_eq!(ViewerEncoding::Utf8Lossy.decode(b"a\xffb"), "a\u{fffd}b");
    assert_eq!(ViewerEncoding::Latin1.decode(&[0x41, 0xe9]), "Aé");
    assert_eq!(ViewerEncoding::Utf16Be.decode(&[0xfe, 0xff, 0, b'o', 0, b'k']), "ok");
    assert_eq!(ViewerEncoding::Latin1.encode("aé☃"), vec![b'a', 0xe9]);
    assert_eq!(ViewerEncoding::Utf16Be.encode("ok"), vec![0, b'o', 0, b'k']);
    assert_eq!(ViewerEncoding::Auto.encode("é"), vec![0xc3, 0xa9]);
    assert_eq!(ViewerEncoding::Utf8Lossy.byte_column(b"\xef\xbb\xbfa\xc3\xa9z", 2), 6);
}

#[test]
fn lines_are_navigated_by_encoded_line_breaks() {
    let text = b"one\ntwo\nthree";
    let e = ViewerEncoding::Utf8Lossy;
    assert_eq!(e.line_bytes(text, 4), b"two".to_vec());
    assert_eq!(e.line_bytes(text, 100), Vec::<u8>::new());
    assert_eq!(e.next_line(text, 0), 4);
    assert_eq!(e.next_line(text, 8), 8);
    assert_eq!(e.previous_line(text, 8), 4);
    assert_eq!(e.previous_line(text, 4), 0);
    assert_eq!(e.line_offset(text, 1), Some(0));
    assert_eq!(e.line_offset(text, 3), Some(8));
    assert_eq!(e.line_offset(text, 4), None);
    assert_eq!(find_bytes(b"abcabc", b"bc"), Some(1));
    assert_eq!(rfind_bytes(b"abcabc", b"bc"), Some(4));
    assert_eq!(find_bytes(b"abc", b""), None);
}

#[test]
fn settings_documents_report_refusals() {
    assert_eq!(
        ViewerSettings::from_toml("schema = 3\n"),
        Err("unsupported viewer settings schema 3".to_owned())
    );
    assert_eq!(
        EditorSettings::from_toml("schema = 1\ntab_size = 17\n"),
        Err("editor tab_size must be between 1 and 16".to_owned())
    );
    assert!(ViewerSettings::from_toml("wrap = true\n").is_err());
    assert!(ViewerSettings::from_toml("schema = 1\nwrap = 'yes'\n").is_err());
    assert!(ViewerSettings::from_toml("schema = 1\nencoding = 'ebcdic'\n").is_err());
    assert!(ViewerSettings::from_toml("schema = [").is_err());
    assert_eq!(EditorSettings::from_toml("schema = 1\n").unwrap(), EditorSettings::default());
    assert_eq!(ViewerSettings::from_toml("schema = 1\n").unwrap(), ViewerSettings::default());
}

#[test]
fn public_document_policy_contract_is_application_neutral() {
    let editor = EditorSettings::from_toml(
        "schema = 1\ntab_size = 8\nexpand_tabs = true\nopen_policy = 'association'\n",
    )
    .unwrap();
    assert_eq!(editor.tab_size, 8);
    assert!(editor.expand_tabs);
    assert_eq!(editor.open_policy, ResourceOpenPolicy::Association);
    assert_eq!(ViewerSettings::default().open_policy, ResourceOpenPolicy::Internal);
    assert_eq!(ViewerSettings::default().encoding, ViewerEncoding::Auto);
    let viewer = ViewerSettings {
        remember_position: false,
        ..ViewerSettings::default()
    };
    let state = viewer
        .filter_state(ViewerStateEntry {
            provider: ProviderId::new("near-demo"),
            location: Location::new("demo://resource"),
            offset: 42,
            bookmarks: std::collections::BTreeMap::new(),
            navigation_history: vec![0, 42],
            navigation_index: 1,
            encoding: Some("utf-16le".to_owned()),
            wrap: Some(true),
            hex: Some(false),
        })
        .unwrap();
    assert_eq!(state.offset, 0);
    assert_eq!(state.encoding.as_deref(), Some("utf-16le"));
}
