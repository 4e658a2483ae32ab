use near::description::{
    decode_description_bytes, encode_description_text, parse_description_line,
    render_description_catalog, DescriptionEncoding, DescriptionSettings,
};
use near::ids::ProviderId;
use near::local_fs::{
    escape_name, hex_digest, is_elevated_request_name, is_package, kind_label, local_path,
    native_path_from_text, percent_encode, quote_command_argument, request_digest_matches,
    shell_quote, sibling_elevation_name, unescape_name, windows_recycle_script,
    LocalFileProvider, LocalPathFacts, NativePath, PathStyle,
};
use near::provider::ProviderError;
use near::resource::{
    Location, MutationAlternative, MutationEligibility, MutationKind, ResourceClassification,
    ResourceKind, ResourceRef,
};
use near::strmap::StrMap;

#[test]
fn windows_paths_round_trip_without_changing_the_public_location_type() {
    let provider = LocalFileProvider::new(PathStyle::Windows);
    for text in [r"C:\Users\Near\資料.txt", r"\\server\share\folder\item.txt"] {
        let path = native_path_from_text(PathStyle::Windows, text);
        assert_eq!(provider.path(&LocalFileProvider::location(&path)).unwrap(), path);
    }
}

#[test]
fn windows_native_references_are_claimed_by_the_local_provider() {
    let provider = LocalFileProvider::new(PathStyle::Windows);
    for text in [r"C:\Users\Near\資料.txt", r"\\server\share\folder\item.txt"] {
        let path = native_path_from_text(PathStyle::Windows, text);
        assert_eq!(
            provider.parse_native_reference(text).unwrap(),
            Some(LocalFileProvider::resource_for_path(&path))
        );
    }
    assert_eq!(provider.parse_native_reference("relative\\item.txt").unwrap(), None);
}

#[test]
fn windows_recycle_bin_script_uses_a_structured_path_argument() {
    let file = windows_recycle_script(false);
    let directory = windows_recycle_script(true);
    assert!(file.contains("DeleteFile($args[0]"));
    assert!(directory.contains("DeleteDirectory($args[0]"));
    assert!(file.contains("SendToRecycleBin"));
    assert!(directory.contains("SendToRecycleBin"));
    assert!(!file.contains("C:\\hostile path"));
}

#[test]
fn file_locations_and_display_names_round_trip_invalid_utf8() {
    let provider = LocalFileProvider::new(PathStyle::Unix);
    let name = NativePath::Unix(vec![b'n', b'a', b'm', b'e', b'-', 0xff]);
    let mut full = b"/tmp/fixture/".to_vec();
    full.extend_from_slice(&[b'n', b'a', b'm', b'e', b'-', 0xff]);
    let path = NativePath::Unix(full);
    let location = LocalFileProvider::location(&path);
    assert_eq!(provider.path(&location).unwrap(), path);
    let display = escape_name(&name);
    assert_eq!(display, "name-\\xFF");
    assert_eq!(unescape_name(&display, PathStyle::Unix).unwrap(), name);
}

#[test]
fn locations_percent_encode_reserved_bytes() {
    assert_eq!(percent_encode(b"/a b/%c~_.-"), "/a%20b/%25c~_.-");
    let path = native_path_from_text(PathStyle::Unix, "/tmp/a b");
    assert_eq!(LocalFileProvider::location(&path).as_str(), "file:///tmp/a%20b");
    let windows = NativePath::Windows(vec![0x43, 0x3a]);
    assert_eq!(LocalFileProvider::location(&windows).as_str(), "file://C%00%3A%00");
}

#[test]
fn malformed_locations_are_rejected() {
    let failed = |message: &str| ProviderError::Failed(message.to_owned());
    assert_eq!(
        local_path(&Location::new("virtual:///x"), PathStyle::Unix),
        Err(failed("location is not a file URI"))
    );
    assert_eq!(
        local_path(&Location::new("file:///a%2"), PathStyle::Unix),
        Err(failed("truncated file URI escape"))
    );
    assert_eq!(
        local_path(&Location::new("file:///a%zz"), PathStyle::Unix),
        Err(failed("invalid file URI escape"))
    );
    assert_eq!(
        local_path(&Location::new("file://%41"), PathStyle::Windows),
        Err(failed("Windows path encoding has an odd byte length"))
    );
    assert_eq!(
        local_path(&Location::new("file:///%41%42"), PathStyle::Unix),
        Ok(NativePath::Unix(b"/AB".to_vec()))
    );
}

#[test]
fn unix_native_references_must_be_absolute() {
    let provider = LocalFileProvider::new(PathStyle::Unix);
    let found = provider.parse_native_reference("/etc/hosts").unwrap().unwrap();
    assert_eq!(found.provider, ProviderId::new("near.local-fs"));
    assert_eq!(found.location.as_str(), "file:///etc/hosts");
    assert_eq!(provider.parse_native_reference("etc/hosts").unwrap(), None);
    let windows = LocalFileProvider::new(PathStyle::Windows);
    assert!(windows.parse_native_reference(r"\\?\C:\x").unwrap().is_some());
    assert!(windows.parse_native_reference(r"\\.\COM1").unwrap().is_some());
    assert!(windows.parse_native_reference(r"C:relative").unwrap().is_none());
    assert!(windows.parse_native_reference(r"\\server").unwrap().is_none());
}

#[test]
fn display_names_escape_controls_and_backslashes() {
    let name = NativePath::Unix("a\\b\tc".as_bytes().to_vec());
    assert_eq!(escape_name(&name), "a\\\\b\\x09c");
    assert_eq!(unescape_name("a\\\\b\\x09c", PathStyle::Unix).unwrap(), name);
    assert_eq!(
        unescape_name("bad\\q", PathStyle::Unix),
        Err(ProviderError::Failed("invalid filename escape".to_owned()))
    );
    assert_eq!(
        unescape_name("bad\\x4", PathStyle::Unix),
        Err(ProviderError::Failed("truncated filename escape".to_owned()))
    );
    let wide = NativePath::Windows(vec![0x61, 0xd800]);
    assert_eq!(escape_name(&wide), "a\\x00\\x00\\xD8");
}

#[test]
fn mutation_policy_refuses_roots_and_explains_alternatives() {
    let resource = ResourceRef {
        provider: ProviderId::new("near.local-fs"),
        location: Location::new("file:///Volumes/Backup"),
    };
    let mount = LocalFileProvider::mutation_eligibility(
        &resource,
        MutationKind::Trash,
        Ok(ResourceClassification::MountRoot),
        false,
    );
    match mount {
        MutationEligibility::Denied(denial) => {
            assert_eq!(
                denial.reason,
                "cannot mutate mounted volume file:///Volumes/Backup; eject or unmount it instead"
            );
            assert_eq!(denial.alternative, Some(MutationAlternative::Unmount));
        }
        MutationEligibility::Allowed => panic!("mount roots are protected"),
    }
    let wipe = LocalFileProvider::mutation_eligibility(
        &resource,
        MutationKind::Wipe,
        Ok(ResourceClassification::Ordinary),
        false,
    );
    assert_eq!(wipe.denial().unwrap().reason, "wipe supports regular files only");
    assert!(LocalFileProvider::mutation_eligibility(
        &resource,
        MutationKind::Delete,
        Ok(ResourceClassification::Symlink),
        false,
    )
    .is_allowed());
    let unknown = LocalFileProvider::mutation_eligibility(
        &resource,
        MutationKind::Delete,
        Err(ProviderError::Failed("gone".to_owned())),
        false,
    );
    assert_eq!(
        unknown.denial().unwrap().reason,
        "cannot classify resource before mutation: provider failed: gone"
    );
    let facts = LocalPathFacts {
        mount_namespace_root: false,
        symlink: false,
        filesystem_root: true,
        protected_trash_root: false,
        special_device: false,
        file_or_directory: true,
    };
    assert_eq!(
        near::local_fs::classify_local_path(&facts),
        ResourceClassification::FilesystemRoot
    );
}

#[test]
fn packages_and_kinds_are_labelled() {
    assert!(is_package("Example.APP"));
    assert!(is_package("Tool.framework"));
    assert!(!is_package(".app"));
    assert!(!is_package("plain.txt"));
    assert_eq!(kind_label(ResourceKind::Package), "package");
    assert_eq!(
        near::local_fs::classify_file_type(false, true, false, true),
        ResourceKind::Package
    );
}

#[test]
fn command_arguments_are_quoted_per_shell() {
    assert_eq!(quote_command_argument(PathStyle::Unix, "/tmp/plain.txt"), "/tmp/plain.txt");
    assert_eq!(
        quote_command_argument(PathStyle::Unix, "two words'file.txt"),
        "'two words'\\''file.txt'"
    );
    assert_eq!(quote_command_argument(PathStyle::Unix, ""), "''");
    assert_eq!(quote_command_argument(PathStyle::Windows, r"C:\x\y.txt"), r"C:\x\y.txt");
    assert_eq!(quote_command_argument(PathStyle::Windows, "a \"b\""), "\"a \"\"b\"\"\"");
    assert_eq!(shell_quote("it's"), "'it'\\''s'");
}

#[test]
fn elevated_request_names_and_digests() {
    assert!(is_elevated_request_name("near-elevated-1-2.toml"));
    assert!(!is_elevated_request_name("near-elevated-forged.txt"));
    assert_eq!(
        sibling_elevation_name("near-elevated-7.toml", "response.toml"),
        Some("near-elevated-7.response.toml".to_owned())
    );
    assert_eq!(sibling_elevation_name("other", "audit.log"), None);
    assert_eq!(
        hex_digest(b"abc"),
        "ba7816bf8f01cfea414140de5dae2223b00361a396177a9cb410ff61f20015ad"
    );
    assert!(request_digest_matches(
        b"abc",
        "ba7816bf8f01cfea414140de5dae2223b00361a396177a9cb410ff61f20015ad"
    ));
    assert!(!request_digest_matches(b"abd", "ba7816bf"));
}

#[test]
fn description_lines_parse_quoted_and_plain_names() {
    assert_eq!(
        parse_description_line("\"file name.txt\" Initial description\n"),
        Some(("file name.txt".to_owned(), "Initial description".to_owned()))
    );
    assert_eq!(
        parse_description_line("  plain.txt   text here  "),
        Some(("plain.txt".to_owned(), "text here".to_owned()))
    );
    assert_eq!(
        parse_description_line("\"a\\\"b\" quoted"),
        Some(("a\"b".to_owned(), "quoted".to_owned()))
    );
    assert_eq!(parse_description_line("# comment"), None);
    assert_eq!(parse_description_line("; comment"), None);
    assert_eq!(parse_description_line("lonely"), None);
    assert_eq!(parse_description_line("\"unterminated"), None);
}

#[test]
fn description_catalogs_render_in_name_order() {
    let mut catalog = StrMap::new();
    catalog.insert("z.txt".to_owned(), "last".to_owned());
    catalog.insert("a b.txt".to_owned(), "first".to_owned());
    assert_eq!(render_description_catalog(&catalog), "\"a b.txt\" first\nz.txt last\n");
    let line = "\"a b.txt\" first";
    assert_eq!(
        parse_description_line(line),
        Some(("a b.txt".to_owned(), "first".to_owned()))
    );
}

#[test]
fn description_encodings_round_trip_and_refuse_unrepresentable_text() {
    let bom = b"\xef\xbb\xbf\"file name.txt\" Initial description\n";
    assert_eq!(
        decode_description_bytes(bom, DescriptionEncoding::Latin1).unwrap(),
        "\"file name.txt\" Initial description\n"
    );
    assert_eq!(decode_description_bytes(&[0xe9], DescriptionEncoding::Latin1).unwrap(), "é");
    assert!(decode_description_bytes(&[0xff], DescriptionEncoding::Utf8).is_err());
    assert_eq!(
        encode_description_text("é", DescriptionEncoding::Latin1).unwrap(),
        vec![0xe9]
    );
    assert_eq!(
        encode_description_text("snowman ☃", DescriptionEncoding::Latin1),
        Err(ProviderError::Failed(
            "character '☃' cannot be represented as Latin-1".to_owned()
        ))
    );
    let written = encode_description_text("x", DescriptionEncoding::Utf8Bom).unwrap();
    assert_eq!(written, vec![0xef, 0xbb, 0xbf, b'x']);
    assert_eq!(
        decode_description_bytes(&written, DescriptionEncoding::Utf8Bom).unwrap(),
        "x"
    );
}

#[test]
fn description_settings_validate_names() {
    let settings = DescriptionSettings::default();
    assert_eq!(settings.validate(PathStyle::Unix), Ok(()));
    let mut nested = DescriptionSettings::default();
    nested.description_files = vec!["dir/descript.ion".to_owned()];
    assert_eq!(
        nested.validate(PathStyle::Unix),
        Err("invalid description filename dir/descript.ion".to_owned())
    );
    let mut schema = DescriptionSettings::default();
    schema.schema = 2;
    assert_eq!(
        schema.validate(PathStyle::Unix),
        Err("unsupported description schema 2".to_owned())
    );
    let mut empty = DescriptionSettings::default();
    empty.folder_description_files.clear();
    assert_eq!(
        empty.validate(PathStyle::Unix),
        Err("description filename lists cannot be empty".to_owned())
    );
    let mut dotted = DescriptionSettings::default();
    dotted.description_files = vec!["ABOUT.txt/".to_owned(), "..".to_owned()];
    assert_eq!(
        dotted.validate(PathStyle::Unix),
        Err("invalid description filename ..".to_owned())
    );
}

#[test]
fn macos_mount_parser_only_accepts_external_volume_mounts() {
    let device = near::device::parse_macos_mount(
        "/dev/disk4s1 on /Volumes/Backup (apfs, local, nodev, nosuid, journaled)",
    )
    .unwrap();
    assert_eq!(device.id, "/dev/disk4s1");
    assert_eq!(device.label, "Backup");
    assert_eq!(device.mount.unwrap().as_str(), "file:///Volumes/Backup");
    assert!(near::device::parse_macos_mount("/dev/disk3s1 on / (apfs, local)").is_none());
}

#[test]
fn linux_lsblk_lines_yield_removable_devices() {
    let device = near::device::parse_linux_device(
        "PATH=\"/dev/sdb1\" LABEL=\"\" MOUNTPOINT=\"/media/usb\" RM=\"1\" TYPE=\"part\"",
    )
    .unwrap();
    assert_eq!(device.id, "/dev/sdb1");
    assert_eq!(device.label, "sdb1");
    assert_eq!(device.mount.unwrap().as_str(), "file:///media/usb");
    assert_eq!(device.system_path, "/dev/sdb1");
    assert!(near::device::parse_linux_device(
        "PATH=\"/dev/sda1\" LABEL=\"root\" MOUNTPOINT=\"/\" RM=\"0\" TYPE=\"part\""
    )
    .is_none());
    let labelled = near::device::parse_linux_device(
        "PATH=\"/dev/sdc\" LABEL=\"STICK\" MOUNTPOINT=\"\" RM=\"1\" TYPE=\"disk\"",
    )
    .unwrap();
    assert_eq!(labelled.label, "STICK");
    assert_eq!(labelled.mount, None);
    let fields = near::device::parse_quoted_fields("A=\"1\" B=2 junk A=\"3\"");
    assert_eq!(fields.get("A").map(String::as_str), Some("3"));
    assert_eq!(fields.get("B").map(String::as_str), Some("2"));
    assert_eq!(fields.len(), 2);
}

#[test]
fn windows_drive_lines_and_disconnect_choice() {
    let drive = near::device::parse_windows_drive("  E:|USB STICK \r").unwrap();
    assert_eq!(drive.id, "E:");
    assert_eq!(drive.label, "USB STICK");
    assert_eq!(drive.mount.as_ref().unwrap().as_str(), "file:///E:/");
    let unnamed = near::device::parse_windows_drive("F:|").unwrap();
    assert_eq!(unnamed.label, "F:");
    assert!(near::device::parse_windows_drive("no separator").is_none());
    let mut fixed = unnamed.clone();
    fixed.id = "G:".to_owned();
    fixed.label = "Fixed".to_owned();
    fixed.can_disconnect = false;
    let devices = vec![drive, fixed];
    assert_eq!(near::device::select_disconnect_target(&devices, "E:"), Ok(0));
    assert_eq!(
        near::device::select_disconnect_target(&devices, "G:"),
        Err("device Fixed cannot be safely disconnected".to_owned())
    );
    assert_eq!(
        near::device::select_disconnect_target(&devices, "Z:"),
        Err("removable device Z: is no longer attached".to_owned())
    );
    assert_eq!(
        near::device::disconnect_failure("diskutil eject", "/dev/disk4", " out ", "  "),
        "diskutil eject failed for /dev/disk4: out"
    );
    let report = near::device::disconnect_report(
        &devices[0],
        "mountvol /p",
        "mountvol.exe",
        &vec!["E:".to_owned(), "/p".to_owned()],
        "exit code: 0",
        "",
    );
    assert_eq!(report.device, "E:");
    assert_eq!(
        report.audit,
        "executable=mountvol.exe args=[\"E:\", \"/p\"] status=exit code: 0 output=<none>"
    );
}
