use near::external::{ExternalAction, ExternalInvocationMode};
use near::handlers::{
    HandlerContext, HandlerDocument, HandlerError, HandlerInvocationTemplate, HandlerRegistry,
    HandlerRule, HandlerValue, HANDLER_SCHEMA_VERSION,
};
use near::ids::ProviderId;
use near::local_fs::{native_path_from_text, NativePath, PathStyle};
use near::resource::{Location, ResourceKind, ResourceMetadata, ResourceRef};
use near::user_menu::{
    needs_temporary_list, temporary_list_body, UserMenuCatalog, UserMenuContext, UserMenuDocument,
    UserMenuEntry, UserMenuError, UserMenuInvocationTemplate, UserMenuResource, UserMenuScope,
    UserMenuValue,
};

fn unix(text: &str) -> NativePath {
    native_path_from_text(PathStyle::Unix, text)
}

fn metadata(name: &str) -> ResourceMetadata {
    ResourceMetadata {
        name: name.to_owned(),
        kind: ResourceKind::File,
        hidden: Some(false),
        ..ResourceMetadata::default()
    }
}

fn context(path: NativePath, parent: &str, name: &str) -> HandlerContext {
    HandlerContext {
        resource: ResourceRef {
            provider: ProviderId::new("near.local-fs"),
            location: Location::new("file:///fixture"),
        },
        metadata: metadata(name),
        native_path: Some(path),
        native_parent: Some(unix(parent)),
        style: PathStyle::Unix,
    }
}

fn registry(invocation: HandlerInvocationTemplate) -> HandlerRegistry {
    HandlerRegistry::new(HandlerDocument {
        schema_version: HANDLER_SCHEMA_VERSION,
        handlers: vec![HandlerRule {
            id: "test.editor".to_owned(),
            actions: vec![ExternalAction::Edit],
            invocation,
        }],
    })
    .unwrap()
}

#[test]
fn structured_templates_keep_hostile_paths_as_one_exact_argument() {
    let path = NativePath::Unix(b"/tmp/spaces $()[]\n\xff.txt".to_vec());
    let resolution = registry(HandlerInvocationTemplate::Argv {
        program: "editor".to_owned(),
        arguments: vec![HandlerValue::Literal("--wait".to_owned()), HandlerValue::NativePath],
        current_directory: Some(HandlerValue::NativeParent),
    })
    .resolve(ExternalAction::Edit, &context(path.clone(), "/tmp", "hostile.txt"), &vec![true])
    .unwrap();
    assert_eq!(resolution.invocation.arguments.len(), 2);
    assert_eq!(resolution.invocation.arguments[1], path);
    assert_eq!(resolution.invocation.mode, ExternalInvocationMode::StructuredArgv);
    assert_eq!(resolution.invocation.current_directory, Some(unix("/tmp")));
}

#[test]
fn shell_mode_is_explicit_quoted_and_explained() {
    let path = unix("/tmp/name; echo injected.txt");
    let resolution = registry(HandlerInvocationTemplate::Shell {
        shell: "/bin/zsh".to_owned(),
        script: "tool ${resource.path}".to_owned(),
        current_directory: Some(HandlerValue::NativeParent),
    })
    .resolve(ExternalAction::Edit, &context(path, "/tmp", "name.txt"), &vec![true])
    .unwrap();
    assert_eq!(resolution.invocation.mode, ExternalInvocationMode::ExplicitShell);
    assert_eq!(resolution.invocation.arguments[0], unix("-lc"));
    assert_eq!(
        resolution.invocation.arguments[1],
        unix("tool '/tmp/name; echo injected.txt'")
    );
    assert!(resolution.explanation.contains("explicit shell"));
}

#[test]
fn diagnostics_explain_rejected_and_selected_rules() {
    let registry = registry(HandlerInvocationTemplate::Argv {
        program: "editor".to_owned(),
        arguments: vec![HandlerValue::NativePath],
        current_directory: None,
    });
    let diagnostic = registry.diagnose(
        ExternalAction::View,
        &context(unix("/tmp/file.txt"), "/tmp", "file.txt"),
        &vec![true],
    );
    assert!(diagnostic.selected_handler.is_none());
    assert_eq!(diagnostic.evaluations[0].reason, "action did not match");
    assert_eq!(
        diagnostic.explanation(),
        "No handler matched the action and resource predicate"
    );
}

#[test]
fn execute_alternatives_preserve_configured_order_and_named_selection() {
    let document = HandlerDocument {
        schema_version: HANDLER_SCHEMA_VERSION,
        handlers: ["primary", "alternative"]
            .into_iter()
            .map(|id| HandlerRule {
                id: id.to_owned(),
                actions: vec![ExternalAction::Execute],
                invocation: HandlerInvocationTemplate::Argv {
                    program: id.to_owned(),
                    arguments: vec![HandlerValue::NativePath],
                    current_directory: Some(HandlerValue::NativeParent),
                },
            })
            .collect(),
    };
    let registry = HandlerRegistry::new(document).unwrap();
    let context = context(unix("/tmp/run.sh"), "/tmp", "run.sh");
    let matches = vec![true, true];
    let alternatives = registry.resolve_all(ExternalAction::Execute, &context, &matches).unwrap();
    assert_eq!(
        alternatives.iter().map(|resolution| resolution.handler_id.as_str()).collect::<Vec<_>>(),
        ["primary", "alternative"]
    );
    let selected = registry
        .resolve_named(ExternalAction::Execute, &context, &matches, "alternative")
        .unwrap();
    assert_eq!(selected.invocation.program, unix("alternative"));
    assert_eq!(selected.invocation.mode, ExternalInvocationMode::StructuredArgv);
    assert_eq!(
        selected.explanation,
        "Selected matching handler alternative in configured order; invocation mode: structured argv"
    );
    assert_eq!(
        registry.resolve_all(ExternalAction::Execute, &context, &vec![false, false]),
        Err(HandlerError::NoMatch)
    );
}

#[test]
fn unknown_shell_placeholders_fail_closed() {
    let error = registry(HandlerInvocationTemplate::Shell {
        shell: "/bin/zsh".to_owned(),
        script: "tool ${resource.unknown}".to_owned(),
        current_directory: None,
    })
    .resolve(
        ExternalAction::Edit,
        &context(unix("/tmp/file.txt"), "/tmp", "file.txt"),
        &vec![true],
    )
    .unwrap_err();
    assert_eq!(error, HandlerError::UnknownShellPlaceholder("${resource.unknown}".to_owned()));
    assert_eq!(error.message(), "unknown shell template placeholder ${resource.unknown}");
}

#[test]
fn handler_documents_reject_bad_schemas_and_identifiers() {
    let rule = |id: &str| HandlerRule {
        id: id.to_owned(),
        actions: vec![ExternalAction::Open],
        invocation: HandlerInvocationTemplate::Argv {
            program: "open".to_owned(),
            arguments: vec![],
            current_directory: None,
        },
    };
    let document = |handlers| HandlerDocument { schema_version: 1, handlers };
    assert_eq!(
        HandlerDocument { schema_version: 2, handlers: vec![] }.validate(),
        Err(HandlerError::UnsupportedSchema(2))
    );
    assert_eq!(document(vec![rule(" ")]).validate(), Err(HandlerError::EmptyId));
    assert_eq!(
        document(vec![rule("a"), rule("b"), rule("a")]).validate(),
        Err(HandlerError::DuplicateId("a".to_owned()))
    );
    assert_eq!(
        HandlerError::MissingValue(HandlerValue::NativeParent).message(),
        "template value NativeParent is unavailable for this resource"
    );
    let missing = HandlerContext { native_path: None, ..context(unix("/x"), "/", "x") };
    let registry = HandlerRegistry::new(document(vec![HandlerRule {
        id: "needs-path".to_owned(),
        actions: vec![ExternalAction::Open],
        invocation: HandlerInvocationTemplate::Argv {
            program: "open".to_owned(),
            arguments: vec![HandlerValue::NativePath],
            current_directory: Some(HandlerValue::ResourceUri),
        },
    }]))
    .unwrap();
    assert_eq!(
        registry.resolve(ExternalAction::Open, &missing, &vec![true]),
        Err(HandlerError::MissingValue(HandlerValue::NativePath))
    );
    let with_path = context(unix("/x"), "/", "x");
    assert_eq!(
        registry.resolve(ExternalAction::Open, &with_path, &vec![true]),
        Err(HandlerError::InvalidCurrentDirectory)
    );
}

fn resource(uri: &str, name: &str) -> UserMenuResource {
    UserMenuResource {
        resource: ResourceRef {
            provider: ProviderId::new("test.provider"),
            location: Location::new(uri),
        },
        metadata: metadata(name),
    }
}

fn menu_context() -> UserMenuContext {
    UserMenuContext {
        focused: resource("test:///focused", "focused name.txt"),
        focused_location: "test:///folder".to_owned(),
        peer: Some(resource("test:///peer", "peer.txt")),
        peer_location: Some("test:///other".to_owned()),
        selected: vec![resource("test:///one", "one.txt"), resource("test:///two", "two.txt")],
    }
}

fn entry(id: &str, invocation: UserMenuInvocationTemplate) -> UserMenuEntry {
    UserMenuEntry {
        id: id.to_owned(),
        key: id[..1].to_uppercase(),
        label: id.to_owned(),
        description: String::new(),
        invocation,
    }
}

fn catalog(global: Vec<UserMenuEntry>, local: Vec<UserMenuEntry>) -> UserMenuCatalog {
    UserMenuCatalog::new(UserMenuDocument { schema: 1, global, local }).unwrap()
}

#[test]
fn structured_metasymbols_expand_to_exact_arguments() {
    let catalog = catalog(
        vec![entry(
            "inspect",
            UserMenuInvocationTemplate::Argv {
                program: "tool".to_owned(),
                arguments: vec![
                    UserMenuValue::FocusedUri,
                    UserMenuValue::PeerName,
                    UserMenuValue::SelectedNames,
                ],
            },
        )],
        vec![],
    );
    let resolution = catalog
        .resolve(UserMenuScope::Global, "inspect", &menu_context(), true, &None, PathStyle::Unix)
        .unwrap();
    assert_eq!(resolution.invocation.mode, ExternalInvocationMode::StructuredArgv);
    assert_eq!(
        resolution.invocation.arguments,
        ["test:///focused", "peer.txt", "one.txt", "two.txt"]
            .into_iter()
            .map(unix)
            .collect::<Vec<_>>()
    );
    assert_eq!(resolution.handler_id, "user-menu.global.inspect");
    assert_eq!(
        resolution.explanation,
        "global user menu entry I; invocation mode: structured argv"
    );
}

#[test]
fn temporary_lists_are_provider_neutral_and_registered_for_cleanup() {
    let template = UserMenuInvocationTemplate::Argv {
        program: "cat".to_owned(),
        arguments: vec![UserMenuValue::TemporaryList],
    };
    assert!(needs_temporary_list(&template));
    let context = menu_context();
    assert_eq!(temporary_list_body(&context.selected), "test:///one\ntest:///two\n");
    let catalog = catalog(vec![], vec![entry("list", template)]);
    let list = unix("/tmp/near-user-menu-1-1.txt");
    let resolution = catalog
        .resolve(UserMenuScope::Local, "list", &context, true, &Some(list.clone()), PathStyle::Unix)
        .unwrap();
    assert_eq!(resolution.invocation.cleanup_paths, vec![list.clone()]);
    assert_eq!(resolution.invocation.arguments[0], list);
}

#[test]
fn shell_entries_are_explicit_and_quote_hostile_values() {
    let catalog = catalog(
        vec![entry(
            "shell",
            UserMenuInvocationTemplate::Shell {
                shell: "/bin/sh".to_owned(),
                script: "printf %s ${focused.name}".to_owned(),
            },
        )],
        vec![],
    );
    let resolution = catalog
        .resolve(UserMenuScope::Global, "shell", &menu_context(), true, &None, PathStyle::Unix)
        .unwrap();
    assert_eq!(resolution.invocation.mode, ExternalInvocationMode::ExplicitShell);
    assert!(resolution.explanation.contains("EXPLICIT SHELL"));
    assert_eq!(resolution.invocation.arguments[1], unix("printf %s 'focused name.txt'"));
}

#[test]
fn user_menu_refusals_are_specific() {
    assert_eq!(
        UserMenuCatalog::new(UserMenuDocument { schema: 2, global: vec![], local: vec![] }),
        Err(UserMenuError::UnsupportedSchema(2))
    );
    let argv = || UserMenuInvocationTemplate::Argv { program: "x".to_owned(), arguments: vec![] };
    assert_eq!(
        UserMenuCatalog::new(UserMenuDocument {
            schema: 1,
            global: vec![],
            local: vec![entry("a", argv()), entry("a", argv())],
        }),
        Err(UserMenuError::DuplicateId { scope: "local".to_owned(), id: "a".to_owned() })
    );
    let catalog = catalog(
        vec![
            entry("peer", UserMenuInvocationTemplate::Argv {
                program: "x".to_owned(),
                arguments: vec![UserMenuValue::PeerUri],
            }),
            entry("both", UserMenuInvocationTemplate::Shell {
                shell: "/bin/sh".to_owned(),
                script: "cp ${selected.uris} ${peer.location} ${bogus}".to_owned(),
            }),
        ],
        vec![],
    );
    let mut lonely = menu_context();
    lonely.peer = None;
    assert_eq!(
        catalog.resolve(UserMenuScope::Global, "peer", &lonely, true, &None, PathStyle::Unix),
        Err(UserMenuError::MissingValue(UserMenuValue::PeerUri))
    );
    assert_eq!(
        catalog.resolve(UserMenuScope::Global, "nope", &lonely, true, &None, PathStyle::Unix),
        Err(UserMenuError::UnknownEntry("nope".to_owned()))
    );
    assert_eq!(
        catalog.resolve(UserMenuScope::Global, "peer", &menu_context(), false, &None, PathStyle::Unix),
        Err(UserMenuError::PredicateMismatch("peer".to_owned()))
    );
    let error = catalog
        .resolve(UserMenuScope::Global, "both", &menu_context(), true, &None, PathStyle::Unix)
        .unwrap_err();
    assert_eq!(error, UserMenuError::UnknownShellMetasymbol("${bogus}".to_owned()));
    assert_eq!(error.message(), "unknown shell metasymbol ${bogus}");
    assert_eq!(
        UserMenuError::MissingValue(UserMenuValue::PeerUri).message(),
        "metasymbol PeerUri is unavailable in the current context"
    );
}
