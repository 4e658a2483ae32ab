use near::strmap::StrMap;
use near::execution::{
    AttributeUpdate, ConflictAction, ConflictDecision, DecisionScope, ExecutionAuthorization,
    ExecutionEffect, ExecutionSummary, LinkKind, OperationBackend, OperationJournal,
};
use near::ids::{OperationId, ProviderId};
use near::local_fs::{LocalFileProvider, NativePath};
use near::local_ops::{
    attribute_outcome, attribute_parameters, attribute_request, numbered_variant_name, target_preparation, ElevationBroker,
    TargetPreparation, LinkFacts, LocalOperationPlanner, LocalOperationService,
    MutationFacts, RenameFacts, RestoreFacts, TransferFacts, WipeFacts,
};
use near::ops::{ConflictPolicy, CrossDeviceBehavior, OperationKind, OperationPlan, PlanError, RecoveryPolicy};
use near::provider::{CancellationToken, ListingGeneration, ProviderError};
use near::resource::{Location, ResourceClassification, ResourceRef};
use near::command::SafetyClass;

fn path(text: &str) -> NativePath {
    NativePath::Unix(text.as_bytes().to_vec())
}

fn resource(text: &str) -> ResourceRef {
    LocalFileProvider::resource_for_path(&path(text))
}

fn facts(target: &str, exists: bool, directory: bool, cross: bool) -> Option<TransferFacts> {
    Some(TransferFacts { target: path(target), target_exists: exists, directory, cross_device: cross })
}

fn ordinary() -> MutationFacts {
    MutationFacts { classification: Ok(ResourceClassification::Ordinary), regular_file: true }
}

fn planner() -> LocalOperationPlanner {
    LocalOperationPlanner::new(path("/home/near/.trash"))
}

#[test]
fn copies_skip_unresolvable_sources_and_expect_conflicts() {
    let mut planner = planner();
    let sources = vec![resource("/src/a.txt"), resource("/src/b"), resource("/src/c")];
    let plan = planner
        .copy(
            &sources,
            &LocalFileProvider::location(&path("/dst")),
            true,
            &vec![facts("/dst/a.txt", true, false, false), None, facts("/dst/c", false, true, true)],
            ListingGeneration(3),
            ConflictPolicy::Ask,
        )
        .unwrap();
    assert_eq!(plan.kind(), OperationKind::Copy);
    assert_eq!(plan.items().len(), 2);
    assert!(plan.items()[0].conflict_expected);
    assert!(plan.items()[1].recursive);
    assert_eq!(plan.items()[0].target, LocalFileProvider::location(&path("/dst/a.txt")));
    assert_eq!(plan.conflict_count(), 1);
    assert_eq!(plan.policies().cross_device, CrossDeviceBehavior::NotApplicable);
    assert_eq!(plan.policies().recovery, RecoveryPolicy::Backup);
    assert_eq!(plan.id().as_str(), "near.operation.1");
    let unresolved = planner.copy(
        &sources,
        &Location::new("sftp://host/x"),
        false,
        &vec![None, None, None],
        ListingGeneration(3),
        ConflictPolicy::Ask,
    );
    assert!(matches!(unresolved, Err(PlanError::Empty)));
}

#[test]
fn moves_record_how_they_cross_devices() {
    let mut planner = planner();
    let sources = vec![resource("/src/a")];
    let destination = LocalFileProvider::location(&path("/dst"));
    let atomic = planner
        .move_resources(&sources, &destination, true, &vec![facts("/dst/a", false, false, false)], ListingGeneration(1), ConflictPolicy::Ask)
        .unwrap();
    assert_eq!(atomic.policies().cross_device, CrossDeviceBehavior::AtomicRename);
    let crossing = planner
        .move_resources(&sources, &destination, true, &vec![facts("/dst/a", false, false, true)], ListingGeneration(1), ConflictPolicy::Replace)
        .unwrap();
    assert_eq!(crossing.policies().cross_device, CrossDeviceBehavior::CopyThenDelete);
    assert_eq!(crossing.policies().conflict, ConflictPolicy::Replace);
}

#[test]
fn trash_refuses_ineligible_sources_and_native_trash_expects_no_conflicts() {
    let mut planner = planner();
    let sources = vec![resource("/")];
    let denied = planner.trash(
        &sources,
        &vec![MutationFacts { classification: Ok(ResourceClassification::FilesystemRoot), regular_file: false }],
        &vec![facts("/home/near/.trash/x", true, false, false)],
        ListingGeneration(2),
    );
    assert_eq!(
        denied.err().unwrap(),
        PlanError::Invalid("cannot mutate the filesystem root; eject or unmount it instead".to_owned())
    );
    let sources = vec![resource("/tmp/x")];
    let plan = planner
        .trash(&sources, &vec![ordinary()], &vec![facts("/home/near/.trash/x", true, false, false)], ListingGeneration(2))
        .unwrap();
    assert!(plan.items()[0].conflict_expected);
    assert_eq!(plan.safety(), SafetyClass::Reversible);
    assert_eq!(plan.destination(), Some(&LocalFileProvider::location(&path("/home/near/.trash"))));
    let mut native = LocalOperationPlanner::platform_default(path("/trash"), true);
    let plan = native
        .trash(&sources, &vec![ordinary()], &vec![facts("/trash/x", true, false, false)], ListingGeneration(2))
        .unwrap();
    assert!(!plan.items()[0].conflict_expected);
}

#[test]
fn restores_only_take_local_items() {
    let mut planner = planner();
    let remote = ResourceRef { provider: ProviderId::new("near.sftp"), location: Location::new("sftp://h/x") };
    let items = vec![
        (resource("/trash/a"), LocalFileProvider::location(&path("/home/a"))),
        (remote, Location::new("sftp://h/y")),
    ];
    let plan = planner
        .restore(
            &items,
            &vec![
                Some(RestoreFacts { target_exists: false, directory: false, cross_device: true }),
                Some(RestoreFacts { target_exists: false, directory: false, cross_device: false }),
            ],
            ListingGeneration(5),
        )
        .unwrap();
    assert_eq!(plan.items().len(), 1);
    assert_eq!(plan.policies().cross_device, CrossDeviceBehavior::CopyThenDelete);
    assert!(plan.destination().is_none());
}

#[test]
fn deletion_and_wipe_are_destructive_and_checked() {
    let mut planner = planner();
    let sources = vec![resource("/tmp/a"), resource("/tmp/b")];
    let delete = planner.delete(&sources, &vec![ordinary(), ordinary()], ListingGeneration(1), true).unwrap();
    assert!(delete.high_impact());
    assert_eq!(delete.safety(), SafetyClass::Destructive);
    assert_eq!(delete.policies().recovery, RecoveryPolicy::NoRecovery);
    assert!(delete.items().iter().all(|item| item.recursive));
    let inspected = |display: &str| WipeFacts::Inspected { display: display.to_owned(), regular_file: true, readonly: false };
    assert_eq!(
        planner.wipe(&sources, &vec![ordinary(), ordinary()], &vec![inspected("/tmp/a"), inspected("/tmp/b")], ListingGeneration(1), 8).err().unwrap(),
        PlanError::Invalid("wipe passes must be between 1 and 7".to_owned())
    );
    let readonly = WipeFacts::Inspected { display: "/tmp/b".to_owned(), regular_file: true, readonly: true };
    assert_eq!(
        planner.wipe(&sources, &vec![ordinary(), ordinary()], &vec![inspected("/tmp/a"), readonly], ListingGeneration(1), 3).err().unwrap(),
        PlanError::Invalid("wipe requires a writable file: /tmp/b".to_owned())
    );
    let wipe = planner
        .wipe(&sources, &vec![ordinary(), ordinary()], &vec![inspected("/tmp/a"), inspected("/tmp/b")], ListingGeneration(1), 3)
        .unwrap();
    assert_eq!(wipe.items()[1].parameters.get("passes").map(String::as_str), Some("3"));
}

#[test]
fn batch_renames_validate_each_name() {
    let mut planner = planner();
    let items = vec![(resource("/tmp/a"), "b".to_owned()), (resource("/tmp/c"), "d/e".to_owned())];
    let refused = planner.rename_many(
        &items,
        &vec![
            RenameFacts::Target { path: path("/tmp/b"), exists: true },
            RenameFacts::Target { path: path("/tmp/d/e"), exists: false },
        ],
        ListingGeneration(1),
    );
    assert_eq!(refused.err().unwrap(), PlanError::Invalid("invalid rename target: d/e".to_owned()));
    let no_parent = planner.rename_many(&vec![(resource("/"), "x".to_owned())], &vec![RenameFacts::NoParent], ListingGeneration(1));
    assert_eq!(
        no_parent.err().unwrap(),
        PlanError::Invalid(format!("{} has no parent", resource("/").location.as_str()))
    );
    let plan = planner
        .rename_many(
            &vec![(resource("/tmp/a"), "b".to_owned())],
            &vec![RenameFacts::Target { path: path("/tmp/b"), exists: true }],
            ListingGeneration(1),
        )
        .unwrap();
    assert!(plan.items()[0].conflict_expected);
    let same = planner.rename(resource("/tmp/a"), LocalFileProvider::location(&path("/tmp/a")), true, ListingGeneration(1)).unwrap();
    assert!(!same.items()[0].conflict_expected);
}

#[test]
fn attribute_changes_cover_each_resource_once() {
    let mut planner = planner();
    let empty = planner.set_attributes(&vec![resource("/a")], &AttributeUpdate::default(), false, &vec![Ok(Vec::new())], true, ListingGeneration(1));
    assert_eq!(empty.err().unwrap(), PlanError::Invalid("attribute update is empty".to_owned()));
    let update = AttributeUpdate { unix_mode: Some(0o755), modified_unix_ms: Some(-5), readonly: Some(true), ..AttributeUpdate::default() };
    let unsupported = planner.set_attributes(&vec![resource("/a")], &update, false, &vec![Ok(Vec::new())], false, ListingGeneration(1));
    assert_eq!(
        unsupported.err().unwrap(),
        PlanError::Invalid("Unix mode and ownership fields are unsupported on this platform".to_owned())
    );
    let plan = planner
        .set_attributes(
            &vec![resource("/a"), resource("/a/b")],
            &update,
            true,
            &vec![Ok(vec![resource("/a/b"), resource("/a/c")]), Ok(Vec::new())],
            true,
            ListingGeneration(1),
        )
        .unwrap();
    assert_eq!(plan.items().len(), 3);
    let parameters = &plan.items()[0].parameters;
    assert_eq!(parameters.get("unix-mode").map(String::as_str), Some("755"));
    assert_eq!(parameters.get("modified-unix-ms").map(String::as_str), Some("-5"));
    assert_eq!(parameters.get("readonly").map(String::as_str), Some("true"));
    assert_eq!(attribute_parameters(&AttributeUpdate { owner: Some(501), ..AttributeUpdate::default() }).get("owner").map(String::as_str), Some("501"));
    let failing = planner.set_attributes(&vec![resource("/a")], &update, true, &vec![Err("/a: denied".to_owned())], true, ListingGeneration(1));
    assert_eq!(failing.err().unwrap(), PlanError::Invalid("/a: denied".to_owned()));
    let mode = planner.set_unix_mode(&resource("/a"), 0o644, ListingGeneration(1)).unwrap();
    assert_eq!(mode.items()[0].parameters.get("unix-mode").map(String::as_str), Some("644"));
}

struct NoBackend;

impl OperationBackend for NoBackend {
    fn target_exists(&self, _target: &Location) -> bool {
        false
    }

    fn execute(
        &mut self,
        _plan: &OperationPlan,
        _item: &near::ops::PlannedItem,
        _action: Option<ConflictAction>,
        _cancellation: &CancellationToken,
    ) -> Result<ExecutionEffect, String> {
        Ok(ExecutionEffect::default())
    }
}

struct RefusingBroker;

impl ElevationBroker for RefusingBroker {
    fn execute(
        &self,
        _plan: &OperationPlan,
        _authorization: ExecutionAuthorization,
        _conflict: ConflictDecision,
    ) -> Result<ExecutionSummary, String> {
        Err("elevation refused".to_owned())
    }
}

#[test]
fn services_record_plans_and_route_privileged_retries() {
    let mut service: LocalOperationService<NoBackend, RefusingBroker> =
        LocalOperationService::new(path("/trash"), NoBackend, OperationJournal::memory());
    let planned = service.planner_mut().touch(LocalFileProvider::location(&path("/tmp/new")), false, ListingGeneration(7));
    let plan = service.record(planned).unwrap();
    let authorization = ExecutionAuthorization { context_generation: ListingGeneration(7), confirmed: true, high_impact_confirmed: false };
    let decision = ConflictDecision { action: ConflictAction::Skip, scope: DecisionScope::Remaining };
    assert_eq!(
        service.execute_elevated(plan.id(), authorization, decision).err().unwrap(),
        "platform elevation broker is not configured"
    );
    assert_eq!(
        service.execute_elevated(&OperationId::new("missing"), authorization, decision).err().unwrap(),
        "unknown operation plan: missing"
    );
    let summary = service.execute(plan.id(), authorization, &CancellationToken::default(), decision).unwrap();
    assert_eq!(summary.completed(), 1);
    let mut service = service.with_elevation_broker(RefusingBroker);
    assert_eq!(service.execute_elevated(plan.id(), authorization, decision).err().unwrap(), "elevation refused");
    let link = service.plan_link(
        resource("/tmp/new"),
        "bad/name",
        LinkKind::Symbolic,
        LinkFacts::NoParent("/tmp/new".to_owned()),
        ListingGeneration(7),
    );
    assert_eq!(link.err().unwrap(), "invalid link target name: bad/name");
    let hard = service.plan_link(
        resource("/tmp/dir"),
        "alias",
        LinkKind::Hard,
        LinkFacts::Source { is_file: false, is_dir: true, target: path("/tmp/alias"), target_exists: false },
        ListingGeneration(7),
    );
    assert_eq!(hard.err().unwrap(), "hard links require a regular file source");
    let unresolved = service.plan_link(
        resource("/tmp/dir"),
        "alias",
        LinkKind::Symbolic,
        LinkFacts::Unresolved(ProviderError::Failed("x".to_owned())),
        ListingGeneration(7),
    );
    assert_eq!(unresolved.err().unwrap(), "provider failed: x");
    let symbolic = service
        .plan_link(
            resource("/tmp/dir"),
            "alias",
            LinkKind::Junction,
            LinkFacts::Source { is_file: false, is_dir: true, target: path("/tmp/alias"), target_exists: false },
            ListingGeneration(7),
        )
        .unwrap();
    assert_eq!(symbolic.kind(), OperationKind::SymbolicLink);
}

#[test]
fn targets_are_prepared_by_the_conflict_decision_and_recovery_policy() {
    assert_eq!(target_preparation(false, None, RecoveryPolicy::Backup), TargetPreparation::UseTarget);
    assert_eq!(target_preparation(true, None, RecoveryPolicy::Backup), TargetPreparation::Refuse);
    assert_eq!(
        target_preparation(true, Some(ConflictAction::Replace), RecoveryPolicy::Backup),
        TargetPreparation::BackupExisting
    );
    assert_eq!(
        target_preparation(true, Some(ConflictAction::Replace), RecoveryPolicy::JournalOnly),
        TargetPreparation::RemoveExisting
    );
    assert_eq!(
        target_preparation(true, Some(ConflictAction::Rename), RecoveryPolicy::Backup),
        TargetPreparation::RenameIncoming
    );
    assert_eq!(
        target_preparation(true, Some(ConflictAction::Skip), RecoveryPolicy::Backup),
        TargetPreparation::UseTarget
    );
    assert_eq!(numbered_variant_name("a.txt", " copy", 2), "a.txt copy 2");
    assert_eq!(numbered_variant_name("a.txt", ".near-backup", 10), "a.txt.near-backup 10");
}

#[test]
fn attribute_parameters_parse_into_requested_changes() {
    let mut params = StrMap::new();
    params.insert("unix-mode".to_owned(), "755".to_owned());
    params.insert("owner".to_owned(), "1000".to_owned());
    params.insert("modified-unix-ms".to_owned(), "-5".to_owned());
    params.insert("readonly".to_owned(), "yes".to_owned());
    let request = attribute_request(&params);
    assert_eq!(request.mode, Some(Ok(0o755)));
    assert_eq!(request.owner, Some(Ok(1000)));
    assert_eq!(request.group, None);
    assert_eq!(request.modified_ms, Some(Ok(-5)));
    assert_eq!(request.accessed_ms, None);
    assert_eq!(
        request.readonly,
        Some(Err("provided string was not `true` or `false`".to_owned()))
    );
    let mut bad = StrMap::new();
    bad.insert("unix-mode".to_owned(), "789".to_owned());
    bad.insert("readonly".to_owned(), "true".to_owned());
    let request = attribute_request(&bad);
    assert_eq!(request.mode, Some(Err("invalid digit found in string".to_owned())));
    assert_eq!(request.readonly, Some(Ok(true)));
    assert_eq!(attribute_outcome(&Vec::new()), Ok(()));
    assert_eq!(
        attribute_outcome(&vec!["unix mode: bad".to_owned(), "read-only: denied".to_owned()]),
        Err("unix mode: bad; read-only: denied".to_owned())
    );
}
