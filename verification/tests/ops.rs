use near::command::SafetyClass;
use near::execution::{
    ConflictAction, ConflictDecision, ConflictResolver, DecisionScope, ExecutionAuthorization,
    ExecutionEffect, ExecutionError, ExecutionSummary, ItemOutcome, ItemStatus, OperationBackend,
    OperationEngine, OperationJournal,
};
use near::ids::{OperationId, ProviderId};
use near::ops::{
    ConflictPolicy, CrossDeviceBehavior, OperationKind, OperationPlan, OperationPlanner,
    PlanError, PlanPolicies, PlanRequest, PlannedItem,
};
use near::provider::{CancellationToken, ListingGeneration};
use near::resource::{Location, ResourceRef};
use near::strmap::StrMap;

fn resource(name: &str) -> ResourceRef {
    ResourceRef {
        provider: ProviderId::new("test.provider"),
        location: Location::new(&format!("test:///{name}")),
    }
}

fn request(items: Vec<PlannedItem>) -> PlanRequest {
    PlanRequest {
        kind: OperationKind::Copy,
        items,
        destination: Some(Location::new("test:///destination")),
        policies: PlanPolicies { conflict: ConflictPolicy::Ask, ..PlanPolicies::default() },
        safety: SafetyClass::Confirmable,
        context_generation: ListingGeneration(7),
        high_impact: false,
    }
}

fn item(name: &str, conflict: bool) -> PlannedItem {
    PlannedItem {
        source: Some(resource(name)),
        target: Location::new(&format!("test:///destination/{name}")),
        conflict_expected: conflict,
        recursive: false,
        parameters: StrMap::new(),
    }
}

struct Resolver {
    calls: usize,
    decision: ConflictDecision,
}

impl ConflictResolver for Resolver {
    fn decide(&mut self, _plan: &OperationPlan, _item: &PlannedItem) -> ConflictDecision {
        self.calls += 1;
        self.decision
    }
}

struct Backend {
    fail: Option<String>,
    cancel_after: Option<usize>,
    executed: usize,
    cancellation: CancellationToken,
}

impl OperationBackend for Backend {
    fn target_exists(&self, _target: &Location) -> bool {
        false
    }

    fn execute(
        &mut self,
        _plan: &OperationPlan,
        item: &PlannedItem,
        _action: Option<ConflictAction>,
        _cancellation: &CancellationToken,
    ) -> Result<ExecutionEffect, String> {
        self.executed += 1;
        if self.cancel_after == Some(self.executed) {
            self.cancellation.cancel();
        }
        let name = item.source.as_ref().unwrap().location.as_str();
        if self.fail.as_ref().is_some_and(|failure| name.ends_with(failure.as_str())) {
            Err("injected failure".to_owned())
        } else {
            Ok(ExecutionEffect::default())
        }
    }
}

fn backend() -> Backend {
    Backend { fail: None, cancel_after: None, executed: 0, cancellation: CancellationToken::default() }
}

fn authorization(generation: u64, confirmed: bool, high: bool) -> ExecutionAuthorization {
    ExecutionAuthorization {
        context_generation: ListingGeneration(generation),
        confirmed,
        high_impact_confirmed: high,
    }
}

#[test]
fn execution_rejects_stale_and_unconfirmed_plans() {
    let mut planner = OperationPlanner::default();
    let plan = planner.plan(request(vec![item("one", false)])).unwrap();
    let id = plan.id().clone();
    let mut engine = OperationEngine::new(backend(), OperationJournal::memory());
    engine.record(plan).unwrap();
    let mut resolver = Resolver {
        calls: 0,
        decision: ConflictDecision { action: ConflictAction::Replace, scope: DecisionScope::Once },
    };
    let cancellation = CancellationToken::default();
    assert!(matches!(
        engine.execute(&id, authorization(8, true, false), &cancellation, &mut resolver),
        Err(ExecutionError::StaleContext { .. })
    ));
    assert_eq!(
        engine.execute(&id, authorization(7, false, false), &cancellation, &mut resolver),
        Err(ExecutionError::ConfirmationRequired)
    );
}

#[test]
fn conflicts_apply_to_remaining_and_journal_exact_outcomes() {
    let mut planner = OperationPlanner::default();
    let plan = planner.plan(request(vec![item("one", true), item("two", true)])).unwrap();
    let id = plan.id().clone();
    let mut failing = backend();
    failing.fail = Some("two".to_owned());
    let mut engine = OperationEngine::new(failing, OperationJournal::memory());
    engine.record(plan).unwrap();
    let mut resolver = Resolver {
        calls: 0,
        decision: ConflictDecision { action: ConflictAction::Replace, scope: DecisionScope::Remaining },
    };
    let summary = engine
        .execute(&id, authorization(7, true, false), &CancellationToken::default(), &mut resolver)
        .unwrap();
    assert_eq!(resolver.calls, 1);
    assert_eq!(summary.completed(), 1);
    assert_eq!(summary.failed(), 1);
    assert_eq!(engine.journal().summary(&id), Some(&summary));
    let retry = planner.retry(engine.plan(&id).unwrap(), &summary).unwrap();
    assert_eq!(retry.items().len(), 1);
    assert!(retry.items()[0].source.as_ref().unwrap().location.as_str().ends_with("two"));
}

#[test]
fn conflict_decisions_can_apply_once() {
    let mut planner = OperationPlanner::default();
    let plan = planner.plan(request(vec![item("one", true), item("two", true)])).unwrap();
    let id = plan.id().clone();
    let mut engine = OperationEngine::new(backend(), OperationJournal::memory());
    engine.record(plan).unwrap();
    let mut resolver = Resolver {
        calls: 0,
        decision: ConflictDecision { action: ConflictAction::Replace, scope: DecisionScope::Once },
    };
    let summary = engine
        .execute(&id, authorization(7, true, false), &CancellationToken::default(), &mut resolver)
        .unwrap();
    assert_eq!(resolver.calls, 2);
    assert_eq!(summary.completed(), 2);
}

#[test]
fn cancellation_marks_unstarted_items_pending() {
    let mut planner = OperationPlanner::default();
    let plan = planner
        .plan(request(vec![item("one", false), item("two", false), item("three", false)]))
        .unwrap();
    let id = plan.id().clone();
    let cancellation = CancellationToken::default();
    let mut cancelling = backend();
    cancelling.cancel_after = Some(1);
    cancelling.cancellation = cancellation.clone();
    let mut engine = OperationEngine::new(cancelling, OperationJournal::append_file("journal.log"));
    engine.record(plan).unwrap();
    let mut resolver = Resolver {
        calls: 0,
        decision: ConflictDecision { action: ConflictAction::Skip, scope: DecisionScope::Once },
    };
    let summary =
        engine.execute(&id, authorization(7, true, false), &cancellation, &mut resolver).unwrap();
    assert!(summary.cancelled);
    assert_eq!(summary.completed(), 1);
    assert_eq!(summary.pending(), 2);
    assert_eq!(engine.journal().path(), Some("journal.log"));
    assert!(format!("{:?}", engine.journal().events().last().unwrap()).contains("Finished"));
}

#[test]
fn recursive_delete_requires_high_impact_confirmation() {
    let mut planner = OperationPlanner::default();
    let mut delete = request(vec![item("tree", false)]);
    delete.kind = OperationKind::Delete;
    delete.safety = SafetyClass::Destructive;
    delete.high_impact = true;
    let plan = planner.plan(delete).unwrap();
    let id = plan.id().clone();
    let mut engine = OperationEngine::new(backend(), OperationJournal::memory());
    engine.record(plan).unwrap();
    let mut resolver = Resolver {
        calls: 0,
        decision: ConflictDecision { action: ConflictAction::Cancel, scope: DecisionScope::Once },
    };
    assert_eq!(
        engine.execute(&id, authorization(7, true, false), &CancellationToken::default(), &mut resolver),
        Err(ExecutionError::HighImpactConfirmationRequired)
    );
}

#[test]
fn preview_explicitly_reports_copy_then_delete_moves() {
    let mut planner = OperationPlanner::default();
    let mut move_request = request(vec![item("one", false)]);
    move_request.kind = OperationKind::Move;
    move_request.policies.cross_device = CrossDeviceBehavior::CopyThenDelete;
    let plan = planner.plan(move_request).unwrap();
    assert!(plan.preview_lines().iter().any(|line| line == "cross-device: CopyThenDelete"));
}

struct TargetSelectingBackend;

impl OperationBackend for TargetSelectingBackend {
    fn target_exists(&self, _target: &Location) -> bool {
        false
    }

    fn execute(
        &mut self,
        _plan: &OperationPlan,
        _item: &PlannedItem,
        _action: Option<ConflictAction>,
        _cancellation: &CancellationToken,
    ) -> Result<ExecutionEffect, String> {
        Ok(ExecutionEffect { target: Some(Location::new("test:///platform-selected-name")) })
    }
}

#[test]
fn backend_selected_target_is_recorded_in_summary_and_journal() {
    let mut planner = OperationPlanner::default();
    let plan = planner.plan(request(vec![item("one", false)])).unwrap();
    let id = plan.id().clone();
    let mut engine = OperationEngine::new(TargetSelectingBackend, OperationJournal::memory());
    engine.record(plan).unwrap();
    let mut resolver = Resolver {
        calls: 0,
        decision: ConflictDecision { action: ConflictAction::Cancel, scope: DecisionScope::Once },
    };
    let summary = engine
        .execute(&id, authorization(7, true, false), &CancellationToken::default(), &mut resolver)
        .unwrap();
    assert_eq!(summary.kind, OperationKind::Copy);
    assert_eq!(summary.items[0].item.target.as_str(), "test:///platform-selected-name");
    assert_eq!(engine.journal().summary(&id), Some(&summary));
}

#[test]
fn failure_presentation_retains_exact_resource_and_error() {
    let summary = ExecutionSummary {
        plan: OperationId::new("failed-plan"),
        kind: OperationKind::Trash,
        items: vec![ItemOutcome {
            item: item("folder", false),
            status: ItemStatus::Failed("permission denied".to_owned()),
        }],
        cancelled: false,
    };
    let presentation = summary.failure_presentation(false).unwrap();
    assert_eq!(presentation.title, "Operation Failed");
    assert!(presentation.body.contains("test:///folder"));
    assert!(presentation.body.contains("permission denied"));
}

#[test]
fn failure_presentation_exact_body_and_absence() {
    let summary = ExecutionSummary {
        plan: OperationId::new("p.1"),
        kind: OperationKind::Copy,
        items: vec![
            ItemOutcome { item: item("a", false), status: ItemStatus::Failed("e1".to_owned()) },
            ItemOutcome { item: item("b", false), status: ItemStatus::Completed },
            ItemOutcome { item: item("c", false), status: ItemStatus::Failed("e2".to_owned()) },
        ],
        cancelled: false,
    };
    assert_eq!(
        summary.failure_presentation(true).unwrap().body,
        "Operation p.1 failed for 2 item(s).\n\ntest:///a\n  e1\n\ntest:///c\n  e2\n\nClose this message, then authorize the exact retained plan with the elevated retry command."
    );
    let ok = ExecutionSummary {
        plan: OperationId::new("p.2"),
        kind: OperationKind::Copy,
        items: vec![ItemOutcome { item: item("a", false), status: ItemStatus::Completed }],
        cancelled: false,
    };
    assert!(ok.failure_presentation(false).is_none());
}

#[test]
fn planner_numbers_plans_and_refuses_bad_requests() {
    let mut planner = OperationPlanner::with_prefix("demo");
    let first = planner.plan(request(vec![item("a", false)])).unwrap();
    let second = planner.plan(request(vec![item("b", false)])).unwrap();
    assert_eq!(first.id().as_str(), "demo.1");
    assert_eq!(second.id().as_str(), "demo.2");
    assert_eq!(planner.plan(request(Vec::new())).err(), Some(PlanError::Empty));
    let mut sourceless = item("c", false);
    sourceless.source = None;
    assert_eq!(planner.plan(request(vec![sourceless])).err(), Some(PlanError::MissingSource));
    let mut create = request(vec![{
        let mut i = item("d", false);
        i.source = None;
        i
    }]);
    create.kind = OperationKind::CreateDirectory;
    assert!(planner.plan(create).is_ok());
}

#[test]
fn unknown_plans_are_refused_and_messages_read_well() {
    let mut engine = OperationEngine::new(backend(), OperationJournal::memory());
    let mut resolver = Resolver {
        calls: 0,
        decision: ConflictDecision { action: ConflictAction::Skip, scope: DecisionScope::Once },
    };
    let missing = OperationId::new("nowhere.1");
    let error = engine
        .execute(&missing, authorization(7, true, true), &CancellationToken::default(), &mut resolver)
        .unwrap_err();
    assert_eq!(error, ExecutionError::UnknownPlan(OperationId::new("nowhere.1")));
    assert_eq!(error.message(), "unknown operation plan: nowhere.1");
    let stale = ExecutionError::StaleContext {
        planned: ListingGeneration(7),
        actual: ListingGeneration(8),
    };
    assert_eq!(
        stale.message(),
        "operation context is stale: planned ListingGeneration(7), actual ListingGeneration(8)"
    );
    assert!(engine.journal().events().is_empty());
}

#[test]
fn skip_policy_skips_expected_conflicts() {
    let mut planner = OperationPlanner::default();
    let mut skipping = request(vec![item("one", true), item("two", false)]);
    skipping.policies.conflict = ConflictPolicy::Skip;
    let plan = planner.plan(skipping).unwrap();
    let id = plan.id().clone();
    let mut engine = OperationEngine::new(backend(), OperationJournal::memory());
    engine.record(plan).unwrap();
    let mut resolver = Resolver {
        calls: 0,
        decision: ConflictDecision { action: ConflictAction::Replace, scope: DecisionScope::Once },
    };
    let summary = engine
        .execute(&id, authorization(7, true, false), &CancellationToken::default(), &mut resolver)
        .unwrap();
    assert_eq!(summary.items[0].status, ItemStatus::Skipped("conflict policy".to_owned()));
    assert_eq!(summary.items[1].status, ItemStatus::Completed);
    assert_eq!(summary.skipped(), 1);
    assert_eq!(resolver.calls, 0);
}
