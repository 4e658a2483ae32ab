use std::sync::{Arc, Mutex};

use near::config::ConfigLayerKind;
use near::settings::{
    ConfigurationCoordinator, CoordinatorError, SettingApplier, SettingApplyScope,
    SettingCandidate, SettingDescriptor, SettingPlatform, SettingPlatformAvailability,
    SettingProvenance, SettingValue, SettingValueKind, SettingsPersistence,
};
use near::strmap::StrMap;

#[derive(Default)]
struct MemoryPersistence {
    writes: Arc<Mutex<Vec<StrMap<SettingValue>>>>,
}

impl SettingsPersistence for MemoryPersistence {
    fn persist(&mut self, values: &StrMap<SettingValue>) -> Result<(), String> {
        self.writes.lock().unwrap().push(values.clone());
        Ok(())
    }
}

struct RecordingApplier {
    name: &'static str,
    events: Arc<Mutex<Vec<String>>>,
    fail: bool,
}

impl SettingApplier for RecordingApplier {
    fn validate(&self, value: &SettingValue) -> Result<(), String> {
        if matches!(value, SettingValue::Integer(value) if *value < 0) {
            Err("must be non-negative".to_owned())
        } else {
            Ok(())
        }
    }

    fn apply(&mut self, _previous: &SettingValue, _candidate: &SettingValue) -> Result<(), String> {
        self.events.lock().unwrap().push(format!("apply:{}", self.name));
        if self.fail { Err("injected failure".to_owned()) } else { Ok(()) }
    }

    fn rollback(&mut self, _candidate: &SettingValue, _previous: &SettingValue) {
        self.events.lock().unwrap().push(format!("rollback:{}", self.name));
    }
}

fn descriptor(id: &str, order: u32, scope: SettingApplyScope) -> SettingDescriptor {
    SettingDescriptor {
        id: id.to_owned(),
        document: "near.toml".to_owned(),
        path: id.to_owned(),
        category: "Test".to_owned(),
        title: id.to_owned(),
        description: "test setting".to_owned(),
        advanced: false,
        value_kind: SettingValueKind::Integer,
        default_value: SettingValue::Integer(1),
        apply_scope: scope,
        apply_order: order,
        availability: SettingPlatformAvailability::All,
    }
}

fn provenance(source: &str) -> SettingProvenance {
    SettingProvenance { layer: ConfigLayerKind::BuiltIn, source: source.to_owned() }
}

#[test]
fn candidates_persist_once_and_apply_in_declared_order() {
    let events = Arc::new(Mutex::new(Vec::new()));
    let persistence = MemoryPersistence::default();
    let writes = Arc::clone(&persistence.writes);
    let mut coordinator = ConfigurationCoordinator::with_persistence(SettingPlatform::Linux, persistence);
    for (id, order) in [("later", 20), ("first", 10)] {
        coordinator
            .register(
                descriptor(id, order, SettingApplyScope::Live),
                SettingValue::Integer(1),
                provenance("builtin"),
                RecordingApplier { name: id, events: Arc::clone(&events), fail: false },
            )
            .unwrap();
    }
    coordinator
        .apply(&[
            SettingCandidate { id: "later".to_owned(), value: SettingValue::Integer(2) },
            SettingCandidate { id: "first".to_owned(), value: SettingValue::Integer(3) },
        ])
        .unwrap();
    assert_eq!(&*events.lock().unwrap(), &["apply:first", "apply:later"]);
    assert_eq!(writes.lock().unwrap().len(), 1);
    assert_eq!(coordinator.state("first").unwrap().value, SettingValue::Integer(3));
}

#[test]
fn failed_apply_rolls_back_and_restores_persisted_snapshot() {
    let events = Arc::new(Mutex::new(Vec::new()));
    let persistence = MemoryPersistence::default();
    let writes = Arc::clone(&persistence.writes);
    let mut coordinator = ConfigurationCoordinator::with_persistence(SettingPlatform::MacOs, persistence);
    coordinator
        .register(
            descriptor("first", 10, SettingApplyScope::Live),
            SettingValue::Integer(1),
            provenance("builtin"),
            RecordingApplier { name: "first", events: Arc::clone(&events), fail: false },
        )
        .unwrap();
    coordinator
        .register(
            descriptor("broken", 20, SettingApplyScope::Restart),
            SettingValue::Integer(1),
            provenance("builtin"),
            RecordingApplier { name: "broken", events: Arc::clone(&events), fail: true },
        )
        .unwrap();
    let candidates = [
        SettingCandidate { id: "first".to_owned(), value: SettingValue::Integer(2) },
        SettingCandidate { id: "broken".to_owned(), value: SettingValue::Integer(2) },
    ];
    assert!(coordinator.restart_required(&candidates));
    assert!(matches!(coordinator.apply(&candidates), Err(CoordinatorError::Apply { .. })));
    assert_eq!(&*events.lock().unwrap(), &["apply:first", "apply:broken", "rollback:first"]);
    assert_eq!(writes.lock().unwrap().len(), 2);
    assert_eq!(coordinator.state("first").unwrap().value, SettingValue::Integer(1));
}

#[test]
fn invalid_external_reload_preserves_last_valid_state_and_provenance() {
    let mut coordinator = ConfigurationCoordinator::new(SettingPlatform::Windows);
    coordinator
        .register(
            descriptor("count", 1, SettingApplyScope::NewSurface),
            SettingValue::Integer(4),
            provenance("builtin"),
            RecordingApplier { name: "count", events: Arc::default(), fail: false },
        )
        .unwrap();
    let mut values = StrMap::new();
    values.insert("count".to_owned(), SettingValue::Integer(-1));
    let error = coordinator
        .reload_external(
            &values,
            &SettingProvenance { layer: ConfigLayerKind::User, source: "user.toml".to_owned() },
        )
        .unwrap_err();
    assert!(matches!(error, CoordinatorError::Validation { .. }));
    assert_eq!(coordinator.state("count").unwrap().value, SettingValue::Integer(4));
    assert_eq!(coordinator.state("count").unwrap().provenance.source, "builtin");
}

#[test]
fn registration_refuses_duplicates_and_wrong_kinds() {
    let mut coordinator = ConfigurationCoordinator::new(SettingPlatform::Linux);
    coordinator
        .register(descriptor("a", 1, SettingApplyScope::Live), SettingValue::Integer(1), provenance("b"), ())
        .unwrap();
    assert_eq!(
        coordinator.register(descriptor("a", 1, SettingApplyScope::Live), SettingValue::Integer(1), provenance("b"), ()),
        Err(CoordinatorError::Duplicate("a".to_owned()))
    );
    let error = coordinator
        .register(descriptor("b", 1, SettingApplyScope::Live), SettingValue::Boolean(true), provenance("b"), ())
        .unwrap_err();
    assert_eq!(
        error,
        CoordinatorError::TypeMismatch {
            id: "b".to_owned(),
            expected: SettingValueKind::Integer,
            actual: SettingValueKind::Boolean,
        }
    );
    assert_eq!(error.message(), "setting b expects Integer, received Boolean");
    assert_eq!(coordinator.descriptors().len(), 1);
}

#[test]
fn unknown_and_unavailable_candidates_are_refused_and_reset_restores_default() {
    let mut coordinator = ConfigurationCoordinator::new(SettingPlatform::Linux);
    let mut only_mac = descriptor("mac", 1, SettingApplyScope::Live);
    only_mac.availability = SettingPlatformAvailability::Only(vec![SettingPlatform::MacOs]);
    coordinator.register(only_mac, SettingValue::Integer(1), provenance("b"), ()).unwrap();
    coordinator
        .register(descriptor("x", 1, SettingApplyScope::Live), SettingValue::Integer(5), provenance("b"), ())
        .unwrap();
    assert_eq!(
        coordinator.apply(&[SettingCandidate { id: "nope".to_owned(), value: SettingValue::Integer(1) }]),
        Err(CoordinatorError::Unknown("nope".to_owned()))
    );
    assert_eq!(coordinator.last_error(), Some(&CoordinatorError::Unknown("nope".to_owned())));
    assert_eq!(
        coordinator.apply(&[SettingCandidate { id: "mac".to_owned(), value: SettingValue::Integer(2) }]),
        Err(CoordinatorError::Unavailable("mac".to_owned()))
    );
    coordinator.reset("x").unwrap();
    assert_eq!(coordinator.state("x").unwrap().value, SettingValue::Integer(1));
    assert_eq!(coordinator.state("x").unwrap().provenance.source, "settings coordinator");
    assert_eq!(coordinator.state("x").unwrap().provenance.layer, ConfigLayerKind::User);
    assert!(coordinator.last_error().is_none());
    assert_eq!(coordinator.reset("missing"), Err(CoordinatorError::Unknown("missing".to_owned())));
}
