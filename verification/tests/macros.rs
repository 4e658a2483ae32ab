use near::command::{ActionContext, CommandInvocation, CommandValue, SafetyClass};
use near::ids::{CapabilityId, CommandId, ContextId};
use near::macros::{
    authorized, MacroCondition, MacroContext, MacroDocument, MacroEngine, MacroError, MacroHost,
    MacroRecorder, MacroStep, MacroTrust, PresenceCondition, ReplayPolicy, SemanticMacro,
    MACRO_SCHEMA_VERSION,
};
use near::strmap::StrMap;

struct TestHost {
    context: MacroContext,
    safety: SafetyClass,
    available: bool,
    invoked: Vec<CommandInvocation>,
}

fn copy_value(value: &CommandValue) -> CommandValue {
    match value {
        CommandValue::Boolean(b) => CommandValue::Boolean(*b),
        CommandValue::Integer(i) => CommandValue::Integer(*i),
        CommandValue::Float(f) => CommandValue::Float(*f),
        CommandValue::String(s) => CommandValue::String(s.clone()),
        CommandValue::Array(items) => CommandValue::Array(items.iter().map(copy_value).collect()),
        CommandValue::Table(table) => CommandValue::Table(copy_table(table)),
    }
}

fn copy_table(table: &StrMap<CommandValue>) -> StrMap<CommandValue> {
    let mut copy = StrMap::new();
    for index in 0..table.len() {
        copy.insert(table.key_at(index).clone(), copy_value(table.value_at(index)));
    }
    copy
}

fn copy_invocation(invocation: &CommandInvocation) -> CommandInvocation {
    CommandInvocation { id: invocation.id.clone(), arguments: copy_table(&invocation.arguments) }
}

impl MacroHost for TestHost {
    fn macro_context(&self) -> MacroContext {
        self.context.clone()
    }

    fn validate_macro_command(&self, _invocation: &CommandInvocation) -> Result<SafetyClass, String> {
        if self.available {
            Ok(self.safety)
        } else {
            Err("unavailable in test context".to_owned())
        }
    }

    fn invoke_macro_command(&mut self, invocation: &CommandInvocation) -> Result<(), String> {
        self.invoked.push(copy_invocation(invocation));
        Ok(())
    }
}

fn invocation() -> CommandInvocation {
    let mut arguments = StrMap::new();
    arguments.insert("rows".to_owned(), CommandValue::Integer(1));
    CommandInvocation { id: CommandId::new("near.collection.move"), arguments }
}

fn semantic_macro(trust: MacroTrust) -> SemanticMacro {
    SemanticMacro {
        id: "test.navigation".to_owned(),
        title: "Navigation".to_owned(),
        binding: None,
        trust,
        when: MacroCondition::default(),
        steps: vec![MacroStep { invocation: invocation(), when: MacroCondition::default() }],
    }
}

fn host(safety: SafetyClass) -> TestHost {
    TestHost {
        context: MacroContext {
            contexts: vec![ContextId::new("workspace.panel")],
            action: ActionContext::default(),
        },
        safety,
        available: true,
        invoked: Vec::new(),
    }
}

#[test]
fn recorder_stores_command_ids_and_typed_arguments_not_keys() {
    let mut recorder = MacroRecorder::default();
    let mut empty = semantic_macro(MacroTrust::Untrusted);
    empty.steps = Vec::new();
    recorder.start(empty).unwrap();
    recorder.record(invocation());
    let finished_macro = recorder.finish().unwrap();
    assert_eq!(finished_macro.steps[0].invocation, invocation());
}

#[test]
fn replay_is_independent_from_key_bindings() {
    let mut host = host(SafetyClass::ReadOnly);
    MacroEngine::default().replay(&semantic_macro(MacroTrust::Untrusted), &mut host).unwrap();
    assert_eq!(host.invoked, vec![invocation()]);
}

#[test]
fn unavailable_commands_stop_replay_before_invocation() {
    let mut host = host(SafetyClass::ReadOnly);
    host.available = false;
    assert!(matches!(
        MacroEngine::default().replay(&semantic_macro(MacroTrust::Untrusted), &mut host),
        Err(MacroError::CommandUnavailable { .. })
    ));
    assert!(host.invoked.is_empty());
}

#[test]
fn safety_policy_requires_explicit_trust_and_configuration() {
    let mut host = host(SafetyClass::Confirmable);
    assert!(matches!(
        MacroEngine::default().replay(&semantic_macro(MacroTrust::Untrusted), &mut host),
        Err(MacroError::SafetyDenied { .. })
    ));
    MacroEngine::default().replay(&semantic_macro(MacroTrust::Trusted), &mut host).unwrap();
    host.safety = SafetyClass::Destructive;
    assert!(matches!(
        MacroEngine::default().replay(&semantic_macro(MacroTrust::Trusted), &mut host),
        Err(MacroError::SafetyDenied { .. })
    ));
}

#[test]
fn mislabeled_schema_one_bindings_are_refused() {
    let mut bound = semantic_macro(MacroTrust::Untrusted);
    bound.binding = Some("Ctrl+Alt+m".to_owned());
    let document = MacroDocument { schema_version: MACRO_SCHEMA_VERSION, macros: vec![bound] };
    assert!(document.validate().is_ok());
    let mislabeled = MacroDocument { schema_version: 1, macros: document.macros };
    assert!(matches!(mislabeled.validate(), Err(MacroError::BindingRequiresSchemaTwo(_))));
}

#[test]
fn documents_are_validated_in_order() {
    assert_eq!(
        MacroDocument { schema_version: 3, macros: Vec::new() }.validate(),
        Err(MacroError::UnsupportedSchema(3))
    );
    let mut blank = semantic_macro(MacroTrust::Untrusted);
    blank.id = "  ".to_owned();
    assert_eq!(
        MacroDocument { schema_version: 2, macros: vec![blank] }.validate(),
        Err(MacroError::EmptyId)
    );
    let twice = MacroDocument {
        schema_version: 2,
        macros: vec![semantic_macro(MacroTrust::Untrusted), semantic_macro(MacroTrust::Trusted)],
    };
    assert_eq!(twice.validate(), Err(MacroError::DuplicateId("test.navigation".to_owned())));
    let mut empty_binding = semantic_macro(MacroTrust::Untrusted);
    empty_binding.binding = Some(" ".to_owned());
    assert_eq!(
        MacroDocument { schema_version: 2, macros: vec![empty_binding] }.validate(),
        Err(MacroError::EmptyBinding("test.navigation".to_owned()))
    );
    let mut empty_command = semantic_macro(MacroTrust::Untrusted);
    empty_command.steps[0].invocation.id = CommandId::new("");
    assert_eq!(
        MacroDocument { schema_version: 1, macros: vec![empty_command] }.validate(),
        Err(MacroError::EmptyCommand("test.navigation".to_owned()))
    );
}

#[test]
fn conditions_gate_macros_and_steps() {
    let mut host = host(SafetyClass::ReadOnly);
    let mut gated = semantic_macro(MacroTrust::Untrusted);
    gated.when.required_contexts.push(ContextId::new("editor"));
    assert_eq!(
        MacroEngine::default().replay(&gated, &mut host),
        Err(MacroError::ContextUnavailable("test.navigation".to_owned()))
    );
    let mut skipping = semantic_macro(MacroTrust::Untrusted);
    skipping.steps[0].when.current_resource = PresenceCondition::Present;
    let report = MacroEngine::default().replay(&skipping, &mut host).unwrap();
    assert_eq!(report.completed, 0);
    assert_eq!(report.skipped_conditions, 1);
    let mut capability = MacroCondition::default();
    capability.required_capabilities.push(CapabilityId::new("resource.copy"));
    assert!(!capability.matches(&host.context));
    assert!(MacroCondition::default().matches(&host.context));
}

#[test]
fn diagnosis_reports_each_step() {
    let engine = MacroEngine::new(ReplayPolicy { allow_trusted_confirmable: false, allow_trusted_destructive: true });
    let host = host(SafetyClass::Confirmable);
    let diagnostic = engine.diagnose(&semantic_macro(MacroTrust::Trusted), &host);
    assert!(diagnostic.macro_available);
    assert_eq!(diagnostic.steps.len(), 1);
    assert_eq!(diagnostic.steps[0].command, "near.collection.move");
    assert_eq!(diagnostic.steps[0].safety, Some(SafetyClass::Confirmable));
    assert!(!diagnostic.steps[0].authorized);
    let mut unavailable = host;
    unavailable.available = false;
    let failed = engine.diagnose(&semantic_macro(MacroTrust::Trusted), &unavailable);
    assert_eq!(failed.steps[0].error.as_deref(), Some("unavailable in test context"));
    assert!(authorized(SafetyClass::Destructive, MacroTrust::Trusted, ReplayPolicy { allow_trusted_confirmable: false, allow_trusted_destructive: true }));
    assert!(authorized(SafetyClass::Reversible, MacroTrust::Untrusted, ReplayPolicy::default()));
}

#[test]
fn recorder_refuses_nested_and_missing_recordings() {
    let mut recorder = MacroRecorder::default();
    assert_eq!(recorder.finish(), Err(MacroError::NotRecording));
    recorder.start(semantic_macro(MacroTrust::Untrusted)).unwrap();
    assert!(recorder.is_recording());
    assert_eq!(recorder.start(semantic_macro(MacroTrust::Untrusted)), Err(MacroError::AlreadyRecording));
    let finished = recorder.finish().unwrap();
    assert!(finished.steps.is_empty());
    assert_eq!(
        MacroError::SafetyDenied { step: 2, safety: SafetyClass::Destructive }.message(),
        "macro step 2 with safety Destructive is not authorized"
    );
    assert_eq!(MacroError::UnsupportedSchema(7).message(), "unsupported macro schema version 7");
}
