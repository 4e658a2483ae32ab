//! Semantic macros: recorded command invocations with conditions, versioned macro
//! documents, replay under a safety policy, and diagnosis of a macro in a context.

use vstd::prelude::*;

use crate::command::{ActionContext, CommandInvocation, SafetyClass};
use crate::ids::{CapabilityId, ContextId};
use crate::ops::{safety_name, spec_safety_name};
use crate::text::{decimal, push_str, spec_trim, str_eq, trim_is_empty, usize_decimal};

verus! {

broadcast use vstd::string::group_string_axioms;

/// The macro document schema written by this version.
pub const MACRO_SCHEMA_VERSION: u16 = 2;

/// A condition on whether something is present.
#[derive(Clone, Copy, Debug, Eq, PartialEq, Structural)]
pub enum PresenceCondition {
    Any,
    Present,
    Absent,
}

impl Default for PresenceCondition {
    fn default() -> (r: Self)
        ensures
            r == PresenceCondition::Any,
    {
        PresenceCondition::Any
    }
}

/// Whether a presence condition holds.
pub open spec fn presence_holds(c: PresenceCondition, present: bool) -> bool {
    match c {
        PresenceCondition::Any => true,
        PresenceCondition::Present => present,
        PresenceCondition::Absent => !present,
    }
}

fn presence_matches(c: PresenceCondition, present: bool) -> (r: bool)
    ensures
        r == presence_holds(c, present),
{
    match c {
        PresenceCondition::Any => true,
        PresenceCondition::Present => present,
        PresenceCondition::Absent => !present,
    }
}

/// What a macro or a step needs of the context to run.
#[derive(Debug, PartialEq, Eq)]
pub struct MacroCondition {
    pub required_contexts: Vec<ContextId>,
    pub required_capabilities: Vec<CapabilityId>,
    pub current_resource: PresenceCondition,
    pub peer_surface: PresenceCondition,
}

impl Default for MacroCondition {
    fn default() -> (r: Self)
        ensures
            r.required_contexts@.len() == 0,
            r.required_capabilities@.len() == 0,
            r.current_resource == PresenceCondition::Any,
            r.peer_surface == PresenceCondition::Any,
    {
        MacroCondition {
            required_contexts: Vec::new(),
            required_capabilities: Vec::new(),
            current_resource: PresenceCondition::Any,
            peer_surface: PresenceCondition::Any,
        }
    }
}

/// The contexts and the action state a macro runs in.
#[derive(Clone, Debug, Eq, PartialEq)]
pub struct MacroContext {
    pub contexts: Vec<ContextId>,
    pub action: ActionContext,
}

/// Whether a condition holds in a context: every required context is active, every
/// required capability is offered, and the current resource and the peer surface are
/// present or absent as required.
pub open spec fn condition_holds(c: MacroCondition, ctx: MacroContext) -> bool {
    &&& forall|i: int|
        0 <= i < c.required_contexts@.len() ==> context_active(ctx.contexts@, #[trigger] c.required_contexts@[i])
    &&& forall|i: int|
        0 <= i < c.required_capabilities@.len() ==> ctx.action.capabilities.spec_set().contains(
            (#[trigger] c.required_capabilities@[i])@,
        )
    &&& presence_holds(c.current_resource, ctx.action.current is Some)
    &&& presence_holds(c.peer_surface, ctx.action.peer_surface is Some)
}

/// Whether a context with this identifier is active.
pub open spec fn context_active(contexts: Seq<ContextId>, id: ContextId) -> bool {
    exists|j: int| 0 <= j < contexts.len() && (#[trigger] contexts[j])@ == id@
}

fn has_context(contexts: &Vec<ContextId>, id: &ContextId) -> (r: bool)
    ensures
        r == context_active(contexts@, *id),
{
    let mut j: usize = 0;
    while j < contexts.len()
        invariant
            j <= contexts@.len(),
            forall|k: int| 0 <= k < j ==> (#[trigger] contexts@[k])@ != id@,
        decreases contexts@.len() - j,
    {
        if contexts[j].same(id) {
            return true;
        }
        j = j + 1;
    }
    false
}

impl MacroCondition {
    /// Whether the condition holds in a context.
    pub fn matches(&self, context: &MacroContext) -> (r: bool)
        ensures
            r == condition_holds(*self, *context),
    {
        let mut i: usize = 0;
        while i < self.required_contexts.len()
            invariant
                i <= self.required_contexts@.len(),
                forall|k: int|
                    0 <= k < i ==> context_active(context.contexts@, #[trigger] self.required_contexts@[k]),
            decreases self.required_contexts@.len() - i,
        {
            if !has_context(&context.contexts, &self.required_contexts[i]) {
                return false;
            }
            i = i + 1;
        }
        let mut c: usize = 0;
        while c < self.required_capabilities.len()
            invariant
                c <= self.required_capabilities@.len(),
                forall|k: int|
                    0 <= k < self.required_contexts@.len() ==> context_active(context.contexts@, #[trigger] self.required_contexts@[k]),
                forall|k: int|
                    0 <= k < c ==> context.action.capabilities.spec_set().contains(
                        (#[trigger] self.required_capabilities@[k])@,
                    ),
            decreases self.required_capabilities@.len() - c,
        {
            if !context.action.capabilities.contains(&self.required_capabilities[c]) {
                return false;
            }
            c = c + 1;
        }
        presence_matches(self.current_resource, context.action.current.is_some()) && presence_matches(
            self.peer_surface,
            context.action.peer_surface.is_some(),
        )
    }
}

/// Whether a macro's author is trusted to run commands that need confirmation.
#[derive(Clone, Copy, Debug, Eq, PartialEq, Structural)]
pub enum MacroTrust {
    Untrusted,
    Trusted,
}

impl Default for MacroTrust {
    fn default() -> (r: Self)
        ensures
            r == MacroTrust::Untrusted,
    {
        MacroTrust::Untrusted
    }
}

/// One recorded invocation and the condition under which it runs.
#[derive(Debug, PartialEq)]
pub struct MacroStep {
    pub invocation: CommandInvocation,
    pub when: MacroCondition,
}

/// A named sequence of semantic command invocations.
#[derive(Debug, PartialEq)]
pub struct SemanticMacro {
    pub id: String,
    pub title: String,
    pub binding: Option<String>,
    pub trust: MacroTrust,
    pub when: MacroCondition,
    pub steps: Vec<MacroStep>,
}

/// A versioned catalog of macros.
#[derive(Debug, PartialEq)]
pub struct MacroDocument {
    pub schema_version: u16,
    pub macros: Vec<SemanticMacro>,
}

/// Why a macro document is invalid.
#[derive(Clone, Copy, Debug, Eq, PartialEq, Structural)]
pub enum MacroFault {
    UnsupportedSchema,
    EmptyId,
    DuplicateId,
    BindingRequiresSchemaTwo,
    EmptyBinding,
    EmptyCommand,
}

/// What is wrong with one macro of a document, given the macros before it.
pub open spec fn macro_fault(m: SemanticMacro, schema: u16, earlier: Seq<SemanticMacro>) -> Option<MacroFault> {
    if spec_trim(m.id@).len() == 0 {
        Some(MacroFault::EmptyId)
    } else if exists|j: int| 0 <= j < earlier.len() && (#[trigger] earlier[j]).id@ == m.id@ {
        Some(MacroFault::DuplicateId)
    } else if schema == 1 && m.binding is Some {
        Some(MacroFault::BindingRequiresSchemaTwo)
    } else if m.binding matches Some(b) && spec_trim(b@).len() == 0 {
        Some(MacroFault::EmptyBinding)
    } else if exists|k: int| 0 <= k < m.steps@.len() && (#[trigger] m.steps@[k]).invocation.id@.len() == 0 {
        Some(MacroFault::EmptyCommand)
    } else {
        None
    }
}

/// The first fault among the first `n` macros, with the macro's position.
pub open spec fn first_macro_fault(macros: Seq<SemanticMacro>, schema: u16, n: nat) -> Option<(int, MacroFault)>
    decreases n,
{
    if n == 0 {
        None
    } else {
        match first_macro_fault(macros, schema, (n - 1) as nat) {
            Some(f) => Some(f),
            None => match macro_fault(macros[n - 1], schema, macros.take(n - 1)) {
                Some(f) => Some((n - 1, f)),
                None => None,
            },
        }
    }
}

/// Whether an error reports a fault of the macro with this identifier.
pub open spec fn reports_fault(e: MacroError, fault: MacroFault, id: Seq<char>) -> bool {
    match fault {
        MacroFault::UnsupportedSchema => false,
        MacroFault::EmptyId => e == MacroError::EmptyId,
        MacroFault::DuplicateId => e matches MacroError::DuplicateId(x) && x@ == id,
        MacroFault::BindingRequiresSchemaTwo => e matches MacroError::BindingRequiresSchemaTwo(x) && x@ == id,
        MacroFault::EmptyBinding => e matches MacroError::EmptyBinding(x) && x@ == id,
        MacroFault::EmptyCommand => e matches MacroError::EmptyCommand(x) && x@ == id,
    }
}

proof fn lemma_macro_fault_stays(macros: Seq<SemanticMacro>, schema: u16, k: nat, n: nat)
    requires
        k <= n,
        first_macro_fault(macros, schema, k) is Some,
    ensures
        first_macro_fault(macros, schema, n) == first_macro_fault(macros, schema, k),
    decreases n - k,
{
    if k < n {
        lemma_macro_fault_stays(macros, schema, k, (n - 1) as nat);
    }
}

impl MacroDocument {
    /// Validates the schema version, the identifiers and bindings, and that every step names
    /// a command.
    pub fn validate(&self) -> (r: Result<(), MacroError>)
        ensures
            !(self.schema_version == 1 || self.schema_version == MACRO_SCHEMA_VERSION) ==> r
                == Err::<(), MacroError>(MacroError::UnsupportedSchema(self.schema_version)),
            (self.schema_version == 1 || self.schema_version == MACRO_SCHEMA_VERSION) ==> match first_macro_fault(
                self.macros@,
                self.schema_version,
                self.macros@.len(),
            ) {
                None => r is Ok,
                Some((i, f)) => r matches Err(e) && reports_fault(e, f, self.macros@[i].id@),
            },
    {
        if !(self.schema_version == 1 || self.schema_version == MACRO_SCHEMA_VERSION) {
            return Err(MacroError::UnsupportedSchema(self.schema_version));
        }
        let schema = self.schema_version;
        let mut i: usize = 0;
        while i < self.macros.len()
            invariant
                i <= self.macros@.len(),
                schema == self.schema_version,
                self.schema_version == 1 || self.schema_version == MACRO_SCHEMA_VERSION,
                first_macro_fault(self.macros@, schema, i as nat) is None,
            decreases self.macros@.len() - i,
        {
            let m = &self.macros[i];
            let ghost earlier = self.macros@.take(i as int);
            let fault: Option<MacroError> = if trim_is_empty(m.id.as_str()) {
                Some(MacroError::EmptyId)
            } else {
                let mut duplicate = false;
                let mut j: usize = 0;
                while j < i
                    invariant
                        j <= i,
                        i <= self.macros@.len(),
                        *m == self.macros@[i as int],
                        earlier == self.macros@.take(i as int),
                        !duplicate ==> forall|k: int| 0 <= k < j ==> (#[trigger] earlier[k]).id@ != m.id@,
                        duplicate ==> exists|k: int| 0 <= k < earlier.len() && (#[trigger] earlier[k]).id@ == m.id@,
                    decreases i - j,
                {
                    if !duplicate && str_eq(self.macros[j].id.as_str(), m.id.as_str()) {
                        assert(earlier[j as int] == self.macros@[j as int]);
                        duplicate = true;
                    }
                    j = j + 1;
                }
                if duplicate {
                    Some(MacroError::DuplicateId(m.id.clone()))
                } else if schema == 1 && m.binding.is_some() {
                    Some(MacroError::BindingRequiresSchemaTwo(m.id.clone()))
                } else {
                    let empty_binding = match &m.binding {
                        Some(b) => trim_is_empty(b.as_str()),
                        None => false,
                    };
                    if empty_binding {
                        Some(MacroError::EmptyBinding(m.id.clone()))
                    } else {
                        let mut empty_command = false;
                        let mut k: usize = 0;
                        while k < m.steps.len()
                            invariant
                                k <= m.steps@.len(),
                                !empty_command ==> forall|x: int| 0 <= x < k ==> (#[trigger] m.steps@[x]).invocation.id@.len() != 0,
                                empty_command ==> exists|x: int| 0 <= x < m.steps@.len() && (#[trigger] m.steps@[x]).invocation.id@.len() == 0,
                            decreases m.steps@.len() - k,
                        {
                            if !empty_command && m.steps[k].invocation.id.as_str().is_empty() {
                                empty_command = true;
                            }
                            k = k + 1;
                        }
                        if empty_command {
                            Some(MacroError::EmptyCommand(m.id.clone()))
                        } else {
                            None
                        }
                    }
                }
            };
            assert(self.macros@.take(i + 1).drop_last() =~= earlier);
            match fault {
                Some(e) => {
                    proof {
                        lemma_macro_fault_stays(self.macros@, schema, (i + 1) as nat, self.macros@.len());
                    }
                    return Err(e);
                },
                None => {},
            }
            i = i + 1;
        }
        Ok(())
    }
}

/// Which trusted macros may run commands that need confirmation, and destructive ones.
#[derive(Clone, Copy, Debug, Eq, PartialEq, Structural)]
pub struct ReplayPolicy {
    pub allow_trusted_confirmable: bool,
    pub allow_trusted_destructive: bool,
}

impl Default for ReplayPolicy {
    fn default() -> (r: Self)
        ensures
            r.allow_trusted_confirmable,
            !r.allow_trusted_destructive,
    {
        ReplayPolicy { allow_trusted_confirmable: true, allow_trusted_destructive: false }
    }
}

/// Whether a macro may run a command of a safety class: read-only and reversible commands
/// always, confirmable ones only from trusted macros with the policy allowing them, and
/// destructive or privileged ones only from trusted macros with the policy allowing them.
pub open spec fn spec_authorized(safety: SafetyClass, trust: MacroTrust, policy: ReplayPolicy) -> bool {
    match safety {
        SafetyClass::ReadOnly | SafetyClass::Reversible => true,
        SafetyClass::Confirmable => trust == MacroTrust::Trusted && policy.allow_trusted_confirmable,
        SafetyClass::Destructive | SafetyClass::Privileged => trust == MacroTrust::Trusted
            && policy.allow_trusted_destructive,
    }
}

/// Whether a macro may run a command of a safety class.
pub fn authorized(safety: SafetyClass, trust: MacroTrust, policy: ReplayPolicy) -> (r: bool)
    ensures
        r == spec_authorized(safety, trust, policy),
{
    match safety {
        SafetyClass::ReadOnly | SafetyClass::Reversible => true,
        SafetyClass::Confirmable => matches!(trust, MacroTrust::Trusted) && policy.allow_trusted_confirmable,
        SafetyClass::Destructive | SafetyClass::Privileged => matches!(trust, MacroTrust::Trusted)
            && policy.allow_trusted_destructive,
    }
}

/// What a macro runs against: the host's context, its command validation and its dispatcher.
pub trait MacroHost {
    fn macro_context(&self) -> MacroContext;

    /// Validates command registration, typed arguments and availability, giving the
    /// command's safety class.
    fn validate_macro_command(&self, invocation: &CommandInvocation) -> Result<SafetyClass, String>;

    /// Invokes a validated command through the host's normal dispatcher.
    fn invoke_macro_command(&mut self, invocation: &CommandInvocation) -> Result<(), String>;
}

/// What becomes of one step of a replay, given the context the host reports before it, how
/// the host validates its command and how the host's invocation ends: a step whose condition
/// fails is skipped and its command neither validated nor invoked; a command the host does not
/// validate stops the replay; a command the policy does not authorize for the macro's trust
/// is denied and never invoked; otherwise it is invoked, and a failed invocation stops the
/// replay.
pub enum StepOutcome {
    Skipped,
    Completed,
    Stopped(MacroError),
}

pub open spec fn step_outcome(
    policy: ReplayPolicy,
    trust: MacroTrust,
    index: int,
    step: MacroStep,
    context: MacroContext,
    validation: Result<SafetyClass, String>,
    invocation: Result<(), String>,
) -> StepOutcome {
    if !condition_holds(step.when, context) {
        StepOutcome::Skipped
    } else {
        match validation {
            Err(reason) => StepOutcome::Stopped(
                MacroError::CommandUnavailable { step: index as usize, reason },
            ),
            Ok(safety) => if !spec_authorized(safety, trust, policy) {
                StepOutcome::Stopped(MacroError::SafetyDenied { step: index as usize, safety })
            } else {
                match invocation {
                    Err(reason) => StepOutcome::Stopped(
                        MacroError::InvocationFailed { step: index as usize, reason },
                    ),
                    Ok(()) => StepOutcome::Completed,
                }
            },
        }
    }
}

/// Whether a step outcome lets the replay go on.
pub open spec fn continues(o: StepOutcome) -> bool {
    o is Skipped || o is Completed
}

/// How many outcomes are of each kind: completed, then skipped.
pub open spec fn outcome_counts(outs: Seq<StepOutcome>) -> (nat, nat)
    decreases outs.len(),
{
    if outs.len() == 0 {
        (0, 0)
    } else {
        let c = outcome_counts(outs.drop_last());
        match outs.last() {
            StepOutcome::Completed => ((c.0 + 1) as nat, c.1),
            StepOutcome::Skipped => (c.0, (c.1 + 1) as nat),
            StepOutcome::Stopped(_) => c,
        }
    }
}

/// The outcomes of the first steps of a macro, given what the host answered for each.
pub open spec fn trace_outcomes(
    policy: ReplayPolicy,
    m: SemanticMacro,
    contexts: Seq<MacroContext>,
    validations: Seq<Result<SafetyClass, String>>,
    invocations: Seq<Result<(), String>>,
) -> Seq<StepOutcome> {
    Seq::new(
        contexts.len(),
        |k: int| step_outcome(policy, m.trust, k, m.steps@[k], contexts[k], validations[k], invocations[k]),
    )
}

/// A replay result fits what the host answered: the macro's own condition on the first
/// context decides whether it runs at all; the steps then run in order, each as
/// `step_outcome` says, until one stops the replay with its error or every step has run and
/// the report counts the completed and skipped steps.
pub open spec fn replay_fits(
    policy: ReplayPolicy,
    m: SemanticMacro,
    first: MacroContext,
    contexts: Seq<MacroContext>,
    validations: Seq<Result<SafetyClass, String>>,
    invocations: Seq<Result<(), String>>,
    r: Result<ReplayReport, MacroError>,
) -> bool {
    if !condition_holds(m.when, first) {
        r matches Err(MacroError::ContextUnavailable(id)) && id@ == m.id@ && contexts.len() == 0
    } else {
        let outs = trace_outcomes(policy, m, contexts, validations, invocations);
        &&& contexts.len() <= m.steps@.len()
        &&& validations.len() == contexts.len()
        &&& invocations.len() == contexts.len()
        &&& forall|k: int| 0 <= k < outs.len() - 1 ==> continues(#[trigger] outs[k])
        &&& if outs.len() > 0 && !continues(outs.last()) {
            outs.last() matches StepOutcome::Stopped(e) && r == Err::<ReplayReport, MacroError>(e)
        } else {
            &&& contexts.len() == m.steps@.len()
            &&& r matches Ok(report) && report.completed == outcome_counts(outs).0
                && report.skipped_conditions == outcome_counts(outs).1
        }
    }
}

/// How many steps of a replay ran and how many were skipped by their condition.
#[derive(Clone, Copy, Debug, Eq, PartialEq, Structural)]
pub struct ReplayReport {
    pub completed: usize,
    pub skipped_conditions: usize,
}

impl Default for ReplayReport {
    fn default() -> (r: Self)
        ensures
            r.completed == 0,
            r.skipped_conditions == 0,
    {
        ReplayReport { completed: 0, skipped_conditions: 0 }
    }
}

/// What a diagnosis finds of one step.
#[derive(Clone, Debug, Eq, PartialEq)]
pub struct MacroStepDiagnostic {
    pub step: usize,
    pub command: String,
    pub condition_matches: bool,
    pub safety: Option<SafetyClass>,
    pub authorized: bool,
    pub error: Option<String>,
}

/// What a diagnosis finds of a macro.
#[derive(Clone, Debug, Eq, PartialEq)]
pub struct MacroDiagnostic {
    pub macro_available: bool,
    pub steps: Vec<MacroStepDiagnostic>,
}

#[derive(Clone, Debug, Eq, PartialEq)]
pub enum MacroError {
    UnsupportedSchema(u16),
    EmptyId,
    DuplicateId(String),
    BindingRequiresSchemaTwo(String),
    EmptyBinding(String),
    EmptyCommand(String),
    ContextUnavailable(String),
    CommandUnavailable { step: usize, reason: String },
    SafetyDenied { step: usize, safety: SafetyClass },
    InvocationFailed { step: usize, reason: String },
    NotRecording,
    AlreadyRecording,
}

/// The message a macro error displays.
pub open spec fn macro_error_text(e: MacroError) -> Seq<char> {
    match e {
        MacroError::UnsupportedSchema(v) => "unsupported macro schema version "@ + decimal(v as nat),
        MacroError::EmptyId => "macro IDs cannot be empty"@,
        MacroError::DuplicateId(id) => "duplicate macro ID "@ + id@,
        MacroError::BindingRequiresSchemaTwo(id) => "macro "@ + id@
            + " uses a binding that requires schema version 2"@,
        MacroError::EmptyBinding(id) => "macro "@ + id@ + " contains an empty binding"@,
        MacroError::EmptyCommand(id) => "macro "@ + id@ + " contains an empty command ID"@,
        MacroError::ContextUnavailable(id) => "macro "@ + id@ + " is not available in the current context"@,
        MacroError::CommandUnavailable { step, reason } => "macro step "@ + decimal(step as nat)
            + " failed validation: "@ + reason@,
        MacroError::SafetyDenied { step, safety } => "macro step "@ + decimal(step as nat)
            + " with safety "@ + spec_safety_name(safety) + " is not authorized"@,
        MacroError::InvocationFailed { step, reason } => "macro step "@ + decimal(step as nat) + " failed: "@
            + reason@,
        MacroError::NotRecording => "no macro recording is active"@,
        MacroError::AlreadyRecording => "a macro recording is already active"@,
    }
}

impl MacroError {
    /// The message the error displays.
    pub fn message(&self) -> (r: String)
        ensures
            r@ == macro_error_text(*self),
    {
        match self {
            MacroError::UnsupportedSchema(v) => {
                let mut m = "unsupported macro schema version ".to_owned();
                let digits = usize_decimal(*v as usize);
                push_str(&mut m, digits.as_str());
                m
            },
            MacroError::EmptyId => "macro IDs cannot be empty".to_owned(),
            MacroError::DuplicateId(id) => {
                let mut m = "duplicate macro ID ".to_owned();
                push_str(&mut m, id.as_str());
                m
            },
            MacroError::BindingRequiresSchemaTwo(id) => {
                let mut m = "macro ".to_owned();
                push_str(&mut m, id.as_str());
                push_str(&mut m, " uses a binding that requires schema version 2");
                m
            },
            MacroError::EmptyBinding(id) => {
                let mut m = "macro ".to_owned();
                push_str(&mut m, id.as_str());
                push_str(&mut m, " contains an empty binding");
                m
            },
            MacroError::EmptyCommand(id) => {
                let mut m = "macro ".to_owned();
                push_str(&mut m, id.as_str());
                push_str(&mut m, " contains an empty command ID");
                m
            },
            MacroError::ContextUnavailable(id) => {
                let mut m = "macro ".to_owned();
                push_str(&mut m, id.as_str());
                push_str(&mut m, " is not available in the current context");
                m
            },
            MacroError::CommandUnavailable { step, reason } => {
                let mut m = "macro step ".to_owned();
                let digits = usize_decimal(*step);
                push_str(&mut m, digits.as_str());
                push_str(&mut m, " failed validation: ");
                push_str(&mut m, reason.as_str());
                m
            },
            MacroError::SafetyDenied { step, safety } => {
                let mut m = "macro step ".to_owned();
                let digits = usize_decimal(*step);
                push_str(&mut m, digits.as_str());
                push_str(&mut m, " with safety ");
                push_str(&mut m, safety_name(*safety));
                push_str(&mut m, " is not authorized");
                m
            },
            MacroError::InvocationFailed { step, reason } => {
                let mut m = "macro step ".to_owned();
                let digits = usize_decimal(*step);
                push_str(&mut m, digits.as_str());
                push_str(&mut m, " failed: ");
                push_str(&mut m, reason.as_str());
                m
            },
            MacroError::NotRecording => "no macro recording is active".to_owned(),
            MacroError::AlreadyRecording => "a macro recording is already active".to_owned(),
        }
    }
}

/// Replays and diagnoses macros under a safety policy.
#[derive(Clone, Copy, Debug)]
pub struct MacroEngine {
    policy: ReplayPolicy,
}

impl Default for MacroEngine {
    fn default() -> (r: Self)
        ensures
            r.spec_policy().allow_trusted_confirmable,
            !r.spec_policy().allow_trusted_destructive,
    {
        MacroEngine { policy: ReplayPolicy::default() }
    }
}

impl MacroEngine {
    /// The policy in force.
    pub closed spec fn spec_policy(&self) -> ReplayPolicy {
        self.policy
    }

    /// A diagnosis fits a context and the host's validation of each step: the macro's and
    /// each step's condition are judged in the context, and each step carries its safety and
    /// authorization, or the validation error.
    pub open spec fn diagnosis_fits(
        &self,
        m: SemanticMacro,
        context: MacroContext,
        validations: Seq<Result<SafetyClass, String>>,
        r: MacroDiagnostic,
    ) -> bool {
        &&& validations.len() == m.steps@.len()
        &&& r.macro_available == condition_holds(m.when, context)
        &&& r.steps@.len() == m.steps@.len()
        &&& forall|i: int|
            0 <= i < r.steps@.len() ==> {
                let d = #[trigger] r.steps@[i];
                &&& d.step == i
                &&& d.command@ == m.steps@[i].invocation.id@
                &&& d.condition_matches == condition_holds(m.steps@[i].when, context)
                &&& match validations[i] {
                    Ok(s) => d.safety == Some(s) && d.authorized == spec_authorized(
                        s,
                        m.trust,
                        self.spec_policy(),
                    ) && d.error is None,
                    Err(e) => d.safety is None && !d.authorized && (d.error matches Some(x) && x@ == e@),
                }
            }
    }

    pub fn new(policy: ReplayPolicy) -> (r: Self)
        ensures
            r.spec_policy() == policy,
    {
        MacroEngine { policy }
    }

    /// Replays a macro through the host's validation and dispatcher: the macro's condition
    /// must hold; a step whose condition fails is skipped; any other step is validated,
    /// authorized under the policy and invoked, and the first failure stops the replay.
    pub fn replay<H: MacroHost>(&self, semantic_macro: &SemanticMacro, host: &mut H) -> (r: Result<
        ReplayReport,
        MacroError,
    >)
        ensures
            exists|first: MacroContext, contexts: Seq<MacroContext>, validations: Seq<
                Result<SafetyClass, String>,
            >, invocations: Seq<Result<(), String>>|
                #[trigger] replay_fits(
                    self.spec_policy(),
                    *semantic_macro,
                    first,
                    contexts,
                    validations,
                    invocations,
                    r,
                ),
            r matches Ok(report) ==> report.completed + report.skipped_conditions == semantic_macro.steps@.len(),
            r matches Err(MacroError::ContextUnavailable(id)) ==> id@ == semantic_macro.id@,
            r matches Err(MacroError::CommandUnavailable { step, .. }) ==> step < semantic_macro.steps@.len(),
            r matches Err(MacroError::InvocationFailed { step, .. }) ==> step < semantic_macro.steps@.len(),
            r matches Err(MacroError::SafetyDenied { step, safety }) ==> step < semantic_macro.steps@.len()
                && !spec_authorized(safety, semantic_macro.trust, self.spec_policy()),
            r is Err ==> (r matches Err(MacroError::ContextUnavailable(_)) || r matches Err(
                MacroError::CommandUnavailable { .. },
            ) || r matches Err(MacroError::InvocationFailed { .. }) || r matches Err(
                MacroError::SafetyDenied { .. },
            )),
    {
        let context = host.macro_context();
        let ghost first = context;
        let ghost m = *semantic_macro;
        let ghost policy = self.spec_policy();
        let ghost mut contexts: Seq<MacroContext> = Seq::empty();
        let ghost mut validations: Seq<Result<SafetyClass, String>> = Seq::empty();
        let ghost mut invocations: Seq<Result<(), String>> = Seq::empty();
        if !semantic_macro.when.matches(&context) {
            let r = Err(MacroError::ContextUnavailable(semantic_macro.id.clone()));
            assert(replay_fits(policy, m, first, contexts, validations, invocations, r));
            return r;
        }
        let mut report = ReplayReport::default();
        let mut index: usize = 0;
        assert(outcome_counts(trace_outcomes(policy, m, contexts, validations, invocations)) == (
        0nat, 0nat)) by {
            assert(trace_outcomes(policy, m, contexts, validations, invocations).len() == 0);
        }
        while index < semantic_macro.steps.len()
            invariant
                index <= semantic_macro.steps@.len(),
                report.completed + report.skipped_conditions == index,
                m == *semantic_macro,
                policy == self.spec_policy(),
                condition_holds(m.when, first),
                contexts.len() == index,
                validations.len() == index,
                invocations.len() == index,
                forall|k: int|
                    0 <= k < index ==> continues(
                        #[trigger] trace_outcomes(policy, m, contexts, validations, invocations)[k],
                    ),
                report.completed == outcome_counts(
                    trace_outcomes(policy, m, contexts, validations, invocations),
                ).0,
                report.skipped_conditions == outcome_counts(
                    trace_outcomes(policy, m, contexts, validations, invocations),
                ).1,
            decreases semantic_macro.steps@.len() - index,
        {
            let step = &semantic_macro.steps[index];
            let current = host.macro_context();
            let ghost before = trace_outcomes(policy, m, contexts, validations, invocations);
            if !step.when.matches(&current) {
                proof {
                    let v: Result<SafetyClass, String> = Ok(SafetyClass::ReadOnly);
                    let iv: Result<(), String> = Ok(());
                    contexts = contexts.push(current);
                    validations = validations.push(v);
                    invocations = invocations.push(iv);
                    let after = trace_outcomes(policy, m, contexts, validations, invocations);
                    assert(after.drop_last() =~= before);
                    assert forall|k: int| 0 <= k < before.len() implies continues(#[trigger] after[k]) by {
                        assert(after[k] == before[k]);
                    }
                    assert(after.last() is Skipped);
                }
                report.skipped_conditions = report.skipped_conditions + 1;
                index = index + 1;
                continue;
            }
            let safety = match host.validate_macro_command(&step.invocation) {
                Ok(safety) => safety,
                Err(reason) => {
                    let ghost v: Result<SafetyClass, String> = Err(reason);
                    let r = Err(MacroError::CommandUnavailable { step: index, reason });
                    proof {
                        let iv: Result<(), String> = Ok(());
                        contexts = contexts.push(current);
                        validations = validations.push(v);
                        invocations = invocations.push(iv);
                        let after = trace_outcomes(policy, m, contexts, validations, invocations);
                        assert(after.drop_last() =~= before);
                        assert forall|k: int| 0 <= k < before.len() implies continues(#[trigger] after[k]) by {
                            assert(after[k] == before[k]);
                        }
                    assert forall|k: int| 0 <= k < before.len() implies continues(#[trigger] after[k]) by {
                        assert(after[k] == before[k]);
                    }
                        assert(replay_fits(policy, m, first, contexts, validations, invocations, r));
                    }
                    return r;
                },
            };
            if !authorized(safety, semantic_macro.trust, self.policy) {
                let r = Err(MacroError::SafetyDenied { step: index, safety });
                proof {
                    let v: Result<SafetyClass, String> = Ok(safety);
                    let iv: Result<(), String> = Ok(());
                    contexts = contexts.push(current);
                    validations = validations.push(v);
                    invocations = invocations.push(iv);
                    let after = trace_outcomes(policy, m, contexts, validations, invocations);
                    assert(after.drop_last() =~= before);
                    assert forall|k: int| 0 <= k < before.len() implies continues(#[trigger] after[k]) by {
                        assert(after[k] == before[k]);
                    }
                    assert(replay_fits(policy, m, first, contexts, validations, invocations, r));
                }
                return r;
            }
            match host.invoke_macro_command(&step.invocation) {
                Ok(()) => {},
                Err(reason) => {
                    let ghost iv: Result<(), String> = Err(reason);
                    let r = Err(MacroError::InvocationFailed { step: index, reason });
                    proof {
                        let v: Result<SafetyClass, String> = Ok(safety);
                        contexts = contexts.push(current);
                        validations = validations.push(v);
                        invocations = invocations.push(iv);
                        let after = trace_outcomes(policy, m, contexts, validations, invocations);
                        assert(after.drop_last() =~= before);
                        assert forall|k: int| 0 <= k < before.len() implies continues(#[trigger] after[k]) by {
                            assert(after[k] == before[k]);
                        }
                    assert forall|k: int| 0 <= k < before.len() implies continues(#[trigger] after[k]) by {
                        assert(after[k] == before[k]);
                    }
                        assert(replay_fits(policy, m, first, contexts, validations, invocations, r));
                    }
                    return r;
                },
            }
            proof {
                let v: Result<SafetyClass, String> = Ok(safety);
                let iv: Result<(), String> = Ok(());
                contexts = contexts.push(current);
                validations = validations.push(v);
                invocations = invocations.push(iv);
                let after = trace_outcomes(policy, m, contexts, validations, invocations);
                assert(after.drop_last() =~= before);
                assert forall|k: int| 0 <= k < before.len() implies continues(#[trigger] after[k]) by {
                    assert(after[k] == before[k]);
                }
                assert(after.last() is Completed);
            }
            report.completed = report.completed + 1;
            index = index + 1;
        }
        let r = Ok(report);
        assert(replay_fits(policy, m, first, contexts, validations, invocations, r));
        r
    }

    /// Diagnoses a macro in the host's current context, validating every step.
    pub fn diagnose<H: MacroHost>(&self, semantic_macro: &SemanticMacro, host: &H) -> (r: MacroDiagnostic)
        ensures
            r.steps@.len() == semantic_macro.steps@.len(),
            exists|context: MacroContext, validations: Seq<Result<SafetyClass, String>>|
                #[trigger] self.diagnosis_fits(*semantic_macro, context, validations, r),
    {
        let context = host.macro_context();
        let mut validations: Vec<Result<SafetyClass, String>> = Vec::new();
        let mut i: usize = 0;
        while i < semantic_macro.steps.len()
            invariant
                i <= semantic_macro.steps@.len(),
                validations@.len() == i,
            decreases semantic_macro.steps@.len() - i,
        {
            validations.push(host.validate_macro_command(&semantic_macro.steps[i].invocation));
            i = i + 1;
        }
        let r = self.diagnose_with(semantic_macro, &context, &validations);
        assert(self.diagnosis_fits(*semantic_macro, context, validations@, r));
        r
    }

    /// Diagnoses a macro in a context, given how the host validated each step: whether the
    /// macro and each step's condition hold, and each step's safety and authorization or
    /// validation error.
    pub fn diagnose_with(
        &self,
        semantic_macro: &SemanticMacro,
        context: &MacroContext,
        validations: &Vec<Result<SafetyClass, String>>,
    ) -> (r: MacroDiagnostic)
        requires
            validations@.len() == semantic_macro.steps@.len(),
        ensures
            r.macro_available == condition_holds(semantic_macro.when, *context),
            r.steps@.len() == semantic_macro.steps@.len(),
            forall|i: int|
                0 <= i < r.steps@.len() ==> {
                    let d = #[trigger] r.steps@[i];
                    &&& d.step == i
                    &&& d.command@ == semantic_macro.steps@[i].invocation.id@
                    &&& d.condition_matches == condition_holds(semantic_macro.steps@[i].when, *context)
                    &&& match validations@[i] {
                        Ok(s) => d.safety == Some(s) && d.authorized == spec_authorized(
                            s,
                            semantic_macro.trust,
                            self.spec_policy(),
                        ) && d.error is None,
                        Err(e) => d.safety is None && !d.authorized && (d.error matches Some(x) && x@ == e@),
                    }
                },
    {
        let mut steps: Vec<MacroStepDiagnostic> = Vec::new();
        let mut i: usize = 0;
        while i < semantic_macro.steps.len()
            invariant
                i <= semantic_macro.steps@.len(),
                validations@.len() == semantic_macro.steps@.len(),
                steps@.len() == i,
                forall|k: int|
                    0 <= k < i ==> {
                        let d = #[trigger] steps@[k];
                        &&& d.step == k
                        &&& d.command@ == semantic_macro.steps@[k].invocation.id@
                        &&& d.condition_matches == condition_holds(semantic_macro.steps@[k].when, *context)
                        &&& match validations@[k] {
                            Ok(s) => d.safety == Some(s) && d.authorized == spec_authorized(
                                s,
                                semantic_macro.trust,
                                self.spec_policy(),
                            ) && d.error is None,
                            Err(e) => d.safety is None && !d.authorized && (d.error matches Some(x) && x@ == e@),
                        }
                    },
            decreases semantic_macro.steps@.len() - i,
        {
            let step = &semantic_macro.steps[i];
            let condition_matches = step.when.matches(context);
            let command = step.invocation.id.as_str().to_owned();
            let d = match &validations[i] {
                Ok(safety) => MacroStepDiagnostic {
                    step: i,
                    command,
                    condition_matches,
                    safety: Some(*safety),
                    authorized: authorized(*safety, semantic_macro.trust, self.policy),
                    error: None,
                },
                Err(error) => MacroStepDiagnostic {
                    step: i,
                    command,
                    condition_matches,
                    safety: None,
                    authorized: false,
                    error: Some(error.clone()),
                },
            };
            steps.push(d);
            i = i + 1;
        }
        MacroDiagnostic { macro_available: semantic_macro.when.matches(context), steps }
    }
}

/// Records semantic invocations into a macro.
#[derive(Debug)]
pub struct MacroRecorder {
    active: Option<SemanticMacro>,
}

impl Default for MacroRecorder {
    fn default() -> (r: Self)
        ensures
            !r.recording(),
    {
        MacroRecorder { active: None }
    }
}

impl MacroRecorder {
    /// Whether a recording is active.
    pub closed spec fn recording(&self) -> bool {
        self.active is Some
    }

    /// The macro being recorded, when one is.
    pub closed spec fn spec_active(&self) -> Option<SemanticMacro> {
        self.active
    }

    /// Starts recording into a macro, dropping any steps it had.
    pub fn start(&mut self, semantic_macro: SemanticMacro) -> (r: Result<(), MacroError>)
        ensures
            old(self).recording() ==> r == Err::<(), MacroError>(MacroError::AlreadyRecording)
                && final(self).spec_active() == old(self).spec_active(),
            !old(self).recording() ==> r is Ok && (final(self).spec_active() matches Some(m) && m.id
                == semantic_macro.id && m.title == semantic_macro.title && m.binding == semantic_macro.binding
                && m.trust == semantic_macro.trust && m.when == semantic_macro.when && m.steps@.len() == 0),
    {
        if self.active.is_some() {
            return Err(MacroError::AlreadyRecording);
        }
        let SemanticMacro { id, title, binding, trust, when, steps } = semantic_macro;
        self.active = Some(SemanticMacro { id, title, binding, trust, when, steps: Vec::new() });
        Ok(())
    }

    /// Whether a recording is active.
    pub fn is_recording(&self) -> (r: bool)
        ensures
            r == self.recording(),
    {
        self.active.is_some()
    }

    /// Appends an invocation, with no condition, to the active recording; without one,
    /// nothing happens.
    pub fn record(&mut self, invocation: CommandInvocation)
        ensures
            !old(self).recording() ==> final(self).spec_active() == old(self).spec_active(),
            old(self).recording() ==> (final(self).spec_active() matches Some(m) && old(self).spec_active() matches Some(
                o,
            ) && m.id == o.id && m.title == o.title && m.binding == o.binding && m.trust == o.trust && m.when
                == o.when && m.steps@.len() == o.steps@.len() + 1 && (forall|i: int|
                0 <= i < o.steps@.len() ==> m.steps@[i] == o.steps@[i]) && m.steps@.last().invocation
                == invocation && m.steps@.last().when.required_contexts@.len() == 0
                && m.steps@.last().when.required_capabilities@.len() == 0
                && m.steps@.last().when.current_resource == PresenceCondition::Any
                && m.steps@.last().when.peer_surface == PresenceCondition::Any),
    {
        match self.active.take() {
            Some(mut active) => {
                active.steps.push(MacroStep { invocation, when: MacroCondition::default() });
                self.active = Some(active);
            },
            None => {},
        }
    }

    /// Finishes the recording and hands out the macro.
    pub fn finish(&mut self) -> (r: Result<SemanticMacro, MacroError>)
        ensures
            !final(self).recording(),
            match old(self).spec_active() {
                Some(m) => r == Ok::<SemanticMacro, MacroError>(m),
                None => r == Err::<SemanticMacro, MacroError>(MacroError::NotRecording),
            },
    {
        match self.active.take() {
            Some(m) => Ok(m),
            None => Err(MacroError::NotRecording),
        }
    }
}


/// The peer-surface and current-resource requirements of a condition are met exactly by the
/// presence of a peer surface and of a current resource in the context's action: a condition
/// that requires a peer surface holds only where the action has one, whatever the current
/// resource, and one that requires none only where it has none; the same for the current
/// resource. A condition that asks for nothing else holds exactly when those two match.
pub proof fn law_condition_presence(c: MacroCondition, ctx: MacroContext)
    ensures
        c.peer_surface == PresenceCondition::Present && condition_holds(c, ctx)
            ==> ctx.action.peer_surface is Some,
        c.peer_surface == PresenceCondition::Absent && condition_holds(c, ctx)
            ==> ctx.action.peer_surface is None,
        c.current_resource == PresenceCondition::Present && condition_holds(c, ctx)
            ==> ctx.action.current is Some,
        c.current_resource == PresenceCondition::Absent && condition_holds(c, ctx)
            ==> ctx.action.current is None,
        c.required_contexts@.len() == 0 && c.required_capabilities@.len() == 0
            && c.current_resource == PresenceCondition::Any ==> (condition_holds(c, ctx) <==> match c.peer_surface {
            PresenceCondition::Any => true,
            PresenceCondition::Present => ctx.action.peer_surface is Some,
            PresenceCondition::Absent => ctx.action.peer_surface is None,
        }),
        c.required_contexts@.len() == 0 && c.required_capabilities@.len() == 0
            && c.peer_surface == PresenceCondition::Any ==> (condition_holds(c, ctx) <==> match c.current_resource {
            PresenceCondition::Any => true,
            PresenceCondition::Present => ctx.action.current is Some,
            PresenceCondition::Absent => ctx.action.current is None,
        }),
{
}

} // verus!
