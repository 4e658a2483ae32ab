//! Authorized execution of recorded plans, conflict decisions and the audit journal.

use vstd::prelude::*;

use crate::command::SafetyClass;
use crate::ids::OperationId;
use crate::ops::{
    item_views, plan_rejection, same_but_target, spec_operation_id, next_number,
    ConflictPolicy, OperationFailurePresentation, OperationKind, OperationPlan, OperationPlanner,
    PlanError, PlanRequest, PlanStore, PlannedItem, PlannedItemView,
};
use crate::provider::{CancellationToken, ListingGeneration};
use crate::resource::{Location, ResourceRef};
use crate::strmap::StrMap;
use crate::text::{decimal, push_str, u64_decimal, usize_decimal};

verus! {

broadcast use vstd::string::group_string_axioms;

/// What to do with an item whose target already exists.
#[derive(Clone, Copy, Debug, PartialEq, Eq, Structural)]
pub enum ConflictAction {
    Replace,
    Skip,
    Rename,
    Cancel,
}

/// Whether a conflict decision holds for one item or for all that follow.
#[derive(Clone, Copy, Debug, PartialEq, Eq, Structural)]
pub enum DecisionScope {
    Once,
    Remaining,
}

#[derive(Clone, Copy, Debug, PartialEq, Eq, Structural)]
pub struct ConflictDecision {
    pub action: ConflictAction,
    pub scope: DecisionScope,
}

/// Asks the user how to resolve a conflict.
pub trait ConflictResolver {
    fn decide(&mut self, plan: &OperationPlan, item: &PlannedItem) -> ConflictDecision;
}

/// What a user asked for, before a provider resolves it into a plan.
#[derive(Clone, Debug, PartialEq, Eq)]
pub enum OperationIntent {
    CopyTo { sources: Vec<ResourceRef>, destination: Location },
    MoveTo { sources: Vec<ResourceRef>, destination: Location },
    Trash { sources: Vec<ResourceRef> },
    Restore { items: Vec<(ResourceRef, Location)> },
    Delete { sources: Vec<ResourceRef>, recursive: bool },
    Wipe { sources: Vec<ResourceRef>, passes: u8 },
    CreateDirectory { parent: Location, name: String },
    Rename { items: Vec<(ResourceRef, String)> },
    CreateLink { source: ResourceRef, name: String, kind: LinkKind },
    SetAttributes { sources: Vec<ResourceRef>, update: AttributeUpdate, recursive: bool },
}

#[derive(Clone, Copy, Debug, PartialEq, Eq, Structural)]
pub enum LinkKind {
    Hard,
    Symbolic,
    Junction,
}

/// Attribute changes; a field left `None` is not changed.
#[derive(Clone, Copy, Debug, PartialEq, Eq, Structural)]
pub struct AttributeUpdate {
    pub readonly: Option<bool>,
    pub unix_mode: Option<u32>,
    pub owner: Option<u32>,
    pub group: Option<u32>,
    pub modified_unix_ms: Option<i64>,
    pub accessed_unix_ms: Option<i64>,
}

impl Default for AttributeUpdate {
    fn default() -> (r: Self)
        ensures
            r.readonly is None && r.unix_mode is None && r.owner is None && r.group is None
                && r.modified_unix_ms is None && r.accessed_unix_ms is None,
    {
        AttributeUpdate {
            readonly: None,
            unix_mode: None,
            owner: None,
            group: None,
            modified_unix_ms: None,
            accessed_unix_ms: None,
        }
    }
}

impl AttributeUpdate {
    /// Whether the update changes nothing.
    pub fn is_empty(&self) -> (r: bool)
        ensures
            r == (self.readonly is None && self.unix_mode is None && self.owner is None
                && self.group is None && self.modified_unix_ms is None
                && self.accessed_unix_ms is None),
    {
        self.readonly.is_none() && self.unix_mode.is_none() && self.owner.is_none()
            && self.group.is_none() && self.modified_unix_ms.is_none()
            && self.accessed_unix_ms.is_none()
    }
}

/// What the user confirmed before a plan runs.
#[derive(Clone, Copy, Debug, PartialEq, Eq, Structural)]
pub struct ExecutionAuthorization {
    pub context_generation: ListingGeneration,
    pub confirmed: bool,
    pub high_impact_confirmed: bool,
}

/// How one item of a plan ended.
#[derive(Clone, Debug, PartialEq, Eq)]
pub enum ItemStatus {
    Completed,
    Skipped(String),
    Failed(String),
    Pending,
}

impl ItemStatus {
    /// A copy of the status.
    pub fn duplicate(&self) -> (r: Self)
        ensures
            r == *self,
    {
        match self {
            ItemStatus::Completed => ItemStatus::Completed,
            ItemStatus::Skipped(s) => ItemStatus::Skipped(s.clone()),
            ItemStatus::Failed(s) => ItemStatus::Failed(s.clone()),
            ItemStatus::Pending => ItemStatus::Pending,
        }
    }
}

#[derive(Debug, PartialEq, Eq)]
pub struct ItemOutcome {
    pub item: PlannedItem,
    pub status: ItemStatus,
}

impl View for ItemOutcome {
    type V = (PlannedItemView, ItemStatus);

    open spec fn view(&self) -> (PlannedItemView, ItemStatus) {
        (self.item@, self.status)
    }
}

impl Clone for ItemOutcome {
    fn clone(&self) -> (r: Self)
        ensures
            r@ == self@,
    {
        ItemOutcome { item: self.item.duplicate(), status: self.status.duplicate() }
    }
}

/// The outcome of every item of an executed plan.
#[derive(Debug, PartialEq, Eq)]
pub struct ExecutionSummary {
    pub plan: OperationId,
    pub kind: OperationKind,
    pub items: Vec<ItemOutcome>,
    pub cancelled: bool,
}

/// What a summary says: its plan, kind, outcomes and whether it was cancelled.
pub type ExecutionSummaryView = (OperationId, OperationKind, Seq<(PlannedItemView, ItemStatus)>, bool);

impl View for ExecutionSummary {
    type V = ExecutionSummaryView;

    open spec fn view(&self) -> ExecutionSummaryView {
        (self.plan, self.kind, self.items@.map_values(|o: ItemOutcome| o@), self.cancelled)
    }
}

impl Clone for ExecutionSummary {
    fn clone(&self) -> (r: Self)
        ensures
            r@ == self@,
    {
        self.duplicate()
    }
}

/// Tag of a status: completed, skipped, failed, pending.
pub open spec fn status_tag(s: ItemStatus) -> u8 {
    match s {
        ItemStatus::Completed => 0,
        ItemStatus::Skipped(_) => 1,
        ItemStatus::Failed(_) => 2,
        ItemStatus::Pending => 3,
    }
}

fn tag_of(s: &ItemStatus) -> (r: u8)
    ensures
        r == status_tag(*s),
{
    match s {
        ItemStatus::Completed => 0,
        ItemStatus::Skipped(_) => 1,
        ItemStatus::Failed(_) => 2,
        ItemStatus::Pending => 3,
    }
}

/// Number of outcomes whose status has the tag.
pub open spec fn count_tag(items: Seq<ItemOutcome>, tag: u8) -> nat
    decreases items.len(),
{
    if items.len() == 0 {
        0
    } else {
        count_tag(items.drop_last(), tag) + if status_tag(items.last().status) == tag {
            1nat
        } else {
            0nat
        }
    }
}

fn count_with_tag(items: &Vec<ItemOutcome>, tag: u8) -> (r: usize)
    ensures
        r == count_tag(items@, tag),
{
    let mut n: usize = 0;
    let mut i: usize = 0;
    while i < items.len()
        invariant
            i <= items@.len(),
            n == count_tag(items@.take(i as int), tag),
            n <= i,
        decreases items@.len() - i,
    {
        assert(items@.take(i + 1).drop_last() =~= items@.take(i as int));
        if tag_of(&items[i].status) == tag {
            n = n + 1;
        }
        i = i + 1;
    }
    assert(items@.take(i as int) =~= items@);
    n
}

/// The source location of an item, or its target where it has no source.
pub open spec fn shown_location(item: PlannedItem) -> Seq<char> {
    match item.source {
        Some(s) => s.location@,
        None => item.target@,
    }
}

/// One paragraph per failed item: where it was and why it failed.
pub open spec fn failure_entries(items: Seq<ItemOutcome>) -> Seq<Seq<char>>
    decreases items.len(),
{
    if items.len() == 0 {
        Seq::empty()
    } else {
        let rest = failure_entries(items.drop_last());
        match items.last().status {
            ItemStatus::Failed(error) => rest.push(
                shown_location(items.last().item) + "\n  "@ + error@,
            ),
            _ => rest,
        }
    }
}

/// Parts joined by a separator.
pub open spec fn join(parts: Seq<Seq<char>>, sep: Seq<char>) -> Seq<char>
    decreases parts.len(),
{
    if parts.len() == 0 {
        Seq::empty()
    } else if parts.len() == 1 {
        parts[0]
    } else {
        join(parts.drop_last(), sep) + sep + parts.last()
    }
}

pub open spec fn retry_advice(retry_available: bool) -> Seq<char> {
    if retry_available {
        "Close this message, then authorize the exact retained plan with the elevated retry command."@
    } else {
        "Close this message and inspect the retained task history."@
    }
}

/// The outcomes of failed and pending items, the ones a retry runs again.
pub open spec fn retryable(outcomes: Seq<ItemOutcome>) -> Seq<PlannedItemView>
    decreases outcomes.len(),
{
    if outcomes.len() == 0 {
        Seq::empty()
    } else {
        let rest = retryable(outcomes.drop_last());
        let last = outcomes.last();
        if last.status is Failed || last.status is Pending {
            rest.push(last.item@)
        } else {
            rest
        }
    }
}

impl ExecutionSummary {
    /// A copy of the summary.
    pub fn duplicate(&self) -> (r: Self)
        ensures
            r@ == self@,
    {
        let mut items: Vec<ItemOutcome> = Vec::new();
        let mut i: usize = 0;
        while i < self.items.len()
            invariant
                i <= self.items@.len(),
                items@.len() == i,
                forall|j: int| 0 <= j < i ==> (#[trigger] items@[j])@ == self.items@[j]@,
            decreases self.items@.len() - i,
        {
            items.push(self.items[i].clone());
            i = i + 1;
        }
        let r = ExecutionSummary {
            plan: self.plan.clone(),
            kind: self.kind,
            items,
            cancelled: self.cancelled,
        };
        assert(r.items@.map_values(|o: ItemOutcome| o@) =~= self.items@.map_values(
            |o: ItemOutcome| o@,
        ));
        r
    }

    pub fn completed(&self) -> (r: usize)
        ensures
            r == count_tag(self.items@, 0),
    {
        count_with_tag(&self.items, 0)
    }

    pub fn skipped(&self) -> (r: usize)
        ensures
            r == count_tag(self.items@, 1),
    {
        count_with_tag(&self.items, 1)
    }

    pub fn failed(&self) -> (r: usize)
        ensures
            r == count_tag(self.items@, 2),
    {
        count_with_tag(&self.items, 2)
    }

    pub fn pending(&self) -> (r: usize)
        ensures
            r == count_tag(self.items@, 3),
    {
        count_with_tag(&self.items, 3)
    }

    /// The report shown when items failed: none when every item succeeded, was skipped or is
    /// pending.
    pub fn failure_presentation(&self, retry_available: bool) -> (r: Option<OperationFailurePresentation>)
        ensures
            failure_entries(self.items@).len() == 0 ==> r is None,
            failure_entries(self.items@).len() > 0 ==> (r matches Some(p) && p.title@
                == "Operation Failed"@ && p.body@ == "Operation "@ + self.plan@ + " failed for "@
                + decimal(failure_entries(self.items@).len()) + " item(s).\n\n"@ + join(
                failure_entries(self.items@),
                "\n\n"@,
            ) + "\n\n"@ + retry_advice(retry_available)),
    {
        let mut joined = String::new();
        let mut count: usize = 0;
        let mut i: usize = 0;
        while i < self.items.len()
            invariant
                i <= self.items@.len(),
                count == failure_entries(self.items@.take(i as int)).len(),
                count <= i,
                joined@ == join(failure_entries(self.items@.take(i as int)), "\n\n"@),
            decreases self.items@.len() - i,
        {
            let ghost before = failure_entries(self.items@.take(i as int));
            assert(self.items@.take(i + 1).drop_last() =~= self.items@.take(i as int));
            let outcome = &self.items[i];
            match &outcome.status {
                ItemStatus::Failed(error) => {
                    if count > 0 {
                        push_str(&mut joined, "\n\n");
                    }
                    let location = match &outcome.item.source {
                        Some(s) => s.location.as_str(),
                        None => outcome.item.target.as_str(),
                    };
                    push_str(&mut joined, location);
                    push_str(&mut joined, "\n  ");
                    push_str(&mut joined, error.as_str());
                    count = count + 1;
                    proof {
                        let after = failure_entries(self.items@.take(i + 1));
                        assert(after == before.push(
                            shown_location(outcome.item) + "\n  "@ + error@,
                        ));
                        if before.len() == 0 {
                            reveal_strlit("");
                            assert(after.len() == 1);
                            assert(joined@ =~= after[0]);
                        } else {
                            assert(after.drop_last() =~= before);
                        }
                    }
                },
                _ => {},
            }
            i = i + 1;
        }
        assert(self.items@.take(i as int) =~= self.items@);
        if count == 0 {
            return None;
        }
        let mut body = "Operation ".to_owned();
        push_str(&mut body, self.plan.as_str());
        push_str(&mut body, " failed for ");
        let n = usize_decimal(count);
        push_str(&mut body, n.as_str());
        push_str(&mut body, " item(s).\n\n");
        push_str(&mut body, joined.as_str());
        push_str(&mut body, "\n\n");
        if retry_available {
            push_str(
                &mut body,
                "Close this message, then authorize the exact retained plan with the elevated retry command.",
            );
        } else {
            push_str(&mut body, "Close this message and inspect the retained task history.");
        }
        Some(OperationFailurePresentation { title: "Operation Failed".to_owned(), body })
    }
}

/// What the backend reports of an executed item: the target it chose, where it chose one.
#[derive(Clone, Debug, PartialEq, Eq)]
pub struct ExecutionEffect {
    pub target: Option<Location>,
}

impl Default for ExecutionEffect {
    fn default() -> (r: Self)
        ensures
            r.target is None,
    {
        ExecutionEffect { target: None }
    }
}

/// A plan handed to a privileged helper, with what the user confirmed.
#[derive(Debug, PartialEq, Eq)]
pub struct ElevatedOperationRequest {
    pub plan: OperationPlan,
    pub authorization: ExecutionAuthorization,
    pub conflict: ConflictDecision,
}

/// Carries out items of authorized plans.
pub trait OperationBackend {
    fn target_exists(&self, target: &Location) -> bool;

    /// Applies one item; a failure is reported for that item alone.
    fn execute(
        &mut self,
        plan: &OperationPlan,
        item: &PlannedItem,
        action: Option<ConflictAction>,
        cancellation: &CancellationToken,
    ) -> Result<ExecutionEffect, String>;
}

/// A provider's planning and execution service.
pub trait OperationService {
    /// Produces and records a provider-specific plan.
    fn plan(&mut self, intent: OperationIntent, generation: ListingGeneration) -> Result<
        OperationPlan,
        String,
    >;

    /// Executes a previously recorded plan.
    fn execute(
        &mut self,
        plan: &OperationId,
        authorization: ExecutionAuthorization,
        cancellation: &CancellationToken,
        conflict: ConflictDecision,
    ) -> Result<ExecutionSummary, String>;

    /// Executes a recorded plan through a privilege broker; unsupported unless overridden.
    fn execute_elevated(
        &mut self,
        plan: &OperationId,
        authorization: ExecutionAuthorization,
        conflict: ConflictDecision,
    ) -> (r: Result<ExecutionSummary, String>)
        default_ensures
            (r matches Err(m) && m@ == "privileged retry is unsupported by this operation service"@),
    {
        Err("privileged retry is unsupported by this operation service".to_owned())
    }
}

/// One entry of the audit journal.
#[derive(Debug, PartialEq, Eq)]
pub enum JournalEvent {
    Planned(OperationId),
    Elevated(OperationId),
    Started(OperationId),
    Decision { plan: OperationId, action: ConflictAction, scope: DecisionScope },
    Item { plan: OperationId, index: usize, status: ItemStatus },
    Finished(ExecutionSummary),
}

/// The append-only record of planning and execution, with the last summary of each plan.
/// A journal made for a file names that file; writing the events there is the caller's part.
#[derive(Debug)]
pub struct OperationJournal {
    path: Option<String>,
    events: Vec<JournalEvent>,
    summaries: StrMap<ExecutionSummary>,
}

impl OperationJournal {
    pub closed spec fn spec_events(&self) -> Seq<JournalEvent> {
        self.events@
    }

    pub closed spec fn spec_summaries(&self) -> Map<Seq<char>, ExecutionSummary> {
        self.summaries.map()
    }

    pub closed spec fn spec_path(&self) -> Option<Seq<char>> {
        match self.path {
            Some(p) => Some(p@),
            None => None,
        }
    }

    /// A journal kept in memory only.
    pub fn memory() -> (r: Self)
        ensures
            r.spec_path() is None,
            r.spec_events() == Seq::<JournalEvent>::empty(),
            r.spec_summaries() == Map::<Seq<char>, ExecutionSummary>::empty(),
    {
        let r = OperationJournal { path: None, events: Vec::new(), summaries: StrMap::new() };
        assert(r.spec_summaries() =~= Map::<Seq<char>, ExecutionSummary>::empty());
        r
    }

    /// A journal whose events also belong in the file at `path`.
    pub fn append_file(path: &str) -> (r: Self)
        ensures
            r.spec_path() == Some(path@),
            r.spec_events() == Seq::<JournalEvent>::empty(),
            r.spec_summaries() == Map::<Seq<char>, ExecutionSummary>::empty(),
    {
        let r = OperationJournal {
            path: Some(path.to_owned()),
            events: Vec::new(),
            summaries: StrMap::new(),
        };
        assert(r.spec_summaries() =~= Map::<Seq<char>, ExecutionSummary>::empty());
        r
    }

    /// The file the events belong in, if any.
    pub fn path(&self) -> (r: Option<&str>)
        ensures
            match self.spec_path() {
                Some(p) => (r matches Some(s) && s@ == p),
                None => r is None,
            },
    {
        match &self.path {
            Some(p) => Some(p.as_str()),
            None => None,
        }
    }

    pub fn events(&self) -> (r: &[JournalEvent])
        ensures
            r@ == self.spec_events(),
    {
        self.events.as_slice()
    }

    /// The last summary journaled for a plan.
    pub fn summary(&self, plan: &OperationId) -> (r: Option<&ExecutionSummary>)
        ensures
            match r {
                Some(s) => self.spec_summaries().contains_key(plan@) && *s == self.spec_summaries()[plan@],
                None => !self.spec_summaries().contains_key(plan@),
            },
    {
        self.summaries.get(plan.as_str())
    }

    /// Appends an event; a finished event also becomes the plan's summary.
    fn append(&mut self, event: JournalEvent)
        ensures
            final(self).spec_path() == old(self).spec_path(),
            final(self).spec_events() == old(self).spec_events().push(event),
            match event {
                JournalEvent::Finished(s) => {
                    &&& final(self).spec_summaries().dom() == old(self).spec_summaries().dom().insert(s.plan@)
                    &&& final(self).spec_summaries()[s.plan@]@ == s@
                    &&& forall|k: Seq<char>| k != s.plan@ && old(self).spec_summaries().contains_key(k)
                        ==> final(self).spec_summaries()[k] == old(self).spec_summaries()[k]
                },
                _ => final(self).spec_summaries() == old(self).spec_summaries(),
            },
    {
        match &event {
            JournalEvent::Finished(summary) => {
                let key = summary.plan.as_str().to_owned();
                self.summaries.insert(key, summary.duplicate());
            },
            _ => {},
        }
        self.events.push(event);
    }
}

/// Why an execution was refused.
#[derive(Debug, PartialEq, Eq)]
pub enum ExecutionError {
    UnknownPlan(OperationId),
    StaleContext { planned: ListingGeneration, actual: ListingGeneration },
    ConfirmationRequired,
    HighImpactConfirmationRequired,
    Journal(String),
}

pub open spec fn generation_debug(g: ListingGeneration) -> Seq<char> {
    "ListingGeneration("@ + decimal(g.0 as nat) + ")"@
}

pub open spec fn spec_execution_error_message(e: ExecutionError) -> Seq<char> {
    match e {
        ExecutionError::UnknownPlan(id) => "unknown operation plan: "@ + id@,
        ExecutionError::StaleContext { planned, actual } => "operation context is stale: planned "@
            + generation_debug(planned) + ", actual "@ + generation_debug(actual),
        ExecutionError::ConfirmationRequired => "operation confirmation is required"@,
        ExecutionError::HighImpactConfirmationRequired => "high-impact confirmation is required"@,
        ExecutionError::Journal(detail) => "operation journal failed: "@ + detail@,
    }
}

fn push_generation(out: &mut String, g: ListingGeneration)
    ensures
        final(out)@ == old(out)@ + generation_debug(g),
{
    push_str(out, "ListingGeneration(");
    let n = u64_decimal(g.0);
    push_str(out, n.as_str());
    push_str(out, ")");
}

impl ExecutionError {
    /// The message shown for the error.
    pub fn message(&self) -> (r: String)
        ensures
            r@ == spec_execution_error_message(*self),
    {
        match self {
            ExecutionError::UnknownPlan(id) => {
                let mut m = "unknown operation plan: ".to_owned();
                push_str(&mut m, id.as_str());
                m
            },
            ExecutionError::StaleContext { planned, actual } => {
                let mut m = "operation context is stale: planned ".to_owned();
                push_generation(&mut m, *planned);
                push_str(&mut m, ", actual ");
                push_generation(&mut m, *actual);
                m
            },
            ExecutionError::ConfirmationRequired => "operation confirmation is required".to_owned(),
            ExecutionError::HighImpactConfirmationRequired => "high-impact confirmation is required".to_owned(),
            ExecutionError::Journal(detail) => {
                let mut m = "operation journal failed: ".to_owned();
                push_str(&mut m, detail.as_str());
                m
            },
        }
    }
}

/// The refusal an authorization meets for a plan, if any: a stale listing first, then a
/// missing confirmation of a confirmable or destructive plan, then a missing high-impact
/// confirmation.
pub open spec fn spec_authorization_error(plan: OperationPlan, a: ExecutionAuthorization) -> Option<ExecutionError> {
    if a.context_generation != plan.spec_generation() {
        Some(
            ExecutionError::StaleContext {
                planned: plan.spec_generation(),
                actual: a.context_generation,
            },
        )
    } else if (plan.spec_safety() == SafetyClass::Confirmable || plan.spec_safety()
        == SafetyClass::Destructive) && !a.confirmed {
        Some(ExecutionError::ConfirmationRequired)
    } else if plan.spec_high_impact() && !a.high_impact_confirmed {
        Some(ExecutionError::HighImpactConfirmationRequired)
    } else {
        None
    }
}

fn authorize(plan: &OperationPlan, authorization: ExecutionAuthorization) -> (r: Result<(), ExecutionError>)
    ensures
        match spec_authorization_error(*plan, authorization) {
            Some(e) => r == Err::<(), ExecutionError>(e),
            None => r is Ok,
        },
{
    if authorization.context_generation.0 != plan.context_generation().0 {
        return Err(
            ExecutionError::StaleContext {
                planned: plan.context_generation(),
                actual: authorization.context_generation,
            },
        );
    }
    let needs_confirmation = match plan.safety() {
        SafetyClass::Confirmable | SafetyClass::Destructive => true,
        _ => false,
    };
    if needs_confirmation && !authorization.confirmed {
        return Err(ExecutionError::ConfirmationRequired);
    }
    if plan.high_impact() && !authorization.high_impact_confirmed {
        return Err(ExecutionError::HighImpactConfirmationRequired);
    }
    Ok(())
}

/// The item is taken from the very location it goes to.
pub open spec fn in_place(item: PlannedItemView) -> bool {
    match item.0 {
        Some(s) => s.location@ == item.1@,
        None => false,
    }
}

/// The action taken on a conflict, and the decision kept for the items that follow, agree with
/// the plan's conflict policy and the decision kept before.
pub open spec fn decision_fits(
    policy: ConflictPolicy,
    before: Option<ConflictAction>,
    action: ConflictAction,
    after: Option<ConflictAction>,
) -> bool {
    match policy {
        ConflictPolicy::Replace => action == ConflictAction::Replace && after == Some(ConflictAction::Replace),
        ConflictPolicy::Skip => action == ConflictAction::Skip && after == Some(ConflictAction::Skip),
        ConflictPolicy::Rename => action == ConflictAction::Rename && after == Some(ConflictAction::Rename),
        ConflictPolicy::Ask => match before {
            Some(b) => action == b && after == before,
            None => after is None || after == Some(action),
        },
    }
}

/// What executing item `i` of a plan produced, when it was not left pending.
pub open spec fn outcome_follows(plan: OperationPlan, i: int, o: ItemOutcome) -> bool {
    let it = plan.spec_items()[i]@;
    let policy = plan.spec_policies().conflict;
    &&& o.status !is Pending
    &&& same_but_target(o.item@, it)
    &&& (o.status !is Completed ==> o.item.target == it.1)
    &&& (o.status matches ItemStatus::Skipped(reason) ==> reason@ == "conflict policy"@
        && !in_place(it) && (policy == ConflictPolicy::Skip || policy == ConflictPolicy::Ask))
    &&& (policy == ConflictPolicy::Skip && it.2 && !in_place(it) ==> o.status is Skipped)
}

/// Item `i` of a plan was not started.
pub open spec fn left_pending(plan: OperationPlan, i: int, o: ItemOutcome) -> bool {
    o.status is Pending && o.item@ == plan.spec_items()[i]@
}

/// A summary reports a plan: one outcome per item, in order. The pending items form a tail
/// that was never started, every other item ran, and the run counts as cancelled exactly when
/// that tail is not empty.
pub open spec fn summary_follows(plan: OperationPlan, id: OperationId, s: ExecutionSummary) -> bool {
    let n = plan.spec_items().len();
    &&& s.plan == id
    &&& s.kind == plan.spec_kind()
    &&& s.items@.len() == n
    &&& forall|i: int| 0 <= i < n ==> {
        let o = #[trigger] s.items@[i];
        if o.status is Pending {
            left_pending(plan, i, o)
        } else {
            outcome_follows(plan, i, o)
        }
    }
    &&& forall|i: int, j: int|
        0 <= i < j < n && (#[trigger] s.items@[i]).status is Pending ==> (#[trigger] s.items@[j]).status is Pending
    &&& s.cancelled <==> (n > 0 && s.items@[n - 1].status is Pending)
}

fn in_place_item(item: &PlannedItem) -> (r: bool)
    ensures
        r == in_place(item@),
{
    match &item.source {
        Some(s) => s.location.same(&item.target),
        None => false,
    }
}

/// Decides what to do with an item whose target may already exist, journaling the decision.
fn conflict_action<B: OperationBackend, R: ConflictResolver>(
    backend: &B,
    journal: &mut OperationJournal,
    plan: &OperationPlan,
    item: &PlannedItem,
    resolver: &mut R,
    remaining: &mut Option<ConflictAction>,
) -> (r: Option<ConflictAction>)
    ensures
        final(journal).spec_summaries() == old(journal).spec_summaries(),
        final(journal).spec_path() == old(journal).spec_path(),
        in_place(item@) ==> r is None,
        item.conflict_expected && !in_place(item@) ==> r is Some,
        match r {
            None => {
                &&& *final(remaining) == *old(remaining)
                &&& final(journal).spec_events() == old(journal).spec_events()
            },
            Some(a) => {
                &&& decision_fits(plan.spec_policies().conflict, *old(remaining), a, *final(remaining))
                &&& final(journal).spec_events() == old(journal).spec_events().push(
                    JournalEvent::Decision {
                        plan: plan.spec_id(),
                        action: a,
                        scope: if (*final(remaining)) is Some {
                            DecisionScope::Remaining
                        } else {
                            DecisionScope::Once
                        },
                    },
                )
            },
        },
{
    if in_place_item(item) {
        return None;
    }
    if !item.conflict_expected && !backend.target_exists(&item.target) {
        return None;
    }
    let decision = match plan.policies().conflict {
        ConflictPolicy::Replace => ConflictDecision {
            action: ConflictAction::Replace,
            scope: DecisionScope::Remaining,
        },
        ConflictPolicy::Skip => ConflictDecision {
            action: ConflictAction::Skip,
            scope: DecisionScope::Remaining,
        },
        ConflictPolicy::Rename => ConflictDecision {
            action: ConflictAction::Rename,
            scope: DecisionScope::Remaining,
        },
        ConflictPolicy::Ask => match *remaining {
            Some(action) => ConflictDecision { action, scope: DecisionScope::Remaining },
            None => resolver.decide(plan, item),
        },
    };
    match decision.scope {
        DecisionScope::Remaining => {
            *remaining = Some(decision.action);
        },
        DecisionScope::Once => {},
    }
    journal.append(
        JournalEvent::Decision {
            plan: plan.id().clone(),
            action: decision.action,
            scope: decision.scope,
        },
    );
    Some(decision.action)
}

/// Runs recorded plans through a backend, refusing plans that were not recorded and
/// executions that were not authorized, and journaling what happens.
pub struct OperationEngine<B> {
    backend: B,
    plans: PlanStore,
    journal: OperationJournal,
}

impl<B: OperationBackend> OperationEngine<B> {
    pub closed spec fn spec_plans(&self) -> Map<Seq<char>, OperationPlan> {
        self.plans.spec_map()
    }

    pub closed spec fn spec_journal(&self) -> OperationJournal {
        self.journal
    }

    pub closed spec fn spec_backend(&self) -> B {
        self.backend
    }

    pub fn new(backend: B, journal: OperationJournal) -> (r: Self)
        ensures
            r.spec_backend() == backend,
            r.spec_journal() == journal,
            r.spec_plans() == Map::<Seq<char>, OperationPlan>::empty(),
    {
        OperationEngine { backend, plans: PlanStore::default(), journal }
    }

    /// Records a plan and journals that it was planned.
    pub fn record(&mut self, plan: OperationPlan) -> (r: Result<OperationId, ExecutionError>)
        ensures
            r == Ok::<OperationId, ExecutionError>(plan.spec_id()),
            final(self).spec_plans() == old(self).spec_plans().insert(plan.spec_id()@, plan),
            final(self).spec_backend() == old(self).spec_backend(),
            final(self).spec_journal().spec_events() == old(self).spec_journal().spec_events().push(
                JournalEvent::Planned(plan.spec_id()),
            ),
            final(self).spec_journal().spec_summaries() == old(self).spec_journal().spec_summaries(),
            final(self).spec_journal().spec_path() == old(self).spec_journal().spec_path(),
    {
        let id = self.plans.insert(plan);
        self.journal.append(JournalEvent::Planned(id.clone()));
        Ok(id)
    }

    /// Records a plan for privileged execution, journaling that it was planned and elevated.
    pub fn record_elevated(&mut self, plan: OperationPlan) -> (r: Result<OperationId, ExecutionError>)
        ensures
            r == Ok::<OperationId, ExecutionError>(plan.spec_id()),
            final(self).spec_plans() == old(self).spec_plans().insert(plan.spec_id()@, plan),
            final(self).spec_backend() == old(self).spec_backend(),
            final(self).spec_journal().spec_events() == old(self).spec_journal().spec_events().push(
                JournalEvent::Planned(plan.spec_id()),
            ).push(JournalEvent::Elevated(plan.spec_id())),
            final(self).spec_journal().spec_summaries() == old(self).spec_journal().spec_summaries(),
            final(self).spec_journal().spec_path() == old(self).spec_journal().spec_path(),
    {
        let id = match self.record(plan) {
            Ok(id) => id,
            Err(e) => return Err(e),
        };
        self.journal.append(JournalEvent::Elevated(id.clone()));
        Ok(id)
    }

    /// The plan recorded under an identifier.
    pub fn plan(&self, id: &OperationId) -> (r: Option<&OperationPlan>)
        ensures
            match r {
                Some(p) => self.spec_plans().contains_key(id@) && *p == self.spec_plans()[id@],
                None => !self.spec_plans().contains_key(id@),
            },
    {
        self.plans.get(id)
    }

    pub fn journal(&self) -> (r: &OperationJournal)
        ensures
            *r == self.spec_journal(),
    {
        &self.journal
    }

    pub fn backend_mut(&mut self) -> (r: &mut B)
        ensures
            *r == old(self).spec_backend(),
            final(self).spec_backend() == *final(r),
            final(self).spec_plans() == old(self).spec_plans(),
            final(self).spec_journal() == old(self).spec_journal(),
    {
        &mut self.backend
    }

    /// Authorizes and executes a recorded plan. Unknown plans and refused authorizations
    /// change nothing; otherwise every item gets an outcome, the run is journaled from its
    /// start to its summary, and that summary becomes the plan's journaled summary.
    pub fn execute<R: ConflictResolver>(
        &mut self,
        id: &OperationId,
        authorization: ExecutionAuthorization,
        cancellation: &CancellationToken,
        resolver: &mut R,
    ) -> (r: Result<ExecutionSummary, ExecutionError>)
        ensures
            final(self).spec_plans() == old(self).spec_plans(),
            final(self).spec_journal().spec_path() == old(self).spec_journal().spec_path(),
            !old(self).spec_plans().contains_key(id@) ==> r == Err::<ExecutionSummary, ExecutionError>(
                ExecutionError::UnknownPlan(*id),
            ) && final(self).spec_journal() == old(self).spec_journal(),
            (!old(self).spec_plans().contains_key(id@) || spec_authorization_error(
                old(self).spec_plans()[id@],
                authorization,
            ) is Some) ==> *final(self) == *old(self) && *final(resolver) == *old(resolver),
            old(self).spec_plans().contains_key(id@) ==> match spec_authorization_error(
                old(self).spec_plans()[id@],
                authorization,
            ) {
                Some(e) => r == Err::<ExecutionSummary, ExecutionError>(e) && final(self).spec_journal()
                    == old(self).spec_journal(),
                None => match r {
                    Ok(s) => {
                        let events = final(self).spec_journal().spec_events();
                        let start = old(self).spec_journal().spec_events().len();
                        &&& summary_follows(old(self).spec_plans()[id@], *id, s)
                        &&& events.len() >= start + 2
                        &&& events.take(start as int) == old(self).spec_journal().spec_events()
                        &&& events[start as int] == JournalEvent::Started(*id)
                        &&& (events.last() matches JournalEvent::Finished(f) && f@ == s@)
                        &&& final(self).spec_journal().spec_summaries().dom()
                            == old(self).spec_journal().spec_summaries().dom().insert(id@)
                        &&& final(self).spec_journal().spec_summaries()[id@]@ == s@
                        &&& forall|k: Seq<char>|
                            k != id@ && old(self).spec_journal().spec_summaries().contains_key(k)
                                ==> final(self).spec_journal().spec_summaries()[k]
                                == old(self).spec_journal().spec_summaries()[k]
                    },
                    Err(_) => false,
                },
            },
    {
        let plan = match self.plans.get(id) {
            Some(p) => p,
            None => {
                return Err(ExecutionError::UnknownPlan(id.clone()));
            },
        };
        match authorize(plan, authorization) {
            Err(e) => {
                return Err(e);
            },
            Ok(()) => {},
        }
        let ghost old_events = self.journal.spec_events();
        let ghost old_summaries = self.journal.spec_summaries();
        let ghost start = old_events.len();
        self.journal.append(JournalEvent::Started(id.clone()));
        let ghost started = self.journal.spec_events();
        let items = plan.items();
        let n = items.len();
        let mut outcomes: Vec<ItemOutcome> = Vec::new();
        let mut remaining: Option<ConflictAction> = None;
        let mut cancelled = false;
        let mut index: usize = 0;
        while index < n && !cancelled
            invariant
                items@ == plan.spec_items(),
                n == items@.len(),
                index <= n,
                outcomes@.len() == index,
                cancelled ==> index < n,
                forall|i: int| 0 <= i < index ==> outcome_follows(*plan, i, #[trigger] outcomes@[i]),
                self.journal.spec_events().len() >= started.len(),
                self.journal.spec_events().take(started.len() as int) == started,
                started == old_events.push(JournalEvent::Started(*id)),
                self.journal.spec_summaries() == old_summaries,
                self.journal.spec_path() == old(self).spec_journal().spec_path(),
                self.plans == old(self).plans,
                self.plans.spec_map().contains_key(id@),
                *plan == self.plans.spec_map()[id@],
                remaining is Some ==> plan.spec_policies().conflict == ConflictPolicy::Ask || remaining
                    == Some(match plan.spec_policies().conflict {
                    ConflictPolicy::Replace => ConflictAction::Replace,
                    ConflictPolicy::Skip => ConflictAction::Skip,
                    _ => ConflictAction::Rename,
                }),
            decreases n - index, if cancelled { 0int } else { 1int },
        {
            let item = &items[index];
            if cancellation.is_cancelled() {
                cancelled = true;
            } else {
                let ghost before = self.journal.spec_events();
                let action = conflict_action(
                    &self.backend,
                    &mut self.journal,
                    plan,
                    item,
                    resolver,
                    &mut remaining,
                );
                proof {
                    assert(self.journal.spec_events().take(started.len() as int) =~= started);
                }
                let stop = match action {
                    Some(ConflictAction::Cancel) => true,
                    _ => false,
                };
                if stop {
                    cancelled = true;
                } else {
                    let mut outcome_item = item.duplicate();
                    let status = match action {
                        Some(ConflictAction::Skip) => ItemStatus::Skipped("conflict policy".to_owned()),
                        _ => match self.backend.execute(plan, item, action, cancellation) {
                            Err(e) => ItemStatus::Failed(e),
                            Ok(effect) => {
                                match effect.target {
                                    Some(t) => {
                                        outcome_item.target = t;
                                    },
                                    None => {},
                                }
                                ItemStatus::Completed
                            },
                        },
                    };
                    let ghost mid = self.journal.spec_events();
                    self.journal.append(
                        JournalEvent::Item { plan: id.clone(), index, status: status.duplicate() },
                    );
                    proof {
                        assert(self.journal.spec_events().take(started.len() as int) =~= started);
                    }
                    outcomes.push(ItemOutcome { item: outcome_item, status });
                    index = index + 1;
                }
            }
        }
        let ghost k: int = index as int;
        if cancelled {
            while index < n
                invariant
                    items@ == plan.spec_items(),
                    n == items@.len(),
                    0 <= k <= index <= n,
                    k < n,
                    outcomes@.len() == index,
                    forall|i: int| 0 <= i < k ==> outcome_follows(*plan, i, #[trigger] outcomes@[i]),
                    forall|i: int| k <= i < index ==> left_pending(*plan, i, #[trigger] outcomes@[i]),
                decreases n - index,
            {
                let ghost before = outcomes@;
                outcomes.push(ItemOutcome { item: items[index].duplicate(), status: ItemStatus::Pending });
                proof {
                    assert forall|i: int| 0 <= i < k implies outcome_follows(*plan, i, #[trigger] outcomes@[i]) by {
                        assert(outcomes@[i] == before[i]);
                    }
                    assert forall|i: int| k <= i < index + 1 implies left_pending(*plan, i, #[trigger] outcomes@[i]) by {
                        if i < index {
                            assert(outcomes@[i] == before[i]);
                        }
                    }
                }
                index = index + 1;
            }
        }
        let ghost outcomes_view = outcomes@;
        proof {
            if !cancelled {
                assert(index == n);
                assert(k == n);
            }
            assert(outcomes_view.len() == n);
            assert(forall|i: int| 0 <= i < k ==> outcome_follows(*plan, i, #[trigger] outcomes_view[i]));
            assert(forall|i: int| k <= i < n ==> left_pending(*plan, i, #[trigger] outcomes_view[i]));
        }
        let summary = ExecutionSummary {
            plan: id.clone(),
            kind: plan.kind(),
            items: outcomes,
            cancelled,
        };
        proof {
            assert(summary.items@ == outcomes_view);
            assert(0 <= k <= n);
            assert(cancelled <==> k < n);
            assert(summary.plan == *id);
            assert(summary.kind == plan.spec_kind());
            assert(summary.items@.len() == plan.spec_items().len());
            assert(forall|i: int| 0 <= i < k ==> outcome_follows(*plan, i, #[trigger] summary.items@[i]));
            assert(forall|i: int| k <= i < n ==> left_pending(*plan, i, #[trigger] summary.items@[i]));
            assert(summary.cancelled <==> k < plan.spec_items().len());
            if k < n {
                assert(summary.items@[n - 1].status is Pending);
            }
            assert(summary_follows(*plan, *id, summary));
        }
        let ghost prev = self.journal.spec_events();
        self.journal.append(JournalEvent::Finished(summary.duplicate()));
        proof {
            assert(started.take(start as int) =~= old_events);
            assert(prev.take(started.len() as int) == started);
            assert(prev.take(start as int) =~= started.take(start as int));
            assert(self.journal.spec_events().take(start as int) =~= prev.take(start as int));
            assert(self.journal.spec_events()[start as int] == prev[start as int]);
            assert(prev[start as int] == started[start as int]);
        }
        Ok(summary)
    }
}

impl OperationPlanner {
    /// A new plan of the failed and pending items of an earlier run, with the original
    /// plan's kind, destination, policies, safety, generation and impact.
    pub fn retry(&mut self, original: &OperationPlan, summary: &ExecutionSummary) -> (r: Result<
        OperationPlan,
        PlanError,
    >)
        ensures
            final(self).spec_prefix() == old(self).spec_prefix(),
            match plan_rejection(original.spec_kind(), retryable(summary.items@)) {
                Some(e) => r == Err::<OperationPlan, PlanError>(e) && final(self).spec_next()
                    == old(self).spec_next(),
                None => match r {
                    Ok(p) => {
                        &&& p.spec_id()@ == spec_operation_id(old(self).spec_prefix(), old(self).spec_next())
                        &&& p.spec_kind() == original.spec_kind()
                        &&& item_views(p.spec_items()) == retryable(summary.items@)
                        &&& p.spec_destination() == original.spec_destination()
                        &&& p.spec_policies() == original.spec_policies()
                        &&& p.spec_safety() == original.spec_safety()
                        &&& p.spec_generation() == original.spec_generation()
                        &&& p.spec_high_impact() == original.spec_high_impact()
                        &&& final(self).spec_next() == next_number(old(self).spec_next())
                    },
                    Err(_) => false,
                },
            },
    {
        let mut items: Vec<PlannedItem> = Vec::new();
        let mut i: usize = 0;
        while i < summary.items.len()
            invariant
                i <= summary.items@.len(),
                item_views(items@) == retryable(summary.items@.take(i as int)),
            decreases summary.items@.len() - i,
        {
            assert(summary.items@.take(i + 1).drop_last() =~= summary.items@.take(i as int));
            let outcome = &summary.items[i];
            let again = match &outcome.status {
                ItemStatus::Failed(_) | ItemStatus::Pending => true,
                _ => false,
            };
            if again {
                let ghost before = items@;
                items.push(outcome.item.duplicate());
                assert(item_views(items@) =~= item_views(before).push(outcome.item@));
            }
            i = i + 1;
        }
        assert(summary.items@.take(i as int) =~= summary.items@);
        let destination = match original.destination() {
            Some(d) => Some(d.clone()),
            None => None,
        };
        self.plan(
            PlanRequest {
                kind: original.kind(),
                items,
                destination,
                policies: *original.policies(),
                safety: original.safety(),
                context_generation: original.context_generation(),
                high_impact: original.high_impact(),
            },
        )
    }
}

} // verus!
