//! Immutable operation planning, execution policy and audit journal.

use vstd::prelude::*;

use crate::command::SafetyClass;
use crate::ids::OperationId;
use crate::provider::{CancellationToken, ListingGeneration};
use crate::resource::{Location, ResourceRef};
use crate::strmap::StrMap;
use crate::text::{decimal, push_char, push_str, u64_decimal, usize_decimal};

verus! {

broadcast use vstd::string::group_string_axioms;

#[derive(Clone, Copy, Debug, PartialEq, Eq, Structural)]
#[non_exhaustive]
pub enum OperationKind {
    Copy,
    Move,
    Rename,
    HardLink,
    SymbolicLink,
    Trash,
    Restore,
    Delete,
    Wipe,
    CreateDirectory,
    Touch,
    SetAttributes,
}

#[derive(Clone, Copy, Debug, PartialEq, Eq, Structural)]
#[non_exhaustive]
pub enum OperationDecision {
    Execute,
    Cancel,
    Replace,
    Skip,
    Rename,
    ConfirmHighImpact,
}

/// How a plan is shown to the user before it runs.
#[derive(Clone, Debug, PartialEq, Eq)]
pub struct OperationPresentation {
    pub title: String,
    pub confirmation: String,
    pub explanation: String,
    pub details: Vec<String>,
    pub reversible: bool,
    pub allowed_decisions: Vec<OperationDecision>,
    pub default_decision: OperationDecision,
    pub denial_reason: Option<String>,
}

/// How a failed operation is reported.
#[derive(Clone, Debug, PartialEq, Eq)]
pub struct OperationFailurePresentation {
    pub title: String,
    pub body: String,
}

impl OperationFailurePresentation {
    /// The report of an execution error.
    pub fn execution_error(error: &str) -> (r: Self)
        ensures
            r.title@ == "Operation Failed"@,
            r.body@ == "The operation could not complete.\n\n"@ + error@
                + "\n\nClose this message and inspect the retained task history."@,
    {
        let mut body = "The operation could not complete.\n\n".to_owned();
        push_str(&mut body, error);
        push_str(&mut body, "\n\nClose this message and inspect the retained task history.");
        OperationFailurePresentation { title: "Operation Failed".to_owned(), body }
    }
}

#[derive(Clone, Copy, Debug, PartialEq, Eq, Structural)]
pub enum ConflictPolicy {
    Ask,
    Replace,
    Skip,
    Rename,
}

#[derive(Clone, Copy, Debug, PartialEq, Eq, Structural)]
pub enum MetadataPolicy {
    Preserve,
    Portable,
    ContentsOnly,
}

#[derive(Clone, Copy, Debug, PartialEq, Eq, Structural)]
pub enum VerificationPolicy {
    NoVerification,
    SizeAndTime,
    Hash,
}

#[derive(Clone, Copy, Debug, PartialEq, Eq, Structural)]
pub enum RecoveryPolicy {
    Trash,
    Backup,
    JournalOnly,
    NoRecovery,
}

#[derive(Clone, Copy, Debug, PartialEq, Eq, Structural)]
pub enum CrossDeviceBehavior {
    AtomicRename,
    CopyThenDelete,
    Reject,
    NotApplicable,
}

#[derive(Clone, Copy, Debug, PartialEq, Eq, Structural)]
pub enum SymlinkPolicy {
    Preserve,
    Follow,
    Reject,
}

/// One resolved item of a plan.
#[derive(Debug, PartialEq, Eq)]
pub struct PlannedItem {
    pub source: Option<ResourceRef>,
    pub target: Location,
    pub conflict_expected: bool,
    pub recursive: bool,
    pub parameters: StrMap<String>,
}

/// What an item is made of: its source, target, conflict and recursion flags, and its
/// parameters as ordered keys and values.
pub type PlannedItemView = (Option<ResourceRef>, Location, bool, bool, Seq<Seq<char>>, Seq<String>);

impl View for PlannedItem {
    type V = PlannedItemView;

    open spec fn view(&self) -> PlannedItemView {
        (
            self.source,
            self.target,
            self.conflict_expected,
            self.recursive,
            self.parameters.keys(),
            self.parameters.values(),
        )
    }
}

/// The views of a sequence of items.
pub open spec fn item_views(items: Seq<PlannedItem>) -> Seq<PlannedItemView> {
    items.map_values(|i: PlannedItem| i@)
}

/// Two item views agree in everything but, possibly, their target.
pub open spec fn same_but_target(a: PlannedItemView, b: PlannedItemView) -> bool {
    a.0 == b.0 && a.2 == b.2 && a.3 == b.3 && a.4 == b.4 && a.5 == b.5
}

impl PlannedItem {
    /// A copy of the item.
    pub fn duplicate(&self) -> (r: Self)
        ensures
            r@ == self@,
    {
        let source = match &self.source {
            Some(s) => Some(s.clone()),
            None => None,
        };
        PlannedItem {
            source,
            target: self.target.clone(),
            conflict_expected: self.conflict_expected,
            recursive: self.recursive,
            parameters: self.parameters.duplicate(),
        }
    }
}

impl Clone for PlannedItem {
    fn clone(&self) -> (r: Self)
        ensures
            r@ == self@,
    {
        self.duplicate()
    }
}

#[derive(Clone, Copy, Debug, PartialEq, Eq, Structural)]
pub struct PlanPolicies {
    pub conflict: ConflictPolicy,
    pub metadata: MetadataPolicy,
    pub verification: VerificationPolicy,
    pub recovery: RecoveryPolicy,
    pub cross_device: CrossDeviceBehavior,
    pub symlink: SymlinkPolicy,
}

impl Default for PlanPolicies {
    fn default() -> (r: Self)
        ensures
            r == (PlanPolicies {
                conflict: ConflictPolicy::Ask,
                metadata: MetadataPolicy::Preserve,
                verification: VerificationPolicy::SizeAndTime,
                recovery: RecoveryPolicy::JournalOnly,
                cross_device: CrossDeviceBehavior::NotApplicable,
                symlink: SymlinkPolicy::Preserve,
            }),
    {
        PlanPolicies {
            conflict: ConflictPolicy::Ask,
            metadata: MetadataPolicy::Preserve,
            verification: VerificationPolicy::SizeAndTime,
            recovery: RecoveryPolicy::JournalOnly,
            cross_device: CrossDeviceBehavior::NotApplicable,
            symlink: SymlinkPolicy::Preserve,
        }
    }
}

/// An immutable, recorded operation plan.
#[derive(Debug, PartialEq, Eq)]
pub struct OperationPlan {
    id: OperationId,
    kind: OperationKind,
    items: Vec<PlannedItem>,
    destination: Option<Location>,
    policies: PlanPolicies,
    safety: SafetyClass,
    context_generation: ListingGeneration,
    high_impact: bool,
}

impl OperationPlan {
    pub closed spec fn spec_id(&self) -> OperationId {
        self.id
    }

    pub closed spec fn spec_kind(&self) -> OperationKind {
        self.kind
    }

    pub closed spec fn spec_items(&self) -> Seq<PlannedItem> {
        self.items@
    }

    pub closed spec fn spec_destination(&self) -> Option<Location> {
        self.destination
    }

    pub closed spec fn spec_policies(&self) -> PlanPolicies {
        self.policies
    }

    pub closed spec fn spec_safety(&self) -> SafetyClass {
        self.safety
    }

    pub closed spec fn spec_generation(&self) -> ListingGeneration {
        self.context_generation
    }

    pub closed spec fn spec_high_impact(&self) -> bool {
        self.high_impact
    }

    /// A copy of the plan: the same identifier, kind, items, destination, policies, safety,
    /// generation and impact.
    pub fn duplicate(&self) -> (r: Self)
        ensures
            r.spec_id() == self.spec_id(),
            r.spec_kind() == self.spec_kind(),
            item_views(r.spec_items()) == item_views(self.spec_items()),
            r.spec_destination() == self.spec_destination(),
            r.spec_policies() == self.spec_policies(),
            r.spec_safety() == self.spec_safety(),
            r.spec_generation() == self.spec_generation(),
            r.spec_high_impact() == self.spec_high_impact(),
    {
        let mut items: Vec<PlannedItem> = Vec::new();
        let mut i: usize = 0;
        while i < self.items.len()
            invariant
                i <= self.items@.len(),
                items@.len() == i,
                forall|j: int| 0 <= j < i ==> (#[trigger] items@[j])@ == self.items@[j]@,
            decreases self.items@.len() - i,
        {
            items.push(self.items[i].duplicate());
            i = i + 1;
        }
        assert(item_views(items@) =~= item_views(self.items@));
        let destination = match &self.destination {
            Some(d) => Some(d.clone()),
            None => None,
        };
        OperationPlan {
            id: self.id.clone(),
            kind: self.kind,
            items,
            destination,
            policies: self.policies,
            safety: self.safety,
            context_generation: self.context_generation,
            high_impact: self.high_impact,
        }
    }

    pub fn id(&self) -> (r: &OperationId)
        ensures
            *r == self.spec_id(),
    {
        &self.id
    }

    pub fn kind(&self) -> (r: OperationKind)
        ensures
            r == self.spec_kind(),
    {
        self.kind
    }

    pub fn items(&self) -> (r: &[PlannedItem])
        ensures
            r@ == self.spec_items(),
    {
        self.items.as_slice()
    }

    pub fn destination(&self) -> (r: Option<&Location>)
        ensures
            match self.spec_destination() {
                Some(d) => r == Some(&d),
                None => r is None,
            },
    {
        match &self.destination {
            Some(d) => Some(d),
            None => None,
        }
    }

    pub fn policies(&self) -> (r: &PlanPolicies)
        ensures
            *r == self.spec_policies(),
    {
        &self.policies
    }

    pub fn safety(&self) -> (r: SafetyClass)
        ensures
            r == self.spec_safety(),
    {
        self.safety
    }

    pub fn context_generation(&self) -> (r: ListingGeneration)
        ensures
            r == self.spec_generation(),
    {
        self.context_generation
    }

    pub fn high_impact(&self) -> (r: bool)
        ensures
            r == self.spec_high_impact(),
    {
        self.high_impact
    }

    /// Number of items expected to conflict.
    pub fn conflict_count(&self) -> (r: usize)
        ensures
            r == count_conflicts(self.spec_items()),
    {
        let mut n: usize = 0;
        let mut i: usize = 0;
        while i < self.items.len()
            invariant
                i <= self.items@.len(),
                n == count_conflicts(self.items@.take(i as int)),
                n <= i,
            decreases self.items@.len() - i,
        {
            assert(self.items@.take(i + 1).drop_last() =~= self.items@.take(i as int));
            if self.items[i].conflict_expected {
                n = n + 1;
            }
            i = i + 1;
        }
        assert(self.items@.take(i as int) =~= self.items@);
        n
    }

    /// The decisions a user may take on this plan, in order.
    pub fn allowed_decisions(&self) -> (r: Vec<OperationDecision>)
        ensures
            r@ == spec_allowed_decisions(*self),
    {
        let mut allowed = Vec::new();
        if self.high_impact {
            allowed.push(OperationDecision::ConfirmHighImpact);
        }
        allowed.push(OperationDecision::Execute);
        allowed.push(OperationDecision::Cancel);
        if !self.high_impact && self.conflict_count() > 0 && self.kind != OperationKind::Trash {
            allowed.push(OperationDecision::Skip);
            allowed.push(OperationDecision::Replace);
            allowed.push(OperationDecision::Rename);
        }
        allowed
    }

    /// The user-facing presentation of the plan.
    pub fn presentation(&self) -> (r: OperationPresentation)
        ensures
            r.allowed_decisions@ == spec_allowed_decisions(*self),
            r.reversible == (self.spec_policies().recovery != RecoveryPolicy::NoRecovery),
            r.default_decision == OperationDecision::Execute,
            r.denial_reason is None,
            r.title@ == spec_presentation_title(self.spec_kind()),
            r.confirmation@ == spec_confirmation(self.spec_kind(), self.spec_items().len()),
            r.explanation@ == spec_explanation(
                self.spec_kind(),
                count_conflicts(self.spec_items()) > 0,
            ),
            self.spec_kind() == OperationKind::Trash ==> r.details@.len() == 0,
            self.spec_kind() != OperationKind::Trash ==> r.details@.map_values(|l: String| l@)
                == spec_preview_lines(*self),
    {
        let has_conflicts = self.conflict_count() > 0;
        let reversible = match self.policies.recovery {
            RecoveryPolicy::NoRecovery => false,
            _ => true,
        };
        let allowed_decisions = self.allowed_decisions();
        let count = usize_decimal(self.items.len());
        let label = if self.items.len() == 1 {
            "item"
        } else {
            "items"
        };
        let (title, verb, tail) = match self.kind {
            OperationKind::Trash => ("Move to Trash", "Move ", " to Trash?"),
            OperationKind::Restore => ("Restore from Trash", "Restore ", " from Trash?"),
            OperationKind::Delete => ("Permanently Delete", "Permanently delete ", "?"),
            OperationKind::Wipe => ("Securely Wipe", "Securely wipe ", "?"),
            _ => ("Operation Preview", "Execute ", "?"),
        };
        let mut confirmation = verb.to_owned();
        match self.kind {
            OperationKind::Trash | OperationKind::Restore | OperationKind::Delete
            | OperationKind::Wipe => {},
            _ => {
                push_str(&mut confirmation, kind_name(self.kind));
                push_str(&mut confirmation, " for ");
            },
        }
        push_str(&mut confirmation, count.as_str());
        push_char(&mut confirmation, ' ');
        push_str(&mut confirmation, label);
        push_str(&mut confirmation, tail);
        let explanation = match self.kind {
            OperationKind::Trash => if has_conflicts {
                "Items remain restorable; existing Trash names are preserved with unique names.".to_owned()
            } else {
                "Items remain restorable from the platform Trash.".to_owned()
            },
            OperationKind::Restore => "Items return to their recorded original locations. Existing destinations require an explicit conflict decision.".to_owned(),
            OperationKind::Delete => "This operation cannot be restored from Trash.".to_owned(),
            OperationKind::Wipe => "File contents are overwritten before permanent deletion.".to_owned(),
            _ => {
                let mut e = "Review the ".to_owned();
                push_str(&mut e, kind_name(self.kind));
                push_str(&mut e, " operation before execution.");
                e
            },
        };
        let details = match self.kind {
            OperationKind::Trash => Vec::new(),
            _ => self.preview_lines(),
        };
        OperationPresentation {
            title: title.to_owned(),
            confirmation,
            explanation,
            details,
            reversible,
            allowed_decisions,
            default_decision: OperationDecision::Execute,
            denial_reason: None,
        }
    }

    /// The preview of the plan, one line per fact and one line per item.
    pub fn preview_lines(&self) -> (r: Vec<String>)
        ensures
            r@.map_values(|l: String| l@) == spec_preview_lines(*self),
    {
        let mut lines: Vec<String> = Vec::new();
        lines.push(concat_owned("plan: ", self.id.as_str()));
        lines.push(concat_owned("operation: ", kind_name(self.kind)));
        let n = usize_decimal(self.items.len());
        lines.push(concat_owned("sources: ", n.as_str()));
        let destination = match &self.destination {
            Some(d) => d.as_str(),
            None => "-",
        };
        lines.push(concat_owned("destination: ", destination));
        let mut conflicts = "conflicts: ".to_owned();
        let count = usize_decimal(self.conflict_count());
        push_str(&mut conflicts, count.as_str());
        push_str(&mut conflicts, " (");
        push_str(&mut conflicts, conflict_policy_name(self.policies.conflict));
        push_char(&mut conflicts, ')');
        lines.push(conflicts);
        lines.push(concat_owned("metadata: ", metadata_policy_name(self.policies.metadata)));
        lines.push(
            concat_owned("verification: ", verification_policy_name(self.policies.verification)),
        );
        lines.push(concat_owned("recovery: ", recovery_policy_name(self.policies.recovery)));
        lines.push(
            concat_owned("cross-device: ", cross_device_name(self.policies.cross_device)),
        );
        lines.push(concat_owned("symlinks: ", symlink_policy_name(self.policies.symlink)));
        lines.push(concat_owned("safety: ", safety_name(self.safety)));
        let ghost header = lines@.map_values(|l: String| l@);
        proof {
            let h = spec_header_lines(*self);
            assert(header.len() == 11);
            assert(header[0] == h[0]);
            assert(header[1] == h[1]);
            assert(header[2] == h[2]);
            assert(header[3] == h[3]);
            assert(header[4] == h[4]);
            assert(header[5] == h[5]);
            assert(header[10] == h[10]);
            assert(header =~= h);
        }
        if self.kind == OperationKind::Wipe && self.items.len() > 0 {
            match self.items[0].parameters.get("passes") {
                Some(passes) => {
                    lines.push(concat_owned("wipe-passes: ", passes.as_str()));
                },
                None => {},
            }
        }
        let ghost start = lines@.map_values(|l: String| l@);
        proof {
            reveal_strlit("passes");
            assert(start =~= spec_header_lines(*self) + spec_wipe_lines(*self));
        }
        let mut i: usize = 0;
        while i < self.items.len()
            invariant
                i <= self.items@.len(),
                lines@.map_values(|l: String| l@) == start + Seq::new(
                    i as nat,
                    |j: int| spec_item_line(j, self.items@[j]),
                ),
            decreases self.items@.len() - i,
        {
            let line = item_line(i, &self.items[i]);
            let ghost prev = lines@;
            lines.push(line);
            proof {
                assert(lines@.map_values(|l: String| l@) =~= prev.map_values(|l: String| l@).push(
                    spec_item_line(i as int, self.items@[i as int]),
                ));
                assert(Seq::new((i + 1) as nat, |j: int| spec_item_line(j, self.items@[j]))
                    =~= Seq::new(i as nat, |j: int| spec_item_line(j, self.items@[j])).push(
                    spec_item_line(i as int, self.items@[i as int]),
                ));
            }
            i = i + 1;
        }
        lines
    }
}

/// A new string `a + b`.
fn concat_owned(a: &str, b: &str) -> (r: String)
    ensures
        r@ == a@ + b@,
{
    let mut r = a.to_owned();
    push_str(&mut r, b);
    r
}

/// Number of items expected to conflict.
pub open spec fn count_conflicts(items: Seq<PlannedItem>) -> nat
    decreases items.len(),
{
    if items.len() == 0 {
        0
    } else {
        count_conflicts(items.drop_last()) + if items.last().conflict_expected {
            1nat
        } else {
            0nat
        }
    }
}

/// Decisions offered for a plan.
pub open spec fn spec_allowed_decisions(plan: OperationPlan) -> Seq<OperationDecision> {
    let base = seq![OperationDecision::Execute, OperationDecision::Cancel];
    if plan.spec_high_impact() {
        seq![OperationDecision::ConfirmHighImpact] + base
    } else if count_conflicts(plan.spec_items()) > 0 && plan.spec_kind() != OperationKind::Trash {
        base + seq![OperationDecision::Skip, OperationDecision::Replace, OperationDecision::Rename]
    } else {
        base
    }
}

pub open spec fn spec_presentation_title(kind: OperationKind) -> Seq<char> {
    match kind {
        OperationKind::Trash => "Move to Trash"@,
        OperationKind::Restore => "Restore from Trash"@,
        OperationKind::Delete => "Permanently Delete"@,
        OperationKind::Wipe => "Securely Wipe"@,
        _ => "Operation Preview"@,
    }
}

pub open spec fn item_label(n: nat) -> Seq<char> {
    if n == 1 {
        "item"@
    } else {
        "items"@
    }
}

pub open spec fn spec_confirmation(kind: OperationKind, n: nat) -> Seq<char> {
    let counted = decimal(n) + seq![' '] + item_label(n);
    match kind {
        OperationKind::Trash => "Move "@ + counted + " to Trash?"@,
        OperationKind::Restore => "Restore "@ + counted + " from Trash?"@,
        OperationKind::Delete => "Permanently delete "@ + counted + "?"@,
        OperationKind::Wipe => "Securely wipe "@ + counted + "?"@,
        _ => "Execute "@ + spec_kind_name(kind) + " for "@ + counted + "?"@,
    }
}

pub open spec fn spec_explanation(kind: OperationKind, has_conflicts: bool) -> Seq<char> {
    match kind {
        OperationKind::Trash => if has_conflicts {
            "Items remain restorable; existing Trash names are preserved with unique names."@
        } else {
            "Items remain restorable from the platform Trash."@
        },
        OperationKind::Restore => "Items return to their recorded original locations. Existing destinations require an explicit conflict decision."@,
        OperationKind::Delete => "This operation cannot be restored from Trash."@,
        OperationKind::Wipe => "File contents are overwritten before permanent deletion."@,
        _ => "Review the "@ + spec_kind_name(kind) + " operation before execution."@,
    }
}

/// The fixed lines of a preview.
pub open spec fn spec_header_lines(plan: OperationPlan) -> Seq<Seq<char>> {
    let p = plan.spec_policies();
    seq![
        "plan: "@ + plan.spec_id()@,
        "operation: "@ + spec_kind_name(plan.spec_kind()),
        "sources: "@ + decimal(plan.spec_items().len()),
        "destination: "@ + match plan.spec_destination() {
            Some(d) => d@,
            None => "-"@,
        },
        "conflicts: "@ + decimal(count_conflicts(plan.spec_items())) + " ("@
            + spec_conflict_policy_name(p.conflict) + seq![')'],
        "metadata: "@ + spec_metadata_policy_name(p.metadata),
        "verification: "@ + spec_verification_policy_name(p.verification),
        "recovery: "@ + spec_recovery_policy_name(p.recovery),
        "cross-device: "@ + spec_cross_device_name(p.cross_device),
        "symlinks: "@ + spec_symlink_policy_name(p.symlink),
        "safety: "@ + spec_safety_name(plan.spec_safety()),
    ]
}

/// The wipe-pass line of a wipe plan whose first item names its passes.
pub open spec fn spec_wipe_lines(plan: OperationPlan) -> Seq<Seq<char>> {
    let items = plan.spec_items();
    if plan.spec_kind() == OperationKind::Wipe && items.len() > 0 && items[0].parameters.has(
        "passes"@,
    ) {
        seq![
            "wipe-passes: "@ + items[0].parameters.values()[items[0].parameters.keys().index_of(
                "passes"@,
            )]@,
        ]
    } else {
        Seq::empty()
    }
}

/// The line describing item `j` of a plan.
pub open spec fn spec_item_line(j: int, item: PlannedItem) -> Seq<char> {
    decimal((j + 1) as nat) + ". "@ + match item.source {
        Some(s) => s.location@,
        None => "-"@,
    } + " -> "@ + item.target@ + (if item.conflict_expected {
        " [conflict]"@
    } else {
        Seq::empty()
    }) + (if item.parameters.size() == 0 {
        Seq::empty()
    } else {
        seq![' '] + spec_debug_map(item.parameters.keys(), item.parameters.values())
    })
}

/// The complete preview of a plan.
pub open spec fn spec_preview_lines(plan: OperationPlan) -> Seq<Seq<char>> {
    spec_header_lines(plan) + spec_wipe_lines(plan) + Seq::new(
        plan.spec_items().len(),
        |j: int| spec_item_line(j, plan.spec_items()[j]),
    )
}

fn item_line(index: usize, item: &PlannedItem) -> (r: String)
    requires
        index < usize::MAX,
    ensures
        r@ == spec_item_line(index as int, *item),
{
    let mut line = usize_decimal(index + 1);
    push_str(&mut line, ". ");
    match &item.source {
        Some(s) => push_str(&mut line, s.location.as_str()),
        None => push_str(&mut line, "-"),
    }
    push_str(&mut line, " -> ");
    push_str(&mut line, item.target.as_str());
    if item.conflict_expected {
        push_str(&mut line, " [conflict]");
    }
    if item.parameters.len() > 0 {
        push_char(&mut line, ' ');
        let rendered = debug_map(&item.parameters);
        push_str(&mut line, rendered.as_str());
    }
    proof {
        reveal_strlit("");
    }
    line
}

/// Lower-case hexadecimal digits of a number, without leading zeros.
pub open spec fn hex_lower(n: nat) -> Seq<char>
    decreases n,
{
    if n < 16 {
        seq![hex_digit(n)]
    } else {
        hex_lower(n / 16).push(hex_digit(n % 16))
    }
}

pub open spec fn hex_digit(d: nat) -> char {
    if d < 10 {
        ((d + 48) as u32) as char
    } else {
        ((d + 87) as u32) as char
    }
}

fn hex_lower_string(n: u32) -> (r: String)
    ensures
        r@ == hex_lower(n as nat),
    decreases n,
{
    let mut s = if n < 16 {
        String::new()
    } else {
        hex_lower_string(n / 16)
    };
    let d: u8 = (n % 16) as u8;
    let c = if d < 10 {
        (d + 48) as char
    } else {
        (d + 87) as char
    };
    push_char(&mut s, c);
    proof {
        if n < 16 {
            assert(s@ =~= seq![hex_digit(n as nat)]);
        }
    }
    s
}

/// How `Debug` shows one character inside a string.
pub open spec fn escape_debug_char(c: char) -> Seq<char> {
    let v = c as u32;
    if c == '"' {
        seq!['\\', '"']
    } else if c == '\\' {
        seq!['\\', '\\']
    } else if c == '\n' {
        seq!['\\', 'n']
    } else if c == '\r' {
        seq!['\\', 'r']
    } else if c == '\t' {
        seq!['\\', 't']
    } else if v == 0 {
        seq!['\\', '0']
    } else if v < 0x20 || (0x7f <= v && v <= 0x9f) {
        seq!['\\', 'u', '{'] + hex_lower(v as nat) + seq!['}']
    } else {
        seq![c]
    }
}

/// How `Debug` shows a string: quoted, with escapes.
pub open spec fn spec_debug_str(s: Seq<char>) -> Seq<char> {
    seq!['"'] + escaped(s) + seq!['"']
}

pub open spec fn escaped(s: Seq<char>) -> Seq<char>
    decreases s.len(),
{
    if s.len() == 0 {
        Seq::empty()
    } else {
        escaped(s.drop_last()) + escape_debug_char(s.last())
    }
}

/// How `Debug` shows an ordered map of strings.
pub open spec fn spec_debug_map(keys: Seq<Seq<char>>, values: Seq<String>) -> Seq<char> {
    seq!['{'] + debug_entries(keys, values) + seq!['}']
}

pub open spec fn debug_entries(keys: Seq<Seq<char>>, values: Seq<String>) -> Seq<char>
    decreases keys.len(),
{
    if keys.len() == 0 || values.len() < keys.len() {
        Seq::empty()
    } else {
        let last = spec_debug_str(keys.last()) + ": "@ + spec_debug_str(values[keys.len() - 1]@);
        if keys.len() == 1 {
            last
        } else {
            debug_entries(keys.drop_last(), values.take(keys.len() - 1)) + ", "@ + last
        }
    }
}

fn push_debug_str(out: &mut String, s: &str)
    ensures
        final(out)@ == old(out)@ + spec_debug_str(s@),
{
    push_char(out, '"');
    let chars = crate::text::chars_of(s);
    let ghost base = out@;
    let mut i: usize = 0;
    while i < chars.len()
        invariant
            i <= chars@.len(),
            out@ == base + escaped(chars@.take(i as int)),
        decreases chars@.len() - i,
    {
        let c = chars[i];
        let v = c as u32;
        if c == '"' {
            push_str(out, "\\\"");
        } else if c == '\\' {
            push_str(out, "\\\\");
        } else if c == '\n' {
            push_str(out, "\\n");
        } else if c == '\r' {
            push_str(out, "\\r");
        } else if c == '\t' {
            push_str(out, "\\t");
        } else if v == 0 {
            push_str(out, "\\0");
        } else if v < 0x20 || (0x7f <= v && v <= 0x9f) {
            push_str(out, "\\u{");
            let h = hex_lower_string(v);
            push_str(out, h.as_str());
            push_char(out, '}');
        } else {
            push_char(out, c);
        }
        proof {
            reveal_strlit("\\\"");
            reveal_strlit("\\\\");
            reveal_strlit("\\n");
            reveal_strlit("\\r");
            reveal_strlit("\\t");
            reveal_strlit("\\0");
            reveal_strlit("\\u{");
        }
        i = i + 1;
        assert(chars@.take(i as int).drop_last() =~= chars@.take(i - 1));
    }
    assert(chars@.take(i as int) =~= chars@);
    push_char(out, '"');
}

fn debug_map(map: &StrMap<String>) -> (r: String)
    ensures
        r@ == spec_debug_map(map.keys(), map.values()),
{
    proof {
        map.lemma_lengths();
    }
    let mut out = String::new();
    push_char(&mut out, '{');
    let mut i: usize = 0;
    while i < map.len()
        invariant
            i <= map.keys().len(),
            map.keys().len() == map.values().len(),
            out@ == seq!['{'] + debug_entries(map.keys().take(i as int), map.values().take(i as int)),
        decreases map.keys().len() - i,
    {
        if i > 0 {
            push_str(&mut out, ", ");
        }
        push_debug_str(&mut out, map.key_at(i).as_str());
        push_str(&mut out, ": ");
        push_debug_str(&mut out, map.value_at(i).as_str());
        i = i + 1;
        proof {
            let k = map.keys().take(i as int);
            let v = map.values().take(i as int);
            assert(k.drop_last() =~= map.keys().take(i - 1));
            assert(v.take(k.len() - 1) =~= map.values().take(i - 1));
            reveal_strlit(", ");
            reveal_strlit(": ");
        }
    }
    assert(map.keys().take(i as int) =~= map.keys());
    assert(map.values().take(i as int) =~= map.values());
    push_char(&mut out, '}');
    out
}

pub open spec fn spec_kind_name(k: OperationKind) -> Seq<char> {
    match k {
        OperationKind::Copy => "Copy"@,
        OperationKind::Move => "Move"@,
        OperationKind::Rename => "Rename"@,
        OperationKind::HardLink => "HardLink"@,
        OperationKind::SymbolicLink => "SymbolicLink"@,
        OperationKind::Trash => "Trash"@,
        OperationKind::Restore => "Restore"@,
        OperationKind::Delete => "Delete"@,
        OperationKind::Wipe => "Wipe"@,
        OperationKind::CreateDirectory => "CreateDirectory"@,
        OperationKind::Touch => "Touch"@,
        OperationKind::SetAttributes => "SetAttributes"@,
    }
}

/// The name `Debug` shows for an operation kind.
pub fn kind_name(k: OperationKind) -> (r: &'static str)
    ensures
        r@ == spec_kind_name(k),
{
    match k {
        OperationKind::Copy => "Copy",
        OperationKind::Move => "Move",
        OperationKind::Rename => "Rename",
        OperationKind::HardLink => "HardLink",
        OperationKind::SymbolicLink => "SymbolicLink",
        OperationKind::Trash => "Trash",
        OperationKind::Restore => "Restore",
        OperationKind::Delete => "Delete",
        OperationKind::Wipe => "Wipe",
        OperationKind::CreateDirectory => "CreateDirectory",
        OperationKind::Touch => "Touch",
        OperationKind::SetAttributes => "SetAttributes",
    }
}

pub open spec fn spec_conflict_policy_name(p: ConflictPolicy) -> Seq<char> {
    match p {
        ConflictPolicy::Ask => "Ask"@,
        ConflictPolicy::Replace => "Replace"@,
        ConflictPolicy::Skip => "Skip"@,
        ConflictPolicy::Rename => "Rename"@,
    }
}

fn conflict_policy_name(p: ConflictPolicy) -> (r: &'static str)
    ensures
        r@ == spec_conflict_policy_name(p),
{
    match p {
        ConflictPolicy::Ask => "Ask",
        ConflictPolicy::Replace => "Replace",
        ConflictPolicy::Skip => "Skip",
        ConflictPolicy::Rename => "Rename",
    }
}

pub open spec fn spec_metadata_policy_name(p: MetadataPolicy) -> Seq<char> {
    match p {
        MetadataPolicy::Preserve => "Preserve"@,
        MetadataPolicy::Portable => "Portable"@,
        MetadataPolicy::ContentsOnly => "ContentsOnly"@,
    }
}

fn metadata_policy_name(p: MetadataPolicy) -> (r: &'static str)
    ensures
        r@ == spec_metadata_policy_name(p),
{
    match p {
        MetadataPolicy::Preserve => "Preserve",
        MetadataPolicy::Portable => "Portable",
        MetadataPolicy::ContentsOnly => "ContentsOnly",
    }
}

pub open spec fn spec_verification_policy_name(p: VerificationPolicy) -> Seq<char> {
    match p {
        VerificationPolicy::NoVerification => "None"@,
        VerificationPolicy::SizeAndTime => "SizeAndTime"@,
        VerificationPolicy::Hash => "Hash"@,
    }
}

fn verification_policy_name(p: VerificationPolicy) -> (r: &'static str)
    ensures
        r@ == spec_verification_policy_name(p),
{
    match p {
        VerificationPolicy::NoVerification => "None",
        VerificationPolicy::SizeAndTime => "SizeAndTime",
        VerificationPolicy::Hash => "Hash",
    }
}

pub open spec fn spec_recovery_policy_name(p: RecoveryPolicy) -> Seq<char> {
    match p {
        RecoveryPolicy::Trash => "Trash"@,
        RecoveryPolicy::Backup => "Backup"@,
        RecoveryPolicy::JournalOnly => "JournalOnly"@,
        RecoveryPolicy::NoRecovery => "None"@,
    }
}

fn recovery_policy_name(p: RecoveryPolicy) -> (r: &'static str)
    ensures
        r@ == spec_recovery_policy_name(p),
{
    match p {
        RecoveryPolicy::Trash => "Trash",
        RecoveryPolicy::Backup => "Backup",
        RecoveryPolicy::JournalOnly => "JournalOnly",
        RecoveryPolicy::NoRecovery => "None",
    }
}

pub open spec fn spec_cross_device_name(p: CrossDeviceBehavior) -> Seq<char> {
    match p {
        CrossDeviceBehavior::AtomicRename => "AtomicRename"@,
        CrossDeviceBehavior::CopyThenDelete => "CopyThenDelete"@,
        CrossDeviceBehavior::Reject => "Reject"@,
        CrossDeviceBehavior::NotApplicable => "NotApplicable"@,
    }
}

fn cross_device_name(p: CrossDeviceBehavior) -> (r: &'static str)
    ensures
        r@ == spec_cross_device_name(p),
{
    match p {
        CrossDeviceBehavior::AtomicRename => "AtomicRename",
        CrossDeviceBehavior::CopyThenDelete => "CopyThenDelete",
        CrossDeviceBehavior::Reject => "Reject",
        CrossDeviceBehavior::NotApplicable => "NotApplicable",
    }
}

pub open spec fn spec_symlink_policy_name(p: SymlinkPolicy) -> Seq<char> {
    match p {
        SymlinkPolicy::Preserve => "Preserve"@,
        SymlinkPolicy::Follow => "Follow"@,
        SymlinkPolicy::Reject => "Reject"@,
    }
}

fn symlink_policy_name(p: SymlinkPolicy) -> (r: &'static str)
    ensures
        r@ == spec_symlink_policy_name(p),
{
    match p {
        SymlinkPolicy::Preserve => "Preserve",
        SymlinkPolicy::Follow => "Follow",
        SymlinkPolicy::Reject => "Reject",
    }
}

pub open spec fn spec_safety_name(p: SafetyClass) -> Seq<char> {
    match p {
        SafetyClass::ReadOnly => "ReadOnly"@,
        SafetyClass::Reversible => "Reversible"@,
        SafetyClass::Confirmable => "Confirmable"@,
        SafetyClass::Destructive => "Destructive"@,
        SafetyClass::Privileged => "Privileged"@,
    }
}

pub(crate) fn safety_name(p: SafetyClass) -> (r: &'static str)
    ensures
        r@ == spec_safety_name(p),
{
    match p {
        SafetyClass::ReadOnly => "ReadOnly",
        SafetyClass::Reversible => "Reversible",
        SafetyClass::Confirmable => "Confirmable",
        SafetyClass::Destructive => "Destructive",
        SafetyClass::Privileged => "Privileged",
    }
}


/// Why a request could not become a plan.
#[derive(Debug, PartialEq, Eq)]
pub enum PlanError {
    Empty,
    MissingSource,
    Invalid(String),
}

impl PlanError {
    /// The message shown for the error.
    pub fn message(&self) -> (r: String)
        ensures
            r@ == spec_plan_error_message(*self),
    {
        match self {
            PlanError::Empty => "operation plan has no items".to_owned(),
            PlanError::MissingSource => "operation plan item is missing a source".to_owned(),
            PlanError::Invalid(detail) => concat_owned("invalid operation plan: ", detail.as_str()),
        }
    }
}

pub open spec fn spec_plan_error_message(e: PlanError) -> Seq<char> {
    match e {
        PlanError::Empty => "operation plan has no items"@,
        PlanError::MissingSource => "operation plan item is missing a source"@,
        PlanError::Invalid(detail) => "invalid operation plan: "@ + detail@,
    }
}

/// What a caller asks to be planned.
#[derive(Clone, Debug)]
pub struct PlanRequest {
    pub kind: OperationKind,
    pub items: Vec<PlannedItem>,
    pub destination: Option<Location>,
    pub policies: PlanPolicies,
    pub safety: SafetyClass,
    pub context_generation: ListingGeneration,
    pub high_impact: bool,
}

/// Whether items of this kind must name a source.
pub open spec fn spec_requires_source(kind: OperationKind) -> bool {
    !(kind == OperationKind::CreateDirectory || kind == OperationKind::Touch)
}

fn requires_source(kind: OperationKind) -> (r: bool)
    ensures
        r == spec_requires_source(kind),
{
    match kind {
        OperationKind::CreateDirectory | OperationKind::Touch => false,
        _ => true,
    }
}

/// The error a request of this kind with these items is refused with, if any.
pub open spec fn plan_rejection(kind: OperationKind, items: Seq<PlannedItemView>) -> Option<PlanError> {
    if items.len() == 0 {
        Some(PlanError::Empty)
    } else if spec_requires_source(kind) && exists|i: int| 0 <= i < items.len() && (#[trigger] items[i]).0 is None {
        Some(PlanError::MissingSource)
    } else {
        None
    }
}

/// The identifier of the plan numbered `n` under a prefix.
pub open spec fn spec_operation_id(prefix: Seq<char>, n: u64) -> Seq<char> {
    prefix + seq!['.'] + decimal(n as nat)
}

/// The number after `n`, wrapping to zero.
pub open spec fn next_number(n: u64) -> u64 {
    if n == u64::MAX {
        0
    } else {
        (n + 1) as u64
    }
}

/// Hands out plans whose identifiers are a prefix, a dot and a counter starting at one.
#[derive(Debug)]
pub struct OperationPlanner {
    next_id: u64,
    prefix: String,
}

impl Default for OperationPlanner {
    fn default() -> (r: Self)
        ensures
            r.spec_next() == 1,
            r.spec_prefix() == "near.operation"@,
    {
        OperationPlanner { next_id: 1, prefix: "near.operation".to_owned() }
    }
}

impl OperationPlanner {
    /// The number the next plan receives.
    pub closed spec fn spec_next(&self) -> u64 {
        self.next_id
    }

    /// The identifier prefix.
    pub closed spec fn spec_prefix(&self) -> Seq<char> {
        self.prefix@
    }

    pub fn with_prefix(prefix: &str) -> (r: Self)
        ensures
            r.spec_next() == 1,
            r.spec_prefix() == prefix@,
    {
        OperationPlanner { next_id: 1, prefix: prefix.to_owned() }
    }

    /// Resolves a request into an immutable plan, refusing an empty request and, for kinds
    /// that need one, an item without a source.
    pub fn plan(&mut self, request: PlanRequest) -> (r: Result<OperationPlan, PlanError>)
        ensures
            final(self).spec_prefix() == old(self).spec_prefix(),
            match plan_rejection(request.kind, item_views(request.items@)) {
                Some(e) => r == Err::<OperationPlan, PlanError>(e) && final(self).spec_next()
                    == old(self).spec_next(),
                None => match r {
                    Ok(p) => {
                        &&& p.spec_id()@ == spec_operation_id(old(self).spec_prefix(), old(self).spec_next())
                        &&& p.spec_kind() == request.kind
                        &&& p.spec_items() == request.items@
                        &&& p.spec_destination() == request.destination
                        &&& p.spec_policies() == request.policies
                        &&& p.spec_safety() == request.safety
                        &&& p.spec_generation() == request.context_generation
                        &&& p.spec_high_impact() == request.high_impact
                        &&& final(self).spec_next() == next_number(old(self).spec_next())
                    },
                    Err(_) => false,
                },
            },
    {
        let ghost views = item_views(request.items@);
        if request.items.len() == 0 {
            return Err(PlanError::Empty);
        }
        if requires_source(request.kind) {
            let mut i: usize = 0;
            while i < request.items.len()
                invariant
                    i <= request.items@.len(),
                    views == item_views(request.items@),
                    request.items@.len() > 0,
                    spec_requires_source(request.kind),
                    forall|j: int| 0 <= j < i ==> (#[trigger] views[j]).0 is Some,
                decreases request.items@.len() - i,
            {
                if request.items[i].source.is_none() {
                    assert(views[i as int] == request.items@[i as int]@);
                    assert(views[i as int].0 is None);
                    assert(views.len() == request.items@.len());
                    assert(plan_rejection(request.kind, views) == Some(PlanError::MissingSource));
                    return Err(PlanError::MissingSource);
                }
                i = i + 1;
            }
        }
        let n = self.next_id;
        self.next_id = if n == u64::MAX {
            0
        } else {
            n + 1
        };
        let mut text = self.prefix.clone();
        push_char(&mut text, '.');
        let digits = u64_decimal(n);
        push_str(&mut text, digits.as_str());
        Ok(OperationPlan {
            id: OperationId::from_string(text),
            kind: request.kind,
            items: request.items,
            destination: request.destination,
            policies: request.policies,
            safety: request.safety,
            context_generation: request.context_generation,
            high_impact: request.high_impact,
        })
    }
}

/// Every plan recorded so far, by identifier.
#[derive(Debug)]
pub struct PlanStore {
    plans: StrMap<OperationPlan>,
}

impl Default for PlanStore {
    fn default() -> (r: Self)
        ensures
            r.spec_map() == Map::<Seq<char>, OperationPlan>::empty(),
    {
        let r = PlanStore { plans: StrMap::new() };
        assert(r.spec_map() =~= Map::<Seq<char>, OperationPlan>::empty());
        r
    }
}

impl PlanStore {
    /// The recorded plans by identifier text.
    pub closed spec fn spec_map(&self) -> Map<Seq<char>, OperationPlan> {
        self.plans.map()
    }

    /// Records a plan under its identifier, replacing any plan of the same identifier.
    pub fn insert(&mut self, plan: OperationPlan) -> (r: OperationId)
        ensures
            r == plan.spec_id(),
            final(self).spec_map() == old(self).spec_map().insert(plan.spec_id()@, plan),
    {
        let id = plan.id.clone();
        let key = id.as_str().to_owned();
        self.plans.insert(key, plan);
        id
    }

    /// The plan recorded under an identifier.
    pub fn get(&self, id: &OperationId) -> (r: Option<&OperationPlan>)
        ensures
            match r {
                Some(p) => self.spec_map().contains_key(id@) && *p == self.spec_map()[id@],
                None => !self.spec_map().contains_key(id@),
            },
    {
        self.plans.get(id.as_str())
    }
}

/// Reading a store back gives what was last recorded under the identifier, and recording
/// leaves every other identifier as it was.
pub proof fn law_store_reads_back_recorded_plan(
    before: PlanStore,
    after: PlanStore,
    plan: OperationPlan,
    other: Seq<char>,
)
    requires
        after.spec_map() == before.spec_map().insert(plan.spec_id()@, plan),
    ensures
        after.spec_map().contains_key(plan.spec_id()@),
        after.spec_map()[plan.spec_id()@] == plan,
        other != plan.spec_id()@ ==> after.spec_map().contains_key(other) == before.spec_map().contains_key(other),
        other != plan.spec_id()@ && before.spec_map().contains_key(other) ==> after.spec_map()[other] == before.spec_map()[other],
{
}

} // verus!
