//! Planning of local filesystem operations: which items a copy, move, trash, restore,
//! deletion, wipe, rename, link, touch or attribute change holds, with which policies, given
//! what the filesystem reports about each source.

use vstd::prelude::*;

use crate::command::SafetyClass;
use crate::execution::{
    AttributeUpdate, ConflictAction, ConflictDecision, ExecutionAuthorization, ExecutionSummary, LinkKind,
    OperationBackend, OperationEngine, OperationJournal, spec_authorization_error,
    spec_execution_error_message, summary_follows,
};
use crate::ids::OperationId;
use crate::local_fs::FixedConflictResolver;
use crate::ops::spec_plan_error_message;
use crate::provider::CancellationToken;
use crate::ids::ProviderId;
use crate::local_fs::{
    local_provider_id, location_of, mutation_denial, LocalFileProvider, NativePath,
};
use crate::ops::{
    item_views, plan_rejection, spec_requires_source, ConflictPolicy, CrossDeviceBehavior,
    MetadataPolicy, OperationKind, OperationPlan, OperationPlanner, PlanError, PlanPolicies,
    PlanRequest, PlannedItem, PlannedItemView, RecoveryPolicy, SymlinkPolicy, VerificationPolicy,
};
use crate::provider::{ListingGeneration, ProviderError};
use crate::resource::{
    Location, MutationEligibility, MutationKind, ResourceClassification, ResourceRef,
};
use crate::strmap::StrMap;
use crate::text::{chars_of, contains_char, decimal, push_char, push_str, u64_decimal};
use crate::provider::provider_error_text;

verus! {

broadcast use vstd::string::group_string_axioms;

/// An expected plan item: source, target location text, whether a conflict is expected,
/// whether it is recursive, and its parameters by key.
pub type ItemSpec = (Option<ResourceRef>, Seq<char>, bool, bool, Map<Seq<char>, Seq<char>>);

/// Parameters held as parallel keys and values, by key.
pub open spec fn params_view(keys: Seq<Seq<char>>, values: Seq<String>) -> Map<Seq<char>, Seq<char>> {
    Map::new(|k: Seq<char>| keys.contains(k), |k: Seq<char>| values[keys.index_of(k)]@)
}

/// Whether a planned item is the expected one.
pub open spec fn item_is(v: PlannedItemView, e: ItemSpec) -> bool {
    &&& v.0 == e.0
    &&& v.1@ == e.1
    &&& v.2 == e.2
    &&& v.3 == e.3
    &&& params_view(v.4, v.5) == e.4
}

/// Whether planned items are the expected ones, in order.
pub open spec fn items_are(vs: Seq<PlannedItemView>, es: Seq<ItemSpec>) -> bool {
    vs.len() == es.len() && forall|i: int| 0 <= i < es.len() ==> item_is(#[trigger] vs[i], es[i])
}

/// The error a plan with the expected items is refused with, if any.
pub open spec fn expected_rejection(kind: OperationKind, es: Seq<ItemSpec>) -> Option<PlanError> {
    if es.len() == 0 {
        Some(PlanError::Empty)
    } else if spec_requires_source(kind) && exists|i: int| 0 <= i < es.len() && (#[trigger] es[i]).0 is None {
        Some(PlanError::MissingSource)
    } else {
        None
    }
}

/// Whether a planning result is the plan of these items, kind, destination, policies, safety,
/// generation and impact, or the refusal that such a request gets.
pub open spec fn planned(
    r: Result<OperationPlan, PlanError>,
    kind: OperationKind,
    es: Seq<ItemSpec>,
    destination: Option<Seq<char>>,
    policies: PlanPolicies,
    safety: SafetyClass,
    generation: ListingGeneration,
    high_impact: bool,
) -> bool {
    match expected_rejection(kind, es) {
        Some(e) => r == Err::<OperationPlan, PlanError>(e),
        None => r matches Ok(p) && p.spec_kind() == kind && items_are(item_views(p.spec_items()), es)
            && (match destination {
            Some(d) => p.spec_destination() matches Some(l) && l@ == d,
            None => p.spec_destination() is None,
        }) && p.spec_policies() == policies && p.spec_safety() == safety && p.spec_generation()
            == generation && p.spec_high_impact() == high_impact,
    }
}

/// The default policies with some fields replaced.
pub open spec fn default_policies() -> PlanPolicies {
    PlanPolicies {
        conflict: ConflictPolicy::Ask,
        metadata: MetadataPolicy::Preserve,
        verification: VerificationPolicy::SizeAndTime,
        recovery: RecoveryPolicy::JournalOnly,
        cross_device: CrossDeviceBehavior::NotApplicable,
        symlink: SymlinkPolicy::Preserve,
    }
}

/// What the filesystem reports for a source of a copy, a move or a move to the trash.
#[derive(Debug)]
pub struct TransferFacts {
    /// The source's name joined to the destination directory.
    pub target: NativePath,
    pub target_exists: bool,
    /// The source is a directory.
    pub directory: bool,
    /// The source lies on another device than the destination.
    pub cross_device: bool,
}

/// What the filesystem reports for an item of a restore.
#[derive(Clone, Copy, Debug)]
pub struct RestoreFacts {
    pub target_exists: bool,
    pub directory: bool,
    /// The trashed item lies on another device than the target's parent.
    pub cross_device: bool,
}

/// What the filesystem reports for a source of a wipe.
#[derive(Debug)]
pub enum WipeFacts {
    /// The source location is not a local path.
    Unresolved(ProviderError),
    /// The path could not be inspected: its display text and the reason.
    Uninspectable(String, String),
    /// The path's display text, whether it is a regular file (not a link), and whether it is
    /// read-only.
    Inspected { display: String, regular_file: bool, readonly: bool },
}

/// What the filesystem reports for an item of a batch rename.
#[derive(Debug)]
pub enum RenameFacts {
    /// The source location is not a local path.
    Unresolved(ProviderError),
    /// The source path has no parent.
    NoParent,
    /// The new name joined to the source's parent, and whether something exists there.
    Target { path: NativePath, exists: bool },
}

/// How a source was classified for a mutation, and whether it is a regular file.
#[derive(Debug)]
pub struct MutationFacts {
    pub classification: Result<ResourceClassification, ProviderError>,
    pub regular_file: bool,
}

fn plain_item(source: Option<ResourceRef>, target: Location, conflict: bool, recursive: bool) -> (r:
    PlannedItem)
    ensures
        item_is(r@, (source, target@, conflict, recursive, Map::empty())),
{
    let parameters = StrMap::new();
    assert(params_view(parameters.keys(), parameters.values()) =~= Map::<Seq<char>, Seq<char>>::empty());
    PlannedItem { source, target, conflict_expected: conflict, recursive, parameters }
}

proof fn lemma_rejection(kind: OperationKind, vs: Seq<PlannedItemView>, es: Seq<ItemSpec>)
    requires
        items_are(vs, es),
    ensures
        plan_rejection(kind, vs) == expected_rejection(kind, es),
{
    if spec_requires_source(kind) {
        if exists|i: int| 0 <= i < es.len() && (#[trigger] es[i]).0 is None {
            let i = choose|i: int| 0 <= i < es.len() && (#[trigger] es[i]).0 is None;
            assert(item_is(vs[i], es[i]));
        }
        if exists|i: int| 0 <= i < vs.len() && (#[trigger] vs[i]).0 is None {
            let i = choose|i: int| 0 <= i < vs.len() && (#[trigger] vs[i]).0 is None;
            assert(item_is(vs[i], es[i]));
        }
    }
}

/// The items of a copy or move: each source whose path and name resolve, towards its target.
pub open spec fn transfer_items(
    sources: Seq<ResourceRef>,
    facts: Seq<Option<TransferFacts>>,
    n: nat,
) -> Seq<ItemSpec>
    decreases n,
{
    if n == 0 {
        Seq::empty()
    } else {
        let init = transfer_items(sources, facts, (n - 1) as nat);
        match facts[n - 1] {
            Some(f) => init.push(
                (Some(sources[n - 1]), location_of(f.target@), f.target_exists, f.directory, Map::empty()),
            ),
            None => init,
        }
    }
}

/// Whether any resolved source among the first `n` lies on another device.
pub open spec fn any_cross_device(facts: Seq<Option<TransferFacts>>, n: nat) -> bool {
    exists|i: int| 0 <= i < n && ((#[trigger] facts[i]) matches Some(f) && f.cross_device)
}

/// How a transfer crosses devices: a move whose items cross devices copies then deletes,
/// another move renames, a copy does neither.
pub open spec fn transfer_cross_device(kind: OperationKind, crossing: bool) -> CrossDeviceBehavior {
    if kind == OperationKind::Move && crossing {
        CrossDeviceBehavior::CopyThenDelete
    } else if kind == OperationKind::Move {
        CrossDeviceBehavior::AtomicRename
    } else {
        CrossDeviceBehavior::NotApplicable
    }
}

/// The policies of a copy or move.
pub open spec fn transfer_policies(conflict: ConflictPolicy, cross: CrossDeviceBehavior) -> PlanPolicies {
    PlanPolicies {
        conflict,
        metadata: MetadataPolicy::Preserve,
        verification: VerificationPolicy::SizeAndTime,
        recovery: RecoveryPolicy::Backup,
        cross_device: cross,
        symlink: SymlinkPolicy::Preserve,
    }
}

/// The reason of the first source that may not enter planning for a mutation.
pub open spec fn first_denial(
    sources: Seq<ResourceRef>,
    mutation: MutationKind,
    checks: Seq<MutationFacts>,
    n: nat,
) -> Option<Seq<char>>
    decreases n,
{
    if n == 0 {
        None
    } else {
        match first_denial(sources, mutation, checks, (n - 1) as nat) {
            Some(r) => Some(r),
            None => match mutation_denial(
                sources[n - 1].location@,
                mutation,
                checks[n - 1].classification,
                checks[n - 1].regular_file,
            ) {
                Some((reason, _)) => Some(reason),
                None => None,
            },
        }
    }
}

/// The items of a move to the trash: conflicts are expected only without the platform's
/// own Trash.
pub open spec fn trash_items(
    sources: Seq<ResourceRef>,
    facts: Seq<Option<TransferFacts>>,
    native: bool,
    n: nat,
) -> Seq<ItemSpec>
    decreases n,
{
    if n == 0 {
        Seq::empty()
    } else {
        let init = trash_items(sources, facts, native, (n - 1) as nat);
        match facts[n - 1] {
            Some(f) => init.push(
                (Some(sources[n - 1]), location_of(f.target@), !native && f.target_exists, f.directory, Map::empty()),
            ),
            None => init,
        }
    }
}

/// The items of a restore: local sources whose paths resolve, towards their recorded
/// locations.
pub open spec fn restore_items(
    restorations: Seq<(ResourceRef, Location)>,
    facts: Seq<Option<RestoreFacts>>,
    n: nat,
) -> Seq<ItemSpec>
    decreases n,
{
    if n == 0 {
        Seq::empty()
    } else {
        let init = restore_items(restorations, facts, (n - 1) as nat);
        let (source, target) = restorations[n - 1];
        match facts[n - 1] {
            Some(f) => if source.provider@ == local_provider_id() {
                init.push((Some(source), target@, f.target_exists, f.directory, Map::empty()))
            } else {
                init
            },
            None => init,
        }
    }
}

/// Whether any restored item among the first `n` crosses devices.
pub open spec fn restore_crosses(
    restorations: Seq<(ResourceRef, Location)>,
    facts: Seq<Option<RestoreFacts>>,
    n: nat,
) -> bool {
    exists|i: int|
        0 <= i < n && ((#[trigger] facts[i]) matches Some(f) && f.cross_device && restorations[i].0.provider@
            == local_provider_id())
}

/// The items of a deletion or wipe: each source in place.
pub open spec fn in_place_items(
    sources: Seq<ResourceRef>,
    recursive: bool,
    params: Map<Seq<char>, Seq<char>>,
) -> Seq<ItemSpec> {
    Seq::new(sources.len(), |i: int| (Some(sources[i]), sources[i].location@, false, recursive, params))
}

/// The octal digits of a number (`{:o}`).
pub open spec fn octal(n: nat) -> Seq<char>
    decreases n,
{
    if n < 8 {
        seq![digit_char(n)]
    } else {
        octal(n / 8).push(digit_char(n % 8))
    }
}

pub open spec fn digit_char(d: nat) -> char {
    crate::text::digit_char(d)
}

/// The decimal text of a signed number (`i64::to_string`).
pub open spec fn signed_decimal(v: int) -> Seq<char> {
    if v < 0 {
        seq!['-'] + decimal((-v) as nat)
    } else {
        decimal(v as nat)
    }
}

/// Adds a parameter when a value is present.
pub open spec fn with_param(m: Map<Seq<char>, Seq<char>>, key: Seq<char>, value: Option<Seq<char>>) -> Map<
    Seq<char>,
    Seq<char>,
> {
    match value {
        Some(v) => m.insert(key, v),
        None => m,
    }
}

/// The parameters of an attribute update: one per field it changes.
pub open spec fn attribute_params(u: AttributeUpdate) -> Map<Seq<char>, Seq<char>> {
    let m0 = with_param(
        Map::empty(),
        "readonly"@,
        match u.readonly {
            Some(v) => Some(if v { "true"@ } else { "false"@ }),
            None => None,
        },
    );
    let m1 = with_param(
        m0,
        "unix-mode"@,
        match u.unix_mode {
            Some(v) => Some(octal(v as nat)),
            None => None,
        },
    );
    let m2 = with_param(
        m1,
        "owner"@,
        match u.owner {
            Some(v) => Some(decimal(v as nat)),
            None => None,
        },
    );
    let m3 = with_param(
        m2,
        "group"@,
        match u.group {
            Some(v) => Some(decimal(v as nat)),
            None => None,
        },
    );
    let m4 = with_param(
        m3,
        "modified-unix-ms"@,
        match u.modified_unix_ms {
            Some(v) => Some(signed_decimal(v as int)),
            None => None,
        },
    );
    with_param(
        m4,
        "accessed-unix-ms"@,
        match u.accessed_unix_ms {
            Some(v) => Some(signed_decimal(v as int)),
            None => None,
        },
    )
}

/// The resources an attribute change covers: the sources and, when recursive, their
/// descendants, each once, in the order first met.
pub open spec fn attribute_resources(
    sources: Seq<ResourceRef>,
    descendants: Seq<Seq<ResourceRef>>,
    recursive: bool,
    n: nat,
) -> Seq<ResourceRef>
    decreases n,
{
    if n == 0 {
        Seq::empty()
    } else {
        let init = attribute_resources(sources, descendants, recursive, (n - 1) as nat);
        let with_source = add_new(init, seq![sources[n - 1]]);
        if recursive {
            add_new(with_source, descendants[n - 1])
        } else {
            with_source
        }
    }
}

/// Whether a resource with the same provider and location is among these.
pub open spec fn has_resource(seen: Seq<ResourceRef>, r: ResourceRef) -> bool {
    exists|i: int|
        0 <= i < seen.len() && (#[trigger] seen[i]).provider@ == r.provider@ && seen[i].location@
            == r.location@
}

/// Appends the resources not yet present, in order.
pub open spec fn add_new(seen: Seq<ResourceRef>, more: Seq<ResourceRef>) -> Seq<ResourceRef>
    decreases more.len(),
{
    if more.len() == 0 {
        seen
    } else {
        let init = add_new(seen, more.drop_last());
        if has_resource(init, more.last()) {
            init
        } else {
            init.push(more.last())
        }
    }
}

/// The rename items of a batch rename, or the first error.
pub open spec fn rename_outcome(
    items: Seq<(ResourceRef, String)>,
    facts: Seq<RenameFacts>,
    n: nat,
) -> Result<Seq<ItemSpec>, Seq<char>>
    decreases n,
{
    if n == 0 {
        Ok(Seq::empty())
    } else {
        match rename_outcome(items, facts, (n - 1) as nat) {
            Err(m) => Err(m),
            Ok(init) => {
                let (source, name) = items[n - 1];
                match facts[n - 1] {
                    RenameFacts::Unresolved(e) => Err(crate::provider::provider_error_text(e)),
                    RenameFacts::NoParent => Err(source.location@ + " has no parent"@),
                    RenameFacts::Target { path, exists } => if name@.len() == 0 || name@.contains('/')
                        || name@.contains('\\') {
                        Err("invalid rename target: "@ + name@)
                    } else {
                        let target = location_of(path@);
                        Ok(init.push((Some(source), target, source.location@ != target && exists, false, Map::empty())))
                    },
                }
            },
        }
    }
}

/// The error a wipe of these sources stops at, if any.
pub open spec fn wipe_refusal(facts: Seq<WipeFacts>, n: nat) -> Option<Seq<char>>
    decreases n,
{
    if n == 0 {
        None
    } else {
        match wipe_refusal(facts, (n - 1) as nat) {
            Some(m) => Some(m),
            None => match facts[n - 1] {
                WipeFacts::Unresolved(e) => Some("cannot resolve wipe source: "@ + crate::provider::provider_error_text(e)),
                WipeFacts::Uninspectable(display, reason) => Some("cannot inspect "@ + display@ + ": "@ + reason@),
                WipeFacts::Inspected { display, regular_file, readonly } => if !regular_file {
                    Some("wipe supports regular files only: "@ + display@)
                } else if readonly {
                    Some("wipe requires a writable file: "@ + display@)
                } else {
                    None
                },
            },
        }
    }
}

proof fn lemma_items_push(items: Seq<PlannedItem>, es: Seq<ItemSpec>, item: PlannedItem, e: ItemSpec)
    requires
        items_are(item_views(items), es),
        item_is(item@, e),
    ensures
        items_are(item_views(items.push(item)), es.push(e)),
{
    assert(item_views(items.push(item)) =~= item_views(items).push(item@));
    let vs = item_views(items.push(item));
    assert forall|i: int| 0 <= i < es.push(e).len() implies item_is(#[trigger] vs[i], es.push(e)[i]) by {
        if i < es.len() {
            assert(vs[i] == item_views(items)[i]);
        }
    }
}

fn copy_classification(c: &Result<ResourceClassification, ProviderError>) -> (r: Result<
    ResourceClassification,
    ProviderError,
>)
    ensures
        r == *c,
{
    match c {
        Ok(k) => Ok(*k),
        Err(e) => Err(e.duplicate()),
    }
}

/// A parameter map with one entry.
fn single_param(key: &str, value: String) -> (r: StrMap<String>)
    ensures
        params_view(r.keys(), r.values()) == Map::<Seq<char>, Seq<char>>::empty().insert(key@, value@),
{
    let mut m = StrMap::new();
    let ghost v = value@;
    m.insert(key.to_owned(), value);
    proof {
        m.lemma_lengths();
        assert(params_view(m.keys(), m.values()) =~= Map::<Seq<char>, Seq<char>>::empty().insert(key@, v)) by {
            assert forall|k: Seq<char>| params_view(m.keys(), m.values()).contains_key(k) implies params_view(
                m.keys(),
                m.values(),
            )[k] == Map::<Seq<char>, Seq<char>>::empty().insert(key@, v)[k] by {
                assert(m.map().contains_key(k));
            }
            assert forall|k: Seq<char>| #[trigger] params_view(m.keys(), m.values()).contains_key(k) <==> Map::<Seq<char>, Seq<char>>::empty().insert(key@, v).contains_key(k) by {
                assert(m.map().contains_key(k) <==> m.keys().contains(k));
            }
        }
    }
    m
}

proof fn lemma_first_denial_stays(
    sources: Seq<ResourceRef>,
    mutation: MutationKind,
    checks: Seq<MutationFacts>,
    k: nat,
    n: nat,
)
    requires
        k <= n,
        first_denial(sources, mutation, checks, k) is Some,
    ensures
        first_denial(sources, mutation, checks, n) == first_denial(sources, mutation, checks, k),
    decreases n - k,
{
    if k < n {
        lemma_first_denial_stays(sources, mutation, checks, k, (n - 1) as nat);
    }
}

/// Octal digits of a number (`format!("{:o}")`).
pub fn octal_text(n: u32) -> (r: String)
    ensures
        r@ == octal(n as nat),
    decreases n,
{
    if n < 8 {
        let mut s = String::new();
        push_char(&mut s, ((n as u8) + 48) as char);
        assert(s@ =~= seq![digit_char(n as nat)]);
        s
    } else {
        let mut s = octal_text(n / 8);
        let d: u8 = (n % 8) as u8;
        push_char(&mut s, (d + 48) as char);
        s
    }
}

/// Decimal text of a signed number (`i64::to_string`).
pub fn signed_decimal_text(v: i64) -> (r: String)
    ensures
        r@ == signed_decimal(v as int),
{
    if v < 0 {
        let magnitude: u64 = if v == i64::MIN {
            9223372036854775808u64
        } else {
            (-v) as u64
        };
        let mut s = String::new();
        push_char(&mut s, '-');
        let digits = u64_decimal(magnitude);
        push_str(&mut s, digits.as_str());
        assert(s@ =~= seq!['-'] + decimal((-v) as nat));
        s
    } else {
        u64_decimal(v as u64)
    }
}

/// The parameters of an attribute update: `readonly`, `unix-mode` (octal), `owner`, `group`,
/// `modified-unix-ms` and `accessed-unix-ms`, for the fields it changes.
pub fn attribute_parameters(update: &AttributeUpdate) -> (r: StrMap<String>)
    ensures
        params_view(r.keys(), r.values()) == attribute_params(*update),
{
    let mut m: StrMap<String> = StrMap::new();
    proof {
        m.lemma_lengths();
        assert(params_view(m.keys(), m.values()) =~= Map::<Seq<char>, Seq<char>>::empty());
    }
    if let Some(readonly) = update.readonly {
        let text = if readonly {
            "true".to_owned()
        } else {
            "false".to_owned()
        };
        put_param(&mut m, "readonly", text);
    }
    if let Some(mode) = update.unix_mode {
        put_param(&mut m, "unix-mode", octal_text(mode));
    }
    if let Some(owner) = update.owner {
        put_param(&mut m, "owner", u64_decimal(owner as u64));
    }
    if let Some(group) = update.group {
        put_param(&mut m, "group", u64_decimal(group as u64));
    }
    if let Some(modified) = update.modified_unix_ms {
        put_param(&mut m, "modified-unix-ms", signed_decimal_text(modified));
    }
    if let Some(accessed) = update.accessed_unix_ms {
        put_param(&mut m, "accessed-unix-ms", signed_decimal_text(accessed));
    }
    m
}

fn put_param(m: &mut StrMap<String>, key: &str, value: String)
    ensures
        params_view(final(m).keys(), final(m).values()) == params_view(old(m).keys(), old(m).values()).insert(
            key@,
            value@,
        ),
{
    let ghost before = params_view(m.keys(), m.values());
    let ghost old_map = m.map();
    let ghost v = value@;
    proof {
        m.lemma_lengths();
        assert forall|k: Seq<char>| #[trigger] old_map.contains_key(k) implies before[k] == old_map[k]@ by {}
    }
    m.insert(key.to_owned(), value);
    proof {
        m.lemma_lengths();
        assert(params_view(m.keys(), m.values()) =~= before.insert(key@, v)) by {
            assert forall|k: Seq<char>| #[trigger] params_view(m.keys(), m.values()).contains_key(k) <==> before.insert(
                key@,
                v,
            ).contains_key(k) by {
                assert(m.map().contains_key(k) <==> m.keys().contains(k));
                assert(old_map.contains_key(k) <==> before.contains_key(k));
            }
            assert forall|k: Seq<char>| params_view(m.keys(), m.values()).contains_key(k) implies params_view(
                m.keys(),
                m.values(),
            )[k] == before.insert(key@, v)[k] by {
                assert(m.map().contains_key(k));
                if k != key@ {
                    assert(old_map.contains_key(k));
                }
            }
        }
    }
}

proof fn lemma_wipe_refusal_stays(facts: Seq<WipeFacts>, k: nat, n: nat)
    requires
        k <= n,
        wipe_refusal(facts, k) is Some,
    ensures
        wipe_refusal(facts, n) == wipe_refusal(facts, k),
    decreases n - k,
{
    if k < n {
        lemma_wipe_refusal_stays(facts, k, (n - 1) as nat);
    }
}

proof fn lemma_rename_error_stays(items: Seq<(ResourceRef, String)>, facts: Seq<RenameFacts>, k: nat, n: nat)
    requires
        k <= n,
        rename_outcome(items, facts, k) is Err,
    ensures
        rename_outcome(items, facts, n) == rename_outcome(items, facts, k),
    decreases n - k,
{
    if k < n {
        lemma_rename_error_stays(items, facts, k, (n - 1) as nat);
    }
}

/// The lists of descendants, with an unreadable one as empty.
pub open spec fn listed(ds: Seq<Result<Vec<ResourceRef>, String>>) -> Seq<Seq<ResourceRef>> {
    Seq::new(
        ds.len(),
        |i: int|
            match ds[i] {
                Ok(v) => v@,
                Err(_) => Seq::empty(),
            },
    )
}

/// The first error met listing descendants, in source order, for a recursive change.
pub open spec fn first_listing_error(ds: Seq<Result<Vec<ResourceRef>, String>>, recursive: bool, n: nat) -> Option<
    Seq<char>,
>
    decreases n,
{
    if n == 0 || !recursive {
        None
    } else {
        match first_listing_error(ds, recursive, (n - 1) as nat) {
            Some(m) => Some(m),
            None => match ds[n - 1] {
                Err(m) => Some(m@),
                Ok(_) => None,
            },
        }
    }
}

proof fn lemma_listing_error_stays(ds: Seq<Result<Vec<ResourceRef>, String>>, recursive: bool, k: nat, n: nat)
    requires
        k <= n,
        first_listing_error(ds, recursive, k) is Some,
    ensures
        first_listing_error(ds, recursive, n) == first_listing_error(ds, recursive, k),
    decreases n - k,
{
    if k < n {
        lemma_listing_error_stays(ds, recursive, k, (n - 1) as nat);
    }
}

/// The items of an attribute change: each resource in place with the update's parameters.
pub open spec fn attribute_items(resources: Seq<ResourceRef>, params: Map<Seq<char>, Seq<char>>) -> Seq<ItemSpec> {
    in_place_items(resources, false, params)
}

fn has_resource_exec(seen: &Vec<ResourceRef>, r: &ResourceRef) -> (b: bool)
    ensures
        b == has_resource(seen@, *r),
{
    let mut i: usize = 0;
    while i < seen.len()
        invariant
            i <= seen@.len(),
            forall|j: int|
                0 <= j < i ==> !((#[trigger] seen@[j]).provider@ == r.provider@ && seen@[j].location@
                    == r.location@),
        decreases seen@.len() - i,
    {
        if seen[i].provider.same(&r.provider) && seen[i].location.same(&r.location) {
            return true;
        }
        i = i + 1;
    }
    false
}

fn add_resource(seen: &mut Vec<ResourceRef>, r: &ResourceRef)
    ensures
        final(seen)@ == (if has_resource(old(seen)@, *r) {
            old(seen)@
        } else {
            old(seen)@.push(*r)
        }),
{
    if !has_resource_exec(seen, r) {
        seen.push(r.clone());
    }
}

fn add_resources(seen: &mut Vec<ResourceRef>, more: &Vec<ResourceRef>)
    ensures
        final(seen)@ == add_new(old(seen)@, more@),
{
    let ghost start = seen@;
    let mut i: usize = 0;
    assert(more@.take(0) =~= Seq::<ResourceRef>::empty());
    while i < more.len()
        invariant
            i <= more@.len(),
            seen@ == add_new(start, more@.take(i as int)),
        decreases more@.len() - i,
    {
        add_resource(seen, &more[i]);
        assert(more@.take(i + 1).drop_last() =~= more@.take(i as int));
        i = i + 1;
    }
    assert(more@.take(more@.len() as int) =~= more@);
}

/// Plans local filesystem operations.
pub struct LocalOperationPlanner {
    planner: OperationPlanner,
    trash_directory: NativePath,
    native_platform_trash: bool,
}

impl LocalOperationPlanner {
    /// The directory that trashed items move into.
    pub closed spec fn spec_trash_directory(&self) -> crate::local_fs::NativePathView {
        self.trash_directory@
    }

    /// Whether the platform's own Trash or Recycle Bin takes trashed items.
    pub closed spec fn spec_native_trash(&self) -> bool {
        self.native_platform_trash
    }

    /// A planner that moves trashed items into `trash_directory`.
    pub fn new(trash_directory: NativePath) -> (r: Self)
        ensures
            r.spec_trash_directory() == trash_directory@,
            !r.spec_native_trash(),
    {
        LocalOperationPlanner {
            planner: OperationPlanner::default(),
            trash_directory,
            native_platform_trash: false,
        }
    }

    /// The planner of the platform: its trash directory, and whether the platform's own
    /// Trash takes trashed items (macOS and Windows).
    pub fn platform_default(trash_directory: NativePath, native_platform_trash: bool) -> (r: Self)
        ensures
            r.spec_trash_directory() == trash_directory@,
            r.spec_native_trash() == native_platform_trash,
    {
        LocalOperationPlanner { planner: OperationPlanner::default(), trash_directory, native_platform_trash }
    }

    /// The planner of macOS, which is the platform planner.
    pub fn macos_default(trash_directory: NativePath, native_platform_trash: bool) -> (r: Self)
        ensures
            r.spec_trash_directory() == trash_directory@,
            r.spec_native_trash() == native_platform_trash,
    {
        Self::platform_default(trash_directory, native_platform_trash)
    }

    /// The trash directory.
    pub fn trash_directory(&self) -> (r: &NativePath)
        ensures
            r@ == self.spec_trash_directory(),
    {
        &self.trash_directory
    }

    /// Whether the platform's own Trash takes trashed items.
    pub fn native_platform_trash(&self) -> (r: bool)
        ensures
            r == self.spec_native_trash(),
    {
        self.native_platform_trash
    }

    /// Whether a resource may enter planning for a mutation (see
    /// `LocalFileProvider::mutation_eligibility`).
    pub fn eligibility(&self, resource: &ResourceRef, mutation: MutationKind, facts: MutationFacts) -> (r:
        MutationEligibility)
        ensures
            crate::local_fs::eligibility_matches(
                r,
                mutation_denial(resource.location@, mutation, facts.classification, facts.regular_file),
            ),
    {
        LocalFileProvider::mutation_eligibility(resource, mutation, facts.classification, facts.regular_file)
    }

    fn require_eligible(&self, sources: &Vec<ResourceRef>, mutation: MutationKind, checks: &Vec<MutationFacts>) -> (r:
        Result<(), PlanError>)
        requires
            checks@.len() == sources@.len(),
        ensures
            match first_denial(sources@, mutation, checks@, sources@.len()) {
                Some(m) => r matches Err(PlanError::Invalid(x)) && x@ == m,
                None => r is Ok,
            },
    {
        let mut i: usize = 0;
        while i < sources.len()
            invariant
                i <= sources@.len(),
                checks@.len() == sources@.len(),
                first_denial(sources@, mutation, checks@, i as nat) is None,
            decreases sources@.len() - i,
        {
            let classification = copy_classification(&checks[i].classification);
            let e = LocalFileProvider::mutation_eligibility(&sources[i], mutation, classification, checks[i].regular_file);
            match e {
                MutationEligibility::Denied(denial) => {
                    proof {
                        lemma_first_denial_stays(sources@, mutation, checks@, (i + 1) as nat, sources@.len());
                    }
                    return Err(PlanError::Invalid(denial.reason));
                },
                MutationEligibility::Allowed => {},
            }
            i = i + 1;
        }
        Ok(())
    }

    fn transfer(
        &mut self,
        kind: OperationKind,
        sources: &Vec<ResourceRef>,
        destination: &Location,
        destination_resolves: bool,
        facts: &Vec<Option<TransferFacts>>,
        generation: ListingGeneration,
        conflict: ConflictPolicy,
    ) -> (r: Result<OperationPlan, PlanError>)
        requires
            facts@.len() == sources@.len(),
        ensures
            !destination_resolves ==> r == Err::<OperationPlan, PlanError>(PlanError::Empty),
            destination_resolves ==> planned(
                r,
                kind,
                transfer_items(sources@, facts@, sources@.len()),
                Some(destination@),
                transfer_policies(conflict, transfer_cross_device(kind, any_cross_device(facts@, sources@.len()))),
                SafetyClass::Confirmable,
                generation,
                false,
            ),
    {
        if !destination_resolves {
            return Err(PlanError::Empty);
        }
        let mut items: Vec<PlannedItem> = Vec::new();
        let mut crossing = false;
        let mut i: usize = 0;
        assert(item_views(items@) =~= Seq::<PlannedItemView>::empty());
        while i < sources.len()
            invariant
                i <= sources@.len(),
                facts@.len() == sources@.len(),
                items_are(item_views(items@), transfer_items(sources@, facts@, i as nat)),
                crossing == any_cross_device(facts@, i as nat),
            decreases sources@.len() - i,
        {
            match &facts[i] {
                Some(f) => {
                    let item = plain_item(Some(sources[i].clone()), LocalFileProvider::location(&f.target), f.target_exists, f.directory);
                    proof {
                        lemma_items_push(items@, transfer_items(sources@, facts@, i as nat), item, (Some(sources@[i as int]), location_of(f.target@), f.target_exists, f.directory, Map::empty()));
                    }
                    items.push(item);
                    if f.cross_device {
                        crossing = true;
                        assert(facts@[i as int] matches Some(g) && g.cross_device);
                    }
                },
                None => {},
            }
            proof {
                if !crossing {
                    assert forall|j: int| 0 <= j < i + 1 implies !((#[trigger] facts@[j]) matches Some(g) && g.cross_device) by {
                        if j < i {
                            assert(!any_cross_device(facts@, i as nat));
                        }
                    }
                }
            }
            i = i + 1;
        }
        let cross = if kind == OperationKind::Move && crossing {
            CrossDeviceBehavior::CopyThenDelete
        } else if kind == OperationKind::Move {
            CrossDeviceBehavior::AtomicRename
        } else {
            CrossDeviceBehavior::NotApplicable
        };
        self.submit(
            kind,
            items,
            Some(destination.clone()),
            PlanPolicies {
                conflict,
                metadata: MetadataPolicy::Preserve,
                verification: VerificationPolicy::SizeAndTime,
                recovery: RecoveryPolicy::Backup,
                cross_device: cross,
                symlink: SymlinkPolicy::Preserve,
            },
            SafetyClass::Confirmable,
            generation,
            false,
            Ghost(transfer_items(sources@, facts@, sources@.len())),
        )
    }

    /// Plans copies into a resolved destination directory; `destination_resolves` says
    /// whether the destination is a local path, `facts` what each source resolves to.
    pub fn copy(
        &mut self,
        sources: &Vec<ResourceRef>,
        destination: &Location,
        destination_resolves: bool,
        facts: &Vec<Option<TransferFacts>>,
        generation: ListingGeneration,
        conflict: ConflictPolicy,
    ) -> (r: Result<OperationPlan, PlanError>)
        requires
            facts@.len() == sources@.len(),
        ensures
            !destination_resolves ==> r == Err::<OperationPlan, PlanError>(PlanError::Empty),
            destination_resolves ==> planned(
                r,
                OperationKind::Copy,
                transfer_items(sources@, facts@, sources@.len()),
                Some(destination@),
                transfer_policies(conflict, CrossDeviceBehavior::NotApplicable),
                SafetyClass::Confirmable,
                generation,
                false,
            ),
    {
        self.transfer(OperationKind::Copy, sources, destination, destination_resolves, facts, generation, conflict)
    }

    /// Plans moves, recording whether they rename in place or copy then delete.
    pub fn move_resources(
        &mut self,
        sources: &Vec<ResourceRef>,
        destination: &Location,
        destination_resolves: bool,
        facts: &Vec<Option<TransferFacts>>,
        generation: ListingGeneration,
        conflict: ConflictPolicy,
    ) -> (r: Result<OperationPlan, PlanError>)
        requires
            facts@.len() == sources@.len(),
        ensures
            !destination_resolves ==> r == Err::<OperationPlan, PlanError>(PlanError::Empty),
            destination_resolves ==> planned(
                r,
                OperationKind::Move,
                transfer_items(sources@, facts@, sources@.len()),
                Some(destination@),
                transfer_policies(
                    conflict,
                    if any_cross_device(facts@, sources@.len()) {
                        CrossDeviceBehavior::CopyThenDelete
                    } else {
                        CrossDeviceBehavior::AtomicRename
                    },
                ),
                SafetyClass::Confirmable,
                generation,
                false,
            ),
    {
        self.transfer(OperationKind::Move, sources, destination, destination_resolves, facts, generation, conflict)
    }

    /// Plans the creation of one directory.
    pub fn create_directory(&mut self, target: Location, target_exists: bool, generation: ListingGeneration) -> (r:
        Result<OperationPlan, PlanError>)
        ensures
            planned(
                r,
                OperationKind::CreateDirectory,
                seq![(None, target@, target_exists, false, Map::empty())],
                Some(target@),
                default_policies(),
                SafetyClass::Confirmable,
                generation,
                false,
            ),
    {
        let ghost es: Seq<ItemSpec> = seq![(None, target@, target_exists, false, Map::empty())];
        let item = plain_item(None, target.clone(), target_exists, false);
        let mut items: Vec<PlannedItem> = Vec::new();
        items.push(item);
        proof {
            assert(item_views(items@) =~= seq![item@]);
        }
        self.submit(
            OperationKind::CreateDirectory,
            items,
            Some(target),
            PlanPolicies::default(),
            SafetyClass::Confirmable,
            generation,
            false,
            Ghost(es),
        )
    }

    /// Plans reversible movement into the trash; every source must be eligible.
    pub fn trash(
        &mut self,
        sources: &Vec<ResourceRef>,
        checks: &Vec<MutationFacts>,
        facts: &Vec<Option<TransferFacts>>,
        generation: ListingGeneration,
    ) -> (r: Result<OperationPlan, PlanError>)
        requires
            checks@.len() == sources@.len(),
            facts@.len() == sources@.len(),
        ensures
            match first_denial(sources@, MutationKind::Trash, checks@, sources@.len()) {
                Some(m) => r matches Err(PlanError::Invalid(x)) && x@ == m,
                None => planned(
                    r,
                    OperationKind::Trash,
                    trash_items(sources@, facts@, old(self).spec_native_trash(), sources@.len()),
                    Some(location_of(old(self).spec_trash_directory())),
                    PlanPolicies {
                        conflict: ConflictPolicy::Rename,
                        recovery: RecoveryPolicy::Trash,
                        cross_device: CrossDeviceBehavior::CopyThenDelete,
                        ..default_policies()
                    },
                    SafetyClass::Reversible,
                    generation,
                    false,
                ),
            },
    {
        self.require_eligible(sources, MutationKind::Trash, checks)?;
        let native = self.native_platform_trash;
        let mut items: Vec<PlannedItem> = Vec::new();
        let mut i: usize = 0;
        assert(item_views(items@) =~= Seq::<PlannedItemView>::empty());
        while i < sources.len()
            invariant
                i <= sources@.len(),
                facts@.len() == sources@.len(),
                items_are(item_views(items@), trash_items(sources@, facts@, native, i as nat)),
            decreases sources@.len() - i,
        {
            match &facts[i] {
                Some(f) => {
                    let item = plain_item(Some(sources[i].clone()), LocalFileProvider::location(&f.target), !native && f.target_exists, f.directory);
                    proof {
                        lemma_items_push(items@, trash_items(sources@, facts@, native, i as nat), item, (Some(sources@[i as int]), location_of(f.target@), !native && f.target_exists, f.directory, Map::empty()));
                    }
                    items.push(item);
                },
                None => {},
            }
            i = i + 1;
        }
        let destination = LocalFileProvider::location(&self.trash_directory);
        self.submit(
            OperationKind::Trash,
            items,
            Some(destination),
            PlanPolicies {
                conflict: ConflictPolicy::Rename,
                metadata: MetadataPolicy::Preserve,
                verification: VerificationPolicy::SizeAndTime,
                recovery: RecoveryPolicy::Trash,
                cross_device: CrossDeviceBehavior::CopyThenDelete,
                symlink: SymlinkPolicy::Preserve,
            },
            SafetyClass::Reversible,
            generation,
            false,
            Ghost(trash_items(sources@, facts@, native, sources@.len())),
        )
    }

    /// Plans restoration of trashed items to their recorded locations: only local sources
    /// whose paths resolve take part.
    pub fn restore(
        &mut self,
        restorations: &Vec<(ResourceRef, Location)>,
        facts: &Vec<Option<RestoreFacts>>,
        generation: ListingGeneration,
    ) -> (r: Result<OperationPlan, PlanError>)
        requires
            facts@.len() == restorations@.len(),
        ensures
            planned(
                r,
                OperationKind::Restore,
                restore_items(restorations@, facts@, restorations@.len()),
                None,
                PlanPolicies {
                    conflict: ConflictPolicy::Ask,
                    recovery: RecoveryPolicy::JournalOnly,
                    cross_device: if restore_crosses(restorations@, facts@, restorations@.len()) {
                        CrossDeviceBehavior::CopyThenDelete
                    } else {
                        CrossDeviceBehavior::AtomicRename
                    },
                    ..default_policies()
                },
                SafetyClass::Confirmable,
                generation,
                false,
            ),
    {
        let local = LocalFileProvider::id();
        let mut items: Vec<PlannedItem> = Vec::new();
        let mut crossing = false;
        let mut i: usize = 0;
        assert(item_views(items@) =~= Seq::<PlannedItemView>::empty());
        while i < restorations.len()
            invariant
                i <= restorations@.len(),
                facts@.len() == restorations@.len(),
                local@ == local_provider_id(),
                items_are(item_views(items@), restore_items(restorations@, facts@, i as nat)),
                crossing == restore_crosses(restorations@, facts@, i as nat),
            decreases restorations@.len() - i,
        {
            let (source, target) = &restorations[i];
            let is_local = source.provider.same(&local);
            match &facts[i] {
                Some(f) => {
                    if is_local {
                        let item = plain_item(Some(source.clone()), target.clone(), f.target_exists, f.directory);
                        proof {
                            lemma_items_push(items@, restore_items(restorations@, facts@, i as nat), item, (Some(*source), target@, f.target_exists, f.directory, Map::empty()));
                        }
                        items.push(item);
                        if f.cross_device {
                            crossing = true;
                        }
                    }
                },
                None => {},
            }
            proof {
                if !crossing {
                    assert forall|j: int| 0 <= j < i + 1 implies !((#[trigger] facts@[j]) matches Some(g) && g.cross_device
                        && restorations@[j].0.provider@ == local_provider_id()) by {
                        if j < i {
                            assert(!restore_crosses(restorations@, facts@, i as nat));
                        }
                    }
                } else if (facts@[i as int] matches Some(g) && g.cross_device) && is_local {
                    assert(facts@[i as int] matches Some(g) && g.cross_device && restorations@[i as int].0.provider@
                        == local_provider_id());
                }
            }
            i = i + 1;
        }
        let cross = if crossing {
            CrossDeviceBehavior::CopyThenDelete
        } else {
            CrossDeviceBehavior::AtomicRename
        };
        self.submit(
            OperationKind::Restore,
            items,
            None,
            PlanPolicies {
                conflict: ConflictPolicy::Ask,
                metadata: MetadataPolicy::Preserve,
                verification: VerificationPolicy::SizeAndTime,
                recovery: RecoveryPolicy::JournalOnly,
                cross_device: cross,
                symlink: SymlinkPolicy::Preserve,
            },
            SafetyClass::Confirmable,
            generation,
            false,
            Ghost(restore_items(restorations@, facts@, restorations@.len())),
        )
    }

    fn in_place(sources: &Vec<ResourceRef>, recursive: bool, parameters: &StrMap<String>, Ghost(params): Ghost<
        Map<Seq<char>, Seq<char>>,
    >) -> (r: Vec<PlannedItem>)
        requires
            params_view(parameters.keys(), parameters.values()) == params,
        ensures
            items_are(item_views(r@), in_place_items(sources@, recursive, params)),
    {
        let mut items: Vec<PlannedItem> = Vec::new();
        let mut i: usize = 0;
        while i < sources.len()
            invariant
                i <= sources@.len(),
                params_view(parameters.keys(), parameters.values()) == params,
                items_are(item_views(items@), in_place_items(sources@, recursive, params).take(i as int)),
            decreases sources@.len() - i,
        {
            let copy = parameters.duplicate();
            let item = PlannedItem {
                source: Some(sources[i].clone()),
                target: sources[i].location.clone(),
                conflict_expected: false,
                recursive,
                parameters: copy,
            };
            proof {
                let es = in_place_items(sources@, recursive, params);
                assert(es.take(i + 1) =~= es.take(i as int).push(es[i as int]));
                lemma_items_push(items@, es.take(i as int), item, es[i as int]);
            }
            items.push(item);
            i = i + 1;
        }
        assert(in_place_items(sources@, recursive, params).take(sources@.len() as int) =~= in_place_items(sources@, recursive, params));
        items
    }

    /// Plans permanent deletion; every source must be eligible.
    pub fn delete(
        &mut self,
        sources: &Vec<ResourceRef>,
        checks: &Vec<MutationFacts>,
        generation: ListingGeneration,
        recursive: bool,
    ) -> (r: Result<OperationPlan, PlanError>)
        requires
            checks@.len() == sources@.len(),
        ensures
            match first_denial(sources@, MutationKind::Delete, checks@, sources@.len()) {
                Some(m) => r matches Err(PlanError::Invalid(x)) && x@ == m,
                None => planned(
                    r,
                    OperationKind::Delete,
                    in_place_items(sources@, recursive, Map::empty()),
                    None,
                    PlanPolicies { recovery: RecoveryPolicy::NoRecovery, ..default_policies() },
                    SafetyClass::Destructive,
                    generation,
                    true,
                ),
            },
    {
        self.require_eligible(sources, MutationKind::Delete, checks)?;
        let parameters: StrMap<String> = StrMap::new();
        proof {
            parameters.lemma_lengths();
            assert(params_view(parameters.keys(), parameters.values()) =~= Map::<Seq<char>, Seq<char>>::empty());
        }
        let items = Self::in_place(sources, recursive, &parameters, Ghost(Map::empty()));
        self.submit(
            OperationKind::Delete,
            items,
            None,
            PlanPolicies {
                conflict: ConflictPolicy::Ask,
                metadata: MetadataPolicy::Preserve,
                verification: VerificationPolicy::SizeAndTime,
                recovery: RecoveryPolicy::NoRecovery,
                cross_device: CrossDeviceBehavior::NotApplicable,
                symlink: SymlinkPolicy::Preserve,
            },
            SafetyClass::Destructive,
            generation,
            true,
            Ghost(in_place_items(sources@, recursive, Map::empty())),
        )
    }

    /// Plans an overwrite-before-delete of regular files with 1 to 7 passes.
    pub fn wipe(
        &mut self,
        sources: &Vec<ResourceRef>,
        checks: &Vec<MutationFacts>,
        facts: &Vec<WipeFacts>,
        generation: ListingGeneration,
        passes: u8,
    ) -> (r: Result<OperationPlan, PlanError>)
        requires
            checks@.len() == sources@.len(),
            facts@.len() == sources@.len(),
        ensures
            match first_denial(sources@, MutationKind::Wipe, checks@, sources@.len()) {
                Some(m) => r matches Err(PlanError::Invalid(x)) && x@ == m,
                None => if !(1 <= passes <= 7) {
                    r matches Err(PlanError::Invalid(x)) && x@ == "wipe passes must be between 1 and 7"@
                } else {
                    match wipe_refusal(facts@, sources@.len()) {
                        Some(m) => r matches Err(PlanError::Invalid(x)) && x@ == m,
                        None => planned(
                            r,
                            OperationKind::Wipe,
                            in_place_items(
                                sources@,
                                false,
                                Map::<Seq<char>, Seq<char>>::empty().insert("passes"@, decimal(passes as nat)),
                            ),
                            None,
                            PlanPolicies { recovery: RecoveryPolicy::NoRecovery, ..default_policies() },
                            SafetyClass::Destructive,
                            generation,
                            true,
                        ),
                    }
                },
            },
    {
        self.require_eligible(sources, MutationKind::Wipe, checks)?;
        if !(1 <= passes && passes <= 7) {
            return Err(PlanError::Invalid("wipe passes must be between 1 and 7".to_owned()));
        }
        let mut i: usize = 0;
        while i < facts.len()
            invariant
                i <= facts@.len(),
                facts@.len() == sources@.len(),
                wipe_refusal(facts@, i as nat) is None,
                first_denial(sources@, MutationKind::Wipe, checks@, sources@.len()) is None,
                1 <= passes <= 7,
            decreases facts@.len() - i,
        {
            let refusal: Option<String> = match &facts[i] {
                WipeFacts::Unresolved(e) => {
                    let mut m = "cannot resolve wipe source: ".to_owned();
                    let text = e.message();
                    push_str(&mut m, text.as_str());
                    Some(m)
                },
                WipeFacts::Uninspectable(display, reason) => {
                    let mut m = "cannot inspect ".to_owned();
                    push_str(&mut m, display.as_str());
                    push_str(&mut m, ": ");
                    push_str(&mut m, reason.as_str());
                    Some(m)
                },
                WipeFacts::Inspected { display, regular_file, readonly } => {
                    if !*regular_file {
                        let mut m = "wipe supports regular files only: ".to_owned();
                        push_str(&mut m, display.as_str());
                        Some(m)
                    } else if *readonly {
                        let mut m = "wipe requires a writable file: ".to_owned();
                        push_str(&mut m, display.as_str());
                        Some(m)
                    } else {
                        None
                    }
                },
            };
            if let Some(m) = refusal {
                proof {
                    lemma_wipe_refusal_stays(facts@, (i + 1) as nat, facts@.len());
                }
                return Err(PlanError::Invalid(m));
            }
            i = i + 1;
        }
        let parameters = single_param("passes", u64_decimal(passes as u64));
        let ghost params = Map::<Seq<char>, Seq<char>>::empty().insert("passes"@, decimal(passes as nat));
        let items = Self::in_place(sources, false, &parameters, Ghost(params));
        self.submit(
            OperationKind::Wipe,
            items,
            None,
            PlanPolicies {
                conflict: ConflictPolicy::Ask,
                metadata: MetadataPolicy::Preserve,
                verification: VerificationPolicy::SizeAndTime,
                recovery: RecoveryPolicy::NoRecovery,
                cross_device: CrossDeviceBehavior::NotApplicable,
                symlink: SymlinkPolicy::Preserve,
            },
            SafetyClass::Destructive,
            generation,
            true,
            Ghost(in_place_items(sources@, false, params)),
        )
    }

    fn single_source_plan(
        &mut self,
        kind: OperationKind,
        source: ResourceRef,
        target: Location,
        target_exists: bool,
        generation: ListingGeneration,
        parameters: StrMap<String>,
    ) -> (r: Result<OperationPlan, PlanError>)
        ensures
            planned(
                r,
                kind,
                seq![
                    (
                        Some(source),
                        target@,
                        source.location@ != target@ && target_exists,
                        false,
                        params_view(parameters.keys(), parameters.values()),
                    ),
                ],
                Some(target@),
                PlanPolicies { conflict: ConflictPolicy::Ask, recovery: RecoveryPolicy::Backup, ..default_policies() },
                SafetyClass::Confirmable,
                generation,
                false,
            ),
    {
        let conflict_expected = !source.location.same(&target) && target_exists;
        let ghost e: ItemSpec = (
            Some(source),
            target@,
            conflict_expected,
            false,
            params_view(parameters.keys(), parameters.values()),
        );
        let ghost es: Seq<ItemSpec> = seq![e];
        let destination = target.clone();
        let item = PlannedItem { source: Some(source), target, conflict_expected, recursive: false, parameters };
        let mut items: Vec<PlannedItem> = Vec::new();
        items.push(item);
        proof {
            assert(item_views(items@) =~= seq![item@]);
        }
        self.submit(
            kind,
            items,
            Some(destination),
            PlanPolicies {
                conflict: ConflictPolicy::Ask,
                metadata: MetadataPolicy::Preserve,
                verification: VerificationPolicy::SizeAndTime,
                recovery: RecoveryPolicy::Backup,
                cross_device: CrossDeviceBehavior::NotApplicable,
                symlink: SymlinkPolicy::Preserve,
            },
            SafetyClass::Confirmable,
            generation,
            false,
            Ghost(es),
        )
    }

    /// Plans a rename to an exact target location.
    pub fn rename(&mut self, source: ResourceRef, target: Location, target_exists: bool, generation: ListingGeneration) -> (r:
        Result<OperationPlan, PlanError>)
        ensures
            planned(
                r,
                OperationKind::Rename,
                seq![(Some(source), target@, source.location@ != target@ && target_exists, false, Map::empty())],
                Some(target@),
                PlanPolicies { conflict: ConflictPolicy::Ask, recovery: RecoveryPolicy::Backup, ..default_policies() },
                SafetyClass::Confirmable,
                generation,
                false,
            ),
    {
        let parameters: StrMap<String> = StrMap::new();
        proof {
            parameters.lemma_lengths();
            assert(params_view(parameters.keys(), parameters.values()) =~= Map::<Seq<char>, Seq<char>>::empty());
        }
        self.single_source_plan(OperationKind::Rename, source, target, target_exists, generation, parameters)
    }

    /// Plans a hard link at an exact target location.
    pub fn hard_link(&mut self, source: ResourceRef, target: Location, target_exists: bool, generation: ListingGeneration) -> (r:
        Result<OperationPlan, PlanError>)
        ensures
            planned(
                r,
                OperationKind::HardLink,
                seq![(Some(source), target@, source.location@ != target@ && target_exists, false, Map::empty())],
                Some(target@),
                PlanPolicies { conflict: ConflictPolicy::Ask, recovery: RecoveryPolicy::Backup, ..default_policies() },
                SafetyClass::Confirmable,
                generation,
                false,
            ),
    {
        let parameters: StrMap<String> = StrMap::new();
        proof {
            parameters.lemma_lengths();
            assert(params_view(parameters.keys(), parameters.values()) =~= Map::<Seq<char>, Seq<char>>::empty());
        }
        self.single_source_plan(OperationKind::HardLink, source, target, target_exists, generation, parameters)
    }

    /// Plans a symbolic link at an exact target location.
    pub fn symbolic_link(&mut self, source: ResourceRef, target: Location, target_exists: bool, generation: ListingGeneration) -> (r:
        Result<OperationPlan, PlanError>)
        ensures
            planned(
                r,
                OperationKind::SymbolicLink,
                seq![(Some(source), target@, source.location@ != target@ && target_exists, false, Map::empty())],
                Some(target@),
                PlanPolicies { conflict: ConflictPolicy::Ask, recovery: RecoveryPolicy::Backup, ..default_policies() },
                SafetyClass::Confirmable,
                generation,
                false,
            ),
    {
        let parameters: StrMap<String> = StrMap::new();
        proof {
            parameters.lemma_lengths();
            assert(params_view(parameters.keys(), parameters.values()) =~= Map::<Seq<char>, Seq<char>>::empty());
        }
        self.single_source_plan(OperationKind::SymbolicLink, source, target, target_exists, generation, parameters)
    }

    /// Plans a Unix mode change of one resource.
    pub fn set_unix_mode(&mut self, source: &ResourceRef, mode: u32, generation: ListingGeneration) -> (r:
        Result<OperationPlan, PlanError>)
        ensures
            planned(
                r,
                OperationKind::SetAttributes,
                seq![
                    (
                        Some(*source),
                        source.location@,
                        false,
                        false,
                        Map::<Seq<char>, Seq<char>>::empty().insert("unix-mode"@, octal(mode as nat)),
                    ),
                ],
                Some(source.location@),
                PlanPolicies { conflict: ConflictPolicy::Ask, recovery: RecoveryPolicy::Backup, ..default_policies() },
                SafetyClass::Confirmable,
                generation,
                false,
            ),
    {
        let parameters = single_param("unix-mode", octal_text(mode));
        self.single_source_plan(
            OperationKind::SetAttributes,
            source.clone(),
            source.location.clone(),
            false,
            generation,
            parameters,
        )
    }

    /// Plans the creation, or the timestamp update, of a file.
    pub fn touch(&mut self, target: Location, target_exists: bool, generation: ListingGeneration) -> (r: Result<
        OperationPlan,
        PlanError,
    >)
        ensures
            planned(
                r,
                OperationKind::Touch,
                seq![(None, target@, target_exists, false, Map::empty())],
                Some(target@),
                PlanPolicies { conflict: ConflictPolicy::Replace, ..default_policies() },
                SafetyClass::Reversible,
                generation,
                false,
            ),
    {
        let ghost es: Seq<ItemSpec> = seq![(None, target@, target_exists, false, Map::empty())];
        let item = plain_item(None, target.clone(), target_exists, false);
        let mut items: Vec<PlannedItem> = Vec::new();
        items.push(item);
        proof {
            assert(item_views(items@) =~= seq![item@]);
        }
        self.submit(
            OperationKind::Touch,
            items,
            Some(target),
            PlanPolicies {
                conflict: ConflictPolicy::Replace,
                metadata: MetadataPolicy::Preserve,
                verification: VerificationPolicy::SizeAndTime,
                recovery: RecoveryPolicy::JournalOnly,
                cross_device: CrossDeviceBehavior::NotApplicable,
                symlink: SymlinkPolicy::Preserve,
            },
            SafetyClass::Reversible,
            generation,
            false,
            Ghost(es),
        )
    }

    /// Plans several exact-name renames as one operation; each new name must be a single
    /// component.
    pub fn rename_many(
        &mut self,
        items: &Vec<(ResourceRef, String)>,
        facts: &Vec<RenameFacts>,
        generation: ListingGeneration,
    ) -> (r: Result<OperationPlan, PlanError>)
        requires
            facts@.len() == items@.len(),
        ensures
            match rename_outcome(items@, facts@, items@.len()) {
                Err(m) => r matches Err(PlanError::Invalid(x)) && x@ == m,
                Ok(es) => planned(
                    r,
                    OperationKind::Rename,
                    es,
                    None,
                    PlanPolicies { conflict: ConflictPolicy::Ask, recovery: RecoveryPolicy::Backup, ..default_policies() },
                    SafetyClass::Confirmable,
                    generation,
                    false,
                ),
            },
    {
        let mut planned_items: Vec<PlannedItem> = Vec::new();
        let mut i: usize = 0;
        assert(item_views(planned_items@) =~= Seq::<PlannedItemView>::empty());
        while i < items.len()
            invariant
                i <= items@.len(),
                facts@.len() == items@.len(),
                rename_outcome(items@, facts@, i as nat) matches Ok(es) && items_are(item_views(planned_items@), es),
            decreases items@.len() - i,
        {
            let (source, name) = &items[i];
            let ghost es = rename_outcome(items@, facts@, i as nat)->Ok_0;
            match &facts[i] {
                RenameFacts::Unresolved(e) => {
                    proof {
                        lemma_rename_error_stays(items@, facts@, (i + 1) as nat, items@.len());
                    }
                    return Err(PlanError::Invalid(e.message()));
                },
                RenameFacts::NoParent => {
                    let mut m = source.location.as_str().to_owned();
                    push_str(&mut m, " has no parent");
                    proof {
                        lemma_rename_error_stays(items@, facts@, (i + 1) as nat, items@.len());
                    }
                    return Err(PlanError::Invalid(m));
                },
                RenameFacts::Target { path, exists } => {
                    let chars = chars_of(name.as_str());
                    if chars.len() == 0 || contains_char(chars.as_slice(), '/') || contains_char(chars.as_slice(), '\\') {
                        let mut m = "invalid rename target: ".to_owned();
                        push_str(&mut m, name.as_str());
                        proof {
                            lemma_rename_error_stays(items@, facts@, (i + 1) as nat, items@.len());
                        }
                        return Err(PlanError::Invalid(m));
                    }
                    let target = LocalFileProvider::location(path);
                    let conflict = !source.location.same(&target) && *exists;
                    let item = plain_item(Some(source.clone()), target, conflict, false);
                    proof {
                        lemma_items_push(planned_items@, es, item, (Some(*source), location_of(path@), source.location@ != location_of(path@) && *exists, false, Map::empty()));
                    }
                    planned_items.push(item);
                },
            }
            i = i + 1;
        }
        self.submit(
            OperationKind::Rename,
            planned_items,
            None,
            PlanPolicies {
                conflict: ConflictPolicy::Ask,
                metadata: MetadataPolicy::Preserve,
                verification: VerificationPolicy::SizeAndTime,
                recovery: RecoveryPolicy::Backup,
                cross_device: CrossDeviceBehavior::NotApplicable,
                symlink: SymlinkPolicy::Preserve,
            },
            SafetyClass::Confirmable,
            generation,
            false,
            Ghost(rename_outcome(items@, facts@, items@.len())->Ok_0),
        )
    }

    /// Plans attribute changes over resources: the sources and, when recursive, their
    /// descendants (as `descendants` lists them for each source, or the error met listing
    /// them), each once.
    pub fn set_attributes(
        &mut self,
        sources: &Vec<ResourceRef>,
        update: &AttributeUpdate,
        recursive: bool,
        descendants: &Vec<Result<Vec<ResourceRef>, String>>,
        unix_platform: bool,
        generation: ListingGeneration,
    ) -> (r: Result<OperationPlan, PlanError>)
        requires
            descendants@.len() == sources@.len(),
        ensures
            ({
                let u = *update;
                let empty = u.readonly is None && u.unix_mode is None && u.owner is None && u.group is None
                    && u.modified_unix_ms is None && u.accessed_unix_ms is None;
                let unix_only = u.unix_mode is Some || u.owner is Some || u.group is Some;
                if empty {
                    r matches Err(PlanError::Invalid(x)) && x@ == "attribute update is empty"@
                } else if !unix_platform && unix_only {
                    r matches Err(PlanError::Invalid(x)) && x@
                        == "Unix mode and ownership fields are unsupported on this platform"@
                } else {
                    match first_listing_error(descendants@, recursive, sources@.len()) {
                        Some(m) => r matches Err(PlanError::Invalid(x)) && x@ == m,
                        None => planned(
                            r,
                            OperationKind::SetAttributes,
                            attribute_items(
                                attribute_resources(sources@, listed(descendants@), recursive, sources@.len()),
                                attribute_params(u),
                            ),
                            None,
                            PlanPolicies { recovery: RecoveryPolicy::JournalOnly, ..default_policies() },
                            SafetyClass::Confirmable,
                            generation,
                            false,
                        ),
                    }
                }
            }),
    {
        if update.is_empty() {
            return Err(PlanError::Invalid("attribute update is empty".to_owned()));
        }
        if !unix_platform && (update.unix_mode.is_some() || update.owner.is_some() || update.group.is_some()) {
            return Err(PlanError::Invalid("Unix mode and ownership fields are unsupported on this platform".to_owned()));
        }
        let mut resources: Vec<ResourceRef> = Vec::new();
        let mut i: usize = 0;
        while i < sources.len()
            invariant
                i <= sources@.len(),
                descendants@.len() == sources@.len(),
                first_listing_error(descendants@, recursive, i as nat) is None,
                resources@ == attribute_resources(sources@, listed(descendants@), recursive, i as nat),
                !(update.readonly is None && update.unix_mode is None && update.owner is None
                    && update.group is None && update.modified_unix_ms is None
                    && update.accessed_unix_ms is None),
                unix_platform || !(update.unix_mode is Some || update.owner is Some || update.group is Some),
            decreases sources@.len() - i,
        {
            let ghost before = resources@;
            add_resource(&mut resources, &sources[i]);
            proof {
                reveal_with_fuel(add_new, 2);
                assert(seq![sources@[i as int]].drop_last() =~= Seq::<ResourceRef>::empty());
                assert(add_new(before, seq![sources@[i as int]]) == resources@);
            }
            if recursive {
                match &descendants[i] {
                    Err(m) => {
                        proof {
                            lemma_listing_error_stays(descendants@, recursive, (i + 1) as nat, sources@.len());
                        }
                        return Err(PlanError::Invalid(m.clone()));
                    },
                    Ok(list) => {
                        add_resources(&mut resources, list);
                    },
                }
            }
            i = i + 1;
        }
        let parameters = attribute_parameters(update);
        let ghost params = attribute_params(*update);
        let items = Self::attribute_plan_items(&resources, &parameters, Ghost(params));
        self.submit(
            OperationKind::SetAttributes,
            items,
            None,
            PlanPolicies {
                conflict: ConflictPolicy::Ask,
                metadata: MetadataPolicy::Preserve,
                verification: VerificationPolicy::SizeAndTime,
                recovery: RecoveryPolicy::JournalOnly,
                cross_device: CrossDeviceBehavior::NotApplicable,
                symlink: SymlinkPolicy::Preserve,
            },
            SafetyClass::Confirmable,
            generation,
            false,
            Ghost(attribute_items(resources@, params)),
        )
    }

    fn attribute_plan_items(resources: &Vec<ResourceRef>, parameters: &StrMap<String>, Ghost(params): Ghost<
        Map<Seq<char>, Seq<char>>,
    >) -> (r: Vec<PlannedItem>)
        requires
            params_view(parameters.keys(), parameters.values()) == params,
        ensures
            items_are(item_views(r@), attribute_items(resources@, params)),
    {
        Self::in_place(resources, false, parameters, Ghost(params))
    }

    fn submit(
        &mut self,
        kind: OperationKind,
        items: Vec<PlannedItem>,
        destination: Option<Location>,
        policies: PlanPolicies,
        safety: SafetyClass,
        generation: ListingGeneration,
        high_impact: bool,
        Ghost(es): Ghost<Seq<ItemSpec>>,
    ) -> (r: Result<OperationPlan, PlanError>)
        requires
            items_are(item_views(items@), es),
        ensures
            planned(
                r,
                kind,
                es,
                match destination {
                    Some(l) => Some(l@),
                    None => None,
                },
                policies,
                safety,
                generation,
                high_impact,
            ),
            final(self).spec_trash_directory() == old(self).spec_trash_directory(),
            final(self).spec_native_trash() == old(self).spec_native_trash(),
    {
        proof {
            lemma_rejection(kind, item_views(items@), es);
        }
        let ghost d = destination;
        self.planner.plan(
            PlanRequest {
                kind,
                items,
                destination,
                policies,
                safety,
                context_generation: generation,
                high_impact,
            },
        )
    }
}

/// Carries out a recorded plan with elevated privileges, outside this process.
pub trait ElevationBroker {
    fn execute(
        &self,
        plan: &OperationPlan,
        authorization: ExecutionAuthorization,
        conflict: ConflictDecision,
    ) -> Result<ExecutionSummary, String>;
}

/// What the filesystem reports for the source of a new link.
#[derive(Debug)]
pub enum LinkFacts {
    /// The source location is not a local path.
    Unresolved(ProviderError),
    /// The source could not be inspected: its display text and the reason.
    Uninspectable(String, String),
    /// The source has no parent directory: its display text.
    NoParent(String),
    /// The source is a regular file or a directory; the link's name joined to the source's
    /// parent; and whether something exists there.
    Source { is_file: bool, is_dir: bool, target: NativePath, target_exists: bool },
}

/// Whether a name is a single path component: non-empty, without `/` or `\`.
pub open spec fn single_component(name: Seq<char>) -> bool {
    name.len() > 0 && !name.contains('/') && !name.contains('\\')
}

fn is_single_component(name: &str) -> (r: bool)
    ensures
        r == single_component(name@),
{
    let chars = chars_of(name);
    chars.len() > 0 && !contains_char(chars.as_slice(), '/') && !contains_char(chars.as_slice(), '\\')
}

/// The refusal of a link request before planning, if any.
pub open spec fn link_refusal(name: Seq<char>, kind: LinkKind, facts: LinkFacts) -> Option<Seq<char>> {
    if !single_component(name) {
        Some("invalid link target name: "@ + name)
    } else {
        match facts {
            LinkFacts::Unresolved(e) => Some(provider_error_text(e)),
            LinkFacts::Uninspectable(display, reason) => Some(
                "cannot inspect link source "@ + display@ + ": "@ + reason@,
            ),
            LinkFacts::NoParent(display) => Some("link source has no parent: "@ + display@),
            LinkFacts::Source { is_file, is_dir, .. } => if kind == LinkKind::Hard && !is_file {
                Some("hard links require a regular file source"@)
            } else if kind == LinkKind::Junction && !is_dir {
                Some("junction links require a directory source"@)
            } else {
                None
            },
        }
    }
}

/// Plans and records local operations, and executes them through a backend or, for
/// privileged retries, through an elevation broker.
pub struct LocalOperationService<B, E> {
    planner: LocalOperationPlanner,
    engine: OperationEngine<B>,
    elevation: Option<E>,
}

impl<B: OperationBackend, E: ElevationBroker> LocalOperationService<B, E> {
    /// The plans recorded so far, by identifier.
    pub closed spec fn recorded(&self) -> Map<Seq<char>, OperationPlan> {
        self.engine.spec_plans()
    }

    /// The journal that plans are executed under.
    pub closed spec fn journal(&self) -> OperationJournal {
        self.engine.spec_journal()
    }

    /// The planner.
    pub closed spec fn spec_planner(&self) -> LocalOperationPlanner {
        self.planner
    }

    /// Whether an elevation broker is configured.
    pub closed spec fn has_broker(&self) -> bool {
        self.elevation is Some
    }

    /// A service whose planner trashes into `trash_directory`, executing through `backend`.
    pub fn new(trash_directory: NativePath, backend: B, journal: OperationJournal) -> (r: Self)
        ensures
            r.recorded() == Map::<Seq<char>, OperationPlan>::empty(),
            !r.has_broker(),
    {
        LocalOperationService {
            planner: LocalOperationPlanner::new(trash_directory),
            engine: OperationEngine::new(backend, journal),
            elevation: None,
        }
    }

    /// The platform's service: its trash directory, and whether the platform's own Trash
    /// takes trashed items.
    pub fn platform_default(trash_directory: NativePath, native_platform_trash: bool, backend: B, journal: OperationJournal) -> (r:
        Self)
        ensures
            r.recorded() == Map::<Seq<char>, OperationPlan>::empty(),
            !r.has_broker(),
    {
        LocalOperationService {
            planner: LocalOperationPlanner::platform_default(trash_directory, native_platform_trash),
            engine: OperationEngine::new(backend, journal),
            elevation: None,
        }
    }

    /// The service of macOS, which is the platform service.
    pub fn macos_default(trash_directory: NativePath, native_platform_trash: bool, backend: B, journal: OperationJournal) -> (r:
        Self)
        ensures
            r.recorded() == Map::<Seq<char>, OperationPlan>::empty(),
            !r.has_broker(),
    {
        Self::platform_default(trash_directory, native_platform_trash, backend, journal)
    }

    /// The same service with privileged retries going through `broker`.
    pub fn with_elevation_broker(self, broker: E) -> (r: Self)
        ensures
            r.recorded() == self.recorded(),
            r.has_broker(),
    {
        LocalOperationService { planner: self.planner, engine: self.engine, elevation: Some(broker) }
    }

    /// The planner.
    pub fn planner_mut(&mut self) -> (r: &mut LocalOperationPlanner)
        ensures
            *r == old(self).spec_planner(),
            final(self).recorded() == old(self).recorded(),
            final(self).has_broker() == old(self).has_broker(),
            final(self).spec_planner() == *final(r),
    {
        &mut self.planner
    }

    /// Records a planning result: a plan is recorded and returned, a refusal becomes its
    /// message.
    pub fn record(&mut self, planned: Result<OperationPlan, PlanError>) -> (r: Result<OperationPlan, String>)
        ensures
            final(self).has_broker() == old(self).has_broker(),
            match planned {
                Err(e) => r matches Err(m) && m@ == spec_plan_error_message(e) && final(self).recorded()
                    == old(self).recorded(),
                Ok(p) => r matches Ok(q) && q.spec_id() == p.spec_id() && q.spec_kind() == p.spec_kind()
                    && item_views(q.spec_items()) == item_views(p.spec_items()) && q.spec_destination()
                    == p.spec_destination() && q.spec_policies() == p.spec_policies() && q.spec_safety()
                    == p.spec_safety() && q.spec_generation() == p.spec_generation() && q.spec_high_impact()
                    == p.spec_high_impact() && final(self).recorded() == old(self).recorded().insert(
                    p.spec_id()@,
                    p,
                ),
            },
    {
        let plan = match planned {
            Ok(plan) => plan,
            Err(e) => {
                return Err(e.message());
            },
        };
        let copy = plan.duplicate();
        match self.engine.record(plan) {
            Ok(_) => Ok(copy),
            Err(e) => Err(e.message()),
        }
    }

    /// Plans and records a link named `name` next to a source.
    pub fn plan_link(
        &mut self,
        source: ResourceRef,
        name: &str,
        kind: LinkKind,
        facts: LinkFacts,
        generation: ListingGeneration,
    ) -> (r: Result<OperationPlan, String>)
        ensures
            final(self).has_broker() == old(self).has_broker(),
            link_refusal(name@, kind, facts) matches Some(m) ==> (r matches Err(x) && x@ == m
                && final(self).recorded() == old(self).recorded()),
            link_refusal(name@, kind, facts) is None ==> (facts matches LinkFacts::Source {
                target,
                target_exists,
                ..
            } && r matches Ok(p) && p.spec_kind() == (if kind == LinkKind::Hard {
                OperationKind::HardLink
            } else {
                OperationKind::SymbolicLink
            }) && items_are(
                item_views(p.spec_items()),
                seq![
                    (
                        Some(source),
                        location_of(target@),
                        source.location@ != location_of(target@) && target_exists,
                        false,
                        Map::<Seq<char>, Seq<char>>::empty(),
                    ),
                ],
            ) && final(self).recorded().contains_key(p.spec_id()@)),
    {
        if !is_single_component(name) {
            let mut m = "invalid link target name: ".to_owned();
            push_str(&mut m, name);
            return Err(m);
        }
        let (is_file, is_dir, target, target_exists) = match facts {
            LinkFacts::Unresolved(e) => {
                return Err(e.message());
            },
            LinkFacts::Uninspectable(display, reason) => {
                let mut m = "cannot inspect link source ".to_owned();
                push_str(&mut m, display.as_str());
                push_str(&mut m, ": ");
                push_str(&mut m, reason.as_str());
                return Err(m);
            },
            LinkFacts::NoParent(display) => {
                let mut m = "link source has no parent: ".to_owned();
                push_str(&mut m, display.as_str());
                return Err(m);
            },
            LinkFacts::Source { is_file, is_dir, target, target_exists } => (is_file, is_dir, target, target_exists),
        };
        let location = LocalFileProvider::location(&target);
        let planned = match kind {
            LinkKind::Hard => {
                if !is_file {
                    return Err("hard links require a regular file source".to_owned());
                }
                self.planner.hard_link(source, location, target_exists, generation)
            },
            LinkKind::Junction => {
                if !is_dir {
                    return Err("junction links require a directory source".to_owned());
                }
                self.planner.symbolic_link(source, location, target_exists, generation)
            },
            LinkKind::Symbolic => self.planner.symbolic_link(source, location, target_exists, generation),
        };
        self.record(planned)
    }

    /// Executes a recorded plan, answering every conflict with the given decision.
    pub fn execute(
        &mut self,
        plan: &OperationId,
        authorization: ExecutionAuthorization,
        cancellation: &CancellationToken,
        conflict: ConflictDecision,
    ) -> (r: Result<ExecutionSummary, String>)
        ensures
            final(self).recorded() == old(self).recorded(),
            final(self).has_broker() == old(self).has_broker(),
            !old(self).recorded().contains_key(plan@) ==> (r matches Err(m) && m@
                == "unknown operation plan: "@ + plan@),
            old(self).recorded().contains_key(plan@) ==> match spec_authorization_error(
                old(self).recorded()[plan@],
                authorization,
            ) {
                Some(e) => r matches Err(m) && m@ == spec_execution_error_message(e)
                    && final(self).journal() == old(self).journal(),
                None => r matches Ok(s) && summary_follows(old(self).recorded()[plan@], *plan, s)
                    && final(self).journal().spec_summaries()[plan@]@ == s@,
            },
    {
        let mut resolver = FixedConflictResolver(conflict);
        match self.engine.execute(plan, authorization, cancellation, &mut resolver) {
            Ok(summary) => Ok(summary),
            Err(e) => Err(e.message()),
        }
    }

    /// Retries a recorded plan through the elevation broker.
    pub fn execute_elevated(
        &mut self,
        plan: &OperationId,
        authorization: ExecutionAuthorization,
        conflict: ConflictDecision,
    ) -> (r: Result<ExecutionSummary, String>)
        ensures
            final(self).recorded() == old(self).recorded(),
            !old(self).recorded().contains_key(plan@) ==> (r matches Err(m) && m@
                == "unknown operation plan: "@ + plan@),
            old(self).recorded().contains_key(plan@) && !old(self).has_broker() ==> (r matches Err(m)
                && m@ == "platform elevation broker is not configured"@),
    {
        let recorded = match self.engine.plan(plan) {
            Some(p) => p,
            None => {
                let mut m = "unknown operation plan: ".to_owned();
                push_str(&mut m, plan.as_str());
                return Err(m);
            },
        };
        match &self.elevation {
            Some(broker) => broker.execute(recorded, authorization, conflict),
            None => Err("platform elevation broker is not configured".to_owned()),
        }
    }
}

/// How a backend prepares the target of one item before writing it.
#[derive(Clone, Copy, Debug, PartialEq, Eq, Structural)]
pub enum TargetPreparation {
    /// Write to the target as it is.
    UseTarget,
    /// Move the existing target aside under a free `.near-backup N` name, then write.
    BackupExisting,
    /// Remove the existing target, then write.
    RemoveExisting,
    /// Write under a free ` copy N` name next to the target.
    RenameIncoming,
    /// Refuse: the target exists and no conflict decision was made.
    Refuse,
}

/// The preparation a target needs: none when it does not exist; otherwise by the conflict
/// decision, where replacing keeps a backup only under the backup recovery policy.
pub open spec fn spec_target_preparation(
    exists: bool,
    action: Option<ConflictAction>,
    recovery: RecoveryPolicy,
) -> TargetPreparation {
    if !exists {
        TargetPreparation::UseTarget
    } else {
        match action {
            Some(ConflictAction::Replace) => if recovery == RecoveryPolicy::Backup {
                TargetPreparation::BackupExisting
            } else {
                TargetPreparation::RemoveExisting
            },
            Some(ConflictAction::Rename) => TargetPreparation::RenameIncoming,
            Some(ConflictAction::Skip) | Some(ConflictAction::Cancel) => TargetPreparation::UseTarget,
            None => TargetPreparation::Refuse,
        }
    }
}

/// Decides how to prepare a target (see `spec_target_preparation`).
pub fn target_preparation(
    exists: bool,
    action: Option<ConflictAction>,
    recovery: RecoveryPolicy,
) -> (r: TargetPreparation)
    ensures
        r == spec_target_preparation(exists, action, recovery),
{
    if !exists {
        return TargetPreparation::UseTarget;
    }
    match action {
        Some(ConflictAction::Replace) => match recovery {
            RecoveryPolicy::Backup => TargetPreparation::BackupExisting,
            _ => TargetPreparation::RemoveExisting,
        },
        Some(ConflictAction::Rename) => TargetPreparation::RenameIncoming,
        Some(ConflictAction::Skip) | Some(ConflictAction::Cancel) => TargetPreparation::UseTarget,
        None => TargetPreparation::Refuse,
    }
}

/// The name tried for the `index`-th free variant of a file name: the shown name, the
/// suffix, a space and the index.
pub open spec fn numbered_variant(shown: Seq<char>, suffix: Seq<char>, index: u64) -> Seq<char> {
    shown + suffix + seq![' '] + crate::text::decimal(index as nat)
}

/// Builds a numbered variant of a file name (see `numbered_variant`).
pub fn numbered_variant_name(shown: &str, suffix: &str, index: u64) -> (r: String)
    ensures
        r@ == numbered_variant(shown@, suffix@, index),
{
    let mut out = shown.to_owned();
    crate::text::push_str(&mut out, suffix);
    crate::text::push_char(&mut out, ' ');
    let number = crate::text::u64_decimal(index);
    crate::text::push_str(&mut out, number.as_str());
    out
}

/// What `u32::from_str_radix` gives for a text: the value, or the text of its parse error.
pub uninterp spec fn u32_from_str_radix(text: Seq<char>, radix: u32) -> Result<u32, Seq<char>>;

/// `u32::from_str_radix`, with its error shown as text.
#[verifier::external_body]
fn parse_u32_radix(text: &str, radix: u32) -> (r: Result<u32, String>)
    requires
        2 <= radix <= 36,
    ensures
        match u32_from_str_radix(text@, radix) {
            Ok(v) => r == Ok::<u32, String>(v),
            Err(m) => r matches Err(e) && e@ == m,
        },
{
    u32::from_str_radix(text, radix).map_err(|error| error.to_string())
}

/// What `str::parse::<i64>` gives for a text: the value, or the text of its parse error.
pub uninterp spec fn i64_from_str(text: Seq<char>) -> Result<i64, Seq<char>>;

/// `str::parse::<i64>`, with its error shown as text.
#[verifier::external_body]
fn parse_i64(text: &str) -> (r: Result<i64, String>)
    ensures
        match i64_from_str(text@) {
            Ok(v) => r == Ok::<i64, String>(v),
            Err(m) => r matches Err(e) && e@ == m,
        },
{
    text.parse::<i64>().map_err(|error| error.to_string())
}

/// `str::parse::<bool>`: exactly `true` or `false`.
pub open spec fn bool_from_str(text: Seq<char>) -> Result<bool, Seq<char>> {
    if text == "true"@ {
        Ok(true)
    } else if text == "false"@ {
        Ok(false)
    } else {
        Err("provided string was not `true` or `false`"@)
    }
}

/// The attribute changes a parameter map asks for, each parsed or with its parse error:
/// an octal `unix-mode`, decimal `owner` and `group`, millisecond `modified-unix-ms` and
/// `accessed-unix-ms`, and a `readonly` flag; a missing parameter asks for nothing.
pub struct AttributeRequest {
    pub mode: Option<Result<u32, String>>,
    pub owner: Option<Result<u32, String>>,
    pub group: Option<Result<u32, String>>,
    pub modified_ms: Option<Result<i64, String>>,
    pub accessed_ms: Option<Result<i64, String>>,
    pub readonly: Option<Result<bool, String>>,
}

/// Whether a parsed parameter is the parse of the map's entry for a key.
pub open spec fn parsed_entry<T>(
    r: Option<Result<T, String>>,
    params: Map<Seq<char>, String>,
    key: Seq<char>,
    parse: spec_fn(Seq<char>) -> Result<T, Seq<char>>,
) -> bool {
    if params.contains_key(key) {
        match parse(params[key]@) {
            Ok(v) => r == Some(Ok::<T, String>(v)),
            Err(m) => r matches Some(Err(e)) && e@ == m,
        }
    } else {
        r is None
    }
}

fn parse_mode_entry(params: &StrMap<String>) -> (r: Option<Result<u32, String>>)
    ensures
        parsed_entry(r, params.map(), "unix-mode"@, |t: Seq<char>| u32_from_str_radix(t, 8)),
{
    proof {
        reveal_strlit("unix-mode");
    }
    match params.get("unix-mode") {
        Some(v) => Some(parse_u32_radix(v.as_str(), 8)),
        None => None,
    }
}

fn parse_u32_entry(params: &StrMap<String>, key: &str) -> (r: Option<Result<u32, String>>)
    ensures
        parsed_entry(r, params.map(), key@, |t: Seq<char>| u32_from_str_radix(t, 10)),
{
    match params.get(key) {
        Some(v) => Some(parse_u32_radix(v.as_str(), 10)),
        None => None,
    }
}

fn parse_i64_entry(params: &StrMap<String>, key: &str) -> (r: Option<Result<i64, String>>)
    ensures
        parsed_entry(r, params.map(), key@, |t: Seq<char>| i64_from_str(t)),
{
    match params.get(key) {
        Some(v) => Some(parse_i64(v.as_str())),
        None => None,
    }
}

fn parse_bool_entry(params: &StrMap<String>) -> (r: Option<Result<bool, String>>)
    ensures
        parsed_entry(r, params.map(), "readonly"@, |t: Seq<char>| bool_from_str(t)),
{
    proof {
        reveal_strlit("readonly");
        reveal_strlit("true");
        reveal_strlit("false");
        reveal_strlit("provided string was not `true` or `false`");
    }
    match params.get("readonly") {
        Some(v) => {
            if crate::text::str_eq(v.as_str(), "true") {
                Some(Ok(true))
            } else if crate::text::str_eq(v.as_str(), "false") {
                Some(Ok(false))
            } else {
                Some(Err("provided string was not `true` or `false`".to_owned()))
            }
        },
        None => None,
    }
}

/// Reads the attribute changes of a parameter map (see `AttributeRequest`).
pub fn attribute_request(params: &StrMap<String>) -> (r: AttributeRequest)
    ensures
        parsed_entry(r.mode, params.map(), "unix-mode"@, |t: Seq<char>| u32_from_str_radix(t, 8)),
        parsed_entry(r.owner, params.map(), "owner"@, |t: Seq<char>| u32_from_str_radix(t, 10)),
        parsed_entry(r.group, params.map(), "group"@, |t: Seq<char>| u32_from_str_radix(t, 10)),
        parsed_entry(r.modified_ms, params.map(), "modified-unix-ms"@, |t: Seq<char>| i64_from_str(t)),
        parsed_entry(r.accessed_ms, params.map(), "accessed-unix-ms"@, |t: Seq<char>| i64_from_str(t)),
        parsed_entry(r.readonly, params.map(), "readonly"@, |t: Seq<char>| bool_from_str(t)),
{
    proof {
        reveal_strlit("owner");
        reveal_strlit("group");
        reveal_strlit("modified-unix-ms");
        reveal_strlit("accessed-unix-ms");
    }
    AttributeRequest {
        mode: parse_mode_entry(params),
        owner: parse_u32_entry(params, "owner"),
        group: parse_u32_entry(params, "group"),
        modified_ms: parse_i64_entry(params, "modified-unix-ms"),
        accessed_ms: parse_i64_entry(params, "accessed-unix-ms"),
        readonly: parse_bool_entry(params),
    }
}

/// The outcome of applying attributes: success when no change failed, else the failures,
/// each with its label, joined by `; `.
pub fn attribute_outcome(failures: &Vec<String>) -> (r: Result<(), String>)
    ensures
        failures@.len() == 0 <==> r is Ok,
        r matches Err(m) ==> m@ == crate::execution::join(
            crate::description::texts(failures@),
            seq![';', ' '],
        ),
{
    if failures.len() == 0 {
        return Ok(());
    }
    let ghost parts = crate::description::texts(failures@);
    let mut out = String::new();
    let mut i: usize = 0;
    assert(parts.take(0) =~= Seq::<Seq<char>>::empty());
    while i < failures.len()
        invariant
            i <= failures@.len(),
            parts == crate::description::texts(failures@),
            out@ == crate::execution::join(parts.take(i as int), seq![';', ' ']),
        decreases failures@.len() - i,
    {
        if i > 0 {
            crate::text::push_char(&mut out, ';');
            crate::text::push_char(&mut out, ' ');
        }
        crate::text::push_str(&mut out, failures[i].as_str());
        proof {
            let t = parts.take(i + 1);
            assert(t.drop_last() =~= parts.take(i as int));
            assert(t.last() == failures@[i as int]@);
            if i == 0 {
                assert(crate::execution::join(parts.take(0), seq![';', ' ']) =~= Seq::<char>::empty());
            }
        }
        i = i + 1;
    }
    assert(parts.take(failures@.len() as int) =~= parts);
    Err(out)
}

} // verus!
