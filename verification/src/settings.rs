//! Typed settings and their coordinated, all-or-nothing application.

use vstd::prelude::*;

use crate::config::ConfigLayerKind;
use crate::strmap::{
    compare_str, lemma_index_of_sorted, lemma_lex_asymmetric, lemma_lex_irreflexive,
    lemma_lex_total, lemma_lex_transitive, lex_lt, Cmp3, StrMap,
};
use crate::text::push_str;

verus! {

broadcast use vstd::string::group_string_axioms;

/// A setting value as the specifications see it.
pub enum SettingValueView {
    Boolean(bool),
    Integer(i64),
    Text(Seq<char>),
    Texts(Seq<Seq<char>>),
}

#[derive(Clone, Debug, PartialEq, Eq)]
pub enum SettingValue {
    Boolean(bool),
    Integer(i64),
    String(String),
    Strings(Vec<String>),
}

impl View for SettingValue {
    type V = SettingValueView;

    open spec fn view(&self) -> SettingValueView {
        match self {
            SettingValue::Boolean(b) => SettingValueView::Boolean(*b),
            SettingValue::Integer(i) => SettingValueView::Integer(*i),
            SettingValue::String(s) => SettingValueView::Text(s@),
            SettingValue::Strings(v) => SettingValueView::Texts(v@.map_values(|s: String| s@)),
        }
    }
}

#[derive(Clone, Copy, Debug, PartialEq, Eq, Structural)]
pub enum SettingValueKind {
    Boolean,
    Integer,
    String,
    Strings,
}

pub open spec fn value_kind(v: SettingValueView) -> SettingValueKind {
    match v {
        SettingValueView::Boolean(_) => SettingValueKind::Boolean,
        SettingValueView::Integer(_) => SettingValueKind::Integer,
        SettingValueView::Text(_) => SettingValueKind::String,
        SettingValueView::Texts(_) => SettingValueKind::Strings,
    }
}

pub open spec fn kind_name(k: SettingValueKind) -> Seq<char> {
    match k {
        SettingValueKind::Boolean => "Boolean"@,
        SettingValueKind::Integer => "Integer"@,
        SettingValueKind::String => "String"@,
        SettingValueKind::Strings => "Strings"@,
    }
}

fn kind_text(k: SettingValueKind) -> (r: &'static str)
    ensures
        r@ == kind_name(k),
{
    match k {
        SettingValueKind::Boolean => "Boolean",
        SettingValueKind::Integer => "Integer",
        SettingValueKind::String => "String",
        SettingValueKind::Strings => "Strings",
    }
}

impl SettingValue {
    pub fn kind(&self) -> (r: SettingValueKind)
        ensures
            r == value_kind(self@),
    {
        match self {
            SettingValue::Boolean(_) => SettingValueKind::Boolean,
            SettingValue::Integer(_) => SettingValueKind::Integer,
            SettingValue::String(_) => SettingValueKind::String,
            SettingValue::Strings(_) => SettingValueKind::Strings,
        }
    }

    /// A copy of the value.
    pub fn duplicate(&self) -> (r: Self)
        ensures
            r@ == self@,
    {
        match self {
            SettingValue::Boolean(b) => SettingValue::Boolean(*b),
            SettingValue::Integer(i) => SettingValue::Integer(*i),
            SettingValue::String(s) => SettingValue::String(s.clone()),
            SettingValue::Strings(v) => {
                let mut out: Vec<String> = Vec::new();
                let mut i: usize = 0;
                while i < v.len()
                    invariant
                        i <= v@.len(),
                        out@.len() == i,
                        forall|j: int| 0 <= j < i ==> (#[trigger] out@[j])@ == v@[j]@,
                    decreases v@.len() - i,
                {
                    out.push(v[i].clone());
                    i = i + 1;
                }
                let r = SettingValue::Strings(out);
                assert(out@.map_values(|s: String| s@) =~= v@.map_values(|s: String| s@));
                r
            },
        }
    }

    /// Whether two values are the same.
    pub fn same(&self, other: &Self) -> (r: bool)
        ensures
            r == (self@ == other@),
    {
        match (self, other) {
            (SettingValue::Boolean(a), SettingValue::Boolean(b)) => *a == *b,
            (SettingValue::Integer(a), SettingValue::Integer(b)) => *a == *b,
            (SettingValue::String(a), SettingValue::String(b)) => {
                let x = crate::text::chars_of(a.as_str());
                let y = crate::text::chars_of(b.as_str());
                crate::text::chars_eq(x.as_slice(), y.as_slice())
            },
            (SettingValue::Strings(a), SettingValue::Strings(b)) => {
                let ghost va = a@.map_values(|s: String| s@);
                let ghost vb = b@.map_values(|s: String| s@);
                if a.len() != b.len() {
                    assert(va.len() != vb.len());
                    return false;
                }
                let mut i: usize = 0;
                while i < a.len()
                    invariant
                        i <= a@.len(),
                        a@.len() == b@.len(),
                        va == a@.map_values(|s: String| s@),
                        vb == b@.map_values(|s: String| s@),
                        self@ == SettingValueView::Texts(va),
                        other@ == SettingValueView::Texts(vb),
                        forall|j: int| 0 <= j < i ==> va[j] == vb[j],
                    decreases a@.len() - i,
                {
                    let x = crate::text::chars_of(a[i].as_str());
                    let y = crate::text::chars_of(b[i].as_str());
                    if !crate::text::chars_eq(x.as_slice(), y.as_slice()) {
                        assert(va[i as int] != vb[i as int]);
                        return false;
                    }
                    i = i + 1;
                }
                assert(va =~= vb);
                true
            },
            _ => false,
        }
    }
}

#[derive(Clone, Copy, Debug, PartialEq, Eq, Structural)]
pub enum SettingApplyScope {
    Live,
    NewSurface,
    Restart,
}

#[derive(Clone, Copy, Debug, PartialEq, Eq, Structural)]
pub enum SettingPlatform {
    MacOs,
    Linux,
    Windows,
}

/// The platforms a setting exists on.
#[derive(Clone, Debug, PartialEq, Eq)]
pub enum SettingPlatformAvailability {
    All,
    Only(Vec<SettingPlatform>),
}

pub open spec fn spec_supports(a: SettingPlatformAvailability, platform: SettingPlatform) -> bool {
    match a {
        SettingPlatformAvailability::All => true,
        SettingPlatformAvailability::Only(platforms) => platforms@.contains(platform),
    }
}

impl SettingPlatformAvailability {
    pub fn supports(&self, platform: SettingPlatform) -> (r: bool)
        ensures
            r == spec_supports(*self, platform),
    {
        match self {
            SettingPlatformAvailability::All => true,
            SettingPlatformAvailability::Only(platforms) => {
                let mut i: usize = 0;
                while i < platforms.len()
                    invariant
                        i <= platforms@.len(),
                        spec_supports(*self, platform) == platforms@.contains(platform),
                        forall|j: int| 0 <= j < i ==> platforms@[j] != platform,
                    decreases platforms@.len() - i,
                {
                    if platforms[i] == platform {
                        assert(platforms@[i as int] == platform);
                        return true;
                    }
                    i = i + 1;
                }
                false
            },
        }
    }
}

/// What a setting is, where it is stored and how a change takes effect.
#[derive(Clone, Debug, PartialEq, Eq)]
pub struct SettingDescriptor {
    pub id: String,
    pub document: String,
    pub path: String,
    pub category: String,
    pub title: String,
    pub description: String,
    pub advanced: bool,
    pub value_kind: SettingValueKind,
    pub default_value: SettingValue,
    pub apply_scope: SettingApplyScope,
    pub apply_order: u32,
    pub availability: SettingPlatformAvailability,
}

/// Which layer and source gave a setting its value.
#[derive(Clone, Debug, PartialEq, Eq)]
pub struct SettingProvenance {
    pub layer: ConfigLayerKind,
    pub source: String,
}

impl SettingProvenance {
    pub fn duplicate(&self) -> (r: Self)
        ensures
            r == *self,
    {
        SettingProvenance { layer: self.layer, source: self.source.clone() }
    }
}

#[derive(Clone, Debug, PartialEq, Eq)]
pub struct SettingState {
    pub value: SettingValue,
    pub provenance: SettingProvenance,
}

#[derive(Clone, Debug, PartialEq, Eq)]
pub struct SettingCandidate {
    pub id: String,
    pub value: SettingValue,
}

/// Validates, applies and rolls back one setting at run time.
pub trait SettingApplier {
    /// Whether the applier accepts a candidate value; every value unless an applier says
    /// otherwise.
    open spec fn accepts(&self, value: SettingValueView) -> bool {
        true
    }

    /// Validates a candidate without changing run-time state: it succeeds exactly on the
    /// values the applier accepts.
    fn validate(&self, value: &SettingValue) -> (r: Result<(), String>)
        ensures
            r is Ok <==> self.accepts(value@),
    ;

    /// Applies a validated candidate; a failure makes the coordinator roll back.
    fn apply(&mut self, previous: &SettingValue, candidate: &SettingValue) -> (r: Result<(), String>)
        default_ensures
            r is Ok,
    {
        Ok(())
    }

    fn rollback(&mut self, candidate: &SettingValue, previous: &SettingValue) {
    }
}

impl SettingApplier for () {
    fn validate(&self, value: &SettingValue) -> (r: Result<(), String>) {
        Ok(())
    }
}

/// Stores a complete settings snapshot at once.
pub trait SettingsPersistence {
    fn persist(&mut self, values: &StrMap<SettingValue>) -> Result<(), String>;
}

#[derive(Debug, Default)]
pub struct NoopSettingsPersistence;

impl SettingsPersistence for NoopSettingsPersistence {
    fn persist(&mut self, values: &StrMap<SettingValue>) -> (r: Result<(), String>)
        ensures
            r is Ok,
    {
        Ok(())
    }
}

#[derive(Clone, Debug, PartialEq, Eq)]
pub enum CoordinatorError {
    Duplicate(String),
    Unknown(String),
    TypeMismatch { id: String, expected: SettingValueKind, actual: SettingValueKind },
    Unavailable(String),
    Validation { id: String, message: String },
    Persistence(String),
    Apply { id: String, message: String },
}

pub open spec fn spec_coordinator_message(e: CoordinatorError) -> Seq<char> {
    match e {
        CoordinatorError::Duplicate(id) => "setting is already registered: "@ + id@,
        CoordinatorError::Unknown(id) => "unknown setting: "@ + id@,
        CoordinatorError::TypeMismatch { id, expected, actual } => "setting "@ + id@ + " expects "@
            + kind_name(expected) + ", received "@ + kind_name(actual),
        CoordinatorError::Unavailable(id) => "setting is unavailable on this platform: "@ + id@,
        CoordinatorError::Validation { id, message } => "setting validation failed for "@ + id@
            + ": "@ + message@,
        CoordinatorError::Persistence(m) => "settings persistence failed: "@ + m@,
        CoordinatorError::Apply { id, message } => "setting apply failed for "@ + id@ + ": "@
            + message@,
    }
}

impl CoordinatorError {
    pub fn duplicate(&self) -> (r: Self)
        ensures
            r == *self,
    {
        match self {
            CoordinatorError::Duplicate(id) => CoordinatorError::Duplicate(id.clone()),
            CoordinatorError::Unknown(id) => CoordinatorError::Unknown(id.clone()),
            CoordinatorError::TypeMismatch { id, expected, actual } => CoordinatorError::TypeMismatch {
                id: id.clone(),
                expected: *expected,
                actual: *actual,
            },
            CoordinatorError::Unavailable(id) => CoordinatorError::Unavailable(id.clone()),
            CoordinatorError::Validation { id, message } => CoordinatorError::Validation {
                id: id.clone(),
                message: message.clone(),
            },
            CoordinatorError::Persistence(m) => CoordinatorError::Persistence(m.clone()),
            CoordinatorError::Apply { id, message } => CoordinatorError::Apply {
                id: id.clone(),
                message: message.clone(),
            },
        }
    }

    /// The message shown for the error.
    pub fn message(&self) -> (r: String)
        ensures
            r@ == spec_coordinator_message(*self),
    {
        let (head, a, mid, b) = match self {
            CoordinatorError::Duplicate(id) => ("setting is already registered: ", id.as_str(), "", ""),
            CoordinatorError::Unknown(id) => ("unknown setting: ", id.as_str(), "", ""),
            CoordinatorError::TypeMismatch { id, expected, actual } => {
                let mut m = "setting ".to_owned();
                push_str(&mut m, id.as_str());
                push_str(&mut m, " expects ");
                push_str(&mut m, kind_text(*expected));
                push_str(&mut m, ", received ");
                push_str(&mut m, kind_text(*actual));
                return m;
            },
            CoordinatorError::Unavailable(id) => ("setting is unavailable on this platform: ", id.as_str(), "", ""),
            CoordinatorError::Validation { id, message } => ("setting validation failed for ", id.as_str(), ": ", message.as_str()),
            CoordinatorError::Persistence(m) => ("settings persistence failed: ", m.as_str(), "", ""),
            CoordinatorError::Apply { id, message } => ("setting apply failed for ", id.as_str(), ": ", message.as_str()),
        };
        let mut m = head.to_owned();
        push_str(&mut m, a);
        push_str(&mut m, mid);
        push_str(&mut m, b);
        proof {
            reveal_strlit("");
        }
        m
    }
}

/// The order in which changed settings are applied: by declared apply order, then by
/// document, then by identifier.
pub open spec fn order_lt(a: (u32, Seq<char>, Seq<char>), b: (u32, Seq<char>, Seq<char>)) -> bool {
    a.0 < b.0 || (a.0 == b.0 && (lex_lt(a.1, b.1) || (a.1 == b.1 && lex_lt(a.2, b.2))))
}

proof fn lemma_order_transitive(
    a: (u32, Seq<char>, Seq<char>),
    b: (u32, Seq<char>, Seq<char>),
    c: (u32, Seq<char>, Seq<char>),
)
    requires
        order_lt(a, b),
        order_lt(b, c),
    ensures
        order_lt(a, c),
{
    if a.0 == b.0 && b.0 == c.0 {
        if lex_lt(a.1, b.1) && lex_lt(b.1, c.1) {
            lemma_lex_transitive(a.1, b.1, c.1);
        } else if lex_lt(a.2, b.2) && lex_lt(b.2, c.2) {
            lemma_lex_transitive(a.2, b.2, c.2);
        }
    }
}

proof fn lemma_order_total(a: (u32, Seq<char>, Seq<char>), b: (u32, Seq<char>, Seq<char>))
    requires
        a.2 != b.2,
    ensures
        order_lt(a, b) || order_lt(b, a),
{
    lemma_lex_total(a.1, b.1);
    lemma_lex_total(a.2, b.2);
}

proof fn lemma_order_irreflexive(a: (u32, Seq<char>, Seq<char>))
    ensures
        !order_lt(a, a),
{
    lemma_lex_irreflexive(a.1);
    lemma_lex_irreflexive(a.2);
}

/// The place of a setting in the apply order.
pub open spec fn order_key(
    descriptors: Map<Seq<char>, SettingDescriptor>,
    id: Seq<char>,
) -> (u32, Seq<char>, Seq<char>) {
    if descriptors.contains_key(id) {
        (descriptors[id].apply_order, descriptors[id].document@, id)
    } else {
        (0, Seq::empty(), id)
    }
}

/// The value each identifier receives from a list of candidates: the last one wins.
pub open spec fn candidate_map(cands: Seq<SettingCandidate>) -> Map<Seq<char>, SettingValueView>
    decreases cands.len(),
{
    if cands.len() == 0 {
        Map::empty()
    } else {
        candidate_map(cands.drop_last()).insert(cands.last().id@, cands.last().value@)
    }
}

/// The refusal a candidate meets before any applier is asked, if any.
pub open spec fn static_refusal(
    descriptors: Map<Seq<char>, SettingDescriptor>,
    platform: SettingPlatform,
    c: SettingCandidate,
) -> Option<CoordinatorError> {
    if !descriptors.contains_key(c.id@) {
        Some(CoordinatorError::Unknown(c.id))
    } else if value_kind(c.value@) != descriptors[c.id@].value_kind {
        Some(
            CoordinatorError::TypeMismatch {
                id: descriptors[c.id@].id,
                expected: descriptors[c.id@].value_kind,
                actual: value_kind(c.value@),
            },
        )
    } else if !spec_supports(descriptors[c.id@].availability, platform) {
        Some(CoordinatorError::Unavailable(c.id))
    } else {
        None
    }
}

/// What a provenance says: its layer and its source text.
pub open spec fn prov_view(p: SettingProvenance) -> (ConfigLayerKind, Seq<char>) {
    (p.layer, p.source@)
}

/// The states after a successful application: candidates' values, with the given provenance
/// where one is given; every other setting as it was.
pub open spec fn applied_states(
    before: Map<Seq<char>, SettingState>,
    after: Map<Seq<char>, SettingState>,
    changes: Map<Seq<char>, SettingValueView>,
    provenance: Option<(ConfigLayerKind, Seq<char>)>,
) -> bool {
    &&& after.dom() == before.dom()
    &&& forall|id: Seq<char>|
        #![trigger after[id]]
        before.contains_key(id) ==> if changes.contains_key(id) {
            &&& after[id].value@ == changes[id]
            &&& prov_view(after[id].provenance) == match provenance {
                Some(p) => p,
                None => prov_view(before[id].provenance),
            }
        } else {
            after[id] == before[id]
        }
}

fn validate_type(descriptor: &SettingDescriptor, value: &SettingValue) -> (r: Result<(), CoordinatorError>)
    ensures
        value_kind(value@) == descriptor.value_kind ==> r is Ok,
        value_kind(value@) != descriptor.value_kind ==> r == Err::<(), CoordinatorError>(
            CoordinatorError::TypeMismatch {
                id: descriptor.id,
                expected: descriptor.value_kind,
                actual: value_kind(value@),
            },
        ),
{
    let actual = value.kind();
    if actual == descriptor.value_kind {
        Ok(())
    } else {
        Err(
            CoordinatorError::TypeMismatch {
                id: descriptor.id.clone(),
                expected: descriptor.value_kind,
                actual,
            },
        )
    }
}

/// Registered settings with their appliers, applied together or not at all.
pub struct ConfigurationCoordinator<P, A> {
    settings: StrMap<(SettingDescriptor, SettingState)>,
    appliers: StrMap<A>,
    persistence: P,
    platform: SettingPlatform,
    last_error: Option<CoordinatorError>,
}

impl<A: SettingApplier> ConfigurationCoordinator<NoopSettingsPersistence, A> {
    pub fn new(platform: SettingPlatform) -> (r: Self)
        ensures
            r.spec_platform() == platform,
            r.spec_descriptors() == Map::<Seq<char>, SettingDescriptor>::empty(),
            r.spec_states() == Map::<Seq<char>, SettingState>::empty(),
            r.spec_last_error() is None,
    {
        Self::with_persistence(platform, NoopSettingsPersistence)
    }
}

impl<P: SettingsPersistence, A: SettingApplier> ConfigurationCoordinator<P, A> {
    pub closed spec fn spec_descriptors(&self) -> Map<Seq<char>, SettingDescriptor> {
        self.settings.map().map_values(|e: (SettingDescriptor, SettingState)| e.0)
    }

    pub closed spec fn spec_states(&self) -> Map<Seq<char>, SettingState> {
        self.settings.map().map_values(|e: (SettingDescriptor, SettingState)| e.1)
    }

    pub closed spec fn spec_ids(&self) -> Seq<Seq<char>> {
        self.settings.keys()
    }

    pub closed spec fn spec_platform(&self) -> SettingPlatform {
        self.platform
    }

    pub closed spec fn spec_last_error(&self) -> Option<CoordinatorError> {
        self.last_error
    }

    /// Whether the applier registered for a setting, if any, accepts a value for it.
    pub closed spec fn spec_accepts(&self, id: Seq<char>, value: SettingValueView) -> bool {
        !self.appliers.map().contains_key(id) || self.appliers.map()[id].accepts(value)
    }

    /// Whether a candidate passes every check: known, of its kind, available here, and
    /// accepted by its applier.
    pub open spec fn candidate_valid(&self, c: SettingCandidate) -> bool {
        static_refusal(self.spec_descriptors(), self.spec_platform(), c) is None && self.spec_accepts(
            c.id@,
            c.value@,
        )
    }

    /// Candidate `i` is the first that fails a check, and `e` is its error: the first static
    /// check it fails, or else its applier's refusal.
    pub open spec fn refused_at(&self, cands: Seq<SettingCandidate>, i: int, e: CoordinatorError) -> bool {
        &&& 0 <= i < cands.len()
        &&& forall|j: int| 0 <= j < i ==> self.candidate_valid(#[trigger] cands[j])
        &&& (static_refusal(self.spec_descriptors(), self.spec_platform(), cands[i]) == Some(e) || (
        static_refusal(self.spec_descriptors(), self.spec_platform(), cands[i]) is None
            && !self.spec_accepts(cands[i].id@, cands[i].value@) && (e matches CoordinatorError::Validation {
            id,
            ..
        } && id == cands[i].id)))
    }

    /// How validation decides an application: it succeeds only when every candidate is
    /// valid, and the first invalid candidate's error is the one returned.
    pub open spec fn validation_decides(&self, cands: Seq<SettingCandidate>, r: Result<(), CoordinatorError>) -> bool {
        &&& r is Ok ==> forall|j: int| 0 <= j < cands.len() ==> self.candidate_valid(#[trigger] cands[j])
        &&& (exists|j: int| 0 <= j < cands.len() && !self.candidate_valid(#[trigger] cands[j])) ==> (r matches Err(
            e,
        ) && exists|i: int| self.refused_at(cands, i, e))
    }

    pub fn with_persistence(platform: SettingPlatform, persistence: P) -> (r: Self)
        ensures
            r.spec_platform() == platform,
            r.spec_descriptors() == Map::<Seq<char>, SettingDescriptor>::empty(),
            r.spec_states() == Map::<Seq<char>, SettingState>::empty(),
            r.spec_last_error() is None,
    {
        let r = ConfigurationCoordinator {
            settings: StrMap::new(),
            appliers: StrMap::new(),
            persistence,
            platform,
            last_error: None,
        };
        assert(r.spec_descriptors() =~= Map::<Seq<char>, SettingDescriptor>::empty());
        assert(r.spec_states() =~= Map::<Seq<char>, SettingState>::empty());
        r
    }

    /// Registers a typed setting after checking the kinds of its default and initial values
    /// and asking its applier to validate the initial value.
    pub fn register(
        &mut self,
        descriptor: SettingDescriptor,
        value: SettingValue,
        provenance: SettingProvenance,
        applier: A,
    ) -> (r: Result<(), CoordinatorError>)
        ensures
            final(self).spec_platform() == old(self).spec_platform(),
            final(self).spec_last_error() == old(self).spec_last_error(),
            r is Err ==> final(self).spec_descriptors() == old(self).spec_descriptors()
                && final(self).spec_states() == old(self).spec_states(),
            old(self).spec_descriptors().contains_key(descriptor.id@) ==> r == Err::<(), CoordinatorError>(
                CoordinatorError::Duplicate(descriptor.id),
            ),
            !old(self).spec_descriptors().contains_key(descriptor.id@) && value_kind(descriptor.default_value@)
                != descriptor.value_kind ==> r == Err::<(), CoordinatorError>(
                CoordinatorError::TypeMismatch {
                    id: descriptor.id,
                    expected: descriptor.value_kind,
                    actual: value_kind(descriptor.default_value@),
                },
            ),
            !old(self).spec_descriptors().contains_key(descriptor.id@) && value_kind(descriptor.default_value@)
                == descriptor.value_kind && value_kind(value@) != descriptor.value_kind ==> r
                == Err::<(), CoordinatorError>(
                CoordinatorError::TypeMismatch {
                    id: descriptor.id,
                    expected: descriptor.value_kind,
                    actual: value_kind(value@),
                },
            ),
            !old(self).spec_descriptors().contains_key(descriptor.id@) && value_kind(descriptor.default_value@)
                == descriptor.value_kind && value_kind(value@) == descriptor.value_kind ==> match r {
                Ok(()) => {
                    &&& final(self).spec_descriptors() == old(self).spec_descriptors().insert(
                        descriptor.id@,
                        descriptor,
                    )
                    &&& final(self).spec_states() == old(self).spec_states().insert(
                        descriptor.id@,
                        SettingState { value, provenance },
                    )
                },
                Err(e) => e matches CoordinatorError::Validation { id, .. } && id == descriptor.id,
            },
            !old(self).spec_descriptors().contains_key(descriptor.id@) && value_kind(descriptor.default_value@)
                == descriptor.value_kind && value_kind(value@) == descriptor.value_kind ==> (r is Ok
                <==> applier.accepts(value@)),
            r is Ok ==> forall|v: SettingValueView| #[trigger] final(self).spec_accepts(descriptor.id@, v)
                == applier.accepts(v),
            r is Ok ==> forall|k: Seq<char>, v: SettingValueView|
                k != descriptor.id@ ==> #[trigger] final(self).spec_accepts(k, v) == old(self).spec_accepts(k, v),
    {
        if self.settings.contains_key(descriptor.id.as_str()) {
            assert(self.spec_descriptors().contains_key(descriptor.id@));
            return Err(CoordinatorError::Duplicate(descriptor.id));
        }
        match validate_type(&descriptor, &descriptor.default_value) {
            Err(e) => {
                return Err(e);
            },
            Ok(()) => {},
        }
        match validate_type(&descriptor, &value) {
            Err(e) => {
                return Err(e);
            },
            Ok(()) => {},
        }
        match applier.validate(&value) {
            Err(message) => {
                return Err(CoordinatorError::Validation { id: descriptor.id.clone(), message });
            },
            Ok(()) => {},
        }
        let key = descriptor.id.clone();
        let ghost before = self.settings.map();
        let ghost id = descriptor.id@;
        let ghost d = descriptor;
        let ghost st = SettingState { value, provenance };
        let ghost app = applier;
        let ghost old_appliers = self.appliers.map();
        self.appliers.insert(descriptor.id.clone(), applier);
        assert(self.appliers.map() == old_appliers.insert(id, app));
        self.settings.insert(key, (descriptor, SettingState { value, provenance }));
        proof {
            assert(self.spec_descriptors() =~= before.map_values(
                |e: (SettingDescriptor, SettingState)| e.0,
            ).insert(id, d));
            assert(self.spec_states() =~= before.map_values(
                |e: (SettingDescriptor, SettingState)| e.1,
            ).insert(id, st));
        }
        Ok(())
    }

    /// The descriptors of every registered setting, in identifier order.
    pub fn descriptors(&self) -> (r: Vec<&SettingDescriptor>)
        ensures
            r@.len() == self.spec_ids().len(),
            forall|i: int|
                0 <= i < r@.len() ==> self.spec_descriptors().contains_key(self.spec_ids()[i])
                    && *r@[i] == self.spec_descriptors()[self.spec_ids()[i]],
            forall|id: Seq<char>| self.spec_descriptors().contains_key(id) <==> self.spec_ids().contains(id),
    {
        proof {
            use_type_invariant(&self.settings);
            self.settings.lemma_lengths();
        }
        let mut out: Vec<&SettingDescriptor> = Vec::new();
        let mut i: usize = 0;
        while i < self.settings.len()
            invariant
                i <= self.settings.keys().len(),
                self.settings.keys().len() == self.settings.values().len(),
                crate::strmap::sorted_keys(self.settings.keys()),
                out@.len() == i,
                forall|j: int|
                    0 <= j < i ==> self.spec_descriptors().contains_key(self.spec_ids()[j])
                        && *out@[j] == self.spec_descriptors()[self.spec_ids()[j]],
            decreases self.settings.keys().len() - i,
        {
            let entry = self.settings.value_at(i);
            proof {
                lemma_index_of_sorted(self.settings.keys(), i as int);
            }
            out.push(&entry.0);
            i = i + 1;
        }
        out
    }

    /// The state of a setting.
    pub fn state(&self, id: &str) -> (r: Option<&SettingState>)
        ensures
            match r {
                Some(s) => self.spec_states().contains_key(id@) && *s == self.spec_states()[id@],
                None => !self.spec_states().contains_key(id@),
            },
    {
        match self.settings.get(id) {
            Some(entry) => Some(&entry.1),
            None => None,
        }
    }

    pub fn last_error(&self) -> (r: Option<&CoordinatorError>)
        ensures
            match self.spec_last_error() {
                Some(e) => r == Some(&e),
                None => r is None,
            },
    {
        match &self.last_error {
            Some(e) => Some(e),
            None => None,
        }
    }

    /// Whether some candidate changes the value of a setting that takes effect on restart.
    pub fn restart_required(&self, candidates: &[SettingCandidate]) -> (r: bool)
        ensures
            r == exists|i: int|
                0 <= i < candidates@.len() && #[trigger] self.spec_states().contains_key(candidates@[i].id@)
                    && self.spec_descriptors()[candidates@[i].id@].apply_scope == SettingApplyScope::Restart
                    && self.spec_states()[candidates@[i].id@].value@ != candidates@[i].value@,
    {
        let mut i: usize = 0;
        while i < candidates.len()
            invariant
                i <= candidates@.len(),
                forall|j: int|
                    0 <= j < i ==> !(#[trigger] self.spec_states().contains_key(candidates@[j].id@)
                        && self.spec_descriptors()[candidates@[j].id@].apply_scope
                        == SettingApplyScope::Restart && self.spec_states()[candidates@[j].id@].value@
                        != candidates@[j].value@),
            decreases candidates@.len() - i,
        {
            match self.settings.get(candidates[i].id.as_str()) {
                Some(entry) => {
                    let restart = match entry.0.apply_scope {
                        SettingApplyScope::Restart => true,
                        _ => false,
                    };
                    if restart && !entry.1.value.same(&candidates[i].value) {
                        assert(self.spec_states().contains_key(candidates@[i as int].id@));
                        return true;
                    }
                },
                None => {},
            }
            i = i + 1;
        }
        false
    }

    /// Validates, persists and applies one set of candidates with the coordinator's own
    /// provenance; on any failure nothing changes but the recorded last error.
    pub fn apply(&mut self, candidates: &[SettingCandidate]) -> (r: Result<(), CoordinatorError>)
        ensures
            final(self).spec_platform() == old(self).spec_platform(),
            final(self).spec_descriptors() == old(self).spec_descriptors(),
            apply_outcome(
                old(self).spec_descriptors(),
                old(self).spec_platform(),
                old(self).spec_states(),
                final(self).spec_states(),
                candidates@,
                Some((ConfigLayerKind::User, "settings coordinator"@)),
                r,
            ),
            old(self).validation_decides(candidates@, r),
            final(self).spec_last_error() == match r {
                Ok(()) => None,
                Err(e) => Some(e),
            },
    {
        let provenance = SettingProvenance {
            layer: ConfigLayerKind::User,
            source: "settings coordinator".to_owned(),
        };
        self.apply_internal(candidates, Some(&provenance), true)
    }

    /// Resets a setting to its declared default, as an application of that one candidate.
    pub fn reset(&mut self, id: &str) -> (r: Result<(), CoordinatorError>)
        ensures
            final(self).spec_platform() == old(self).spec_platform(),
            final(self).spec_descriptors() == old(self).spec_descriptors(),
            !old(self).spec_descriptors().contains_key(id@) ==> (r matches Err(
                CoordinatorError::Unknown(s),
            ) && s@ == id@) && *final(self) == *old(self),
            old(self).spec_descriptors().contains_key(id@) ==> exists|c: SettingCandidate|
                c.id@ == id@ && c.value@ == old(self).spec_descriptors()[id@].default_value@ && apply_outcome(
                    old(self).spec_descriptors(),
                    old(self).spec_platform(),
                    old(self).spec_states(),
                    final(self).spec_states(),
                    seq![c],
                    Some((ConfigLayerKind::User, "settings coordinator"@)),
                    r,
                ) && final(self).spec_last_error() == match r {
                    Ok(()) => None,
                    Err(e) => Some(e),
                },
    {
        let value = match self.settings.get(id) {
            Some(entry) => entry.0.default_value.duplicate(),
            None => {
                return Err(CoordinatorError::Unknown(id.to_string()));
            },
        };
        let candidates = [SettingCandidate { id: id.to_string(), value }];
        let r = self.apply(&candidates);
        assert(candidates@ =~= seq![candidates[0]]);
        r
    }

    /// Applies values reloaded from outside, without persisting them; on failure the last
    /// valid states, provenance included, stay.
    pub fn reload_external(
        &mut self,
        values: &StrMap<SettingValue>,
        provenance: &SettingProvenance,
    ) -> (r: Result<(), CoordinatorError>)
        ensures
            final(self).spec_platform() == old(self).spec_platform(),
            final(self).spec_descriptors() == old(self).spec_descriptors(),
            r is Err ==> final(self).spec_states() == old(self).spec_states(),
            r is Ok ==> applied_states(
                old(self).spec_states(),
                final(self).spec_states(),
                values.map().map_values(|v: SettingValue| v@),
                Some(prov_view(*provenance)),
            ),
            r is Ok ==> forall|j: int|
                0 <= j < values.keys().len() ==> old(self).spec_accepts(
                    #[trigger] values.keys()[j],
                    values.values()[j]@,
                ),
            (exists|j: int|
                0 <= j < values.keys().len() && !old(self).spec_accepts(
                    #[trigger] values.keys()[j],
                    values.values()[j]@,
                )) ==> r is Err,
            final(self).spec_last_error() == match r {
                Ok(()) => None,
                Err(e) => Some(e),
            },
    {
        proof {
            values.lemma_lengths();
            use_type_invariant(values);
        }
        let mut candidates: Vec<SettingCandidate> = Vec::new();
        let mut i: usize = 0;
        while i < values.len()
            invariant
                i <= values.keys().len(),
                values.keys().len() == values.values().len(),
                crate::strmap::sorted_keys(values.keys()),
                candidates@.len() == i,
                forall|j: int|
                    0 <= j < i ==> (#[trigger] candidates@[j]).id@ == values.keys()[j]
                        && candidates@[j].value@ == values.values()[j]@,
            decreases values.keys().len() - i,
        {
            candidates.push(
                SettingCandidate { id: values.key_at(i).clone(), value: values.value_at(i).duplicate() },
            );
            i = i + 1;
        }
        proof {
            lemma_candidate_map_of_entries(candidates@, values.keys(), values.values());
            assert(candidate_map(candidates@) =~= values.map().map_values(|v: SettingValue| v@)) by {
                assert forall|k: Seq<char>| #[trigger] candidate_map(candidates@).contains_key(k) <==> values.map().contains_key(k) by {}
                assert forall|k: Seq<char>| candidate_map(candidates@).contains_key(k) implies #[trigger] candidate_map(candidates@)[k] == values.map()[k]@ by {
                    let t = values.keys().index_of(k);
                    lemma_index_of_sorted(values.keys(), t);
                }
            }
        }
        let slice = candidates.as_slice();
        assert(slice@ == candidates@);
        let r = self.apply_internal(slice, Some(provenance), false);
        proof {
            if r is Ok {
                assert forall|j: int| 0 <= j < values.keys().len() implies old(self).spec_accepts(
                    #[trigger] values.keys()[j],
                    values.values()[j]@,
                ) by {
                    assert(old(self).candidate_valid(candidates@[j]));
                }
            }
            if exists|j: int|
                0 <= j < values.keys().len() && !old(self).spec_accepts(
                    #[trigger] values.keys()[j],
                    values.values()[j]@,
                ) {
                let j = choose|j: int|
                    0 <= j < values.keys().len() && !old(self).spec_accepts(
                        #[trigger] values.keys()[j],
                        values.values()[j]@,
                    );
                assert(!old(self).candidate_valid(candidates@[j]));
            }
        }
        r
    }

    fn apply_internal(
        &mut self,
        candidates: &[SettingCandidate],
        provenance: Option<&SettingProvenance>,
        persist: bool,
    ) -> (r: Result<(), CoordinatorError>)
        ensures
            final(self).spec_platform() == old(self).spec_platform(),
            final(self).spec_descriptors() == old(self).spec_descriptors(),
            apply_outcome(
                old(self).spec_descriptors(),
                old(self).spec_platform(),
                old(self).spec_states(),
                final(self).spec_states(),
                candidates@,
                match provenance {
                    Some(p) => Some(prov_view(*p)),
                    None => None,
                },
                r,
            ),
            old(self).validation_decides(candidates@, r),
            final(self).spec_last_error() == match r {
                Ok(()) => None,
                Err(e) => Some(e),
            },
    {
        match self.try_apply(candidates, provenance, persist) {
            Ok(()) => {
                self.last_error = None;
                Ok(())
            },
            Err(error) => {
                self.last_error = Some(error.duplicate());
                Err(error)
            },
        }
    }

    /// The values of every setting, by identifier.
    fn values(&self) -> (r: StrMap<SettingValue>)
        ensures
            r.map().map_values(|v: SettingValue| v@) == self.spec_states().map_values(
                |s: SettingState| s.value@,
            ),
    {
        proof {
            use_type_invariant(&self.settings);
            self.settings.lemma_lengths();
        }
        let mut out: StrMap<SettingValue> = StrMap::new();
        let mut i: usize = 0;
        while i < self.settings.len()
            invariant
                i <= self.settings.keys().len(),
                self.settings.keys().len() == self.settings.values().len(),
                crate::strmap::sorted_keys(self.settings.keys()),
                forall|k: Seq<char>| #[trigger] out.map().contains_key(k) <==> self.settings.keys().take(i as int).contains(k),
                forall|k: Seq<char>| #[trigger] out.map().contains_key(k) ==> out.map()[k]@ == self.settings.map()[k].1.value@,
            decreases self.settings.keys().len() - i,
        {
            let ghost before = out.map();
            proof {
                lemma_index_of_sorted(self.settings.keys(), i as int);
            }
            out.insert(self.settings.key_at(i).clone(), self.settings.value_at(i).1.value.duplicate());
            proof {
                let ks = self.settings.keys();
                assert forall|k: Seq<char>| #[trigger] out.map().contains_key(k) <==> ks.take(i + 1).contains(k) by {
                    if ks.take(i + 1).contains(k) && k != ks[i as int] {
                        let t = choose|t: int| 0 <= t < i + 1 && #[trigger] ks.take(i + 1)[t] == k;
                        assert(ks.take(i as int)[t] == k);
                    }
                    if ks.take(i as int).contains(k) {
                        let t = choose|t: int| 0 <= t < i && #[trigger] ks.take(i as int)[t] == k;
                        assert(ks.take(i + 1)[t] == k);
                    }
                    assert(ks.take(i + 1)[i as int] == ks[i as int]);
                }
            }
            i = i + 1;
        }
        proof {
            assert(self.settings.keys().take(i as int) =~= self.settings.keys());
            assert(out.map().map_values(|v: SettingValue| v@) =~= self.spec_states().map_values(
                |s: SettingState| s.value@,
            ));
        }
        out
    }

    /// The identifiers of the changes, in apply order.
    fn apply_order(&self, changes: &StrMap<SettingValue>) -> (r: Vec<String>)
        ensures
            r@.len() == changes.keys().len(),
            forall|i: int| 0 <= i < r@.len() ==> #[trigger] changes.keys().contains(r@[i]@),
            forall|k: Seq<char>|
                changes.keys().contains(k) ==> exists|i: int| 0 <= i < r@.len() && #[trigger] r@[i]@ == k,
            forall|i: int, j: int|
                0 <= i < j < r@.len() ==> order_lt(
                    order_key(self.spec_descriptors(), #[trigger] r@[i]@),
                    order_key(self.spec_descriptors(), #[trigger] r@[j]@),
                ),
    {
        proof {
            changes.lemma_lengths();
            use_type_invariant(changes);
        }
        let ghost ds = self.spec_descriptors();
        let mut out: Vec<String> = Vec::new();
        let mut keys: Vec<(u32, String)> = Vec::new();
        let mut i: usize = 0;
        while i < changes.len()
            invariant
                i <= changes.keys().len(),
                ds == self.spec_descriptors(),
                crate::strmap::sorted_keys(changes.keys()),
                out@.len() == i,
                keys@.len() == i,
                forall|a: int| 0 <= a < i ==> (#[trigger] keys@[a]).0 == order_key(ds, out@[a]@).0
                    && keys@[a].1@ == order_key(ds, out@[a]@).1,
                forall|a: int| 0 <= a < i ==> #[trigger] changes.keys().take(i as int).contains(out@[a]@),
                forall|k: Seq<char>|
                    changes.keys().take(i as int).contains(k) ==> exists|a: int| 0 <= a < i && #[trigger] out@[a]@ == k,
                forall|a: int, b: int|
                    0 <= a < b < i ==> order_lt(
                        order_key(ds, #[trigger] out@[a]@),
                        order_key(ds, #[trigger] out@[b]@),
                    ),
            decreases changes.keys().len() - i,
        {
            let id = changes.key_at(i);
            let ghost kid = order_key(ds, id@);
            let (order, document) = match self.settings.get(id.as_str()) {
                Some(entry) => (entry.0.apply_order, entry.0.document.clone()),
                None => (0u32, String::new()),
            };
            assert(order == kid.0 && document@ == kid.1);
            let mut p: usize = 0;
            let mut found = false;
            while p < out.len() && !found
                invariant
                    p <= out@.len(),
                    out@.len() == keys@.len(),
                    forall|a: int| 0 <= a < keys@.len() ==> (#[trigger] keys@[a]).0 == order_key(ds, out@[a]@).0
                        && keys@[a].1@ == order_key(ds, out@[a]@).1,
                    forall|a: int| 0 <= a < p ==> !order_lt(kid, order_key(ds, #[trigger] out@[a]@)),
                    found ==> p < out@.len() && order_lt(kid, order_key(ds, out@[p as int]@)),
                    kid == order_key(ds, id@),
                    order == kid.0,
                    document@ == kid.1,
                decreases out@.len() - p, if found { 0int } else { 1int },
            {
                let ghost other = order_key(ds, out@[p as int]@);
                let less = if order < keys[p].0 {
                    true
                } else if order > keys[p].0 {
                    false
                } else {
                    match compare_str(document.as_str(), keys[p].1.as_str()) {
                        Cmp3::Less => true,
                        Cmp3::Greater => false,
                        Cmp3::Equal => match compare_str(id.as_str(), out[p].as_str()) {
                            Cmp3::Less => true,
                            _ => false,
                        },
                    }
                };
                proof {
                    assert(other.2 == out@[p as int]@);
                    assert(kid.2 == id@);
                    if less {
                        assert(order_lt(kid, other));
                    } else {
                        if order_lt(kid, other) {
                            lemma_lex_asymmetric(kid.1, other.1);
                        }
                    }
                }
                if less {
                    found = true;
                } else {
                    p = p + 1;
                }
            }
            proof {
                // The new key is not among those already placed.
                assert forall|a: int| 0 <= a < out@.len() implies out@[a]@ != id@ by {
                    let ks = changes.keys();
                    assert(ks.take(i as int).contains(out@[a]@));
                    let t = choose|t: int| 0 <= t < i && #[trigger] ks.take(i as int)[t] == out@[a]@;
                    assert(lex_lt(ks[t], ks[i as int]));
                    lemma_lex_asymmetric(ks[t], ks[i as int]);
                }
            }
            let ghost before = out@;
            out.insert(p, id.clone());
            keys.insert(p, (order, document));
            proof {
                let ks = changes.keys();
                assert forall|a: int, b: int|
                    0 <= a < b < out@.len() implies order_lt(
                    order_key(ds, #[trigger] out@[a]@),
                    order_key(ds, #[trigger] out@[b]@),
                ) by {
                    if a < p && b == p {
                        assert(!order_lt(kid, order_key(ds, before[a]@)));
                        assert(before[a]@ != id@);
                        lemma_order_total(kid, order_key(ds, before[a]@));
                    } else if a == p && b > p {
                        if found {
                            if b - 1 > p {
                                lemma_order_transitive(kid, order_key(ds, before[p as int]@), order_key(ds, before[b - 1]@));
                            }
                        }
                    } else if a < p && b > p {
                        assert(out@[a] == before[a]);
                        assert(out@[b] == before[b - 1]);
                    } else if a > p {
                        assert(out@[a] == before[a - 1]);
                        assert(out@[b] == before[b - 1]);
                    } else {
                        assert(out@[a] == before[a]);
                        assert(out@[b] == before[b]);
                    }
                }
                assert forall|a: int| 0 <= a < out@.len() implies #[trigger] ks.take(i + 1).contains(out@[a]@) by {
                    if a == p {
                        assert(ks.take(i + 1)[i as int] == id@);
                    } else {
                        let x = if a < p { a } else { a - 1 };
                        assert(out@[a] == before[x]);
                        assert(ks.take(i as int).contains(before[x]@));
                        let t = choose|t: int| 0 <= t < i && #[trigger] ks.take(i as int)[t] == before[x]@;
                        assert(ks.take(i + 1)[t] == before[x]@);
                    }
                }
                assert forall|k: Seq<char>| #[trigger] ks.take(i + 1).contains(k) implies exists|a: int| 0 <= a < out@.len() && #[trigger] out@[a]@ == k by {
                    let t = choose|t: int| 0 <= t < i + 1 && #[trigger] ks.take(i + 1)[t] == k;
                    if t == i {
                        assert(out@[p as int]@ == k);
                    } else {
                        assert(ks.take(i as int)[t] == k);
                        assert(ks.take(i as int).contains(k));
                        let x = choose|x: int| 0 <= x < i && #[trigger] before[x]@ == k;
                        if x < p {
                            assert(out@[x]@ == k);
                        } else {
                            assert(out@[x + 1]@ == k);
                        }
                    }
                }
            }
            i = i + 1;
        }
        proof {
            assert(changes.keys().take(i as int) =~= changes.keys());
        }
        out
    }

    /// Checks one candidate: its setting is known, of its kind and available here, and its
    /// applier accepts the value.
    fn check_one(&self, candidate: &SettingCandidate) -> (r: Result<(), CoordinatorError>)
        ensures
            r is Ok ==> static_refusal(self.spec_descriptors(), self.platform, *candidate) is None,
            r matches Err(e) ==> static_refusal(self.spec_descriptors(), self.platform, *candidate) == Some(e)
                || (static_refusal(self.spec_descriptors(), self.platform, *candidate) is None
                && (e matches CoordinatorError::Validation { id, .. } && id == candidate.id)),
            r is Ok <==> self.candidate_valid(*candidate),
            r matches Err(e) && static_refusal(self.spec_descriptors(), self.platform, *candidate) is None
                ==> !self.spec_accepts(candidate.id@, candidate.value@),
    {
        let entry = match self.settings.get(candidate.id.as_str()) {
            None => {
                return Err(CoordinatorError::Unknown(candidate.id.clone()));
            },
            Some(entry) => entry,
        };
        assert(self.spec_descriptors().contains_key(candidate.id@) && self.spec_descriptors()[candidate.id@] == entry.0);
        match validate_type(&entry.0, &candidate.value) {
            Err(e) => {
                return Err(e);
            },
            Ok(()) => {},
        }
        if !entry.0.availability.supports(self.platform) {
            return Err(CoordinatorError::Unavailable(candidate.id.clone()));
        }
        match self.appliers.get(candidate.id.as_str()) {
            Some(applier) => match applier.validate(&candidate.value) {
                Err(message) => Err(CoordinatorError::Validation { id: candidate.id.clone(), message }),
                Ok(()) => Ok(()),
            },
            None => Ok(()),
        }
    }

    /// Checks every candidate in order and collects the change of each identifier, the last
    /// candidate of an identifier winning.
    fn check_candidates(&self, candidates: &[SettingCandidate]) -> (r: Result<StrMap<SettingValue>, CoordinatorError>)
        ensures
            match r {
                Ok(changes) => {
                    &&& changes.map().map_values(|v: SettingValue| v@) == candidate_map(candidates@)
                    &&& forall|j: int| 0 <= j < candidates@.len() ==> static_refusal(self.spec_descriptors(), self.platform, #[trigger] candidates@[j]) is None
                    &&& forall|j: int| 0 <= j < candidates@.len() ==> self.candidate_valid(#[trigger] candidates@[j])
                },
                Err(e) => refusal_fits(self.spec_descriptors(), self.platform, candidates@, e)
                    && exists|i: int| self.refused_at(candidates@, i, e),
            },
    {
        let ghost ds = self.spec_descriptors();
        let mut changes: StrMap<SettingValue> = StrMap::new();
        let mut i: usize = 0;
        while i < candidates.len()
            invariant
                i <= candidates@.len(),
                ds == self.spec_descriptors(),
                changes.map().map_values(|v: SettingValue| v@) == candidate_map(candidates@.take(i as int)),
                forall|j: int| 0 <= j < i ==> static_refusal(ds, self.platform, #[trigger] candidates@[j]) is None,
                forall|j: int| 0 <= j < i ==> self.candidate_valid(#[trigger] candidates@[j]),
            decreases candidates@.len() - i,
        {
            let candidate = &candidates[i];
            let ghost before = changes.map();
            assert(candidates@.take(i + 1).drop_last() =~= candidates@.take(i as int));
            match self.check_one(candidate) {
                Err(e) => {
                    proof {
                        if static_refusal(ds, self.platform, candidates@[i as int]) is Some {
                            lemma_first_refusal(ds, self.platform, candidates@, i as int);
                        }
                    }
                    assert(refusal_fits(ds, self.platform, candidates@, e));
                    assert(self.refused_at(candidates@, i as int, e));
                    return Err(e);
                },
                Ok(()) => {},
            }
            changes.insert(candidate.id.clone(), candidate.value.duplicate());
            proof {
                assert(changes.map().map_values(|v: SettingValue| v@) =~= before.map_values(
                    |v: SettingValue| v@,
                ).insert(candidate.id@, candidate.value@));
            }
            i = i + 1;
        }
        assert(candidates@.take(i as int) =~= candidates@);
        Ok(changes)
    }

    /// Runs the appliers of the changes in apply order; when one fails, rolls back those
    /// already applied, in reverse order, and restores the persisted snapshot.
    fn run_appliers(
        &mut self,
        changes: &StrMap<SettingValue>,
        previous_values: &StrMap<SettingValue>,
        persist: bool,
    ) -> (r: Result<(), CoordinatorError>)
        ensures
            final(self).settings == old(self).settings,
            final(self).platform == old(self).platform,
            final(self).last_error == old(self).last_error,
            r matches Err(e) ==> e is Apply,
    {
        let ordered = self.apply_order(changes);
        let mut applied: usize = 0;
        while applied < ordered.len()
            invariant
                applied <= ordered@.len(),
                self.settings == old(self).settings,
                self.platform == old(self).platform,
                self.last_error == old(self).last_error,
            decreases ordered@.len() - applied,
        {
            let id = &ordered[applied];
            let failure = match changes.get(id.as_str()) {
                None => None,
                Some(candidate) => {
                    let previous = match self.settings.get(id.as_str()) {
                        Some(entry) => entry.1.value.duplicate(),
                        None => candidate.duplicate(),
                    };
                    match self.appliers.remove(id.as_str()) {
                        None => None,
                        Some(mut applier) => {
                            let outcome = applier.apply(&previous, candidate);
                            self.appliers.insert(id.clone(), applier);
                            match outcome {
                                Ok(()) => None,
                                Err(message) => Some(message),
                            }
                        },
                    }
                },
            };
            match failure {
                Some(message) => {
                    let mut j: usize = applied;
                    while j > 0
                        invariant
                            j <= applied,
                            applied < ordered@.len(),
                            self.settings == old(self).settings,
                            self.platform == old(self).platform,
                            self.last_error == old(self).last_error,
                        decreases j,
                    {
                        j = j - 1;
                        let applied_id = &ordered[j];
                        match (changes.get(applied_id.as_str()), previous_values.get(applied_id.as_str())) {
                            (Some(candidate), Some(previous)) => match self.appliers.remove(applied_id.as_str()) {
                                Some(mut applier) => {
                                    applier.rollback(candidate, previous);
                                    self.appliers.insert(applied_id.clone(), applier);
                                },
                                None => {},
                            },
                            _ => {},
                        }
                    }
                    if persist {
                        let _ = self.persistence.persist(previous_values);
                    }
                    return Err(CoordinatorError::Apply { id: id.clone(), message });
                },
                None => {},
            }
            applied = applied + 1;
        }
        Ok(())
    }

    /// Records the new values, with the given provenance where one is given.
    fn commit(&mut self, changes: &StrMap<SettingValue>, provenance: Option<&SettingProvenance>)
        requires
            forall|k: Seq<char>| #[trigger] changes.map().contains_key(k) ==> old(self).spec_descriptors().contains_key(k),
        ensures
            final(self).platform == old(self).platform,
            final(self).last_error == old(self).last_error,
            final(self).spec_descriptors() == old(self).spec_descriptors(),
            applied_states(
                old(self).spec_states(),
                final(self).spec_states(),
                changes.map().map_values(|v: SettingValue| v@),
                match provenance {
                    Some(p) => Some(prov_view(*p)),
                    None => None,
                },
            ),
    {
        proof {
            changes.lemma_lengths();
            use_type_invariant(changes);
        }
        let ghost ds = self.spec_descriptors();
        let ghost states = self.spec_states();
        let ghost cmap = changes.map().map_values(|v: SettingValue| v@);
        let ghost pv = match provenance {
            Some(p) => Some(prov_view(*p)),
            None => None,
        };
        let mut c: usize = 0;
        while c < changes.len()
            invariant
                c <= changes.keys().len(),
                changes.keys().len() == changes.values().len(),
                crate::strmap::sorted_keys(changes.keys()),
                cmap == changes.map().map_values(|v: SettingValue| v@),
                forall|k: Seq<char>| #[trigger] changes.map().contains_key(k) ==> ds.contains_key(k),
                ds == self.spec_descriptors(),
                self.platform == old(self).platform,
                self.last_error == old(self).last_error,
                pv == match provenance {
                    Some(p) => Some(prov_view(*p)),
                    None => None,
                },
                self.spec_states().dom() == states.dom(),
                forall|id: Seq<char>|
                    #![trigger self.spec_states()[id]]
                    states.contains_key(id) ==> committed(states, self.spec_states(), changes.keys().take(c as int), cmap, pv, id),
            decreases changes.keys().len() - c,
        {
            let key = changes.key_at(c);
            let ghost k = key@;
            proof {
                lemma_index_of_sorted(changes.keys(), c as int);
                assert(changes.map().contains_key(k));
                assert(cmap[k] == changes.values()[c as int]@);
            }
            let value = changes.value_at(c).duplicate();
            let ghost mid = self.settings.map();
            let ghost mid_states = self.spec_states();
            let entry = match self.settings.remove(key.as_str()) {
                Some(entry) => entry,
                None => {
                    proof {
                        assert(ds.contains_key(k));
                        assert(false);
                    }
                    return;
                },
            };
            let (descriptor, state) = entry;
            let ghost old_state = state;
            let provenance_now = match provenance {
                Some(p) => p.duplicate(),
                None => state.provenance,
            };
            let ghost new_state = SettingState { value, provenance: provenance_now };
            self.settings.insert(key.clone(), (descriptor, SettingState { value, provenance: provenance_now }));
            proof {
                let ks = changes.keys();
                assert(self.settings.map() == mid.remove(k).insert(k, (descriptor, new_state)));
                assert(self.spec_descriptors() =~= ds);
                assert(self.spec_states() =~= mid_states.insert(k, new_state));
                assert(old_state == mid_states[k]);
                lemma_commit_step(states, mid_states, self.spec_states(), ks, c as int, cmap, pv, new_state);
            }
            c = c + 1;
        }
        proof {
            assert(changes.keys().take(c as int) =~= changes.keys());
            assert forall|id: Seq<char>|
                #![trigger self.spec_states()[id]]
                states.contains_key(id) implies (if cmap.contains_key(id) {
                    &&& self.spec_states()[id].value@ == cmap[id]
                    &&& prov_view(self.spec_states()[id].provenance) == match pv {
                        Some(p) => p,
                        None => prov_view(states[id].provenance),
                    }
                } else {
                    self.spec_states()[id] == states[id]
                }) by {
                assert(committed(states, self.spec_states(), changes.keys().take(c as int), cmap, pv, id));
            }
        }
    }

    /// Validates every candidate, persists the complete candidate snapshot when asked, applies
    /// the changes in apply order and commits them; an apply failure rolls back the changes
    /// already applied and restores the persisted snapshot.
    fn try_apply(
        &mut self,
        candidates: &[SettingCandidate],
        provenance: Option<&SettingProvenance>,
        persist: bool,
    ) -> (r: Result<(), CoordinatorError>)
        ensures
            final(self).spec_platform() == old(self).spec_platform(),
            final(self).spec_descriptors() == old(self).spec_descriptors(),
            final(self).spec_last_error() == old(self).spec_last_error(),
            apply_outcome(
                old(self).spec_descriptors(),
                old(self).spec_platform(),
                old(self).spec_states(),
                final(self).spec_states(),
                candidates@,
                match provenance {
                    Some(p) => Some(prov_view(*p)),
                    None => None,
                },
                r,
            ),
            old(self).validation_decides(candidates@, r),
    {
        let changes = match self.check_candidates(candidates) {
            Ok(changes) => changes,
            Err(e) => {
                return Err(e);
            },
        };
        proof {
            lemma_candidates_registered(self.spec_descriptors(), self.platform, candidates@);
            assert forall|k: Seq<char>| #[trigger] changes.map().contains_key(k) implies self.spec_descriptors().contains_key(k) by {
                assert(changes.map().map_values(|v: SettingValue| v@).contains_key(k));
                assert(candidate_map(candidates@).contains_key(k));
            }
        }
        let previous_values = self.values();
        if persist {
            let mut candidate_values = self.values();
            let mut c: usize = 0;
            while c < changes.len()
                invariant
                    c <= changes.keys().len(),
                decreases changes.keys().len() - c,
            {
                proof {
                    changes.lemma_lengths();
                }
                candidate_values.insert(changes.key_at(c).clone(), changes.value_at(c).duplicate());
                c = c + 1;
            }
            match self.persistence.persist(&candidate_values) {
                Err(message) => {
                    return Err(CoordinatorError::Persistence(message));
                },
                Ok(()) => {},
            }
        }
        match self.run_appliers(&changes, &previous_values, persist) {
            Err(e) => {
                return Err(e);
            },
            Ok(()) => {},
        }
        self.commit(&changes, provenance);
        Ok(())
    }
}

/// What an application ends in: success exactly with the candidates' values applied; a
/// refusal of a candidate that is unknown, of the wrong kind or unavailable exactly as the
/// first such candidate calls for, unless an earlier candidate's validation failed; and no
/// change of state on any failure.
pub open spec fn apply_outcome(
    ds: Map<Seq<char>, SettingDescriptor>,
    platform: SettingPlatform,
    before: Map<Seq<char>, SettingState>,
    after: Map<Seq<char>, SettingState>,
    cands: Seq<SettingCandidate>,
    provenance: Option<(ConfigLayerKind, Seq<char>)>,
    r: Result<(), CoordinatorError>,
) -> bool {
    match r {
        Ok(()) => {
            &&& forall|i: int| 0 <= i < cands.len() ==> static_refusal(ds, platform, #[trigger] cands[i]) is None
            &&& applied_states(before, after, candidate_map(cands), provenance)
        },
        Err(e) => after == before && refusal_fits(ds, platform, cands, e),
    }
}

/// A refusal fits the candidates: one of an unknown, wrong-kind or unavailable candidate is
/// the first such; a validation failure names a candidate no earlier than that; a
/// persistence or apply failure comes only when every candidate passed those checks.
pub open spec fn refusal_fits(
    ds: Map<Seq<char>, SettingDescriptor>,
    platform: SettingPlatform,
    cands: Seq<SettingCandidate>,
    e: CoordinatorError,
) -> bool {
    &&& (e is Unknown || e is TypeMismatch || e is Unavailable) ==> exists|i: int|
        0 <= i < cands.len() && static_refusal(ds, platform, #[trigger] cands[i]) == Some(e)
            && forall|j: int| 0 <= j < i ==> static_refusal(ds, platform, #[trigger] cands[j]) is None
    &&& (e is Validation) ==> exists|i: int|
        0 <= i < cands.len() && (e matches CoordinatorError::Validation { id, .. } && id == (#[trigger] cands[i]).id)
            && forall|j: int| 0 <= j <= i ==> static_refusal(ds, platform, #[trigger] cands[j]) is None
    &&& (e is Apply || e is Persistence) ==> forall|i: int| 0 <= i < cands.len() ==> static_refusal(ds, platform, #[trigger] cands[i]) is None
    &&& !(e is Duplicate)
}

/// Setting `id` is committed as far as the keys processed so far go.
pub open spec fn committed(
    before: Map<Seq<char>, SettingState>,
    after: Map<Seq<char>, SettingState>,
    done: Seq<Seq<char>>,
    cmap: Map<Seq<char>, SettingValueView>,
    pv: Option<(ConfigLayerKind, Seq<char>)>,
    id: Seq<char>,
) -> bool {
    if done.contains(id) {
        &&& after[id].value@ == cmap[id]
        &&& prov_view(after[id].provenance) == match pv {
            Some(p) => p,
            None => prov_view(before[id].provenance),
        }
    } else {
        after[id] == before[id]
    }
}

proof fn lemma_commit_step(
    states: Map<Seq<char>, SettingState>,
    mid: Map<Seq<char>, SettingState>,
    after: Map<Seq<char>, SettingState>,
    ks: Seq<Seq<char>>,
    c: int,
    cmap: Map<Seq<char>, SettingValueView>,
    pv: Option<(ConfigLayerKind, Seq<char>)>,
    new_state: SettingState,
)
    requires
        0 <= c < ks.len(),
        crate::strmap::sorted_keys(ks),
        mid.dom() == states.dom(),
        states.contains_key(ks[c]),
        after == mid.insert(ks[c], new_state),
        new_state.value@ == cmap[ks[c]],
        prov_view(new_state.provenance) == match pv {
            Some(p) => p,
            None => prov_view(mid[ks[c]].provenance),
        },
        forall|id: Seq<char>|
            #![trigger mid[id]]
            states.contains_key(id) ==> committed(states, mid, ks.take(c), cmap, pv, id),
    ensures
        after.dom() == states.dom(),
        forall|id: Seq<char>|
            #![trigger after[id]]
            states.contains_key(id) ==> committed(states, after, ks.take(c + 1), cmap, pv, id),
{
    let k = ks[c];
    assert(!ks.take(c).contains(k)) by {
        if ks.take(c).contains(k) {
            let t = choose|t: int| 0 <= t < c && #[trigger] ks.take(c)[t] == k;
            assert(lex_lt(ks[t], ks[c]));
            lemma_lex_irreflexive(k);
        }
    }
    assert(committed(states, mid, ks.take(c), cmap, pv, k));
    assert(mid[k] == states[k]);
    assert forall|id: Seq<char>|
        #![trigger after[id]]
        states.contains_key(id) implies committed(states, after, ks.take(c + 1), cmap, pv, id) by {
        assert(ks.take(c + 1)[c] == k);
        if id != k {
            assert(committed(states, mid, ks.take(c), cmap, pv, id));
            if ks.take(c + 1).contains(id) {
                let t = choose|t: int| 0 <= t < c + 1 && #[trigger] ks.take(c + 1)[t] == id;
                assert(ks.take(c)[t] == id);
            }
            if ks.take(c).contains(id) {
                let t = choose|t: int| 0 <= t < c && #[trigger] ks.take(c)[t] == id;
                assert(ks.take(c + 1)[t] == id);
            }
        }
    }
    assert(after.dom() =~= states.dom());
}

proof fn lemma_first_refusal(
    ds: Map<Seq<char>, SettingDescriptor>,
    platform: SettingPlatform,
    cands: Seq<SettingCandidate>,
    i: int,
)
    requires
        0 <= i < cands.len(),
        static_refusal(ds, platform, cands[i]) is Some,
        forall|j: int| 0 <= j < i ==> static_refusal(ds, platform, #[trigger] cands[j]) is None,
    ensures
        exists|k: int|
            0 <= k < cands.len() && static_refusal(ds, platform, #[trigger] cands[k]) == static_refusal(ds, platform, cands[i])
                && forall|j: int| 0 <= j < k ==> static_refusal(ds, platform, #[trigger] cands[j]) is None,
{
}

proof fn lemma_refusals_before(
    ds: Map<Seq<char>, SettingDescriptor>,
    platform: SettingPlatform,
    cands: Seq<SettingCandidate>,
    i: int,
)
    requires
        0 <= i <= cands.len(),
        forall|j: int| 0 <= j < i ==> static_refusal(ds, platform, #[trigger] cands[j]) is None,
    ensures
        forall|j: int| 0 <= j < i ==> static_refusal(ds, platform, #[trigger] cands[j]) is None,
{
}

proof fn lemma_candidates_registered(
    ds: Map<Seq<char>, SettingDescriptor>,
    platform: SettingPlatform,
    cands: Seq<SettingCandidate>,
)
    requires
        forall|j: int| 0 <= j < cands.len() ==> static_refusal(ds, platform, #[trigger] cands[j]) is None,
    ensures
        forall|k: Seq<char>| #[trigger] candidate_map(cands).contains_key(k) ==> ds.contains_key(k),
    decreases cands.len(),
{
    if cands.len() > 0 {
        assert forall|j: int| 0 <= j < cands.drop_last().len() implies static_refusal(ds, platform, #[trigger] cands.drop_last()[j]) is None by {
            assert(cands.drop_last()[j] == cands[j]);
        }
        lemma_candidates_registered(ds, platform, cands.drop_last());
        let last = cands[cands.len() - 1];
        assert(static_refusal(ds, platform, last) is None);
        assert(candidate_map(cands) == candidate_map(cands.drop_last()).insert(last.id@, last.value@));
        assert forall|k: Seq<char>| #[trigger] candidate_map(cands).contains_key(k) implies ds.contains_key(k) by {
            if k != last.id@ {
                assert(candidate_map(cands.drop_last()).contains_key(k));
            }
        }
    }
}

/// Candidates made from the entries of an ordered map give back that map.
proof fn lemma_candidate_map_of_entries(
    cands: Seq<SettingCandidate>,
    keys: Seq<Seq<char>>,
    values: Seq<SettingValue>,
)
    requires
        cands.len() == keys.len(),
        keys.len() == values.len(),
        crate::strmap::sorted_keys(keys),
        forall|j: int| 0 <= j < cands.len() ==> (#[trigger] cands[j]).id@ == keys[j] && cands[j].value@ == values[j]@,
    ensures
        forall|k: Seq<char>| #[trigger] candidate_map(cands).contains_key(k) <==> keys.contains(k),
        forall|k: Seq<char>| keys.contains(k) ==> #[trigger] candidate_map(cands)[k] == values[keys.index_of(k)]@,
    decreases cands.len(),
{
    if cands.len() > 0 {
        let n = cands.len() - 1;
        assert forall|a: int, b: int| 0 <= a < b < keys.drop_last().len() implies lex_lt(#[trigger] keys.drop_last()[a], #[trigger] keys.drop_last()[b]) by {
            assert(keys.drop_last()[a] == keys[a]);
            assert(keys.drop_last()[b] == keys[b]);
        }
        assert forall|j: int| 0 <= j < cands.drop_last().len() implies (#[trigger] cands.drop_last()[j]).id@ == keys.drop_last()[j] && cands.drop_last()[j].value@ == values.drop_last()[j]@ by {
            assert(cands.drop_last()[j] == cands[j]);
        }
        lemma_candidate_map_of_entries(cands.drop_last(), keys.drop_last(), values.drop_last());
        let last = cands[n];
        assert(candidate_map(cands) == candidate_map(cands.drop_last()).insert(last.id@, last.value@));
        assert forall|k: Seq<char>| #[trigger] candidate_map(cands).contains_key(k) <==> keys.contains(k) by {
            if keys.contains(k) && k != keys[n] {
                let t = choose|t: int| 0 <= t < keys.len() && keys[t] == k;
                assert(keys.drop_last()[t] == k);
            }
            if keys.drop_last().contains(k) {
                let t = choose|t: int| 0 <= t < n && keys.drop_last()[t] == k;
                assert(keys[t] == k);
            }
        }
        assert forall|k: Seq<char>| keys.contains(k) implies #[trigger] candidate_map(cands)[k] == values[keys.index_of(k)]@ by {
            let t = choose|t: int| 0 <= t < keys.len() && keys[t] == k;
            lemma_index_of_sorted(keys, t);
            if t < n {
                assert(keys.drop_last()[t] == k);
                lemma_index_of_sorted(keys.drop_last(), t);
                assert(lex_lt(keys[t], keys[n]));
                lemma_lex_irreflexive(k);
                assert(k != keys[n]);
            }
        }
    }
}

} // verus!
