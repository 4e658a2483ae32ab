//! Provider contracts: listing pages, streams, errors and the provider registry.

use vstd::prelude::*;

use crate::ids::{CapabilityId, ProviderId};
use crate::resource::{
    CapabilitySet, Location, MutationEligibility, MutationKind, ResourceClassification,
    ResourceMetadata, ResourceRef,
};
use crate::strmap::StrMap;
use crate::text::push_str;

verus! {

broadcast use vstd::string::group_string_axioms;

/// Generation of a listing context, used to refuse stale operations.
#[derive(Clone, Copy, Debug, PartialEq, Eq, PartialOrd, Ord, Hash, Structural)]
pub struct ListingGeneration(pub u64);

impl Default for ListingGeneration {
    fn default() -> (r: Self)
        ensures
            r.0 == 0,
    {
        ListingGeneration(0)
    }
}

/// A cancellation flag shared by every clone of the token.
#[derive(Debug)]
pub struct CancellationToken {
    flag: std::sync::Arc<std::sync::atomic::AtomicBool>,
}

impl Default for CancellationToken {
    fn default() -> (r: Self) {
        CancellationToken {
            flag: std::sync::Arc::new(std::sync::atomic::AtomicBool::new(false)),
        }
    }
}

impl Clone for CancellationToken {
    fn clone(&self) -> (r: Self) {
        CancellationToken { flag: std::sync::Arc::clone(&self.flag) }
    }
}

impl CancellationToken {
    /// Requests cancellation for every holder of the token.
    pub fn cancel(&self) {
        self.flag.store(true, std::sync::atomic::Ordering::Release);
    }

    /// Whether cancellation was requested. Another holder may cancel at any time, so nothing
    /// is known of the answer.
    pub fn is_cancelled(&self) -> bool {
        self.flag.load(std::sync::atomic::Ordering::Acquire)
    }
}

#[derive(Clone, Debug)]
pub struct ListRequest {
    pub generation: ListingGeneration,
    pub continuation: Option<String>,
    pub page_size: usize,
    pub cancellation: CancellationToken,
}

pub struct ResourceEntry {
    pub resource: ResourceRef,
    pub metadata: ResourceMetadata,
    pub details: String,
}

#[derive(Debug, PartialEq, Eq)]
pub struct ProviderLocation {
    pub location: Location,
    pub label: String,
    pub detail: String,
}

/// The root location a provider offers for a scheme: `scheme://`, labelled as its root.
pub open spec fn is_root_location(l: ProviderLocation, id: Seq<char>, scheme: Seq<char>) -> bool {
    &&& l.location@ == scheme + "://"@
    &&& l.label@ == scheme + " root"@
    &&& l.detail@ == id + " provider root"@
}

/// Locations that are the roots of the schemes, one per scheme and in the same order.
pub open spec fn root_locations(ls: Seq<ProviderLocation>, id: Seq<char>, schemes: Seq<Seq<char>>) -> bool {
    &&& ls.len() == schemes.len()
    &&& forall|i: int| 0 <= i < ls.len() ==> #[trigger] is_root_location(ls[i], id, schemes[i])
}

/// Whether a registry result is decided by the providers' answers in registration order: every
/// answer before the last found nothing, the last answer that is not "nothing" decides (an
/// error is returned as it is, a location with the provider that gave it), and when every
/// provider found nothing the result is nothing.
pub open spec fn decided_by_first_answer<P>(
    registered: Seq<P>,
    answers: Seq<Result<Option<Location>, ProviderError>>,
    r: Result<Option<(&P, Location)>, ProviderError>,
) -> bool {
    &&& answers.len() <= registered.len()
    &&& forall|j: int|
        0 <= j < answers.len() - 1 ==> #[trigger] answers[j] == Ok::<Option<Location>, ProviderError>(None)
    &&& if answers.len() == registered.len() && (answers.len() == 0 || answers.last() == Ok::<
        Option<Location>,
        ProviderError,
    >(None)) {
        r matches Ok(None)
    } else {
        &&& answers.len() > 0
        &&& match answers.last() {
            Err(e) => r == Err::<Option<(&P, Location)>, ProviderError>(e),
            Ok(Some(l)) => r matches Ok(Some((p, l2))) && *p == registered[answers.len() - 1] && l2 == l,
            Ok(None) => false,
        }
    }
}

/// The union of a sequence of sets.
pub open spec fn union_of(sets: Seq<Set<Seq<char>>>) -> Set<Seq<char>>
    decreases sets.len(),
{
    if sets.len() == 0 {
        Set::empty()
    } else {
        union_of(sets.drop_last()) + sets.last()
    }
}

/// The refusal of a command prefix that the provider does not own.
pub open spec fn unowned_prefix_error(r: Result<Location, ProviderError>, id: Seq<char>, prefix: Seq<char>) -> bool {
    r matches Err(ProviderError::Unsupported(m)) && m@ == id + " does not own command prefix "@ + prefix
}

pub struct ListPage {
    pub generation: ListingGeneration,
    pub entries: Vec<ResourceEntry>,
    pub continuation: Option<String>,
    pub complete: bool,
}

#[derive(Clone, Debug)]
pub struct OpenRequest {
    pub offset: u64,
    pub length: usize,
    pub cancellation: CancellationToken,
}

#[derive(Clone, Copy, Debug, PartialEq, Eq, Structural)]
pub struct ResourceVersion {
    pub size: Option<u64>,
    pub modified_unix_ms: Option<i64>,
}

impl Default for ResourceVersion {
    fn default() -> (r: Self)
        ensures
            r.size is None,
            r.modified_unix_ms is None,
    {
        ResourceVersion { size: None, modified_unix_ms: None }
    }
}

#[derive(Clone, Debug)]
pub struct WriteRequest {
    pub bytes: Vec<u8>,
    pub expected: Option<ResourceVersion>,
    pub cancellation: CancellationToken,
}

#[derive(Debug, PartialEq, Eq)]
pub struct ResourceStream {
    pub offset: u64,
    pub bytes: Vec<u8>,
    pub total_size: Option<u64>,
    pub complete: bool,
}

#[derive(Debug, PartialEq, Eq)]
#[non_exhaustive]
pub enum ProviderError {
    Cancelled,
    NotFound(ResourceRef),
    Conflict(String),
    Unsupported(String),
    Failed(String),
}

/// The message a provider error displays.
pub open spec fn provider_error_text(e: ProviderError) -> Seq<char> {
    match e {
        ProviderError::Cancelled => "provider request was cancelled"@,
        ProviderError::NotFound(r) => "resource was not found: "@ + (r.provider@ + seq![':']
            + r.location@),
        ProviderError::Conflict(m) => "resource changed since it was opened: "@ + m@,
        ProviderError::Unsupported(m) => "provider does not support this operation: "@ + m@,
        ProviderError::Failed(m) => "provider failed: "@ + m@,
    }
}

impl ProviderError {
    /// A copy of the error.
    pub fn duplicate(&self) -> (r: Self)
        ensures
            r == *self,
    {
        match self {
            ProviderError::Cancelled => ProviderError::Cancelled,
            ProviderError::NotFound(resource) => ProviderError::NotFound(resource.clone()),
            ProviderError::Conflict(m) => ProviderError::Conflict(m.clone()),
            ProviderError::Unsupported(m) => ProviderError::Unsupported(m.clone()),
            ProviderError::Failed(m) => ProviderError::Failed(m.clone()),
        }
    }

    /// The message the error displays.
    pub fn message(&self) -> (r: String)
        ensures
            r@ == provider_error_text(*self),
    {
        match self {
            ProviderError::Cancelled => "provider request was cancelled".to_owned(),
            ProviderError::NotFound(resource) => {
                let mut r = "resource was not found: ".to_owned();
                let shown = resource.display();
                push_str(&mut r, shown.as_str());
                r
            },
            ProviderError::Conflict(m) => {
                let mut r = "resource changed since it was opened: ".to_owned();
                push_str(&mut r, m.as_str());
                r
            },
            ProviderError::Unsupported(m) => {
                let mut r = "provider does not support this operation: ".to_owned();
                push_str(&mut r, m.as_str());
                r
            },
            ProviderError::Failed(m) => {
                let mut r = "provider failed: ".to_owned();
                push_str(&mut r, m.as_str());
                r
            },
        }
    }
}

/// The synchronous part of a resource provider: identity, schemes, capabilities, mutation
/// policy, mounting and navigation. The streaming operations belong to the host.
pub trait ResourceProvider {
    fn id(&self) -> ProviderId;

    fn schemes(&self) -> Vec<String>;

    fn capabilities(&self, resource: &ResourceRef) -> CapabilitySet;

    /// Parses a provider-native reference; `None` when the text does not belong to it.
    fn parse_native_reference(&self, reference: &str) -> (r: Result<Option<ResourceRef>, ProviderError>)
        default_ensures
            r matches Ok(None),
    {
        Ok(None)
    }

    /// Classifies a resource before mutation policy is applied.
    fn classify_resource(&self, resource: &ResourceRef) -> (r: Result<ResourceClassification, ProviderError>)
        default_ensures
            r matches Ok(ResourceClassification::Ordinary),
    {
        Ok(ResourceClassification::Ordinary)
    }

    /// Whether a resource may enter mutation planning.
    fn mutation_eligibility(&self, resource: &ResourceRef, mutation: MutationKind) -> (r: MutationEligibility)
        default_ensures
            r == MutationEligibility::Allowed,
    {
        MutationEligibility::Allowed
    }

    fn command_prefixes(&self) -> (r: Vec<crate::command_line::CommandPrefixDescriptor>)
        default_ensures
            r@.len() == 0,
    {
        Vec::new()
    }

    /// Resolves a provider-owned command prefix into a location.
    fn resolve_command_prefix(
        &self,
        prefix: &str,
        arguments: &str,
        current: Option<&Location>,
    ) -> (r: Result<Location, ProviderError>)
        default_ensures
            exists|id: Seq<char>| #[trigger] unowned_prefix_error(r, id, prefix@),
    {
        let id = self.id();
        let mut message = id.as_str().to_owned();
        proof {
            reveal_strlit(" does not own command prefix ");
        }
        push_str(&mut message, " does not own command prefix ");
        push_str(&mut message, prefix);
        let r = Err(ProviderError::Unsupported(message));
        assert(unowned_prefix_error(r, id@, prefix@));
        r
    }

    /// One root location per scheme.
    fn locations(&self) -> (r: Vec<ProviderLocation>)
        default_ensures
            exists|id: Seq<char>, schemes: Seq<Seq<char>>| #[trigger] root_locations(r@, id, schemes),
    {
        let schemes = self.schemes();
        let id = self.id();
        let ghost names = schemes@.map_values(|s: String| s@);
        let mut out: Vec<ProviderLocation> = Vec::new();
        let mut i: usize = 0;
        proof {
            reveal_strlit("://");
            reveal_strlit(" root");
            reveal_strlit(" provider root");
        }
        while i < schemes.len()
            invariant
                i <= schemes@.len(),
                names == schemes@.map_values(|s: String| s@),
                root_locations(out@, id@, names.take(i as int)),
            decreases schemes@.len() - i,
        {
            let scheme = schemes[i].as_str();
            let mut location = scheme.to_owned();
            push_str(&mut location, "://");
            let mut label = scheme.to_owned();
            push_str(&mut label, " root");
            let mut detail = id.as_str().to_owned();
            push_str(&mut detail, " provider root");
            out.push(ProviderLocation { location: Location::from_string(location), label, detail });
            proof {
                assert(names.take(i + 1) =~= names.take(i as int).push(schemes@[i as int]@));
            }
            i = i + 1;
        }
        assert(names.take(schemes@.len() as int) =~= names);
        assert(root_locations(out@, id@, names));
        out
    }

    fn location_label(&self, location: &Location) -> (r: String)
        default_ensures
            r@ == location@,
    {
        location.as_str().to_owned()
    }

    fn parent(&self, location: &Location) -> (r: Option<Location>)
        default_ensures
            r is None,
    {
        None
    }

    /// Closes a live connection while retaining provider-addressable state.
    fn disconnect(&self, location: &Location) -> (r: Result<bool, ProviderError>)
        default_ensures
            r matches Ok(false),
    {
        Ok(false)
    }

    /// Re-establishes a connection for a retained location.
    fn reconnect(&self, location: &Location) -> (r: Result<bool, ProviderError>)
        default_ensures
            r matches Ok(false),
    {
        Ok(false)
    }

    /// Resolves a foreign resource into a collection location owned by this provider.
    fn mount(&self, resource: &ResourceRef) -> (r: Result<Option<Location>, ProviderError>)
        default_ensures
            r matches Ok(None),
    {
        Ok(None)
    }

    /// Resolves a new named container below a foreign parent location.
    fn create_container(&self, parent: &Location, name: &str) -> (r: Result<Option<Location>, ProviderError>)
        default_ensures
            r matches Ok(None),
    {
        Ok(None)
    }

    fn container_capabilities(&self, location: &Location) -> (r: CapabilitySet)
        default_ensures
            r.spec_set() == Set::<Seq<char>>::empty(),
    {
        CapabilitySet::new()
    }
}

#[derive(Debug, PartialEq, Eq)]
pub enum ProviderRegistryError {
    Duplicate(ProviderId),
}

/// The scheme of a location: the text before its first `:`.
pub open spec fn spec_scheme(location: Seq<char>) -> Option<Seq<char>> {
    if exists|i: int| 0 <= i < location.len() && location[i] == ':' {
        let i = choose|i: int| 0 <= i < location.len() && location[i] == ':' && forall|j: int| 0 <= j < i ==> location[j] != ':';
        Some(location.take(i))
    } else {
        None
    }
}

/// Providers registered by their stable identifiers, kept in identifier order, each with the
/// schemes it declared when it was registered.
pub struct ProviderRegistry<P> {
    providers: StrMap<(P, Vec<String>)>,
}

impl<P> ProviderRegistry<P> {
    /// Identifiers of the registered providers, in order.
    pub closed spec fn ids(&self) -> Seq<Seq<char>> {
        self.providers.keys()
    }

    /// The registered providers, in identifier order.
    pub closed spec fn registered(&self) -> Seq<P> {
        self.providers.values().map_values(|e: (P, Vec<String>)| e.0)
    }

    /// The registered providers by identifier.
    pub closed spec fn entries(&self) -> Map<Seq<char>, P> {
        self.providers.map().map_values(|e: (P, Vec<String>)| e.0)
    }

    /// The schemes each provider declared at registration, by identifier.
    pub closed spec fn schemes_by_id(&self) -> Map<Seq<char>, Seq<Seq<char>>> {
        self.providers.map().map_values(|e: (P, Vec<String>)| e.1@.map_values(|s: String| s@))
    }

    /// The schemes each provider declared at registration.
    pub closed spec fn declared_schemes(&self, i: int) -> Seq<Seq<char>> {
        self.providers.values()[i].1@.map_values(|s: String| s@)
    }
}

impl<P: ResourceProvider> ProviderRegistry<P> {
    pub fn new() -> (r: Self)
        ensures
            r.ids().len() == 0,
    {
        ProviderRegistry { providers: StrMap::new() }
    }

    /// Registers a provider by its stable identifier; a second provider with the same
    /// identifier is refused.
    pub fn register(&mut self, provider: P) -> (r: Result<(), ProviderRegistryError>)
        ensures
            match r {
                Err(ProviderRegistryError::Duplicate(id)) => old(self).ids().contains(id@)
                    && final(self).ids() == old(self).ids() && final(self).registered() == old(self).registered(),
                Ok(()) => exists|id: Seq<char>|
                    !old(self).ids().contains(id) && final(self).ids().contains(id)
                        && final(self).ids().len() == old(self).ids().len() + 1
                        && forall|k: Seq<char>| k != id ==> (final(self).ids().contains(k) == old(self).ids().contains(k)),
            },
            exists|id: Seq<char>|
                if #[trigger] old(self).ids().contains(id) {
                    &&& r matches Err(ProviderRegistryError::Duplicate(d)) && d@ == id
                    &&& final(self).entries() == old(self).entries()
                    &&& final(self).schemes_by_id() == old(self).schemes_by_id()
                    &&& final(self).ids() == old(self).ids()
                } else {
                    &&& r is Ok
                    &&& final(self).entries() == old(self).entries().insert(id, provider)
                    &&& final(self).schemes_by_id().remove(id) == old(self).schemes_by_id()
                    &&& final(self).schemes_by_id().contains_key(id)
                },
    {
        let id = provider.id();
        proof {
            use_type_invariant(&self.providers);
        }
        if self.providers.contains_key(id.as_str()) {
            return Err(ProviderRegistryError::Duplicate(id));
        }
        let ghost old_ids = self.ids();
        let ghost old_map = self.providers.map();
        let ghost prov = provider;
        let schemes = provider.schemes();
        let key = id.as_str().to_owned();
        let mut providers = StrMap::new();
        std::mem::swap(&mut providers, &mut self.providers);
        providers.insert(key, (provider, schemes));
        self.providers = providers;
        assert(!old_ids.contains(id@) && self.ids().contains(id@) && self.ids().len() == old_ids.len() + 1);
        proof {
            assert(self.entries() =~= old_map.map_values(|e: (P, Vec<String>)| e.0).insert(id@, prov));
            assert(self.schemes_by_id().remove(id@) =~= old_map.map_values(
                |e: (P, Vec<String>)| e.1@.map_values(|s: String| s@),
            ));
            assert(self.schemes_by_id().contains_key(id@));
            assert(!old_ids.contains(id@));
        }
        Ok(())
    }

    /// The provider registered under an identifier.
    pub fn get(&self, id: &ProviderId) -> (r: Option<&P>)
        ensures
            match r {
                Some(p) => self.ids().contains(id@) && *p == self.registered()[self.ids().index_of(id@)],
                None => !self.ids().contains(id@),
            },
    {
        proof {
            use_type_invariant(&self.providers);
            self.providers.lemma_lengths();
        }
        match self.providers.get(id.as_str()) {
            Some(entry) => Some(&entry.0),
            None => None,
        }
    }

    /// The first provider, in identifier order, that declared the scheme of the location.
    pub fn for_location(&self, location: &Location) -> (r: Option<&P>)
        ensures
            match spec_scheme(location@) {
                None => r is None,
                Some(scheme) => match r {
                    None => forall|i: int| 0 <= i < self.ids().len() ==> !self.declared_schemes(i).contains(scheme),
                    Some(p) => exists|i: int| 0 <= i < self.ids().len() && *p == self.registered()[i]
                        && self.declared_schemes(i).contains(scheme)
                        && forall|j: int| 0 <= j < i ==> !self.declared_schemes(j).contains(scheme),
                },
            },
    {
        let chars = crate::text::chars_of(location.as_str());
        let mut colon: usize = 0;
        while colon < chars.len() && chars[colon] != ':'
            invariant
                colon <= chars@.len(),
                forall|j: int| 0 <= j < colon ==> chars@[j] != ':',
            decreases chars@.len() - colon,
        {
            colon = colon + 1;
        }
        if colon == chars.len() {
            return None;
        }
        proof {
            let c = choose|c: int| 0 <= c < chars@.len() && chars@[c] == ':' && forall|j: int| 0 <= j < c ==> chars@[j] != ':';
            if c < colon { } else if c > colon { }
        }
        let scheme = crate::text::slice_chars(chars.as_slice(), 0, colon);
        assert(scheme@ =~= location@.take(colon as int));
        assert(spec_scheme(location@) == Some(scheme@));
        proof {
            self.providers.lemma_lengths();
        }
        let mut i: usize = 0;
        while i < self.providers.len()
            invariant
                i <= self.ids().len(),
                spec_scheme(location@) == Some(scheme@),
                self.ids().len() == self.providers.values().len(),
                forall|j: int| 0 <= j < i ==> !self.declared_schemes(j).contains(scheme@),
            decreases self.ids().len() - i,
        {
            let entry = self.providers.value_at(i);
            let declared = &entry.1;
            let mut k: usize = 0;
            let mut hit = false;
            while k < declared.len() && !hit
                invariant
                    k <= declared@.len(),
                    i < self.providers.values().len(),
                    *entry == self.providers.values()[i as int],
                    hit ==> k < declared@.len() && declared@[k as int]@ == scheme@,
                    !hit ==> forall|m: int| 0 <= m < k ==> declared@[m]@ != scheme@,
                decreases declared@.len() - k, if hit { 0int } else { 1int },
            {
                let candidate = crate::text::chars_of(declared[k].as_str());
                if crate::text::chars_eq(candidate.as_slice(), scheme.as_slice()) {
                    hit = true;
                } else {
                    k = k + 1;
                }
            }
            if hit {
                proof {
                    assert(self.declared_schemes(i as int)[k as int] == scheme@);
                    assert(self.registered()[i as int] == entry.0);
                    assert(self.declared_schemes(i as int).contains(scheme@));
                }
                return Some(&entry.0);
            }
            proof {
                assert forall|m: int| 0 <= m < self.declared_schemes(i as int).len() implies self.declared_schemes(i as int)[m] != scheme@ by {
                    assert(self.declared_schemes(i as int)[m] == declared@[m]@);
                }
            }
            i = i + 1;
        }
        None
    }

    /// The registered providers, in identifier order.
    pub fn providers(&self) -> (r: Vec<&P>)
        ensures
            r@.len() == self.registered().len(),
            forall|i: int| 0 <= i < r@.len() ==> *r@[i] == self.registered()[i],
    {
        let mut out: Vec<&P> = Vec::new();
        let mut i: usize = 0;
        while i < self.providers.len()
            invariant
                i <= self.providers.values().len(),
                out@.len() == i,
                forall|j: int| 0 <= j < i ==> *out@[j] == self.registered()[j],
            decreases self.providers.values().len() - i,
        {
            out.push(&self.providers.value_at(i).0);
            i = i + 1;
        }
        out
    }

    /// Finds the first registered provider that mounts the resource as a collection; a
    /// provider's mount error is returned rather than skipped.
    pub fn mount(&self, resource: &ResourceRef) -> (r: Result<Option<(&P, Location)>, ProviderError>)
        ensures
            r matches Ok(Some((p, _))) ==> exists|i: int| 0 <= i < self.registered().len() && *p == self.registered()[i],
            self.registered().len() == 0 ==> r matches Ok(None),
            r is Err ==> self.registered().len() > 0,
            exists|answers: Seq<Result<Option<Location>, ProviderError>>|
                #[trigger] decided_by_first_answer(self.registered(), answers, r),
    {
        let ghost mut answers: Seq<Result<Option<Location>, ProviderError>> = Seq::empty();
        let mut i: usize = 0;
        while i < self.providers.len()
            invariant
                i <= self.providers.values().len(),
                answers.len() == i,
                forall|j: int| 0 <= j < answers.len() ==> #[trigger] answers[j] == Ok::<
                    Option<Location>,
                    ProviderError,
                >(None),
            decreases self.providers.values().len() - i,
        {
            let provider = &self.providers.value_at(i).0;
            let answer = provider.mount(resource);
            proof {
                let next = answers.push(answer);
                assert(next[i as int] == answer);
                assert(forall|j: int| 0 <= j < i ==> next[j] == answers[j]);
                answers = next;
            }
            match answer {
                Err(e) => {
                    assert(decided_by_first_answer(self.registered(), answers, Err(e)));
                    return Err(e);
                },
                Ok(Some(location)) => {
                    assert(*provider == self.registered()[i as int]);
                    assert(decided_by_first_answer(self.registered(), answers, Ok(Some((provider, location)))));
                    return Ok(Some((provider, location)));
                },
                Ok(None) => {},
            }
            i = i + 1;
        }
        assert(decided_by_first_answer(self.registered(), answers, Ok(None)));
        Ok(None)
    }

    /// Finds a provider that creates a named container below the parent.
    pub fn create_container(&self, parent: &Location, name: &str) -> (r: Result<Option<(&P, Location)>, ProviderError>)
        ensures
            r matches Ok(Some((p, _))) ==> exists|i: int| 0 <= i < self.registered().len() && *p == self.registered()[i],
            self.registered().len() == 0 ==> r matches Ok(None),
            r is Err ==> self.registered().len() > 0,
            exists|answers: Seq<Result<Option<Location>, ProviderError>>|
                #[trigger] decided_by_first_answer(self.registered(), answers, r),
    {
        let ghost mut answers: Seq<Result<Option<Location>, ProviderError>> = Seq::empty();
        let mut i: usize = 0;
        while i < self.providers.len()
            invariant
                i <= self.providers.values().len(),
                answers.len() == i,
                forall|j: int| 0 <= j < answers.len() ==> #[trigger] answers[j] == Ok::<
                    Option<Location>,
                    ProviderError,
                >(None),
            decreases self.providers.values().len() - i,
        {
            let provider = &self.providers.value_at(i).0;
            let answer = provider.create_container(parent, name);
            proof {
                let next = answers.push(answer);
                assert(next[i as int] == answer);
                assert(forall|j: int| 0 <= j < i ==> next[j] == answers[j]);
                answers = next;
            }
            match answer {
                Err(e) => {
                    assert(decided_by_first_answer(self.registered(), answers, Err(e)));
                    return Err(e);
                },
                Ok(Some(location)) => {
                    assert(*provider == self.registered()[i as int]);
                    assert(decided_by_first_answer(self.registered(), answers, Ok(Some((provider, location)))));
                    return Ok(Some((provider, location)));
                },
                Ok(None) => {},
            }
            i = i + 1;
        }
        assert(decided_by_first_answer(self.registered(), answers, Ok(None)));
        Ok(None)
    }

    /// The union of the container capabilities every provider reports for the location.
    pub fn container_capabilities(&self, location: &Location) -> (r: CapabilitySet)
        ensures
            exists|answers: Seq<Set<Seq<char>>>|
                answers.len() == self.registered().len() && r.spec_set() == #[trigger] union_of(
                    answers,
                ),
            self.registered().len() == 0 ==> r.spec_set() == Set::<Seq<char>>::empty(),
    {
        let mut capabilities = CapabilitySet::new();
        let ghost mut answers: Seq<Set<Seq<char>>> = Seq::empty();
        let mut i: usize = 0;
        while i < self.providers.len()
            invariant
                i <= self.providers.values().len(),
                answers.len() == i,
                capabilities.spec_set() == union_of(answers),
            decreases self.providers.values().len() - i,
        {
            let answer = self.providers.value_at(i).0.container_capabilities(location);
            let offered = answer.iter();
            let ghost before = capabilities.spec_set();
            let mut k: usize = 0;
            while k < offered.len()
                invariant
                    k <= offered@.len(),
                    capabilities.spec_set() == before + Set::new(
                        |c: Seq<char>| exists|j: int| 0 <= j < k && (#[trigger] offered@[j])@ == c,
                    ),
                decreases offered@.len() - k,
            {
                capabilities.insert(offered[k].clone());
                proof {
                    assert(capabilities.spec_set() =~= before + Set::new(
                        |c: Seq<char>| exists|j: int| 0 <= j < k + 1 && (#[trigger] offered@[j])@ == c,
                    )) by {
                        assert(offered@[k as int]@ == offered[k as int]@);
                    }
                }
                k = k + 1;
            }
            proof {
                assert(Set::new(
                    |c: Seq<char>| exists|j: int| 0 <= j < offered@.len() && (#[trigger] offered@[j])@ == c,
                ) =~= answer.spec_set());
                let next = answers.push(answer.spec_set());
                assert(next.drop_last() =~= answers);
                answers = next;
            }
            i = i + 1;
        }
        assert(self.registered().len() == i);
        if i == 0 {
            assert(union_of(answers) =~= Set::<Seq<char>>::empty());
        }
        capabilities
    }
}

} // verus!
