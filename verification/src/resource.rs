//! Resources, locations, metadata and mutation policy shared by all providers.

use vstd::prelude::*;

use crate::ids::{CapabilityId, ProviderId};
use crate::strmap::StrMap;
use crate::text::{byte_hex_value, hex_pair};

verus! {

broadcast use vstd::string::group_string_axioms;

/// Metadata extension key under which providers report a resource description.
pub const RESOURCE_DESCRIPTION_KEY: &'static str = "near.description";

/// A provider-owned address of a resource, as text.
#[derive(Debug, PartialEq, Eq, PartialOrd, Ord, Hash)]
pub struct Location {
    value: String,
}

impl View for Location {
    type V = Seq<char>;

    closed spec fn view(&self) -> Seq<char> {
        self.value@
    }
}

impl Clone for Location {
    fn clone(&self) -> (r: Self)
        ensures
            r == *self,
    {
        Location { value: self.value.clone() }
    }
}

/// The bytes of `file://`.
pub open spec fn file_scheme_bytes() -> Seq<u8> {
    seq![102u8, 105u8, 108u8, 101u8, 58u8, 47u8, 47u8]
}

/// Percent-decoding of a URI path: a `%` followed by two hexadecimal digits becomes one byte;
/// every other byte, including a `%` that does not start such an escape, is kept.
pub open spec fn uri_path_decode(b: Seq<u8>) -> Seq<u8>
    decreases b.len(),
{
    if b.len() == 0 {
        Seq::empty()
    } else if b.len() >= 3 && b[0] == 37u8 && hex_pair(b[1], b[2]) is Some {
        seq![hex_pair(b[1], b[2])->0] + uri_path_decode(b.skip(3))
    } else {
        seq![b[0]] + uri_path_decode(b.skip(1))
    }
}

/// Compact display of a location: a `file://` location shows its decoded path, any other
/// location shows unchanged.
pub open spec fn spec_display_compact(value: Seq<char>) -> Seq<char> {
    let bytes = vstd::utf8::encode_utf8(value);
    if bytes.len() >= 7 && bytes.take(7) == file_scheme_bytes() {
        crate::text::utf8_lossy(uri_path_decode(bytes.skip(7)))
    } else {
        value
    }
}

/// Decodes percent escapes of a byte sequence, starting at `start`.
pub fn decode_uri_bytes(bytes: &[u8], start: usize) -> (r: Vec<u8>)
    requires
        start <= bytes@.len(),
    ensures
        r@ == uri_path_decode(bytes@.skip(start as int)),
{
    let mut decoded: Vec<u8> = Vec::new();
    let mut index = start;
    while index < bytes.len()
        invariant
            start <= index <= bytes@.len(),
            decoded@ + uri_path_decode(bytes@.skip(index as int)) == uri_path_decode(
                bytes@.skip(start as int),
            ),
        decreases bytes@.len() - index,
    {
        let rest = Ghost(bytes@.skip(index as int));
        if bytes[index] == 37u8 && bytes.len() - index > 2 {
            match crate::text::parse_hex_pair(bytes[index + 1], bytes[index + 2]) {
                Some(value) => {
                    decoded.push(value);
                    index = index + 3;
                    assert(rest@.skip(3) =~= bytes@.skip(index as int));
                    assert(decoded@ + uri_path_decode(bytes@.skip(index as int)) =~= (decoded@.drop_last() + (seq![value] + uri_path_decode(rest@.skip(3)))));
                    continue;
                },
                None => {},
            }
        }
        decoded.push(bytes[index]);
        index = index + 1;
        assert(rest@.skip(1) =~= bytes@.skip(index as int));
        assert(decoded@ + uri_path_decode(bytes@.skip(index as int)) =~= (decoded@.drop_last() + (seq![rest@[0]] + uri_path_decode(rest@.skip(1)))));
    }
    assert(bytes@.skip(index as int) =~= Seq::<u8>::empty());
    assert(decoded@ =~= decoded@ + Seq::<u8>::empty());
    decoded
}

/// Whether a byte sequence begins with the given prefix.
pub fn bytes_start_with(bytes: &[u8], prefix: &[u8]) -> (r: bool)
    ensures
        r == (prefix@.len() <= bytes@.len() && bytes@.take(prefix@.len() as int) == prefix@),
{
    if prefix.len() > bytes.len() {
        return false;
    }
    let mut i: usize = 0;
    while i < prefix.len()
        invariant
            prefix@.len() <= bytes@.len(),
            i <= prefix@.len(),
            forall|j: int| 0 <= j < i ==> bytes@[j] == prefix@[j],
        decreases prefix@.len() - i,
    {
        if bytes[i] != prefix[i] {
            assert(bytes@.take(prefix@.len() as int)[i as int] != prefix@[i as int]);
            return false;
        }
        i = i + 1;
    }
    assert(bytes@.take(prefix@.len() as int) =~= prefix@);
    true
}

impl Location {
    /// A location holding exactly `value`.
    pub fn new(value: &str) -> (r: Self)
        ensures
            r@ == value@,
    {
        Location { value: value.to_owned() }
    }

    /// A location taking ownership of `value`.
    pub fn from_string(value: String) -> (r: Self)
        ensures
            r@ == value@,
    {
        Location { value }
    }

    /// The location text.
    pub fn as_str(&self) -> (r: &str)
        ensures
            r@ == self@,
    {
        self.value.as_str()
    }

    /// Location equality by text.
    pub fn same(&self, other: &Self) -> (r: bool)
        ensures
            r == (self@ == other@),
    {
        self.value == other.value
    }

    /// The location for display: local `file://` paths are shown decoded, other locations
    /// unchanged.
    pub fn display_compact(&self) -> (r: String)
        ensures
            r@ == spec_display_compact(self@),
    {
        let bytes = self.value.as_str().as_bytes();
        let prefix: [u8; 7] = [102u8, 105u8, 108u8, 101u8, 58u8, 47u8, 47u8];
        assert(prefix@ =~= file_scheme_bytes());
        if bytes_start_with(bytes, &prefix) {
            let decoded = decode_uri_bytes(bytes, 7);
            crate::text::string_from_utf8_lossy(decoded.as_slice())
        } else {
            self.value.clone()
        }
    }
}

/// A resource: a provider and a location that it owns.
#[derive(Debug, PartialEq, Eq)]
pub struct ResourceRef {
    pub provider: ProviderId,
    pub location: Location,
}

impl Clone for ResourceRef {
    fn clone(&self) -> (r: Self)
        ensures
            r == *self,
    {
        ResourceRef { provider: self.provider.clone(), location: self.location.clone() }
    }
}

impl ResourceRef {
    /// The displayed form `provider:location`.
    pub fn display(&self) -> (r: String)
        ensures
            r@ == self.provider@ + seq![':'] + self.location@,
    {
        let mut r = self.provider.as_str().to_owned();
        crate::text::push_char(&mut r, ':');
        crate::text::push_str(&mut r, self.location.as_str());
        r
    }
}

/// A provider-scoped durable identity of a resource.
#[derive(Debug, PartialEq, Eq, PartialOrd, Ord, Hash)]
pub struct ResourceIdentity {
    provider: ProviderId,
    stable_id: String,
}

impl Clone for ResourceIdentity {
    fn clone(&self) -> (r: Self)
        ensures
            r == *self,
    {
        ResourceIdentity { provider: self.provider.clone(), stable_id: self.stable_id.clone() }
    }
}

impl ResourceIdentity {
    pub closed spec fn spec_provider(&self) -> ProviderId {
        self.provider
    }

    pub closed spec fn spec_stable_id(&self) -> Seq<char> {
        self.stable_id@
    }

    pub fn new(provider: ProviderId, stable_id: &str) -> (r: Self)
        ensures
            r.spec_provider() == provider,
            r.spec_stable_id() == stable_id@,
    {
        ResourceIdentity { provider, stable_id: stable_id.to_owned() }
    }

    pub fn provider(&self) -> (r: &ProviderId)
        ensures
            *r == self.spec_provider(),
    {
        &self.provider
    }

    pub fn stable_id(&self) -> (r: &str)
        ensures
            r@ == self.spec_stable_id(),
    {
        self.stable_id.as_str()
    }
}

#[derive(Clone, Copy, Debug, PartialEq, Eq, Structural)]
#[non_exhaustive]
pub enum ResourceKind {
    File,
    Directory,
    Package,
    Symlink,
    Virtual,
    Other,
}

impl Default for ResourceKind {
    fn default() -> (r: Self)
        ensures
            r == ResourceKind::Other,
    {
        ResourceKind::Other
    }
}

#[derive(Clone, Copy, Debug, PartialEq, Eq, Structural)]
#[non_exhaustive]
pub enum ResourceClassification {
    Ordinary,
    FilesystemRoot,
    MountRoot,
    ProviderRoot,
    VirtualRoot,
    RemovableDevice,
    Symlink,
    UnsupportedSpecial,
}

#[derive(Clone, Copy, Debug, PartialEq, Eq, Structural)]
#[non_exhaustive]
pub enum MutationKind {
    Trash,
    Delete,
    Wipe,
}

#[derive(Clone, Copy, Debug, PartialEq, Eq, Structural)]
#[non_exhaustive]
pub enum MutationAlternative {
    Eject,
    Unmount,
    Disconnect,
}

/// Why a mutation is refused, and what the user may do instead.
#[derive(Debug, PartialEq, Eq)]
pub struct MutationDenial {
    pub reason: String,
    pub alternative: Option<MutationAlternative>,
}

impl Clone for MutationDenial {
    fn clone(&self) -> (r: Self)
        ensures
            r == *self,
    {
        MutationDenial { reason: self.reason.clone(), alternative: self.alternative }
    }
}

#[derive(Debug, PartialEq, Eq)]
pub enum MutationEligibility {
    Allowed,
    Denied(MutationDenial),
}

impl MutationEligibility {
    pub fn is_allowed(&self) -> (r: bool)
        ensures
            r == (*self is Allowed),
    {
        match self {
            MutationEligibility::Allowed => true,
            MutationEligibility::Denied(_) => false,
        }
    }

    pub fn denial(&self) -> (r: Option<&MutationDenial>)
        ensures
            match *self {
                MutationEligibility::Allowed => r is None,
                MutationEligibility::Denied(d) => r == Some(&d),
            },
    {
        match self {
            MutationEligibility::Allowed => None,
            MutationEligibility::Denied(denial) => Some(denial),
        }
    }
}

#[derive(Debug, PartialEq, Eq)]
pub struct PermissionSummary {
    pub unix_mode: Option<u32>,
    pub readonly: bool,
    pub executable: bool,
}

#[derive(Debug, PartialEq, Eq)]
pub struct OwnerSummary {
    pub user_id: Option<u32>,
    pub group_id: Option<u32>,
    pub user_name: Option<String>,
    pub group_name: Option<String>,
}

/// A typed provider-specific metadata value.
#[derive(Debug, PartialEq, Eq)]
pub enum MetadataValue {
    Boolean(bool),
    Integer(i64),
    String(String),
    Strings(Vec<String>),
    Bytes(Vec<u8>),
}

/// Metadata a provider reports for one resource.
pub struct ResourceMetadata {
    pub name: String,
    pub kind: ResourceKind,
    pub size: Option<u64>,
    pub modified_unix_ms: Option<i64>,
    pub created_unix_ms: Option<i64>,
    pub accessed_unix_ms: Option<i64>,
    pub stable_id: Option<String>,
    pub permissions: Option<PermissionSummary>,
    pub owner: Option<OwnerSummary>,
    pub hidden: Option<bool>,
    pub link_target: Option<Location>,
    pub extensions: StrMap<MetadataValue>,
    pub field_errors: StrMap<String>,
}

impl Default for ResourceMetadata {
    fn default() -> (r: Self)
        ensures
            r.name@ == Seq::<char>::empty(),
            r.kind == ResourceKind::Other,
            r.size is None,
            r.modified_unix_ms is None,
            r.created_unix_ms is None,
            r.accessed_unix_ms is None,
            r.stable_id is None,
            r.permissions is None,
            r.owner is None,
            r.hidden is None,
            r.link_target is None,
            r.extensions.size() == 0,
            r.field_errors.size() == 0,
    {
        ResourceMetadata {
            name: String::new(),
            kind: ResourceKind::Other,
            size: None,
            modified_unix_ms: None,
            created_unix_ms: None,
            accessed_unix_ms: None,
            stable_id: None,
            permissions: None,
            owner: None,
            hidden: None,
            link_target: None,
            extensions: StrMap::new(),
            field_errors: StrMap::new(),
        }
    }
}

impl ResourceMetadata {
    /// Returns provider-scoped durable identity when the provider supplied one.
    ///
    /// Locations and display names are deliberately excluded because either may change while the
    /// underlying resource remains the same.
    pub fn identity_for(&self, resource: &ResourceRef) -> (r: Option<ResourceIdentity>)
        ensures
            match self.stable_id {
                None => r is None,
                Some(id) => r matches Some(identity) && identity.spec_provider()
                    == resource.provider && identity.spec_stable_id() == id@,
            },
    {
        match &self.stable_id {
            None => None,
            Some(stable_id) => Some(
                ResourceIdentity::new(resource.provider.clone(), stable_id.as_str()),
            ),
        }
    }
}

/// The set of capabilities a resource, surface or location offers.
#[derive(Debug, PartialEq, Eq)]
pub struct CapabilitySet {
    items: StrMap<CapabilityId>,
}

impl Clone for CapabilitySet {
    fn clone(&self) -> (r: Self)
        ensures
            r.spec_set() == self.spec_set(),
    {
        self.duplicate()
    }
}

impl CapabilitySet {
    /// Capabilities held, as texts.
    pub closed spec fn spec_set(&self) -> Set<Seq<char>> {
        self.items.keys().to_set()
    }

    #[verifier::type_invariant]
    closed spec fn wf(&self) -> bool {
        forall|i: int|
            0 <= i < self.items.keys().len() ==> (#[trigger] self.items.values()[i])@
                == self.items.keys()[i]
    }

    /// Number of capabilities held.
    pub closed spec fn spec_len(&self) -> nat {
        self.items.keys().len()
    }

    /// A copy of the set.
    pub fn duplicate(&self) -> (r: Self)
        ensures
            r.spec_set() == self.spec_set(),
    {
        proof {
            use_type_invariant(self);
        }
        let items = self.items.clone();
        proof {
            self.items.lemma_lengths();
            items.lemma_lengths();
            assert forall|i: int| 0 <= i < items.keys().len() implies (#[trigger] items.values()[i])@
                == items.keys()[i] by {
                assert(cloned::<CapabilityId>(self.items.values()[i], items.values()[i]));
                assert(items.values()[i] == self.items.values()[i]);
            }
        }
        CapabilitySet { items }
    }

    pub fn new() -> (r: Self)
        ensures
            r.spec_set() == Set::<Seq<char>>::empty(),
    {
        let r = CapabilitySet { items: StrMap::new() };
        assert(r.items.keys().to_set() =~= Set::<Seq<char>>::empty());
        r
    }

    /// Adds a capability; returns whether it was newly added.
    pub fn insert(&mut self, capability: CapabilityId) -> (r: bool)
        ensures
            final(self).spec_set() == old(self).spec_set().insert(capability@),
            r == !old(self).spec_set().contains(capability@),
    {
        proof {
            use_type_invariant(&*self);
        }
        let key = capability.as_str().to_owned();
        let mut items = StrMap::new();
        std::mem::swap(&mut items, &mut self.items);
        let ghost old_items = items;
        proof {
            use_type_invariant(&items);
        }
        let previous = items.insert(key, capability);
        proof {
            use_type_invariant(&items);
            let nk = items.keys();
            assert(items.keys().to_set() =~= old_items.keys().to_set().insert(capability@)) by {
                assert forall|k: Seq<char>| items.keys().to_set().contains(k) == old_items.keys().to_set().insert(capability@).contains(k) by {
                    seq_to_set_contains(nk, k);
                    seq_to_set_contains(old_items.keys(), k);
                }
            }
            assert forall|i: int| 0 <= i < nk.len() implies (#[trigger] items.values()[i])@
                == nk[i] by {
                crate::strmap::lemma_index_of_sorted(nk, i);
                if nk[i] == capability@ {
                } else {
                    let k = nk[i];
                    assert(old_items.keys().contains(k));
                    let t = old_items.keys().index_of(k);
                    crate::strmap::lemma_index_of_sorted(old_items.keys(), t);
                }
            }
            seq_to_set_contains(old_items.keys(), capability@);
        }
        self.items = items;
        match previous {
            Some(_) => false,
            None => true,
        }
    }

    /// Whether the capability is held.
    pub fn contains(&self, capability: &CapabilityId) -> (r: bool)
        ensures
            r == self.spec_set().contains(capability@),
    {
        proof {
            use_type_invariant(self);
            seq_to_set_contains(self.items.keys(), capability@);
        }
        self.items.contains_key(capability.as_str())
    }

    /// The capabilities held, in increasing order.
    pub fn iter(&self) -> (r: Vec<CapabilityId>)
        ensures
            r@.len() == self.spec_len(),
            forall|k: Seq<char>|
                self.spec_set().contains(k) <==> exists|i: int| 0 <= i < r@.len() && (#[trigger] r@[i])@ == k,
    {
        proof {
            use_type_invariant(self);
        }
        let mut out: Vec<CapabilityId> = Vec::new();
        let mut i: usize = 0;
        while i < self.items.len()
            invariant
                self.wf(),
                i <= self.items.keys().len(),
                out@.len() == i,
                forall|j: int| 0 <= j < i ==> (#[trigger] out@[j])@ == self.items.keys()[j],
            decreases self.items.keys().len() - i,
        {
            out.push(self.items.value_at(i).clone());
            i = i + 1;
        }
        proof {
            assert forall|k: Seq<char>|
                self.spec_set().contains(k) <==> exists|j: int| 0 <= j < out@.len() && (#[trigger] out@[j])@ == k by {
                seq_to_set_contains(self.items.keys(), k);
                if self.spec_set().contains(k) {
                    let j = self.items.keys().index_of(k);
                    assert(out@[j]@ == k);
                }
            }
        }
        out
    }
}

proof fn seq_to_set_contains(s: Seq<Seq<char>>, k: Seq<char>)
    ensures
        s.to_set().contains(k) == s.contains(k),
{
    if s.contains(k) {
        let i = choose|i: int| 0 <= i < s.len() && s[i] == k;
        assert(s.to_set().contains(s[i]));
    }
}

} // verus!
