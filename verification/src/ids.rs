//! String identifiers used across the domain contracts.

use vstd::prelude::*;

verus! {

/// Stable identifier of a capability a resource or surface offers.
#[derive(Debug, PartialEq, Eq, PartialOrd, Ord, Hash)]
pub struct CapabilityId {
    value: String,
}

impl View for CapabilityId {
    type V = Seq<char>;

    closed spec fn view(&self) -> Seq<char> {
        self.value@
    }
}

impl CapabilityId {
    /// Creates an identifier holding exactly `value`.
    pub fn new(value: &str) -> (r: Self)
        ensures
            r@ == value@,
    {
        CapabilityId { value: value.to_owned() }
    }

    /// Creates an identifier that takes ownership of `value`.
    pub fn from_string(value: String) -> (r: Self)
        ensures
            r@ == value@,
    {
        CapabilityId { value }
    }

    /// The identifier text.
    pub fn as_str(&self) -> (r: &str)
        ensures
            r@ == self@,
    {
        self.value.as_str()
    }

    /// Identifier equality by text.
    pub fn same(&self, other: &Self) -> (r: bool)
        ensures
            r == (self@ == other@),
    {
        self.value == other.value
    }
}

impl Clone for CapabilityId {
    fn clone(&self) -> (r: Self)
        ensures
            r == *self,
    {
        CapabilityId { value: self.value.clone() }
    }
}


/// Stable identifier of a semantic command.
#[derive(Debug, PartialEq, Eq, PartialOrd, Ord, Hash)]
pub struct CommandId {
    value: String,
}

impl View for CommandId {
    type V = Seq<char>;

    closed spec fn view(&self) -> Seq<char> {
        self.value@
    }
}

impl CommandId {
    /// Creates an identifier holding exactly `value`.
    pub fn new(value: &str) -> (r: Self)
        ensures
            r@ == value@,
    {
        CommandId { value: value.to_owned() }
    }

    /// Creates an identifier that takes ownership of `value`.
    pub fn from_string(value: String) -> (r: Self)
        ensures
            r@ == value@,
    {
        CommandId { value }
    }

    /// The identifier text.
    pub fn as_str(&self) -> (r: &str)
        ensures
            r@ == self@,
    {
        self.value.as_str()
    }

    /// Identifier equality by text.
    pub fn same(&self, other: &Self) -> (r: bool)
        ensures
            r == (self@ == other@),
    {
        self.value == other.value
    }
}

impl Clone for CommandId {
    fn clone(&self) -> (r: Self)
        ensures
            r == *self,
    {
        CommandId { value: self.value.clone() }
    }
}


/// Stable identifier of an interaction context.
#[derive(Debug, PartialEq, Eq, PartialOrd, Ord, Hash)]
pub struct ContextId {
    value: String,
}

impl View for ContextId {
    type V = Seq<char>;

    closed spec fn view(&self) -> Seq<char> {
        self.value@
    }
}

impl ContextId {
    /// Creates an identifier holding exactly `value`.
    pub fn new(value: &str) -> (r: Self)
        ensures
            r@ == value@,
    {
        ContextId { value: value.to_owned() }
    }

    /// Creates an identifier that takes ownership of `value`.
    pub fn from_string(value: String) -> (r: Self)
        ensures
            r@ == value@,
    {
        ContextId { value }
    }

    /// The identifier text.
    pub fn as_str(&self) -> (r: &str)
        ensures
            r@ == self@,
    {
        self.value.as_str()
    }

    /// Identifier equality by text.
    pub fn same(&self, other: &Self) -> (r: bool)
        ensures
            r == (self@ == other@),
    {
        self.value == other.value
    }
}

impl Clone for ContextId {
    fn clone(&self) -> (r: Self)
        ensures
            r == *self,
    {
        ContextId { value: self.value.clone() }
    }
}


/// Stable identifier of a recorded operation plan.
#[derive(Debug, PartialEq, Eq, PartialOrd, Ord, Hash)]
pub struct OperationId {
    value: String,
}

impl View for OperationId {
    type V = Seq<char>;

    closed spec fn view(&self) -> Seq<char> {
        self.value@
    }
}

impl OperationId {
    /// Creates an identifier holding exactly `value`.
    pub fn new(value: &str) -> (r: Self)
        ensures
            r@ == value@,
    {
        OperationId { value: value.to_owned() }
    }

    /// Creates an identifier that takes ownership of `value`.
    pub fn from_string(value: String) -> (r: Self)
        ensures
            r@ == value@,
    {
        OperationId { value }
    }

    /// The identifier text.
    pub fn as_str(&self) -> (r: &str)
        ensures
            r@ == self@,
    {
        self.value.as_str()
    }

    /// Identifier equality by text.
    pub fn same(&self, other: &Self) -> (r: bool)
        ensures
            r == (self@ == other@),
    {
        self.value == other.value
    }
}

impl Clone for OperationId {
    fn clone(&self) -> (r: Self)
        ensures
            r == *self,
    {
        OperationId { value: self.value.clone() }
    }
}


/// Stable identifier of a resource provider.
#[derive(Debug, PartialEq, Eq, PartialOrd, Ord, Hash)]
pub struct ProviderId {
    value: String,
}

impl View for ProviderId {
    type V = Seq<char>;

    closed spec fn view(&self) -> Seq<char> {
        self.value@
    }
}

impl ProviderId {
    /// Creates an identifier holding exactly `value`.
    pub fn new(value: &str) -> (r: Self)
        ensures
            r@ == value@,
    {
        ProviderId { value: value.to_owned() }
    }

    /// Creates an identifier that takes ownership of `value`.
    pub fn from_string(value: String) -> (r: Self)
        ensures
            r@ == value@,
    {
        ProviderId { value }
    }

    /// The identifier text.
    pub fn as_str(&self) -> (r: &str)
        ensures
            r@ == self@,
    {
        self.value.as_str()
    }

    /// Identifier equality by text.
    pub fn same(&self, other: &Self) -> (r: bool)
        ensures
            r == (self@ == other@),
    {
        self.value == other.value
    }
}

impl Clone for ProviderId {
    fn clone(&self) -> (r: Self)
        ensures
            r == *self,
    {
        ProviderId { value: self.value.clone() }
    }
}


/// Stable identifier of a surface role.
#[derive(Debug, PartialEq, Eq, PartialOrd, Ord, Hash)]
pub struct RoleId {
    value: String,
}

impl View for RoleId {
    type V = Seq<char>;

    closed spec fn view(&self) -> Seq<char> {
        self.value@
    }
}

impl RoleId {
    /// Creates an identifier holding exactly `value`.
    pub fn new(value: &str) -> (r: Self)
        ensures
            r@ == value@,
    {
        RoleId { value: value.to_owned() }
    }

    /// Creates an identifier that takes ownership of `value`.
    pub fn from_string(value: String) -> (r: Self)
        ensures
            r@ == value@,
    {
        RoleId { value }
    }

    /// The identifier text.
    pub fn as_str(&self) -> (r: &str)
        ensures
            r@ == self@,
    {
        self.value.as_str()
    }

    /// Identifier equality by text.
    pub fn same(&self, other: &Self) -> (r: bool)
        ensures
            r == (self@ == other@),
    {
        self.value == other.value
    }
}

impl Clone for RoleId {
    fn clone(&self) -> (r: Self)
        ensures
            r == *self,
    {
        RoleId { value: self.value.clone() }
    }
}


/// Stable identifier of a surface.
#[derive(Debug, PartialEq, Eq, PartialOrd, Ord, Hash)]
pub struct SurfaceId {
    value: String,
}

impl View for SurfaceId {
    type V = Seq<char>;

    closed spec fn view(&self) -> Seq<char> {
        self.value@
    }
}

impl SurfaceId {
    /// Creates an identifier holding exactly `value`.
    pub fn new(value: &str) -> (r: Self)
        ensures
            r@ == value@,
    {
        SurfaceId { value: value.to_owned() }
    }

    /// Creates an identifier that takes ownership of `value`.
    pub fn from_string(value: String) -> (r: Self)
        ensures
            r@ == value@,
    {
        SurfaceId { value }
    }

    /// The identifier text.
    pub fn as_str(&self) -> (r: &str)
        ensures
            r@ == self@,
    {
        self.value.as_str()
    }

    /// Identifier equality by text.
    pub fn same(&self, other: &Self) -> (r: bool)
        ensures
            r == (self@ == other@),
    {
        self.value == other.value
    }
}

impl Clone for SurfaceId {
    fn clone(&self) -> (r: Self)
        ensures
            r == *self,
    {
        SurfaceId { value: self.value.clone() }
    }
}


} // verus!
