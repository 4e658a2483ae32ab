//! Semantic commands: descriptors, typed arguments and invocation contexts.

use vstd::prelude::*;

use crate::ids::{CommandId, SurfaceId};
use crate::resource::{CapabilitySet, Location, ResourceRef};
use crate::strmap::StrMap;

verus! {

broadcast use vstd::string::group_string_axioms;

/// A typed command argument value. A floating-point value is carried as the bits of its
/// IEEE 754 double.
#[derive(Debug, PartialEq)]
pub enum CommandValue {
    Boolean(bool),
    Integer(i64),
    Float(u64),
    String(String),
    Array(Vec<CommandValue>),
    Table(StrMap<CommandValue>),
}

/// Value of a decimal digit character.
pub open spec fn digit_value(c: char) -> int {
    (c as int) - 48
}

pub open spec fn is_digit(c: char) -> bool {
    '0' <= c && c <= '9'
}

/// Value of a sequence of decimal digits.
pub open spec fn digits_value(s: Seq<char>) -> int
    decreases s.len(),
{
    if s.len() == 0 {
        0
    } else {
        digits_value(s.drop_last()) * 10 + digit_value(s.last())
    }
}

/// What `str::parse::<i64>` yields: an optional sign followed by at least one decimal digit,
/// within the range of `i64`.
pub open spec fn sign_len(s: Seq<char>) -> int {
    if s.len() > 0 && (s[0] == '-' || s[0] == '+') {
        1
    } else {
        0
    }
}

pub open spec fn all_digits(d: Seq<char>) -> bool {
    forall|i: int| 0 <= i < d.len() ==> is_digit(d[i])
}

pub open spec fn spec_parse_i64(s: Seq<char>) -> Option<i64> {
    let negative = s.len() > 0 && s[0] == '-';
    let digits = s.skip(sign_len(s));
    if digits.len() == 0 || !all_digits(digits) {
        None
    } else {
        let v = if negative {
            -digits_value(digits)
        } else {
            digits_value(digits)
        };
        if i64::MIN <= v <= i64::MAX {
            Some(v as i64)
        } else {
            None
        }
    }
}

/// Parses a decimal `i64` as `str::parse` does.
pub fn parse_i64(text: &str) -> (r: Option<i64>)
    ensures
        r == spec_parse_i64(text@),
{
    let s = crate::text::chars_of(text);
    if s.len() == 0 {
        return None;
    }
    let negative = s[0] == '-';
    let signed = s[0] == '-' || s[0] == '+';
    let start: usize = if signed {
        1
    } else {
        0
    };
    let ghost digits = s@.skip(start as int);
    assert(start == 0 ==> digits =~= s@);
    if start == s.len() {
        assert(digits.len() == 0);
        return None;
    }
    let mut i = start;
    let mut mag: u64 = 0;
    while i < s.len()
        invariant
            start <= i <= s@.len(),
            start == 0 || start == 1,
            signed <==> start == 1,
            s@ == text@,
            s@.len() > 0,
            negative == (s@[0] == '-'),
            signed == (s@[0] == '-' || s@[0] == '+'),
            start == sign_len(s@),
            digits == s@.skip(start as int),
            forall|j: int| 0 <= j < i - start ==> is_digit(digits[j]),
            mag == digits_value(digits.take(i - start)),
            mag <= 9223372036854775808u64,
        decreases s@.len() - i,
    {
        let c = s[i];
        if !('0' <= c && c <= '9') {
            assert(!is_digit(digits[i - start]));
            assert(!all_digits(digits));
            return None;
        }
        let d: u64 = (c as u32 - 48) as u64;
        assert(digits.take(i + 1 - start).drop_last() =~= digits.take(i - start));
        assert(digits.take(i + 1 - start).last() == c);
        let next: u128 = (mag as u128) * 10 + (d as u128);
        if next > 9223372036854775808u128 {
            proof {
                if all_digits(digits) {
                    lemma_digits_monotone(digits, i + 1 - start);
                }
            }
            return None;
        }
        mag = next as u64;
        i = i + 1;
    }
    assert(digits.take(s@.len() - start) =~= digits);
    if negative {
        if mag == 9223372036854775808u64 {
            Some(i64::MIN)
        } else {
            Some(-(mag as i64))
        }
    } else if mag <= 9223372036854775807u64 {
        Some(mag as i64)
    } else {
        None
    }
}

/// What `str::parse::<usize>` yields: an optional `+` followed by at least one decimal
/// digit, within the range of `usize`.
pub open spec fn spec_parse_usize(s: Seq<char>) -> Option<usize> {
    let digits = if s.len() > 0 && s[0] == '+' {
        s.drop_first()
    } else {
        s
    };
    if digits.len() == 0 || !all_digits(digits) || digits_value(digits) > usize::MAX {
        None
    } else {
        Some(digits_value(digits) as usize)
    }
}

/// Parses a decimal `usize` as `str::parse` does.
pub fn parse_usize(text: &str) -> (r: Option<usize>)
    ensures
        r == spec_parse_usize(text@),
{
    let s = crate::text::chars_of(text);
    let start: usize = if s.len() > 0 && s[0] == '+' {
        1
    } else {
        0
    };
    let ghost digits = s@.skip(start as int);
    assert(start == 0 ==> digits =~= s@);
    assert(start == 1 ==> digits =~= s@.drop_first());
    if start == s.len() {
        assert(digits.len() == 0);
        return None;
    }
    let mut i = start;
    let mut mag: u128 = 0;
    while i < s.len()
        invariant
            start <= i <= s@.len(),
            s@ == text@,
            digits == s@.skip(start as int),
            digits == (if s@.len() > 0 && s@[0] == '+' {
                s@.drop_first()
            } else {
                s@
            }),
            forall|j: int| 0 <= j < i - start ==> is_digit(digits[j]),
            mag == digits_value(digits.take(i - start)),
            mag <= usize::MAX,
        decreases s@.len() - i,
    {
        let c = s[i];
        if !('0' <= c && c <= '9') {
            assert(!is_digit(digits[i - start]));
            assert(!all_digits(digits));
            return None;
        }
        let d: u128 = (c as u32 - 48) as u128;
        assert(digits.take(i + 1 - start).drop_last() =~= digits.take(i - start));
        assert(digits.take(i + 1 - start).last() == c);
        let next: u128 = mag * 10 + d;
        if next > usize::MAX as u128 {
            proof {
                if all_digits(digits) {
                    lemma_digits_monotone(digits, i + 1 - start);
                }
            }
            return None;
        }
        mag = next;
        i = i + 1;
    }
    assert(digits.take(s@.len() - start) =~= digits);
    Some(mag as usize)
}

/// Once a digit prefix is out of range, so is every longer digit sequence.
proof fn lemma_digits_monotone(digits: Seq<char>, k: int)
    requires
        0 <= k <= digits.len(),
        forall|j: int| 0 <= j < digits.len() ==> is_digit(digits[j]),
    ensures
        digits_value(digits.take(k)) <= digits_value(digits),
    decreases digits.len() - k,
{
    if k < digits.len() {
        lemma_digits_monotone(digits, k + 1);
        assert(digits.take(k + 1).drop_last() =~= digits.take(k));
        lemma_digits_nonneg(digits.take(k));
    } else {
        assert(digits.take(k) =~= digits);
    }
}

proof fn lemma_digits_nonneg(s: Seq<char>)
    requires
        forall|j: int| 0 <= j < s.len() ==> is_digit(s[j]),
    ensures
        digits_value(s) >= 0,
    decreases s.len(),
{
    if s.len() > 0 {
        lemma_digits_nonneg(s.drop_last());
    }
}

impl CommandValue {
    /// The value as an integer: an integer, or a string that parses as one.
    pub fn as_i64(&self) -> (r: Option<i64>)
        ensures
            match *self {
                CommandValue::Integer(v) => r == Some(v),
                CommandValue::String(s) => r == spec_parse_i64(s@),
                _ => r is None,
            },
    {
        match self {
            CommandValue::Integer(value) => Some(*value),
            CommandValue::String(value) => parse_i64(value.as_str()),
            _ => None,
        }
    }

    /// The value as text, for string values.
    pub fn as_str(&self) -> (r: Option<&str>)
        ensures
            match *self {
                CommandValue::String(s) => r matches Some(t) && t@ == s@,
                _ => r is None,
            },
    {
        match self {
            CommandValue::String(value) => Some(value.as_str()),
            _ => None,
        }
    }
}

#[derive(Clone, Copy, Debug, PartialEq, Eq, Structural)]
pub enum ArgumentKind {
    Boolean,
    Integer,
    Float,
    String,
    Array,
    Table,
}

#[derive(Debug, PartialEq)]
pub struct ArgumentSchema {
    pub kind: ArgumentKind,
    pub required: bool,
    pub description: String,
    pub default: Option<CommandValue>,
}

#[derive(Clone, Copy, Debug, PartialEq, Eq, Structural)]
#[non_exhaustive]
pub enum SafetyClass {
    ReadOnly,
    Reversible,
    Confirmable,
    Destructive,
    Privileged,
}

/// A semantic command with its typed arguments.
pub struct CommandDescriptor {
    pub id: CommandId,
    pub title: String,
    pub description: String,
    pub category: Vec<String>,
    pub safety: SafetyClass,
    pub arguments: StrMap<ArgumentSchema>,
}

impl CommandDescriptor {
    /// Whether the command can run without arguments: no argument is required.
    pub fn invokable_without_arguments(&self) -> (r: bool)
        ensures
            r == forall|i: int|
                0 <= i < self.arguments.values().len() ==> !(#[trigger] self.arguments.values()[i]).required,
    {
        let mut i: usize = 0;
        while i < self.arguments.len()
            invariant
                i <= self.arguments.values().len(),
                forall|j: int| 0 <= j < i ==> !(#[trigger] self.arguments.values()[j]).required,
            decreases self.arguments.values().len() - i,
        {
            if self.arguments.value_at(i).required {
                return false;
            }
            i = i + 1;
        }
        true
    }
}

#[derive(Debug, PartialEq, Eq)]
pub enum Availability {
    Available,
    Unavailable { reason: String },
}

impl Availability {
    pub fn is_available(&self) -> (r: bool)
        ensures
            r == (*self is Available),
    {
        match self {
            Availability::Available => true,
            Availability::Unavailable { .. } => false,
        }
    }
}

/// A semantic command invocation with named arguments.
#[derive(Debug, PartialEq)]
pub struct CommandInvocation {
    pub id: CommandId,
    pub arguments: StrMap<CommandValue>,
}

impl CommandInvocation {
    pub fn new(id: CommandId) -> (r: Self)
        ensures
            r.id == id,
            r.arguments.size() == 0,
    {
        CommandInvocation { id, arguments: StrMap::new() }
    }
}

/// What a command sees of the interaction state when it runs.
#[derive(Clone, Debug, PartialEq, Eq)]
pub struct ActionContext {
    pub focused_surface: Option<SurfaceId>,
    pub peer_surface: Option<SurfaceId>,
    pub current: Option<ResourceRef>,
    pub selected: Vec<ResourceRef>,
    pub location: Option<Location>,
    pub peer_location: Option<Location>,
    pub capabilities: CapabilitySet,
    pub peer_capabilities: CapabilitySet,
}

impl Default for ActionContext {
    fn default() -> (r: Self)
        ensures
            r.focused_surface is None,
            r.peer_surface is None,
            r.current is None,
            r.selected@.len() == 0,
            r.location is None,
            r.peer_location is None,
            r.capabilities.spec_set() == Set::<Seq<char>>::empty(),
            r.peer_capabilities.spec_set() == Set::<Seq<char>>::empty(),
    {
        ActionContext {
            focused_surface: None,
            peer_surface: None,
            current: None,
            selected: Vec::new(),
            location: None,
            peer_location: None,
            capabilities: CapabilitySet::new(),
            peer_capabilities: CapabilitySet::new(),
        }
    }
}

} // verus!
