//! A diagnostic trace of commands, tasks, provider calls and operations, correlated by
//! identifiers, whose sensitive fields are redacted before they are recorded.

use vstd::prelude::*;

use crate::strmap::StrMap;
use crate::text::{chars_of, lower_chars, occurs_at, spec_lower};

verus! {

broadcast use vstd::string::group_string_axioms;

/// Correlates the events of one command, task or call.
#[derive(Clone, Copy, Debug, Eq, Hash, Ord, PartialEq, PartialOrd, Structural)]
pub struct CorrelationId(pub u64);

#[derive(Clone, Copy, Debug, Eq, PartialEq, Structural)]
#[non_exhaustive]
pub enum DiagnosticDomain {
    Command,
    Task,
    Provider,
    Operation,
    Plugin,
    Terminal,
}

#[derive(Clone, Copy, Debug, Eq, PartialEq, Structural)]
#[non_exhaustive]
pub enum DiagnosticPhase {
    Started,
    Completed,
    Failed,
    Cancelled,
    Info,
}

/// One traced event.
#[derive(Debug, PartialEq, Eq)]
pub struct DiagnosticEvent {
    pub correlation: CorrelationId,
    pub parent: Option<CorrelationId>,
    pub domain: DiagnosticDomain,
    pub phase: DiagnosticPhase,
    pub name: String,
    pub fields: StrMap<String>,
}

/// The fields of an event as texts, by key.
pub open spec fn field_texts(fields: StrMap<String>) -> Map<Seq<char>, Seq<char>> {
    Map::new(|k: Seq<char>| fields.map().contains_key(k), |k: Seq<char>| fields.map()[k]@)
}

impl DiagnosticEvent {
    /// A copy of the event.
    pub fn duplicate(&self) -> (r: Self)
        ensures
            r.correlation == self.correlation,
            r.parent == self.parent,
            r.domain == self.domain,
            r.phase == self.phase,
            r.name@ == self.name@,
            field_texts(r.fields) == field_texts(self.fields),
    {
        let fields = self.fields.duplicate();
        proof {
            fields.lemma_lengths();
            self.fields.lemma_lengths();
            assert(field_texts(fields) =~= field_texts(self.fields));
        }
        DiagnosticEvent {
            correlation: self.correlation,
            parent: self.parent,
            domain: self.domain,
            phase: self.phase,
            name: self.name.clone(),
            fields,
        }
    }
}

/// A journal exported for support: schema, version, capabilities and events.
#[derive(Debug, PartialEq, Eq)]
pub struct DiagnosticExport {
    pub schema: u32,
    pub near_version: String,
    pub capabilities: Vec<String>,
    pub events: Vec<DiagnosticEvent>,
}

/// Words that mark a field as sensitive when its key holds one, in any ASCII case.
pub open spec fn sensitive_words() -> Seq<Seq<char>> {
    seq!["path"@, "content"@, "token"@, "secret"@, "credential"@, "password"@]
}

/// Whether a field key is sensitive: its lower-cased text contains a sensitive word.
pub open spec fn is_sensitive_key(key: Seq<char>) -> bool {
    exists|w: int, i: int|
        0 <= w < sensitive_words().len() && #[trigger] occurs_at(spec_lower(key), sensitive_words()[w], i)
}

/// The text that replaces a sensitive value.
pub open spec fn redacted_text() -> Seq<char> {
    "<redacted>"@
}

/// Fields with every sensitive value replaced by `<redacted>`.
pub open spec fn redacted(fields: Map<Seq<char>, Seq<char>>) -> Map<Seq<char>, Seq<char>> {
    Map::new(
        |k: Seq<char>| fields.contains_key(k),
        |k: Seq<char>|
            if is_sensitive_key(k) {
                redacted_text()
            } else {
                fields[k]
            },
    )
}

/// Whether no sensitive value shows in these fields.
pub open spec fn shows_no_secret(fields: Map<Seq<char>, Seq<char>>) -> bool {
    forall|k: Seq<char>| #[trigger] fields.contains_key(k) && is_sensitive_key(k) ==> fields[k] == redacted_text()
}

fn contains_text(hay: &[char], needle: &str) -> (r: bool)
    ensures
        r == exists|i: int| occurs_at(hay@, needle@, i),
{
    let n = chars_of(needle);
    match crate::text::find(hay, n.as_slice()) {
        Some(i) => true,
        None => {
            proof {
                if n@.len() == 0 {
                    assert(occurs_at(hay@, needle@, 0)) by {
                        assert(hay@.subrange(0, 0) =~= needle@);
                    }
                }
            }
            n.len() == 0
        },
    }
}

/// Whether a field key is sensitive.
pub fn sensitive_key(key: &str) -> (r: bool)
    ensures
        r == is_sensitive_key(key@),
{
    let chars = chars_of(key);
    let lowered = lower_chars(chars.as_slice());
    let found = contains_text(lowered.as_slice(), "path") || contains_text(lowered.as_slice(), "content")
        || contains_text(lowered.as_slice(), "token") || contains_text(lowered.as_slice(), "secret")
        || contains_text(lowered.as_slice(), "credential") || contains_text(
        lowered.as_slice(),
        "password",
    );
    proof {
        let s = sensitive_words();
        if found {
            if exists|i: int| occurs_at(lowered@, "path"@, i) {
                let i = choose|i: int| occurs_at(lowered@, "path"@, i);
                assert(occurs_at(spec_lower(key@), s[0], i));
            } else if exists|i: int| occurs_at(lowered@, "content"@, i) {
                let i = choose|i: int| occurs_at(lowered@, "content"@, i);
                assert(occurs_at(spec_lower(key@), s[1], i));
            } else if exists|i: int| occurs_at(lowered@, "token"@, i) {
                let i = choose|i: int| occurs_at(lowered@, "token"@, i);
                assert(occurs_at(spec_lower(key@), s[2], i));
            } else if exists|i: int| occurs_at(lowered@, "secret"@, i) {
                let i = choose|i: int| occurs_at(lowered@, "secret"@, i);
                assert(occurs_at(spec_lower(key@), s[3], i));
            } else if exists|i: int| occurs_at(lowered@, "credential"@, i) {
                let i = choose|i: int| occurs_at(lowered@, "credential"@, i);
                assert(occurs_at(spec_lower(key@), s[4], i));
            } else {
                let i = choose|i: int| occurs_at(lowered@, "password"@, i);
                assert(occurs_at(spec_lower(key@), s[5], i));
            }
        } else {
            assert forall|w: int, i: int|
                0 <= w < s.len() implies !#[trigger] occurs_at(spec_lower(key@), s[w], i) by {
                if w == 0 {
                } else if w == 1 {
                } else if w == 2 {
                } else if w == 3 {
                } else if w == 4 {
                } else {
                }
            }
        }
    }
    found
}

/// Replaces the value of every sensitive field by `<redacted>`.
pub fn redact_fields(fields: StrMap<String>) -> (r: StrMap<String>)
    ensures
        field_texts(r) == redacted(field_texts(fields)),
{
    let mut out: StrMap<String> = StrMap::new();
    let n = fields.len();
    let mut i: usize = 0;
    proof {
        fields.lemma_lengths();
        out.lemma_lengths();
        assert(field_texts(out) =~= Map::<Seq<char>, Seq<char>>::empty());
    }
    while i < n
        invariant
            i <= n,
            n == fields.keys().len(),
            n == fields.values().len(),
            forall|x: Seq<char>| #[trigger] field_texts(out).contains_key(x) <==> fields.keys().take(i as int).contains(x),
            forall|x: Seq<char>| #[trigger] field_texts(out).contains_key(x) ==> field_texts(fields).contains_key(x)
                && field_texts(out)[x] == redacted(field_texts(fields))[x],
        decreases n - i,
    {
        let key = fields.key_at(i);
        let value = fields.value_at(i);
        let sensitive = sensitive_key(key.as_str());
        let shown = if sensitive {
            "<redacted>".to_owned()
        } else {
            value.clone()
        };
        let ghost before = field_texts(out);
        let ghost k = key@;
        let ghost v = shown@;
        let ghost prefix = fields.keys().take(i as int);
        out.insert(key.clone(), shown);
        proof {
            use_type_invariant(&fields);
            fields.lemma_lengths();
            out.lemma_lengths();
            crate::strmap::lemma_index_of_sorted(fields.keys(), i as int);
            assert(fields.raw_keys()[i as int]@ == fields.keys()[i as int]);
            assert(fields.map().contains_key(k));
            assert(field_texts(fields).contains_key(k));
            assert(field_texts(fields)[k] == value@);
            assert(fields.keys().take(i + 1) =~= prefix.push(k));
            assert forall|x: Seq<char>| #[trigger] field_texts(out).contains_key(x) <==> fields.keys().take(
                i + 1,
            ).contains(x) by {
                assert(out.map().contains_key(x) <==> (before.contains_key(x) || x == k));
                if prefix.push(k).contains(x) {
                    let j = choose|j: int| 0 <= j < prefix.push(k).len() && prefix.push(k)[j] == x;
                    if j < prefix.len() {
                        assert(prefix.contains(x));
                    }
                }
                if prefix.contains(x) {
                    let j = choose|j: int| 0 <= j < prefix.len() && prefix[j] == x;
                    assert(prefix.push(k)[j] == x);
                }
                if x == k {
                    assert(prefix.push(k)[prefix.len() as int] == x);
                }
            }
            assert forall|x: Seq<char>| #[trigger] field_texts(out).contains_key(x) implies field_texts(fields).contains_key(x)
                && field_texts(out)[x] == redacted(field_texts(fields))[x] by {
                assert(out.map().contains_key(x) <==> (before.contains_key(x) || x == k));
                if x != k {
                    assert(before.contains_key(x));
                }
            }
        }
        i = i + 1;
    }
    proof {
        fields.lemma_lengths();
        assert(fields.keys().take(n as int) =~= fields.keys());
        assert(field_texts(out) =~= redacted(field_texts(fields))) by {
            assert forall|x: Seq<char>| #[trigger] field_texts(out).contains_key(x) <==> redacted(field_texts(fields)).contains_key(x) by {
                assert(fields.map().contains_key(x) <==> fields.keys().contains(x));
            }
        }
    }
    out
}

/// Redacted fields show no secret.
proof fn lemma_redacted_shows_no_secret(fields: Map<Seq<char>, Seq<char>>)
    ensures
        shows_no_secret(redacted(fields)),
{
}

/// Records diagnostic events, numbering correlations from one.
#[derive(Debug)]
pub struct DiagnosticJournal {
    next_correlation: u64,
    events: Vec<DiagnosticEvent>,
}

impl Default for DiagnosticJournal {
    fn default() -> (r: Self)
        ensures
            r.spec_events().len() == 0,
            r.spec_last_correlation() == 0,
    {
        DiagnosticJournal { next_correlation: 0, events: Vec::new() }
    }
}

impl DiagnosticJournal {
    /// The events recorded, in order.
    pub closed spec fn spec_events(&self) -> Seq<DiagnosticEvent> {
        self.events@
    }

    /// The last correlation number handed out (zero before the first).
    pub closed spec fn spec_last_correlation(&self) -> u64 {
        self.next_correlation
    }

    /// Every recorded event shows no secret.
    #[verifier::type_invariant]
    closed spec fn no_secrets(&self) -> bool {
        forall|i: int| 0 <= i < self.events@.len() ==> shows_no_secret(field_texts(#[trigger] self.events@[i].fields))
    }

    /// Starts a correlated span: takes the next correlation number (saturating at the
    /// largest) and records that it started.
    pub fn begin(&mut self, domain: DiagnosticDomain, name: &str, parent: Option<CorrelationId>) -> (r:
        CorrelationId)
        ensures
            final(self).spec_last_correlation() == (if old(self).spec_last_correlation() == u64::MAX {
                u64::MAX
            } else {
                (old(self).spec_last_correlation() + 1) as u64
            }),
            r == CorrelationId(final(self).spec_last_correlation()),
            final(self).spec_events().len() == old(self).spec_events().len() + 1,
            forall|i: int| 0 <= i < old(self).spec_events().len() ==> final(self).spec_events()[i] == old(self).spec_events()[i],
            ({
                let e = final(self).spec_events().last();
                &&& e.correlation == r
                &&& e.parent == parent
                &&& e.domain == domain
                &&& e.phase == DiagnosticPhase::Started
                &&& e.name@ == name@
                &&& field_texts(e.fields) == Map::<Seq<char>, Seq<char>>::empty()
            }),
    {
        proof {
            use_type_invariant(&*self);
        }
        self.next_correlation = if self.next_correlation == u64::MAX {
            u64::MAX
        } else {
            self.next_correlation + 1
        };
        let correlation = CorrelationId(self.next_correlation);
        let fields = StrMap::new();
        proof {
            fields.lemma_lengths();
            assert(field_texts(fields) =~= Map::<Seq<char>, Seq<char>>::empty());
            assert(redacted(Map::<Seq<char>, Seq<char>>::empty()) =~= Map::<Seq<char>, Seq<char>>::empty());
        }
        self.record(correlation, parent, domain, DiagnosticPhase::Started, name, fields);
        correlation
    }

    /// Records an event, with its sensitive field values redacted.
    pub fn record(
        &mut self,
        correlation: CorrelationId,
        parent: Option<CorrelationId>,
        domain: DiagnosticDomain,
        phase: DiagnosticPhase,
        name: &str,
        fields: StrMap<String>,
    )
        ensures
            final(self).spec_last_correlation() == old(self).spec_last_correlation(),
            final(self).spec_events().len() == old(self).spec_events().len() + 1,
            forall|i: int| 0 <= i < old(self).spec_events().len() ==> final(self).spec_events()[i] == old(self).spec_events()[i],
            ({
                let e = final(self).spec_events().last();
                &&& e.correlation == correlation
                &&& e.parent == parent
                &&& e.domain == domain
                &&& e.phase == phase
                &&& e.name@ == name@
                &&& field_texts(e.fields) == redacted(field_texts(fields))
            }),
    {
        proof {
            use_type_invariant(&*self);
        }
        let ghost input = field_texts(fields);
        let redacted_fields = redact_fields(fields);
        proof {
            lemma_redacted_shows_no_secret(input);
        }
        let event = DiagnosticEvent {
            correlation,
            parent,
            domain,
            phase,
            name: name.to_owned(),
            fields: redacted_fields,
        };
        let mut events = Vec::new();
        std::mem::swap(&mut events, &mut self.events);
        events.push(event);
        self.events = events;
    }

    /// The events recorded, in order.
    pub fn events(&self) -> (r: &[DiagnosticEvent])
        ensures
            r@ == self.spec_events(),
            forall|i: int| 0 <= i < r@.len() ==> shows_no_secret(field_texts(#[trigger] r@[i].fields)),
    {
        proof {
            use_type_invariant(self);
        }
        self.events.as_slice()
    }

    /// Exports the journal with schema 1, a version and capabilities.
    pub fn export(&self, near_version: &str, capabilities: &Vec<String>) -> (r: DiagnosticExport)
        ensures
            r.schema == 1,
            r.near_version@ == near_version@,
            r.capabilities@.len() == capabilities@.len(),
            forall|i: int| 0 <= i < capabilities@.len() ==> (#[trigger] r.capabilities@[i])@ == capabilities@[i]@,
            r.events@.len() == self.spec_events().len(),
            forall|i: int|
                0 <= i < r.events@.len() ==> {
                    let e = #[trigger] r.events@[i];
                    let o = self.spec_events()[i];
                    &&& e.correlation == o.correlation
                    &&& e.parent == o.parent
                    &&& e.domain == o.domain
                    &&& e.phase == o.phase
                    &&& e.name@ == o.name@
                    &&& field_texts(e.fields) == field_texts(o.fields)
                    &&& shows_no_secret(field_texts(e.fields))
                },
    {
        proof {
            use_type_invariant(self);
        }
        let mut names: Vec<String> = Vec::new();
        let mut i: usize = 0;
        while i < capabilities.len()
            invariant
                i <= capabilities@.len(),
                names@.len() == i,
                forall|j: int| 0 <= j < i ==> (#[trigger] names@[j])@ == capabilities@[j]@,
            decreases capabilities@.len() - i,
        {
            names.push(capabilities[i].clone());
            i = i + 1;
        }
        let mut events: Vec<DiagnosticEvent> = Vec::new();
        let mut j: usize = 0;
        while j < self.events.len()
            invariant
                j <= self.events@.len(),
                events@.len() == j,
                forall|k: int| 0 <= k < self.events@.len() ==> shows_no_secret(field_texts(#[trigger] self.events@[k].fields)),
                forall|k: int|
                    0 <= k < j ==> {
                        let e = #[trigger] events@[k];
                        let o = self.events@[k];
                        &&& e.correlation == o.correlation
                        &&& e.parent == o.parent
                        &&& e.domain == o.domain
                        &&& e.phase == o.phase
                        &&& e.name@ == o.name@
                        &&& field_texts(e.fields) == field_texts(o.fields)
                        &&& shows_no_secret(field_texts(e.fields))
                    },
            decreases self.events@.len() - j,
        {
            let copy = self.events[j].duplicate();
            assert(shows_no_secret(field_texts(self.events@[j as int].fields)));
            events.push(copy);
            j = j + 1;
        }
        DiagnosticExport { schema: 1, near_version: near_version.to_owned(), capabilities: names, events }
    }
}

} // verus!
