//! Layered configuration: layers, origins of values and configuration errors.

use vstd::prelude::*;

use vstd::string::StringSliceAdditionalSpecFns;

use crate::strmap::StrMap;
use crate::text::{decimal, push_str, usize_decimal};

verus! {

broadcast use {vstd::string::group_string_axioms, vstd::std_specs::vec::group_vec_axioms};

/// The schema version this library reads and writes.
pub const CONFIG_SCHEMA_VERSION: u16 = 1;

/// Where a configuration layer comes from, from lowest to highest precedence.
#[derive(Clone, Copy, Debug, PartialEq, Eq, Structural)]
pub enum ConfigLayerKind {
    BuiltIn,
    Platform,
    Plugin,
    User,
    Workspace,
    Cli,
}

/// Rank of a layer kind in precedence order.
pub open spec fn layer_rank(kind: ConfigLayerKind) -> u8 {
    match kind {
        ConfigLayerKind::BuiltIn => 0,
        ConfigLayerKind::Platform => 1,
        ConfigLayerKind::Plugin => 2,
        ConfigLayerKind::User => 3,
        ConfigLayerKind::Workspace => 4,
        ConfigLayerKind::Cli => 5,
    }
}

pub fn layer_rank_of(kind: ConfigLayerKind) -> (r: u8)
    ensures
        r == layer_rank(kind),
{
    match kind {
        ConfigLayerKind::BuiltIn => 0,
        ConfigLayerKind::Platform => 1,
        ConfigLayerKind::Plugin => 2,
        ConfigLayerKind::User => 3,
        ConfigLayerKind::Workspace => 4,
        ConfigLayerKind::Cli => 5,
    }
}

/// One configuration document with its place in the precedence order.
#[derive(Clone, Debug, PartialEq, Eq)]
pub struct ConfigLayer {
    pub kind: ConfigLayerKind,
    pub priority: u32,
    pub source: String,
    pub text: String,
    pub trusted: bool,
}

impl ConfigLayer {
    /// A layer of priority zero; only workspace layers start untrusted.
    pub fn new(kind: ConfigLayerKind, source: &str, text: &str) -> (r: Self)
        ensures
            r.kind == kind,
            r.priority == 0,
            r.source@ == source@,
            r.text@ == text@,
            r.trusted == (kind != ConfigLayerKind::Workspace),
    {
        let trusted = match kind {
            ConfigLayerKind::Workspace => false,
            _ => true,
        };
        ConfigLayer { kind, priority: 0, source: source.to_owned(), text: text.to_owned(), trusted }
    }

    pub fn with_priority(self, priority: u32) -> (r: Self)
        ensures
            r == (ConfigLayer { priority, ..self }),
    {
        ConfigLayer { priority, ..self }
    }

    pub fn trusted(self) -> (r: Self)
        ensures
            r == (ConfigLayer { trusted: true, ..self }),
    {
        ConfigLayer { trusted: true, ..self }
    }
}

/// Where the effective value of a field was set.
#[derive(Clone, Debug, PartialEq, Eq)]
pub struct ConfigOrigin {
    pub layer: ConfigLayerKind,
    pub source: String,
    pub line: usize,
    pub column: usize,
    pub migrated_from: Option<u16>,
}

#[derive(Clone, Copy, Debug, PartialEq, Eq, Structural)]
pub enum ConfigErrorKind {
    Parse,
    MissingSchema,
    InvalidSchema,
    UnsupportedSchema,
    MissingMigration,
    UntrustedWorkspace,
    InvalidValue,
    Migration,
}

/// A configuration diagnostic with its source position.
#[derive(Clone, Debug, PartialEq, Eq)]
pub struct ConfigError {
    pub source: String,
    pub line: usize,
    pub column: usize,
    pub field: Option<String>,
    pub kind: ConfigErrorKind,
    pub message: String,
}

pub open spec fn spec_config_error_text(e: ConfigError) -> Seq<char> {
    e.source@ + seq![':'] + decimal(e.line as nat) + seq![':'] + decimal(e.column as nat) + ": "@
        + e.message@ + match e.field {
        Some(f) => " (field "@ + f@ + seq![')'],
        None => Seq::empty(),
    }
}

impl ConfigError {
    /// The diagnostic as `source:line:column: message`, followed by the field where known.
    pub fn text(&self) -> (r: String)
        ensures
            r@ == spec_config_error_text(*self),
    {
        let mut out = self.source.clone();
        push_str(&mut out, ":");
        let line = usize_decimal(self.line);
        push_str(&mut out, line.as_str());
        push_str(&mut out, ":");
        let column = usize_decimal(self.column);
        push_str(&mut out, column.as_str());
        push_str(&mut out, ": ");
        push_str(&mut out, self.message.as_str());
        match &self.field {
            Some(f) => {
                push_str(&mut out, " (field ");
                push_str(&mut out, f.as_str());
                push_str(&mut out, ")");
            },
            None => {},
        }
        proof {
            reveal_strlit(":");
            reveal_strlit(")");
        }
        out
    }
}

/// A refused reload; the last valid configuration stays in force.
#[derive(Clone, Debug, PartialEq, Eq)]
pub struct ReloadError {
    pub error: ConfigError,
    pub retained_last_valid: bool,
}

impl ReloadError {
    pub fn text(&self) -> (r: String)
        ensures
            r@ == "configuration reload failed; last valid configuration retained: "@
                + spec_config_error_text(self.error),
    {
        let mut out = "configuration reload failed; last valid configuration retained: ".to_owned();
        let inner = self.error.text();
        push_str(&mut out, inner.as_str());
        out
    }
}


/// A TOML value, as the library reads it.
#[derive(Debug, PartialEq, Eq)]
pub enum ConfigValue {
    String(String),
    Integer(i64),
    /// A floating-point number, by its shortest decimal text.
    Float(String),
    Boolean(bool),
    Datetime(String),
    Array(Vec<ConfigValue>),
    /// Entries with unique keys; a parsed table lists them in key order.
    Table(Vec<(String, ConfigValue)>),
}

/// A TOML value as the specifications see it.
pub enum ValueView {
    String(Seq<char>),
    Integer(i64),
    Float(Seq<char>),
    Boolean(bool),
    Datetime(Seq<char>),
    Array(Seq<ValueView>),
    Table(Seq<(Seq<char>, ValueView)>),
}

pub open spec fn value_view(v: ConfigValue) -> ValueView
    decreases v,
{
    match v {
        ConfigValue::String(s) => ValueView::String(s@),
        ConfigValue::Integer(i) => ValueView::Integer(i),
        ConfigValue::Float(f) => ValueView::Float(f@),
        ConfigValue::Boolean(b) => ValueView::Boolean(b),
        ConfigValue::Datetime(s) => ValueView::Datetime(s@),
        ConfigValue::Array(items) => ValueView::Array(
            Seq::new(
                items@.len(),
                |i: int|
                    {
                        if 0 <= i < items@.len() {
                            proof {
                                assert(decreases_to!(v => items@[i]));
                            }
                            value_view(items@[i])
                        } else {
                            ValueView::Boolean(false)
                        }
                    },
            ),
        ),
        ConfigValue::Table(entries) => ValueView::Table(
            Seq::new(
                entries@.len(),
                |i: int|
                    {
                        if 0 <= i < entries@.len() {
                            proof {
                                assert(decreases_to!(v => entries@[i].1));
                            }
                            (entries@[i].0@, value_view(entries@[i].1))
                        } else {
                            (Seq::empty(), ValueView::Boolean(false))
                        }
                    },
            ),
        ),
    }
}

impl View for ConfigValue {
    type V = ValueView;

    open spec fn view(&self) -> ValueView {
        value_view(*self)
    }
}


/// What an origin says.
pub type OriginView = (ConfigLayerKind, Seq<char>, usize, usize, Option<u16>);

pub open spec fn origin_view(o: ConfigOrigin) -> OriginView {
    (o.layer, o.source@, o.line, o.column, o.migrated_from)
}

pub open spec fn origin_views(m: Map<Seq<char>, ConfigOrigin>) -> Map<Seq<char>, OriginView> {
    m.map_values(|o: ConfigOrigin| origin_view(o))
}

/// The layer a value is recorded from: its kind and source, the positions of its
/// assignments and the schema it was migrated from.
pub type LayerContext = (ConfigLayerKind, Seq<char>, Map<Seq<char>, (usize, usize)>, Option<u16>);

/// The field path of key `key` under `path`.
pub open spec fn child_path(path: Seq<char>, key: Seq<char>) -> Seq<char> {
    if path.len() == 0 {
        key
    } else {
        path + seq!['.'] + key
    }
}

/// Index of the last dot of a path.
pub open spec fn last_dot(p: Seq<char>) -> Option<int>
    decreases p.len(),
{
    if p.len() == 0 {
        None
    } else if p.last() == '.' {
        Some(p.len() - 1)
    } else {
        last_dot(p.drop_last())
    }
}

/// The position recorded for the nearest ancestor of a path, or the start of the document.
pub open spec fn parent_position(p: Seq<char>, positions: Map<Seq<char>, (usize, usize)>) -> (usize, usize)
    decreases p.len(),
{
    match last_dot(p) {
        Some(i) => if 0 <= i < p.len() {
            let parent = p.take(i);
            if positions.contains_key(parent) {
                positions[parent]
            } else {
                parent_position(parent, positions)
            }
        } else {
            (1, 1)
        },
        None => (1, 1),
    }
}

/// The position of a field: its own assignment, else its nearest ancestor's.
pub open spec fn spec_origin_position(p: Seq<char>, positions: Map<Seq<char>, (usize, usize)>) -> (usize, usize) {
    if positions.contains_key(p) {
        positions[p]
    } else {
        parent_position(p, positions)
    }
}

pub open spec fn origin_at(ctx: LayerContext, path: Seq<char>) -> OriginView {
    let pos = spec_origin_position(path, ctx.2);
    (ctx.0, ctx.1, pos.0, pos.1, ctx.3)
}

/// The origins after recording every leaf of a value under a path.
pub open spec fn recorded(
    v: ValueView,
    path: Seq<char>,
    ctx: LayerContext,
    o: Map<Seq<char>, OriginView>,
) -> Map<Seq<char>, OriginView>
    decreases v,
{
    match v {
        ValueView::Table(es) => recorded_entries(es, path, ctx, o),
        _ => o.insert(path, origin_at(ctx, path)),
    }
}

pub open spec fn recorded_entries(
    es: Seq<(Seq<char>, ValueView)>,
    path: Seq<char>,
    ctx: LayerContext,
    o: Map<Seq<char>, OriginView>,
) -> Map<Seq<char>, OriginView>
    decreases es,
{
    if es.len() == 0 {
        o
    } else {
        proof {
            assert(decreases_to!(es => es.drop_last()));
            assert(decreases_to!(es => es[es.len() - 1].1));
        }
        recorded(
            es[es.len() - 1].1,
            child_path(path, es[es.len() - 1].0),
            ctx,
            recorded_entries(es.drop_last(), path, ctx, o),
        )
    }
}


/// Index of the first entry with the key.
pub open spec fn find_key(es: Seq<(Seq<char>, ValueView)>, k: Seq<char>) -> Option<int>
    decreases es.len(),
{
    if es.len() == 0 {
        None
    } else if es[0].0 == k {
        Some(0)
    } else {
        match find_key(es.drop_first(), k) {
            Some(i) => Some(i + 1),
            None => None,
        }
    }
}

proof fn lemma_find_key_found(es: Seq<(Seq<char>, ValueView)>, k: Seq<char>)
    ensures
        find_key(es, k) matches Some(i) ==> 0 <= i < es.len() && es[i].0 == k,
    decreases es.len(),
{
    if es.len() > 0 && es[0].0 != k {
        lemma_find_key_found(es.drop_first(), k);
    }
}

/// Table entries with the `schema` entry set to a version: the first `schema` entry takes the
/// value, or an entry is appended when there is none.
pub open spec fn with_schema_entry(es: Seq<(Seq<char>, ValueView)>, version: int) -> Seq<
    (Seq<char>, ValueView),
> {
    match find_key(es, "schema"@) {
        Some(i) => es.update(i, ("schema"@, ValueView::Integer(version as i64))),
        None => es.push(("schema"@, ValueView::Integer(version as i64))),
    }
}

/// Where following the registered migrations from a schema version ends.
pub enum ChainEnd {
    /// The current schema (or a later one) is reached.
    Reached,
    /// No migration is registered from this version.
    Missing(u16),
    /// The migration from this version does not advance the schema.
    Stalled(u16),
}

/// Where following the first registered migrations of a list from a version ends, for a
/// target schema version.
pub open spec fn migration_chain_end(ms: Seq<ConfigMigration>, version: u16, s: u16) -> ChainEnd
    decreases (if s < version {
        version - s
    } else {
        0
    }),
{
    if s >= version {
        ChainEnd::Reached
    } else {
        match migration_target(ms, s) {
            None => ChainEnd::Missing(s),
            Some(t) => if t <= s {
                ChainEnd::Stalled(s)
            } else {
                migration_chain_end(ms, version, t)
            },
        }
    }
}

/// A migration function refused the document: its message, at the document's start.
pub open spec fn migration_refused(e: ConfigError) -> bool {
    &&& e.kind == ConfigErrorKind::Migration
    &&& e.line == 1
    &&& e.column == 1
    &&& e.field matches Some(f) && f@ == "schema"@
}

/// The origins with a field and everything under it removed.
pub open spec fn without_subtree(o: Map<Seq<char>, OriginView>, path: Seq<char>) -> Map<Seq<char>, OriginView> {
    o.remove_keys(
        Set::new(|f: Seq<char>| f == path || (f.len() > path.len() && f.take(path.len() as int) == path && f[path.len() as int] == '.')),
    )
}

/// Merging a layer's value into the effective value: tables merge key by key, anything else
/// replaces what was there, and the origins follow.
pub open spec fn merged(
    t: ValueView,
    inc: ValueView,
    path: Seq<char>,
    ctx: LayerContext,
    o: Map<Seq<char>, OriginView>,
) -> (ValueView, Map<Seq<char>, OriginView>)
    decreases inc,
{
    match inc {
        ValueView::Table(ies) => match t {
            ValueView::Table(tes) => {
                let r = merged_entries(tes, ies, path, ctx, o);
                (ValueView::Table(r.0), r.1)
            },
            _ => (inc, recorded(inc, path, ctx, without_subtree(o, path))),
        },
        _ => (inc, recorded(inc, path, ctx, without_subtree(o, path))),
    }
}

pub open spec fn merged_entries(
    tes: Seq<(Seq<char>, ValueView)>,
    ies: Seq<(Seq<char>, ValueView)>,
    path: Seq<char>,
    ctx: LayerContext,
    o: Map<Seq<char>, OriginView>,
) -> (Seq<(Seq<char>, ValueView)>, Map<Seq<char>, OriginView>)
    decreases ies,
{
    if ies.len() == 0 {
        (tes, o)
    } else {
        proof {
            assert(decreases_to!(ies => ies.drop_last()));
            assert(decreases_to!(ies => ies[ies.len() - 1].1));
        }
        let prev = merged_entries(tes, ies.drop_last(), path, ctx, o);
        let k = ies[ies.len() - 1].0;
        let v = ies[ies.len() - 1].1;
        let child = child_path(path, k);
        match find_key(prev.0, k) {
            Some(i) => if 0 <= i < prev.0.len() {
                let m = merged(prev.0[i].1, v, child, ctx, prev.1);
                (prev.0.update(i, (prev.0[i].0, m.0)), m.1)
            } else {
                prev
            },
            None => (prev.0.push((k, v)), recorded(v, child, ctx, prev.1)),
        }
    }
}


/// The views of a table's entries.
pub open spec fn entries_view(es: Seq<(String, ConfigValue)>) -> Seq<(Seq<char>, ValueView)> {
    Seq::new(es.len(), |i: int| (es[i].0@, es[i].1@))
}

pub(crate) proof fn lemma_table_view(v: ConfigValue)
    requires
        v is Table,
    ensures
        v@ == ValueView::Table(entries_view(v->Table_0@)),
{
    assert(value_view(v)->Table_0 =~= entries_view(v->Table_0@));
}

fn find_last_dot(c: &[char]) -> (r: Option<usize>)
    ensures
        match r {
            Some(i) => last_dot(c@) == Some(i as int) && i < c@.len(),
            None => last_dot(c@) is None,
        },
{
    let mut j: usize = c.len();
    assert(c@.take(c@.len() as int) =~= c@);
    while j > 0
        invariant
            j <= c@.len(),
            last_dot(c@) == last_dot(c@.take(j as int)),
        decreases j,
    {
        assert(c@.take(j as int).drop_last() =~= c@.take(j - 1));
        if c[j - 1] == '.' {
            return Some(j - 1);
        }
        j = j - 1;
    }
    assert(c@.take(0) =~= Seq::<char>::empty());
    None
}

/// The position of a field: its own assignment, else its nearest ancestor's, else the start.
fn origin_position(path: &str, positions: &StrMap<(usize, usize)>) -> (r: (usize, usize))
    ensures
        r == spec_origin_position(path@, positions.map()),
{
    match positions.get(path) {
        Some(p) => {
            return *p;
        },
        None => {},
    }
    let mut candidate = crate::text::chars_of(path);
    loop
        invariant
            spec_origin_position(path@, positions.map()) == parent_position(candidate@, positions.map()),
        decreases candidate@.len(),
    {
        match find_last_dot(candidate.as_slice()) {
            None => {
                return (1, 1);
            },
            Some(i) => {
                let parent = crate::text::slice_chars(candidate.as_slice(), 0, i);
                assert(parent@ =~= candidate@.take(i as int));
                let text = crate::text::string_of(parent.as_slice());
                match positions.get(text.as_str()) {
                    Some(p) => {
                        return *p;
                    },
                    None => {},
                }
                candidate = parent;
            },
        }
    }
}

/// The path of key `key` under `path`.
fn child_path_of(path: &str, key: &str) -> (r: String)
    ensures
        r@ == child_path(path@, key@),
{
    let chars = crate::text::chars_of(path);
    if chars.len() == 0 {
        key.to_owned()
    } else {
        let mut r = path.to_owned();
        crate::text::push_char(&mut r, '.');
        crate::text::push_str(&mut r, key);
        r
    }
}

/// Records the origin of every leaf of a value under a path.
fn record_origins(
    value: &ConfigValue,
    path: &str,
    layer: &ConfigLayer,
    positions: &StrMap<(usize, usize)>,
    migrated_from: Option<u16>,
    origins: &mut StrMap<ConfigOrigin>,
)
    ensures
        origin_views(final(origins).map()) == recorded(
            value@,
            path@,
            (layer.kind, layer.source@, positions.map(), migrated_from),
            origin_views(old(origins).map()),
        ),
    decreases value,
{
    let ghost ctx = (layer.kind, layer.source@, positions.map(), migrated_from);
    match value {
        ConfigValue::Table(entries) => {
            proof {
                lemma_table_view(*value);
            }
            let ghost es = entries_view(entries@);
            let ghost o0 = origin_views(origins.map());
            let mut i: usize = 0;
            while i < entries.len()
                invariant
                    i <= entries@.len(),
                    es == entries_view(entries@),
                    *value == ConfigValue::Table(*entries),
                    origin_views(origins.map()) == recorded_entries(es.take(i as int), path@, ctx, o0),
                    ctx == (layer.kind, layer.source@, positions.map(), migrated_from),
                decreases entries@.len() - i,
            {
                let child = child_path_of(path, entries[i].0.as_str());
                proof {
                    assert(decreases_to!(*value => (*value)->Table_0));
                    assert((*value)->Table_0 == *entries);
                    assert(decreases_to!(*entries => entries[i as int]));
                    assert(decreases_to!(entries[i as int] => entries[i as int].1));
                }
                record_origins(&entries[i].1, child.as_str(), layer, positions, migrated_from, origins);
                proof {
                    let t = es.take(i + 1);
                    assert(t.drop_last() =~= es.take(i as int));
                    assert(t[t.len() - 1] == (entries@[i as int].0@, entries@[i as int].1@));
                }
                i = i + 1;
            }
            assert(es.take(i as int) =~= es);
        },
        _ => {
            let (line, column) = origin_position(path, positions);
            let ghost before = origins.map();
            origins.insert(
                path.to_owned(),
                ConfigOrigin {
                    layer: layer.kind,
                    source: layer.source.clone(),
                    line,
                    column,
                    migrated_from,
                },
            );
            proof {
                assert(origin_views(origins.map()) =~= origin_views(before).insert(path@, origin_at(ctx, path@)));
            }
        },
    }
}


pub open spec fn in_subtree(f: Seq<char>, path: Seq<char>) -> bool {
    f == path || (f.len() > path.len() && f.take(path.len() as int) == path && f[path.len() as int] == '.')
}

fn in_subtree_exec(f: &[char], path: &[char]) -> (r: bool)
    ensures
        r == in_subtree(f@, path@),
{
    if crate::text::chars_eq(f, path) {
        return true;
    }
    if f.len() > path.len() && crate::text::starts_with(f, path) && f[path.len()] == '.' {
        assert(f@.take(path@.len() as int) =~= path@);
        return true;
    }
    proof {
        if f@.len() > path@.len() && f@.take(path@.len() as int) == path@ {
            assert(crate::text::spec_starts_with(f@, path@));
        }
    }
    false
}

/// Removes the origins of a field and of everything under it.
fn remove_subtree(origins: &mut StrMap<ConfigOrigin>, path: &str)
    ensures
        origin_views(final(origins).map()) == without_subtree(origin_views(old(origins).map()), path@),
{
    proof {
        origins.lemma_lengths();
    }
    let p = crate::text::chars_of(path);
    let mut doomed: Vec<String> = Vec::new();
    let mut i: usize = 0;
    while i < origins.len()
        invariant
            i <= origins.keys().len(),
            origins.keys().len() == origins.raw_keys().len(),
            forall|j: int| 0 <= j < origins.keys().len() ==> #[trigger] origins.raw_keys()[j]@ == origins.keys()[j],
            p@ == path@,
            forall|j: int| 0 <= j < doomed@.len() ==> in_subtree(#[trigger] doomed@[j]@, path@),
            forall|f: Seq<char>| origins.keys().take(i as int).contains(f) && in_subtree(f, path@) ==> exists|j: int| 0 <= j < doomed@.len() && #[trigger] doomed@[j]@ == f,
        decreases origins.keys().len() - i,
    {
        let key = origins.key_at(i);
        let f = crate::text::chars_of(key.as_str());
        let ghost old_doomed = doomed@;
        if in_subtree_exec(f.as_slice(), p.as_slice()) {
            doomed.push(key.clone());
            assert(doomed@[doomed@.len() - 1]@ == origins.keys()[i as int]);
        }
        proof {
            assert forall|g: Seq<char>| origins.keys().take(i + 1).contains(g) && in_subtree(g, path@) implies exists|j: int| 0 <= j < doomed@.len() && #[trigger] doomed@[j]@ == g by {
                let t = choose|t: int| 0 <= t < i + 1 && #[trigger] origins.keys().take(i + 1)[t] == g;
                if t < i {
                    assert(origins.keys().take(i as int)[t] == g);
                    assert(origins.keys().take(i as int).contains(g));
                    let j = choose|j: int| 0 <= j < old_doomed.len() && #[trigger] old_doomed[j]@ == g;
                    assert(doomed@[j] == old_doomed[j]);
                } else {
                    assert(doomed@[doomed@.len() - 1]@ == g);
                }
            }
        }
        i = i + 1;
    }
    assert(origins.keys().take(i as int) =~= origins.keys());
    let ghost start = origins.map();
    let ghost gone = Set::new(|f: Seq<char>| in_subtree(f, path@));
    let mut d: usize = 0;
    while d < doomed.len()
        invariant
            d <= doomed@.len(),
            forall|j: int| 0 <= j < doomed@.len() ==> in_subtree(#[trigger] doomed@[j]@, path@),
            forall|f: Seq<char>| start.contains_key(f) && in_subtree(f, path@) ==> exists|j: int| 0 <= j < doomed@.len() && #[trigger] doomed@[j]@ == f,
            forall|f: Seq<char>| #[trigger] origins.map().contains_key(f) <==> start.contains_key(f) && !(in_subtree(f, path@) && exists|j: int| 0 <= j < d && #[trigger] doomed@[j]@ == f),
            forall|f: Seq<char>| #[trigger] origins.map().contains_key(f) ==> origins.map()[f] == start[f],
        decreases doomed@.len() - d,
    {
        let ghost before = origins.map();
        origins.remove(doomed[d].as_str());
        proof {
            assert forall|f: Seq<char>| #[trigger] origins.map().contains_key(f) <==> start.contains_key(f) && !(in_subtree(f, path@) && exists|j: int| 0 <= j < d + 1 && #[trigger] doomed@[j]@ == f) by {
                if f == doomed@[d as int]@ {
                    assert(!origins.map().contains_key(f));
                } else {
                    if exists|j: int| 0 <= j < d + 1 && #[trigger] doomed@[j]@ == f {
                        let j = choose|j: int| 0 <= j < d + 1 && #[trigger] doomed@[j]@ == f;
                        assert(j < d);
                    }
                }
            }
        }
        d = d + 1;
    }
    proof {
        assert(origin_views(origins.map()) =~= without_subtree(origin_views(start), path@)) by {
            assert forall|f: Seq<char>| #[trigger] origins.map().contains_key(f) <==> start.contains_key(f) && !in_subtree(f, path@) by {
                if start.contains_key(f) && in_subtree(f, path@) {
                    let j = choose|j: int| 0 <= j < doomed@.len() && #[trigger] doomed@[j]@ == f;
                    assert(0 <= j < d);
                }
            }
        }
    }
}

/// Index of the first entry with the key.
pub(crate) fn find_entry(es: &Vec<(String, ConfigValue)>, key: &str) -> (r: Option<usize>)
    ensures
        match r {
            Some(j) => find_key(entries_view(es@), key@) == Some(j as int) && j < es@.len(),
            None => find_key(entries_view(es@), key@) is None,
        },
{
    let k = crate::text::chars_of(key);
    let mut i: usize = 0;
    assert(entries_view(es@).skip(0) =~= entries_view(es@));
    while i < es.len()
        invariant
            i <= es@.len(),
            k@ == key@,
            find_key(entries_view(es@), key@) == match find_key(entries_view(es@).skip(i as int), key@) {
                Some(j) => Some(j + i),
                None => None,
            },
        decreases es@.len() - i,
    {
        let c = crate::text::chars_of(es[i].0.as_str());
        let ghost rest = entries_view(es@).skip(i as int);
        assert(rest.drop_first() =~= entries_view(es@).skip(i + 1));
        if crate::text::chars_eq(c.as_slice(), k.as_slice()) {
            return Some(i);
        }
        i = i + 1;
    }
    None
}


/// Merges a layer's value into the effective value at a path, updating the origins.
fn merge_value(
    target: ConfigValue,
    incoming: ConfigValue,
    path: &str,
    layer: &ConfigLayer,
    positions: &StrMap<(usize, usize)>,
    migrated_from: Option<u16>,
    origins: &mut StrMap<ConfigOrigin>,
) -> (r: ConfigValue)
    ensures
        (r@, origin_views(final(origins).map())) == merged(
            target@,
            incoming@,
            path@,
            (layer.kind, layer.source@, positions.map(), migrated_from),
            origin_views(old(origins).map()),
        ),
    decreases incoming,
{
    let both = match (&target, &incoming) {
        (ConfigValue::Table(_), ConfigValue::Table(_)) => true,
        _ => false,
    };
    if both {
        proof {
            lemma_table_view(target);
            lemma_table_view(incoming);
        }
        let ghost inc = incoming;
        match (target, incoming) {
            (ConfigValue::Table(tes), ConfigValue::Table(ies)) => {
                proof {
                    assert(decreases_to!(inc => inc->Table_0));
                    assert(decreases_to!(inc->Table_0 => inc->Table_0@));
                    assert(decreases_to!(inc => inc->Table_0@));
                }
                let es = merge_entries(tes, ies, path, layer, positions, migrated_from, origins);
                let r = ConfigValue::Table(es);
                proof {
                    lemma_table_view(r);
                }
                r
            },
            _ => {
                proof {
                    assert(false);
                }
                ConfigValue::Boolean(false)
            },
        }
    } else {
        remove_subtree(origins, path);
        record_origins(&incoming, path, layer, positions, migrated_from, origins);
        incoming
    }
}

/// Merges a layer's table entries, in order, into the effective table's entries.
fn merge_entries(
    tes: Vec<(String, ConfigValue)>,
    ies: Vec<(String, ConfigValue)>,
    path: &str,
    layer: &ConfigLayer,
    positions: &StrMap<(usize, usize)>,
    migrated_from: Option<u16>,
    origins: &mut StrMap<ConfigOrigin>,
) -> (r: Vec<(String, ConfigValue)>)
    ensures
        (entries_view(r@), origin_views(final(origins).map())) == merged_entries(
            entries_view(tes@),
            entries_view(ies@),
            path@,
            (layer.kind, layer.source@, positions.map(), migrated_from),
            origin_views(old(origins).map()),
        ),
    decreases ies@,
{
    let ghost ctx = (layer.kind, layer.source@, positions.map(), migrated_from);
    let ghost ies0 = ies;
    let ghost iv = entries_view(ies@);
    let ghost tv0 = entries_view(tes@);
    let ghost o0 = origin_views(origins.map());
    let count = ies.len();
    let mut table = tes;
    let mut rest = ies;
    let mut i: usize = 0;
    assert(iv.take(0) =~= Seq::<(Seq<char>, ValueView)>::empty());
    assert(rest@ =~= ies0@.skip(0));
    while rest.len() > 0
        invariant
            i <= ies0@.len(),
            ies0@.len() == count,
            ies0 == ies,
            rest@ == ies0@.skip(i as int),
            iv == entries_view(ies0@),
            ctx == (layer.kind, layer.source@, positions.map(), migrated_from),
            (entries_view(table@), origin_views(origins.map())) == merged_entries(tv0, iv.take(i as int), path@, ctx, o0),
        decreases rest@.len(),
    {
        assert(i < ies0@.len());
        let (key, value) = rest.remove(0);
        proof {
            assert(ies0@[i as int] == (key, value));
            assert(decreases_to!(ies0@ => ies0@[i as int]));
            assert(decreases_to!(ies0@[i as int] => ies0@[i as int].1));
            assert(decreases_to!(ies0@ => value));
            let t = iv.take(i + 1);
            assert(t.drop_last() =~= iv.take(i as int));
            assert(t[t.len() - 1] == (key@, value@));
        }
        let child = child_path_of(path, key.as_str());
        let ghost before = entries_view(table@);
        match find_entry(&table, key.as_str()) {
            Some(j) => {
                let (tk, tval) = table.remove(j);
                let merged_value = merge_value(tval, value, child.as_str(), layer, positions, migrated_from, origins);
                let ghost mv = merged_value@;
                table.insert(j, (tk, merged_value));
                proof {
                    assert(entries_view(table@) =~= before.update(j as int, (before[j as int].0, mv)));
                }
            },
            None => {
                record_origins(&value, child.as_str(), layer, positions, migrated_from, origins);
                let ghost vv = value@;
                table.push((key, value));
                proof {
                    assert(entries_view(table@) =~= before.push((key@, vv)));
                }
            },
        }
        i = i + 1;
        assert(rest@ =~= ies0@.skip(i as int));
    }
    assert(iv.take(i as int) =~= iv);
    table
}


/// A TOML document that could not be parsed: the parser's message, and the byte offset where
/// the problem starts when the parser knows it.
#[derive(Debug, PartialEq, Eq)]
pub struct TomlFailure {
    pub message: String,
    pub offset: Option<usize>,
}

/// What the `toml` crate makes of a document: its value, or its error message and offset.
pub uninterp spec fn toml_document(text: Seq<char>) -> Result<ValueView, (Seq<char>, Option<usize>)>;

#[verifier::external_type_specification]
#[verifier::external_body]
pub struct ExTomlValue(toml::Value);

/// A `toml::Value` as a `ConfigValue`, variant for variant.
#[verifier::external_body]
fn config_value_of(value: toml::Value) -> ConfigValue {
    match value {
        toml::Value::String(s) => ConfigValue::String(s),
        toml::Value::Integer(i) => ConfigValue::Integer(i),
        toml::Value::Float(f) => ConfigValue::Float(f.to_string()),
        toml::Value::Boolean(b) => ConfigValue::Boolean(b),
        toml::Value::Datetime(d) => ConfigValue::Datetime(d.to_string()),
        toml::Value::Array(a) => ConfigValue::Array(a.into_iter().map(config_value_of).collect()),
        toml::Value::Table(t) => ConfigValue::Table(t.into_iter().map(|(k, v)| (k, config_value_of(v))).collect()),
    }
}

/// Parses a TOML document with `toml::from_str`. The result is named, not stated: it is the
/// `toml` crate's reading of the text, its error message being the error's `Display` text and
/// its offset the start of the error's span.
#[verifier::external_body]
pub(crate) fn parse_toml(text: &str) -> (r: Result<ConfigValue, TomlFailure>)
    ensures
        match r {
            Ok(v) => toml_document(text@) == Ok::<ValueView, (Seq<char>, Option<usize>)>(v@),
            Err(f) => toml_document(text@) == Err::<ValueView, (Seq<char>, Option<usize>)>((f.message@, f.offset)),
        },
{
    match toml::from_str::<toml::Value>(text) {
        Ok(v) => Ok(config_value_of(v)),
        Err(e) => Err(TomlFailure { message: e.to_string(), offset: e.span().map(|span| span.start) }),
    }
}

/// Rewrites a document of an older schema into the next one.
pub trait ConfigMigrate {
    fn migrate(&self, value: ConfigValue) -> Result<ConfigValue, String>;
}

/// Whether position `i` holds the first migration registered from a version.
pub open spec fn first_migration_at(ms: Seq<ConfigMigration>, from: u16, i: int) -> bool {
    &&& 0 <= i < ms.len()
    &&& ms[i].spec_from() == from
    &&& forall|j: int| 0 <= j < i ==> (#[trigger] ms[j]).spec_from() != from
}

proof fn lemma_first_migration_unique(ms: Seq<ConfigMigration>, from: u16, a: int, b: int)
    requires
        first_migration_at(ms, from, a),
        first_migration_at(ms, from, b),
    ensures
        a == b,
{
    if a < b {
        assert(ms[a].spec_from() != from);
    } else if b < a {
        assert(ms[b].spec_from() != from);
    }
}

/// The migration targets of a list that differs from another only at a position where both
/// migrate from the same version, now holding `m`.
proof fn lemma_first_migration_after_change(
    before: Seq<ConfigMigration>,
    after: Seq<ConfigMigration>,
    i: int,
    m: ConfigMigration,
)
    requires
        0 <= i < before.len(),
        after.len() == before.len(),
        after[i] == m,
        before[i].spec_from() == m.spec_from(),
        forall|j: int| 0 <= j < after.len() && j != i ==> after[j] == before[j],
        forall|j: int| 0 <= j < i ==> (#[trigger] before[j]).spec_from() != m.spec_from(),
    ensures
        migration_target(after, m.spec_from()) == Some(m.spec_to()),
        forall|f: u16|
            f != m.spec_from() ==> #[trigger] migration_target(after, f) == migration_target(
                before,
                f,
            ),
{
    assert(first_migration_at(after, m.spec_from(), i)) by {
        assert forall|j: int| 0 <= j < i implies (#[trigger] after[j]).spec_from() != m.spec_from() by {
            assert(after[j] == before[j]);
        }
    }
    let a = choose|k: int| first_migration_at(after, m.spec_from(), k);
    lemma_first_migration_unique(after, m.spec_from(), a, i);
    assert forall|f: u16| f != m.spec_from() implies #[trigger] migration_target(after, f)
        == migration_target(before, f) by {
        assert forall|k: int| #[trigger] first_migration_at(after, f, k) implies first_migration_at(
            before,
            f,
            k,
        ) by {
            assert(after[k] == before[k]);
            assert forall|j: int| 0 <= j < k implies (#[trigger] before[j]).spec_from() != f by {
                assert(after[j].spec_from() != f);
            }
        }
        assert forall|k: int| #[trigger] first_migration_at(before, f, k) implies first_migration_at(
            after,
            f,
            k,
        ) by {
            assert(after[k] == before[k]);
            assert forall|j: int| 0 <= j < k implies (#[trigger] after[j]).spec_from() != f by {
                assert(before[j].spec_from() != f);
            }
        }
        if exists|k: int| first_migration_at(before, f, k) {
            let x = choose|k: int| first_migration_at(after, f, k);
            let y = choose|k: int| first_migration_at(before, f, k);
            lemma_first_migration_unique(before, f, x, y);
        }
    }
}

/// The migration targets of a list with a migration from a new version appended.
proof fn lemma_first_migration_after_push(
    before: Seq<ConfigMigration>,
    after: Seq<ConfigMigration>,
    m: ConfigMigration,
)
    requires
        after.len() == before.len() + 1,
        after[before.len() as int] == m,
        forall|j: int| 0 <= j < before.len() ==> after[j] == before[j],
        forall|j: int| 0 <= j < before.len() ==> (#[trigger] before[j]).spec_from() != m.spec_from(),
    ensures
        migration_target(after, m.spec_from()) == Some(m.spec_to()),
        forall|f: u16|
            f != m.spec_from() ==> #[trigger] migration_target(after, f) == migration_target(
                before,
                f,
            ),
{
    let n = before.len() as int;
    assert(first_migration_at(after, m.spec_from(), n)) by {
        assert forall|j: int| 0 <= j < n implies (#[trigger] after[j]).spec_from() != m.spec_from() by {
            assert(after[j] == before[j]);
        }
    }
    let a = choose|k: int| first_migration_at(after, m.spec_from(), k);
    lemma_first_migration_unique(after, m.spec_from(), a, n);
    assert forall|f: u16| f != m.spec_from() implies #[trigger] migration_target(after, f)
        == migration_target(before, f) by {
        assert forall|k: int| #[trigger] first_migration_at(after, f, k) implies first_migration_at(
            before,
            f,
            k,
        ) by {
            assert(k != n);
            assert(after[k] == before[k]);
            assert forall|j: int| 0 <= j < k implies (#[trigger] before[j]).spec_from() != f by {
                assert(after[j].spec_from() != f);
            }
        }
        assert forall|k: int| #[trigger] first_migration_at(before, f, k) implies first_migration_at(
            after,
            f,
            k,
        ) by {
            assert(after[k] == before[k]);
            assert forall|j: int| 0 <= j < k implies (#[trigger] after[j]).spec_from() != f by {
                assert(before[j].spec_from() != f);
            }
        }
        if exists|k: int| first_migration_at(before, f, k) {
            let x = choose|k: int| first_migration_at(after, f, k);
            let y = choose|k: int| first_migration_at(before, f, k);
            lemma_first_migration_unique(before, f, x, y);
        }
    }
}

/// The target of the first migration of a list registered from a version, if any.
pub open spec fn migration_target(ms: Seq<ConfigMigration>, from: u16) -> Option<u16> {
    if exists|i: int| first_migration_at(ms, from, i) {
        let i = choose|i: int| first_migration_at(ms, from, i);
        Some(ms[i].spec_to())
    } else {
        None
    }
}

/// A registered migration from one schema version to a later one.
pub struct ConfigMigration {
    from: u16,
    to: u16,
    migrate: Box<dyn ConfigMigrate>,
}

impl ConfigMigration {
    pub closed spec fn spec_from(&self) -> u16 {
        self.from
    }

    pub closed spec fn spec_to(&self) -> u16 {
        self.to
    }

    pub fn new(from: u16, to: u16, migrate: Box<dyn ConfigMigrate>) -> (r: Self)
        ensures
            r.spec_from() == from,
            r.spec_to() == to,
    {
        ConfigMigration { from, to, migrate }
    }
}


/// What a configuration error says.
pub type ConfigErrorView = (Seq<char>, usize, usize, Option<Seq<char>>, ConfigErrorKind, Seq<char>);

pub open spec fn error_view(e: ConfigError) -> ConfigErrorView {
    (
        e.source@,
        e.line,
        e.column,
        match e.field {
            Some(f) => Some(f@),
            None => None,
        },
        e.kind,
        e.message@,
    )
}

/// The value of a key of a table value.
pub open spec fn table_get(v: ValueView, key: Seq<char>) -> Option<ValueView> {
    match v {
        ValueView::Table(es) => match find_key(es, key) {
            Some(i) => if 0 <= i < es.len() {
                Some(es[i].1)
            } else {
                None
            },
            None => None,
        },
        _ => None,
    }
}

/// The position a schema diagnostic points at: the `schema` assignment, else the start.
pub open spec fn schema_position(text: Seq<char>) -> (usize, usize) {
    let positions = crate::config_text::spec_assignment_positions(text);
    if positions.contains_key("schema"@) {
        positions["schema"@]
    } else {
        (1, 1)
    }
}

pub open spec fn schema_error_view(layer: ConfigLayer, kind: ConfigErrorKind, message: Seq<char>) -> ConfigErrorView {
    let pos = schema_position(layer.text@);
    (layer.source@, pos.0, pos.1, Some("schema"@), kind, message)
}

/// Text of a number.
pub open spec fn num(n: int) -> Seq<char> {
    if n < 0 {
        seq!['-'] + decimal((-n) as nat)
    } else {
        decimal(n as nat)
    }
}

/// How a layer's document is refused before any migration runs, if it is.
pub open spec fn document_refusal(layer: ConfigLayer, version: u16) -> Option<ConfigErrorView> {
    match toml_document(layer.text@) {
        Err(failure) => {
            let pos = match failure.1 {
                Some(offset) => crate::config_text::spec_line_column(vstd::utf8::encode_utf8(layer.text@), offset as int),
                None => (1, 1),
            };
            Some((layer.source@, pos.0 as usize, pos.1 as usize, None, ConfigErrorKind::Parse, failure.0))
        },
        Ok(doc) => match table_get(doc, "schema"@) {
            None => Some(schema_error_view(layer, ConfigErrorKind::MissingSchema, "missing schema"@)),
            Some(ValueView::Integer(n)) => if n < 0 || n > u16::MAX {
                Some(
                    schema_error_view(
                        layer,
                        ConfigErrorKind::InvalidSchema,
                        "schema is outside the supported integer range"@,
                    ),
                )
            } else if n > version {
                Some(
                    schema_error_view(
                        layer,
                        ConfigErrorKind::UnsupportedSchema,
                        "schema "@ + num(n as int) + " is newer than supported schema "@ + num(
                            version as int,
                        ),
                    ),
                )
            } else {
                None
            },
            Some(_) => Some(
                schema_error_view(layer, ConfigErrorKind::InvalidSchema, "schema must be an integer"@),
            ),
        },
    }
}

/// The schema version a layer's document declares, when it parses and declares one.
pub open spec fn document_schema(layer: ConfigLayer) -> Option<int> {
    match toml_document(layer.text@) {
        Ok(doc) => match table_get(doc, "schema"@) {
            Some(ValueView::Integer(n)) => Some(n as int),
            _ => None,
        },
        Err(_) => None,
    }
}

/// A layer may take part: it is not an untrusted workspace layer, its document parses and
/// declares a supported schema, and its text fits the machine's offsets.
pub open spec fn layer_acceptable(layer: ConfigLayer, version: u16) -> bool {
    !(layer.kind == ConfigLayerKind::Workspace && !layer.trusted) && document_refusal(layer, version)
        is None
}

pub open spec fn text_fits(layer: ConfigLayer) -> bool {
    crate::config_text::utf8_len(layer.text@) < usize::MAX && vstd::utf8::encode_utf8(layer.text@).len() < usize::MAX
}

/// Precedence order of layers: by kind, then priority, then source.
pub open spec fn layer_before(a: ConfigLayer, b: ConfigLayer) -> bool {
    layer_rank(a.kind) < layer_rank(b.kind) || (layer_rank(a.kind) == layer_rank(b.kind) && (a.priority
        < b.priority || (a.priority == b.priority && crate::strmap::lex_lt(a.source@, b.source@))))
}

/// Where a layer goes among layers already in order: after every layer it does not precede.
pub open spec fn insertion_point(s: Seq<ConfigLayer>, x: ConfigLayer) -> int
    decreases s.len(),
{
    if s.len() == 0 {
        0
    } else if layer_before(x, s[0]) {
        0
    } else {
        1 + insertion_point(s.drop_first(), x)
    }
}

/// The layers in precedence order, equal layers keeping their given order.
pub open spec fn sorted_layers(s: Seq<ConfigLayer>) -> Seq<ConfigLayer>
    decreases s.len(),
{
    if s.len() == 0 {
        Seq::empty()
    } else {
        let prev = sorted_layers(s.drop_last());
        prev.insert(insertion_point(prev, s.last()), s.last())
    }
}

/// The effective value and origins after merging the layers' prepared values in order.
pub open spec fn merged_layers(
    layers: Seq<ConfigLayer>,
    values: Seq<ValueView>,
    migrated: Seq<Option<u16>>,
) -> (ValueView, Map<Seq<char>, OriginView>)
    decreases layers.len(),
{
    if layers.len() == 0 || values.len() < layers.len() || migrated.len() < layers.len() {
        (ValueView::Table(Seq::empty()), Map::empty())
    } else {
        let n = layers.len() - 1;
        let prev = merged_layers(layers.drop_last(), values.take(n), migrated.take(n));
        let layer = layers[n];
        merged(
            prev.0,
            values[n],
            Seq::empty(),
            (
                layer.kind,
                layer.source@,
                crate::config_text::spec_assignment_positions(layer.text@),
                migrated[n],
            ),
            prev.1,
        )
    }
}

/// The resolved configuration: the merged value and where each leaf field was set.
#[derive(Debug, PartialEq, Eq)]
pub struct EffectiveConfig {
    value: ConfigValue,
    origins: StrMap<ConfigOrigin>,
}

impl EffectiveConfig {
    pub closed spec fn spec_value(&self) -> ValueView {
        self.value@
    }

    pub closed spec fn spec_origins(&self) -> Map<Seq<char>, OriginView> {
        origin_views(self.origins.map())
    }

    pub fn value(&self) -> (r: &ConfigValue)
        ensures
            r@ == self.spec_value(),
    {
        &self.value
    }

    pub fn origin(&self, field: &str) -> (r: Option<&ConfigOrigin>)
        ensures
            match r {
                Some(o) => self.spec_origins().contains_key(field@) && origin_view(*o) == self.spec_origins()[field@],
                None => !self.spec_origins().contains_key(field@),
            },
    {
        self.origins.get(field)
    }

    pub fn origins(&self) -> (r: &StrMap<ConfigOrigin>)
        ensures
            origin_views(r.map()) == self.spec_origins(),
    {
        &self.origins
    }

    /// The merged value and the origins of its fields, taken apart.
    pub fn into_parts(self) -> (r: (ConfigValue, StrMap<ConfigOrigin>))
        ensures
            r.0@ == self.spec_value(),
            origin_views(r.1.map()) == self.spec_origins(),
    {
        (self.value, self.origins)
    }
}

/// Resolves layered configuration documents of one schema version, migrating older ones.
pub struct ConfigEngine {
    schema_version: u16,
    migrations: Vec<ConfigMigration>,
}

impl Default for ConfigEngine {
    fn default() -> (r: Self)
        ensures
            r.spec_version() == CONFIG_SCHEMA_VERSION,
    {
        ConfigEngine::new(CONFIG_SCHEMA_VERSION)
    }
}

fn integer_text(n: i64) -> (r: String)
    ensures
        r@ == num(n as int),
{
    if n < 0 {
        let mut s = "-".to_owned();
        let magnitude: u64 = if n == i64::MIN {
            9223372036854775808u64
        } else {
            (-n) as u64
        };
        let digits = crate::text::u64_decimal(magnitude);
        push_str(&mut s, digits.as_str());
        proof {
            reveal_strlit("-");
        }
        s
    } else {
        crate::text::u64_decimal(n as u64)
    }
}

fn schema_error(layer: &ConfigLayer, kind: ConfigErrorKind, message: &str) -> (r: ConfigError)
    requires
        text_fits(*layer),
    ensures
        error_view(r) == schema_error_view(*layer, kind, message@),
{
    let positions = crate::config_text::assignment_positions(layer.text.as_str());
    let (line, column) = match positions.get("schema") {
        Some(p) => *p,
        None => (1, 1),
    };
    ConfigError {
        source: layer.source.clone(),
        line,
        column,
        field: Some("schema".to_owned()),
        kind,
        message: message.to_owned(),
    }
}

impl ConfigEngine {
    pub closed spec fn spec_version(&self) -> u16 {
        self.schema_version
    }

    /// The target of the first migration registered from a schema version, if any.
    pub closed spec fn spec_migration_from(&self, from: u16) -> Option<u16> {
        migration_target(self.migrations@, from)
    }

    /// Where following the registered migrations from a version ends.
    pub closed spec fn chain_end(&self, s: u16) -> ChainEnd {
        migration_chain_end(self.migrations@, self.schema_version, s)
    }

    pub fn new(schema_version: u16) -> (r: Self)
        ensures
            r.spec_version() == schema_version,
            forall|from: u16| r.spec_migration_from(from) is None,
    {
        ConfigEngine { schema_version, migrations: Vec::new() }
    }

    /// Registers a migration, replacing one registered from the same version.
    pub fn with_migration(self, migration: ConfigMigration) -> (r: Self)
        ensures
            r.spec_version() == self.spec_version(),
            r.spec_migration_from(migration.spec_from()) == Some(migration.spec_to()),
            forall|f: u16|
                f != migration.spec_from() ==> #[trigger] r.spec_migration_from(f)
                    == self.spec_migration_from(f),
    {
        let ghost old_ms = self.migrations@;
        let ghost m = migration;
        let mut migrations = self.migrations;
        let mut i: usize = 0;
        while i < migrations.len()
            invariant
                i <= migrations@.len(),
                migrations@ == old_ms,
                m == migration,
                old_ms == self.migrations@,
                forall|j: int| 0 <= j < i ==> (#[trigger] old_ms[j]).spec_from() != m.spec_from(),
            decreases migrations@.len() - i,
        {
            if migrations[i].from == migration.from {
                migrations.remove(i);
                migrations.insert(i, migration);
                let r = ConfigEngine { schema_version: self.schema_version, migrations };
                proof {
                    let ms = r.migrations@;
                    old_ms.remove_ensures(i as int);
                    old_ms.remove(i as int).insert_ensures(i as int, m);
                    assert(ms.len() == old_ms.len());
                    assert(ms[i as int] == m);
                    assert(forall|j: int| 0 <= j < ms.len() && j != i ==> ms[j] == old_ms[j]);
                    assert(old_ms[i as int].spec_from() == m.spec_from());
                    lemma_first_migration_after_change(old_ms, ms, i as int, m);
                }
                return r;
            }
            i = i + 1;
        }
        migrations.push(migration);
        let r = ConfigEngine { schema_version: self.schema_version, migrations };
        proof {
            let ms = r.migrations@;
            let n = old_ms.len() as int;
            assert(ms.len() == n + 1);
            assert(ms[n] == m);
            assert(forall|j: int| 0 <= j < n ==> ms[j] == old_ms[j]);
            lemma_first_migration_after_push(old_ms, ms, m);
        }
        r
    }

    fn find_migration(&self, from: u16) -> (r: Option<usize>)
        ensures
            match r {
                Some(i) => i < self.migrations@.len() && self.migrations@[i as int].spec_from() == from
                    && self.spec_migration_from(from) == Some(self.migrations@[i as int].spec_to()),
                None => self.spec_migration_from(from) is None,
            },
    {
        let mut i: usize = 0;
        while i < self.migrations.len()
            invariant
                i <= self.migrations@.len(),
                forall|j: int| 0 <= j < i ==> self.migrations@[j].spec_from() != from,
            decreases self.migrations@.len() - i,
        {
            if self.migrations[i].from == from {
                proof {
                    assert(first_migration_at(self.migrations@, from, i as int));
                    let a = choose|k: int| first_migration_at(self.migrations@, from, k);
                    lemma_first_migration_unique(self.migrations@, from, a, i as int);
                }
                return Some(i);
            }
            i = i + 1;
        }
        None
    }

    /// Parses a layer, checks its schema and migrates it to the current schema.
    fn parse_and_migrate(&self, layer: &ConfigLayer) -> (r: Result<(ConfigValue, Option<u16>), ConfigError>)
        requires
            text_fits(*layer),
        ensures
            match document_refusal(*layer, self.spec_version()) {
                Some(ev) => r matches Err(e) && error_view(e) == ev,
                None => match r {
                    Ok((v, migrated)) => {
                        &&& document_schema(*layer) == Some(self.spec_version() as int) ==> (migrated is None
                            && toml_document(layer.text@) == Ok::<ValueView, (Seq<char>, Option<usize>)>(v@))
                        &&& document_schema(*layer) != Some(self.spec_version() as int) ==> migrated
                            == Some(document_schema(*layer).unwrap() as u16)
                        &&& self.chain_end(document_schema(*layer).unwrap() as u16) is Reached
                    },
                    Err(e) => {
                        &&& document_schema(*layer) != Some(self.spec_version() as int)
                        &&& e.source@ == layer.source@
                        &&& (migration_refused(e) || match self.chain_end(
                            document_schema(*layer).unwrap() as u16,
                        ) {
                            ChainEnd::Missing(s) => error_view(e) == schema_error_view(
                                *layer,
                                ConfigErrorKind::MissingMigration,
                                "no migration registered from schema "@ + num(s as int),
                            ),
                            ChainEnd::Stalled(_) => error_view(e) == schema_error_view(
                                *layer,
                                ConfigErrorKind::Migration,
                                "migration must advance the schema version"@,
                            ),
                            ChainEnd::Reached => false,
                        })
                    },
                },
            },
    {
        let mut value = match parse_toml(layer.text.as_str()) {
            Ok(v) => v,
            Err(failure) => {
                let (line, column) = match failure.offset {
                    Some(offset) => crate::config_text::line_column(layer.text.as_str(), offset),
                    None => (1, 1),
                };
                return Err(
                    ConfigError {
                        source: layer.source.clone(),
                        line,
                        column,
                        field: None,
                        kind: ConfigErrorKind::Parse,
                        message: failure.message,
                    },
                );
            },
        };
        let ghost doc = value@;
        let declared = match &value {
            ConfigValue::Table(entries) => {
                proof {
                    lemma_table_view(value);
                }
                match find_entry(entries, "schema") {
                    Some(i) => {
                        assert(entries_view(entries@)[i as int].1 == entries@[i as int].1@);
                        match &entries[i].1 {
                            ConfigValue::Integer(n) => Some(*n),
                            _ => {
                                return Err(schema_error(layer, ConfigErrorKind::InvalidSchema, "schema must be an integer"));
                            },
                        }
                    },
                    None => None,
                }
            },
            _ => None,
        };
        let n = match declared {
            Some(n) => n,
            None => {
                return Err(schema_error(layer, ConfigErrorKind::MissingSchema, "missing schema"));
            },
        };
        assert(table_get(doc, "schema"@) == Some(ValueView::Integer(n)));
        if n < 0 || n > 65535 {
            return Err(
                schema_error(layer, ConfigErrorKind::InvalidSchema, "schema is outside the supported integer range"),
            );
        }
        let mut schema: u16 = n as u16;
        if schema > self.schema_version {
            let mut message = "schema ".to_owned();
            let a = integer_text(n);
            push_str(&mut message, a.as_str());
            push_str(&mut message, " is newer than supported schema ");
            let b = integer_text(self.schema_version as i64);
            push_str(&mut message, b.as_str());
            return Err(schema_error(layer, ConfigErrorKind::UnsupportedSchema, message.as_str()));
        }
        let migrated_from = if schema < self.schema_version {
            Some(schema)
        } else {
            None
        };
        assert(document_schema(*layer) == Some(n as int));
        assert(document_refusal(*layer, self.spec_version()) is None);
        if schema == self.schema_version {
            return Ok((value, migrated_from));
        }
        while schema < self.schema_version
            invariant
                migrated_from == Some(n as u16),
                0 <= n < self.schema_version,
                text_fits(*layer),
                document_schema(*layer) == Some(n as int),
                document_refusal(*layer, self.spec_version()) is None,
                self.chain_end(schema) == self.chain_end(n as u16),
            decreases if schema < self.schema_version {
                self.schema_version as int - schema as int
            } else {
                0
            },
        {
            let index = match self.find_migration(schema) {
                Some(i) => i,
                None => {
                    let mut message = "no migration registered from schema ".to_owned();
                    proof {
                        reveal_strlit("no migration registered from schema ");
                    }
                    let a = integer_text(schema as i64);
                    push_str(&mut message, a.as_str());
                    return Err(schema_error(layer, ConfigErrorKind::MissingMigration, message.as_str()));
                },
            };
            let migration = &self.migrations[index];
            if migration.to <= schema {
                proof {
                    reveal_strlit("migration must advance the schema version");
                }
                return Err(
                    schema_error(layer, ConfigErrorKind::Migration, "migration must advance the schema version"),
                );
            }
            value = match migration.migrate.migrate(value) {
                Ok(v) => v,
                Err(message) => {
                    return Err(
                        ConfigError {
                            source: layer.source.clone(),
                            line: 1,
                            column: 1,
                            field: Some({
                                proof {
                                    reveal_strlit("schema");
                                }
                                "schema".to_owned()
                            }),
                            kind: ConfigErrorKind::Migration,
                            message,
                        },
                    );
                },
            };
            let next = migration.to;
            assert(next > schema);
            schema = next;
            value = set_schema(value, schema);
        }
        Ok((value, migrated_from))
    }
}

/// A migrated table with its `schema` key set to the version reached; a value that is not a
/// table is left as it is.
pub(crate) fn set_schema(value: ConfigValue, schema: u16) -> (r: ConfigValue)
    ensures
        match value {
            ConfigValue::Table(entries) => r is Table && r@ == ValueView::Table(
                with_schema_entry(entries_view(entries@), schema as int),
            ),
            _ => r == value,
        },
{
    match value {
        ConfigValue::Table(entries) => {
            let ghost before = entries@;
            let mut entries = entries;
            proof {
                reveal_strlit("schema");
                lemma_find_key_found(entries_view(before), "schema"@);
            }
            match find_entry(&entries, "schema") {
                Some(i) => {
                    let (key, _) = entries.remove(i);
                    entries.insert(i, (key, ConfigValue::Integer(schema as i64)));
                    proof {
                        before.remove_ensures(i as int);
                        before.remove(i as int).insert_ensures(
                            i as int,
                            (key, ConfigValue::Integer(schema as i64)),
                        );
                        assert(entries_view(entries@) =~= with_schema_entry(
                            entries_view(before),
                            schema as int,
                        ));
                    }
                },
                None => {
                    entries.push(("schema".to_owned(), ConfigValue::Integer(schema as i64)));
                    assert(entries_view(entries@) =~= with_schema_entry(
                        entries_view(before),
                        schema as int,
                    ));
                },
            }
            let r = ConfigValue::Table(entries);
            proof {
                lemma_table_view(r);
            }
            r
        },
        other => other,
    }
}


/// How the error of a refused layer reads: an untrusted workspace layer is refused first,
/// then a document that does not parse or declares no supported schema, and otherwise a
/// missing or failing migration.
pub open spec fn layer_error_fits(layer: ConfigLayer, e: ConfigError, version: u16) -> bool {
    if layer.kind == ConfigLayerKind::Workspace && !layer.trusted {
        error_view(e) == (
            layer.source@,
            1usize,
            1usize,
            None::<Seq<char>>,
            ConfigErrorKind::UntrustedWorkspace,
            "workspace configuration is not trusted"@,
        )
    } else {
        match document_refusal(layer, version) {
            Some(ev) => error_view(e) == ev,
            None => document_schema(layer) != Some(version as int) && (e.kind
                == ConfigErrorKind::MissingMigration || e.kind == ConfigErrorKind::Migration)
                && e.source@ == layer.source@,
        }
    }
}

/// The prepared values of layers agree with their documents wherever no migration was needed.
pub open spec fn prepared(
    layers: Seq<ConfigLayer>,
    values: Seq<ValueView>,
    migrated: Seq<Option<u16>>,
    version: u16,
) -> bool {
    &&& values.len() == layers.len()
    &&& migrated.len() == layers.len()
    &&& forall|i: int|
        0 <= i < layers.len() && document_schema(#[trigger] layers[i]) == Some(version as int) ==> migrated[i] is None
            && toml_document(layers[i].text@) == Ok::<ValueView, (Seq<char>, Option<usize>)>(values[i])
}

impl ConfigError {
    pub fn duplicate(&self) -> (r: Self)
        ensures
            r == *self,
    {
        ConfigError {
            source: self.source.clone(),
            line: self.line,
            column: self.column,
            field: match &self.field {
                Some(f) => Some(f.clone()),
                None => None,
            },
            kind: self.kind,
            message: self.message.clone(),
        }
    }
}

fn layer_before_exec(a: &ConfigLayer, b: &ConfigLayer) -> (r: bool)
    ensures
        r == layer_before(*a, *b),
{
    let ra = layer_rank_of(a.kind);
    let rb = layer_rank_of(b.kind);
    if ra != rb {
        return ra < rb;
    }
    if a.priority != b.priority {
        return a.priority < b.priority;
    }
    match crate::strmap::compare_str(a.source.as_str(), b.source.as_str()) {
        crate::strmap::Cmp3::Less => true,
        _ => false,
    }
}

/// The layers in precedence order; equal layers keep their order.
fn sort_layers(layers: Vec<ConfigLayer>) -> (r: Vec<ConfigLayer>)
    ensures
        r@ == sorted_layers(layers@),
{
    let ghost all = layers@;
    let count = layers.len();
    let mut rest = layers;
    let mut out: Vec<ConfigLayer> = Vec::new();
    let mut i: usize = 0;
    assert(all.take(0) =~= Seq::<ConfigLayer>::empty());
    assert(rest@ =~= all.skip(0));
    while rest.len() > 0
        invariant
            i <= all.len(),
            all.len() == count,
            rest@ == all.skip(i as int),
            out@ == sorted_layers(all.take(i as int)),
        decreases rest@.len(),
    {
        let x = rest.remove(0);
        assert(x == all[i as int]);
        let mut p: usize = 0;
        assert(out@.skip(0) =~= out@);
        while p < out.len() && !layer_before_exec(&x, &out[p])
            invariant
                p <= out@.len(),
                insertion_point(out@, x) == p + insertion_point(out@.skip(p as int), x),
            decreases out@.len() - p,
        {
            assert(out@.skip(p as int).drop_first() =~= out@.skip(p + 1));
            p = p + 1;
        }
        proof {
            if p < out@.len() {
                assert(out@.skip(p as int)[0] == out@[p as int]);
            }
            assert(all.take(i + 1).drop_last() =~= all.take(i as int));
        }
        out.insert(p, x);
        i = i + 1;
        assert(rest@ =~= all.skip(i as int));
    }
    assert(all.take(i as int) =~= all);
    out
}

impl ConfigEngine {
    /// Resolves layers in precedence order: later layers override earlier ones field by
    /// field, and each leaf field remembers the layer that set it.
    pub fn resolve(&self, layers: Vec<ConfigLayer>) -> (r: Result<EffectiveConfig, ConfigError>)
        requires
            forall|i: int| 0 <= i < layers@.len() ==> text_fits(#[trigger] layers@[i]),
        ensures
            match r {
                Ok(cfg) => {
                    &&& forall|i: int|
                        0 <= i < sorted_layers(layers@).len() ==> layer_acceptable(
                            #[trigger] sorted_layers(layers@)[i],
                            self.spec_version(),
                        )
                    &&& exists|values: Seq<ValueView>, migrated: Seq<Option<u16>>|
                        prepared(sorted_layers(layers@), values, migrated, self.spec_version())
                            && (cfg.spec_value(), cfg.spec_origins()) == merged_layers(
                            sorted_layers(layers@),
                            values,
                            migrated,
                        )
                },
                Err(e) => exists|i: int|
                    0 <= i < sorted_layers(layers@).len() && (forall|j: int|
                        0 <= j < i ==> layer_acceptable(#[trigger] sorted_layers(layers@)[j], self.spec_version()))
                        && layer_error_fits(sorted_layers(layers@)[i], e, self.spec_version()),
            },
            (forall|i: int|
                0 <= i < sorted_layers(layers@).len() ==> layer_acceptable(#[trigger] sorted_layers(layers@)[i], self.spec_version())
                    && document_schema(sorted_layers(layers@)[i]) == Some(self.spec_version() as int))
                ==> r is Ok,
    {
        let ghost given = layers@;
        proof {
            lemma_sorted_layers_members(given);
        }
        let sorted = sort_layers(layers);
        let ghost all = sorted@;
        let empty: Vec<(String, ConfigValue)> = Vec::new();
        assert(entries_view(empty@) =~= Seq::<(Seq<char>, ValueView)>::empty());
        let mut effective = ConfigValue::Table(empty);
        let mut origins: StrMap<ConfigOrigin> = StrMap::new();
        let ghost mut values: Seq<ValueView> = Seq::empty();
        let ghost mut migrated: Seq<Option<u16>> = Seq::empty();
        proof {
            lemma_table_view(effective);
            assert(effective@ =~= ValueView::Table(Seq::empty()));
            assert(origin_views(origins.map()) =~= Map::<Seq<char>, OriginView>::empty());
            assert(all.take(0) =~= Seq::<ConfigLayer>::empty());
        }
        let mut i: usize = 0;
        while i < sorted.len()
            invariant
                i <= all.len(),
                sorted@ == all,
                given == layers@,
                all == sorted_layers(given),
                forall|j: int| 0 <= j < all.len() ==> text_fits(#[trigger] all[j]),
                forall|j: int| 0 <= j < i ==> layer_acceptable(#[trigger] all[j], self.spec_version()),
                prepared(all.take(i as int), values, migrated, self.spec_version()),
                (effective@, origin_views(origins.map())) == merged_layers(all.take(i as int), values, migrated),
            decreases all.len() - i,
        {
            let layer = &sorted[i];
            let untrusted = match layer.kind {
                ConfigLayerKind::Workspace => !layer.trusted,
                _ => false,
            };
            if untrusted {
                let e = ConfigError {
                    source: layer.source.clone(),
                    line: 1,
                    column: 1,
                    field: None,
                    kind: ConfigErrorKind::UntrustedWorkspace,
                    message: "workspace configuration is not trusted".to_owned(),
                };
                assert(layer_error_fits(all[i as int], e, self.spec_version()));
                assert(sorted_layers(given)[i as int] == all[i as int]);
                return Err(e);
            }
            let (value, from) = match self.parse_and_migrate(layer) {
                Ok(prepared) => prepared,
                Err(e) => {
                    assert(layer_error_fits(all[i as int], e, self.spec_version()));
                    assert(sorted_layers(given)[i as int] == all[i as int]);
                    return Err(e);
                },
            };
            let positions = crate::config_text::assignment_positions(layer.text.as_str());
            let ghost v = value@;
            let ghost before = (effective@, origin_views(origins.map()));
            effective = merge_value(effective, value, "", layer, &positions, from, &mut origins);
            proof {
                reveal_strlit("");
                assert(""@ =~= Seq::<char>::empty());
                let t = all.take(i + 1);
                assert(t.drop_last() =~= all.take(i as int));
                assert(t[i as int] == *layer);
                let nv = values.push(v);
                let nm = migrated.push(from);
                assert(nv.take(i as int) =~= values);
                assert(nm.take(i as int) =~= migrated);
                assert(merged_layers(t, nv, nm) == merged(
                    before.0,
                    v,
                    Seq::empty(),
                    (layer.kind, layer.source@, crate::config_text::spec_assignment_positions(layer.text@), from),
                    before.1,
                ));
                assert forall|j: int|
                    0 <= j < t.len() && document_schema(#[trigger] t[j]) == Some(self.spec_version() as int) implies nm[j] is None
                        && toml_document(t[j].text@) == Ok::<ValueView, (Seq<char>, Option<usize>)>(nv[j]) by {
                    if j < i {
                        assert(all.take(i as int)[j] == t[j]);
                    }
                }
                values = nv;
                migrated = nm;
            }
            i = i + 1;
        }
        assert(all.take(i as int) =~= all);
        Ok(EffectiveConfig { value: effective, origins })
    }
}

/// Sorting layers keeps the same layers.
proof fn lemma_sorted_layers_members(s: Seq<ConfigLayer>)
    ensures
        sorted_layers(s).len() == s.len(),
        forall|i: int| 0 <= i < sorted_layers(s).len() ==> s.contains(#[trigger] sorted_layers(s)[i]),
    decreases s.len(),
{
    if s.len() > 0 {
        lemma_sorted_layers_members(s.drop_last());
        let prev = sorted_layers(s.drop_last());
        lemma_insertion_point_bound(prev, s.last());
        assert forall|i: int| 0 <= i < sorted_layers(s).len() implies s.contains(#[trigger] sorted_layers(s)[i]) by {
            let p = insertion_point(prev, s.last());
            if i < p {
                assert(s.drop_last().contains(prev[i]));
            } else if i > p {
                assert(s.drop_last().contains(prev[i - 1]));
            } else {
                assert(s[s.len() - 1] == s.last());
            }
        }
    }
}

proof fn lemma_layer_before_asymmetric(a: ConfigLayer, b: ConfigLayer)
    requires
        layer_before(a, b),
    ensures
        !layer_before(b, a),
{
    if layer_rank(a.kind) == layer_rank(b.kind) && a.priority == b.priority {
        crate::strmap::lemma_lex_asymmetric(a.source@, b.source@);
    }
}

proof fn lemma_layer_before_transitive(a: ConfigLayer, b: ConfigLayer, c: ConfigLayer)
    requires
        layer_before(a, b),
        layer_before(b, c),
    ensures
        layer_before(a, c),
{
    if layer_rank(a.kind) == layer_rank(b.kind) && layer_rank(b.kind) == layer_rank(c.kind)
        && a.priority == b.priority && b.priority == c.priority {
        crate::strmap::lemma_lex_transitive(a.source@, b.source@, c.source@);
    }
}

proof fn lemma_insertion_point_place(s: Seq<ConfigLayer>, x: ConfigLayer)
    ensures
        forall|k: int| 0 <= k < insertion_point(s, x) ==> !layer_before(x, #[trigger] s[k]),
        insertion_point(s, x) < s.len() ==> layer_before(x, s[insertion_point(s, x)]),
    decreases s.len(),
{
    lemma_insertion_point_bound(s, x);
    if s.len() > 0 && !layer_before(x, s[0]) {
        lemma_insertion_point_place(s.drop_first(), x);
        lemma_insertion_point_bound(s.drop_first(), x);
        if insertion_point(s, x) < s.len() {
            assert(s[insertion_point(s, x)] == s.drop_first()[insertion_point(s.drop_first(), x)]);
        }
        assert forall|k: int| 0 <= k < insertion_point(s, x) implies !layer_before(x, #[trigger] s[k]) by {
            if k > 0 {
                assert(s[k] == s.drop_first()[k - 1]);
            }
        }
    }
}

/// No layer of the resolution order precedes one placed before it.
proof fn lemma_sorted_layers_ordered(s: Seq<ConfigLayer>)
    ensures
        forall|i: int, j: int|
            0 <= i < j < sorted_layers(s).len() ==> !layer_before(
                #[trigger] sorted_layers(s)[j],
                #[trigger] sorted_layers(s)[i],
            ),
    decreases s.len(),
{
    if s.len() > 0 {
        let prev = sorted_layers(s.drop_last());
        let x = s.last();
        lemma_sorted_layers_ordered(s.drop_last());
        lemma_insertion_point_bound(prev, x);
        lemma_insertion_point_place(prev, x);
        let p = insertion_point(prev, x);
        let out = sorted_layers(s);
        assert(out == prev.insert(p, x));
        prev.insert_ensures(p, x);
        assert forall|i: int, j: int| 0 <= i < j < out.len() implies !layer_before(
            #[trigger] out[j],
            #[trigger] out[i],
        ) by {
            if j < p {
                assert(out[i] == prev[i] && out[j] == prev[j]);
            } else if j == p {
                assert(out[i] == prev[i]);
            } else if i < p {
                assert(out[i] == prev[i] && out[j] == prev[j - 1]);
            } else if i == p {
                assert(out[j] == prev[j - 1]);
                if layer_before(prev[j - 1], x) {
                    if j - 1 == p {
                        lemma_layer_before_asymmetric(x, prev[p]);
                    } else {
                        lemma_layer_before_transitive(prev[j - 1], x, prev[p]);
                        assert(!layer_before(prev[j - 1], prev[p]));
                    }
                }
            } else {
                assert(out[i] == prev[i - 1] && out[j] == prev[j - 1]);
            }
        }
    }
}

proof fn lemma_find_key_update_same_key(
    s: Seq<(Seq<char>, ValueView)>,
    i: int,
    x: (Seq<char>, ValueView),
    k: Seq<char>,
)
    requires
        0 <= i < s.len(),
        s[i].0 == x.0,
    ensures
        find_key(s.update(i, x), k) == find_key(s, k),
    decreases s.len(),
{
    let u = s.update(i, x);
    if i > 0 {
        assert(u.drop_first() =~= s.drop_first().update(i - 1, x));
        lemma_find_key_update_same_key(s.drop_first(), i - 1, x, k);
    } else {
        assert(u.drop_first() =~= s.drop_first());
    }
}

proof fn lemma_find_key_push(s: Seq<(Seq<char>, ValueView)>, x: (Seq<char>, ValueView), k: Seq<char>)
    ensures
        find_key(s.push(x), k) == match find_key(s, k) {
            Some(i) => Some(i),
            None => if x.0 == k {
                Some(s.len() as int)
            } else {
                None
            },
        },
    decreases s.len(),
{
    let p = s.push(x);
    if s.len() > 0 {
        assert(p[0] == s[0]);
        assert(p.drop_first() =~= s.drop_first().push(x));
        lemma_find_key_push(s.drop_first(), x, k);
        assert(s.drop_first().len() + 1 == s.len());
    } else {
        assert(p[0] == x);
        assert(p.drop_first() =~= Seq::<(Seq<char>, ValueView)>::empty());
        assert(find_key(p.drop_first(), k) is None);
        assert(find_key(s, k) is None);
    }
}

/// After merging a layer's entries into a table, a key the layer sets once to a value that is
/// not a table holds that value.
proof fn lemma_merged_entries_sets_key(
    tes: Seq<(Seq<char>, ValueView)>,
    ies: Seq<(Seq<char>, ValueView)>,
    path: Seq<char>,
    ctx: LayerContext,
    o: Map<Seq<char>, OriginView>,
    j: int,
)
    requires
        0 <= j < ies.len(),
        !(ies[j].1 is Table),
        forall|m: int| 0 <= m < ies.len() && m != j ==> (#[trigger] ies[m]).0 != ies[j].0,
    ensures
        table_get(ValueView::Table(merged_entries(tes, ies, path, ctx, o).0), ies[j].0) == Some(ies[j].1),
    decreases ies.len(),
{
    let n = ies.len() - 1;
    let k = ies[j].0;
    let prev = merged_entries(tes, ies.drop_last(), path, ctx, o);
    let kl = ies[n].0;
    let v = ies[n].1;
    lemma_find_key_found(prev.0, kl);
    lemma_find_key_found(prev.0, k);
    if j < n {
        assert forall|m: int| 0 <= m < ies.drop_last().len() && m != j implies (#[trigger] ies.drop_last()[m]).0
            != ies.drop_last()[j].0 by {
            assert(ies.drop_last()[m] == ies[m]);
        }
        lemma_merged_entries_sets_key(tes, ies.drop_last(), path, ctx, o, j);
        assert(ies.drop_last()[j] == ies[j]);
        assert(kl != k);
        match find_key(prev.0, kl) {
            Some(i) => {
                let m = merged(prev.0[i].1, v, child_path(path, kl), ctx, prev.1);
                lemma_find_key_update_same_key(prev.0, i, (prev.0[i].0, m.0), k);
                let ik = find_key(prev.0, k).unwrap();
                assert(ik != i);
            },
            None => {
                lemma_find_key_push(prev.0, (kl, v), k);
            },
        }
    } else {
        match find_key(prev.0, k) {
            Some(i) => {
                let m = merged(prev.0[i].1, v, child_path(path, k), ctx, prev.1);
                assert(m.0 == v);
                lemma_find_key_update_same_key(prev.0, i, (prev.0[i].0, m.0), k);
            },
            None => {
                lemma_find_key_push(prev.0, (k, v), k);
            },
        }
    }
}

/// The last layer merged decides every field it sets to a value that is not a table: the
/// effective value of that key is the layer's value, whatever the earlier layers set. With
/// the precedence order of `law_layers_resolve_in_precedence_order`, a layer of greater
/// priority therefore wins over one of lower priority of the same kind.
pub proof fn law_last_layer_sets_its_fields(
    layers: Seq<ConfigLayer>,
    values: Seq<ValueView>,
    migrated: Seq<Option<u16>>,
    entries: Seq<(Seq<char>, ValueView)>,
    j: int,
)
    requires
        layers.len() > 0,
        values.len() == layers.len(),
        migrated.len() == layers.len(),
        values.last() == ValueView::Table(entries),
        0 <= j < entries.len(),
        !(entries[j].1 is Table),
        forall|m: int| 0 <= m < entries.len() && m != j ==> (#[trigger] entries[m]).0 != entries[j].0,
    ensures
        table_get(merged_layers(layers, values, migrated).0, entries[j].0) == Some(entries[j].1),
{
    let n = layers.len() - 1;
    assert(values[n] == values.last());
    let prev = merged_layers(layers.drop_last(), values.take(n), migrated.take(n));
    let layer = layers[n];
    let ctx: LayerContext = (
        layer.kind,
        layer.source@,
        crate::config_text::spec_assignment_positions(layer.text@),
        migrated[n],
    );
    match prev.0 {
        ValueView::Table(tes) => {
            lemma_merged_entries_sets_key(tes, entries, Seq::empty(), ctx, prev.1, j);
        },
        _ => {
            lemma_find_key_found(entries, entries[j].0);
            let f = find_key(entries, entries[j].0);
            if f is None {
                lemma_find_key_none(entries, entries[j].0, j);
            } else {
                let i = f.unwrap();
                if i != j {
                    assert(entries[i].0 == entries[j].0);
                }
            }
        },
    }
}

proof fn lemma_find_key_none(es: Seq<(Seq<char>, ValueView)>, k: Seq<char>, j: int)
    requires
        0 <= j < es.len(),
        es[j].0 == k,
    ensures
        find_key(es, k) is Some,
    decreases es.len(),
{
    if es[0].0 != k {
        assert(es.drop_first()[j - 1] == es[j]);
        lemma_find_key_none(es.drop_first(), k, j - 1);
    }
}

/// Of two layers of one kind, the one with the greater priority is resolved last, in
/// whichever order the two are given, so its values are the effective ones.
pub proof fn law_greater_priority_resolves_last(a: ConfigLayer, b: ConfigLayer)
    requires
        a.kind == b.kind,
        a.priority < b.priority,
    ensures
        sorted_layers(seq![a, b]) == seq![a, b],
        sorted_layers(seq![b, a]) == seq![a, b],
{
    let ab = seq![a, b];
    let ba = seq![b, a];
    assert(ab.drop_last() =~= seq![a]);
    assert(ba.drop_last() =~= seq![b]);
    assert(seq![a].drop_last() =~= Seq::<ConfigLayer>::empty());
    assert(seq![b].drop_last() =~= Seq::<ConfigLayer>::empty());
    let e = Seq::<ConfigLayer>::empty();
    assert(sorted_layers(e) =~= e);
    assert(insertion_point(e, a) == 0 && insertion_point(e, b) == 0);
    e.insert_ensures(0, a);
    e.insert_ensures(0, b);
    assert(e.insert(0, a) =~= seq![a]);
    assert(e.insert(0, b) =~= seq![b]);
    assert(sorted_layers(seq![a]) =~= seq![a]);
    assert(sorted_layers(seq![b]) =~= seq![b]);
    assert(!layer_before(b, a));
    assert(seq![a].drop_first() =~= Seq::<ConfigLayer>::empty());
    assert(insertion_point(seq![a], b) == 1);
    assert(insertion_point(seq![b], a) == 0);
    seq![a].insert_ensures(1, b);
    seq![b].insert_ensures(0, a);
    assert(seq![a].insert(1, b) =~= ab);
    assert(seq![b].insert(0, a) =~= ab);
}

/// Layers are resolved in precedence order: kind by kind (built-in, platform, plugin, user,
/// workspace, command line), and among layers of one kind by ascending priority, so a layer
/// with a greater priority is merged later and its values win.
pub proof fn law_layers_resolve_in_precedence_order(layers: Seq<ConfigLayer>)
    ensures
        forall|i: int, j: int|
            0 <= i < j < sorted_layers(layers).len() ==> layer_rank(
                (#[trigger] sorted_layers(layers)[i]).kind,
            ) <= layer_rank((#[trigger] sorted_layers(layers)[j]).kind),
        forall|i: int, j: int|
            0 <= i < j < sorted_layers(layers).len() && (#[trigger] sorted_layers(layers)[i]).kind
                == (#[trigger] sorted_layers(layers)[j]).kind ==> sorted_layers(layers)[i].priority
                <= sorted_layers(layers)[j].priority,
{
    lemma_sorted_layers_ordered(layers);
}

proof fn lemma_insertion_point_bound(s: Seq<ConfigLayer>, x: ConfigLayer)
    ensures
        0 <= insertion_point(s, x) <= s.len(),
    decreases s.len(),
{
    if s.len() > 0 {
        lemma_insertion_point_bound(s.drop_first(), x);
    }
}

/// The effective configuration, replaced only by a complete valid reload.
pub struct ConfigManager {
    engine: ConfigEngine,
    current: EffectiveConfig,
    last_error: Option<ConfigError>,
}

impl ConfigManager {
    pub closed spec fn spec_current(&self) -> EffectiveConfig {
        self.current
    }

    pub closed spec fn spec_last_error(&self) -> Option<ConfigError> {
        self.last_error
    }

    pub closed spec fn spec_version(&self) -> u16 {
        self.engine.spec_version()
    }

    /// A manager whose configuration is the resolution of the initial layers.
    pub fn new(engine: ConfigEngine, layers: Vec<ConfigLayer>) -> (r: Result<Self, ConfigError>)
        requires
            forall|i: int| 0 <= i < layers@.len() ==> text_fits(#[trigger] layers@[i]),
        ensures
            match r {
                Ok(m) => m.spec_last_error() is None && m.spec_version() == engine.spec_version(),
                Err(_) => true,
            },
            (forall|i: int|
                0 <= i < sorted_layers(layers@).len() ==> layer_acceptable(#[trigger] sorted_layers(layers@)[i], engine.spec_version())
                    && document_schema(sorted_layers(layers@)[i]) == Some(engine.spec_version() as int))
                ==> r is Ok,
    {
        let current = match engine.resolve(layers) {
            Ok(c) => c,
            Err(e) => {
                return Err(e);
            },
        };
        Ok(ConfigManager { engine, current, last_error: None })
    }

    pub fn current(&self) -> (r: &EffectiveConfig)
        ensures
            *r == self.spec_current(),
    {
        &self.current
    }

    pub fn last_error(&self) -> (r: Option<&ConfigError>)
        ensures
            match self.spec_last_error() {
                Some(e) => r == Some(&e),
                None => r is None,
            },
    {
        match &self.last_error {
            Some(e) => Some(e),
            None => None,
        }
    }

    /// Replaces the configuration with the resolution of new layers when it succeeds; when
    /// it fails, the last valid configuration stays and the failure is remembered.
    pub fn reload(&mut self, layers: Vec<ConfigLayer>) -> (r: Result<&EffectiveConfig, ReloadError>)
        requires
            forall|i: int| 0 <= i < layers@.len() ==> text_fits(#[trigger] layers@[i]),
        ensures
            final(self).spec_version() == old(self).spec_version(),
            match r {
                Ok(c) => *c == final(self).spec_current() && final(self).spec_last_error() is None,
                Err(e) => {
                    &&& e.retained_last_valid
                    &&& final(self).spec_current() == old(self).spec_current()
                    &&& final(self).spec_last_error() == Some(e.error)
                },
            },
    {
        match self.engine.resolve(layers) {
            Ok(current) => {
                self.current = current;
                self.last_error = None;
                Ok(&self.current)
            },
            Err(error) => {
                self.last_error = Some(error.duplicate());
                Err(ReloadError { error, retained_last_valid: true })
            },
        }
    }
}


/// What `toml::to_string_pretty` makes of a value: its text, or its error message.
pub uninterp spec fn toml_pretty(v: ValueView) -> Result<Seq<char>, Seq<char>>;

/// A `ConfigValue` as a `toml::Value`, variant for variant.
#[verifier::external_body]
fn toml_value_of(value: &ConfigValue) -> toml::Value {
    match value {
        ConfigValue::String(s) => s.clone().into(),
        ConfigValue::Integer(i) => (*i).into(),
        ConfigValue::Float(text) => text.parse().map_or(toml::Value::String(text.clone()), toml::Value::Float),
        ConfigValue::Boolean(b) => (*b).into(),
        ConfigValue::Datetime(d) => d.parse().map_or(toml::Value::String(d.clone()), toml::Value::Datetime),
        ConfigValue::Array(items) => toml::Value::Array(items.iter().map(toml_value_of).collect()),
        ConfigValue::Table(entries) => toml::Value::Table(entries.iter().map(|(k, v)| (k.clone(), toml_value_of(v))).collect()),
    }
}

/// Renders a value with `toml::to_string_pretty`. The result is named, not stated: it is the
/// `toml` crate's pretty rendering of the value, or its error's `Display` text.
#[verifier::external_body]
pub fn render_toml(value: &ConfigValue) -> (r: Result<String, String>)
    ensures
        match r {
            Ok(t) => toml_pretty(value@) == Ok::<Seq<char>, Seq<char>>(t@),
            Err(m) => toml_pretty(value@) == Err::<Seq<char>, Seq<char>>(m@),
        },
{
    toml::to_string_pretty(&toml_value_of(value)).map_err(|error| error.to_string())
}

} // verus!
