//! The user menu: global and folder-local entries whose metasymbols expand into exact
//! arguments, or into quoted words of an explicit shell script.
//!
//! Whether an entry's resource predicate matches the focused resource is decided by the
//! predicate engine; a temporary resource list, when an entry uses one, is written by the host
//! and handed in by path.

use vstd::prelude::*;

use crate::external::{native_views, ExternalInvocation, ExternalInvocationMode, ExternalResolution};
use crate::handlers::{debug_str, holds, leftover_placeholder, shaped, str_debug, InvocationShape};
use crate::local_fs::{
    native_lossy_of, native_of_text, native_path_from_text, shell_quoted, NativePath,
    NativePathView, PathStyle,
};
use crate::resource::{ResourceMetadata, ResourceRef};
use crate::text::{chars_of, push_char, push_str, replace_all, spec_trim};

verus! {

broadcast use vstd::string::group_string_axioms;

#[derive(Clone, Copy, Debug, PartialEq, Eq, Structural)]
pub enum UserMenuScope {
    Global,
    Local,
}

pub open spec fn scope_text(s: UserMenuScope) -> Seq<char> {
    match s {
        UserMenuScope::Global => "global"@,
        UserMenuScope::Local => "local"@,
    }
}

impl UserMenuScope {
    pub fn as_str(self) -> (r: &'static str)
        ensures
            r@ == scope_text(self),
    {
        match self {
            UserMenuScope::Global => "global",
            UserMenuScope::Local => "local",
        }
    }
}

/// A metasymbol of a user-menu invocation.
#[derive(Clone, Debug, PartialEq, Eq)]
pub enum UserMenuValue {
    Literal(String),
    FocusedUri,
    FocusedName,
    FocusedLocation,
    PeerUri,
    PeerName,
    PeerLocation,
    SelectedUris,
    SelectedNames,
    TemporaryList,
}

#[derive(Clone, Debug, PartialEq, Eq)]
pub enum UserMenuInvocationTemplate {
    Argv { program: String, arguments: Vec<UserMenuValue> },
    Shell { shell: String, script: String },
}

/// One user-menu entry. Its resource predicate is evaluated by the predicate engine.
#[derive(Clone, Debug, PartialEq, Eq)]
pub struct UserMenuEntry {
    pub id: String,
    pub key: String,
    pub label: String,
    pub description: String,
    pub invocation: UserMenuInvocationTemplate,
}

#[derive(Clone, Debug, PartialEq, Eq)]
pub struct UserMenuDocument {
    pub schema: u16,
    pub global: Vec<UserMenuEntry>,
    pub local: Vec<UserMenuEntry>,
}

pub struct UserMenuResource {
    pub resource: ResourceRef,
    pub metadata: ResourceMetadata,
}

/// The resources an entry runs against: the focused one and its folder, the other panel's,
/// and the selection.
pub struct UserMenuContext {
    pub focused: UserMenuResource,
    pub focused_location: String,
    pub peer: Option<UserMenuResource>,
    pub peer_location: Option<String>,
    pub selected: Vec<UserMenuResource>,
}

#[derive(Clone, Debug, PartialEq, Eq)]
pub enum UserMenuError {
    Toml(String),
    UnsupportedSchema(u16),
    EmptyIdentity,
    DuplicateId { scope: String, id: String },
    InvalidPredicate(String, String),
    ContentPredicate(String),
    PredicateMismatch(String),
    UnknownEntry(String),
    MissingValue(UserMenuValue),
    UnknownShellMetasymbol(String),
    TemporaryList(String),
}

/// The `Debug` text of a metasymbol.
pub open spec fn menu_value_debug(v: UserMenuValue) -> Seq<char> {
    match v {
        UserMenuValue::Literal(s) => "Literal("@ + str_debug(s@) + ")"@,
        UserMenuValue::FocusedUri => "FocusedUri"@,
        UserMenuValue::FocusedName => "FocusedName"@,
        UserMenuValue::FocusedLocation => "FocusedLocation"@,
        UserMenuValue::PeerUri => "PeerUri"@,
        UserMenuValue::PeerName => "PeerName"@,
        UserMenuValue::PeerLocation => "PeerLocation"@,
        UserMenuValue::SelectedUris => "SelectedUris"@,
        UserMenuValue::SelectedNames => "SelectedNames"@,
        UserMenuValue::TemporaryList => "TemporaryList"@,
    }
}

fn menu_value_text(v: &UserMenuValue) -> (r: String)
    ensures
        r@ == menu_value_debug(*v),
{
    match v {
        UserMenuValue::Literal(s) => {
            let mut t = "Literal(".to_owned();
            let shown = debug_str(s.as_str());
            push_str(&mut t, shown.as_str());
            push_str(&mut t, ")");
            t
        },
        UserMenuValue::FocusedUri => "FocusedUri".to_owned(),
        UserMenuValue::FocusedName => "FocusedName".to_owned(),
        UserMenuValue::FocusedLocation => "FocusedLocation".to_owned(),
        UserMenuValue::PeerUri => "PeerUri".to_owned(),
        UserMenuValue::PeerName => "PeerName".to_owned(),
        UserMenuValue::PeerLocation => "PeerLocation".to_owned(),
        UserMenuValue::SelectedUris => "SelectedUris".to_owned(),
        UserMenuValue::SelectedNames => "SelectedNames".to_owned(),
        UserMenuValue::TemporaryList => "TemporaryList".to_owned(),
    }
}

/// The message a user-menu error displays.
pub open spec fn menu_error_text(e: UserMenuError) -> Seq<char> {
    match e {
        UserMenuError::Toml(m) => "invalid user-menu TOML: "@ + m@,
        UserMenuError::UnsupportedSchema(v) => "unsupported user-menu schema "@ + crate::text::decimal(
            v as nat,
        ),
        UserMenuError::EmptyIdentity => "user-menu entry IDs keys and labels cannot be empty"@,
        UserMenuError::DuplicateId { scope, id } => "duplicate "@ + scope@ + " user-menu entry ID "@
            + id@,
        UserMenuError::InvalidPredicate(id, m) => "user-menu entry "@ + id@
            + " has an invalid predicate: "@ + m@,
        UserMenuError::ContentPredicate(id) => "user-menu entry "@ + id@
            + " cannot use a content predicate"@,
        UserMenuError::PredicateMismatch(id) => "user-menu entry "@ + id@
            + " is unavailable in the current context"@,
        UserMenuError::UnknownEntry(id) => "user-menu entry "@ + id@ + " does not exist"@,
        UserMenuError::MissingValue(v) => "metasymbol "@ + menu_value_debug(v)
            + " is unavailable in the current context"@,
        UserMenuError::UnknownShellMetasymbol(m) => "unknown shell metasymbol "@ + m@,
        UserMenuError::TemporaryList(m) => "cannot create temporary resource list: "@ + m@,
    }
}

fn text_of3(a: &str, b: &str, c: &str) -> (r: String)
    ensures
        r@ == a@ + b@ + c@,
{
    let mut m = a.to_owned();
    push_str(&mut m, b);
    push_str(&mut m, c);
    m
}

impl UserMenuError {
    pub fn message(&self) -> (r: String)
        ensures
            r@ == menu_error_text(*self),
    {
        proof {
            reveal_strlit("");
        }
        match self {
            UserMenuError::Toml(m) => text_of3("invalid user-menu TOML: ", m.as_str(), ""),
            UserMenuError::UnsupportedSchema(v) => {
                let n = crate::text::u64_decimal(*v as u64);
                text_of3("unsupported user-menu schema ", n.as_str(), "")
            },
            UserMenuError::EmptyIdentity => "user-menu entry IDs keys and labels cannot be empty".to_owned(),
            UserMenuError::DuplicateId { scope, id } => {
                let mut m = text_of3("duplicate ", scope.as_str(), " user-menu entry ID ");
                push_str(&mut m, id.as_str());
                m
            },
            UserMenuError::InvalidPredicate(id, p) => {
                let mut m = text_of3("user-menu entry ", id.as_str(), " has an invalid predicate: ");
                push_str(&mut m, p.as_str());
                m
            },
            UserMenuError::ContentPredicate(id) => text_of3(
                "user-menu entry ",
                id.as_str(),
                " cannot use a content predicate",
            ),
            UserMenuError::PredicateMismatch(id) => text_of3(
                "user-menu entry ",
                id.as_str(),
                " is unavailable in the current context",
            ),
            UserMenuError::UnknownEntry(id) => text_of3("user-menu entry ", id.as_str(), " does not exist"),
            UserMenuError::MissingValue(v) => {
                let shown = menu_value_text(v);
                text_of3("metasymbol ", shown.as_str(), " is unavailable in the current context")
            },
            UserMenuError::UnknownShellMetasymbol(m) => text_of3("unknown shell metasymbol ", m.as_str(), ""),
            UserMenuError::TemporaryList(m) => text_of3("cannot create temporary resource list: ", m.as_str(), ""),
        }
    }
}

/// The placeholder of a metasymbol in a shell script (none for a literal).
pub open spec fn placeholder_text(v: UserMenuValue) -> Seq<char> {
    match v {
        UserMenuValue::FocusedUri => "${focused.uri}"@,
        UserMenuValue::FocusedName => "${focused.name}"@,
        UserMenuValue::FocusedLocation => "${focused.location}"@,
        UserMenuValue::PeerUri => "${peer.uri}"@,
        UserMenuValue::PeerName => "${peer.name}"@,
        UserMenuValue::PeerLocation => "${peer.location}"@,
        UserMenuValue::SelectedUris => "${selected.uris}"@,
        UserMenuValue::SelectedNames => "${selected.names}"@,
        UserMenuValue::TemporaryList => "${temp.list}"@,
        UserMenuValue::Literal(_) => Seq::empty(),
    }
}

pub fn user_menu_placeholder(value: &UserMenuValue) -> (r: &'static str)
    ensures
        r@ == placeholder_text(*value),
{
    proof {
        reveal_strlit("");
    }
    match value {
        UserMenuValue::FocusedUri => "${focused.uri}",
        UserMenuValue::FocusedName => "${focused.name}",
        UserMenuValue::FocusedLocation => "${focused.location}",
        UserMenuValue::PeerUri => "${peer.uri}",
        UserMenuValue::PeerName => "${peer.name}",
        UserMenuValue::PeerLocation => "${peer.location}",
        UserMenuValue::SelectedUris => "${selected.uris}",
        UserMenuValue::SelectedNames => "${selected.names}",
        UserMenuValue::TemporaryList => "${temp.list}",
        UserMenuValue::Literal(_) => "",
    }
}

/// The metasymbols that can appear in a shell script, in the order they are expanded.
pub open spec fn shell_symbol(k: int) -> UserMenuValue {
    if k == 0 {
        UserMenuValue::FocusedUri
    } else if k == 1 {
        UserMenuValue::FocusedName
    } else if k == 2 {
        UserMenuValue::FocusedLocation
    } else if k == 3 {
        UserMenuValue::PeerUri
    } else if k == 4 {
        UserMenuValue::PeerName
    } else if k == 5 {
        UserMenuValue::PeerLocation
    } else if k == 6 {
        UserMenuValue::SelectedUris
    } else if k == 7 {
        UserMenuValue::SelectedNames
    } else {
        UserMenuValue::TemporaryList
    }
}

/// The metasymbols among the first `n` whose placeholders a script holds, in order.
pub open spec fn script_symbols(script: Seq<char>, n: int) -> Seq<UserMenuValue>
    decreases n,
{
    if n <= 0 {
        Seq::empty()
    } else {
        let front = script_symbols(script, n - 1);
        if holds(script, placeholder_text(shell_symbol(n - 1))) {
            front.push(shell_symbol(n - 1))
        } else {
            front
        }
    }
}

fn shell_symbol_at(k: usize) -> (r: UserMenuValue)
    requires
        k < 9,
    ensures
        r == shell_symbol(k as int),
{
    if k == 0 {
        UserMenuValue::FocusedUri
    } else if k == 1 {
        UserMenuValue::FocusedName
    } else if k == 2 {
        UserMenuValue::FocusedLocation
    } else if k == 3 {
        UserMenuValue::PeerUri
    } else if k == 4 {
        UserMenuValue::PeerName
    } else if k == 5 {
        UserMenuValue::PeerLocation
    } else if k == 6 {
        UserMenuValue::SelectedUris
    } else if k == 7 {
        UserMenuValue::SelectedNames
    } else {
        UserMenuValue::TemporaryList
    }
}

/// The metasymbols a shell script uses, in expansion order.
pub fn shell_user_menu_values(script: &str) -> (r: Vec<UserMenuValue>)
    ensures
        r@ == script_symbols(script@, 9),
{
    let mut out: Vec<UserMenuValue> = Vec::new();
    let mut k: usize = 0;
    while k < 9
        invariant
            k <= 9,
            out@ == script_symbols(script@, k as int),
        decreases 9 - k,
    {
        let value = shell_symbol_at(k);
        let placeholder = user_menu_placeholder(&value);
        proof {
            reveal_strlit("${focused.uri}");
            reveal_strlit("${focused.name}");
            reveal_strlit("${focused.location}");
            reveal_strlit("${peer.uri}");
            reveal_strlit("${peer.name}");
            reveal_strlit("${peer.location}");
            reveal_strlit("${selected.uris}");
            reveal_strlit("${selected.names}");
            reveal_strlit("${temp.list}");
        }
        let a = chars_of(script);
        let b = chars_of(placeholder);
        if crate::text::find(a.as_slice(), b.as_slice()).is_some() {
            out.push(value);
        }
        k = k + 1;
    }
    out
}

/// Whether a metasymbol cannot be expanded in a context: the other panel's resource or folder
/// is absent, or nothing is selected.
pub open spec fn unavailable(v: UserMenuValue, c: UserMenuContext) -> bool {
    match v {
        UserMenuValue::PeerUri => c.peer is None,
        UserMenuValue::PeerName => c.peer is None,
        UserMenuValue::PeerLocation => c.peer_location is None,
        UserMenuValue::SelectedUris => c.selected@.len() == 0,
        UserMenuValue::SelectedNames => c.selected@.len() == 0,
        UserMenuValue::TemporaryList => c.selected@.len() == 0,
        _ => false,
    }
}

/// The first metasymbol of a list that cannot be expanded.
pub open spec fn first_unavailable(values: Seq<UserMenuValue>, c: UserMenuContext, n: int) -> Option<UserMenuValue>
    decreases n,
{
    if n <= 0 {
        None
    } else {
        match first_unavailable(values, c, n - 1) {
            Some(v) => Some(v),
            None => if unavailable(values[n - 1], c) {
                Some(values[n - 1])
            } else {
                None
            },
        }
    }
}

/// A copy of a metasymbol.
fn copy_value(v: &UserMenuValue) -> (r: UserMenuValue)
    ensures
        r == *v,
{
    match v {
        UserMenuValue::Literal(s) => {
            let t = s.clone();
            UserMenuValue::Literal(t)
        },
        UserMenuValue::FocusedUri => UserMenuValue::FocusedUri,
        UserMenuValue::FocusedName => UserMenuValue::FocusedName,
        UserMenuValue::FocusedLocation => UserMenuValue::FocusedLocation,
        UserMenuValue::PeerUri => UserMenuValue::PeerUri,
        UserMenuValue::PeerName => UserMenuValue::PeerName,
        UserMenuValue::PeerLocation => UserMenuValue::PeerLocation,
        UserMenuValue::SelectedUris => UserMenuValue::SelectedUris,
        UserMenuValue::SelectedNames => UserMenuValue::SelectedNames,
        UserMenuValue::TemporaryList => UserMenuValue::TemporaryList,
    }
}

proof fn lemma_first_unavailable_stays(values: Seq<UserMenuValue>, c: UserMenuContext, n: int, m: int)
    requires
        0 <= n <= m,
        first_unavailable(values, c, n) is Some,
    ensures
        first_unavailable(values, c, m) == first_unavailable(values, c, n),
    decreases m - n,
{
    if m > n {
        lemma_first_unavailable_stays(values, c, n, m - 1);
    }
}

/// Checks that every metasymbol of a list can be expanded.
fn validate_user_menu_values(values: &Vec<UserMenuValue>, context: &UserMenuContext) -> (r: Result<
    (),
    UserMenuError,
>)
    ensures
        match first_unavailable(values@, *context, values@.len() as int) {
            None => r is Ok,
            Some(v) => r == Err::<(), UserMenuError>(UserMenuError::MissingValue(v)),
        },
{
    let mut i: usize = 0;
    while i < values.len()
        invariant
            i <= values@.len(),
            first_unavailable(values@, *context, i as int) is None,
        decreases values@.len() - i,
    {
        let v = &values[i];
        let missing = match v {
            UserMenuValue::PeerUri | UserMenuValue::PeerName => context.peer.is_none(),
            UserMenuValue::PeerLocation => context.peer_location.is_none(),
            UserMenuValue::SelectedUris | UserMenuValue::SelectedNames
            | UserMenuValue::TemporaryList => context.selected.len() == 0,
            _ => false,
        };
        if missing {
            proof {
                assert(first_unavailable(values@, *context, i + 1) == Some(values@[i as int]));
                lemma_first_unavailable_stays(values@, *context, i + 1, values@.len() as int);
            }
            return Err(UserMenuError::MissingValue(copy_value(v)));
        }
        i = i + 1;
    }
    Ok(())
}

/// What can stop a user-menu invocation from rendering.
pub enum MenuFault {
    Missing(UserMenuValue),
    NoTemporaryList,
    UnknownSymbol(Seq<char>),
}

/// An error that reports a rendering fault.
pub open spec fn menu_fault_matches(e: UserMenuError, f: MenuFault) -> bool {
    match f {
        MenuFault::Missing(v) => e == UserMenuError::MissingValue(v),
        MenuFault::NoTemporaryList => e matches UserMenuError::TemporaryList(m) && m@
            == "the temporary resource list was not provided"@,
        MenuFault::UnknownSymbol(u) => e matches UserMenuError::UnknownShellMetasymbol(s) && s@ == u,
    }
}

/// The texts a metasymbol expands to.
pub open spec fn value_texts(v: UserMenuValue, c: UserMenuContext, list: Option<Seq<char>>) -> Result<
    Seq<Seq<char>>,
    MenuFault,
> {
    match v {
        UserMenuValue::Literal(s) => Ok(seq![s@]),
        UserMenuValue::FocusedUri => Ok(seq![c.focused.resource.location@]),
        UserMenuValue::FocusedName => Ok(seq![c.focused.metadata.name@]),
        UserMenuValue::FocusedLocation => Ok(seq![c.focused_location@]),
        UserMenuValue::PeerUri => match c.peer {
            Some(p) => Ok(seq![p.resource.location@]),
            None => Err(MenuFault::Missing(v)),
        },
        UserMenuValue::PeerName => match c.peer {
            Some(p) => Ok(seq![p.metadata.name@]),
            None => Err(MenuFault::Missing(v)),
        },
        UserMenuValue::PeerLocation => match c.peer_location {
            Some(l) => Ok(seq![l@]),
            None => Err(MenuFault::Missing(v)),
        },
        UserMenuValue::SelectedUris => Ok(
            Seq::new(c.selected@.len(), |i: int| c.selected@[i].resource.location@),
        ),
        UserMenuValue::SelectedNames => Ok(
            Seq::new(c.selected@.len(), |i: int| c.selected@[i].metadata.name@),
        ),
        UserMenuValue::TemporaryList => match list {
            Some(t) => Ok(seq![t]),
            None => Err(MenuFault::NoTemporaryList),
        },
    }
}

/// The text of strings.
pub open spec fn string_texts(v: Seq<String>) -> Seq<Seq<char>> {
    Seq::new(v.len(), |i: int| v[i]@)
}

fn render_user_menu_value(
    value: &UserMenuValue,
    context: &UserMenuContext,
    list: &Option<String>,
) -> (r: Result<Vec<String>, UserMenuError>)
    ensures
        match value_texts(
            *value,
            *context,
            opt_text(*list),
        ) {
            Ok(t) => r matches Ok(v) && string_texts(v@) == t,
            Err(f) => r matches Err(e) && menu_fault_matches(e, f),
        },
{
    let out: Vec<String> = match value {
        UserMenuValue::Literal(s) => vec![s.clone()],
        UserMenuValue::FocusedUri => vec![context.focused.resource.location.as_str().to_owned()],
        UserMenuValue::FocusedName => vec![context.focused.metadata.name.clone()],
        UserMenuValue::FocusedLocation => vec![context.focused_location.clone()],
        UserMenuValue::PeerUri => match &context.peer {
            Some(p) => vec![p.resource.location.as_str().to_owned()],
            None => {
                return Err(UserMenuError::MissingValue(UserMenuValue::PeerUri));
            },
        },
        UserMenuValue::PeerName => match &context.peer {
            Some(p) => vec![p.metadata.name.clone()],
            None => {
                return Err(UserMenuError::MissingValue(UserMenuValue::PeerName));
            },
        },
        UserMenuValue::PeerLocation => match &context.peer_location {
            Some(l) => vec![l.clone()],
            None => {
                return Err(UserMenuError::MissingValue(UserMenuValue::PeerLocation));
            },
        },
        UserMenuValue::SelectedUris | UserMenuValue::SelectedNames => {
            let uris = match value {
                UserMenuValue::SelectedUris => true,
                _ => false,
            };
            let mut v: Vec<String> = Vec::new();
            let mut i: usize = 0;
            while i < context.selected.len()
                invariant
                    i <= context.selected@.len(),
                    string_texts(v@) =~= Seq::new(
                        i as nat,
                        |k: int|
                            if uris {
                                context.selected@[k].resource.location@
                            } else {
                                context.selected@[k].metadata.name@
                            },
                    ),
                decreases context.selected@.len() - i,
            {
                let item = &context.selected[i];
                let ghost before = v@;
                if uris {
                    v.push(item.resource.location.as_str().to_owned());
                } else {
                    v.push(item.metadata.name.as_str().to_owned());
                }
                assert(string_texts(v@) =~= string_texts(before).push(v@.last()@));
                i = i + 1;
            }
            v
        },
        UserMenuValue::TemporaryList => match list {
            Some(t) => vec![t.clone()],
            None => {
                return Err(
                    UserMenuError::TemporaryList(
                        "the temporary resource list was not provided".to_owned(),
                    ),
                );
            },
        },
    };
    assert(string_texts(out@) =~= value_texts(
        *value,
        *context,
        match *list {
            Some(s) => Some(s@),
            None => None,
        },
    )->Ok_0);
    Ok(out)
}

/// The text of an optional string.
pub open spec fn opt_text(o: Option<String>) -> Option<Seq<char>> {
    match o {
        Some(s) => Some(s@),
        None => None,
    }
}

/// The texts of a list of metasymbols, in order, or the first that cannot be expanded.
pub open spec fn arg_texts(values: Seq<UserMenuValue>, c: UserMenuContext, list: Option<Seq<char>>) -> Result<
    Seq<Seq<char>>,
    MenuFault,
>
    decreases values.len(),
{
    if values.len() == 0 {
        Ok(Seq::empty())
    } else {
        match arg_texts(values.drop_last(), c, list) {
            Err(f) => Err(f),
            Ok(front) => match value_texts(values.last(), c, list) {
                Err(f) => Err(f),
                Ok(t) => Ok(front + t),
            },
        }
    }
}

/// Texts quoted for a POSIX shell and joined by spaces.
pub open spec fn joined_quoted(t: Seq<Seq<char>>) -> Seq<char>
    decreases t.len(),
{
    if t.len() == 0 {
        Seq::empty()
    } else if t.len() == 1 {
        shell_quoted(t[0])
    } else {
        joined_quoted(t.drop_last()) + seq![' '] + shell_quoted(t.last())
    }
}

/// A script after replacing the placeholders of symbols `k` and later by their quoted texts.
pub open spec fn shell_expansion(
    rendered: Seq<char>,
    symbols: Seq<UserMenuValue>,
    k: int,
    c: UserMenuContext,
    list: Option<Seq<char>>,
) -> Result<Seq<char>, MenuFault>
    decreases symbols.len() - k,
{
    if k >= symbols.len() || k < 0 {
        Ok(rendered)
    } else {
        match value_texts(symbols[k], c, list) {
            Err(f) => Err(f),
            Ok(t) => shell_expansion(
                replace_all(rendered, placeholder_text(symbols[k]), joined_quoted(t)),
                symbols,
                k + 1,
                c,
                list,
            ),
        }
    }
}

/// The native paths of texts.
pub open spec fn natives_of(style: PathStyle, t: Seq<Seq<char>>) -> Seq<NativePathView> {
    Seq::new(t.len(), |i: int| native_of_text(style, t[i]))
}

/// The invocation a user-menu template renders: metasymbols are checked first, then
/// expanded; a shell script may not keep an unknown `${…}`. The temporary list, when used, is
/// registered for cleanup.
pub open spec fn rendered_menu_invocation(
    t: UserMenuInvocationTemplate,
    c: UserMenuContext,
    list: Option<NativePathView>,
    style: PathStyle,
) -> Result<InvocationShape, MenuFault> {
    let list_text = match list {
        Some(p) => Some(native_lossy_of(p)),
        None => None,
    };
    match t {
        UserMenuInvocationTemplate::Argv { program, arguments } => match first_unavailable(
            arguments@,
            c,
            arguments@.len() as int,
        ) {
            Some(v) => Err(MenuFault::Missing(v)),
            None => match arg_texts(arguments@, c, list_text) {
                Err(f) => Err(f),
                Ok(texts) => Ok(
                    InvocationShape {
                        mode: ExternalInvocationMode::StructuredArgv,
                        program: native_of_text(style, program@),
                        arguments: natives_of(style, texts),
                        current_directory: None,
                        cleanup_paths: if arguments@.contains(UserMenuValue::TemporaryList)
                            && list is Some {
                            seq![list->0]
                        } else {
                            Seq::empty()
                        },
                    },
                ),
            },
        },
        UserMenuInvocationTemplate::Shell { shell, script } => {
            let symbols = script_symbols(script@, 9);
            match first_unavailable(symbols, c, symbols.len() as int) {
                Some(v) => Err(MenuFault::Missing(v)),
                None => match shell_expansion(script@, symbols, 0, c, list_text) {
                    Err(f) => Err(f),
                    Ok(r) => match leftover_placeholder(r) {
                        Some(u) => Err(MenuFault::UnknownSymbol(u)),
                        None => Ok(
                            InvocationShape {
                                mode: ExternalInvocationMode::ExplicitShell,
                                program: native_of_text(style, shell@),
                                arguments: seq![
                                    native_of_text(style, "-lc"@),
                                    native_of_text(style, r),
                                ],
                                current_directory: None,
                                cleanup_paths: if symbols.contains(UserMenuValue::TemporaryList)
                                    && list is Some {
                                    seq![list->0]
                                } else {
                                    Seq::empty()
                                },
                            },
                        ),
                    },
                },
            }
        },
    }
}

/// A rendering result that matches the rendered shape or fault.
pub open spec fn menu_render_matches(
    r: Result<ExternalInvocation, UserMenuError>,
    expected: Result<InvocationShape, MenuFault>,
) -> bool {
    match expected {
        Ok(s) => r matches Ok(i) && shaped(i, s),
        Err(f) => r matches Err(e) && menu_fault_matches(e, f),
    }
}

fn join_quoted(texts: &Vec<String>) -> (r: String)
    ensures
        r@ == joined_quoted(string_texts(texts@)),
{
    let mut out = String::new();
    let mut i: usize = 0;
    while i < texts.len()
        invariant
            i <= texts@.len(),
            out@ == joined_quoted(string_texts(texts@).take(i as int)),
        decreases texts@.len() - i,
    {
        let quoted = crate::local_fs::shell_quote(texts[i].as_str());
        let ghost t = string_texts(texts@).take(i + 1);
        assert(t.drop_last() =~= string_texts(texts@).take(i as int));
        assert(t.last() == texts@[i as int]@);
        if i > 0 {
            push_char(&mut out, ' ');
        } else {
            assert(string_texts(texts@).take(0) =~= Seq::<Seq<char>>::empty());
            assert(out@ =~= Seq::<char>::empty());
        }
        push_str(&mut out, quoted.as_str());
        proof {
            if i == 0 {
                assert(t.len() == 1);
                assert(t[0] == t.last());
                assert(out@ =~= shell_quoted(t[0]));
            }
        }
        i = i + 1;
    }
    assert(string_texts(texts@).take(texts@.len() as int) =~= string_texts(texts@));
    out
}

fn contains_temporary_list(values: &Vec<UserMenuValue>) -> (r: bool)
    ensures
        r == values@.contains(UserMenuValue::TemporaryList),
{
    let mut i: usize = 0;
    while i < values.len()
        invariant
            i <= values@.len(),
            forall|j: int| 0 <= j < i ==> values@[j] != UserMenuValue::TemporaryList,
        decreases values@.len() - i,
    {
        match values[i] {
            UserMenuValue::TemporaryList => {
                assert(values@[i as int] == UserMenuValue::TemporaryList);
                return true;
            },
            _ => {},
        }
        i = i + 1;
    }
    false
}

fn render_arguments(
    values: &Vec<UserMenuValue>,
    context: &UserMenuContext,
    list: &Option<String>,
    style: PathStyle,
) -> (r: Result<Vec<NativePath>, UserMenuError>)
    ensures
        match arg_texts(
            values@,
            *context,
            opt_text(*list),
        ) {
            Ok(t) => r matches Ok(v) && native_views(v@) == natives_of(style, t),
            Err(f) => r matches Err(e) && menu_fault_matches(e, f),
        },
{
    let ghost lt = opt_text(*list);
    let mut out: Vec<NativePath> = Vec::new();
    let mut i: usize = 0;
    assert(values@.take(0) =~= Seq::<UserMenuValue>::empty());
    assert(native_views(out@) =~= natives_of(style, Seq::empty()));
    while i < values.len()
        invariant
            i <= values@.len(),
            lt == opt_text(*list),
            arg_texts(values@.take(i as int), *context, lt) matches Ok(t) && native_views(out@)
                == natives_of(style, t),
        decreases values@.len() - i,
    {
        let ghost front = arg_texts(values@.take(i as int), *context, lt)->Ok_0;
        assert(values@.take(i + 1).drop_last() =~= values@.take(i as int));
        assert(values@.take(i + 1).last() == values@[i as int]);
        let texts = match render_user_menu_value(&values[i], context, list) {
            Ok(t) => t,
            Err(e) => {
                proof {
                    lemma_arg_texts_error(values@, *context, lt, i as int);
                }
                return Err(e);
            },
        };
        let mut k: usize = 0;
        let ghost base = native_views(out@);
        while k < texts.len()
            invariant
                k <= texts@.len(),
                native_views(out@) == base + natives_of(style, string_texts(texts@).take(k as int)),
            decreases texts@.len() - k,
        {
            let p = native_path_from_text(style, texts[k].as_str());
            let ghost before = native_views(out@);
            out.push(p);
            assert(native_views(out@) =~= before.push(p@));
            assert(natives_of(style, string_texts(texts@).take(k + 1)) =~= natives_of(
                style,
                string_texts(texts@).take(k as int),
            ).push(native_of_text(style, texts@[k as int]@)));
            k = k + 1;
        }
        assert(string_texts(texts@).take(texts@.len() as int) =~= string_texts(texts@));
        assert(natives_of(style, front + string_texts(texts@)) =~= natives_of(style, front)
            + natives_of(style, string_texts(texts@)));
        i = i + 1;
    }
    assert(values@.take(values@.len() as int) =~= values@);
    Ok(out)
}

proof fn lemma_arg_texts_error(values: Seq<UserMenuValue>, c: UserMenuContext, list: Option<Seq<char>>, i: int)
    requires
        0 <= i < values.len(),
        arg_texts(values.take(i), c, list) is Ok,
        value_texts(values[i], c, list) is Err,
    ensures
        arg_texts(values, c, list) == Err::<Seq<Seq<char>>, MenuFault>(
            value_texts(values[i], c, list)->Err_0,
        ),
    decreases values.len() - i,
{
    if i == values.len() - 1 {
        assert(values.drop_last() =~= values.take(i));
    } else {
        assert(values.drop_last().take(i) =~= values.take(i));
        assert(values.drop_last()[i] == values[i]);
        lemma_arg_texts_error(values.drop_last(), c, list, i);
    }
}

fn expand_shell_script(
    script: &str,
    symbols: &Vec<UserMenuValue>,
    context: &UserMenuContext,
    list: &Option<String>,
) -> (r: Result<String, UserMenuError>)
    ensures
        match shell_expansion(
            script@,
            symbols@,
            0,
            *context,
            opt_text(*list),
        ) {
            Ok(t) => r matches Ok(s) && s@ == t,
            Err(f) => r matches Err(e) && menu_fault_matches(e, f),
        },
{
    let ghost lt = opt_text(*list);
    let mut rendered = script.to_owned();
    let mut k: usize = 0;
    while k < symbols.len()
        invariant
            k <= symbols@.len(),
            lt == opt_text(*list),
            shell_expansion(script@, symbols@, 0, *context, lt) == shell_expansion(
                rendered@,
                symbols@,
                k as int,
                *context,
                lt,
            ),
        decreases symbols@.len() - k,
    {
        let texts = match render_user_menu_value(&symbols[k], context, list) {
            Ok(t) => t,
            Err(e) => {
                return Err(e);
            },
        };
        let replacement = join_quoted(&texts);
        let placeholder = user_menu_placeholder(&symbols[k]);
        rendered = crate::text::replace_text(rendered.as_str(), placeholder, replacement.as_str());
        k = k + 1;
    }
    Ok(rendered)
}

fn leftover_symbol(rendered: &str) -> (r: Option<String>)
    ensures
        match leftover_placeholder(rendered@) {
            Some(u) => r matches Some(s) && s@ == u,
            None => r is None,
        },
{
    proof {
        reveal_strlit("${");
    }
    let chars = chars_of(rendered);
    let marker = chars_of("${");
    match crate::text::find(chars.as_slice(), marker.as_slice()) {
        Some(start) => {
            proof {
                let j = choose|j: int|
                    crate::text::occurs_at(rendered@, "${"@, j) && forall|q: int|
                        0 <= q < j ==> !crate::text::occurs_at(rendered@, "${"@, q);
                assert(j == start) by {
                    if j < start {
                        assert(!crate::text::occurs_at(rendered@, "${"@, j));
                    }
                    if start < j {
                        assert(!crate::text::occurs_at(rendered@, "${"@, start as int));
                    }
                }
            }
            let rest = crate::text::slice_chars(chars.as_slice(), start, chars.len());
            assert(rest@ =~= rendered@.skip(start as int));
            let unknown = match crate::config_text::first_index_of(rest.as_slice(), '}') {
                Some(q) => crate::text::slice_chars(rest.as_slice(), 0, q + 1),
                None => rest,
            };
            Some(crate::text::string_of(unknown.as_slice()))
        },
        None => None,
    }
}

#[verifier::rlimit(80)]
#[verifier::spinoff_prover]
/// Renders a user-menu invocation for a context; `temporary_list` is the file that holds the
/// selected locations, when the host has written one.
pub fn render_user_menu_invocation(
    template: &UserMenuInvocationTemplate,
    context: &UserMenuContext,
    temporary_list: &Option<NativePath>,
    style: PathStyle,
) -> (r: Result<ExternalInvocation, UserMenuError>)
    ensures
        menu_render_matches(
            r,
            rendered_menu_invocation(
                *template,
                *context,
                match *temporary_list {
                    Some(p) => Some(p@),
                    None => None,
                },
                style,
            ),
        ),
{
    let list_text: Option<String> = match temporary_list {
        Some(p) => Some(crate::local_fs::native_lossy_text(p)),
        None => None,
    };
    match template {
        UserMenuInvocationTemplate::Argv { program, arguments } => {
            validate_user_menu_values(arguments, context)?;
            let args = render_arguments(arguments, context, &list_text, style)?;
            let mut invocation = ExternalInvocation::new(native_path_from_text(style, program.as_str()));
            invocation = invocation.with_arguments(args);
            assert(native_views(invocation.arguments@) =~= native_views(Seq::empty())
                + native_views(invocation.arguments@));
            if contains_temporary_list(arguments) {
                match temporary_list {
                    Some(p) => {
                        invocation = invocation.with_cleanup_path(p.clone());
                    },
                    None => {},
                }
            }
            assert(native_views(invocation.cleanup_paths@) =~= (if arguments@.contains(
                UserMenuValue::TemporaryList,
            ) && temporary_list is Some {
                seq![temporary_list->Some_0@]
            } else {
                Seq::empty()
            }));
            Ok(invocation)
        },
        UserMenuInvocationTemplate::Shell { shell, script } => {
            let symbols = shell_user_menu_values(script.as_str());
            validate_user_menu_values(&symbols, context)?;
            let rendered = expand_shell_script(script.as_str(), &symbols, context, &list_text)?;
            match leftover_symbol(rendered.as_str()) {
                Some(unknown) => {
                    return Err(UserMenuError::UnknownShellMetasymbol(unknown));
                },
                None => {},
            }
            let program = native_path_from_text(style, shell.as_str());
            let script_path = native_path_from_text(style, rendered.as_str());
            let mut invocation = ExternalInvocation::explicit_shell(program, script_path);
            assert(crate::local_fs::view_style(script_path@) == style) by {
                match style {
                    PathStyle::Unix => {},
                    PathStyle::Windows => {},
                }
            }
            assert(native_views(invocation.arguments@) =~= seq![
                native_of_text(style, "-lc"@),
                native_of_text(style, rendered@),
            ]);
            if contains_temporary_list(&symbols) {
                match temporary_list {
                    Some(p) => {
                        invocation = invocation.with_cleanup_path(p.clone());
                    },
                    None => {},
                }
            }
            assert(native_views(invocation.cleanup_paths@) =~= (if symbols@.contains(
                UserMenuValue::TemporaryList,
            ) && temporary_list is Some {
                seq![temporary_list->Some_0@]
            } else {
                Seq::empty()
            }));
            Ok(invocation)
        },
    }
}

/// What can be wrong with the entries of one scope.
pub enum EntryProblem {
    EmptyIdentity,
    Duplicate(Seq<char>),
}

/// The first problem among the first `n` entries: an entry whose identifier, key or label is
/// blank, or whose identifier repeats an earlier one.
pub open spec fn entry_problem(entries: Seq<UserMenuEntry>, n: int) -> Option<EntryProblem>
    decreases n,
{
    if n <= 0 {
        None
    } else {
        match entry_problem(entries, n - 1) {
            Some(p) => Some(p),
            None => {
                let e = entries[n - 1];
                if spec_trim(e.id@).len() == 0 || spec_trim(e.key@).len() == 0 || spec_trim(
                    e.label@,
                ).len() == 0 {
                    Some(EntryProblem::EmptyIdentity)
                } else if exists|j: int| 0 <= j < n - 1 && #[trigger] entries[j].id@ == e.id@ {
                    Some(EntryProblem::Duplicate(e.id@))
                } else {
                    None
                }
            },
        }
    }
}

/// An error that reports an entry problem of a scope.
pub open spec fn reports_entry_problem(e: UserMenuError, scope: UserMenuScope, p: EntryProblem) -> bool {
    match p {
        EntryProblem::EmptyIdentity => e == UserMenuError::EmptyIdentity,
        EntryProblem::Duplicate(id) => e matches UserMenuError::DuplicateId { scope: s, id: i } && s@
            == scope_text(scope) && i@ == id,
    }
}

proof fn lemma_entry_problem_stays(entries: Seq<UserMenuEntry>, n: int, m: int)
    requires
        0 <= n <= m,
        entry_problem(entries, n) is Some,
    ensures
        entry_problem(entries, m) == entry_problem(entries, n),
    decreases m - n,
{
    if m > n {
        lemma_entry_problem_stays(entries, n, m - 1);
    }
}

/// Checks the entries of one scope.
fn validate_user_menu_entries(scope: UserMenuScope, entries: &Vec<UserMenuEntry>) -> (r: Result<
    (),
    UserMenuError,
>)
    ensures
        match entry_problem(entries@, entries@.len() as int) {
            None => r is Ok,
            Some(p) => r matches Err(e) && reports_entry_problem(e, scope, p),
        },
{
    let mut i: usize = 0;
    while i < entries.len()
        invariant
            i <= entries@.len(),
            entry_problem(entries@, i as int) is None,
        decreases entries@.len() - i,
    {
        let entry = &entries[i];
        if crate::text::trim_is_empty(entry.id.as_str()) || crate::text::trim_is_empty(
            entry.key.as_str(),
        ) || crate::text::trim_is_empty(entry.label.as_str()) {
            proof {
                lemma_entry_problem_stays(entries@, i + 1, entries@.len() as int);
            }
            return Err(UserMenuError::EmptyIdentity);
        }
        let mut j: usize = 0;
        while j < i
            invariant
                j <= i < entries@.len(),
                entry_problem(entries@, i as int) is None,
                !(spec_trim(entries@[i as int].id@).len() == 0 || spec_trim(entries@[i as int].key@).len()
                    == 0 || spec_trim(entries@[i as int].label@).len() == 0),
                forall|q: int| 0 <= q < j ==> entries@[q].id@ != entries@[i as int].id@,
            decreases i - j,
        {
            if crate::text::str_eq(entries[j].id.as_str(), entries[i].id.as_str()) {
                proof {
                    assert(entries@[j as int].id@ == entries@[i as int].id@);
                    lemma_entry_problem_stays(entries@, i + 1, entries@.len() as int);
                }
                return Err(
                    UserMenuError::DuplicateId {
                        scope: scope.as_str().to_owned(),
                        id: entries[i].id.as_str().to_owned(),
                    },
                );
            }
            j = j + 1;
        }
        i = i + 1;
    }
    Ok(())
}

/// Validated user-menu entries of both scopes.
#[derive(Clone, Debug, PartialEq, Eq)]
pub struct UserMenuCatalog {
    global: Vec<UserMenuEntry>,
    local: Vec<UserMenuEntry>,
}

impl UserMenuCatalog {
    pub closed spec fn spec_entries(&self, scope: UserMenuScope) -> Seq<UserMenuEntry> {
        match scope {
            UserMenuScope::Global => self.global@,
            UserMenuScope::Local => self.local@,
        }
    }

    /// A catalog of a valid document: schema 1, then the global and the local entries are
    /// checked in turn.
    pub fn new(document: UserMenuDocument) -> (r: Result<Self, UserMenuError>)
        ensures
            if document.schema != 1 {
                r == Err::<Self, UserMenuError>(UserMenuError::UnsupportedSchema(document.schema))
            } else {
                match entry_problem(document.global@, document.global@.len() as int) {
                    Some(p) => r matches Err(e) && reports_entry_problem(e, UserMenuScope::Global, p),
                    None => match entry_problem(document.local@, document.local@.len() as int) {
                        Some(p) => r matches Err(e) && reports_entry_problem(
                            e,
                            UserMenuScope::Local,
                            p,
                        ),
                        None => r matches Ok(c) && c.spec_entries(UserMenuScope::Global)
                            == document.global@ && c.spec_entries(UserMenuScope::Local)
                            == document.local@,
                    },
                }
            },
    {
        if document.schema != 1 {
            return Err(UserMenuError::UnsupportedSchema(document.schema));
        }
        validate_user_menu_entries(UserMenuScope::Global, &document.global)?;
        validate_user_menu_entries(UserMenuScope::Local, &document.local)?;
        Ok(UserMenuCatalog { global: document.global, local: document.local })
    }

    pub fn entries(&self, scope: UserMenuScope) -> (r: &Vec<UserMenuEntry>)
        ensures
            r@ == self.spec_entries(scope),
    {
        match scope {
            UserMenuScope::Global => &self.global,
            UserMenuScope::Local => &self.local,
        }
    }

    /// Resolves one entry for a context, given whether its predicate matches the focused
    /// resource and the temporary list the host prepared for it.
    pub fn resolve(
        &self,
        scope: UserMenuScope,
        id: &str,
        context: &UserMenuContext,
        predicate_matches: bool,
        temporary_list: &Option<NativePath>,
        style: PathStyle,
    ) -> (r: Result<ExternalResolution, UserMenuError>)
        ensures
            match first_entry(self.spec_entries(scope), id@, self.spec_entries(scope).len() as int) {
                None => r matches Err(e) && e matches UserMenuError::UnknownEntry(m) && m@ == id@,
                Some(i) => if !predicate_matches {
                    r matches Err(e) && e matches UserMenuError::PredicateMismatch(m) && m@ == id@
                } else {
                    let entry = self.spec_entries(scope)[i];
                    match rendered_menu_invocation(
                        entry.invocation,
                        *context,
                        match *temporary_list {
                            Some(p) => Some(p@),
                            None => None,
                        },
                        style,
                    ) {
                        Err(f) => r matches Err(e) && menu_fault_matches(e, f),
                        Ok(shape) => r matches Ok(x) && shaped(x.invocation, shape)
                            && x.handler_id@ == "user-menu."@ + scope_text(scope) + seq!['.']
                            + entry.id@ && x.explanation@ == scope_text(scope)
                            + " user menu entry "@ + entry.key@ + "; invocation mode: "@ + (
                        if shape.mode == ExternalInvocationMode::StructuredArgv {
                            "structured argv"@
                        } else {
                            "EXPLICIT SHELL"@
                        }),
                    }
                },
            },
    {
        let entries = self.entries(scope);
        let index = match find_entry(entries, id) {
            Some(i) => i,
            None => {
                return Err(UserMenuError::UnknownEntry(id.to_owned()));
            },
        };
        if !predicate_matches {
            return Err(UserMenuError::PredicateMismatch(id.to_owned()));
        }
        let entry = &entries[index];
        let invocation = render_user_menu_invocation(&entry.invocation, context, temporary_list, style)?;
        let mode = match invocation.mode {
            ExternalInvocationMode::StructuredArgv => "structured argv",
            ExternalInvocationMode::ExplicitShell => "EXPLICIT SHELL",
        };
        let mut handler_id = "user-menu.".to_owned();
        push_str(&mut handler_id, scope.as_str());
        push_char(&mut handler_id, '.');
        push_str(&mut handler_id, entry.id.as_str());
        let mut explanation = scope.as_str().to_owned();
        push_str(&mut explanation, " user menu entry ");
        push_str(&mut explanation, entry.key.as_str());
        push_str(&mut explanation, "; invocation mode: ");
        push_str(&mut explanation, mode);
        Ok(ExternalResolution { invocation, handler_id, explanation })
    }
}

/// The first entry with an identifier.
pub open spec fn first_entry(entries: Seq<UserMenuEntry>, id: Seq<char>, n: int) -> Option<int>
    decreases n,
{
    if n <= 0 {
        None
    } else {
        match first_entry(entries, id, n - 1) {
            Some(i) => Some(i),
            None => if entries[n - 1].id@ == id {
                Some(n - 1)
            } else {
                None
            },
        }
    }
}

proof fn lemma_first_entry_stays(entries: Seq<UserMenuEntry>, id: Seq<char>, n: int, m: int)
    requires
        0 <= n <= m,
        first_entry(entries, id, n) is Some,
    ensures
        first_entry(entries, id, m) == first_entry(entries, id, n),
    decreases m - n,
{
    if m > n {
        lemma_first_entry_stays(entries, id, n, m - 1);
    }
}

fn find_entry(entries: &Vec<UserMenuEntry>, id: &str) -> (r: Option<usize>)
    ensures
        match first_entry(entries@, id@, entries@.len() as int) {
            Some(i) => r matches Some(j) && j as int == i && j < entries@.len(),
            None => r is None,
        },
{
    let mut i: usize = 0;
    while i < entries.len()
        invariant
            i <= entries@.len(),
            first_entry(entries@, id@, i as int) is None,
        decreases entries@.len() - i,
    {
        if crate::text::str_eq(entries[i].id.as_str(), id) {
            proof {
                assert(first_entry(entries@, id@, i + 1) == Some(i as int));
                lemma_first_entry_stays(entries@, id@, i + 1, entries@.len() as int);
            }
            return Some(i);
        }
        i = i + 1;
    }
    None
}

/// Whether an invocation template uses the temporary resource list.
pub open spec fn uses_temporary_list(t: UserMenuInvocationTemplate) -> bool {
    match t {
        UserMenuInvocationTemplate::Argv { arguments, .. } => arguments@.contains(
            UserMenuValue::TemporaryList,
        ),
        UserMenuInvocationTemplate::Shell { script, .. } => script_symbols(script@, 9).contains(
            UserMenuValue::TemporaryList,
        ),
    }
}

/// Whether the host must write a temporary resource list before resolving an entry.
pub fn needs_temporary_list(template: &UserMenuInvocationTemplate) -> (r: bool)
    ensures
        r == uses_temporary_list(*template),
{
    match template {
        UserMenuInvocationTemplate::Argv { arguments, .. } => contains_temporary_list(arguments),
        UserMenuInvocationTemplate::Shell { script, .. } => {
            let symbols = shell_user_menu_values(script.as_str());
            contains_temporary_list(&symbols)
        },
    }
}

/// The body of a temporary resource list: one location per line, each line ended.
pub open spec fn temporary_list_text(resources: Seq<UserMenuResource>) -> Seq<char>
    decreases resources.len(),
{
    if resources.len() == 0 {
        Seq::empty()
    } else {
        temporary_list_text(resources.drop_last()) + resources.last().resource.location@ + seq![
            '\n',
        ]
    }
}

pub fn temporary_list_body(resources: &Vec<UserMenuResource>) -> (r: String)
    ensures
        r@ == temporary_list_text(resources@),
{
    let mut body = String::new();
    let mut i: usize = 0;
    while i < resources.len()
        invariant
            i <= resources@.len(),
            body@ == temporary_list_text(resources@.take(i as int)),
        decreases resources@.len() - i,
    {
        push_str(&mut body, resources[i].resource.location.as_str());
        push_char(&mut body, '\n');
        assert(resources@.take(i + 1).drop_last() =~= resources@.take(i as int));
        i = i + 1;
    }
    assert(resources@.take(resources@.len() as int) =~= resources@);
    body
}


/// `SelectedUris` gives one text per selected resource, in selection order, each the text that
/// `FocusedUri` gives when that resource is the focused one: its location, not its name.
pub proof fn law_selected_uris_are_locations(c: UserMenuContext, list: Option<Seq<char>>, i: int)
    requires
        0 <= i < c.selected@.len(),
    ensures
        value_texts(UserMenuValue::SelectedUris, c, list) matches Ok(t) && t.len() == c.selected@.len()
            && Some(t[i]) == match value_texts(
            UserMenuValue::FocusedUri,
            UserMenuContext { focused: c.selected@[i], ..c },
            list,
        ) {
            Ok(f) => Some(f[0]),
            Err(_) => None,
        },
        value_texts(UserMenuValue::SelectedNames, c, list) matches Ok(t) && Some(t[i]) == match value_texts(
            UserMenuValue::FocusedName,
            UserMenuContext { focused: c.selected@[i], ..c },
            list,
        ) {
            Ok(f) => Some(f[0]),
            Err(_) => None,
        },
{
}

} // verus!
