//! The file manager's configuration documents, command-line arguments and profile roots.

use vstd::prelude::*;

use crate::config::{
    error_view, layer_acceptable, sorted_layers, text_fits, ConfigEngine, ConfigError,
    ConfigLayer, ConfigLayerKind, ConfigMigrate, ConfigMigration, ConfigOrigin, ConfigValue,
    EffectiveConfig, entries_view, set_schema, with_schema_entry, ValueView, prepared,
    merged_layers, origin_views, layer_error_fits, spec_config_error_text, document_schema,
};
use crate::settings::SettingProvenance;
use crate::strmap::StrMap;
use crate::text::{concat2, push_char, push_str, str_eq};

verus! {

broadcast use vstd::string::group_string_axioms;

/// Every configuration document the file manager ships.
pub const DOCUMENTS: [&'static str; 16] = [
    "keymap.toml",
    "theme.toml",
    "confirmations.toml",
    "handlers.toml",
    "macros.toml",
    "panel-modes.toml",
    "editor.toml",
    "history.toml",
    "interface.toml",
    "highlighting.toml",
    "user-menu.toml",
    "descriptions.toml",
    "filters.toml",
    "connections.toml",
    "shell.toml",
    "viewer.toml",
];

/// The documents whose settings can be written back.
pub const WRITABLE_DOCUMENTS: [&'static str; 8] = [
    "keymap.toml",
    "confirmations.toml",
    "panel-modes.toml",
    "viewer.toml",
    "editor.toml",
    "history.toml",
    "interface.toml",
    "shell.toml",
];

/// The state files a profile bundle carries.
pub const STATE_FILES: [&'static str; 7] = [
    "command-history.toml",
    "folder-navigation.toml",
    "editor-positions.toml",
    "viewer-state.toml",
    "resource-history.toml",
    "operations.log",
    "plugin-grants.toml",
];

/// The document names, as text.
pub open spec fn document_names() -> Seq<Seq<char>> {
    seq![
        "keymap.toml"@,
        "theme.toml"@,
        "confirmations.toml"@,
        "handlers.toml"@,
        "macros.toml"@,
        "panel-modes.toml"@,
        "editor.toml"@,
        "history.toml"@,
        "interface.toml"@,
        "highlighting.toml"@,
        "user-menu.toml"@,
        "descriptions.toml"@,
        "filters.toml"@,
        "connections.toml"@,
        "shell.toml"@,
        "viewer.toml"@,
    ]
}

/// The environment variable that names each document's override, in checking order.
pub open spec fn document_variables() -> Seq<(Seq<char>, Seq<char>)> {
    seq![
        ("keymap.toml"@, "NEAR_KEYMAP"@),
        ("theme.toml"@, "NEAR_THEME"@),
        ("confirmations.toml"@, "NEAR_CONFIRMATIONS"@),
        ("handlers.toml"@, "NEAR_HANDLERS"@),
        ("macros.toml"@, "NEAR_MACROS"@),
        ("panel-modes.toml"@, "NEAR_PANEL_MODES"@),
        ("editor.toml"@, "NEAR_EDITOR"@),
        ("history.toml"@, "NEAR_HISTORY"@),
        ("interface.toml"@, "NEAR_INTERFACE"@),
        ("highlighting.toml"@, "NEAR_HIGHLIGHTING"@),
        ("user-menu.toml"@, "NEAR_USER_MENU"@),
        ("descriptions.toml"@, "NEAR_DESCRIPTIONS"@),
        ("filters.toml"@, "NEAR_FILTERS"@),
        ("connections.toml"@, "NEAR_CONNECTIONS"@),
        ("shell.toml"@, "NEAR_SHELL_PROFILE"@),
        ("viewer.toml"@, "NEAR_VIEWER"@),
    ]
}

fn document_variable(i: usize) -> (r: (&'static str, &'static str))
    requires
        i < 16,
    ensures
        (r.0@, r.1@) == document_variables()[i as int],
{
    let table = [
        ("keymap.toml", "NEAR_KEYMAP"),
        ("theme.toml", "NEAR_THEME"),
        ("confirmations.toml", "NEAR_CONFIRMATIONS"),
        ("handlers.toml", "NEAR_HANDLERS"),
        ("macros.toml", "NEAR_MACROS"),
        ("panel-modes.toml", "NEAR_PANEL_MODES"),
        ("editor.toml", "NEAR_EDITOR"),
        ("history.toml", "NEAR_HISTORY"),
        ("interface.toml", "NEAR_INTERFACE"),
        ("highlighting.toml", "NEAR_HIGHLIGHTING"),
        ("user-menu.toml", "NEAR_USER_MENU"),
        ("descriptions.toml", "NEAR_DESCRIPTIONS"),
        ("filters.toml", "NEAR_FILTERS"),
        ("connections.toml", "NEAR_CONNECTIONS"),
        ("shell.toml", "NEAR_SHELL_PROFILE"),
        ("viewer.toml", "NEAR_VIEWER"),
    ];
    let r = table[i];
    proof {
        assert(table@[i as int] == r);
    }
    r
}

/// Whether a document is one the file manager ships.
pub fn is_document(name: &str) -> (r: bool)
    ensures
        r == document_names().contains(name@),
{
    let mut i: usize = 0;
    while i < 16
        invariant
            i <= 16,
            forall|j: int| 0 <= j < i ==> document_names()[j] != name@,
        decreases 16 - i,
    {
        let (doc, _) = document_variable(i);
        assert(doc@ == document_names()[i as int]);
        if str_eq(doc, name) {
            assert(document_names()[i as int] == name@);
            return true;
        }
        i = i + 1;
    }
    assert forall|j: int| 0 <= j < document_names().len() implies document_names()[j] != name@ by {}
    false
}

/// `path` followed by a `/` and `name`, with no doubled separator.
pub open spec fn joined(path: Seq<char>, name: Seq<char>) -> Seq<char> {
    if path.len() == 0 {
        name
    } else if path.last() == '/' || path.last() == '\\' {
        path + name
    } else {
        path + seq!['/'] + name
    }
}

/// Whether a path text is absolute: it starts at a root (`/`), is a UNC path (`\\`), or has
/// a drive letter followed by `:` and a separator.
pub open spec fn is_absolute_text(p: Seq<char>) -> bool {
    ||| p.len() >= 1 && p[0] == '/'
    ||| p.len() >= 2 && p[0] == '\\' && p[1] == '\\'
    ||| p.len() >= 3 && (('a' <= p[0] && p[0] <= 'z') || ('A' <= p[0] && p[0] <= 'Z')) && p[1] == ':'
        && (p[2] == '/' || p[2] == '\\')
}

/// A path taken against a current directory: itself when absolute, else joined to it.
pub open spec fn absolute_in(cwd: Seq<char>, p: Seq<char>) -> Seq<char> {
    if is_absolute_text(p) {
        p
    } else {
        joined(cwd, p)
    }
}

/// Makes a path absolute against a current directory (see `absolute_in`).
pub fn absolute_path(cwd: &str, path: &str) -> (r: String)
    ensures
        r@ == absolute_in(cwd@, path@),
{
    let c = crate::text::chars_of(path);
    let n = c.len();
    let absolute = (n >= 1 && c[0] == '/') || (n >= 2 && c[0] == '\\' && c[1] == '\\') || (n >= 3
        && (('a' <= c[0] && c[0] <= 'z') || ('A' <= c[0] && c[0] <= 'Z')) && c[1] == ':' && (c[2]
        == '/' || c[2] == '\\'));
    if absolute {
        path.to_owned()
    } else {
        join_name(cwd, path)
    }
}

/// Joins a relative name to a directory path.
pub fn join_name(path: &str, name: &str) -> (r: String)
    ensures
        r@ == joined(path@, name@),
{
    let chars = crate::text::chars_of(path);
    let n = chars.len();
    if n == 0 {
        return name.to_owned();
    }
    let mut r = path.to_owned();
    if chars[n - 1] != '/' && chars[n - 1] != '\\' {
        push_char(&mut r, '/');
    }
    push_str(&mut r, name);
    r
}

/// Where a profile keeps its configuration and its state.
#[derive(Clone, Debug, PartialEq, Eq)]
pub struct ProfileRoots {
    pub config: String,
    pub data: String,
}

impl ProfileRoots {
    /// The roots of a portable profile: `config` and `state` under one directory, which is
    /// taken against the current directory `cwd` when it is relative.
    pub fn portable(root: &str, cwd: &str) -> (r: Self)
        ensures
            r.config@ == joined(absolute_in(cwd@, root@), "config"@),
            r.data@ == joined(absolute_in(cwd@, root@), "state"@),
    {
        let base = absolute_path(cwd, root);
        ProfileRoots { config: join_name(base.as_str(), "config"), data: join_name(base.as_str(), "state") }
    }

    /// The roots in use: the configuration root given, else the user's, else `config` under
    /// the application data root; the data root given, else the application data root; each
    /// taken against the current directory `cwd` when relative.
    pub fn resolve(
        config: Option<&str>,
        data: Option<&str>,
        user_config_root: Option<&str>,
        application_data_root: &str,
        cwd: &str,
    ) -> (r: Self)
        ensures
            r.config@ == absolute_in(
                cwd@,
                match config {
                    Some(c) => c@,
                    None => match user_config_root {
                        Some(u) => u@,
                        None => joined(application_data_root@, "config"@),
                    },
                },
            ),
            r.data@ == absolute_in(
                cwd@,
                match data {
                    Some(d) => d@,
                    None => application_data_root@,
                },
            ),
    {
        proof {
            reveal_strlit("config");
        }
        let chosen_config = match config {
            Some(c) => c.to_owned(),
            None => match user_config_root {
                Some(u) => u.to_owned(),
                None => join_name(application_data_root, "config"),
            },
        };
        let chosen_data = match data {
            Some(d) => d,
            None => application_data_root,
        };
        ProfileRoots {
            config: absolute_path(cwd, chosen_config.as_str()),
            data: absolute_path(cwd, chosen_data),
        }
    }
}

/// A profile bundle to write or to read.
#[derive(Clone, Debug, PartialEq, Eq)]
pub enum ProfileTransfer {
    Export(String),
    Import(String),
}

/// What a transfer says: whether it exports, and the bundle's path.
pub open spec fn transfer_view(t: ProfileTransfer) -> (bool, Seq<char>) {
    match t {
        ProfileTransfer::Export(p) => (true, p@),
        ProfileTransfer::Import(p) => (false, p@),
    }
}

/// Records the one profile transfer of an invocation; a second one is refused.
pub fn set_transfer(current: &mut Option<ProfileTransfer>, transfer: ProfileTransfer) -> (r: Result<(), String>)
    ensures
        (*old(current)) is Some ==> (r matches Err(m) && m@ == "only one profile import or export action may be requested"@)
            && *final(current) == *old(current),
        (*old(current)) is None ==> r is Ok && *final(current) == Some(transfer),
{
    if current.is_some() {
        Err("only one profile import or export action may be requested".to_owned())
    } else {
        *current = Some(transfer);
        Ok(())
    }
}

/// The file manager's configuration arguments.
#[derive(Debug)]
pub struct ConfigArguments {
    overrides: StrMap<String>,
    pub config_root: Option<String>,
    pub data_root: Option<String>,
    pub transfer: Option<ProfileTransfer>,
    pub trust_workspace: bool,
    pub help: bool,
}

/// What parsed arguments say: document overrides, roots, transfer, workspace trust and help.
pub type ArgumentsView = (
    Map<Seq<char>, Seq<char>>,
    Option<Seq<char>>,
    Option<Seq<char>>,
    Option<(bool, Seq<char>)>,
    bool,
    bool,
);

pub open spec fn opt_view(o: Option<String>) -> Option<Seq<char>> {
    match o {
        Some(s) => Some(s@),
        None => None,
    }
}

pub open spec fn unicode_message() -> Seq<char> {
    "configuration arguments must be valid Unicode"@
}

/// The document a `--name` argument overrides, for the document arguments.
pub open spec fn document_argument(a: Seq<char>) -> Option<Seq<char>> {
    if a.len() > 2 && a.take(2) == "--"@ && document_names().contains(a.skip(2) + ".toml"@) {
        Some(a.skip(2) + ".toml"@)
    } else {
        None
    }
}

pub open spec fn path_argument(a: Seq<char>) -> bool {
    a == "--config-root"@ || a == "--data-root"@ || a == "--portable"@ || a == "--export-profile"@
        || a == "--import-profile"@
}

/// Applies an argument that takes a path.
pub open spec fn with_path(st: ArgumentsView, a: Seq<char>, p: Seq<char>, cwd: Seq<char>) -> Result<ArgumentsView, Seq<char>> {
    if a == "--config-root"@ {
        Ok((st.0, Some(p), st.2, st.3, st.4, st.5))
    } else if a == "--data-root"@ {
        Ok((st.0, st.1, Some(p), st.3, st.4, st.5))
    } else if a == "--portable"@ {
        Ok(
            (
                st.0,
                Some(joined(absolute_in(cwd, p), "config"@)),
                Some(joined(absolute_in(cwd, p), "state"@)),
                st.3,
                st.4,
                st.5,
            ),
        )
    } else if st.3 is Some {
        Err("only one profile import or export action may be requested"@)
    } else {
        Ok((st.0, st.1, st.2, Some((a == "--export-profile"@, p)), st.4, st.5))
    }
}

/// Reading the arguments from position `i` on.
pub open spec fn parse_from(args: Seq<Option<Seq<char>>>, i: int, st: ArgumentsView, cwd: Seq<char>) -> Result<ArgumentsView, Seq<char>>
    decreases args.len() - i,
{
    if i < 0 || i >= args.len() {
        Ok(st)
    } else {
        match args[i] {
            None => Err(unicode_message()),
            Some(a) => if a == "--help"@ || a == "-h"@ {
                parse_from(args, i + 1, (st.0, st.1, st.2, st.3, st.4, true), cwd)
            } else if a == "--trust-workspace"@ {
                parse_from(args, i + 1, (st.0, st.1, st.2, st.3, true, st.5), cwd)
            } else if path_argument(a) || document_argument(a) is Some {
                if i + 1 >= args.len() {
                    Err(a + " requires a path"@)
                } else {
                    match args[i + 1] {
                        None => Err(unicode_message()),
                        Some(p) => if path_argument(a) {
                            match with_path(st, a, p, cwd) {
                                Ok(next) => parse_from(args, i + 2, next, cwd),
                                Err(m) => Err(m),
                            }
                        } else {
                            parse_from(
                                args,
                                i + 2,
                                (st.0.insert(document_argument(a).unwrap(), p), st.1, st.2, st.3, st.4, st.5),
                                cwd,
                            )
                        },
                    }
                }
            } else {
                Err("unknown near-fm argument: "@ + a)
            },
        }
    }
}

/// The overrides the environment adds for documents not overridden on the command line.
pub open spec fn env_overrides(
    overrides: Map<Seq<char>, Seq<char>>,
    env: Map<Seq<char>, Seq<char>>,
    pairs: Seq<(Seq<char>, Seq<char>)>,
) -> Map<Seq<char>, Seq<char>>
    decreases pairs.len(),
{
    if pairs.len() == 0 {
        overrides
    } else {
        let prev = env_overrides(overrides, env, pairs.drop_last());
        let (doc, var) = pairs.last();
        if !prev.contains_key(doc) && env.contains_key(var) {
            prev.insert(doc, env[var])
        } else {
            prev
        }
    }
}

/// The arguments a command line and environment give.
pub open spec fn spec_parse(args: Seq<Option<Seq<char>>>, env: Map<Seq<char>, Seq<char>>, cwd: Seq<char>) -> Result<ArgumentsView, Seq<char>> {
    match parse_from(args, 0, (Map::empty(), None, None, None, false, false), cwd) {
        Ok(st) => Ok(
            (
                env_overrides(st.0, env, document_variables()),
                st.1,
                st.2,
                st.3,
                st.4 || (env.contains_key("NEAR_TRUST_WORKSPACE"@) && env["NEAR_TRUST_WORKSPACE"@]
                    == "1"@),
                st.5,
            ),
        ),
        Err(m) => Err(m),
    }
}

impl Default for ConfigArguments {
    fn default() -> (r: Self)
        ensures
            r.spec_view() == (Map::<Seq<char>, Seq<char>>::empty(), None::<Seq<char>>, None::<Seq<char>>, None::<(bool, Seq<char>)>, false, false),
    {
        let r = ConfigArguments {
            overrides: StrMap::new(),
            config_root: None,
            data_root: None,
            transfer: None,
            trust_workspace: false,
            help: false,
        };
        assert(r.overrides.map().map_values(|s: String| s@) =~= Map::<Seq<char>, Seq<char>>::empty());
        r
    }
}

/// The document named by a document argument, if the argument is one.
fn document_argument_of(a: &str) -> (r: Option<String>)
    ensures
        match document_argument(a@) {
            Some(d) => r matches Some(s) && s@ == d,
            None => r is None,
        },
{
    let chars = crate::text::chars_of(a);
    if chars.len() <= 2 || chars[0] != '-' || chars[1] != '-' {
        proof {
            if a@.len() > 2 && a@.take(2) == "--"@ {
                reveal_strlit("--");
                assert(a@[0] == a@.take(2)[0]);
                assert(a@[1] == a@.take(2)[1]);
            }
        }
        return None;
    }
    let rest = crate::text::slice_chars(chars.as_slice(), 2, chars.len());
    let mut name = crate::text::string_of(rest.as_slice());
    push_str(&mut name, ".toml");
    proof {
        reveal_strlit("--");
        assert(a@.take(2) =~= "--"@);
        assert(rest@ =~= a@.skip(2));
    }
    if is_document(name.as_str()) {
        Some(name)
    } else {
        None
    }
}

fn is_path_argument(a: &str) -> (r: bool)
    ensures
        r == path_argument(a@),
{
    str_eq(a, "--config-root") || str_eq(a, "--data-root") || str_eq(a, "--portable") || str_eq(
        a,
        "--export-profile",
    ) || str_eq(a, "--import-profile")
}

impl ConfigArguments {
    pub closed spec fn spec_view(&self) -> ArgumentsView {
        (
            self.overrides.map().map_values(|s: String| s@),
            opt_view(self.config_root),
            opt_view(self.data_root),
            match self.transfer {
                Some(t) => Some(transfer_view(t)),
                None => None,
            },
            self.trust_workspace,
            self.help,
        )
    }

    /// Parses the file manager's arguments (an argument that is not Unicode is `None`) and
    /// the environment's document overrides and workspace trust; a relative portable root is
    /// taken against the current directory `cwd`.
    pub fn parse(args: Vec<Option<String>>, environment: &StrMap<String>, cwd: &str) -> (r: Result<Self, String>)
        ensures
            match spec_parse(args@.map_values(|a: Option<String>| opt_view(a)), environment.map().map_values(|s: String| s@), cwd@) {
                Ok(v) => r matches Ok(p) && p.spec_view() == v,
                Err(m) => r matches Err(e) && e@ == m,
            },
    {
        let ghost av = args@.map_values(|a: Option<String>| opt_view(a));
        let ghost ev = environment.map().map_values(|s: String| s@);
        let mut parsed = ConfigArguments::default();
        let mut i: usize = 0;
        while i < args.len()
            invariant
                i <= args@.len(),
                av == args@.map_values(|a: Option<String>| opt_view(a)),
                parse_from(av, 0, (Map::empty(), None, None, None, false, false), cwd@) == parse_from(av, i as int, parsed.spec_view(), cwd@),
            decreases args@.len() - i,
        {
            let argument = match &args[i] {
                None => {
                    return Err("configuration arguments must be valid Unicode".to_owned());
                },
                Some(a) => a.as_str(),
            };
            assert(av[i as int] == Some(argument@));
            if str_eq(argument, "--help") || str_eq(argument, "-h") {
                parsed.help = true;
                i = i + 1;
            } else if str_eq(argument, "--trust-workspace") {
                parsed.trust_workspace = true;
                i = i + 1;
            } else {
                let document = document_argument_of(argument);
                let takes_path = is_path_argument(argument);
                if !takes_path && document.is_none() {
                    return Err(concat2("unknown near-fm argument: ", argument));
                }
                if i + 1 >= args.len() {
                    return Err(concat2(argument, " requires a path"));
                }
                let path = match &args[i + 1] {
                    None => {
                        return Err("configuration arguments must be valid Unicode".to_owned());
                    },
                    Some(p) => p.clone(),
                };
                assert(av[i + 1] == Some(path@));
                if takes_path {
                    if str_eq(argument, "--config-root") {
                        parsed.config_root = Some(path);
                    } else if str_eq(argument, "--data-root") {
                        parsed.data_root = Some(path);
                    } else if str_eq(argument, "--portable") {
                        let roots = ProfileRoots::portable(path.as_str(), cwd);
                        parsed.config_root = Some(roots.config);
                        parsed.data_root = Some(roots.data);
                    } else if str_eq(argument, "--export-profile") {
                        match set_transfer(&mut parsed.transfer, ProfileTransfer::Export(path)) {
                            Err(m) => {
                                return Err(m);
                            },
                            Ok(()) => {},
                        }
                    } else {
                        match set_transfer(&mut parsed.transfer, ProfileTransfer::Import(path)) {
                            Err(m) => {
                                return Err(m);
                            },
                            Ok(()) => {},
                        }
                    }
                } else {
                    match document {
                        Some(d) => {
                            let ghost before = parsed.overrides.map();
                            parsed.overrides.insert(d, path);
                            proof {
                                assert(parsed.overrides.map().map_values(|s: String| s@) =~= before.map_values(
                                    |s: String| s@,
                                ).insert(document_argument(argument@).unwrap(), path@));
                            }
                        },
                        None => {},
                    }
                }
                i = i + 2;
            }
        }
        let ghost st = parsed.spec_view();
        let mut k: usize = 0;
        assert(document_variables().take(0) =~= Seq::<(Seq<char>, Seq<char>)>::empty());
        while k < 16
            invariant
                k <= 16,
                ev == environment.map().map_values(|s: String| s@),
                parsed.spec_view() == (env_overrides(st.0, ev, document_variables().take(k as int)), st.1, st.2, st.3, st.4, st.5),
            decreases 16 - k,
        {
            let (doc, var) = document_variable(k);
            assert(document_variables().take(k + 1).drop_last() =~= document_variables().take(k as int));
            if !parsed.overrides.contains_key(doc) {
                match environment.get(var) {
                    Some(value) => {
                        let ghost before = parsed.overrides.map();
                        parsed.overrides.insert(doc.to_owned(), value.clone());
                        proof {
                            assert(parsed.overrides.map().map_values(|s: String| s@) =~= before.map_values(
                                |s: String| s@,
                            ).insert(doc@, value@));
                        }
                    },
                    None => {},
                }
            }
            k = k + 1;
        }
        assert(document_variables().take(16) =~= document_variables());
        match environment.get("NEAR_TRUST_WORKSPACE") {
            Some(value) => {
                if str_eq(value.as_str(), "1") {
                    parsed.trust_workspace = true;
                }
            },
            None => {},
        }
        Ok(parsed)
    }

    pub fn usage() -> (r: &'static str)
        ensures
            r@ == "usage: near-fm [--portable DIR | --config-root DIR --data-root DIR] [--export-profile DIR | --import-profile DIR] [--keymap FILE] [--theme FILE] [--confirmations FILE] [--handlers FILE] [--macros FILE] [--panel-modes FILE] [--editor FILE] [--viewer FILE] [--history FILE] [--interface FILE] [--highlighting FILE] [--user-menu FILE] [--descriptions FILE] [--filters FILE] [--connections FILE] [--shell FILE] [--trust-workspace]"@,
    {
        "usage: near-fm [--portable DIR | --config-root DIR --data-root DIR] [--export-profile DIR | --import-profile DIR] [--keymap FILE] [--theme FILE] [--confirmations FILE] [--handlers FILE] [--macros FILE] [--panel-modes FILE] [--editor FILE] [--viewer FILE] [--history FILE] [--interface FILE] [--highlighting FILE] [--user-menu FILE] [--descriptions FILE] [--filters FILE] [--connections FILE] [--shell FILE] [--trust-workspace]"
    }

    /// The file that overrides a document, if one does.
    pub fn override_path(&self, document: &str) -> (r: Option<&String>)
        ensures
            match r {
                Some(p) => self.spec_view().0.contains_key(document@) && p@ == self.spec_view().0[document@],
                None => !self.spec_view().0.contains_key(document@),
            },
    {
        self.overrides.get(document)
    }
}


/// The name `Debug` shows for a layer kind.
pub open spec fn layer_name(k: ConfigLayerKind) -> Seq<char> {
    match k {
        ConfigLayerKind::BuiltIn => "BuiltIn"@,
        ConfigLayerKind::Platform => "Platform"@,
        ConfigLayerKind::Plugin => "Plugin"@,
        ConfigLayerKind::User => "User"@,
        ConfigLayerKind::Workspace => "Workspace"@,
        ConfigLayerKind::Cli => "Cli"@,
    }
}

fn layer_name_of(k: ConfigLayerKind) -> (r: &'static str)
    ensures
        r@ == layer_name(k),
{
    match k {
        ConfigLayerKind::BuiltIn => "BuiltIn",
        ConfigLayerKind::Platform => "Platform",
        ConfigLayerKind::Plugin => "Plugin",
        ConfigLayerKind::User => "User",
        ConfigLayerKind::Workspace => "Workspace",
        ConfigLayerKind::Cli => "Cli",
    }
}

/// One line of the diagnostics: a field and where its value came from.
pub open spec fn origin_line(field: Seq<char>, o: crate::config::OriginView) -> Seq<char> {
    field + " <- "@ + o.1 + seq![':'] + crate::text::decimal(o.2 as nat) + seq![':'] + crate::text::decimal(
        o.3 as nat,
    ) + " ("@ + layer_name(o.0) + seq![')'] + match o.4 {
        Some(v) => " migrated from schema "@ + crate::text::decimal(v as nat),
        None => Seq::empty(),
    }
}

/// The lines of the diagnostics after the heading, one per field in order.
pub open spec fn origin_lines(fields: Seq<Seq<char>>, origins: Map<Seq<char>, crate::config::OriginView>) -> Seq<char>
    decreases fields.len(),
{
    if fields.len() == 0 {
        Seq::empty()
    } else {
        origin_lines(fields.drop_last(), origins) + seq!['\n'] + origin_line(fields.last(), origins[fields.last()])
    }
}

fn origin_line_text(field: &str, origin: &ConfigOrigin) -> (r: String)
    ensures
        r@ == origin_line(field@, crate::config::origin_view(*origin)),
{
    let mut out = field.to_owned();
    push_str(&mut out, " <- ");
    push_str(&mut out, origin.source.as_str());
    push_char(&mut out, ':');
    let line = crate::text::usize_decimal(origin.line);
    push_str(&mut out, line.as_str());
    push_char(&mut out, ':');
    let column = crate::text::usize_decimal(origin.column);
    push_str(&mut out, column.as_str());
    push_str(&mut out, " (");
    push_str(&mut out, layer_name_of(origin.layer));
    push_char(&mut out, ')');
    match origin.migrated_from {
        Some(v) => {
            push_str(&mut out, " migrated from schema ");
            let n = crate::text::u64_decimal(v as u64);
            push_str(&mut out, n.as_str());
        },
        None => {},
    }
    proof {
        reveal_strlit("");
    }
    out
}

/// The diagnostics of a resolved document: a heading, then each field with its origin.
pub fn diagnostics(document: &str, effective: &EffectiveConfig) -> (r: String)
    ensures
        exists|fields: Seq<Seq<char>>|
            (forall|f: Seq<char>| #[trigger] fields.contains(f) <==> effective.spec_origins().contains_key(f))
                && r@ == document@ + " effective values:"@ + origin_lines(fields, effective.spec_origins()),
{
    let origins = effective.origins();
    proof {
        origins.lemma_lengths();
        use_type_invariant(origins);
    }
    let ghost om = effective.spec_origins();
    let mut out = concat2(document, " effective values:");
    let ghost head = out@;
    let mut i: usize = 0;
    assert(origins.keys().take(0) =~= Seq::<Seq<char>>::empty());
    while i < origins.len()
        invariant
            i <= origins.keys().len(),
            origins.keys().len() == origins.values().len(),
            crate::strmap::sorted_keys(origins.keys()),
            om == crate::config::origin_views(origins.map()),
            out@ == head + origin_lines(origins.keys().take(i as int), om),
        decreases origins.keys().len() - i,
    {
        let field = origins.key_at(i);
        let origin = origins.value_at(i);
        proof {
            crate::strmap::lemma_index_of_sorted(origins.keys(), i as int);
            assert(om[origins.keys()[i as int]] == crate::config::origin_view(*origin));
        }
        let line = origin_line_text(field.as_str(), origin);
        push_char(&mut out, '\n');
        push_str(&mut out, line.as_str());
        proof {
            let t = origins.keys().take(i + 1);
            assert(t.drop_last() =~= origins.keys().take(i as int));
            reveal_strlit("");
        }
        i = i + 1;
    }
    assert(origins.keys().take(i as int) =~= origins.keys());
    proof {
        assert forall|f: Seq<char>| #[trigger] origins.keys().contains(f) <==> om.contains_key(f) by {}
    }
    out
}

/// The migration of the macro document from schema one to schema two.
pub struct MacroSchemaMigration;

impl ConfigMigrate for MacroSchemaMigration {
    /// Sets the `schema` entry of the root table to two, keeping every other entry; a root that
    /// is not a table is refused.
    fn migrate(&self, value: ConfigValue) -> (r: Result<ConfigValue, String>)
        ensures
            match value {
                ConfigValue::Table(entries) => r matches Ok(v) && v is Table && v@ == ValueView::Table(
                    with_schema_entry(entries_view(entries@), 2),
                ),
                _ => r matches Err(m) && m@ == "macro configuration root must be a table"@,
            },
    {
        proof {
            reveal_strlit("macro configuration root must be a table");
        }
        match value {
            ConfigValue::Table(entries) => Ok(set_schema(ConfigValue::Table(entries), 2)),
            _ => Err("macro configuration root must be a table".to_owned()),
        }
    }
}

/// The engine a document is resolved with: the macro document is at schema two and migrates
/// from schema one; every other document is at the current schema.
pub fn config_engine(document: &str) -> (r: ConfigEngine)
    ensures
        document@ == "macros.toml"@ ==> r.spec_version() == 2,
        document@ != "macros.toml"@ ==> r.spec_version() == crate::config::CONFIG_SCHEMA_VERSION,
{
    if str_eq(document, "macros.toml") {
        ConfigEngine::new(2).with_migration(ConfigMigration::new(1, 2, Box::new(MacroSchemaMigration)))
    } else {
        ConfigEngine::default()
    }
}

/// The files a document's layers were read from, each as its shown path and its text.
pub struct DocumentSources {
    pub platform: Option<(String, String)>,
    pub plugins: Vec<(String, String)>,
    pub user: Option<(String, String)>,
    pub workspace: Option<(String, String)>,
    pub cli: Option<(String, String)>,
}

/// A resolved document: its effective text, its diagnostics and the origin of each field.
pub struct ResolvedDocument {
    pub text: String,
    pub diagnostics: String,
    pub origins: StrMap<ConfigOrigin>,
}

impl ResolvedDocument {
    /// The provenance of a field's value.
    pub fn setting_provenance(&self, field: &str) -> (r: Option<SettingProvenance>)
        ensures
            match r {
                Some(p) => self.origins.map().contains_key(field@) && p.layer == self.origins.map()[field@].layer
                    && p.source@ == self.origins.map()[field@].source@,
                None => !self.origins.map().contains_key(field@),
            },
    {
        match self.origins.get(field) {
            Some(origin) => Some(SettingProvenance { layer: origin.layer, source: origin.source.clone() }),
            None => None,
        }
    }
}

/// The layers of a document: built in, platform, plugins in order, user, workspace (trusted
/// when asked) and command line (always trusted).
pub open spec fn document_layer(kind: ConfigLayerKind, priority: u32, file: (String, String), trusted: bool) -> ConfigLayer {
    ConfigLayer { kind, priority, source: file.0, text: file.1, trusted: trusted || kind != ConfigLayerKind::Workspace }
}

fn file_layer(kind: ConfigLayerKind, priority: u32, file: &(String, String), trusted: bool) -> (r: ConfigLayer)
    ensures
        r.kind == kind && r.priority == priority && r.source@ == file.0@ && r.text@ == file.1@
            && r.trusted == (trusted || kind != ConfigLayerKind::Workspace),
{
    let layer = ConfigLayer::new(kind, file.0.as_str(), file.1.as_str()).with_priority(priority);
    if trusted {
        layer.trusted()
    } else {
        layer
    }
}

/// The layers a document resolves from, in the order they are gathered.
fn document_layers(document: &str, built_in: &str, sources: &DocumentSources, trust_workspace: bool) -> (r: Vec<ConfigLayer>)
    requires
        sources_fit(built_in@, *sources),
    ensures
        forall|i: int| 0 <= i < r@.len() ==> text_fits(#[trigger] r@[i]),
        r@.len() >= 1,
        r@[0].kind == ConfigLayerKind::BuiltIn && r@[0].source@ == "<built-in>/"@ + document@ && r@[0].text@ == built_in@,
        forall|i: int| 0 <= i < r@.len() ==> (#[trigger] r@[i]).kind != ConfigLayerKind::Workspace || r@[i].trusted == trust_workspace,
        r@.map_values(|l: ConfigLayer| layer_view(l)) == gathered_layers(document@, built_in@, *sources, trust_workspace),
{
    let ghost plugin_views = Seq::new(
        sources.plugins@.len(),
        |p: int|
            file_layer_view(
                ConfigLayerKind::Plugin,
                if p < 4294967295 {
                    p as u32
                } else {
                    4294967295u32
                },
                sources.plugins@[p],
                false,
            ),
    );
    let mut layers: Vec<ConfigLayer> = Vec::new();
    let source = concat2("<built-in>/", document);
    proof {
        reveal_strlit("<built-in>/");
    }
    layers.push(ConfigLayer::new(ConfigLayerKind::BuiltIn, source.as_str(), built_in));
    match &sources.platform {
        Some(file) => layers.push(file_layer(ConfigLayerKind::Platform, 0, file, false)),
        None => {},
    }
    let ghost head = seq![(ConfigLayerKind::BuiltIn, 0u32, "<built-in>/"@ + document@, built_in@, true)]
        + optional_layer(sources.platform, ConfigLayerKind::Platform, false);
    assert(layers@.map_values(|l: ConfigLayer| layer_view(l)) =~= head);
    assert(plugin_views.take(0) =~= Seq::<(ConfigLayerKind, u32, Seq<char>, Seq<char>, bool)>::empty());
    let mut p: usize = 0;
    while p < sources.plugins.len()
        invariant
            layers@.len() >= 1,
            layers@[0].kind == ConfigLayerKind::BuiltIn && layers@[0].source@ == "<built-in>/"@ + document@ && layers@[0].text@ == built_in@,
            forall|i: int| 0 <= i < layers@.len() ==> (#[trigger] layers@[i]).kind != ConfigLayerKind::Workspace || layers@[i].trusted == trust_workspace,
            forall|i: int| 0 <= i < layers@.len() ==> text_fits(#[trigger] layers@[i]),
            sources_fit(built_in@, *sources),
            p <= sources.plugins@.len(),
            plugin_views.len() == sources.plugins@.len(),
            forall|q: int| 0 <= q < plugin_views.len() ==> #[trigger] plugin_views[q] == file_layer_view(
                ConfigLayerKind::Plugin,
                if q < 4294967295 {
                    q as u32
                } else {
                    4294967295u32
                },
                sources.plugins@[q],
                false,
            ),
            layers@.map_values(|l: ConfigLayer| layer_view(l)) == head + plugin_views.take(p as int),
        decreases sources.plugins@.len() - p,
    {
        let priority: u32 = if p < 4294967295 {
            p as u32
        } else {
            4294967295
        };
        let ghost before = layers@;
        layers.push(file_layer(ConfigLayerKind::Plugin, priority, &sources.plugins[p], false));
        proof {
            assert(plugin_views.take(p + 1) =~= plugin_views.take(p as int).push(plugin_views[p as int]));
            assert(layers@.map_values(|l: ConfigLayer| layer_view(l)) =~= before.map_values(
                |l: ConfigLayer| layer_view(l),
            ).push(layer_view(layers@.last())));
        }
        p = p + 1;
    }
    assert(plugin_views.take(p as int) =~= plugin_views);
    let ghost mid = layers@.map_values(|l: ConfigLayer| layer_view(l));
    match &sources.user {
        Some(file) => layers.push(file_layer(ConfigLayerKind::User, 0, file, false)),
        None => {},
    }
    assert(layers@.map_values(|l: ConfigLayer| layer_view(l)) =~= mid + optional_layer(
        sources.user,
        ConfigLayerKind::User,
        false,
    ));
    let ghost mid2 = layers@.map_values(|l: ConfigLayer| layer_view(l));
    match &sources.workspace {
        Some(file) => layers.push(file_layer(ConfigLayerKind::Workspace, 0, file, trust_workspace)),
        None => {},
    }
    assert(layers@.map_values(|l: ConfigLayer| layer_view(l)) =~= mid2 + optional_layer(
        sources.workspace,
        ConfigLayerKind::Workspace,
        trust_workspace,
    ));
    let ghost mid3 = layers@.map_values(|l: ConfigLayer| layer_view(l));
    match &sources.cli {
        Some(file) => layers.push(file_layer(ConfigLayerKind::Cli, 0, file, true)),
        None => {},
    }
    assert(layers@.map_values(|l: ConfigLayer| layer_view(l)) =~= mid3 + optional_layer(
        sources.cli,
        ConfigLayerKind::Cli,
        true,
    ));
    assert(plugin_views =~= Seq::new(
        sources.plugins@.len(),
        |p: int|
            file_layer_view(
                ConfigLayerKind::Plugin,
                if p < 4294967295 {
                    p as u32
                } else {
                    4294967295u32
                },
                sources.plugins@[p],
                false,
            ),
    ));
    assert(layers@.map_values(|l: ConfigLayer| layer_view(l)) =~= gathered_layers(
        document@,
        built_in@,
        *sources,
        trust_workspace,
    ));
    layers
}


pub open spec fn file_fits(file: (String, String)) -> bool {
    crate::config_text::utf8_len(file.1@) < usize::MAX && vstd::utf8::encode_utf8(file.1@).len() < usize::MAX
}

pub open spec fn sources_fit(built_in: Seq<char>, sources: DocumentSources) -> bool {
    &&& crate::config_text::utf8_len(built_in) < usize::MAX && vstd::utf8::encode_utf8(built_in).len() < usize::MAX
    &&& (sources.platform matches Some(f) ==> file_fits(f))
    &&& (sources.user matches Some(f) ==> file_fits(f))
    &&& (sources.workspace matches Some(f) ==> file_fits(f))
    &&& (sources.cli matches Some(f) ==> file_fits(f))
    &&& forall|i: int| 0 <= i < sources.plugins@.len() ==> file_fits(#[trigger] sources.plugins@[i])
}

/// What a layer is, by value: kind, priority, source, text and trust.
pub open spec fn layer_view(l: ConfigLayer) -> (ConfigLayerKind, u32, Seq<char>, Seq<char>, bool) {
    (l.kind, l.priority, l.source@, l.text@, l.trusted)
}

/// The layer a found file gives: only a workspace layer can be untrusted.
pub open spec fn file_layer_view(kind: ConfigLayerKind, priority: u32, file: (String, String), trusted: bool) -> (
    ConfigLayerKind,
    u32,
    Seq<char>,
    Seq<char>,
    bool,
) {
    (kind, priority, file.0@, file.1@, trusted || kind != ConfigLayerKind::Workspace)
}

pub open spec fn optional_layer(
    file: Option<(String, String)>,
    kind: ConfigLayerKind,
    trusted: bool,
) -> Seq<(ConfigLayerKind, u32, Seq<char>, Seq<char>, bool)> {
    match file {
        Some(f) => seq![file_layer_view(kind, 0, f, trusted)],
        None => Seq::empty(),
    }
}

/// The layers a document resolves from, in the order they are gathered: the built-in text,
/// the platform file, each plugin file at its position as priority, then the user,
/// workspace (trusted only when the workspace is) and command-line files.
pub open spec fn gathered_layers(
    document: Seq<char>,
    built_in: Seq<char>,
    sources: DocumentSources,
    trust_workspace: bool,
) -> Seq<(ConfigLayerKind, u32, Seq<char>, Seq<char>, bool)> {
    seq![(ConfigLayerKind::BuiltIn, 0u32, "<built-in>/"@ + document, built_in, true)]
        + optional_layer(sources.platform, ConfigLayerKind::Platform, false)
        + Seq::new(
        sources.plugins@.len(),
        |p: int|
            file_layer_view(
                ConfigLayerKind::Plugin,
                if p < 4294967295 {
                    p as u32
                } else {
                    4294967295u32
                },
                sources.plugins@[p],
                false,
            ),
    ) + optional_layer(sources.user, ConfigLayerKind::User, false) + optional_layer(
        sources.workspace,
        ConfigLayerKind::Workspace,
        trust_workspace,
    ) + optional_layer(sources.cli, ConfigLayerKind::Cli, true)
}

/// The schema version a document is resolved at: two for the macro document, else the
/// current one.
pub open spec fn document_version(document: Seq<char>) -> u16 {
    if document == "macros.toml"@ {
        2
    } else {
        crate::config::CONFIG_SCHEMA_VERSION
    }
}

/// A resolution result fits the layers: it succeeds when every layer is acceptable, with the
/// `toml` rendering of the merged value, the origins of its fields and their diagnostics; it
/// fails with the text of the first refused layer's error, or with the rendering's error.
pub open spec fn resolved_from(
    version: u16,
    layers: Seq<ConfigLayer>,
    document: Seq<char>,
    r: Result<ResolvedDocument, String>,
) -> bool {
    let sorted = sorted_layers(layers);
    let all_acceptable = forall|i: int| 0 <= i < sorted.len() ==> layer_acceptable(#[trigger] sorted[i], version);
    &&& match r {
        Ok(d) => all_acceptable && exists|values: Seq<ValueView>, migrated: Seq<Option<u16>>|
            #[trigger] prepared(sorted, values, migrated, version) && {
                let merged = merged_layers(sorted, values, migrated);
                &&& crate::config::toml_pretty(merged.0) == Ok::<Seq<char>, Seq<char>>(d.text@)
                &&& origin_views(d.origins.map()) == merged.1
                &&& exists|fields: Seq<Seq<char>>|
                    (forall|f: Seq<char>| #[trigger] fields.contains(f) <==> merged.1.contains_key(f))
                        && d.diagnostics@ == document + " effective values:"@ + origin_lines(fields, merged.1)
            },
        Err(m) => (exists|i: int, e: ConfigError|
            0 <= i < sorted.len() && (forall|j: int| 0 <= j < i ==> layer_acceptable(#[trigger] sorted[j], version))
                && #[trigger] layer_error_fits(sorted[i], e, version) && m@ == spec_config_error_text(e)) || (
        all_acceptable && exists|values: Seq<ValueView>, migrated: Seq<Option<u16>>|
            #[trigger] prepared(sorted, values, migrated, version) && crate::config::toml_pretty(
                merged_layers(sorted, values, migrated).0,
            ) == Err::<Seq<char>, Seq<char>>(m@)),
    }
    &&& (forall|i: int|
        0 <= i < sorted.len() ==> layer_acceptable(#[trigger] sorted[i], version) && document_schema(sorted[i])
            == Some(version as int)) ==> (r is Ok || exists|values: Seq<ValueView>, migrated: Seq<Option<u16>>|
        #[trigger] prepared(sorted, values, migrated, version) && crate::config::toml_pretty(
            merged_layers(sorted, values, migrated).0,
        ) is Err)
}

/// Resolves a shipped document from its built-in text and the files found for it: unknown
/// documents and refused layers are errors; otherwise the effective text is the `toml`
/// rendering of the merged value, with the diagnostics and origins of its fields.
pub fn resolve_document(
    document: &str,
    built_in: &str,
    sources: &DocumentSources,
    arguments: &ConfigArguments,
) -> (r: Result<ResolvedDocument, String>)
    requires
        sources_fit(built_in@, *sources),
    ensures
        !document_names().contains(document@) ==> (r matches Err(m) && m@ == "unknown configuration document: "@ + document@),
        document_names().contains(document@) ==> exists|layers: Seq<ConfigLayer>|
            layers.map_values(|l: ConfigLayer| layer_view(l)) == gathered_layers(
                document@,
                built_in@,
                *sources,
                arguments.spec_view().4,
            ) && #[trigger] resolved_from(document_version(document@), layers, document@, r),
{
    if !is_document(document) {
        return Err(concat2("unknown configuration document: ", document));
    }
    let layers = document_layers(document, built_in, sources, arguments.trust_workspace);
    let ghost given = layers@;
    let engine = config_engine(document);
    proof {
        reveal_strlit("macros.toml");
        assert(engine.spec_version() == document_version(document@));
    }
    let ghost version = engine.spec_version();
    let ghost sorted = sorted_layers(given);
    let effective = match engine.resolve(layers) {
        Ok(e) => e,
        Err(error) => {
            let r = Err(error.text());
            proof {
                let i = choose|i: int|
                    0 <= i < sorted.len() && (forall|j: int|
                        0 <= j < i ==> layer_acceptable(#[trigger] sorted[j], version))
                        && layer_error_fits(sorted[i], error, version);
                assert(layer_error_fits(sorted[i], error, version));
                assert(resolved_from(version, given, document@, r));
            }
            return r;
        },
    };
    let ghost ev = effective.spec_value();
    let ghost eo = effective.spec_origins();
    proof {
        let (values, migrated) = choose|values: Seq<ValueView>, migrated: Seq<Option<u16>>|
            prepared(sorted, values, migrated, version) && (ev, eo) == merged_layers(sorted, values, migrated);
        assert(prepared(sorted, values, migrated, version));
    }
    let text = match crate::config::render_toml(effective.value()) {
        Ok(t) => t,
        Err(m) => {
            let r = Err(m);
            proof {
                let (values, migrated) = choose|values: Seq<ValueView>, migrated: Seq<Option<u16>>|
                    prepared(sorted, values, migrated, version) && (ev, eo) == merged_layers(sorted, values, migrated);
                assert(prepared(sorted, values, migrated, version));
                assert(resolved_from(version, given, document@, r));
            }
            return r;
        },
    };
    let diagnostics = diagnostics(document, &effective);
    let (_, origins) = effective.into_parts();
    let d = ResolvedDocument { text, diagnostics, origins };
    proof {
        let (values, migrated) = choose|values: Seq<ValueView>, migrated: Seq<Option<u16>>|
            prepared(sorted, values, migrated, version) && (ev, eo) == merged_layers(sorted, values, migrated);
        assert(prepared(sorted, values, migrated, version));
        let merged = merged_layers(sorted, values, migrated);
        assert(merged.0 == ev && merged.1 == eo);
        assert(crate::config::toml_pretty(merged.0) == Ok::<Seq<char>, Seq<char>>(d.text@));
        assert(origin_views(d.origins.map()) == merged.1);
        let fields = choose|fields: Seq<Seq<char>>|
            (forall|f: Seq<char>| #[trigger] fields.contains(f) <==> eo.contains_key(f))
                && d.diagnostics@ == document@ + " effective values:"@ + origin_lines(fields, eo);
        assert(forall|f: Seq<char>| #[trigger] fields.contains(f) <==> merged.1.contains_key(f));
        assert(d.diagnostics@ == document@ + " effective values:"@ + origin_lines(fields, merged.1));
    }
    let r = Ok(d);
    proof {
        assert(resolved_from(version, given, document@, r));
    }
    r
}


/// The directory configuration documents live in: the one given, else the user's.
pub fn config_root(arguments: &ConfigArguments, user_root: Option<&str>) -> (r: Option<String>)
    ensures
        match arguments.spec_view().1 {
            Some(c) => r matches Some(p) && p@ == c,
            None => match user_root {
                Some(u) => r matches Some(p) && p@ == u@,
                None => r is None,
            },
        },
{
    match &arguments.config_root {
        Some(c) => Some(c.clone()),
        None => match user_root {
            Some(u) => Some(u.to_owned()),
            None => None,
        },
    }
}

/// Where a document's settings are written: its command-line override, else the document in
/// the configuration root.
pub fn writable_document_path(document: &str, arguments: &ConfigArguments, user_root: Option<&str>) -> (r: Option<String>)
    ensures
        arguments.spec_view().0.contains_key(document@) ==> (r matches Some(p) && p@ == arguments.spec_view().0[document@]),
        !arguments.spec_view().0.contains_key(document@) ==> match arguments.spec_view().1 {
            Some(c) => r matches Some(p) && p@ == joined(c, document@),
            None => match user_root {
                Some(u) => r matches Some(p) && p@ == joined(u@, document@),
                None => r is None,
            },
        },
{
    match arguments.override_path(document) {
        Some(p) => Some(p.clone()),
        None => match config_root(arguments, user_root) {
            Some(root) => Some(join_name(root.as_str(), document)),
            None => None,
        },
    }
}

/// A complete document to write to a path, replacing it atomically.
#[derive(Debug, PartialEq, Eq)]
pub struct DocumentWrite {
    pub path: String,
    pub contents: String,
}

/// The names of the settings documents the store can write, in order.
pub open spec fn writable_names() -> Seq<Seq<char>> {
    seq![
        "keymap.toml"@,
        "confirmations.toml"@,
        "panel-modes.toml"@,
        "viewer.toml"@,
        "editor.toml"@,
        "history.toml"@,
        "interface.toml"@,
        "shell.toml"@,
    ]
}

proof fn lemma_writable_names(documents: [&'static str; 8])
    requires
        documents == WRITABLE_DOCUMENTS,
    ensures
        forall|j: int| 0 <= j < 8 ==> (#[trigger] documents@[j])@ == writable_names()[j],
{
    reveal_strlit("keymap.toml");
    reveal_strlit("confirmations.toml");
    reveal_strlit("panel-modes.toml");
    reveal_strlit("viewer.toml");
    reveal_strlit("editor.toml");
    reveal_strlit("history.toml");
    reveal_strlit("interface.toml");
    reveal_strlit("shell.toml");
}

/// The view of an optional text.
pub open spec fn opt_str_view(s: Option<&str>) -> Option<Seq<char>> {
    match s {
        Some(t) => Some(t@),
        None => None,
    }
}

/// Where a writable document is written and for which layer: its command-line override,
/// else under the configuration root, else under the user root; none without any of them.
pub open spec fn writable_entry(
    document: Seq<char>,
    av: ArgumentsView,
    user_root: Option<Seq<char>>,
) -> Option<(Seq<char>, ConfigLayerKind)> {
    if av.0.contains_key(document) {
        Some((av.0[document], ConfigLayerKind::Cli))
    } else {
        match av.1 {
            Some(c) => Some((joined(c, document), ConfigLayerKind::User)),
            None => match user_root {
                Some(u) => Some((joined(u, document), ConfigLayerKind::User)),
                None => None,
            },
        }
    }
}

/// The settings documents that can be written, each with its path and layer.
pub struct AtomicSettingsDocumentStore {
    pub paths: StrMap<(String, ConfigLayerKind)>,
}

impl AtomicSettingsDocumentStore {
    /// The writable documents that have a path, each with the layer it is written for (the
    /// command line where it is overridden there, else the user layer); none when no writable
    /// document has a path.
    pub fn new(arguments: &ConfigArguments, user_root: Option<&str>) -> (r: Option<Self>)
        ensures
            match r {
                Some(store) => {
                    &&& forall|d: Seq<char>|
                        #[trigger] store.paths.map().contains_key(d) <==> (writable_names().contains(d)
                            && writable_entry(d, arguments.spec_view(), opt_str_view(user_root)) is Some)
                    &&& forall|d: Seq<char>|
                        #[trigger] store.paths.map().contains_key(d) ==> Some(
                            (store.paths.map()[d].0@, store.paths.map()[d].1),
                        ) == writable_entry(d, arguments.spec_view(), opt_str_view(user_root))
                },
                None => forall|j: int|
                    0 <= j < writable_names().len() ==> writable_entry(
                        #[trigger] writable_names()[j],
                        arguments.spec_view(),
                        opt_str_view(user_root),
                    ) is None,
            },
    {
        let mut paths: StrMap<(String, ConfigLayerKind)> = StrMap::new();
        let documents = WRITABLE_DOCUMENTS;
        proof {
            lemma_writable_names(documents);
        }
        let ghost av = arguments.spec_view();
        let ghost ur = opt_str_view(user_root);
        let mut i: usize = 0;
        while i < 8
            invariant
                i <= 8,
                documents@.len() == 8,
                forall|j: int| 0 <= j < 8 ==> (#[trigger] documents@[j])@ == writable_names()[j],
                av == arguments.spec_view(),
                ur == opt_str_view(user_root),
                forall|d: Seq<char>|
                    #[trigger] paths.map().contains_key(d) <==> (writable_names().take(i as int).contains(d)
                        && writable_entry(d, av, ur) is Some),
                forall|d: Seq<char>|
                    #[trigger] paths.map().contains_key(d) ==> Some((paths.map()[d].0@, paths.map()[d].1))
                        == writable_entry(d, av, ur),
                forall|j: int| 0 <= j < i ==> writable_entry(#[trigger] writable_names()[j], av, ur) is None
                    || paths.map().contains_key(writable_names()[j]),
            decreases 8 - i,
        {
            let document = documents[i];
            let ghost before = paths.map();
            assert(writable_names().take(i + 1) =~= writable_names().take(i as int).push(document@));
            match writable_document_path(document, arguments, user_root) {
                Some(path) => {
                    let layer = match arguments.override_path(document) {
                        Some(_) => ConfigLayerKind::Cli,
                        None => ConfigLayerKind::User,
                    };
                    paths.insert(document.to_owned(), (path, layer));
                    proof {
                        assert(paths.map() == before.insert(document@, (path, layer)));
                    }
                },
                None => {},
            }
            proof {
                let t0 = writable_names().take(i as int);
                let t1 = writable_names().take(i + 1);
                assert forall|d: Seq<char>| t1.contains(d) <==> (t0.contains(d) || d == document@) by {
                    if t1.contains(d) {
                        let k = choose|k: int| 0 <= k < t1.len() && t1[k] == d;
                        if k < i {
                            assert(t0[k] == d);
                        }
                    }
                    if d == document@ {
                        assert(t1[i as int] == d);
                    }
                    if t0.contains(d) {
                        let k = choose|k: int| 0 <= k < t0.len() && t0[k] == d;
                        assert(t1[k] == d);
                    }
                }
            }
            i = i + 1;
        }
        assert(writable_names().take(8) =~= writable_names());
        if paths.len() == 0 {
            proof {
                paths.lemma_lengths();
                use_type_invariant(&paths);
                assert forall|j: int| 0 <= j < writable_names().len() implies writable_entry(
                    #[trigger] writable_names()[j],
                    av,
                    ur,
                ) is None by {
                    if writable_entry(writable_names()[j], av, ur) is Some {
                        assert(paths.map().contains_key(writable_names()[j]));
                        assert(paths.map().dom().contains(writable_names()[j]));
                    }
                }
            }
            None
        } else {
            Some(AtomicSettingsDocumentStore { paths })
        }
    }

    /// The file a document is read from.
    pub fn load(&self, document: &str) -> (r: Result<&String, String>)
        ensures
            match r {
                Ok(p) => self.paths.map().contains_key(document@) && *p == self.paths.map()[document@].0,
                Err(m) => !self.paths.map().contains_key(document@) && m@ == document@ + " has no readable configuration layer"@,
            },
    {
        match self.paths.get(document) {
            Some(entry) => Ok(&entry.0),
            None => Err(concat2(document, " has no readable configuration layer")),
        }
    }

    /// The write that stores a document's new contents.
    pub fn persist(&self, document: &str, contents: &str) -> (r: Result<DocumentWrite, String>)
        ensures
            match r {
                Ok(w) => self.paths.map().contains_key(document@) && w.path@ == self.paths.map()[document@].0@
                    && w.contents@ == contents@,
                Err(m) => !self.paths.map().contains_key(document@) && m@ == document@ + " has no writable configuration layer"@,
            },
    {
        match self.paths.get(document) {
            Some(entry) => Ok(DocumentWrite { path: entry.0.clone(), contents: contents.to_owned() }),
            None => Err(concat2(document, " has no writable configuration layer")),
        }
    }

    /// The provenance of values read from a document.
    pub fn provenance(&self, document: &str) -> (r: Option<SettingProvenance>)
        ensures
            match r {
                Some(p) => self.paths.map().contains_key(document@) && p.layer == self.paths.map()[document@].1
                    && p.source@ == self.paths.map()[document@].0@,
                None => !self.paths.map().contains_key(document@),
            },
    {
        match self.paths.get(document) {
            Some(entry) => Some(SettingProvenance { layer: entry.1, source: entry.0.clone() }),
            None => None,
        }
    }
}

/// Whether a name is among the allowed ones.
pub open spec fn allowed_name(allowed: Seq<&str>, f: Seq<char>) -> bool {
    exists|j: int| 0 <= j < allowed.len() && #[trigger] allowed[j]@ == f
}

/// Checks that a profile bundle lists only allowed files.
pub fn validate_manifest_files(files: &[String], allowed: &[&str], kind: &str) -> (r: Result<(), String>)
    ensures
        match r {
            Ok(()) => forall|i: int| 0 <= i < files@.len() ==> allowed_name(allowed@, #[trigger] files@[i]@),
            Err(m) => exists|i: int|
                0 <= i < files@.len() && !allowed_name(allowed@, #[trigger] files@[i]@)
                    && (forall|k: int| 0 <= k < i ==> allowed_name(allowed@, #[trigger] files@[k]@))
                    && m@ == "profile contains unsupported "@ + kind@ + " file "@ + files@[i]@,
        },
{
    let mut i: usize = 0;
    while i < files.len()
        invariant
            i <= files@.len(),
            forall|k: int| 0 <= k < i ==> allowed_name(allowed@, #[trigger] files@[k]@),
        decreases files@.len() - i,
    {
        let mut j: usize = 0;
        let mut found = false;
        while j < allowed.len() && !found
            invariant
                i < files@.len(),
                j <= allowed@.len(),
                found ==> j < allowed@.len() && allowed@[j as int]@ == files@[i as int]@,
                !found ==> forall|t: int| 0 <= t < j ==> #[trigger] allowed@[t]@ != files@[i as int]@,
            decreases allowed@.len() - j, if found { 0int } else { 1int },
        {
            if str_eq(allowed[j], files[i].as_str()) {
                found = true;
            } else {
                j = j + 1;
            }
        }
        if !found {
            let mut m = "profile contains unsupported ".to_owned();
            push_str(&mut m, kind);
            push_str(&mut m, " file ");
            push_str(&mut m, files[i].as_str());
            assert(!allowed_name(allowed@, files@[i as int]@));
            return Err(m);
        }
        assert(allowed@[j as int]@ == files@[i as int]@);
        i = i + 1;
    }
    Ok(())
}

/// Checks that a profile bundle was written by the file manager in the current schema.
pub fn check_manifest(schema: u16, application: &str) -> (r: Result<(), String>)
    ensures
        schema == 1 && application@ == "near-fm"@ ==> r is Ok,
        !(schema == 1 && application@ == "near-fm"@) ==> (r matches Err(m) && m@ == "unsupported profile "@
            + application@ + " schema "@ + crate::text::decimal(schema as nat)),
{
    if schema == 1 && str_eq(application, "near-fm") {
        Ok(())
    } else {
        let mut m = "unsupported profile ".to_owned();
        push_str(&mut m, application);
        push_str(&mut m, " schema ");
        let n = crate::text::u64_decimal(schema as u64);
        push_str(&mut m, n.as_str());
        Err(m)
    }
}

} // verus!
