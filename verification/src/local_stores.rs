//! The computing side of the local stores: shell arguments for native paths, state document
//! names, schema checks of stored documents and the folder shortcut slots.

use vstd::prelude::*;

use crate::command_line::CommandLineArgumentResolver;
use crate::local_fs::{
    local_path, local_provider_id, native_lossy_of, native_lossy_text, native_text,
    native_text_of, path_fault_message, path_of, quote_command_argument, quoted_argument,
    NativePath, PathStyle,
};
use crate::archive::{is_path_separator, normalize_inner, normalized_inner};
use crate::local_fs::{native_of_text, native_path_from_text, path_style, view_style, NativePathView};
use crate::navigation::FolderLocationEntry;
use crate::resource::{Location, ResourceRef};
use crate::text::{chars_of, decimal, push_str, str_eq, u64_decimal};

verus! {

/// The message for a location that names no native path.
pub open spec fn no_native_location_text(location: Seq<char>) -> Seq<char> {
    "provider location "@ + location + " has no native command-line path"@
}

/// The message for a provider whose resources have no native path.
pub open spec fn no_native_provider_text(provider: Seq<char>) -> Seq<char> {
    "provider "@ + provider + " has no native command-line path"@
}

/// The message for a native path that is not valid Unicode.
pub open spec fn unencodable_path_text() -> Seq<char> {
    "native path cannot be represented in the command shell encoding"@
}

/// The quoted shell argument of a native path, or why it has none.
pub open spec fn native_argument(style: PathStyle, p: crate::local_fs::NativePathView) -> Result<
    Seq<char>,
    Seq<char>,
> {
    match native_text_of(p) {
        Some(t) => Ok(quoted_argument(style, t)),
        None => Err(unencodable_path_text()),
    }
}

/// Whether a result holds exactly the given text result.
pub open spec fn text_result(r: Result<String, String>, v: Result<Seq<char>, Seq<char>>) -> bool {
    match v {
        Ok(t) => r matches Ok(s) && s@ == t,
        Err(t) => r matches Err(s) && s@ == t,
    }
}

/// Quotes native paths of the local provider for the platform shell.
#[derive(Clone, Copy, Debug)]
pub struct LocalCommandLineArgumentResolver {
    pub style: PathStyle,
}

impl LocalCommandLineArgumentResolver {
    pub fn new(style: PathStyle) -> (r: Self)
        ensures
            r.style == style,
    {
        LocalCommandLineArgumentResolver { style }
    }
}

fn quote_native_path(style: PathStyle, path: &NativePath) -> (r: Result<String, String>)
    ensures
        text_result(r, native_argument(style, path@)),
{
    match native_text(path) {
        Some(text) => Ok(quote_command_argument(style, text.as_str())),
        None => {
            proof {
                reveal_strlit("native path cannot be represented in the command shell encoding");
            }
            Err("native path cannot be represented in the command shell encoding".to_owned())
        },
    }
}

impl CommandLineArgumentResolver for LocalCommandLineArgumentResolver {
    fn quote_text(&self, value: &str) -> (r: String)
        ensures
            r@ == quoted_argument(self.style, value@),
    {
        quote_command_argument(self.style, value)
    }

    fn location_argument(&self, location: &Location) -> (r: Result<String, String>)
        ensures
            text_result(
                r,
                match path_of(location@, self.style) {
                    Ok(p) => native_argument(self.style, p),
                    Err(_) => Err(no_native_location_text(location@)),
                },
            ),
    {
        match local_path(location, self.style) {
            Ok(path) => quote_native_path(self.style, &path),
            Err(_) => {
                let mut text = "provider location ".to_owned();
                proof {
                    reveal_strlit("provider location ");
                    reveal_strlit(" has no native command-line path");
                }
                push_str(&mut text, location.as_str());
                push_str(&mut text, " has no native command-line path");
                Err(text)
            },
        }
    }

    fn resource_argument(&self, resource: &ResourceRef) -> (r: Result<String, String>)
        ensures
            text_result(
                r,
                if resource.provider@ != local_provider_id() {
                    Err(no_native_provider_text(resource.provider@))
                } else {
                    match path_of(resource.location@, self.style) {
                        Ok(p) => native_argument(self.style, p),
                        Err(f) => Err("provider failed: "@ + path_fault_message(f)),
                    }
                },
            ),
    {
        proof {
            reveal_strlit("near.local-fs");
            assert("near.local-fs"@ =~= local_provider_id());
        }
        if !str_eq(resource.provider.as_str(), "near.local-fs") {
            let mut text = "provider ".to_owned();
            proof {
                reveal_strlit("provider ");
                reveal_strlit(" has no native command-line path");
            }
            push_str(&mut text, resource.provider.as_str());
            push_str(&mut text, " has no native command-line path");
            return Err(text);
        }
        match local_path(&resource.location, self.style) {
            Ok(path) => quote_native_path(self.style, &path),
            Err(error) => Err(error.message()),
        }
    }

    fn native_working_directory(&self, location: &Location) -> (r: Result<Option<String>, String>)
        ensures
            match path_of(location@, self.style) {
                Ok(p) => r matches Ok(Some(s)) && s@ == native_lossy_of(p),
                Err(f) => r matches Err(s) && s@ == "provider failed: "@ + path_fault_message(f),
            },
    {
        match local_path(location, self.style) {
            Ok(path) => Ok(Some(native_lossy_text(&path))),
            Err(error) => Err(error.message()),
        }
    }
}

/// Whether a path text starts with a `.` component, which a native path keeps as its own
/// current-directory component.
pub open spec fn starts_at_current_directory(style: PathStyle, s: Seq<char>) -> bool {
    s.len() >= 1 && s[0] == '.' && (s.len() == 1 || is_path_separator(style, s[1]))
}

/// Whether a state document name is exactly one normal path component: not rooted, no `..`,
/// no leading `.` component, and one named component once empty and `.` components are dropped.
pub open spec fn valid_document_name(style: PathStyle, s: Seq<char>) -> bool {
    match normalized_inner(style, s) {
        Some(n) => n.len() > 0 && !n.contains('/') && !starts_at_current_directory(style, s),
        None => false,
    }
}

/// A drive prefix alone, such as `C:`, as UTF-16 units.
pub open spec fn drive_only(r: Seq<u16>) -> bool {
    r.len() == 2 && r[1] == 58 && ((65 <= r[0] <= 90) || (97 <= r[0] <= 122))
}

/// A relative native path appended to a root (`PathBuf::push`): a separator goes between them
/// unless the root is empty, already ends with one, or (on Windows) is a bare drive prefix.
pub open spec fn joined_native(root: NativePathView, name: NativePathView) -> NativePathView {
    match (root, name) {
        (NativePathView::Unix(r), NativePathView::Unix(n)) => NativePathView::Unix(
            if r.len() == 0 || r.last() == 47 {
                r + n
            } else {
                r.push(47) + n
            },
        ),
        (NativePathView::Windows(r), NativePathView::Windows(n)) => NativePathView::Windows(
            if r.len() == 0 || r.last() == 47 || r.last() == 92 || drive_only(r) {
                r + n
            } else {
                r.push(92) + n
            },
        ),
        _ => root,
    }
}

/// The message for a state document name that is not one plain file name.
pub open spec fn invalid_document_text(document: Seq<char>) -> Seq<char> {
    "invalid state document name: "@ + document
}

/// Where the state documents of the local host live; each document is one file in that folder.
pub struct LocalStateDocumentStore {
    pub root: NativePath,
}

fn append_bytes(out: &mut Vec<u8>, tail: &Vec<u8>)
    ensures
        final(out)@ == old(out)@ + tail@,
{
    let mut i: usize = 0;
    while i < tail.len()
        invariant
            i <= tail@.len(),
            out@ == old(out)@ + tail@.take(i as int),
        decreases tail@.len() - i,
    {
        out.push(tail[i]);
        i = i + 1;
        assert(tail@.take(i as int) =~= tail@.take(i - 1).push(tail@[i - 1]));
    }
    assert(tail@.take(tail@.len() as int) =~= tail@);
}

fn append_units(out: &mut Vec<u16>, tail: &Vec<u16>)
    ensures
        final(out)@ == old(out)@ + tail@,
{
    let mut i: usize = 0;
    while i < tail.len()
        invariant
            i <= tail@.len(),
            out@ == old(out)@ + tail@.take(i as int),
        decreases tail@.len() - i,
    {
        out.push(tail[i]);
        i = i + 1;
        assert(tail@.take(i as int) =~= tail@.take(i - 1).push(tail@[i - 1]));
    }
    assert(tail@.take(tail@.len() as int) =~= tail@);
}

/// Appends a relative native path of the same style to a root (see `joined_native`).
pub fn join_native(root: &NativePath, name: &NativePath) -> (r: NativePath)
    requires
        view_style(root@) == view_style(name@),
    ensures
        r@ == joined_native(root@, name@),
{
    match (root, name) {
        (NativePath::Unix(r), NativePath::Unix(n)) => {
            let mut out = r.clone();
            assert(out@ =~= r@);
            if !(r.len() == 0 || r[r.len() - 1] == 47u8) {
                out.push(47u8);
            }
            append_bytes(&mut out, n);
            NativePath::Unix(out)
        },
        (NativePath::Windows(r), NativePath::Windows(n)) => {
            let mut out = r.clone();
            assert(out@ =~= r@);
            let k = r.len();
            let bare_drive = k == 2 && r[1] == 58u16 && ((65u16 <= r[0] && r[0] <= 90u16) || (97u16
                <= r[0] && r[0] <= 122u16));
            if !(k == 0 || r[k - 1] == 47u16 || r[k - 1] == 92u16 || bare_drive) {
                out.push(92u16);
            }
            append_units(&mut out, n);
            NativePath::Windows(out)
        },
        (NativePath::Unix(_), NativePath::Windows(_)) => {
            proof {
                assert(false);
            }
            root.clone()
        },
        (NativePath::Windows(_), NativePath::Unix(_)) => {
            proof {
                assert(false);
            }
            root.clone()
        },
    }
}

/// Checks a state document name (see `valid_document_name`).
pub fn is_valid_document_name(style: PathStyle, document: &str) -> (r: bool)
    ensures
        r == valid_document_name(style, document@),
{
    let normal = match normalize_inner(document, style) {
        Ok(n) => n,
        Err(_) => return false,
    };
    let n = chars_of(normal.as_str());
    if n.len() == 0 {
        return false;
    }
    let mut i: usize = 0;
    while i < n.len()
        invariant
            i <= n@.len(),
            n@ == normal@,
            normalized_inner(style, document@) == Some(normal@),
            forall|j: int| 0 <= j < i ==> n@[j] != '/',
        decreases n@.len() - i,
    {
        if n[i] == '/' {
            assert(n@.contains('/')) by {
                assert(n@[i as int] == '/');
            }
            return false;
        }
        i = i + 1;
    }
    assert(!n@.contains('/'));
    let s = chars_of(document);
    let dot_first = s.len() >= 1 && s[0] == '.' && (s.len() == 1 || s[1] == '/' || (matches!(
        style,
        PathStyle::Windows,
    ) && s[1] == '\\'));
    !dot_first
}

impl LocalStateDocumentStore {
    pub fn new(root: NativePath) -> (r: Self)
        ensures
            r.root@ == root@,
    {
        LocalStateDocumentStore { root }
    }

    /// The file of a state document: the root joined with the document name, which must be one
    /// plain file name.
    pub fn document_path(&self, document: &str) -> (r: Result<NativePath, String>)
        ensures
            if valid_document_name(view_style(self.root@), document@) {
                r matches Ok(p) && p@ == joined_native(
                    self.root@,
                    native_of_text(view_style(self.root@), document@),
                )
            } else {
                r matches Err(m) && m@ == invalid_document_text(document@)
            },
    {
        let style = path_style(&self.root);
        if !is_valid_document_name(style, document) {
            let mut text = "invalid state document name: ".to_owned();
            proof {
                reveal_strlit("invalid state document name: ");
            }
            push_str(&mut text, document);
            return Err(text);
        }
        let name = native_path_from_text(style, document);
        Ok(join_native(&self.root, &name))
    }
}

/// The documents the local stores keep, each at schema one.
#[derive(Clone, Copy, Debug, PartialEq, Eq, Structural)]
pub enum StoredDocument {
    CommandHistory,
    ResourceHistory,
    FolderNavigation,
    EditorPosition,
    ViewerState,
}

/// How a stored document is named in messages.
pub open spec fn stored_document_name(d: StoredDocument) -> Seq<char> {
    match d {
        StoredDocument::CommandHistory => "command history"@,
        StoredDocument::ResourceHistory => "resource history"@,
        StoredDocument::FolderNavigation => "folder navigation"@,
        StoredDocument::EditorPosition => "editor position"@,
        StoredDocument::ViewerState => "viewer state"@,
    }
}

/// The message for a stored document at a schema the store does not read.
pub open spec fn unsupported_schema_text(d: StoredDocument, version: u32) -> Seq<char> {
    "unsupported "@ + stored_document_name(d) + " schema "@ + decimal(version as nat)
}

/// Checks the schema version read from a stored document: only schema one is read.
pub fn check_stored_schema(document: StoredDocument, version: u32) -> (r: Result<(), String>)
    ensures
        if version == 1 {
            r is Ok
        } else {
            r matches Err(m) && m@ == unsupported_schema_text(document, version)
        },
{
    if version == 1 {
        return Ok(());
    }
    let name = match document {
        StoredDocument::CommandHistory => "command history",
        StoredDocument::ResourceHistory => "resource history",
        StoredDocument::FolderNavigation => "folder navigation",
        StoredDocument::EditorPosition => "editor position",
        StoredDocument::ViewerState => "viewer state",
    };
    proof {
        reveal_strlit("command history");
        reveal_strlit("resource history");
        reveal_strlit("folder navigation");
        reveal_strlit("editor position");
        reveal_strlit("viewer state");
        reveal_strlit("unsupported ");
        reveal_strlit(" schema ");
    }
    let mut text = "unsupported ".to_owned();
    push_str(&mut text, name);
    push_str(&mut text, " schema ");
    let number = u64_decimal(version as u64);
    push_str(&mut text, number.as_str());
    Err(text)
}

/// The number of folder shortcut slots.
pub const SHORTCUT_SLOTS: usize = 10;

/// The entry a list of stored shortcuts leaves in a slot: the last one stored for it.
pub open spec fn last_in_slot(entries: Seq<(usize, FolderLocationEntry)>, slot: int) -> Option<
    FolderLocationEntry,
>
    decreases entries.len(),
{
    if entries.len() == 0 {
        None
    } else if entries.last().0 == slot {
        Some(entries.last().1)
    } else {
        last_in_slot(entries.drop_last(), slot)
    }
}

/// The shortcut slots that stored shortcuts fill; shortcuts for slots past the last are
/// ignored.
pub open spec fn slots_of(entries: Seq<(usize, FolderLocationEntry)>) -> Seq<
    Option<FolderLocationEntry>,
> {
    Seq::new(SHORTCUT_SLOTS as nat, |slot: int| last_in_slot(entries, slot))
}

/// The shortcuts stored for filled slots, each with its slot number, in slot order.
pub open spec fn stored_shortcuts(slots: Seq<Option<FolderLocationEntry>>) -> Seq<
    (usize, FolderLocationEntry),
>
    decreases slots.len(),
{
    if slots.len() == 0 {
        Seq::empty()
    } else {
        stored_shortcuts(slots.drop_last()) + match slots.last() {
            Some(e) => seq![((slots.len() - 1) as usize, e)],
            None => Seq::empty(),
        }
    }
}

/// Fills the shortcut slots from stored shortcuts (see `slots_of`).
pub fn shortcut_slots(entries: Vec<(usize, FolderLocationEntry)>) -> (r: Vec<
    Option<FolderLocationEntry>,
>)
    ensures
        r@ == slots_of(entries@),
{
    let ghost original = entries@;
    let mut slots: Vec<Option<FolderLocationEntry>> = Vec::new();
    while slots.len() < SHORTCUT_SLOTS
        invariant
            slots@.len() <= SHORTCUT_SLOTS,
            forall|j: int| 0 <= j < slots@.len() ==> slots@[j] is None,
        decreases SHORTCUT_SLOTS - slots@.len(),
    {
        slots.push(None);
    }
    let mut rest = entries;
    let ghost mut k: int = 0;
    assert(original.take(0) =~= Seq::<(usize, FolderLocationEntry)>::empty());
    assert(original.skip(0) =~= original);
    while rest.len() > 0
        invariant
            0 <= k <= original.len(),
            rest@ == original.skip(k),
            slots@.len() == SHORTCUT_SLOTS,
            forall|j: int| 0 <= j < SHORTCUT_SLOTS ==> slots@[j] == last_in_slot(original.take(k), j),
        decreases rest@.len(),
    {
        let (slot, entry) = rest.remove(0);
        proof {
            assert(original.take(k + 1).drop_last() =~= original.take(k));
            assert(original.take(k + 1).last() == original[k]);
            assert(original.skip(k + 1) =~= original.skip(k).drop_first());
            k = k + 1;
        }
        if slot < SHORTCUT_SLOTS {
            slots.set(slot, Some(entry));
        }
    }
    assert(original.take(original.len() as int) =~= original);
    assert(slots@ =~= slots_of(original));
    slots
}

/// The shortcuts to store for filled slots (see `stored_shortcuts`).
pub fn shortcut_entries(slots: Vec<Option<FolderLocationEntry>>) -> (r: Vec<
    (usize, FolderLocationEntry),
>)
    ensures
        r@ == stored_shortcuts(slots@),
{
    let ghost original = slots@;
    let total = slots.len();
    let mut out: Vec<(usize, FolderLocationEntry)> = Vec::new();
    let mut rest = slots;
    let mut i: usize = 0;
    assert(original.take(0) =~= Seq::<Option<FolderLocationEntry>>::empty());
    assert(original.skip(0) =~= original);
    while rest.len() > 0
        invariant
            i <= original.len(),
            original.len() == total,
            rest@ == original.skip(i as int),
            out@ == stored_shortcuts(original.take(i as int)),
        decreases rest@.len(),
    {
        let slot = rest.remove(0);
        proof {
            assert(original.take(i + 1).drop_last() =~= original.take(i as int));
            assert(original.take(i + 1).last() == original[i as int]);
            assert(original.skip(i + 1) =~= original.skip(i as int).drop_first());
        }
        match slot {
            Some(entry) => {
                out.push((i, entry));
                assert(out@ =~= stored_shortcuts(original.take(i + 1)));
            },
            None => {
                assert(out@ =~= stored_shortcuts(original.take(i + 1)));
            },
        }
        i = i + 1;
    }
    assert(original.take(original.len() as int) =~= original);
    out
}

proof fn lemma_stored_shortcuts_slots(slots: Seq<Option<FolderLocationEntry>>, k: int, slot: int)
    requires
        0 <= k <= slots.len(),
        slots.len() <= usize::MAX,
    ensures
        last_in_slot(stored_shortcuts(slots.take(k)), slot) == if 0 <= slot < k {
            slots[slot]
        } else {
            None
        },
    decreases k,
{
    if k > 0 {
        let prefix = slots.take(k);
        assert(prefix.drop_last() =~= slots.take(k - 1));
        lemma_stored_shortcuts_slots(slots, k - 1, slot);
        let head = stored_shortcuts(slots.take(k - 1));
        match slots[k - 1] {
            Some(e) => {
                let whole = head + seq![((k - 1) as usize, e)];
                assert(whole.drop_last() =~= head);
            },
            None => {
                assert(head + Seq::<(usize, FolderLocationEntry)>::empty() =~= head);
            },
        }
    } else {
        assert(slots.take(0) =~= Seq::<Option<FolderLocationEntry>>::empty());
    }
}

/// Storing the shortcut slots and filling them again from what was stored gives back the same
/// slots.
pub proof fn law_shortcut_slots_round_trip(slots: Seq<Option<FolderLocationEntry>>)
    requires
        slots.len() == SHORTCUT_SLOTS,
    ensures
        slots_of(stored_shortcuts(slots)) == slots,
{
    assert forall|slot: int| 0 <= slot < SHORTCUT_SLOTS implies #[trigger] slots_of(
        stored_shortcuts(slots),
    )[slot] == slots[slot] by {
        lemma_stored_shortcuts_slots(slots, slots.len() as int, slot);
        assert(slots.take(slots.len() as int) =~= slots);
    }
    assert(slots_of(stored_shortcuts(slots)) =~= slots);
}

} // verus!
