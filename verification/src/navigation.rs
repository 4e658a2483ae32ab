//! Navigation state: folder history, shortcuts, editor and viewer positions, resource history.

use vstd::prelude::*;

use crate::ids::ProviderId;
use crate::resource::{Location, ResourceRef};

verus! {

/// One folder in history or in a shortcut slot.
#[derive(Clone, Debug, PartialEq, Eq)]
pub struct FolderLocationEntry {
    pub provider: ProviderId,
    pub location: Location,
    pub label: String,
    pub last_error: Option<String>,
    pub locked: bool,
}

impl FolderLocationEntry {
    pub fn new(provider: ProviderId, location: Location, label: String) -> (r: Self)
        ensures
            r.provider == provider,
            r.location == location,
            r.label == label,
            r.last_error is None,
            !r.locked,
    {
        FolderLocationEntry { provider, location, label, last_error: None, locked: false }
    }
}

/// Folder history and shortcuts.
#[derive(Clone, Debug, PartialEq, Eq)]
pub struct FolderNavigationState {
    pub history: Vec<FolderLocationEntry>,
    pub shortcuts: Vec<Option<FolderLocationEntry>>,
    pub max_unlocked: usize,
}

impl Default for FolderNavigationState {
    fn default() -> (r: Self)
        ensures
            r.history@.len() == 0,
            r.shortcuts@.len() == 0,
            r.max_unlocked == 200,
    {
        FolderNavigationState { history: Vec::new(), shortcuts: Vec::new(), max_unlocked: 200 }
    }
}

pub trait FolderNavigationStore {
    fn load(&self) -> Result<FolderNavigationState, String>;

    fn save(&self, state: &FolderNavigationState) -> Result<(), String>;
}

#[derive(Clone, Debug, PartialEq, Eq)]
pub struct EditorPositionEntry {
    pub provider: ProviderId,
    pub location: Location,
    pub row: usize,
    pub column: usize,
    pub top: usize,
}

pub trait EditorPositionStore {
    fn load(&self) -> Result<Vec<EditorPositionEntry>, String>;

    fn save(&self, entries: &[EditorPositionEntry]) -> Result<(), String>;
}

/// Remembered viewer state of one resource.
#[derive(Clone, Debug, PartialEq, Eq)]
pub struct ViewerStateEntry {
    pub provider: ProviderId,
    pub location: Location,
    pub offset: u64,
    pub bookmarks: std::collections::BTreeMap<u8, u64>,
    pub navigation_history: Vec<u64>,
    pub navigation_index: usize,
    pub encoding: Option<String>,
    pub wrap: Option<bool>,
    pub hex: Option<bool>,
}

pub trait ViewerStateStore {
    fn load(&self) -> Result<Vec<ViewerStateEntry>, String>;

    fn save(&self, entries: &[ViewerStateEntry]) -> Result<(), String>;
}

/// One viewed or edited resource.
#[derive(Clone, Debug, PartialEq, Eq)]
pub struct ResourceHistoryEntry {
    pub resource: ResourceRef,
    pub label: String,
    pub locked: bool,
    pub use_count: u64,
    pub last_error: Option<String>,
}

impl ResourceHistoryEntry {
    pub fn new(resource: ResourceRef, label: String) -> (r: Self)
        ensures
            r.resource == resource,
            r.label == label,
            !r.locked,
            r.use_count == 1,
            r.last_error is None,
    {
        ResourceHistoryEntry { resource, label, locked: false, use_count: 1, last_error: None }
    }
}

#[derive(Clone, Debug, PartialEq, Eq)]
pub struct ResourceHistoryState {
    pub viewed: Vec<ResourceHistoryEntry>,
    pub edited: Vec<ResourceHistoryEntry>,
    pub max_unlocked: usize,
}

impl Default for ResourceHistoryState {
    fn default() -> (r: Self)
        ensures
            r.viewed@.len() == 0,
            r.edited@.len() == 0,
            r.max_unlocked == 100,
    {
        ResourceHistoryState { viewed: Vec::new(), edited: Vec::new(), max_unlocked: 100 }
    }
}

pub trait ResourceHistoryStore {
    fn load(&self) -> Result<ResourceHistoryState, String>;

    fn save(&self, state: &ResourceHistoryState) -> Result<(), String>;
}

/// Storage for application state documents that must survive process restarts.
pub trait StateDocumentStore {
    fn load(&self, document: &str) -> Result<Option<String>, String>;

    fn persist(&self, document: &str, contents: &str) -> Result<(), String>;
}

/// Writes text to the platform clipboard.
pub trait Clipboard {
    fn set_text(&self, text: &str) -> Result<(), String>;
}

/// A removable device attached to the machine.
#[derive(Clone, Debug, PartialEq, Eq)]
pub struct RemovableDevice {
    pub id: String,
    pub label: String,
    pub mount: Option<Location>,
    pub system_path: String,
    pub can_disconnect: bool,
}

#[derive(Clone, Debug, PartialEq, Eq)]
pub struct DeviceDisconnectReport {
    pub device: String,
    pub action: String,
    pub audit: String,
}

pub trait RemovableDeviceService {
    fn list_devices(&self) -> Result<Vec<RemovableDevice>, String>;

    fn disconnect(&self, id: &str) -> Result<DeviceDisconnectReport, String>;
}

} // verus!
