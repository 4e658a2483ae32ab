//! Extension contributions: menu items, settings, help topics and effects.

use vstd::prelude::*;

use crate::ids::CommandId;
use crate::resource::{Location, ResourceRef};

verus! {

#[derive(Clone, Debug, PartialEq, Eq)]
pub struct ExtensionMenuItem {
    pub label: String,
    pub description: String,
    pub command: CommandId,
}

#[derive(Clone, Debug, PartialEq, Eq)]
pub struct ExtensionSetting {
    pub id: String,
    pub label: String,
    pub description: String,
    pub value: String,
    pub required: bool,
    pub secret: bool,
}

#[derive(Clone, Debug, PartialEq, Eq)]
pub struct ExtensionHelpTopic {
    pub id: String,
    pub title: String,
    pub body: String,
}

#[derive(Clone, Debug, PartialEq, Eq)]
#[non_exhaustive]
pub enum ExtensionEffect {
    Message(String),
    Navigate(Location),
    Open(Vec<ResourceRef>),
    Task(String),
}

#[derive(Clone, Debug, PartialEq, Eq)]
pub struct ExtensionReport {
    pub effect: ExtensionEffect,
    pub diagnostics: Vec<String>,
}

#[derive(Clone, Copy, Debug, PartialEq, Eq, Structural)]
#[non_exhaustive]
pub enum ExternalAction {
    Open,
    View,
    Edit,
    Inspect,
    Execute,
    Shell,
}

#[derive(Clone, Copy, Debug, PartialEq, Eq, Structural)]
#[non_exhaustive]
pub enum ExternalInvocationMode {
    StructuredArgv,
    ExplicitShell,
}

impl Default for ExternalInvocationMode {
    fn default() -> (r: Self)
        ensures
            r == ExternalInvocationMode::StructuredArgv,
    {
        ExternalInvocationMode::StructuredArgv
    }
}

} // verus!
