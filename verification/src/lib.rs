//! Backend-independent domain logic of the Near file manager family.

use vstd::prelude::*;

pub mod apply_command;
pub mod archive;
pub mod command;
pub mod command_line;
pub mod config;
pub mod config_text;
pub mod description;
pub mod device;
pub mod diagnostic;
pub mod document_policy;
pub mod execution;
pub mod extension;
pub mod handlers;
pub mod external;
pub mod ids;
pub mod local_fs;
pub mod local_ops;
pub mod local_stores;
pub mod macros;
pub mod navigation;
pub mod ops;
pub mod profile;
pub mod provider;
pub mod resource;
pub mod settings;
pub mod strmap;
pub mod text;
pub mod user_menu;

verus! {

} // verus!
