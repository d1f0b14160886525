//! Shell shortcut manager: aliases and Lua-script monikers kept in a settings
//! document and rendered into a sourceable shortcuts file.

pub mod shell_string;
pub mod text;
pub mod entry;
pub mod key_order;
pub mod alias_table;
pub mod monikers;
pub mod path_ext;
pub mod settings;
pub mod args;
pub mod commands;
pub mod shortcuts;
pub mod setup;
pub mod laws;
pub mod shell_rc;
