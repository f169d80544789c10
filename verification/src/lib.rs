//! The taskbar jump list of an editor.
//!
//! A [`history_manager::HistoryManager`] keeps the workspaces that have been opened. The links
//! that the jump list shows of them are made in [`destination_list`]; when the user removes one,
//! [`description`] reads from it which workspace it stood for.

pub mod description;
pub mod destination_list;
pub mod entry;
pub mod history_manager;
pub mod paths;
pub mod remote_url;
pub mod text;
pub mod url_parts;
