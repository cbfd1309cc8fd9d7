//! The verified core of a terminal text editor's application shell: the tab
//! bar's layout and the list of open tabs, the status bar, the prompt and
//! what its answers do, where keys and the mouse go, terminal capability
//! detection, the backend's attribute sequences, screen geometry, settings,
//! the log's lines, and the language-server bookkeeping that decides what is
//! sent, shown and restarted.

pub mod text;
pub mod tabbar;
pub mod backend;
pub mod path;
pub mod status;
pub mod prompt;
pub mod capability;
pub mod layout;
pub mod config;
pub mod lsp;
pub mod search;
pub mod logging;
pub mod tabs;
pub mod events;
pub mod shell;
