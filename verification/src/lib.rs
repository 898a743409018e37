//! The core of a small tabbed text editor: tabs and their sidebar, find and
//! replace over one or all tabs, a side-by-side diff, the command center, the
//! messages a second launch sends to the running one, the command line,
//! recent files, the saved session, encodings and file-change tracking.
//! Every function here is verified against its contract; the few calls into
//! other crates go through small wrappers whose contracts say what is
//! assumed of them.

pub mod text;
pub mod paths;
pub mod diff;
pub mod search;
pub mod tab_search;
pub mod tabs;
pub mod sidebar;
pub mod ipc;
pub mod cli;
pub mod recent_files;
pub mod names;
pub mod encoding;
pub mod commands;
pub mod session;
pub mod file_watcher;
