//! A command-dispatch shim: finds the executable tools in a directory,
//! reduces each tool's `--help` output to a one-line summary, lays the
//! summaries out in an aligned listing, and decides how a forwarded
//! invocation ends.

pub mod text;
pub mod summary;
pub mod layout;
pub mod discovery;
pub mod listing;
pub mod dispatch;
