//! I/O-free Maildir library: flags, entry names, the `dovecot-keywords`
//! sidecar and resumable Maildir state machines.

pub mod client;
pub mod coroutine;
pub mod dovecot;
pub mod entry;
pub mod flag;
pub mod keywords;
pub mod maildir;
pub mod message;
pub mod order;
pub mod path;
pub mod store;
pub mod text;
