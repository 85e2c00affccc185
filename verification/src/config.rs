//! Connection settings, read-only to the library: supplied by an external
//! loader at startup and carried as plain values.

use vstd::prelude::*;

verus! {

/// What connecting and logging in to the mailbox server takes.
#[derive(Clone, Debug)]
pub struct IMAPConfig {
    pub server: String,
    pub port: u16,
    pub user: String,
    pub password: String,
}

/// Everything the two channels need: the chat credential, the printer name,
/// and the mailbox settings.
#[derive(Clone, Debug)]
pub struct Config {
    pub token: String,
    pub printer: String,
    pub imap: IMAPConfig,
}

} // verus!
