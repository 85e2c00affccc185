//! Verified core of a print-relay bridge: an access-control table shared by a
//! chat channel and a mail channel, content-addressed document storage, and
//! the decision logic of both channels.
//!
//! - [`access`]: the table of authorized identities, administrator and mail
//!   tokens, with set-valued contracts.
//! - [`store`]: its durable text form, with a proved persistence round trip.
//! - [`hash`] and [`fetch`]: content fingerprinting and the naming and
//!   failure classification of fetched documents.
//! - [`chat`] and [`mail`]: the two channels' decisions — authorization,
//!   command handling, message classification and the reconnect policy.
//! - [`printer`]: what the printing subsystem's output means.
//! - [`text`] and [`config`]: shared text tooling and the connection
//!   settings.
//!
//! Transports, file and process I/O live outside the library and feed their
//! outcomes back into these functions.

use vstd::prelude::*;

pub mod access;
pub mod chat;
pub mod config;
pub mod fetch;
pub mod hash;
pub mod mail;
pub mod printer;
pub mod store;
pub mod text;
