//! Adapter core for a remote academic calendar portal.
//!
//! The library covers the logic of the adapter: extracting tokens and
//! identifiers from upstream markup, modelling calendar dates and events,
//! encoding credentials into a portable authenticated token, and projecting
//! events into a calendar-interchange document. Network transport is left to
//! the caller, which hands page bodies and response data in as plain values.

use vstd::prelude::*;

pub mod text;
pub mod date;
pub mod codec;
pub mod auth;
pub mod description;
pub mod limits;
pub mod calendar;
pub mod ics;
pub mod config;

verus! {

/// Failure of an upstream interaction.
///
/// `Remote` means the upstream was unreachable or returned an unexpected
/// shape; the call is safe to retry. `Unauthorized` means the credentials
/// were rejected or a session silently expired; a retry needs new
/// credentials.
#[derive(Debug, Clone, Copy, PartialEq, Eq, Structural)]
pub enum Error {
    Remote,
    Unauthorized,
}

impl Error {
    /// A short description, in place of a `Display` impl.
    pub fn message(&self) -> (r: &'static str)
        ensures
            *self is Remote ==> r@ == "Remote"@,
            *self is Unauthorized ==> r@ == "Unauthorized"@,
    {
        match self {
            Error::Remote => "Remote",
            Error::Unauthorized => "Unauthorized",
        }
    }
}

} // verus!
