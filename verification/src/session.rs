//! Session-level values: the XOAUTH2 authentication blob, mailbox
//! listing records, session timeouts and the error taxonomy.
//!
//! Opening the encrypted connection, authenticating and selecting the
//! mailbox are network work done by the surrounding application; what it
//! sends and how its failures are classified is fixed here.

use vstd::prelude::*;
use vstd::string::StringExecFns;

verus! {

/// Ceiling timeout, in seconds, for one-shot connect+auth+select use.
pub const ONE_SHOT_TIMEOUT_SECS: u64 = 15;

/// Length of one watch window before the session re-issues the watch
/// command, in seconds.
pub const WATCH_WINDOW_SECS: u64 = 15 * 60;

/// The single-shot SASL response presented under the XOAUTH2 mechanism:
/// `user=<email>\x01auth=Bearer <token>\x01\x01`, not base64 encoded
/// (the protocol layer encodes it).
pub open spec fn spec_xoauth2_blob(email: Seq<char>, token: Seq<char>) -> Seq<char> {
    "user="@ + email + "\x01auth=Bearer "@ + token + "\x01\x01"@
}

/// Builds the XOAUTH2 authentication blob for this account snapshot.
pub fn xoauth2_blob(email: &str, token: &str) -> (r: String)
    ensures
        r@ == spec_xoauth2_blob(email@, token@),
{
    let mut out = String::from_str("user=");
    out.append(email);
    out.append("\x01auth=Bearer ");
    out.append(token);
    out.append("\x01\x01");
    out
}

/// One mailbox as reported by the server's listing.
#[derive(Debug)]
pub struct Mailbox {
    pub name: String,
    pub delimiter: String,
}

/// Shapes one listing row into a [`Mailbox`]; a missing hierarchy
/// delimiter defaults to `/`.
pub fn mailbox_from_parts(name: String, delimiter: Option<String>) -> (r: Mailbox)
    ensures
        r.name@ == name@,
        r.delimiter@ == (match delimiter {
            Some(d) => d@,
            None => "/"@,
        }),
{
    match delimiter {
        Some(d) => Mailbox { name, delimiter: d },
        None => Mailbox { name, delimiter: String::from_str("/") },
    }
}

/// The error classes of the engine. Credential problems are surfaced to
/// the credential collaborator, transient protocol classes are retried
/// with backoff by the listener, timeouts are distinct from connection
/// failures, parse failures are recoverable by fallback rendering, and
/// store failures are fatal only on the write path of a sync pass.
#[derive(Debug)]
pub enum MailError {
    Credential(String),
    Connect(String),
    Auth(String),
    Protocol(String),
    Timeout(String),
    Parse(String),
    Store(String),
}

impl MailError {
    /// The descriptive text carried by this error.
    pub fn message(&self) -> (r: String)
        ensures
            r@ == (match self {
                MailError::Credential(m) => m@,
                MailError::Connect(m) => m@,
                MailError::Auth(m) => m@,
                MailError::Protocol(m) => m@,
                MailError::Timeout(m) => m@,
                MailError::Parse(m) => m@,
                MailError::Store(m) => m@,
            }),
    {
        match self {
            MailError::Credential(m) => m.clone(),
            MailError::Connect(m) => m.clone(),
            MailError::Auth(m) => m.clone(),
            MailError::Protocol(m) => m.clone(),
            MailError::Timeout(m) => m.clone(),
            MailError::Parse(m) => m.clone(),
            MailError::Store(m) => m.clone(),
        }
    }

    /// Whether the watch listener retries this error with backoff
    /// rather than surfacing it: every class it can encounter on its
    /// connect/watch path is retried, because it runs indefinitely.
    pub fn is_retried_by_listener(&self) -> (r: bool)
        ensures
            r == !(self is Credential),
    {
        !matches!(self, MailError::Credential(_))
    }
}

} // verus!
