//! The error type of the library.

use crate::text::{decimal, push_u64};
use vstd::prelude::*;

verus! {

/// Everything that can go wrong. `S` is the type of the texts inside: `String`
/// in values, a sequence of characters in contracts.
#[derive(Debug, Clone, PartialEq, Eq)]
pub enum CoreError<S = String> {
    /// A file system call failed at `path`; `source` is the system's text.
    Io { path: S, source: S },
    /// The ledger's database failed.
    Db(S),
    /// Reserved for a strict mode: a volume that is no GoPro card is reported by
    /// an event and an empty summary.
    NotGoProCard(S),
    /// The destination volume is too full.
    InsufficientSpace { need: u64, have: u64 },
    /// A written file does not hold the bytes that were meant for it.
    VerifyFailed(S),
    /// The HTTP layer failed. `status` is the response code if there was a
    /// response; `None` means that the transport failed.
    Http { status: Option<u16>, msg: S },
    /// A guard stopped the run on purpose.
    RunAborted(S),
    /// The cloud refused the credentials.
    CloudAuth(S),
    /// The configuration is wrong.
    Config(S),
}

/// The result type of the library.
pub type Result<T> = std::result::Result<T, CoreError>;

/// How an optional response code is written: `Some(503)` or `None`.
pub open spec fn status_text(status: Option<u16>) -> Seq<char> {
    match status {
        Some(code) => "Some("@ + decimal(code as nat) + ")"@,
        None => "None"@,
    }
}

impl CoreError<Seq<char>> {
    /// The message shown to people.
    pub open spec fn text(self) -> Seq<char> {
        match self {
            CoreError::Io { path, source } => "io error at "@ + path + ": "@ + source,
            CoreError::Db(e) => "db error: "@ + e,
            CoreError::NotGoProCard(p) => "not a GoPro card: "@ + p,
            CoreError::InsufficientSpace { need, have } => {
                "insufficient space on destination: need "@ + decimal(need as nat)
                    + " bytes, have "@ + decimal(have as nat)
            },
            CoreError::VerifyFailed(p) => "verification failed for "@ + p,
            CoreError::Http { status, msg } => "http error "@ + status_text(status) + ": "@ + msg,
            CoreError::RunAborted(m) => m,
            CoreError::CloudAuth(m) => "cloud auth error: "@ + m,
            CoreError::Config(m) => "config error: "@ + m,
        }
    }

    /// True of a failure that another attempt may not meet: the transport
    /// failed, or the server answered 408, 429 or a code from 500 on.
    pub open spec fn retryable(self) -> bool {
        match self {
            CoreError::Http { status: None, .. } => true,
            CoreError::Http { status: Some(code), .. } => code >= 500 || code == 429 || code
                == 408,
            _ => false,
        }
    }
}

impl View for CoreError<String> {
    type V = CoreError<Seq<char>>;

    open spec fn view(&self) -> CoreError<Seq<char>> {
        match *self {
            CoreError::Io { path, source } => CoreError::Io { path: path@, source: source@ },
            CoreError::Db(e) => CoreError::Db(e@),
            CoreError::NotGoProCard(p) => CoreError::NotGoProCard(p@),
            CoreError::InsufficientSpace { need, have } => CoreError::InsufficientSpace {
                need,
                have,
            },
            CoreError::VerifyFailed(p) => CoreError::VerifyFailed(p@),
            CoreError::Http { status, msg } => CoreError::Http { status, msg: msg@ },
            CoreError::RunAborted(m) => CoreError::RunAborted(m@),
            CoreError::CloudAuth(m) => CoreError::CloudAuth(m@),
            CoreError::Config(m) => CoreError::Config(m@),
        }
    }
}

/// Appends an optional response code as `status_text` writes it.
fn push_status(s: &mut String, status: Option<u16>)
    ensures
        final(s)@ == old(s)@ + status_text(status),
{
    match status {
        Some(code) => {
            s.append("Some(");
            push_u64(s, code as u64);
            s.append(")");
            assert(s@ =~= old(s)@ + status_text(status));
        },
        None => {
            s.append("None");
        },
    }
}

impl CoreError<String> {
    /// The message shown to people.
    pub fn to_string(&self) -> (r: String)
        ensures
            r@ == self@.text(),
    {
        match self {
            CoreError::Io { path, source } => {
                let mut s = "io error at ".to_owned();
                s.append(path.as_str());
                s.append(": ");
                s.append(source.as_str());
                s
            },
            CoreError::Db(e) => {
                let mut s = "db error: ".to_owned();
                s.append(e.as_str());
                s
            },
            CoreError::NotGoProCard(p) => {
                let mut s = "not a GoPro card: ".to_owned();
                s.append(p.as_str());
                s
            },
            CoreError::InsufficientSpace { need, have } => {
                let mut s = "insufficient space on destination: need ".to_owned();
                push_u64(&mut s, *need);
                s.append(" bytes, have ");
                push_u64(&mut s, *have);
                s
            },
            CoreError::VerifyFailed(p) => {
                let mut s = "verification failed for ".to_owned();
                s.append(p.as_str());
                s
            },
            CoreError::Http { status, msg } => {
                let mut s = "http error ".to_owned();
                push_status(&mut s, *status);
                s.append(": ");
                s.append(msg.as_str());
                s
            },
            CoreError::RunAborted(m) => m.clone(),
            CoreError::CloudAuth(m) => {
                let mut s = "cloud auth error: ".to_owned();
                s.append(m.as_str());
                s
            },
            CoreError::Config(m) => {
                let mut s = "config error: ".to_owned();
                s.append(m.as_str());
                s
            },
        }
    }
}

/// Classifies an error for the retry loop of the cloud mirror.
pub fn is_retryable(err: &CoreError) -> (r: bool)
    ensures
        r == err@.retryable(),
{
    match err {
        CoreError::Http { status, .. } => match status {
            None => true,
            Some(code) => *code >= 500 || *code == 429 || *code == 408,
        },
        _ => false,
    }
}

/// The failure of a request that was answered with an unexpected code.
pub open spec fn refused(what: Seq<char>, url: Seq<char>, status: u16) -> CoreError<Seq<char>> {
    CoreError::Http { status: Some(status), msg: what + url + " -> "@ + decimal(status as nat) }
}

/// The failure of a request that was answered with an unexpected code.
pub fn refusal(what: &str, url: &str, status: u16) -> (r: CoreError)
    ensures
        r@ == refused(what@, url@, status),
{
    let mut msg = what.to_owned();
    msg.append(url);
    msg.append(" -> ");
    push_u64(&mut msg, status as u64);
    CoreError::Http { status: Some(status), msg }
}

/// The failure of a request that got no answer. Such a failure is worth a retry.
pub fn transport_err(text: String) -> (r: CoreError)
    ensures
        r@ == (CoreError::Http { status: None, msg: text@ }),
        r@.retryable(),
{
    CoreError::Http { status: None, msg: text }
}

} // verus!
