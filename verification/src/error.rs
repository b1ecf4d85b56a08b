use vstd::prelude::*;

verus! {

/// Errors returned by every fallible operation of the library.
#[derive(Clone, Debug, PartialEq, Eq)]
pub enum Error {
    NotFound,
    Denied,
    Conflict(String),
    Invalid(String),
    Unsupported(String),
    /// A failure reported by the agent loop (its message).
    Harness(String),
    /// A JSON encoding failure (its message).
    Json(String),
}

pub type Result<T> = core::result::Result<T, Error>;

/// Builds an owned message from a literal.
pub fn text(s: &str) -> (r: String)
    ensures
        r@ == s@,
{
    s.to_owned()
}

pub fn invalid(s: &str) -> (r: Error)
    ensures
        r matches Error::Invalid(m) && m@ == s@,
{
    Error::Invalid(text(s))
}

pub fn conflict(s: &str) -> (r: Error)
    ensures
        r matches Error::Conflict(m) && m@ == s@,
{
    Error::Conflict(text(s))
}

pub fn unsupported(s: &str) -> (r: Error)
    ensures
        r matches Error::Unsupported(m) && m@ == s@,
{
    Error::Unsupported(text(s))
}

impl Error {
    /// A message suitable for events and tool errors.
    pub fn message(&self) -> (r: String)
        ensures
            r@ == match self {
                Error::NotFound => "not found"@,
                Error::Denied => "access denied"@,
                Error::Conflict(m) => "conflict: "@ + m@,
                Error::Invalid(m) => "invalid: "@ + m@,
                Error::Unsupported(m) => "unsupported: "@ + m@,
                Error::Harness(m) => m@,
                Error::Json(m) => m@,
            },
    {
        match self {
            Error::NotFound => text("not found"),
            Error::Denied => text("access denied"),
            Error::Conflict(m) => {
                let mut s = text("conflict: ");
                s.append(m.as_str());
                s
            },
            Error::Invalid(m) => {
                let mut s = text("invalid: ");
                s.append(m.as_str());
                s
            },
            Error::Unsupported(m) => {
                let mut s = text("unsupported: ");
                s.append(m.as_str());
                s
            },
            Error::Harness(m) => m.clone(),
            Error::Json(m) => m.clone(),
        }
    }
}

} // verus!
