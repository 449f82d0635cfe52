//! The error taxonomy for random-number sources.
//!
//! Algorithmic generators never fail on their generation path; errors
//! originate at external entropy-source boundaries and are propagated
//! unchanged. Recovery policy is advisory, encoded as the two derived
//! predicates `should_retry` and `should_wait`.

use vstd::prelude::*;

verus! {

/// Error kind which can be matched over.
///
/// The `__Nonexhaustive` variant is a future-proofing marker only: it must
/// never be constructed or matched by name.
#[derive(PartialEq, Eq, Debug, Copy, Clone, Structural)]
#[allow(non_camel_case_types)]
pub enum ErrorKind {
    /// Permanent failure: likely not recoverable without user action.
    Unavailable,
    /// Temporary failure: recommended to retry a few times, but may also be
    /// irrecoverable.
    Transient,
    /// Not ready yet: recommended to try again a little later.
    NotReady,
    /// Uncategorised error.
    Other,
    /// Placeholder, never to be constructed or matched.
    __Nonexhaustive,
}

impl ErrorKind {
    /// The fixed description of this kind, as a sequence of characters.
    pub open spec fn description_spec(self) -> Seq<char> {
        match self {
            ErrorKind::Unavailable => "permanent failure or unavailable"@,
            ErrorKind::Transient => "transient failure"@,
            ErrorKind::NotReady => "not ready yet"@,
            ErrorKind::Other => "uncategorised"@,
            ErrorKind::__Nonexhaustive => ""@,
        }
    }

    /// True if this kind of error may resolve itself on retry: exactly for
    /// `Transient` and `NotReady`.
    ///
    /// See also `should_wait()`.
    pub fn should_retry(self) -> (r: bool)
        ensures
            r == (self == ErrorKind::Transient || self == ErrorKind::NotReady),
    {
        match self {
            ErrorKind::Transient => true,
            ErrorKind::NotReady => true,
            _ => false,
        }
    }

    /// True if we should wait before retrying: exactly for `NotReady`.
    pub fn should_wait(self) -> (r: bool)
        ensures
            r == (self == ErrorKind::NotReady),
    {
        match self {
            ErrorKind::NotReady => true,
            _ => false,
        }
    }

    /// A description of this error kind: a fixed, non-empty string per kind.
    /// Never invoked on the placeholder kind.
    pub fn description(self) -> (r: &'static str)
        requires
            self != ErrorKind::__Nonexhaustive,
        ensures
            r@ == self.description_spec(),
            r@.len() > 0,
    {
        proof {
            reveal_strlit("permanent failure or unavailable");
            reveal_strlit("transient failure");
            reveal_strlit("not ready yet");
            reveal_strlit("uncategorised");
        }
        match self {
            ErrorKind::Unavailable => "permanent failure or unavailable",
            ErrorKind::Transient => "transient failure",
            ErrorKind::NotReady => "not ready yet",
            ErrorKind::Other => "uncategorised",
            ErrorKind::__Nonexhaustive => "uncategorised",
        }
    }
}

/// Optional diagnostic detail carried by an [`Error`].
///
/// Prefer the [`Error::details`] accessor over matching this directly.
#[derive(Debug)]
pub enum ErrorDetails {
    /// No detail attached.
    Absent,
    /// A static string describing the failure.
    Tag(&'static str),
    /// The description of an underlying failure.
    Cause(String),
}

/// Error type of random number generators.
///
/// This embeds two things: an [`ErrorKind`], which can be matched over, and
/// optional details provided to `new_str` or `new_err`. The details never
/// change the kind's retry semantics.
#[derive(Debug)]
pub struct Error {
    /// Error kind.
    pub kind: ErrorKind,
    /// Attached detail, if any.
    pub details: ErrorDetails,
}

impl Error {
    /// The diagnostic detail attached to this error, if any, as a sequence of
    /// characters.
    pub open spec fn details_spec(&self) -> Option<Seq<char>> {
        match self.details {
            ErrorDetails::Absent => None,
            ErrorDetails::Tag(s) => Some(s@),
            ErrorDetails::Cause(m) => Some(m@),
        }
    }

    /// Create a new instance, with no details.
    pub fn new(kind: ErrorKind) -> (r: Error)
        ensures
            r.kind == kind,
            r.details_spec() is None,
    {
        Error { kind, details: ErrorDetails::Absent }
    }

    /// Create a new instance, with a static string describing the details.
    pub fn new_str(kind: ErrorKind, details: &'static str) -> (r: Error)
        ensures
            r.kind == kind,
            r.details_spec() == Some(details@),
    {
        Error { kind, details: ErrorDetails::Tag(details) }
    }

    /// Create a new instance, with the description of an underlying failure
    /// as its details.
    pub fn new_err(kind: ErrorKind, cause: String) -> (r: Error)
        ensures
            r.kind == kind,
            r.details_spec() == Some(cause@),
    {
        Error { kind, details: ErrorDetails::Cause(cause) }
    }

    /// Get details on the error, if available: the static string or the
    /// description of the underlying failure.
    pub fn details(&self) -> (r: Option<&str>)
        ensures
            r is Some <==> self.details_spec() is Some,
            r is Some ==> r->0@ == self.details_spec()->0,
    {
        match &self.details {
            ErrorDetails::Absent => None,
            ErrorDetails::Tag(s) => Some(*s),
            ErrorDetails::Cause(m) => Some(m.as_str()),
        }
    }

    /// A description of this error: the fixed description of its kind.
    /// Never invoked on an error of the placeholder kind.
    pub fn description(&self) -> (r: &'static str)
        requires
            self.kind != ErrorKind::__Nonexhaustive,
        ensures
            r@ == self.kind.description_spec(),
            r@.len() > 0,
    {
        self.kind.description()
    }

    /// Render this error as a human-readable message of the form
    /// "RNG error: {kind description}".
    pub fn message(&self) -> (r: String)
        requires
            self.kind != ErrorKind::__Nonexhaustive,
        ensures
            r@ == "RNG error: "@ + self.kind.description_spec(),
    {
        let mut m = String::from_str("RNG error: ");
        m.append(self.kind.description());
        m
    }
}

} // verus!
