//! The kinds of failure that end a run.

use vstd::prelude::*;
use vstd::string::*;

verus! {

/// Why a run ended without result.
#[derive(Debug, Clone, Copy, PartialEq, Eq, Structural)]
pub enum ErrorKind {
    /// The configuration cannot be used: its text or its regular expression
    /// is not well formed.
    ConfigInvalid,
    /// The arguments cannot be used together.
    CliInvalid,
    /// The source could not be read.
    SourceUnreadable,
    /// The source is not well-formed Turtle.
    ParseError,
    /// A triple of the date field has no date as its object, or a member has
    /// a date that no fragment accepts.
    SchemaContractViolation,
    /// The output could not be written.
    IoError,
    /// A cache has no room for a member, even when empty.
    CacheFull,
}

impl ErrorKind {
    /// What the kind of failure means, in a few words.
    pub open spec fn description(self) -> Seq<char> {
        match self {
            ErrorKind::ConfigInvalid => "the configuration is not valid"@,
            ErrorKind::CliInvalid => "the arguments are not valid"@,
            ErrorKind::SourceUnreadable => "the source cannot be read"@,
            ErrorKind::ParseError => "the source is not well-formed Turtle"@,
            ErrorKind::SchemaContractViolation => "a member has no date that can be filed"@,
            ErrorKind::IoError => "the output cannot be written"@,
            ErrorKind::CacheFull => "the member cache is full it has to be materialized"@,
        }
    }

    /// What the kind of failure means, in a few words.
    pub fn to_string(&self) -> (r: String)
        ensures
            r@ == self.description(),
    {
        let text: &str = match self {
            ErrorKind::ConfigInvalid => "the configuration is not valid",
            ErrorKind::CliInvalid => "the arguments are not valid",
            ErrorKind::SourceUnreadable => "the source cannot be read",
            ErrorKind::ParseError => "the source is not well-formed Turtle",
            ErrorKind::SchemaContractViolation => "a member has no date that can be filed",
            ErrorKind::IoError => "the output cannot be written",
            ErrorKind::CacheFull => "the member cache is full it has to be materialized",
        };
        String::from_str(text)
    }
}

/// A failure that ends a run: its kind, and an account for the reader.
#[derive(Debug, PartialEq, Eq)]
pub struct Failure {
    /// The kind of the failure.
    pub kind: ErrorKind,
    /// What went wrong, for the reader.
    pub message: String,
}

impl Failure {
    /// A failure of that kind, with the description of the kind for its
    /// account.
    pub fn of(kind: ErrorKind) -> (r: Self)
        ensures
            r.kind == kind,
            r.message@ == kind.description(),
    {
        Failure { kind, message: kind.to_string() }
    }
}

} // verus!
