//! What can go wrong while compiling a definition or running a plan.

use vstd::prelude::*;

verus! {

/// A failure of a primitive codec or of the stream under it.
#[derive(Clone, Copy, Debug, PartialEq, Eq, Structural)]
pub enum LeafError {
    /// The stream ended before the requested bytes.
    UnexpectedEof,
    /// A position beyond what the machine can address.
    PositionOverflow,
    /// An integer too large for the width it is to be encoded in.
    OutOfRange,
    /// The bytes at the start of a value are not the expected magic bytes.
    BadMagic,
    /// The value handed in does not have the shape that the plan describes.
    WrongShape,
    /// A collection does not hold as many items as its count says.
    WrongCount,
}

/// An error of the schema extractor or of a read or write.
#[derive(Debug, PartialEq, Eq)]
#[allow(inconsistent_fields)]
pub enum Error {
    /// The definition's shape cannot express a plan.
    UnsupportedShape,
    /// Directives on one field (or, with `field` empty, on the definition
    /// itself) that exclude each other.
    ConflictingDirectives { field: Option<usize> },
    /// A directive that refers to something that is not declared before it.
    UnresolvedReference { field: Option<usize> },
    /// A directive whose name or value is malformed.
    Syntax { field: Option<usize> },
    /// A declared predicate did not hold of field `field`.
    AssertionFailed { field: usize, description: String },
    /// The fallible transform of field `field` failed.
    MapFailed { field: usize },
    /// No variant of an enum matched; one failure per variant that was tried.
    NoVariantMatched { failures: Vec<Error> },
    /// A primitive codec or the stream failed.
    LeafCodecError(LeafError),
}

/// The mathematical content of an [`Error`].
#[allow(inconsistent_fields)]
pub enum Failure {
    UnsupportedShape,
    ConflictingDirectives { field: Option<usize> },
    UnresolvedReference { field: Option<usize> },
    Syntax { field: Option<usize> },
    AssertionFailed { field: usize, description: Seq<char> },
    MapFailed { field: usize },
    NoVariantMatched { failures: Seq<Failure> },
    LeafCodecError(LeafError),
}

impl Error {
    /// The mathematical content of the error.
    pub open spec fn failure(self) -> Failure
        decreases self,
    {
        match self {
            Error::UnsupportedShape => Failure::UnsupportedShape,
            Error::ConflictingDirectives { field } => Failure::ConflictingDirectives { field },
            Error::UnresolvedReference { field } => Failure::UnresolvedReference { field },
            Error::Syntax { field } => Failure::Syntax { field },
            Error::AssertionFailed { field, description } => Failure::AssertionFailed {
                field,
                description: description@,
            },
            Error::MapFailed { field } => Failure::MapFailed { field },
            Error::NoVariantMatched { failures } => Failure::NoVariantMatched {
                failures: Seq::new(
                    failures@.len(),
                    |i: int|
                        if 0 <= i < failures@.len() {
                            failures@[i].failure()
                        } else {
                            Failure::UnsupportedShape
                        },
                ),
            },
            Error::LeafCodecError(leaf) => Failure::LeafCodecError(leaf),
        }
    }
}

impl View for Error {
    type V = Failure;

    open spec fn view(&self) -> Failure {
        self.failure()
    }
}

/// The result of a read or a write.
pub type BinResult<T> = Result<T, Error>;

/// The result of compiling a definition.
pub type ParseResult<T> = Result<T, Error>;

/// The failure of a result, if it is one.
pub open spec fn failure_of<T>(result: Result<T, Error>) -> Option<Failure> {
    match result {
        Ok(_) => None,
        Err(e) => Some(e@),
    }
}

/// The views of a vector of errors, in order.
pub open spec fn failures_of(errors: Seq<Error>) -> Seq<Failure> {
    Seq::new(errors.len(), |i: int| errors[i]@)
}

impl Error {
    /// A short name of the error's kind.
    pub fn kind(&self) -> (name: &'static str)
        ensures
            name@ == kind_name(self@),
    {
        match self {
            Error::UnsupportedShape => "UnsupportedShape",
            Error::ConflictingDirectives { .. } => "ConflictingDirectives",
            Error::UnresolvedReference { .. } => "UnresolvedReference",
            Error::Syntax { .. } => "Syntax",
            Error::AssertionFailed { .. } => "AssertionFailed",
            Error::MapFailed { .. } => "MapFailed",
            Error::NoVariantMatched { .. } => "NoVariantMatched",
            Error::LeafCodecError(_) => "LeafCodecError",
        }
    }
}

/// The name of a failure's kind.
pub open spec fn kind_name(failure: Failure) -> Seq<char> {
    match failure {
        Failure::UnsupportedShape => "UnsupportedShape"@,
        Failure::ConflictingDirectives { .. } => "ConflictingDirectives"@,
        Failure::UnresolvedReference { .. } => "UnresolvedReference"@,
        Failure::Syntax { .. } => "Syntax"@,
        Failure::AssertionFailed { .. } => "AssertionFailed"@,
        Failure::MapFailed { .. } => "MapFailed"@,
        Failure::NoVariantMatched { .. } => "NoVariantMatched"@,
        Failure::LeafCodecError(_) => "LeafCodecError"@,
    }
}

} // verus!
