//! What can go wrong while a card's telemetry is gathered.

use vstd::prelude::*;
use vstd::string::*;

verus! {

/// Custom error type for GPU information retrieval errors.
#[derive(Debug)]
pub struct GpuInfoError(pub String);

impl View for GpuInfoError {
    type V = Seq<char>;

    open spec fn view(&self) -> Seq<char> {
        self.0@
    }
}

impl GpuInfoError {
    /// The description that the error carries.
    pub fn message(&self) -> (s: String)
        ensures
            s@ == self@,
    {
        self.0.clone()
    }
}

/// Why a text is not a number of the expected representation.
#[derive(Debug, Copy, Clone, Eq, PartialEq, Structural)]
pub enum ParseError {
    /// The text is empty.
    Empty,
    /// The text does not follow the grammar of the representation.
    Invalid,
    /// The text follows the grammar, but the representation cannot hold its value.
    OutOfRange,
}

impl ParseError {
    /// The description of the error.
    pub open spec fn text(self) -> Seq<char> {
        match self {
            ParseError::Empty => "cannot parse number from empty string"@,
            ParseError::Invalid => "invalid number literal"@,
            ParseError::OutOfRange => "number out of range"@,
        }
    }

    /// The description of the error.
    pub fn message(&self) -> (s: String)
        ensures
            s@ == self.text(),
    {
        match self {
            ParseError::Empty => String::from_str("cannot parse number from empty string"),
            ParseError::Invalid => String::from_str("invalid number literal"),
            ParseError::OutOfRange => String::from_str("number out of range"),
        }
    }
}

/// The value of a [`TelemetryError`]: its kind, with the description that it
/// carries as a sequence of characters.
pub enum Failure {
    Io(Seq<char>),
    Parse(ParseError),
    NotFound(Seq<char>),
}

impl Failure {
    /// The description of the failure, as it is reported.
    pub open spec fn text(self) -> Seq<char> {
        match self {
            Failure::Io(m) => m,
            Failure::Parse(p) => p.text(),
            Failure::NotFound(m) => m,
        }
    }
}

/// An error that ends the work on one card, or on the listing of the cards.
#[derive(Debug)]
pub enum TelemetryError {
    /// A file or directory is missing or cannot be read; the description is
    /// that of the operating system.
    Io(String),
    /// The content of a file is not a number of the expected representation.
    Parse(ParseError),
    /// No sensor directory of the card qualifies.
    NotFound(GpuInfoError),
}

impl View for TelemetryError {
    type V = Failure;

    open spec fn view(&self) -> Failure {
        match self {
            TelemetryError::Io(m) => Failure::Io(m@),
            TelemetryError::Parse(p) => Failure::Parse(*p),
            TelemetryError::NotFound(e) => Failure::NotFound(e@),
        }
    }
}

impl TelemetryError {
    /// The description of the error, as it is reported.
    pub fn message(&self) -> (s: String)
        ensures
            s@ == self@.text(),
    {
        match self {
            TelemetryError::Io(m) => m.clone(),
            TelemetryError::Parse(p) => p.message(),
            TelemetryError::NotFound(e) => e.message(),
        }
    }
}

} // verus!
