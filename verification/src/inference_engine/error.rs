//! How an inference call can end badly.

use vstd::prelude::*;
use vstd::string::*;

verus! {

/// Why an inference call was given up. Every failure ends the call it occurs
/// in and no more than that.
#[derive(Debug, Clone, Copy, PartialEq, Eq)]
pub enum Error {
    /// The arena is exhausted, or a plan index has no manifest entry.
    MemoryError,
    /// A transfer from the cartridge failed.
    RomReadError,
    /// Dimensions disagree, a softmax has no mass, the head count does not
    /// divide the model width, or the input is empty or too long.
    ComputationError,
    /// The plan lacks the fixed role of this name.
    MissingLayer(&'static str),
}

impl View for Error {
    type V = ErrorModel;

    open spec fn view(&self) -> ErrorModel {
        match *self {
            Error::MemoryError => ErrorModel::MemoryError,
            Error::RomReadError => ErrorModel::RomReadError,
            Error::ComputationError => ErrorModel::ComputationError,
            Error::MissingLayer(name) => ErrorModel::MissingLayer(name@),
        }
    }
}

/// An [`Error`] with the role's name as a sequence of characters.
pub enum ErrorModel {
    MemoryError,
    RomReadError,
    ComputationError,
    MissingLayer(Seq<char>),
}

impl Error {
    /// The text that describes this error.
    pub open spec fn message_spec(self) -> Seq<char> {
        match self {
            Error::MemoryError => "Memory allocation error"@,
            Error::RomReadError => "ROM read error"@,
            Error::ComputationError => "Computation error"@,
            Error::MissingLayer(name) => "Missing layer: "@ + name@,
        }
    }

    /// The text that describes this error.
    pub fn message(&self) -> (text: String)
        ensures
            text@ == self.message_spec(),
    {
        match self {
            Error::MemoryError => String::from_str("Memory allocation error"),
            Error::RomReadError => String::from_str("ROM read error"),
            Error::ComputationError => String::from_str("Computation error"),
            Error::MissingLayer(name) => String::from_str("Missing layer: ").concat(name),
        }
    }
}

} // verus!
