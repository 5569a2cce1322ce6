use vstd::prelude::*;

verus! {

/// Why a batch of tracking lines could not be analysed.
#[derive(Debug, Clone, Copy, PartialEq, Eq, Structural)]
pub enum ShipError {
    /// The line at this index lacks a date, a time or a status, or its date
    /// and time do not denote an instant.
    MalformedLine(usize),
    /// There are too few records for the computation.
    EmptyInput,
    /// No record carries the requested locale.
    LocaleNotFound,
}

} // verus!
