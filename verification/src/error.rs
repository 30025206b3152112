use vstd::prelude::*;

verus! {

/// Why a multiplication, or one of its steps, produced no result.
#[derive(Debug, Clone, Copy, PartialEq, Eq, Structural)]
pub enum EngineError {
    /// The left operand's column count differs from the right operand's row count.
    ShapeMismatch,
    /// Two sequences handed to the numeric kernel differ in length.
    LengthMismatch,
    /// A value does not fit the machine type that has to hold it.
    Overflow,
    /// A worker did not deliver a usable reply.
    WorkerUnavailable,
}

impl EngineError {
    /// The error in words.
    pub open spec fn text(self) -> Seq<char> {
        match self {
            EngineError::ShapeMismatch => "matrix multiply err: a.cols != b.rows"@,
            EngineError::LengthMismatch => "a and b must be of the same length"@,
            EngineError::Overflow => "a value does not fit its type"@,
            EngineError::WorkerUnavailable => "a worker did not reply"@,
        }
    }

    /// The error in words, for a reader.
    pub fn message(&self) -> (s: String)
        ensures
            s@ == self.text(),
    {
        match self {
            EngineError::ShapeMismatch => "matrix multiply err: a.cols != b.rows".to_owned(),
            EngineError::LengthMismatch => "a and b must be of the same length".to_owned(),
            EngineError::Overflow => "a value does not fit its type".to_owned(),
            EngineError::WorkerUnavailable => "a worker did not reply".to_owned(),
        }
    }
}

} // verus!
