//! The error taxonomy of the splitter: every failure aborts the whole
//! invocation, and each variant identifies the first fault encountered.

use vstd::prelude::*;

verus! {

/// Why an invocation was rejected before any transfer was planned.
#[derive(Debug, Clone, Copy, PartialEq, Eq, Structural)]
pub enum SplitterError {
    /// The instruction buffer is too short or its payload does not
    /// deserialize into the expected shape.
    MalformedInstruction,
    /// The buffer's discriminator matches none of the known commands.
    UnknownCommand,
    /// Only for the multi-mint command: the account list length does not
    /// match the declared pair count. Carries the declared `m`, the expected
    /// account count `m * 2 + 2`, and the actual account count.
    InvalidMParameter(u16, usize, usize),
    /// Fewer account handles were supplied than the amount list requires.
    AccountUnderflow,
    /// Only for the multi-mint command: more amounts than source/destination
    /// pairs were supplied.
    AmountCountExceedsM,
}

impl SplitterError {
    /// The numeric code an invocation reports for a user-surfaced error;
    /// mirrors the positions of the variants.
    pub fn error_code(&self) -> (r: u32)
        ensures
            r == self.spec_error_code(),
    {
        match self {
            SplitterError::MalformedInstruction => 1,
            SplitterError::UnknownCommand => 2,
            SplitterError::InvalidMParameter(..) => 0,
            SplitterError::AccountUnderflow => 3,
            SplitterError::AmountCountExceedsM => 4,
        }
    }

    /// The code of each variant; the arity error keeps code zero.
    pub open spec fn spec_error_code(&self) -> u32 {
        match self {
            SplitterError::MalformedInstruction => 1,
            SplitterError::UnknownCommand => 2,
            SplitterError::InvalidMParameter(..) => 0,
            SplitterError::AccountUnderflow => 3,
            SplitterError::AmountCountExceedsM => 4,
        }
    }
}

} // verus!
