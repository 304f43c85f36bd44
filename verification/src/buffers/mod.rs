use vstd::prelude::*;

pub mod finite;
pub mod ring;

pub use self::finite::{FBError, FiniteBuffer};
pub use self::ring::RingBuffer;

verus! {

/// Reasons a byte supply cannot be built from its input.
#[derive(Debug, Clone, Copy, PartialEq, Eq, Structural)]
pub enum BufferError {
    /// The region is empty, and the strategy needs at least one byte.
    EmptyInput,
    /// There was no room to move the cursor. No strategy in this crate
    /// produces it; it is kept for strategies defined elsewhere.
    ShiftFailure,
}

} // verus!
