use vstd::prelude::*;

verus! {

/// Why a buffer operation did not complete.
#[derive(Clone, Copy, Debug, PartialEq, Eq, Structural)]
pub enum BufferError {
    /// Fewer bytes are readable than the operation needs, or a raw read of
    /// zero bytes was asked for.
    Underflow,
    /// The bytes or the text handed in are not a valid encoding.
    Malformed,
}

impl BufferError {
    /// A short description for messages.
    pub fn message(&self) -> (s: &'static str)
        ensures
            s@ == (match *self {
                BufferError::Underflow => "Buffer underflow"@,
                BufferError::Malformed => "Malformed input"@,
            }),
    {
        match self {
            BufferError::Underflow => "Buffer underflow",
            BufferError::Malformed => "Malformed input",
        }
    }
}

} // verus!
