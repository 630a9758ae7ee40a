//! The failures that the marshalling layer reports to its caller.

use vstd::prelude::*;

verus! {

/// A failure reported once, synchronously, to the immediate caller. That
/// the allocator could not satisfy a request is no value of this type: the
/// allocating functions report it as `None` or `false`.
#[derive(Clone, Debug, PartialEq, Eq)]
pub enum Error {
    /// An inspected term did not have the expected shape.
    TypeMismatch,
    /// The offset and length of a sub-binary request do not lie inside the
    /// binary, or their sum does not fit the machine word.
    BoundsViolation,
    /// A named field of a record was absent or did not decode as its type.
    FieldDecodeFailure { field: String, record: String },
    /// The copying fallback of a resize could not allocate. The buffer is
    /// left as it was; the current call should be given up.
    FatalAllocationFailure,
}

} // verus!
