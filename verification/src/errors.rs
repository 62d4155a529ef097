//! Errors surfaced while validating a transaction.

use vstd::prelude::*;

verus! {

/// A typed failure of transaction verification.
///
/// Verification is all-or-nothing: the first error anywhere aborts the
/// run and is returned unchanged from the entry point.
#[derive(Clone, Copy, Debug, PartialEq, Eq, Structural)]
pub enum VMError {
    /// A deferred point operation, or the batched constraint-system
    /// proof, failed to verify.
    PointOperationFailed,

    /// Bytes do not decode to a valid compressed group element.
    InvalidPoint,

    /// Malformed data: bad length prefix, truncated buffer,
    /// unrecognized item tag, or a non-canonical scalar encoding.
    FormatError,

    /// The transaction version does not permit extension instructions.
    ExtensionsNotAllowed,

    /// An instruction required a copyable item, but a linear one was found.
    TypeNotCopyable,

    /// An instruction required a data string.
    TypeNotData,

    /// An instruction required a contract.
    TypeNotContract,

    /// An instruction required a value.
    TypeNotValue,

    /// An instruction required a wide value.
    TypeNotWideValue,

    /// An instruction required a variable.
    TypeNotVariable,

    /// An instruction required an expression.
    TypeNotExpression,

    /// An item that cannot cross a contract boundary was used as payload.
    TypeNotPortable,

    /// The stack did not hold enough items.
    StackUnderflow,

    /// Items remained on the stack after the program completed.
    StackNotClean,

    /// No `input` or `nonce` instruction made the transaction id unique.
    NotUniqueTxid,
}

} // verus!
