use vstd::prelude::*;

verus! {

/// The reasons an operation on the ledger can fail. Every failure aborts the
/// whole operation: no record field is mutated and no custody moves.
#[derive(Clone, Copy, Debug, PartialEq, Eq, Structural)]
pub enum CustomError {
    /// An initialization was attempted for a record that already exists.
    DuplicateRecord,
    /// The vault or the depositor record the operation needs does not exist.
    MissingRecord,
    /// The caller identity does not match the owner recorded on the record
    /// being operated on.
    UnauthorizedAccess,
    /// A withdrawal asked for more than the depositor's recorded balance.
    InsufficientFunds,
    /// The underlying value transfer could not move the requested amount,
    /// because the source custody lacks sufficient funds.
    TransferFailure,
    /// A checked addition on a balance would exceed the representable range.
    ArithmeticOverflow,
    /// A checked subtraction on a balance would go negative.
    ArithmeticUnderflow,
}

} // verus!
