use vstd::prelude::*;

verus! {

/// The singleton aggregate record: the administering authority and the sum of
/// all depositor balances currently held by the vault.
#[derive(Clone, Copy, Debug, PartialEq, Eq, Structural)]
pub struct Vault {
    /// Identity of the administrator, set once at creation, never reassigned.
    pub authority: u64,
    /// Sum of all depositor balances; never allowed to wrap.
    pub total_balance: u64,
}

/// A per-depositor record: the identity it belongs to and the amount that
/// identity may withdraw from the vault.
#[derive(Clone, Copy, Debug, PartialEq, Eq, Structural)]
pub struct UserDeposit {
    /// Identity of the depositor, set once at creation, immutable thereafter.
    pub owner: u64,
    /// The amount this depositor may withdraw.
    pub balance: u64,
}

/// A depositor as the ledger tracks it: the ledger record plus the custody
/// balance the identity holds outside the vault, which deposits draw from and
/// withdrawals pay back into.
#[derive(Clone, Copy, Debug, PartialEq, Eq, Structural)]
pub struct Depositor {
    /// The depositor's ledger record.
    pub record: UserDeposit,
    /// Units of the underlying asset the identity holds outside the vault.
    pub wallet: u64,
}

} // verus!
