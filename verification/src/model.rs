use crate::errors::CustomError;
use crate::records::{Depositor, UserDeposit, Vault};
use vstd::prelude::*;

verus! {

/// Mathematical model of the whole ledger: the vault record (if one was
/// initialized), the custody balance the vault itself holds, and the sequence
/// of depositors, each with a record and an outside custody balance.
#[verifier::ext_equal]
pub struct LedgerModel {
    /// The vault record, once `initialize_vault` has run.
    pub vault: Option<Vault>,
    /// Units of the underlying asset in the vault's custody.
    pub vault_custody: u64,
    /// One entry per depositor identity, uniquely keyed by the record owner.
    pub depositors: Seq<Depositor>,
}

/// The sum of the recorded balances over a sequence of depositors.
pub open spec fn sum_balances(s: Seq<Depositor>) -> int
    decreases s.len(),
{
    if s.len() == 0 {
        0
    } else {
        sum_balances(s.drop_last()) + s.last().record.balance
    }
}

impl LedgerModel {
    /// Whether the vault record has been initialized.
    pub open spec fn has_vault(self) -> bool {
        self.vault is Some
    }

    /// The vault's aggregate balance; zero while no vault exists (no deposit
    /// can have happened yet).
    pub open spec fn total_balance(self) -> u64 {
        match self.vault {
            Some(v) => v.total_balance,
            None => 0,
        }
    }

    /// The administrator identity recorded on the vault; zero while no vault
    /// exists.
    pub open spec fn authority(self) -> u64 {
        match self.vault {
            Some(v) => v.authority,
            None => 0,
        }
    }

    /// Whether a depositor record exists for `owner`.
    pub open spec fn has_depositor(self, owner: u64) -> bool {
        exists|i: int|
            0 <= i < self.depositors.len() && (#[trigger] self.depositors[i]).record.owner == owner
    }

    /// The position of the depositor record owned by `owner`; meaningful only
    /// when `has_depositor(owner)` holds, and then unique under `wf`.
    pub open spec fn depositor_idx(self, owner: u64) -> int {
        choose|i: int|
            0 <= i < self.depositors.len() && (#[trigger] self.depositors[i]).record.owner == owner
    }

    /// The recorded balance of `owner`; zero when no record exists.
    pub open spec fn balance_of(self, owner: u64) -> u64 {
        if self.has_depositor(owner) {
            self.depositors[self.depositor_idx(owner)].record.balance
        } else {
            0
        }
    }

    /// The custody balance `owner` holds outside the vault; zero when no
    /// record exists.
    pub open spec fn wallet_of(self, owner: u64) -> u64 {
        if self.has_depositor(owner) {
            self.depositors[self.depositor_idx(owner)].wallet
        } else {
            0
        }
    }

    /// At most one depositor record per identity.
    pub open spec fn unique_owners(self) -> bool {
        forall|i: int, j: int|
            0 <= i < j < self.depositors.len() ==> (#[trigger] self.depositors[i]).record.owner
                != (#[trigger] self.depositors[j]).record.owner
    }

    /// Each identity's combined holdings (record balance plus outside custody)
    /// fit in the balance type: deposits and withdrawals only move value
    /// between the two, so a withdrawal can always be paid back out.
    pub open spec fn wallets_bounded(self) -> bool {
        forall|i: int|
            0 <= i < self.depositors.len() ==> (#[trigger] self.depositors[i]).record.balance
                + self.depositors[i].wallet <= u64::MAX
    }

    /// The ledger invariant, established at creation and preserved by every
    /// operation: owners are unique, the vault's aggregate balance equals the
    /// sum of all depositor balances, the vault's custody matches the
    /// aggregate it claims to hold, and each identity's holdings fit.
    pub open spec fn wf(self) -> bool {
        &&& self.unique_owners()
        &&& sum_balances(self.depositors) == self.total_balance()
        &&& self.vault_custody == self.total_balance()
        &&& self.wallets_bounded()
    }

    /// Outcome of initializing the vault for `authority`: refused when a
    /// vault record already exists, otherwise a fresh vault with a zero
    /// aggregate balance.
    pub open spec fn init_vault_step(self, authority: u64) -> (LedgerModel, Result<(), CustomError>) {
        if self.has_vault() {
            (self, Err(CustomError::DuplicateRecord))
        } else {
            (
                LedgerModel {
                    vault: Some(Vault { authority, total_balance: 0 }),
                    vault_custody: self.vault_custody,
                    depositors: self.depositors,
                },
                Ok(()),
            )
        }
    }

    /// Outcome of initializing a depositor record for `owner`, whose outside
    /// custody holds `initial_funds`: refused when a record for that identity
    /// already exists, otherwise a fresh record with a zero balance.
    pub open spec fn init_deposit_step(self, owner: u64, initial_funds: u64) -> (
        LedgerModel,
        Result<(), CustomError>,
    ) {
        if self.has_depositor(owner) {
            (self, Err(CustomError::DuplicateRecord))
        } else {
            (
                LedgerModel {
                    vault: self.vault,
                    vault_custody: self.vault_custody,
                    depositors: self.depositors.push(
                        Depositor { record: UserDeposit { owner, balance: 0 }, wallet: initial_funds },
                    ),
                },
                Ok(()),
            )
        }
    }

    /// The inputs on which a deposit succeeds: both records exist, the caller
    /// owns the record, the caller's custody covers the amount, and the
    /// aggregate balance does not overflow.
    pub open spec fn can_deposit(self, depositor: u64, caller: u64, amount: u64) -> bool {
        &&& self.has_vault()
        &&& self.has_depositor(depositor)
        &&& depositor == caller
        &&& self.wallet_of(depositor) >= amount
        &&& self.total_balance() + amount <= u64::MAX
    }

    /// The error a deposit reports, in the order the checks run: missing
    /// records first, then ownership, then the value transfer (which fails
    /// when the source custody lacks funds), then aggregate overflow.
    pub open spec fn deposit_error(self, depositor: u64, caller: u64, amount: u64) -> Option<
        CustomError,
    > {
        if !self.has_vault() || !self.has_depositor(depositor) {
            Some(CustomError::MissingRecord)
        } else if self.depositors[self.depositor_idx(depositor)].record.owner != caller {
            Some(CustomError::UnauthorizedAccess)
        } else if self.wallet_of(depositor) < amount {
            Some(CustomError::TransferFailure)
        } else if self.total_balance() + amount > u64::MAX {
            Some(CustomError::ArithmeticOverflow)
        } else {
            None
        }
    }

    /// Outcome of a deposit: on failure the ledger is unchanged; on success
    /// `amount` moves from the caller's custody into the vault's custody and
    /// both the aggregate and the individual balance are credited by it.
    pub open spec fn deposit_step(self, depositor: u64, caller: u64, amount: u64) -> (
        LedgerModel,
        Result<(), CustomError>,
    ) {
        match self.deposit_error(depositor, caller, amount) {
            Some(e) => (self, Err(e)),
            None => {
                let i = self.depositor_idx(depositor);
                let d = self.depositors[i];
                (
                    LedgerModel {
                        vault: Some(
                            Vault {
                                authority: self.authority(),
                                total_balance: (self.total_balance() + amount) as u64,
                            },
                        ),
                        vault_custody: (self.vault_custody + amount) as u64,
                        depositors: self.depositors.update(
                            i,
                            Depositor {
                                record: UserDeposit {
                                    owner: d.record.owner,
                                    balance: (d.record.balance + amount) as u64,
                                },
                                wallet: (d.wallet - amount) as u64,
                            },
                        ),
                    },
                    Ok(()),
                )
            },
        }
    }

    /// The inputs on which a withdrawal succeeds: both records exist, the
    /// caller owns the record, and the recorded balance covers the amount.
    pub open spec fn can_withdraw(self, depositor: u64, caller: u64, amount: u64) -> bool {
        &&& self.has_vault()
        &&& self.has_depositor(depositor)
        &&& depositor == caller
        &&& self.balance_of(depositor) >= amount
    }

    /// The error a withdrawal reports, in the order the checks run: missing
    /// records first, then ownership, then the sufficient-balance gate. The
    /// checked subtractions and the custody credit that follow can never fail
    /// while the ledger invariant holds.
    pub open spec fn withdraw_error(self, depositor: u64, caller: u64, amount: u64) -> Option<
        CustomError,
    > {
        if !self.has_vault() || !self.has_depositor(depositor) {
            Some(CustomError::MissingRecord)
        } else if self.depositors[self.depositor_idx(depositor)].record.owner != caller {
            Some(CustomError::UnauthorizedAccess)
        } else if self.balance_of(depositor) < amount {
            Some(CustomError::InsufficientFunds)
        } else {
            None
        }
    }

    /// Outcome of a withdrawal: on failure the ledger is unchanged; on
    /// success `amount` is debited from both the individual and the aggregate
    /// balance and moves from the vault's custody back to the caller's.
    pub open spec fn withdraw_step(self, depositor: u64, caller: u64, amount: u64) -> (
        LedgerModel,
        Result<(), CustomError>,
    ) {
        match self.withdraw_error(depositor, caller, amount) {
            Some(e) => (self, Err(e)),
            None => {
                let i = self.depositor_idx(depositor);
                let d = self.depositors[i];
                (
                    LedgerModel {
                        vault: Some(
                            Vault {
                                authority: self.authority(),
                                total_balance: (self.total_balance() - amount) as u64,
                            },
                        ),
                        vault_custody: (self.vault_custody - amount) as u64,
                        depositors: self.depositors.update(
                            i,
                            Depositor {
                                record: UserDeposit {
                                    owner: d.record.owner,
                                    balance: (d.record.balance - amount) as u64,
                                },
                                wallet: (d.wallet + amount) as u64,
                            },
                        ),
                    },
                    Ok(()),
                )
            },
        }
    }
}

/// Law of aggregate accounting: whenever the ledger invariant holds, the
/// vault's total balance is exactly the sum of all depositor balances, and
/// the vault's custody holds exactly that total.
pub proof fn lemma_total_is_sum_of_balances(l: LedgerModel)
    requires
        l.wf(),
    ensures
        l.total_balance() == sum_balances(l.depositors),
        l.vault_custody == sum_balances(l.depositors),
{
}

/// Appending a depositor grows the balance sum by exactly that depositor's
/// recorded balance.
pub proof fn lemma_sum_push(s: Seq<Depositor>, d: Depositor)
    ensures
        sum_balances(s.push(d)) == sum_balances(s) + d.record.balance,
{
    assert(s.push(d).drop_last() =~= s);
    assert(s.push(d).last() == d);
}

/// Replacing one depositor changes the balance sum by the difference of the
/// recorded balances.
pub proof fn lemma_sum_update(s: Seq<Depositor>, i: int, d: Depositor)
    requires
        0 <= i < s.len(),
    ensures
        sum_balances(s.update(i, d)) == sum_balances(s) - s[i].record.balance + d.record.balance,
    decreases s.len(),
{
    let t = s.update(i, d);
    if i == s.len() - 1 {
        assert(t.drop_last() =~= s.drop_last());
        assert(t.last() == d);
    } else {
        assert(t.drop_last() =~= s.drop_last().update(i, d));
        assert(t.last() == s.last());
        assert(s.drop_last()[i] == s[i]);
        lemma_sum_update(s.drop_last(), i, d);
    }
}

/// The balance sum is never negative.
pub proof fn lemma_sum_nonneg(s: Seq<Depositor>)
    ensures
        sum_balances(s) >= 0,
    decreases s.len(),
{
    if s.len() > 0 {
        lemma_sum_nonneg(s.drop_last());
    }
}

/// Every single recorded balance is at most the sum of all of them.
pub proof fn lemma_element_le_sum(s: Seq<Depositor>, i: int)
    requires
        0 <= i < s.len(),
    ensures
        s[i].record.balance <= sum_balances(s),
    decreases s.len(),
{
    if i == s.len() - 1 {
        lemma_sum_nonneg(s.drop_last());
    } else {
        assert(s.drop_last()[i] == s[i]);
        lemma_element_le_sum(s.drop_last(), i);
    }
}

/// When a depositor record for `owner` exists, `depositor_idx` names a valid
/// position holding that owner's record.
pub proof fn lemma_lookup(l: LedgerModel, owner: u64)
    requires
        l.has_depositor(owner),
    ensures
        0 <= l.depositor_idx(owner) < l.depositors.len(),
        l.depositors[l.depositor_idx(owner)].record.owner == owner,
{
}

/// Under unique owners, any position holding `owner`'s record is the one
/// `depositor_idx` names.
pub proof fn lemma_depositor_idx(l: LedgerModel, owner: u64, i: int)
    requires
        l.unique_owners(),
        0 <= i < l.depositors.len(),
        l.depositors[i].record.owner == owner,
    ensures
        l.has_depositor(owner),
        l.depositor_idx(owner) == i,
{
    assert(l.has_depositor(owner));
    let j = l.depositor_idx(owner);
    if i < j {
        assert(l.depositors[i].record.owner != l.depositors[j].record.owner);
    } else if j < i {
        assert(l.depositors[j].record.owner != l.depositors[i].record.owner);
    }
}

/// Replacing one depositor entry by another with the same owner keeps the
/// owners unique, keeps every identity's record existence, relocates nothing,
/// and leaves every other identity's balance and custody untouched.
pub proof fn lemma_update_same_owner(l: LedgerModel, l2: LedgerModel, i: int, d: Depositor)
    requires
        l.unique_owners(),
        0 <= i < l.depositors.len(),
        d.record.owner == l.depositors[i].record.owner,
        l2.depositors == l.depositors.update(i, d),
    ensures
        l2.unique_owners(),
        forall|k: u64| #[trigger] l2.has_depositor(k) == l.has_depositor(k),
        l2.has_depositor(d.record.owner),
        l2.depositor_idx(d.record.owner) == i,
        l.depositor_idx(d.record.owner) == i,
        l2.balance_of(d.record.owner) == d.record.balance,
        l2.wallet_of(d.record.owner) == d.wallet,
        forall|k: u64|
            k != d.record.owner ==> #[trigger] l2.balance_of(k) == l.balance_of(k),
        forall|k: u64|
            k != d.record.owner ==> #[trigger] l2.wallet_of(k) == l.wallet_of(k),
{
    let owner = d.record.owner;
    assert(forall|j: int|
        0 <= j < l2.depositors.len() ==> (#[trigger] l2.depositors[j]).record.owner
            == l.depositors[j].record.owner);
    assert forall|p: int, q: int| 0 <= p < q < l2.depositors.len() implies (
    #[trigger] l2.depositors[p]).record.owner != (#[trigger] l2.depositors[q]).record.owner by {
        assert(l.depositors[p].record.owner != l.depositors[q].record.owner);
    }
    assert forall|k: u64| #[trigger] l2.has_depositor(k) == l.has_depositor(k) by {
        if l2.has_depositor(k) {
            let j = l2.depositor_idx(k);
            lemma_lookup(l2, k);
            assert(l.depositors[j].record.owner == k);
        }
        if l.has_depositor(k) {
            let j = l.depositor_idx(k);
            lemma_lookup(l, k);
            assert(l2.depositors[j].record.owner == k);
        }
    }
    lemma_depositor_idx(l, owner, i);
    lemma_depositor_idx(l2, owner, i);
    assert forall|k: u64| k != owner implies #[trigger] l2.balance_of(k) == l.balance_of(k) by {
        if l.has_depositor(k) {
            let j = l.depositor_idx(k);
            lemma_lookup(l, k);
            assert(j != i);
            lemma_depositor_idx(l2, k, j);
        }
    }
    assert forall|k: u64| k != owner implies #[trigger] l2.wallet_of(k) == l.wallet_of(k) by {
        if l.has_depositor(k) {
            let j = l.depositor_idx(k);
            lemma_lookup(l, k);
            assert(j != i);
            lemma_depositor_idx(l2, k, j);
        }
    }
}

/// Initializing the vault preserves the ledger invariant; it succeeds exactly
/// when no vault exists yet, refuses a duplicate without touching anything,
/// and on success creates the vault with the given authority, a zero
/// aggregate balance, and every depositor untouched.
pub proof fn lemma_init_vault_step(l: LedgerModel, authority: u64)
    requires
        l.wf(),
    ensures
        ({
            let (l2, r) = l.init_vault_step(authority);
            &&& l2.wf()
            &&& (r is Ok <==> !l.has_vault())
            &&& (r is Err ==> l2 == l && r == Err::<(), CustomError>(CustomError::DuplicateRecord))
            &&& (r is Ok ==> {
                &&& l2.vault == (Some(Vault { authority, total_balance: 0 }))
                &&& l2.depositors == l.depositors
                &&& l2.vault_custody == l.vault_custody
            })
        }),
{
}

/// Initializing a depositor record preserves the ledger invariant; it
/// succeeds exactly when no record for that identity exists, refuses a
/// duplicate without touching anything, and on success appends a record with
/// a zero balance and the stated outside custody, leaving the vault and every
/// other depositor untouched.
pub proof fn lemma_init_deposit_step(l: LedgerModel, owner: u64, initial_funds: u64)
    requires
        l.wf(),
    ensures
        ({
            let (l2, r) = l.init_deposit_step(owner, initial_funds);
            &&& l2.wf()
            &&& (r is Ok <==> !l.has_depositor(owner))
            &&& (r is Err ==> l2 == l && r == Err::<(), CustomError>(CustomError::DuplicateRecord))
            &&& (r is Ok ==> {
                &&& l2.has_depositor(owner)
                &&& l2.balance_of(owner) == 0
                &&& l2.wallet_of(owner) == initial_funds
                &&& l2.vault == l.vault
                &&& l2.vault_custody == l.vault_custody
                &&& forall|k: u64| k != owner ==> #[trigger] l2.has_depositor(k) == l.has_depositor(k)
                &&& forall|k: u64| k != owner ==> #[trigger] l2.balance_of(k) == l.balance_of(k)
                &&& forall|k: u64| k != owner ==> #[trigger] l2.wallet_of(k) == l.wallet_of(k)
            })
        }),
{
    let (l2, r) = l.init_deposit_step(owner, initial_funds);
    if !l.has_depositor(owner) {
        let d = Depositor { record: UserDeposit { owner, balance: 0 }, wallet: initial_funds };
        let n = l.depositors.len() as int;
        lemma_sum_push(l.depositors, d);
        assert(forall|j: int|
            0 <= j < n ==> (#[trigger] l2.depositors[j]) == l.depositors[j]);
        assert forall|p: int, q: int| 0 <= p < q < l2.depositors.len() implies (
        #[trigger] l2.depositors[p]).record.owner != (#[trigger] l2.depositors[q]).record.owner by {
            if q < n {
                assert(l.depositors[p].record.owner != l.depositors[q].record.owner);
            } else {
                assert(l2.depositors[q].record.owner == owner);
                if l.depositors[p].record.owner == owner {
                    assert(l.has_depositor(owner));
                }
            }
        }
        lemma_depositor_idx(l2, owner, n);
        assert forall|k: u64| k != owner implies #[trigger] l2.has_depositor(k)
            == l.has_depositor(k) by {
            if l2.has_depositor(k) {
                let j = l2.depositor_idx(k);
                lemma_lookup(l2, k);
                assert(j < n);
                assert(l.depositors[j].record.owner == k);
            }
            if l.has_depositor(k) {
                let j = l.depositor_idx(k);
                lemma_lookup(l, k);
                assert(l2.depositors[j].record.owner == k);
            }
        }
        assert forall|k: u64| k != owner implies #[trigger] l2.balance_of(k) == l.balance_of(
            k,
        ) by {
            if l.has_depositor(k) {
                let j = l.depositor_idx(k);
                lemma_lookup(l, k);
                lemma_depositor_idx(l2, k, j);
            }
        }
        assert forall|k: u64| k != owner implies #[trigger] l2.wallet_of(k) == l.wallet_of(
            k,
        ) by {
            if l.has_depositor(k) {
                let j = l.depositor_idx(k);
                lemma_lookup(l, k);
                lemma_depositor_idx(l2, k, j);
            }
        }
    }
}

/// A deposit preserves the ledger invariant; it succeeds exactly on the
/// `can_deposit` inputs, reports the discriminated error of `deposit_error`
/// and mutates nothing otherwise, and on success credits the caller's balance
/// and the aggregate by the amount while moving that amount from the caller's
/// custody into the vault's.
pub proof fn lemma_deposit_step(l: LedgerModel, depositor: u64, caller: u64, amount: u64)
    requires
        l.wf(),
    ensures
        ({
            let (l2, r) = l.deposit_step(depositor, caller, amount);
            &&& l2.wf()
            &&& (r is Ok <==> l.can_deposit(depositor, caller, amount))
            &&& (r is Err ==> l2 == l && l.deposit_error(depositor, caller, amount)
                == Some(r->Err_0))
            &&& (r is Ok ==> {
                &&& l.has_depositor(depositor) && l2.has_depositor(depositor)
                &&& l2.balance_of(depositor) == l.balance_of(depositor) + amount
                &&& l2.wallet_of(depositor) == l.wallet_of(depositor) - amount
                &&& l2.total_balance() == l.total_balance() + amount
                &&& l2.vault_custody == l.vault_custody + amount
                &&& l2.has_vault() && l2.authority() == l.authority()
                &&& forall|k: u64| k != depositor ==> #[trigger] l2.has_depositor(k)
                    == l.has_depositor(k)
                &&& forall|k: u64| k != depositor ==> #[trigger] l2.balance_of(k) == l.balance_of(k)
                &&& forall|k: u64| k != depositor ==> #[trigger] l2.wallet_of(k) == l.wallet_of(k)
            })
        }),
{
    let (l2, r) = l.deposit_step(depositor, caller, amount);
    if l.has_depositor(depositor) {
        lemma_lookup(l, depositor);
    }
    if l.deposit_error(depositor, caller, amount) is None {
        let i = l.depositor_idx(depositor);
        let d = l.depositors[i];
        lemma_depositor_idx(l, depositor, i);
        lemma_element_le_sum(l.depositors, i);
        let d2 = Depositor {
            record: UserDeposit {
                owner: d.record.owner,
                balance: (d.record.balance + amount) as u64,
            },
            wallet: (d.wallet - amount) as u64,
        };
        lemma_update_same_owner(l, l2, i, d2);
        lemma_sum_update(l.depositors, i, d2);
        assert forall|j: int| 0 <= j < l2.depositors.len() implies (
        #[trigger] l2.depositors[j]).record.balance + l2.depositors[j].wallet <= u64::MAX by {
            if j != i {
                assert(l2.depositors[j] == l.depositors[j]);
            }
        }
    }
}

/// A withdrawal preserves the ledger invariant; it succeeds exactly on the
/// `can_withdraw` inputs, reports the discriminated error of `withdraw_error`
/// and mutates nothing otherwise, and on success debits the caller's balance
/// and the aggregate by the amount while moving that amount from the vault's
/// custody back to the caller's.
pub proof fn lemma_withdraw_step(l: LedgerModel, depositor: u64, caller: u64, amount: u64)
    requires
        l.wf(),
    ensures
        ({
            let (l2, r) = l.withdraw_step(depositor, caller, amount);
            &&& l2.wf()
            &&& (r is Ok <==> l.can_withdraw(depositor, caller, amount))
            &&& (r is Err ==> l2 == l && l.withdraw_error(depositor, caller, amount)
                == Some(r->Err_0))
            &&& (r is Ok ==> {
                &&& l.has_depositor(depositor) && l2.has_depositor(depositor)
                &&& l2.balance_of(depositor) == l.balance_of(depositor) - amount
                &&& l2.wallet_of(depositor) == l.wallet_of(depositor) + amount
                &&& l2.total_balance() == l.total_balance() - amount
                &&& l2.vault_custody == l.vault_custody - amount
                &&& l2.has_vault() && l2.authority() == l.authority()
                &&& forall|k: u64| k != depositor ==> #[trigger] l2.has_depositor(k)
                    == l.has_depositor(k)
                &&& forall|k: u64| k != depositor ==> #[trigger] l2.balance_of(k) == l.balance_of(k)
                &&& forall|k: u64| k != depositor ==> #[trigger] l2.wallet_of(k) == l.wallet_of(k)
            })
        }),
{
    let (l2, r) = l.withdraw_step(depositor, caller, amount);
    if l.has_depositor(depositor) {
        lemma_lookup(l, depositor);
    }
    if l.withdraw_error(depositor, caller, amount) is None {
        let i = l.depositor_idx(depositor);
        let d = l.depositors[i];
        lemma_depositor_idx(l, depositor, i);
        lemma_element_le_sum(l.depositors, i);
        let d2 = Depositor {
            record: UserDeposit {
                owner: d.record.owner,
                balance: (d.record.balance - amount) as u64,
            },
            wallet: (d.wallet + amount) as u64,
        };
        lemma_update_same_owner(l, l2, i, d2);
        lemma_sum_update(l.depositors, i, d2);
        assert forall|j: int| 0 <= j < l2.depositors.len() implies (
        #[trigger] l2.depositors[j]).record.balance + l2.depositors[j].wallet <= u64::MAX by {
            if j != i {
                assert(l2.depositors[j] == l.depositors[j]);
            }
        }
    }
}

} // verus!
