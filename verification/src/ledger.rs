use crate::errors::CustomError;
use crate::model::{
    lemma_depositor_idx, lemma_deposit_step, lemma_element_le_sum, lemma_init_deposit_step,
    lemma_init_vault_step, lemma_withdraw_step, LedgerModel,
};
use crate::records::{Depositor, UserDeposit, Vault};
use vstd::prelude::*;

verus! {

/// The executable ledger. Its mathematical meaning is the `LedgerModel` view;
/// every operation's contract is stated over that view.
pub struct Ledger {
    /// The vault record, once `initialize_vault` has run.
    pub vault: Option<Vault>,
    /// Units of the underlying asset in the vault's custody.
    pub vault_custody: u64,
    /// One entry per depositor identity.
    pub depositors: Vec<Depositor>,
}

impl View for Ledger {
    type V = LedgerModel;

    open spec fn view(&self) -> LedgerModel {
        LedgerModel { vault: self.vault, vault_custody: self.vault_custody, depositors: self.depositors@ }
    }
}

impl Ledger {
    /// An empty ledger: no vault yet, no depositors, nothing in custody.
    pub fn new() -> (r: Ledger)
        ensures
            r@.wf(),
            !r@.has_vault(),
            r@.depositors.len() == 0,
            r@.vault_custody == 0,
    {
        Ledger { vault: None, vault_custody: 0, depositors: Vec::new() }
    }

    /// Finds the position of the depositor record owned by `owner`, if one
    /// exists.
    fn find_depositor(&self, owner: u64) -> (r: Option<usize>)
        ensures
            match r {
                Some(i) => i < self.depositors.len() && self.depositors@[i as int].record.owner
                    == owner && self@.has_depositor(owner),
                None => !self@.has_depositor(owner),
            },
    {
        let mut i: usize = 0;
        while i < self.depositors.len()
            invariant
                i <= self.depositors.len(),
                forall|j: int|
                    0 <= j < i ==> (#[trigger] self.depositors@[j]).record.owner != owner,
            decreases self.depositors.len() - i,
        {
            if self.depositors[i].record.owner == owner {
                proof {
                    assert(self@.depositors[i as int].record.owner == owner);
                }
                return Some(i);
            }
            i = i + 1;
        }
        None
    }

    /// Creates the vault record, bound to the calling administrator identity
    /// and starting with an empty aggregate balance. Fails with
    /// `DuplicateRecord`, touching nothing, when a vault already exists.
    pub fn initialize_vault(&mut self, authority: u64) -> (r: Result<(), CustomError>)
        requires
            old(self)@.wf(),
        ensures
            final(self)@.wf(),
            (final(self)@, r) == old(self)@.init_vault_step(authority),
            r is Ok <==> !old(self)@.has_vault(),
            old(self)@.has_vault() ==> r == Err::<(), CustomError>(CustomError::DuplicateRecord)
                && final(self)@ == old(self)@,
            r is Ok ==> final(self)@.vault == (Some(Vault { authority, total_balance: 0 }))
                && final(self)@.depositors == old(self)@.depositors && final(self)@.vault_custody
                == old(self)@.vault_custody,
    {
        proof {
            lemma_init_vault_step(old(self)@, authority);
        }
        if self.vault.is_some() {
            return Err(CustomError::DuplicateRecord);
        }
        self.vault = Some(Vault { authority, total_balance: 0 });
        proof {
            assert(self@ =~= old(self)@.init_vault_step(authority).0);
        }
        Ok(())
    }

    /// Creates the depositor record for `owner`, starting with a zero balance,
    /// and notes the outside custody that identity holds. Fails with
    /// `DuplicateRecord`, touching nothing, when a record for that identity
    /// already exists.
    pub fn initialize_deposit(&mut self, owner: u64, initial_funds: u64) -> (r: Result<
        (),
        CustomError,
    >)
        requires
            old(self)@.wf(),
        ensures
            final(self)@.wf(),
            (final(self)@, r) == old(self)@.init_deposit_step(owner, initial_funds),
            r is Ok <==> !old(self)@.has_depositor(owner),
            old(self)@.has_depositor(owner) ==> r == Err::<(), CustomError>(
                CustomError::DuplicateRecord,
            ) && final(self)@ == old(self)@,
            r is Ok ==> final(self)@.has_depositor(owner) && final(self)@.balance_of(owner) == 0
                && final(self)@.wallet_of(owner) == initial_funds && final(self)@.vault == old(self)@.vault && final(self)@.vault_custody == old(self)@.vault_custody,
            forall|k: u64|
                k != owner ==> #[trigger] final(self)@.has_depositor(k) == old(self)@.has_depositor(k),
            forall|k: u64|
                k != owner ==> #[trigger] final(self)@.balance_of(k) == old(self)@.balance_of(k),
            forall|k: u64|
                k != owner ==> #[trigger] final(self)@.wallet_of(k) == old(self)@.wallet_of(k),
    {
        proof {
            lemma_init_deposit_step(old(self)@, owner, initial_funds);
        }
        match self.find_depositor(owner) {
            Some(_) => Err(CustomError::DuplicateRecord),
            None => {
                self.depositors.push(
                    Depositor { record: UserDeposit { owner, balance: 0 }, wallet: initial_funds },
                );
                proof {
                    assert(self@ =~= old(self)@.init_deposit_step(owner, initial_funds).0);
                }
                Ok(())
            },
        }
    }

    /// Moves `amount` from the caller's outside custody into the vault's
    /// custody and credits both the aggregate and the caller's individual
    /// balance by it, atomically: on any failure nothing is mutated. The
    /// caller must own the record it presents; the underlying transfer fails
    /// when the caller's custody lacks funds; the aggregate balance is
    /// credited with checked arithmetic.
    pub fn deposit(&mut self, depositor: u64, caller: u64, amount: u64) -> (r: Result<
        (),
        CustomError,
    >)
        requires
            old(self)@.wf(),
        ensures
            final(self)@.wf(),
            (final(self)@, r) == old(self)@.deposit_step(depositor, caller, amount),
            r is Ok <==> old(self)@.can_deposit(depositor, caller, amount),
            r is Err ==> final(self)@ == old(self)@ && old(self)@.deposit_error(
                depositor,
                caller,
                amount,
            ) == Some(r->Err_0),
            old(self)@.has_vault() && old(self)@.has_depositor(depositor) && depositor != caller
                ==> r == Err::<(), CustomError>(CustomError::UnauthorizedAccess),
            old(self)@.has_vault() && old(self)@.has_depositor(depositor) && depositor == caller
                && old(self)@.wallet_of(depositor) >= amount && old(self)@.total_balance() + amount
                > u64::MAX ==> r == Err::<(), CustomError>(CustomError::ArithmeticOverflow),
            r is Ok ==> final(self)@.balance_of(depositor) == old(self)@.balance_of(depositor)
                + amount && final(self)@.wallet_of(depositor) == old(self)@.wallet_of(depositor)
                - amount && final(self)@.total_balance() == old(self)@.total_balance() + amount
                && final(self)@.vault_custody == old(self)@.vault_custody + amount && final(self)@.authority() == old(self)@.authority(),
            forall|k: u64|
                r is Ok && k != depositor ==> #[trigger] final(self)@.has_depositor(k) == old(self)@.has_depositor(k),
            forall|k: u64|
                r is Ok && k != depositor ==> #[trigger] final(self)@.balance_of(k) == old(self)@.balance_of(k),
            forall|k: u64|
                r is Ok && k != depositor ==> #[trigger] final(self)@.wallet_of(k) == old(self)@.wallet_of(k),
    {
        proof {
            lemma_deposit_step(old(self)@, depositor, caller, amount);
        }
        if self.vault.is_none() {
            return Err(CustomError::MissingRecord);
        }
        let i = match self.find_depositor(depositor) {
            None => {
                return Err(CustomError::MissingRecord);
            },
            Some(i) => i,
        };
        proof {
            lemma_depositor_idx(old(self)@, depositor, i as int);
        }
        let entry = self.depositors[i];
        if entry.record.owner != caller {
            return Err(CustomError::UnauthorizedAccess);
        }
        if entry.wallet < amount {
            return Err(CustomError::TransferFailure);
        }
        let v = self.vault.unwrap();
        let new_total = match v.total_balance.checked_add(amount) {
            None => {
                return Err(CustomError::ArithmeticOverflow);
            },
            Some(t) => t,
        };
        proof {
            lemma_element_le_sum(old(self)@.depositors, i as int);
        }
        let new_balance = match entry.record.balance.checked_add(amount) {
            None => {
                return Err(CustomError::ArithmeticOverflow);
            },
            Some(b) => b,
        };
        self.vault = Some(Vault { authority: v.authority, total_balance: new_total });
        self.vault_custody = self.vault_custody + amount;
        self.depositors[i] = Depositor {
            record: UserDeposit { owner: entry.record.owner, balance: new_balance },
            wallet: entry.wallet - amount,
        };
        proof {
            assert(self@ =~= old(self)@.deposit_step(depositor, caller, amount).0);
        }
        Ok(())
    }

    /// Debits both the caller's individual balance and the aggregate by
    /// `amount` and moves that amount from the vault's custody back to the
    /// caller's, atomically: on any failure nothing is mutated. The caller
    /// must own the record it presents and have a recorded balance covering
    /// the amount; every balance change uses checked arithmetic.
    pub fn withdraw(&mut self, depositor: u64, caller: u64, amount: u64) -> (r: Result<
        (),
        CustomError,
    >)
        requires
            old(self)@.wf(),
        ensures
            final(self)@.wf(),
            (final(self)@, r) == old(self)@.withdraw_step(depositor, caller, amount),
            r is Ok <==> old(self)@.can_withdraw(depositor, caller, amount),
            r is Err ==> final(self)@ == old(self)@ && old(self)@.withdraw_error(
                depositor,
                caller,
                amount,
            ) == Some(r->Err_0),
            old(self)@.has_vault() && old(self)@.has_depositor(depositor) && depositor != caller
                ==> r == Err::<(), CustomError>(CustomError::UnauthorizedAccess),
            old(self)@.has_vault() && old(self)@.has_depositor(depositor) && depositor == caller
                && old(self)@.balance_of(depositor) < amount ==> r == Err::<(), CustomError>(
                CustomError::InsufficientFunds,
            ),
            r is Ok ==> final(self)@.balance_of(depositor) == old(self)@.balance_of(depositor)
                - amount && final(self)@.wallet_of(depositor) == old(self)@.wallet_of(depositor)
                + amount && final(self)@.total_balance() == old(self)@.total_balance() - amount
                && final(self)@.vault_custody == old(self)@.vault_custody - amount && final(self)@.authority() == old(self)@.authority(),
            forall|k: u64|
                r is Ok && k != depositor ==> #[trigger] final(self)@.has_depositor(k) == old(self)@.has_depositor(k),
            forall|k: u64|
                r is Ok && k != depositor ==> #[trigger] final(self)@.balance_of(k) == old(self)@.balance_of(k),
            forall|k: u64|
                r is Ok && k != depositor ==> #[trigger] final(self)@.wallet_of(k) == old(self)@.wallet_of(k),
    {
        proof {
            lemma_withdraw_step(old(self)@, depositor, caller, amount);
        }
        if self.vault.is_none() {
            return Err(CustomError::MissingRecord);
        }
        let i = match self.find_depositor(depositor) {
            None => {
                return Err(CustomError::MissingRecord);
            },
            Some(i) => i,
        };
        proof {
            lemma_depositor_idx(old(self)@, depositor, i as int);
        }
        let entry = self.depositors[i];
        if entry.record.owner != caller {
            return Err(CustomError::UnauthorizedAccess);
        }
        if entry.record.balance < amount {
            return Err(CustomError::InsufficientFunds);
        }
        let v = self.vault.unwrap();
        proof {
            lemma_element_le_sum(old(self)@.depositors, i as int);
        }
        let new_total = match v.total_balance.checked_sub(amount) {
            None => {
                return Err(CustomError::ArithmeticUnderflow);
            },
            Some(t) => t,
        };
        let new_balance = match entry.record.balance.checked_sub(amount) {
            None => {
                return Err(CustomError::ArithmeticUnderflow);
            },
            Some(b) => b,
        };
        let new_wallet = match entry.wallet.checked_add(amount) {
            None => {
                return Err(CustomError::ArithmeticOverflow);
            },
            Some(w) => w,
        };
        self.vault = Some(Vault { authority: v.authority, total_balance: new_total });
        self.vault_custody = self.vault_custody - amount;
        self.depositors[i] = Depositor {
            record: UserDeposit { owner: entry.record.owner, balance: new_balance },
            wallet: new_wallet,
        };
        proof {
            assert(self@ =~= old(self)@.withdraw_step(depositor, caller, amount).0);
        }
        Ok(())
    }

    /// The vault's aggregate balance, or `None` while no vault exists.
    pub fn total_balance(&self) -> (r: Option<u64>)
        ensures
            match r {
                Some(t) => self@.has_vault() && t == self@.total_balance(),
                None => !self@.has_vault(),
            },
    {
        match &self.vault {
            Some(v) => Some(v.total_balance),
            None => None,
        }
    }

    /// The recorded balance of `owner`, or `None` when no record exists for
    /// that identity.
    pub fn balance_of(&self, owner: u64) -> (r: Option<u64>)
        requires
            self@.wf(),
        ensures
            match r {
                Some(b) => self@.has_depositor(owner) && b == self@.balance_of(owner),
                None => !self@.has_depositor(owner),
            },
    {
        match self.find_depositor(owner) {
            Some(i) => {
                proof {
                    lemma_depositor_idx(self@, owner, i as int);
                }
                Some(self.depositors[i].record.balance)
            },
            None => None,
        }
    }

    /// The outside custody of `owner`, or `None` when no record exists for
    /// that identity.
    pub fn wallet_of(&self, owner: u64) -> (r: Option<u64>)
        requires
            self@.wf(),
        ensures
            match r {
                Some(w) => self@.has_depositor(owner) && w == self@.wallet_of(owner),
                None => !self@.has_depositor(owner),
            },
    {
        match self.find_depositor(owner) {
            Some(i) => {
                proof {
                    lemma_depositor_idx(self@, owner, i as int);
                }
                Some(self.depositors[i].wallet)
            },
            None => None,
        }
    }
}

} // verus!
