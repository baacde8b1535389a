//! Core data model: accounts, transaction records, and the dispute state
//! machine's per-transaction metadata.
//!
//! Monetary values are fixed-point decimals with four fractional digits,
//! represented as a signed count of ten-thousandths (`i64`). One whole unit
//! of currency is `UNITS_PER_WHOLE` ten-thousandths.
use vstd::prelude::*;

verus! {

/// Number of fixed-point units in one whole unit of currency.
pub const UNITS_PER_WHOLE: i64 = 10000;

/// The five kinds of input record the engine accepts.
#[derive(Clone, Copy, Debug, PartialEq, Eq, Structural)]
pub enum TransactionType {
    Deposit,
    Withdrawal,
    Dispute,
    Resolve,
    Chargeback,
}

/// Dispute-tracking state of a ledger entry. A resolved or charged-back
/// transaction is removed from the ledger rather than kept in a third state.
#[derive(Clone, Copy, Debug, PartialEq, Eq, Structural)]
pub enum TransactionState {
    Normal,
    Disputed,
}

/// Ledger entry stored for each successfully applied deposit, keyed by its
/// transaction id: enough metadata to later dispute it.
#[derive(Clone, Copy, Debug, PartialEq, Eq, Structural)]
pub struct TransactionInfo {
    pub client_id: u16,
    pub amount: i64,
    pub state: TransactionState,
}

/// One record of the input stream.
#[derive(Clone, Copy, Debug)]
pub struct InputRecord {
    pub record_type: TransactionType,
    pub client_id: u16,
    pub tx_id: u32,
    /// Present (and required to be positive) for deposits and withdrawals;
    /// absent for dispute, resolve and chargeback records.
    pub amount: Option<i64>,
}

/// Read-only projection of an account for reporting.
#[derive(Clone, Copy, Debug, PartialEq, Eq, Structural)]
pub struct OutputRecord {
    pub client_id: u16,
    pub available: i64,
    pub held: i64,
    pub total: i64,
    pub locked: bool,
}

/// Per-client balance holder.
#[derive(Clone, Copy, Debug, PartialEq, Eq, Structural)]
pub struct Account {
    pub client_id: u16,
    pub available: i64,
    pub held: i64,
    pub locked: bool,
}

/// The freshly created account for a client: empty balances, not locked.
pub open spec fn spec_new_account(client_id: u16) -> Account {
    Account { client_id, available: 0, held: 0, locked: false }
}

/// The reporting projection of an account; `total` is the exact sum of
/// `available` and `held`.
pub open spec fn spec_output_record(a: Account) -> OutputRecord {
    OutputRecord {
        client_id: a.client_id,
        available: a.available,
        held: a.held,
        total: (a.available + a.held) as i64,
        locked: a.locked,
    }
}

impl Account {
    /// Both balances are non-negative and their sum fits the fixed-point
    /// representation, so `total` can always be computed exactly.
    pub open spec fn wf(self) -> bool {
        &&& 0 <= self.available
        &&& 0 <= self.held
        &&& self.available + self.held <= i64::MAX
    }

    pub fn new(client_id: u16) -> (a: Account)
        ensures
            a == spec_new_account(client_id),
    {
        Account { client_id, available: 0, held: 0, locked: false }
    }

    /// Total funds of the account: available plus held.
    pub fn total(&self) -> (t: i64)
        requires
            self.available + self.held <= i64::MAX,
            self.available + self.held >= i64::MIN,
        ensures
            t == self.available + self.held,
    {
        self.available + self.held
    }

    /// Credits `amount` to the available balance. Deposits are unconditional:
    /// even a locked account can receive funds.
    pub fn deposit(&mut self, amount: i64)
        requires
            0 < amount,
            old(self).available + amount <= i64::MAX,
        ensures
            *final(self) == (Account { available: (old(self).available + amount) as i64, ..*old(self) }),
    {
        self.available = self.available + amount;
    }

    /// Debits `amount` from the available balance. Fails (returning false,
    /// changing nothing) when the account is locked or the available funds
    /// are insufficient.
    pub fn withdraw(&mut self, amount: i64) -> (success: bool)
        requires
            0 < amount,
        ensures
            success == (!old(self).locked && old(self).available >= amount),
            success ==> *final(self) == (Account {
                available: (old(self).available - amount) as i64,
                ..*old(self)
            }),
            !success ==> *final(self) == *old(self),
    {
        if !self.locked && self.available >= amount {
            self.available = self.available - amount;
            true
        } else {
            false
        }
    }

    /// Moves `amount` from available to held for a dispute. Fails (returning
    /// false, changing nothing) when the account is locked or the available
    /// funds are insufficient.
    pub fn hold(&mut self, amount: i64) -> (success: bool)
        requires
            0 < amount,
            old(self).wf(),
        ensures
            success == (!old(self).locked && old(self).available >= amount),
            success ==> *final(self) == (Account {
                available: (old(self).available - amount) as i64,
                held: (old(self).held + amount) as i64,
                ..*old(self)
            }),
            !success ==> *final(self) == *old(self),
    {
        if !self.locked && self.available >= amount {
            self.available = self.available - amount;
            self.held = self.held + amount;
            true
        } else {
            false
        }
    }

    /// Moves `amount` back from held to available after a dispute is
    /// resolved. Fails (returning false, changing nothing) when the account
    /// is locked or the held funds are insufficient.
    pub fn release(&mut self, amount: i64) -> (success: bool)
        requires
            0 < amount,
            old(self).wf(),
        ensures
            success == (!old(self).locked && old(self).held >= amount),
            success ==> *final(self) == (Account {
                available: (old(self).available + amount) as i64,
                held: (old(self).held - amount) as i64,
                ..*old(self)
            }),
            !success ==> *final(self) == *old(self),
    {
        if !self.locked && self.held >= amount {
            self.held = self.held - amount;
            self.available = self.available + amount;
            true
        } else {
            false
        }
    }

    /// Removes `amount` from held and locks the account. The lock state is
    /// deliberately not checked: a chargeback may land on an already-locked
    /// account. Fails (returning false, changing nothing) when the held
    /// funds are insufficient.
    pub fn chargeback(&mut self, amount: i64) -> (success: bool)
        requires
            0 < amount,
        ensures
            success == (old(self).held >= amount),
            success ==> *final(self) == (Account {
                held: (old(self).held - amount) as i64,
                locked: true,
                ..*old(self)
            }),
            !success ==> *final(self) == *old(self),
    {
        if self.held >= amount {
            self.held = self.held - amount;
            self.locked = true;
            true
        } else {
            false
        }
    }

    /// Snapshot of this account for reporting.
    pub fn to_output_record(&self) -> (r: OutputRecord)
        requires
            self.wf(),
        ensures
            r == spec_output_record(*self),
    {
        OutputRecord {
            client_id: self.client_id,
            available: self.available,
            held: self.held,
            total: self.total(),
            locked: self.locked,
        }
    }
}

} // verus!
