//! The transaction-processing engine: owns the account collection and the
//! transaction ledger, dispatches each input record to the matching handler,
//! and enforces the duplicate and validation rules.
//!
//! The abstract state is a pair of maps ([`EngineView`]); every handler's
//! effect is given exactly by the spec-level transition function
//! [`spec_process`], and `PaymentEngine::process` is proved to implement it.
use vstd::prelude::*;
use std::collections::HashMap;
use crate::errors::PaymentError;
use crate::models::{
    Account, InputRecord, OutputRecord, TransactionInfo, TransactionState, TransactionType,
    spec_new_account, spec_output_record,
};

verus! {

broadcast use vstd::std_specs::hash::group_hash_axioms;

/// Abstract state of the engine: the account map and the transaction ledger.
#[verifier::ext_equal]
pub ghost struct EngineView {
    pub accounts: Map<u16, Account>,
    pub transactions: Map<u32, TransactionInfo>,
}

impl EngineView {
    /// Well-formedness of the abstract state: every account is internally
    /// consistent and keyed by its own client id; every ledger entry has a
    /// positive amount and refers to an existing account.
    pub open spec fn wf(self) -> bool {
        &&& forall|c: u16| #[trigger] self.accounts.contains_key(c)
            ==> self.accounts[c].wf() && self.accounts[c].client_id == c
        &&& forall|t: u32| #[trigger] self.transactions.contains_key(t)
            ==> 0 < self.transactions[t].amount
                && self.accounts.contains_key(self.transactions[t].client_id)
    }
}

/// The account a record addresses: the existing one, or a fresh empty one
/// created lazily for its client id.
pub open spec fn spec_account_or_new(accounts: Map<u16, Account>, client_id: u16) -> Account {
    if accounts.contains_key(client_id) {
        accounts[client_id]
    } else {
        spec_new_account(client_id)
    }
}

/// Effect of a fresh, valid deposit: credit the (possibly new) account and
/// index the transaction for later disputes.
pub open spec fn spec_deposit(v: EngineView, client_id: u16, tx_id: u32, amount: i64) -> EngineView {
    let acct = spec_account_or_new(v.accounts, client_id);
    let credited = Account { available: (acct.available + amount) as i64, ..acct };
    EngineView {
        accounts: v.accounts.insert(client_id, credited),
        transactions: v.transactions.insert(
            tx_id,
            TransactionInfo { client_id, amount, state: TransactionState::Normal },
        ),
    }
}

/// Effect of a fresh, valid withdrawal: debit the (possibly new) account if
/// it is unlocked and has sufficient available funds; a failed withdrawal
/// still creates the account but moves no funds. No ledger entry is made, so
/// a withdrawal can never later be disputed.
pub open spec fn spec_withdrawal(v: EngineView, client_id: u16, amount: i64) -> EngineView {
    let acct = spec_account_or_new(v.accounts, client_id);
    let debited = if !acct.locked && acct.available >= amount {
        Account { available: (acct.available - amount) as i64, ..acct }
    } else {
        acct
    };
    EngineView { accounts: v.accounts.insert(client_id, debited), ..v }
}

/// Effect of a dispute: when the transaction is indexed, still in `Normal`
/// state, its account exists, and the hold succeeds, move the disputed
/// amount from available to held and mark the entry `Disputed`; in every
/// other case the record is a no-op.
pub open spec fn spec_dispute(v: EngineView, tx_id: u32) -> EngineView {
    if !v.transactions.contains_key(tx_id) {
        v
    } else {
        let info = v.transactions[tx_id];
        if info.state != TransactionState::Normal {
            v
        } else if !v.accounts.contains_key(info.client_id) {
            v
        } else {
            let acct = v.accounts[info.client_id];
            if !acct.locked && acct.available >= info.amount {
                EngineView {
                    accounts: v.accounts.insert(
                        info.client_id,
                        Account {
                            available: (acct.available - info.amount) as i64,
                            held: (acct.held + info.amount) as i64,
                            ..acct
                        },
                    ),
                    transactions: v.transactions.insert(
                        tx_id,
                        TransactionInfo { state: TransactionState::Disputed, ..info },
                    ),
                }
            } else {
                v
            }
        }
    }
}

/// Effect of a resolve: when the transaction is indexed, `Disputed`, its
/// account exists, and the release succeeds, move the disputed amount back
/// to available and drop the ledger entry; otherwise a no-op.
pub open spec fn spec_resolve(v: EngineView, tx_id: u32) -> EngineView {
    if !v.transactions.contains_key(tx_id) {
        v
    } else {
        let info = v.transactions[tx_id];
        if info.state != TransactionState::Disputed {
            v
        } else if !v.accounts.contains_key(info.client_id) {
            v
        } else {
            let acct = v.accounts[info.client_id];
            if !acct.locked && acct.held >= info.amount {
                EngineView {
                    accounts: v.accounts.insert(
                        info.client_id,
                        Account {
                            available: (acct.available + info.amount) as i64,
                            held: (acct.held - info.amount) as i64,
                            ..acct
                        },
                    ),
                    transactions: v.transactions.remove(tx_id),
                }
            } else {
                v
            }
        }
    }
}

/// Effect of a chargeback: when the transaction is indexed, `Disputed`, its
/// account exists, and the held funds suffice, remove the disputed amount
/// from held, permanently lock the account, and drop the ledger entry;
/// otherwise a no-op. The lock state itself is not checked.
pub open spec fn spec_chargeback(v: EngineView, tx_id: u32) -> EngineView {
    if !v.transactions.contains_key(tx_id) {
        v
    } else {
        let info = v.transactions[tx_id];
        if info.state != TransactionState::Disputed {
            v
        } else if !v.accounts.contains_key(info.client_id) {
            v
        } else {
            let acct = v.accounts[info.client_id];
            if acct.held >= info.amount {
                EngineView {
                    accounts: v.accounts.insert(
                        info.client_id,
                        Account {
                            held: (acct.held - info.amount) as i64,
                            locked: true,
                            ..acct
                        },
                    ),
                    transactions: v.transactions.remove(tx_id),
                }
            } else {
                v
            }
        }
    }
}

/// The state after processing one record. A deposit or withdrawal whose
/// transaction id is already indexed is ignored before any validation; one
/// whose amount is missing or not positive fails validation and changes
/// nothing.
pub open spec fn spec_process(v: EngineView, r: InputRecord) -> EngineView {
    match r.record_type {
        TransactionType::Deposit => {
            if v.transactions.contains_key(r.tx_id) {
                v
            } else {
                match r.amount {
                    Some(a) => if 0 < a {
                        spec_deposit(v, r.client_id, r.tx_id, a)
                    } else {
                        v
                    },
                    None => v,
                }
            }
        },
        TransactionType::Withdrawal => {
            if v.transactions.contains_key(r.tx_id) {
                v
            } else {
                match r.amount {
                    Some(a) => if 0 < a {
                        spec_withdrawal(v, r.client_id, a)
                    } else {
                        v
                    },
                    None => v,
                }
            }
        },
        TransactionType::Dispute => spec_dispute(v, r.tx_id),
        TransactionType::Resolve => spec_resolve(v, r.tx_id),
        TransactionType::Chargeback => spec_chargeback(v, r.tx_id),
    }
}

/// Whether processing the record succeeds. Only a non-duplicate deposit or
/// withdrawal with a missing or non-positive amount fails; every other
/// record — including every dispute, resolve and chargeback — is accepted
/// (possibly as a silent no-op).
pub open spec fn spec_process_ok(v: EngineView, r: InputRecord) -> bool {
    match r.record_type {
        TransactionType::Deposit | TransactionType::Withdrawal => {
            v.transactions.contains_key(r.tx_id) || (match r.amount {
                Some(a) => 0 < a,
                None => false,
            })
        },
        _ => true,
    }
}

/// The validation error reported when processing fails.
pub open spec fn spec_process_err(v: EngineView, r: InputRecord) -> PaymentError
    recommends
        !spec_process_ok(v, r),
{
    match r.amount {
        None => PaymentError::MissingAmount { kind: r.record_type, tx_id: r.tx_id },
        Some(_) => PaymentError::NonPositiveAmount { kind: r.record_type, tx_id: r.tx_id },
    }
}

/// Headroom for a deposit: a fresh, valid deposit must leave the target
/// account's total within the fixed-point range. Every other record fits
/// trivially, because no other operation increases an account's total.
pub open spec fn spec_deposit_fits(v: EngineView, r: InputRecord) -> bool {
    match r.record_type {
        TransactionType::Deposit => {
            if v.transactions.contains_key(r.tx_id) {
                true
            } else {
                match r.amount {
                    Some(a) => {
                        let acct = spec_account_or_new(v.accounts, r.client_id);
                        0 < a ==> acct.available + acct.held + a <= i64::MAX
                    },
                    None => true,
                }
            }
        },
        _ => true,
    }
}

/// The transaction-processing engine. It exclusively owns the account
/// collection and the transaction ledger; it is constructed fresh per run.
pub struct PaymentEngine {
    accounts: HashMap<u16, Account>,
    /// Client ids in order of first reference; mirrors the account map's
    /// domain so the snapshot can be produced deterministically.
    client_ids: Vec<u16>,
    transactions: HashMap<u32, TransactionInfo>,
}

impl View for PaymentEngine {
    type V = EngineView;

    closed spec fn view(&self) -> EngineView {
        EngineView { accounts: self.accounts@, transactions: self.transactions@ }
    }
}

impl PaymentEngine {
    /// The engine's invariant: its abstract state is well-formed, and the
    /// recorded client ids list each account key exactly once.
    pub closed spec fn inv(&self) -> bool {
        &&& self@.wf()
        &&& self.client_ids@.no_duplicates()
        &&& forall|c: u16| #[trigger] self.accounts@.contains_key(c)
            ==> self.client_ids@.contains(c)
        &&& forall|c: u16| #[trigger] self.client_ids@.contains(c)
            ==> self.accounts@.contains_key(c)
    }

    /// A valid engine's abstract state is well-formed.
    pub proof fn lemma_inv_wf(&self)
        requires
            self.inv(),
        ensures
            self@.wf(),
    {
    }

    /// A fresh engine: no accounts, no indexed transactions.
    pub fn new() -> (engine: PaymentEngine)
        ensures
            engine.inv(),
            engine@.accounts == Map::<u16, Account>::empty(),
            engine@.transactions == Map::<u32, TransactionInfo>::empty(),
    {
        PaymentEngine {
            accounts: HashMap::new(),
            client_ids: Vec::new(),
            transactions: HashMap::new(),
        }
    }

    /// Retrieves the record's account, creating an empty one if the client
    /// id is not yet known.
    fn get_or_create_account(&mut self, client_id: u16) -> (acct: Account)
        requires
            old(self).inv(),
        ensures
            final(self).inv(),
            acct == spec_account_or_new(old(self)@.accounts, client_id),
            acct.wf(),
            acct.client_id == client_id,
            final(self)@.accounts == old(self)@.accounts.insert(client_id, acct),
            final(self)@.transactions == old(self)@.transactions,
    {
        let existing = self.accounts.get(&client_id);
        match existing {
            Some(a) => {
                let acct = *a;
                proof {
                    assert(self@.accounts.insert(client_id, acct) =~= self@.accounts);
                }
                acct
            },
            None => {
                let acct = Account::new(client_id);
                self.accounts.insert(client_id, acct);
                self.client_ids.push(client_id);
                proof {
                    let old_ids = old(self).client_ids@;
                    assert(!old_ids.contains(client_id));
                    assert forall|c: u16| #[trigger] self.accounts@.contains_key(c)
                        implies self.accounts@[c].wf() && self.accounts@[c].client_id == c by {
                        if c == client_id {
                            assert(self.accounts@[c] == acct);
                            assert(acct.wf());
                            assert(acct.client_id == c);
                        } else {
                            assert(old(self)@.accounts.contains_key(c));
                            assert(old(self)@.accounts[c].wf());
                            assert(self.accounts@[c] == old(self)@.accounts[c]);
                        }
                    };
                    assert forall|t: u32| #[trigger] self.transactions@.contains_key(t)
                        implies 0 < self.transactions@[t].amount
                            && self.accounts@.contains_key(self.transactions@[t].client_id) by {
                        assert(old(self).transactions@.contains_key(t));
                    };
                    assert forall|c: u16| #[trigger] self.client_ids@.contains(c)
                        implies self.accounts@.contains_key(c) by {
                        if c != client_id {
                            let i = choose|i: int|
                                0 <= i < self.client_ids@.len() && self.client_ids@[i] == c;
                            assert(old_ids[i] == c);
                            assert(old_ids.contains(c));
                        }
                    };
                    assert forall|c: u16| #[trigger] self.accounts@.contains_key(c)
                        implies self.client_ids@.contains(c) by {
                        if c == client_id {
                            assert(self.client_ids@[self.client_ids@.len() - 1] == c);
                        } else {
                            assert(old(self).accounts@.contains_key(c));
                            let i = choose|i: int| 0 <= i < old_ids.len() && old_ids[i] == c;
                            assert(self.client_ids@[i] == c);
                        }
                    };
                }
                acct
            },
        }
    }

    /// Decides [`spec_deposit_fits`] for a record: whether processing it is
    /// free of fixed-point overflow. Only a fresh, valid deposit can fail
    /// this; callers test it before [`PaymentEngine::process`].
    pub fn deposit_fits(&self, record: &InputRecord) -> (b: bool)
        requires
            self.inv(),
        ensures
            b == spec_deposit_fits(self@, *record),
    {
        if !matches!(record.record_type, TransactionType::Deposit) {
            return true;
        }
        if self.transactions.contains_key(&record.tx_id) {
            return true;
        }
        let amount = match record.amount {
            Some(a) => a,
            None => {
                return true;
            },
        };
        if amount <= 0 {
            return true;
        }
        match self.accounts.get(&record.client_id) {
            Some(acct) => {
                proof {
                    assert(self@.accounts.contains_key(record.client_id));
                }
                let headroom = (i64::MAX - acct.available) - acct.held;
                amount <= headroom
            },
            None => true,
        }
    }

    /// Processes a single input record: applies the duplicate rule, then
    /// dispatches to the matching handler. The state moves exactly as
    /// [`spec_process`] says; the result is `Err` exactly on a non-duplicate
    /// deposit or withdrawal whose amount is missing or not positive.
    pub fn process(&mut self, record: InputRecord) -> (result: Result<(), PaymentError>)
        requires
            old(self).inv(),
            spec_deposit_fits(old(self)@, record),
        ensures
            final(self).inv(),
            final(self)@ == spec_process(old(self)@, record),
            spec_process_ok(old(self)@, record) ==> result == Result::<(), PaymentError>::Ok(()),
            !spec_process_ok(old(self)@, record) ==> result == Result::<(), PaymentError>::Err(
                spec_process_err(old(self)@, record),
            ),
    {
        let tx_id = record.tx_id;
        if matches!(record.record_type, TransactionType::Deposit | TransactionType::Withdrawal)
            && self.transactions.contains_key(&tx_id) {
            return Ok(());
        }
        match record.record_type {
            TransactionType::Deposit => self.handle_deposit(record),
            TransactionType::Withdrawal => self.handle_withdrawal(record),
            TransactionType::Dispute => self.handle_dispute(record),
            TransactionType::Resolve => self.handle_resolve(record),
            TransactionType::Chargeback => self.handle_chargeback(record),
        }
    }

    fn handle_deposit(&mut self, record: InputRecord) -> (result: Result<(), PaymentError>)
        requires
            old(self).inv(),
            (record.record_type is Deposit),
            !old(self)@.transactions.contains_key(record.tx_id),
            spec_deposit_fits(old(self)@, record),
        ensures
            final(self).inv(),
            final(self)@ == spec_process(old(self)@, record),
            spec_process_ok(old(self)@, record) ==> result == Result::<(), PaymentError>::Ok(()),
            !spec_process_ok(old(self)@, record) ==> result == Result::<(), PaymentError>::Err(
                spec_process_err(old(self)@, record),
            ),
    {
        let amount = match record.amount {
            Some(a) => a,
            None => {
                return Err(PaymentError::MissingAmount {
                    kind: record.record_type,
                    tx_id: record.tx_id,
                });
            },
        };
        if amount <= 0 {
            return Err(PaymentError::NonPositiveAmount {
                kind: record.record_type,
                tx_id: record.tx_id,
            });
        }
        let mut acct = self.get_or_create_account(record.client_id);
        let ghost mid = *self;
        acct.deposit(amount);
        self.accounts.insert(record.client_id, acct);
        self.transactions.insert(
            record.tx_id,
            TransactionInfo {
                client_id: record.client_id,
                amount,
                state: TransactionState::Normal,
            },
        );
        proof {
            assert(self.accounts@ =~= old(self)@.accounts.insert(record.client_id, acct));
            assert(self@ =~= spec_process(old(self)@, record));
            lemma_wf_step(old(self)@, self@, record.client_id, acct);
            self.lemma_ids_cover(mid);
        }
        Ok(())
    }

    fn handle_withdrawal(&mut self, record: InputRecord) -> (result: Result<(), PaymentError>)
        requires
            old(self).inv(),
            (record.record_type is Withdrawal),
            !old(self)@.transactions.contains_key(record.tx_id),
        ensures
            final(self).inv(),
            final(self)@ == spec_process(old(self)@, record),
            spec_process_ok(old(self)@, record) ==> result == Result::<(), PaymentError>::Ok(()),
            !spec_process_ok(old(self)@, record) ==> result == Result::<(), PaymentError>::Err(
                spec_process_err(old(self)@, record),
            ),
    {
        let amount = match record.amount {
            Some(a) => a,
            None => {
                return Err(PaymentError::MissingAmount {
                    kind: record.record_type,
                    tx_id: record.tx_id,
                });
            },
        };
        if amount <= 0 {
            return Err(PaymentError::NonPositiveAmount {
                kind: record.record_type,
                tx_id: record.tx_id,
            });
        }
        let mut acct = self.get_or_create_account(record.client_id);
        let ghost mid = *self;
        let _success = acct.withdraw(amount);
        self.accounts.insert(record.client_id, acct);
        proof {
            assert(self.accounts@ =~= old(self)@.accounts.insert(record.client_id, acct));
            assert(self@ =~= spec_process(old(self)@, record));
            lemma_wf_step(old(self)@, self@, record.client_id, acct);
            self.lemma_ids_cover(mid);
        }
        Ok(())
    }

    fn handle_dispute(&mut self, record: InputRecord) -> (result: Result<(), PaymentError>)
        requires
            old(self).inv(),
            (record.record_type is Dispute),
        ensures
            final(self).inv(),
            final(self)@ == spec_dispute(old(self)@, record.tx_id),
            result == Result::<(), PaymentError>::Ok(()),
    {
        let tx_id = record.tx_id;
        let info = match self.transactions.get(&tx_id) {
            Some(i) => *i,
            None => {
                return Ok(());
            },
        };
        if info.state != TransactionState::Normal {
            return Ok(());
        }
        proof {
            assert(old(self)@.transactions.contains_key(tx_id));
        }
        let mut acct = match self.accounts.get(&info.client_id) {
            Some(a) => *a,
            None => {
                return Ok(());
            },
        };
        let ghost mid = *self;
        proof {
            assert(old(self)@.accounts.contains_key(info.client_id));
            assert(acct.wf());
        }
        if acct.hold(info.amount) {
            self.accounts.insert(info.client_id, acct);
            self.transactions.insert(
                tx_id,
                TransactionInfo { state: TransactionState::Disputed, ..info },
            );
            proof {
                assert(self@ =~= spec_dispute(old(self)@, tx_id));
                lemma_wf_step(old(self)@, self@, info.client_id, acct);
                self.lemma_ids_cover(mid);
            }
        }
        Ok(())
    }

    fn handle_resolve(&mut self, record: InputRecord) -> (result: Result<(), PaymentError>)
        requires
            old(self).inv(),
            (record.record_type is Resolve),
        ensures
            final(self).inv(),
            final(self)@ == spec_resolve(old(self)@, record.tx_id),
            result == Result::<(), PaymentError>::Ok(()),
    {
        let tx_id = record.tx_id;
        let info = match self.transactions.get(&tx_id) {
            Some(i) => *i,
            None => {
                return Ok(());
            },
        };
        if info.state != TransactionState::Disputed {
            return Ok(());
        }
        proof {
            assert(old(self)@.transactions.contains_key(tx_id));
        }
        let mut acct = match self.accounts.get(&info.client_id) {
            Some(a) => *a,
            None => {
                return Ok(());
            },
        };
        let ghost mid = *self;
        proof {
            assert(old(self)@.accounts.contains_key(info.client_id));
            assert(acct.wf());
        }
        if acct.release(info.amount) {
            self.accounts.insert(info.client_id, acct);
            self.transactions.remove(&tx_id);
            proof {
                assert(self@ =~= spec_resolve(old(self)@, tx_id));
                lemma_wf_step(old(self)@, self@, info.client_id, acct);
                self.lemma_ids_cover(mid);
            }
        }
        Ok(())
    }

    fn handle_chargeback(&mut self, record: InputRecord) -> (result: Result<(), PaymentError>)
        requires
            old(self).inv(),
            (record.record_type is Chargeback),
        ensures
            final(self).inv(),
            final(self)@ == spec_chargeback(old(self)@, record.tx_id),
            result == Result::<(), PaymentError>::Ok(()),
    {
        let tx_id = record.tx_id;
        let info = match self.transactions.get(&tx_id) {
            Some(i) => *i,
            None => {
                return Ok(());
            },
        };
        if info.state != TransactionState::Disputed {
            return Ok(());
        }
        proof {
            assert(old(self)@.transactions.contains_key(tx_id));
        }
        let mut acct = match self.accounts.get(&info.client_id) {
            Some(a) => *a,
            None => {
                return Ok(());
            },
        };
        let ghost mid = *self;
        proof {
            assert(old(self)@.accounts.contains_key(info.client_id));
            assert(acct.wf());
        }
        if acct.chargeback(info.amount) {
            self.accounts.insert(info.client_id, acct);
            self.transactions.remove(&tx_id);
            proof {
                assert(self@ =~= spec_chargeback(old(self)@, tx_id));
                lemma_wf_step(old(self)@, self@, info.client_id, acct);
                self.lemma_ids_cover(mid);
            }
        }
        Ok(())
    }

    /// The account map's domain is unchanged from `mid` to the current
    /// state, so the recorded client ids still cover it exactly.
    proof fn lemma_ids_cover(&self, mid: PaymentEngine)
        requires
            mid.inv(),
            self.client_ids == mid.client_ids,
            forall|c: u16| #[trigger] self.accounts@.contains_key(c)
                <==> mid.accounts@.contains_key(c),
        ensures
            self.client_ids@.no_duplicates(),
            forall|c: u16| #[trigger] self.accounts@.contains_key(c)
                ==> self.client_ids@.contains(c),
            forall|c: u16| #[trigger] self.client_ids@.contains(c)
                ==> self.accounts@.contains_key(c),
    {
    }

    /// Snapshot of every account ever created, one output record each, in
    /// order of first reference. Each known client id appears exactly once.
    pub fn get_accounts(&self) -> (records: Vec<OutputRecord>)
        requires
            self.inv(),
        ensures
            records@.len() == self@.accounts.dom().len(),
            forall|i: int| #![trigger records@[i]] 0 <= i < records@.len()
                ==> self@.accounts.contains_key(records@[i].client_id)
                    && records@[i] == spec_output_record(self@.accounts[records@[i].client_id]),
            forall|i: int, j: int| 0 <= i < records@.len() && 0 <= j < records@.len() && i != j
                ==> records@[i].client_id != records@[j].client_id,
            forall|c: u16| #[trigger] self@.accounts.contains_key(c)
                ==> exists|i: int| 0 <= i < records@.len() && records@[i].client_id == c,
    {
        let mut records: Vec<OutputRecord> = Vec::new();
        let mut idx: usize = 0;
        while idx < self.client_ids.len()
            invariant
                self.inv(),
                idx <= self.client_ids@.len(),
                records@.len() == idx,
                forall|i: int| #![trigger records@[i]] 0 <= i < idx
                    ==> records@[i].client_id == self.client_ids@[i]
                        && records@[i] == spec_output_record(
                            self@.accounts[self.client_ids@[i]],
                        ),
            decreases self.client_ids@.len() - idx,
        {
            let c = self.client_ids[idx];
            proof {
                assert(self.client_ids@.contains(c));
                assert(self@.accounts.contains_key(c));
            }
            let acct = *self.accounts.get(&c).unwrap();
            records.push(acct.to_output_record());
            idx += 1;
        }
        proof {
            assert forall|c: u16| #[trigger] self@.accounts.contains_key(c)
                implies exists|i: int| 0 <= i < records@.len() && records@[i].client_id == c by {
                assert(self.client_ids@.contains(c));
                let i = choose|i: int|
                    0 <= i < self.client_ids@.len() && self.client_ids@[i] == c;
                assert(records@[i].client_id == c);
            };
            assert(self.client_ids@.to_set() =~= self.accounts@.dom());
            self.client_ids@.unique_seq_to_set();
        }
        records
    }
}

/// One engine step preserves well-formedness of the abstract state: the one
/// touched account stays well-formed under its own key, and every ledger
/// entry still has a positive amount and an existing account — it either
/// survives from before with its client and amount unchanged, or belongs to
/// the touched account.
proof fn lemma_wf_step(pre: EngineView, post: EngineView, client_id: u16, acct: Account)
    requires
        pre.wf(),
        acct.wf(),
        acct.client_id == client_id,
        post.accounts == pre.accounts.insert(client_id, acct),
        forall|t: u32| #[trigger] post.transactions.contains_key(t) ==> {
            ||| (pre.transactions.contains_key(t)
                && post.transactions[t].client_id == pre.transactions[t].client_id
                && post.transactions[t].amount == pre.transactions[t].amount)
            ||| (post.transactions[t].client_id == client_id && 0 < post.transactions[t].amount)
        },
    ensures
        post.wf(),
{
    assert forall|c: u16| #[trigger] post.accounts.contains_key(c)
        implies post.accounts[c].wf() && post.accounts[c].client_id == c by {
        if c != client_id {
            assert(pre.accounts.contains_key(c));
        }
    };
    assert forall|t: u32| #[trigger] post.transactions.contains_key(t)
        implies 0 < post.transactions[t].amount
            && post.accounts.contains_key(post.transactions[t].client_id) by {
        if !(post.transactions[t].client_id == client_id && 0 < post.transactions[t].amount) {
            assert(pre.transactions.contains_key(t));
            assert(pre.accounts.contains_key(pre.transactions[t].client_id));
        }
    };
}

/// Processing any record keeps the abstract state well-formed, provided a
/// fresh, valid deposit has headroom. Balances stay non-negative and every
/// account's total stays representable — so `total == available + held`
/// holds exactly at every observation point.
pub proof fn lemma_wf_preserved(v: EngineView, r: InputRecord)
    requires
        v.wf(),
        spec_deposit_fits(v, r),
    ensures
        spec_process(v, r).wf(),
{
    let post = spec_process(v, r);
    match r.record_type {
        TransactionType::Deposit => {
            if !v.transactions.contains_key(r.tx_id) {
                match r.amount {
                    Some(a) => {
                        if 0 < a {
                            let acct = spec_account_or_new(v.accounts, r.client_id);
                            let credited = Account {
                                available: (acct.available + a) as i64,
                                ..acct
                            };
                            assert(credited.wf());
                            lemma_wf_step(v, post, r.client_id, credited);
                        }
                    },
                    None => {},
                }
            }
        },
        TransactionType::Withdrawal => {
            if !v.transactions.contains_key(r.tx_id) {
                match r.amount {
                    Some(a) => {
                        if 0 < a {
                            let acct = spec_account_or_new(v.accounts, r.client_id);
                            let debited = if !acct.locked && acct.available >= a {
                                Account { available: (acct.available - a) as i64, ..acct }
                            } else {
                                acct
                            };
                            assert(debited.wf());
                            lemma_wf_step(v, post, r.client_id, debited);
                        }
                    },
                    None => {},
                }
            }
        },
        TransactionType::Dispute => {
            if v.transactions.contains_key(r.tx_id) {
                let info = v.transactions[r.tx_id];
                if info.state == TransactionState::Normal
                    && v.accounts.contains_key(info.client_id) {
                    let acct = v.accounts[info.client_id];
                    if !acct.locked && acct.available >= info.amount {
                        let updated = Account {
                            available: (acct.available - info.amount) as i64,
                            held: (acct.held + info.amount) as i64,
                            ..acct
                        };
                        assert(updated.wf());
                        lemma_wf_step(v, post, info.client_id, updated);
                    }
                }
            }
        },
        TransactionType::Resolve => {
            if v.transactions.contains_key(r.tx_id) {
                let info = v.transactions[r.tx_id];
                if info.state == TransactionState::Disputed
                    && v.accounts.contains_key(info.client_id) {
                    let acct = v.accounts[info.client_id];
                    if !acct.locked && acct.held >= info.amount {
                        let updated = Account {
                            available: (acct.available + info.amount) as i64,
                            held: (acct.held - info.amount) as i64,
                            ..acct
                        };
                        assert(updated.wf());
                        lemma_wf_step(v, post, info.client_id, updated);
                    }
                }
            }
        },
        TransactionType::Chargeback => {
            if v.transactions.contains_key(r.tx_id) {
                let info = v.transactions[r.tx_id];
                if info.state == TransactionState::Disputed
                    && v.accounts.contains_key(info.client_id) {
                    let acct = v.accounts[info.client_id];
                    if acct.held >= info.amount {
                        let updated = Account {
                            held: (acct.held - info.amount) as i64,
                            locked: true,
                            ..acct
                        };
                        assert(updated.wf());
                        lemma_wf_step(v, post, info.client_id, updated);
                    }
                }
            }
        },
    }
}

impl Default for PaymentEngine {
    /// Same as [`PaymentEngine::new`].
    fn default() -> (engine: Self)
        ensures
            engine.inv(),
            engine@.accounts == Map::<u16, Account>::empty(),
            engine@.transactions == Map::<u32, TransactionInfo>::empty(),
    {
        PaymentEngine::new()
    }
}

} // verus!
