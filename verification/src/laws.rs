//! Engine-level laws: properties of the spec-level transition function
//! [`spec_process`] that hold for every input, proved once and for all.
//! `PaymentEngine::process` ensures `self@ == spec_process(old(self)@, r)`,
//! so each law transfers to every run of the executable engine.
use vstd::prelude::*;
use crate::engine::{spec_process, spec_process_ok, EngineView};
use crate::models::{spec_output_record, Account, InputRecord};

verus! {

/// The reported total of an account is exactly the sum of its available and
/// held balances.
pub proof fn lemma_total_is_sum(a: Account)
    requires
        a.wf(),
    ensures
        spec_output_record(a).total == a.available + a.held,
{
}

/// `locked` is monotonic: once an account is locked, no record whatsoever
/// can unlock it.
pub proof fn lemma_locked_monotonic(v: EngineView, r: InputRecord)
    ensures
        forall|c: u16| #![trigger v.accounts.contains_key(c)]
            v.accounts.contains_key(c) && v.accounts[c].locked
                ==> spec_process(v, r).accounts.contains_key(c)
                    && spec_process(v, r).accounts[c].locked,
{
}

/// The state after processing a whole sequence of records in arrival order.
pub open spec fn spec_process_seq(v: EngineView, rs: Seq<InputRecord>) -> EngineView
    decreases rs.len(),
{
    if rs.len() == 0 {
        v
    } else {
        spec_process(spec_process_seq(v, rs.drop_last()), rs.last())
    }
}

/// `locked` is monotonic over a whole run: an account locked at any point
/// stays locked for the remainder of the record stream.
pub proof fn lemma_locked_monotonic_run(v: EngineView, rs: Seq<InputRecord>)
    ensures
        forall|c: u16| #![trigger v.accounts.contains_key(c)]
            v.accounts.contains_key(c) && v.accounts[c].locked
                ==> spec_process_seq(v, rs).accounts.contains_key(c)
                    && spec_process_seq(v, rs).accounts[c].locked,
    decreases rs.len(),
{
    if rs.len() > 0 {
        lemma_locked_monotonic_run(v, rs.drop_last());
        lemma_locked_monotonic(spec_process_seq(v, rs.drop_last()), rs.last());
    }
}

/// Re-processing a dispute against an already-disputed transaction is a
/// complete no-op: neither the accounts nor the ledger change.
pub proof fn lemma_dispute_idempotent(v: EngineView, r: InputRecord)
    requires
        (r.record_type is Dispute),
        v.transactions.contains_key(r.tx_id),
        (v.transactions[r.tx_id].state is Disputed),
    ensures
        spec_process(v, r) == v,
{
}

/// A deposit or withdrawal whose transaction id is already indexed is fully
/// ignored: it succeeds, changes no balance, and overwrites no ledger entry.
pub proof fn lemma_duplicate_ignored(v: EngineView, r: InputRecord)
    requires
        (r.record_type is Deposit) || (r.record_type is Withdrawal),
        v.transactions.contains_key(r.tx_id),
    ensures
        spec_process(v, r) == v,
        spec_process_ok(v, r),
{
}

/// Round trip: a successful dispute followed directly by its resolve
/// restores every account — in particular the disputed client's `available`
/// and `held` — to its exact pre-dispute value; only the ledger entry is
/// consumed.
pub proof fn lemma_dispute_resolve_round_trip(
    v: EngineView,
    dispute: InputRecord,
    resolve: InputRecord,
)
    requires
        v.wf(),
        (dispute.record_type is Dispute),
        (resolve.record_type is Resolve),
        resolve.tx_id == dispute.tx_id,
        v.transactions.contains_key(dispute.tx_id),
        (v.transactions[dispute.tx_id].state is Normal),
        // the dispute itself succeeds: the account is not locked and the
        // disputed funds are still available
        !v.accounts[v.transactions[dispute.tx_id].client_id].locked,
        v.accounts[v.transactions[dispute.tx_id].client_id].available
            >= v.transactions[dispute.tx_id].amount,
    ensures
        spec_process(spec_process(v, dispute), resolve).accounts == v.accounts,
        spec_process(spec_process(v, dispute), resolve).transactions == v.transactions.remove(
            dispute.tx_id,
        ),
{
    let info = v.transactions[dispute.tx_id];
    let c = info.client_id;
    let a = v.accounts[c];
    let mid = spec_process(v, dispute);
    let post = spec_process(mid, resolve);
    assert(v.accounts.contains_key(c));
    assert(a.wf());
    assert(mid.accounts[c].held == a.held + info.amount);
    assert(post.accounts[c] == a);
    assert(post.accounts =~= v.accounts);
    assert(post.transactions =~= v.transactions.remove(dispute.tx_id));
}

} // verus!

