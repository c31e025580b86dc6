//! Laws of the ledger state machine, proved once and for all over the
//! mathematical model.

use vstd::prelude::*;

use crate::accounts::{step, step_fits, LedgerModel};
use crate::transactions::{Transaction, TransactionType};

verus! {

/// Every transition keeps the balance identity: after any transaction whose
/// arithmetic stays in range, each account's total still equals its available
/// funds plus its held funds.
pub proof fn lemma_step_preserves_balance(m: LedgerModel, t: Transaction)
    requires
        m.wf(),
        t.valid(),
        step_fits(m, t),
        m.balanced(),
    ensures
        step(m, t).balanced(),
{
    let a0 = m.account_or_new(t.client);
    assert(a0.balanced());
    let m1 = step(m, t);
    assert forall|c: u16| #[trigger] m1.accounts.contains_key(c) implies m1.accounts[
        c
    ].balanced() by {
        if c != t.client {
            assert(m1.accounts[c] == m.accounts[c]);
            assert(m.accounts.contains_key(c));
        }
    }
}

/// Every client a record references has an account afterwards, even when the
/// record itself was a no-op for the balances; and a client first referenced
/// by a withdrawal, or by a dispute whose transaction id is unknown, appears
/// with all-zero balances.
pub proof fn lemma_referenced_client_appears(m: LedgerModel, t: Transaction)
    requires
        m.wf(),
        t.valid(),
    ensures
        step(m, t).accounts.contains_key(t.client),
        !m.accounts.contains_key(t.client) && (t.transaction_type is Withdrawal || (
        t.transaction_type is Dispute && !m.deposits.contains_key(t.tx))) ==> step(
            m,
            t,
        ).accounts[t.client] == crate::accounts::Account::initial(t.client),
{
}

/// Storing back the account a client already has changes nothing.
proof fn lemma_with_account_same(m: LedgerModel, a: crate::accounts::Account)
    requires
        m.accounts.contains_key(a.client),
        m.accounts[a.client] == a,
    ensures
        m.with_account(a) == m,
{
    assert(m.accounts.insert(a.client, a) =~= m.accounts);
}

/// A withdrawal that would take `available` below zero leaves the referenced
/// account, and all the bookkeeping, exactly as it was.
pub proof fn lemma_withdrawal_insufficient_is_no_op(m: LedgerModel, t: Transaction)
    requires
        m.wf(),
        t.valid(),
        t.transaction_type is Withdrawal,
        m.account_or_new(t.client).available < t.amount->0,
    ensures
        step(m, t).accounts[t.client] == m.account_or_new(t.client),
        step(m, t).deposits == m.deposits,
        step(m, t).disputes == m.disputes,
        m.accounts.contains_key(t.client) ==> step(m, t) == m,
{
    let a0 = m.account_or_new(t.client);
    if m.accounts.contains_key(t.client) {
        lemma_with_account_same(m, a0);
    }
}

/// Disputing the same transaction id twice is the same as disputing it once:
/// the replay changes nothing.
pub proof fn lemma_dispute_replay_is_no_op(m: LedgerModel, t: Transaction)
    requires
        m.wf(),
        t.transaction_type is Dispute,
    ensures
        step(step(m, t), t) == step(m, t),
{
    let m1 = step(m, t);
    let a0 = m.account_or_new(t.client);
    assert(a0.client == t.client);
    assert(m1.accounts.contains_key(t.client));
    lemma_with_account_same(m1, m1.accounts[t.client]);
}

/// A resolve or chargeback whose transaction id is not currently disputed is
/// a no-op: the state before and after is identical (up to materializing a
/// zeroed account for a client never seen before).
pub proof fn lemma_undisputed_resolve_chargeback_is_no_op(m: LedgerModel, t: Transaction)
    requires
        m.wf(),
        t.transaction_type is Resolve || t.transaction_type is Chargeback,
        !m.disputes.contains(t.tx),
    ensures
        step(m, t) == m.with_account(m.account_or_new(t.client)),
        m.accounts.contains_key(t.client) ==> step(m, t) == m,
{
    if m.accounts.contains_key(t.client) {
        lemma_with_account_same(m, m.account_or_new(t.client));
    }
}

} // verus!
