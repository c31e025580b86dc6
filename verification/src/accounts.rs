//! Accounts and the ledger state machine.
//!
//! `LedgerModel` is the mathematical state of the ledger; `step` says how a
//! single transaction record changes it. The executable `Ledger` is proved to
//! follow `step` exactly.

use vstd::prelude::*;

use crate::transactions::{Transaction, TransactionType};
use std::collections::HashMap;
use std::collections::HashSet;

verus! {

broadcast use {vstd::seq_lib::lemma_seq_contains_after_push, vstd::std_specs::hash::group_hash_axioms};

/// One client's balances and lock status. Balances count 1/10000 currency
/// units; a dispute raised against an already partly spent deposit can drive
/// `available` negative, so the fields are signed.
#[derive(Clone, Copy, Debug, PartialEq, Eq, Structural)]
pub struct Account {
    pub client: u16,
    pub available: i64,
    pub held: i64,
    pub total: i64,
    pub locked: bool,
}

impl Account {
    /// The zeroed account a fresh client starts from.
    pub open spec fn initial(client: u16) -> Account {
        Account { client, available: 0, held: 0, total: 0, locked: false }
    }

    /// The balance identity: the total is what is available plus what is held.
    pub open spec fn balanced(self) -> bool {
        self.total == self.available + self.held
    }

    pub fn new(client: u16) -> (account: Account)
        ensures
            account == Account::initial(client),
    {
        Account { client, available: 0, held: 0, total: 0, locked: false }
    }
}

/// The ledger's mathematical state: the accounts keyed by client, the order
/// in which accounts were created (the order of exported rows), the amount of
/// every deposit ever recorded, and the set of transaction ids currently under
/// dispute.
pub ghost struct LedgerModel {
    pub accounts: Map<u16, Account>,
    pub order: Seq<u16>,
    pub deposits: Map<u32, i64>,
    pub disputes: Set<u32>,
}

impl LedgerModel {
    pub open spec fn initial() -> LedgerModel {
        LedgerModel {
            accounts: Map::empty(),
            order: Seq::empty(),
            deposits: Map::empty(),
            disputes: Set::empty(),
        }
    }

    /// The account of `client`, or the zeroed account it would start from.
    pub open spec fn account_or_new(self, client: u16) -> Account {
        if self.accounts.contains_key(client) {
            self.accounts[client]
        } else {
            Account::initial(client)
        }
    }

    /// Store `account`, materializing it at the end of the row order if its
    /// client was never seen before.
    pub open spec fn with_account(self, account: Account) -> LedgerModel {
        LedgerModel {
            accounts: self.accounts.insert(account.client, account),
            order: if self.accounts.contains_key(account.client) {
                self.order
            } else {
                self.order.push(account.client)
            },
            deposits: self.deposits,
            disputes: self.disputes,
        }
    }

    /// The row order lists each known client exactly once.
    pub open spec fn wf(self) -> bool {
        &&& self.order.no_duplicates()
        &&& forall|c: u16|
            #![trigger self.accounts.contains_key(c)]
            #![trigger self.order.contains(c)]
            self.accounts.contains_key(c) <==> self.order.contains(c)
        &&& forall|c: u16| #[trigger] self.accounts.contains_key(c) ==> self.accounts[c].client == c
    }

    /// Every account satisfies the balance identity.
    pub open spec fn balanced(self) -> bool {
        forall|c: u16| #[trigger] self.accounts.contains_key(c) ==> self.accounts[c].balanced()
    }
}

pub open spec fn fits_i64(x: int) -> bool {
    i64::MIN <= x <= i64::MAX
}

/// One transition of the ledger state machine.
///
/// Every kind of record materializes the referenced client's account. A
/// deposit credits `available` and `total` and records the deposited amount
/// under its transaction id (a later deposit reusing the id overwrites it). A
/// withdrawal debits `available` and `total` unless that would take
/// `available` below zero, in which case it leaves the account unchanged. A
/// dispute against a known, not currently disputed deposit moves the original
/// deposited amount from `available` to `held`; a resolve moves it back; a
/// chargeback removes it from `held` and `total` and locks the account.
/// Dispute, resolve and chargeback referencing an unknown or wrongly staged
/// transaction id change no balances.
pub open spec fn step(m: LedgerModel, t: Transaction) -> LedgerModel {
    let a0 = m.account_or_new(t.client);
    match t.transaction_type {
        TransactionType::Deposit => {
            let amt = t.amount->0;
            let a1 = Account {
                client: a0.client,
                available: (a0.available + amt) as i64,
                held: a0.held,
                total: (a0.total + amt) as i64,
                locked: a0.locked,
            };
            let m1 = m.with_account(a1);
            LedgerModel {
                accounts: m1.accounts,
                order: m1.order,
                deposits: m.deposits.insert(t.tx, amt),
                disputes: m.disputes,
            }
        },
        TransactionType::Withdrawal => {
            let amt = t.amount->0;
            if a0.available >= amt {
                m.with_account(
                    Account {
                        client: a0.client,
                        available: (a0.available - amt) as i64,
                        held: a0.held,
                        total: (a0.total - amt) as i64,
                        locked: a0.locked,
                    },
                )
            } else {
                m.with_account(a0)
            }
        },
        TransactionType::Dispute => {
            if m.deposits.contains_key(t.tx) && !m.disputes.contains(t.tx) {
                let amt = m.deposits[t.tx];
                let a1 = Account {
                    client: a0.client,
                    available: (a0.available - amt) as i64,
                    held: (a0.held + amt) as i64,
                    total: a0.total,
                    locked: a0.locked,
                };
                let m1 = m.with_account(a1);
                LedgerModel {
                    accounts: m1.accounts,
                    order: m1.order,
                    deposits: m.deposits,
                    disputes: m.disputes.insert(t.tx),
                }
            } else {
                m.with_account(a0)
            }
        },
        TransactionType::Resolve => {
            if m.deposits.contains_key(t.tx) && m.disputes.contains(t.tx) {
                let amt = m.deposits[t.tx];
                let a1 = Account {
                    client: a0.client,
                    available: (a0.available + amt) as i64,
                    held: (a0.held - amt) as i64,
                    total: a0.total,
                    locked: a0.locked,
                };
                let m1 = m.with_account(a1);
                LedgerModel {
                    accounts: m1.accounts,
                    order: m1.order,
                    deposits: m.deposits,
                    disputes: m.disputes.remove(t.tx),
                }
            } else {
                m.with_account(a0)
            }
        },
        TransactionType::Chargeback => {
            if m.deposits.contains_key(t.tx) && m.disputes.contains(t.tx) {
                let amt = m.deposits[t.tx];
                let a1 = Account {
                    client: a0.client,
                    available: a0.available,
                    held: (a0.held - amt) as i64,
                    total: (a0.total - amt) as i64,
                    locked: true,
                };
                let m1 = m.with_account(a1);
                LedgerModel {
                    accounts: m1.accounts,
                    order: m1.order,
                    deposits: m.deposits,
                    disputes: m.disputes.remove(t.tx),
                }
            } else {
                m.with_account(a0)
            }
        },
    }
}

/// The arithmetic of `step(m, t)` stays within `i64`, so no balance is
/// truncated by the transition.
pub open spec fn step_fits(m: LedgerModel, t: Transaction) -> bool {
    let a0 = m.account_or_new(t.client);
    match t.transaction_type {
        TransactionType::Deposit => {
            let amt = t.amount->0;
            fits_i64(a0.available + amt) && fits_i64(a0.total + amt)
        },
        TransactionType::Withdrawal => {
            let amt = t.amount->0;
            a0.available >= amt ==> fits_i64(a0.available - amt) && fits_i64(a0.total - amt)
        },
        TransactionType::Dispute => (m.deposits.contains_key(t.tx) && !m.disputes.contains(t.tx))
            ==> {
            let amt = m.deposits[t.tx];
            fits_i64(a0.available - amt) && fits_i64(a0.held + amt)
        },
        TransactionType::Resolve => (m.deposits.contains_key(t.tx) && m.disputes.contains(t.tx))
            ==> {
            let amt = m.deposits[t.tx];
            fits_i64(a0.available + amt) && fits_i64(a0.held - amt)
        },
        TransactionType::Chargeback => (m.deposits.contains_key(t.tx) && m.disputes.contains(
            t.tx,
        )) ==> {
            let amt = m.deposits[t.tx];
            fits_i64(a0.total - amt) && fits_i64(a0.held - amt)
        },
    }
}

/// The ledger: all accounts plus the bookkeeping needed to stage disputes.
pub struct Ledger {
    accounts: HashMap<u16, Account>,
    clients: Vec<u16>,
    deposits: HashMap<u32, i64>,
    disputes: HashSet<u32>,
}

impl View for Ledger {
    type V = LedgerModel;

    closed spec fn view(&self) -> LedgerModel {
        LedgerModel {
            accounts: self.accounts@,
            order: self.clients@,
            deposits: self.deposits@,
            disputes: self.disputes@,
        }
    }
}

impl Ledger {
    pub open spec fn wf(self) -> bool {
        self@.wf()
    }

    pub fn new() -> (ledger: Ledger)
        ensures
            ledger.wf(),
            ledger@ == LedgerModel::initial(),
    {
        let ledger = Ledger {
            accounts: HashMap::new(),
            clients: Vec::new(),
            deposits: HashMap::new(),
            disputes: HashSet::new(),
        };
        proof {
            assert(ledger@ == LedgerModel::initial());
        }
        ledger
    }

    pub fn get(&self, client_id: u16) -> (account: Option<&Account>)
        ensures
            match account {
                Some(a) => self@.accounts.contains_key(client_id) && *a
                    == self@.accounts[client_id],
                None => !self@.accounts.contains_key(client_id),
            },
    {
        self.accounts.get(&client_id)
    }

    /// All accounts, one per client ever referenced, in creation order.
    pub fn accounts(&self) -> (accounts: Vec<Account>)
        requires
            self.wf(),
        ensures
            accounts@ == self@.order.map_values(|c: u16| self@.accounts[c]),
    {
        let mut out: Vec<Account> = Vec::new();
        let n = self.clients.len();
        let mut i: usize = 0;
        while i < n
            invariant
                self.wf(),
                n == self.clients@.len(),
                i <= n,
                out@ == self@.order.take(i as int).map_values(|c: u16| self@.accounts[c]),
            decreases n - i,
        {
            let c = self.clients[i];
            proof {
                assert(self@.order.contains(c)) by {
                    assert(self@.order[i as int] == c);
                }
            }
            let account = *self.accounts.get(&c).unwrap();
            out.push(account);
            proof {
                let f = |c2: u16| self@.accounts[c2];
                assert(self@.order.take(i + 1 as int) == self@.order.take(i as int).push(c)) by {
                    assert(self@.order.take(i + 1 as int) =~= self@.order.take(i as int).push(c));
                }
                assert(out@ =~= self@.order.take(i + 1 as int).map_values(f));
            }
            i = i + 1;
        }
        proof {
            assert(self@.order.take(n as int) =~= self@.order);
        }
        out
    }

    /// The account of `client_id`, or the zeroed account it would start from.
    fn read_account(&self, client_id: u16) -> (account: Account)
        ensures
            account == self@.account_or_new(client_id),
    {
        match self.accounts.get(&client_id) {
            Some(a) => *a,
            None => Account::new(client_id),
        }
    }

    /// Store `account`, materializing a row for a client seen for the first
    /// time.
    fn put_account(&mut self, account: Account)
        requires
            old(self).wf(),
        ensures
            final(self).wf(),
            final(self)@ == old(self)@.with_account(account),
    {
        let c = account.client;
        let had = self.accounts.contains_key(&c);
        if !had {
            self.clients.push(c);
        }
        self.accounts.insert(c, account);
        proof {
            let m0 = old(self)@;
            let m1 = self@;
            if !had {
                assert(!m0.order.contains(c));
                assert(m1.order == m0.order.push(c));
                assert forall|i: int, j: int| 0 <= i < j < m1.order.len() implies m1.order[i]
                    != m1.order[j] by {
                    if j == m0.order.len() as int {
                        assert(m1.order[j] == c);
                        if m0.order[i] == c {
                            assert(m0.order.contains(c));
                        }
                    }
                }
                assert(m1.order.no_duplicates());
            }
            assert forall|c2: u16|
                #![trigger m1.accounts.contains_key(c2)]
                #![trigger m1.order.contains(c2)]
                m1.accounts.contains_key(c2) <==> m1.order.contains(c2) by {
                if !had {
                    assert(m0.order.push(c).contains(c2) <==> c2 == c || m0.order.contains(c2));
                }
                assert(m1.accounts.contains_key(c2) <==> c2 == c || m0.accounts.contains_key(c2));
            }
            assert(m1 == m0.with_account(account));
        }
    }

    /// Apply one record to the ledger.
    pub fn process_transaction(&mut self, transaction: &Transaction)
        requires
            old(self).wf(),
            transaction.valid(),
            step_fits(old(self)@, *transaction),
        ensures
            final(self).wf(),
            final(self)@ == step(old(self)@, *transaction),
            old(self)@.balanced() ==> final(self)@.balanced(),
    {
        match transaction.transaction_type {
            TransactionType::Deposit => self.process_deposit(transaction),
            TransactionType::Withdrawal => self.process_withdrawal(transaction),
            TransactionType::Dispute => self.process_dispute(transaction),
            TransactionType::Resolve => self.process_resolve_dispute(transaction),
            TransactionType::Chargeback => self.process_chargeback(transaction),
        }
        proof {
            if old(self)@.balanced() {
                crate::laws::lemma_step_preserves_balance(old(self)@, *transaction);
            }
        }
    }

    fn process_deposit(&mut self, t: &Transaction)
        requires
            old(self).wf(),
            t.transaction_type is Deposit,
            t.valid(),
            step_fits(old(self)@, *t),
        ensures
            final(self).wf(),
            final(self)@ == step(old(self)@, *t),
    {
        let amount = t.amount.unwrap();
        let mut account = self.read_account(t.client);
        account.available = account.available + amount;
        account.total = account.total + amount;
        self.put_account(account);
        self.deposits.insert(t.tx, amount);
    }

    fn process_withdrawal(&mut self, t: &Transaction)
        requires
            old(self).wf(),
            t.transaction_type is Withdrawal,
            t.valid(),
            step_fits(old(self)@, *t),
        ensures
            final(self).wf(),
            final(self)@ == step(old(self)@, *t),
    {
        let amount = t.amount.unwrap();
        let mut account = self.read_account(t.client);
        if account.available >= amount {
            account.available = account.available - amount;
            account.total = account.total - amount;
        }
        self.put_account(account);
    }

    fn process_dispute(&mut self, t: &Transaction)
        requires
            old(self).wf(),
            t.transaction_type is Dispute,
            step_fits(old(self)@, *t),
        ensures
            final(self).wf(),
            final(self)@ == step(old(self)@, *t),
    {
        let mut account = self.read_account(t.client);
        let recorded = match self.deposits.get(&t.tx) {
            Some(a) => Some(*a),
            None => None,
        };
        if recorded.is_some() && !self.disputes.contains(&t.tx) {
            let amount = recorded.unwrap();
            account.available = account.available - amount;
            account.held = account.held + amount;
            self.put_account(account);
            self.disputes.insert(t.tx);
        } else {
            self.put_account(account);
        }
    }

    fn process_resolve_dispute(&mut self, t: &Transaction)
        requires
            old(self).wf(),
            t.transaction_type is Resolve,
            step_fits(old(self)@, *t),
        ensures
            final(self).wf(),
            final(self)@ == step(old(self)@, *t),
    {
        let mut account = self.read_account(t.client);
        let recorded = match self.deposits.get(&t.tx) {
            Some(a) => Some(*a),
            None => None,
        };
        if recorded.is_some() && self.disputes.contains(&t.tx) {
            let amount = recorded.unwrap();
            account.available = account.available + amount;
            account.held = account.held - amount;
            self.put_account(account);
            self.disputes.remove(&t.tx);
        } else {
            self.put_account(account);
        }
    }

    fn process_chargeback(&mut self, t: &Transaction)
        requires
            old(self).wf(),
            t.transaction_type is Chargeback,
            step_fits(old(self)@, *t),
        ensures
            final(self).wf(),
            final(self)@ == step(old(self)@, *t),
    {
        let mut account = self.read_account(t.client);
        let recorded = match self.deposits.get(&t.tx) {
            Some(a) => Some(*a),
            None => None,
        };
        if recorded.is_some() && self.disputes.contains(&t.tx) {
            let amount = recorded.unwrap();
            account.total = account.total - amount;
            account.held = account.held - amount;
            account.locked = true;
            self.put_account(account);
            self.disputes.remove(&t.tx);
        } else {
            self.put_account(account);
        }
    }

    /// Whether `transaction` is well-formed and applying it keeps every
    /// balance within the machine range.
    pub fn can_process(&self, transaction: &Transaction) -> (r: bool)
        ensures
            r == (transaction.valid() && step_fits(self@, *transaction)),
    {
        let account = self.read_account(transaction.client);
        match transaction.transaction_type {
            TransactionType::Deposit => {
                match transaction.amount {
                    None => false,
                    Some(amt) => amt >= 0 && in_i64(account.available as i128 + amt as i128)
                        && in_i64(account.total as i128 + amt as i128),
                }
            },
            TransactionType::Withdrawal => {
                match transaction.amount {
                    None => false,
                    Some(amt) => amt >= 0 && (account.available < amt || (in_i64(
                        account.available as i128 - amt as i128,
                    ) && in_i64(account.total as i128 - amt as i128))),
                }
            },
            TransactionType::Dispute => {
                match self.deposits.get(&transaction.tx) {
                    None => true,
                    Some(amount) => {
                        let amt = *amount;
                        self.disputes.contains(&transaction.tx) || (in_i64(
                            account.available as i128 - amt as i128,
                        ) && in_i64(account.held as i128 + amt as i128))
                    },
                }
            },
            TransactionType::Resolve => {
                match self.deposits.get(&transaction.tx) {
                    None => true,
                    Some(amount) => {
                        let amt = *amount;
                        !self.disputes.contains(&transaction.tx) || (in_i64(
                            account.available as i128 + amt as i128,
                        ) && in_i64(account.held as i128 - amt as i128))
                    },
                }
            },
            TransactionType::Chargeback => {
                match self.deposits.get(&transaction.tx) {
                    None => true,
                    Some(amount) => {
                        let amt = *amount;
                        !self.disputes.contains(&transaction.tx) || (in_i64(
                            account.total as i128 - amt as i128,
                        ) && in_i64(account.held as i128 - amt as i128))
                    },
                }
            },
        }
    }

    /// Apply one record if it is well-formed and its arithmetic stays in
    /// range; otherwise leave the ledger untouched and report it.
    pub fn try_process_transaction(&mut self, transaction: &Transaction) -> (applied: bool)
        requires
            old(self).wf(),
        ensures
            final(self).wf(),
            applied == (transaction.valid() && step_fits(old(self)@, *transaction)),
            applied ==> final(self)@ == step(old(self)@, *transaction),
            !applied ==> final(self)@ == old(self)@,
            old(self)@.balanced() ==> final(self)@.balanced(),
    {
        if self.can_process(transaction) {
            self.process_transaction(transaction);
            true
        } else {
            false
        }
    }
}

/// Whether an `i128` value is within the `i64` range.
fn in_i64(x: i128) -> (r: bool)
    ensures
        r == fits_i64(x as int),
{
    i64::MIN as i128 <= x && x <= i64::MAX as i128
}

} // verus!
