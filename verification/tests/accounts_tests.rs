// Amounts are fixed-point: 1/10000 currency units, so 12.34 is 123400.

use ledger::accounts::{Account, Ledger};
use ledger::transactions::{Transaction, TransactionType};

const CLIENT_ID: u16 = 1;

struct TxHandler {
    tx_counter: u32,
}

impl TxHandler {
    pub fn new() -> Self {
        Self { tx_counter: 1 }
    }

    fn process_generic(
        &mut self,
        ledger: &mut Ledger,
        transaction_type: TransactionType,
        transaction_id: Option<u32>,
        amount: Option<i64>,
    ) -> Option<u32> {
        let tx = transaction_id.unwrap_or(self.tx_counter);
        ledger.process_transaction(&Transaction {
            transaction_type,
            client: CLIENT_ID,
            tx,
            amount,
        });
        // increase tx id if one not provided
        if transaction_id.is_none() {
            self.tx_counter += 1;
            return Some(tx);
        }
        None
    }

    pub fn process_deposit(&mut self, ledger: &mut Ledger, amount: i64) -> u32 {
        self.process_generic(ledger, TransactionType::Deposit, None, Some(amount))
            .unwrap()
    }

    pub fn process_withdrawal(&mut self, ledger: &mut Ledger, amount: i64) -> u32 {
        self.process_generic(ledger, TransactionType::Withdrawal, None, Some(amount))
            .unwrap()
    }

    pub fn process_dispute(&mut self, ledger: &mut Ledger, transaction_id: u32) {
        self.process_generic(ledger, TransactionType::Dispute, Some(transaction_id), None);
    }

    pub fn process_resolve(&mut self, ledger: &mut Ledger, transaction_id: u32) {
        self.process_generic(ledger, TransactionType::Resolve, Some(transaction_id), None);
    }

    pub fn process_chargeback(&mut self, ledger: &mut Ledger, transaction_id: u32) {
        self.process_generic(
            ledger,
            TransactionType::Chargeback,
            Some(transaction_id),
            None,
        );
    }

    pub fn process_deposit_with_id(&mut self, ledger: &mut Ledger, tx: u32, amount: i64) {
        ledger.process_transaction(&Transaction {
            transaction_type: TransactionType::Deposit,
            client: CLIENT_ID,
            tx,
            amount: Some(amount),
        });
    }
}

fn assert_account_state(ledger: &Ledger, total: i64, available: i64, held: i64, locked: bool) {
    assert_eq!(
        *ledger.get(CLIENT_ID).unwrap(),
        Account {
            client: CLIENT_ID,
            total,
            available,
            held,
            locked,
        }
    );
}

#[test]
fn deposit_is_processed_correctly() {
    let mut ledger = Ledger::new();
    let mut handler = TxHandler::new();
    handler.process_deposit(&mut ledger, 123400);

    // check that funds are deposited correctly
    assert_account_state(&ledger, 123400, 123400, 0, false);
}

#[test]
fn withdrawal_is_processed_correctly() {
    let mut ledger = Ledger::new();

    let mut handler = TxHandler::new();
    handler.process_deposit(&mut ledger, 300000);
    handler.process_withdrawal(&mut ledger, 150000);

    // check that account balance is correct
    assert_account_state(&ledger, 150000, 150000, 0, false);

    // empty account funds
    handler.process_withdrawal(&mut ledger, 150000);

    // check that account is empty
    assert_account_state(&ledger, 0, 0, 0, false);

    handler.process_deposit(&mut ledger, 50000);
    // this withdrawal should be ignored as there aren't enough funds
    handler.process_withdrawal(&mut ledger, 500000);

    // check that deposit was successful but withdrawal failed
    assert_account_state(&ledger, 50000, 50000, 0, false);
}

#[test]
fn dispute_is_processed_correctly() {
    let mut ledger = Ledger::new();

    let mut handler = TxHandler::new();
    let tx1 = handler.process_deposit(&mut ledger, 200000);
    handler.process_deposit(&mut ledger, 300000);
    assert_account_state(&ledger, 500000, 500000, 0, false);

    // dispute TX 1
    handler.process_dispute(&mut ledger, tx1);

    // check that funds from deposit were held
    assert_account_state(&ledger, 500000, 300000, 200000, false);

    // dispute TX 1 again, this should be ignored
    handler.process_dispute(&mut ledger, tx1);

    // dispute invalid TX ID, this should be ignored as well
    handler.process_dispute(&mut ledger, 100);

    // check that account state is unchanged
    assert_account_state(&ledger, 500000, 300000, 200000, false);
}

#[test]
fn resolve_dispute_is_processed_correctly() {
    let mut ledger = Ledger::new();

    let mut handler = TxHandler::new();
    let tx1 = handler.process_deposit(&mut ledger, 200000);
    handler.process_deposit(&mut ledger, 300000);

    // dispute TX 1
    handler.process_dispute(&mut ledger, tx1);

    // check that funds from deposit were held
    assert_account_state(&ledger, 500000, 300000, 200000, false);

    // resolve dispute for TX 1
    handler.process_resolve(&mut ledger, tx1);

    // check that funds were released
    assert_account_state(&ledger, 500000, 500000, 0, false);

    // resolve dispute for TX 1 again, should be ignored
    handler.process_resolve(&mut ledger, tx1);

    // resolve dispute for invalid TX ID, should be ignored
    handler.process_resolve(&mut ledger, 100);

    // check that account state is unchanged
    assert_account_state(&ledger, 500000, 500000, 0, false);
}

#[test]
fn chargeback_is_processed_correctly() {
    let mut ledger = Ledger::new();

    let mut handler = TxHandler::new();
    let tx1 = handler.process_deposit(&mut ledger, 200000);
    handler.process_deposit(&mut ledger, 300000);

    // dispute TX 1
    handler.process_dispute(&mut ledger, tx1);

    // check that funds from deposit were held
    assert_account_state(&ledger, 500000, 300000, 200000, false);

    // chargeback for TX 1
    handler.process_chargeback(&mut ledger, tx1);

    // check that funds were charged back and account is locked
    assert_account_state(&ledger, 300000, 300000, 0, true);
}

#[test]
fn dispute_can_be_reopened_after_resolve() {
    let mut ledger = Ledger::new();
    let mut handler = TxHandler::new();
    let tx1 = handler.process_deposit(&mut ledger, 200000);

    handler.process_dispute(&mut ledger, tx1);
    handler.process_resolve(&mut ledger, tx1);
    // the deposit record survives resolution, so it can be disputed again
    handler.process_dispute(&mut ledger, tx1);
    assert_account_state(&ledger, 200000, 0, 200000, false);
}

#[test]
fn later_deposit_reusing_tx_id_overwrites_recorded_amount() {
    let mut ledger = Ledger::new();
    let mut handler = TxHandler::new();
    let tx1 = handler.process_deposit(&mut ledger, 100000);
    handler.process_deposit_with_id(&mut ledger, tx1, 200000);

    handler.process_dispute(&mut ledger, tx1);
    // the dispute freezes the overwritten amount
    assert_account_state(&ledger, 300000, 100000, 200000, false);
}

#[test]
fn dispute_of_partly_spent_deposit_drives_available_negative() {
    let mut ledger = Ledger::new();
    let mut handler = TxHandler::new();
    let tx1 = handler.process_deposit(&mut ledger, 50000);
    handler.process_withdrawal(&mut ledger, 25000);

    // the dispute always moves the originally deposited amount
    handler.process_dispute(&mut ledger, tx1);
    assert_account_state(&ledger, 25000, -25000, 50000, false);
}

#[test]
fn locked_account_still_accepts_transactions() {
    let mut ledger = Ledger::new();
    let mut handler = TxHandler::new();
    let tx1 = handler.process_deposit(&mut ledger, 100000);
    handler.process_dispute(&mut ledger, tx1);
    handler.process_chargeback(&mut ledger, tx1);
    assert_account_state(&ledger, 0, 0, 0, true);

    // locking is a reporting flag, not an enforcement gate
    handler.process_deposit(&mut ledger, 50000);
    assert_account_state(&ledger, 50000, 50000, 0, true);
}

#[test]
fn overflowing_deposit_is_rejected_and_ledger_unchanged() {
    let mut ledger = Ledger::new();
    let t1 = Transaction {
        transaction_type: TransactionType::Deposit,
        client: 1,
        tx: 1,
        amount: Some(i64::MAX),
    };
    assert!(ledger.can_process(&t1));
    assert!(ledger.try_process_transaction(&t1));

    // a second maximal deposit would overflow and must leave the state alone
    let t2 = Transaction {
        transaction_type: TransactionType::Deposit,
        client: 1,
        tx: 2,
        amount: Some(i64::MAX),
    };
    assert!(!ledger.can_process(&t2));
    assert!(!ledger.try_process_transaction(&t2));
    assert_account_state(&ledger, i64::MAX, i64::MAX, 0, false);
}
