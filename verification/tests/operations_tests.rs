use ledger::accounts::{Account, Ledger};
use ledger::operations::{update_ledger_from_csv, write_ledger_to_csv};
use ledger::transactions::{CsvError, Transaction, TransactionType};

// sample CSV data to parse
const SAMPLE_DATA: &str = "\
type,client,tx,amount
deposit,1,1,50
withdrawal,1,2,12.50
deposit,2,3,25
dispute,2,3,
resolve,2,3,
deposit,3,4,15
dispute,3,4,
chargeback,3,4,
";

// test that all transactions types are parsed correctly from CSV format
#[test]
fn transaction_are_parsed_correctly_into_ledger() {
    let mut ledger = Ledger::new();

    // parse transactions
    update_ledger_from_csv(&mut ledger, SAMPLE_DATA.as_bytes()).unwrap();

    // deposit - withdrawal
    assert_eq!(
        *ledger.get(1).unwrap(),
        Account {
            client: 1,
            total: 375000,
            available: 375000,
            held: 0,
            locked: false,
        }
    );

    // dispute with resolution
    assert_eq!(
        *ledger.get(2).unwrap(),
        Account {
            client: 2,
            total: 250000,
            available: 250000,
            held: 0,
            locked: false,
        }
    );

    // dispute with chargeback
    assert_eq!(
        *ledger.get(3).unwrap(),
        Account {
            client: 3,
            total: 0,
            available: 0,
            held: 0,
            locked: true,
        }
    );
}

// expected CSV data with precision of four places past the decimal
const EXPECTED_CSV: &str = "\
client,available,held,total,locked
1,1.2346,0.0000,1.2346,false
";

// test that the ledger is exported with four decimal places
#[test]
fn ledger_exports_to_csv_correctly() {
    let mut ledger = Ledger::new();
    ledger.process_transaction(&Transaction {
        transaction_type: TransactionType::Deposit,
        client: 1,
        tx: 1,
        // 1.23456789 rounded at the fourth decimal place
        amount: Some(12346),
    });

    let data = String::from_utf8(write_ledger_to_csv(&ledger)).unwrap();
    assert_eq!(data, EXPECTED_CSV);
}

#[test]
fn deposit_then_export_round_trips_long_amount() {
    // the full round trip: a deposit of 1.23456789 exports as 1.2346
    let data = "type,client,tx,amount\ndeposit,1,1,1.23456789\n";
    let mut ledger = Ledger::new();
    update_ledger_from_csv(&mut ledger, data.as_bytes()).unwrap();
    let out = String::from_utf8(write_ledger_to_csv(&ledger)).unwrap();
    assert_eq!(out, EXPECTED_CSV);
}

#[test]
fn unknown_client_appears_zeroed_in_output() {
    let data = "type,client,tx,amount\nwithdrawal,7,1,5\ndispute,8,9,\n";
    let mut ledger = Ledger::new();
    update_ledger_from_csv(&mut ledger, data.as_bytes()).unwrap();
    let out = String::from_utf8(write_ledger_to_csv(&ledger)).unwrap();
    assert_eq!(
        out,
        "client,available,held,total,locked\n\
         7,0.0000,0.0000,0.0000,false\n\
         8,0.0000,0.0000,0.0000,false\n"
    );
}

#[test]
fn negative_available_is_exported_with_sign() {
    let data = "type,client,tx,amount\ndeposit,1,1,5\nwithdrawal,1,2,2.5\ndispute,1,1,\n";
    let mut ledger = Ledger::new();
    update_ledger_from_csv(&mut ledger, data.as_bytes()).unwrap();
    let out = String::from_utf8(write_ledger_to_csv(&ledger)).unwrap();
    assert_eq!(
        out,
        "client,available,held,total,locked\n1,-2.5000,5.0000,2.5000,false\n"
    );
}

#[test]
fn empty_input_yields_header_only_output() {
    let mut ledger = Ledger::new();
    update_ledger_from_csv(&mut ledger, b"").unwrap();
    let out = String::from_utf8(write_ledger_to_csv(&ledger)).unwrap();
    assert_eq!(out, "client,available,held,total,locked\n");
}

#[test]
fn header_only_input_yields_no_accounts() {
    let mut ledger = Ledger::new();
    update_ledger_from_csv(&mut ledger, b"type,client,tx,amount\n").unwrap();
    assert!(ledger.accounts().is_empty());
}

#[test]
fn crlf_line_endings_are_accepted() {
    let data = "type,client,tx,amount\r\ndeposit,1,1,2\r\n";
    let mut ledger = Ledger::new();
    update_ledger_from_csv(&mut ledger, data.as_bytes()).unwrap();
    assert_eq!(ledger.get(1).unwrap().available, 20000);
}

#[test]
fn kind_matches_case_insensitively() {
    let data = "type,client,tx,amount\nDEPOSIT,1,1,2\nWithdrawal,1,2,1\n";
    let mut ledger = Ledger::new();
    update_ledger_from_csv(&mut ledger, data.as_bytes()).unwrap();
    assert_eq!(ledger.get(1).unwrap().available, 10000);
}

#[test]
fn bad_header_is_fatal() {
    let mut ledger = Ledger::new();
    let r = update_ledger_from_csv(&mut ledger, b"kind,client,tx,amount\ndeposit,1,1,2\n");
    assert_eq!(r, Err(CsvError::BadHeader));
}

#[test]
fn wrong_field_count_is_fatal() {
    let mut ledger = Ledger::new();
    let r = update_ledger_from_csv(&mut ledger, b"type,client,tx,amount\ndeposit,1,1\n");
    assert_eq!(r, Err(CsvError::BadRecord));
}

#[test]
fn unknown_kind_is_fatal() {
    let mut ledger = Ledger::new();
    let r = update_ledger_from_csv(&mut ledger, b"type,client,tx,amount\ntransfer,1,1,2\n");
    assert_eq!(r, Err(CsvError::BadKind));
}

#[test]
fn bad_client_is_fatal() {
    let mut ledger = Ledger::new();
    let r = update_ledger_from_csv(&mut ledger, b"type,client,tx,amount\ndeposit,70000,1,2\n");
    assert_eq!(r, Err(CsvError::BadClient));
}

#[test]
fn bad_tx_is_fatal() {
    let mut ledger = Ledger::new();
    let r = update_ledger_from_csv(&mut ledger, b"type,client,tx,amount\ndeposit,1,x,2\n");
    assert_eq!(r, Err(CsvError::BadTx));
}

#[test]
fn bad_amount_is_fatal() {
    let mut ledger = Ledger::new();
    let r = update_ledger_from_csv(&mut ledger, b"type,client,tx,amount\ndeposit,1,1,1.2.3\n");
    assert_eq!(r, Err(CsvError::BadAmount));
}

#[test]
fn missing_amount_on_deposit_is_fatal() {
    let mut ledger = Ledger::new();
    let r = update_ledger_from_csv(&mut ledger, b"type,client,tx,amount\ndeposit,1,1,\n");
    assert_eq!(r, Err(CsvError::MissingAmount));
}

#[test]
fn error_aborts_without_applying_anything() {
    let mut ledger = Ledger::new();
    let r = update_ledger_from_csv(
        &mut ledger,
        b"type,client,tx,amount\ndeposit,1,1,2\nbroken,1,2,3\n",
    );
    assert_eq!(r, Err(CsvError::BadKind));
    // parsing happens before processing, so nothing was applied
    assert!(ledger.get(1).is_none());
}

#[test]
fn overflowing_run_reports_amount_overflow() {
    // two maximal deposits: the first fills the account, the second would
    // overflow the balance and aborts the run
    let data = "type,client,tx,amount\n\
                deposit,1,1,922337203685477.5807\n\
                deposit,1,2,922337203685477.5807\n";
    let mut ledger = Ledger::new();
    let r = update_ledger_from_csv(&mut ledger, data.as_bytes());
    assert_eq!(r, Err(CsvError::AmountOverflow));
    assert_eq!(ledger.get(1).unwrap().available, i64::MAX);
}
