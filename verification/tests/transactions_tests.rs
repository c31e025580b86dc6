use ledger::transactions::{CsvError, Transaction, TransactionParser, TransactionType};

// sample CSV data with one of each type
const SAMPLE_DATA: &str = "\
type,client,tx,amount
deposit,1,1,1.0
withdrawal,1,4,1.5
dispute,1,1,
resolve,1,1,
chargeback,1,1,
";

// test that all transactions types are parsed correctly from CSV format
#[test]
fn transactions_parser_returns_correct_operations() {
    let parser = TransactionParser::new(SAMPLE_DATA.as_bytes());

    let expected = vec![
        Transaction {
            transaction_type: TransactionType::Deposit,
            client: 1,
            tx: 1,
            amount: Some(10000),
        },
        Transaction {
            transaction_type: TransactionType::Withdrawal,
            client: 1,
            tx: 4,
            amount: Some(15000),
        },
        Transaction {
            transaction_type: TransactionType::Dispute,
            client: 1,
            tx: 1,
            amount: None,
        },
        Transaction {
            transaction_type: TransactionType::Resolve,
            client: 1,
            tx: 1,
            amount: None,
        },
        Transaction {
            transaction_type: TransactionType::Chargeback,
            client: 1,
            tx: 1,
            amount: None,
        },
    ];

    assert_eq!(parser.parse_all().unwrap(), expected);
}

#[test]
fn parser_rejects_record_before_returning_any() {
    let parser = TransactionParser::new(b"type,client,tx,amount\ndeposit,1,1,5\nnope,2,2,\n");
    assert_eq!(parser.parse_all(), Err(CsvError::BadKind));
}

#[test]
fn parser_skips_blank_lines() {
    let parser = TransactionParser::new(b"type,client,tx,amount\n\ndeposit,1,1,5\n\n");
    assert_eq!(parser.parse_all().unwrap().len(), 1);
}

#[test]
fn amount_on_dispute_record_is_carried_but_ignored() {
    let parser = TransactionParser::new(b"type,client,tx,amount\ndispute,1,1,2.5\n");
    let ts = parser.parse_all().unwrap();
    assert_eq!(ts[0].amount, Some(25000));
}
