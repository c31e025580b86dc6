//! Transaction records: the five kinds of operation the ledger understands.
//!
//! Monetary amounts are fixed-point integers counting 1/10000 of a currency
//! unit, so the value `12346` stands for `1.2346`.

use vstd::prelude::*;

use crate::amount::{parse_amount, parse_uint, spec_parse_amount, spec_parse_uint};
use crate::csvtext::{lemma_split_len, spec_split, split_bytes};

verus! {

/// The kind of a transaction record.
#[derive(Clone, Copy, Debug, PartialEq, Eq, Structural)]
pub enum TransactionType {
    Deposit,
    Withdrawal,
    Dispute,
    Resolve,
    Chargeback,
}

/// One record of the input stream.
///
/// `amount` is present for deposits and withdrawals and carries the number of
/// 1/10000 currency units. Dispute, resolve and chargeback records reference a
/// prior deposit through `tx` and ignore `amount`.
#[derive(Clone, Copy, Debug)]
pub struct Transaction {
    pub transaction_type: TransactionType,
    pub client: u16,
    pub tx: u32,
    pub amount: Option<i64>,
}

impl Transaction {
    /// A well-formed record: deposits and withdrawals carry a non-negative
    /// amount (the record source must guarantee this much).
    pub open spec fn valid(self) -> bool {
        (self.transaction_type is Deposit || self.transaction_type is Withdrawal) ==> (
            self.amount is Some && 0 <= self.amount->0
        )
    }
}

impl PartialEq for Transaction {
    fn eq(&self, other: &Transaction) -> (r: bool) {
        let amount_eq = match (self.amount, other.amount) {
            (Some(a), Some(b)) => a == b,
            (None, None) => true,
            _ => false,
        };
        self.transaction_type == other.transaction_type && self.client == other.client
            && self.tx == other.tx && amount_eq
    }
}

impl vstd::std_specs::cmp::PartialEqSpecImpl for Transaction {
    open spec fn obeys_eq_spec() -> bool {
        true
    }

    open spec fn eq_spec(&self, other: &Transaction) -> bool {
        self.transaction_type == other.transaction_type && self.client == other.client
            && self.tx == other.tx && self.amount == other.amount
    }
}

/// Why an input text was rejected. Any of these aborts the run; business
/// rule rejections (insufficient funds, wrongly staged disputes) are not
/// errors and never surface here.
#[derive(Clone, Copy, Debug, PartialEq, Eq, Structural)]
pub enum CsvError {
    /// The first line is not the expected column header.
    BadHeader,
    /// A record does not have exactly the header's four fields.
    BadRecord,
    /// The kind field names no known transaction kind.
    BadKind,
    /// The client field is not a decimal client identifier.
    BadClient,
    /// The tx field is not a decimal transaction identifier.
    BadTx,
    /// The amount field is not a decimal amount in range.
    BadAmount,
    /// A deposit or withdrawal record has an empty amount field.
    MissingAmount,
    /// Applying a record would take a balance outside the machine range.
    AmountOverflow,
}

/// A line with its trailing carriage return, if any, removed.
pub open spec fn spec_clean_line(l: Seq<u8>) -> Seq<u8> {
    if l.len() > 0 && l.last() == 13 {
        l.drop_last()
    } else {
        l
    }
}

/// Lines cleaned of trailing carriage returns, empty lines dropped.
pub open spec fn spec_clean_lines(ls: Seq<Seq<u8>>) -> Seq<Seq<u8>>
    decreases ls.len(),
{
    if ls.len() == 0 {
        Seq::empty()
    } else {
        let r = spec_clean_lines(ls.drop_last());
        let c = spec_clean_line(ls.last());
        if c.len() == 0 {
            r
        } else {
            r.push(c)
        }
    }
}

/// The nonempty lines of the input text.
pub open spec fn spec_lines(text: Seq<u8>) -> Seq<Seq<u8>> {
    spec_clean_lines(spec_split(text, 10))
}

/// Uppercase ASCII folded to lowercase.
pub open spec fn spec_lower(b: u8) -> u8 {
    if 65 <= b <= 90 {
        (b + 32) as u8
    } else {
        b
    }
}

/// `s` equals the lowercase keyword `kw` up to ASCII case.
pub open spec fn matches_kw(s: Seq<u8>, kw: Seq<u8>) -> bool {
    s.len() == kw.len() && forall|i: int| 0 <= i < s.len() ==> spec_lower(#[trigger] s[i]) == kw[i]
}

pub open spec fn kw_deposit() -> Seq<u8> {
    seq![100u8, 101, 112, 111, 115, 105, 116]
}

pub open spec fn kw_withdrawal() -> Seq<u8> {
    seq![119u8, 105, 116, 104, 100, 114, 97, 119, 97, 108]
}

pub open spec fn kw_dispute() -> Seq<u8> {
    seq![100u8, 105, 115, 112, 117, 116, 101]
}

pub open spec fn kw_resolve() -> Seq<u8> {
    seq![114u8, 101, 115, 111, 108, 118, 101]
}

pub open spec fn kw_chargeback() -> Seq<u8> {
    seq![99u8, 104, 97, 114, 103, 101, 98, 97, 99, 107]
}

/// The kind a kind field names, matched case-insensitively.
pub open spec fn spec_kind_of(s: Seq<u8>) -> Option<TransactionType> {
    if matches_kw(s, kw_deposit()) {
        Some(TransactionType::Deposit)
    } else if matches_kw(s, kw_withdrawal()) {
        Some(TransactionType::Withdrawal)
    } else if matches_kw(s, kw_dispute()) {
        Some(TransactionType::Dispute)
    } else if matches_kw(s, kw_resolve()) {
        Some(TransactionType::Resolve)
    } else if matches_kw(s, kw_chargeback()) {
        Some(TransactionType::Chargeback)
    } else {
        None
    }
}

pub open spec fn spec_client_of(s: Seq<u8>) -> Option<u16> {
    match spec_parse_uint(s) {
        Some(v) => if v <= u16::MAX as u64 {
            Some(v as u16)
        } else {
            None
        },
        None => None,
    }
}

pub open spec fn spec_tx_of(s: Seq<u8>) -> Option<u32> {
    match spec_parse_uint(s) {
        Some(v) => if v <= u32::MAX as u64 {
            Some(v as u32)
        } else {
            None
        },
        None => None,
    }
}

/// The expected header columns, in order.
pub open spec fn spec_header_fields() -> Seq<Seq<u8>> {
    seq![
        seq![116u8, 121, 112, 101],
        seq![99u8, 108, 105, 101, 110, 116],
        seq![116u8, 120],
        seq![97u8, 109, 111, 117, 110, 116],
    ]
}

/// The transaction one record line describes, or why it is rejected.
pub open spec fn spec_record(line: Seq<u8>) -> Result<Transaction, CsvError> {
    let fs = spec_split(line, 44);
    if fs.len() != 4 {
        Err(CsvError::BadRecord)
    } else if spec_kind_of(fs[0]) is None {
        Err(CsvError::BadKind)
    } else if spec_client_of(fs[1]) is None {
        Err(CsvError::BadClient)
    } else if spec_tx_of(fs[2]) is None {
        Err(CsvError::BadTx)
    } else {
        let kind = spec_kind_of(fs[0])->0;
        let client = spec_client_of(fs[1])->0;
        let tx = spec_tx_of(fs[2])->0;
        if fs[3].len() == 0 {
            if kind is Deposit || kind is Withdrawal {
                Err(CsvError::MissingAmount)
            } else {
                Ok(Transaction { transaction_type: kind, client, tx, amount: None })
            }
        } else {
            match spec_parse_amount(fs[3]) {
                None => Err(CsvError::BadAmount),
                Some(a) => Ok(
                    Transaction { transaction_type: kind, client, tx, amount: Some(a) },
                ),
            }
        }
    }
}

/// The transactions of the record lines, in order; the first rejected line
/// rejects the whole text.
pub open spec fn spec_records(lines: Seq<Seq<u8>>) -> Result<Seq<Transaction>, CsvError>
    decreases lines.len(),
{
    if lines.len() == 0 {
        Ok(Seq::empty())
    } else {
        match spec_records(lines.drop_last()) {
            Err(e) => Err(e),
            Ok(ts) => match spec_record(lines.last()) {
                Err(e) => Err(e),
                Ok(t) => Ok(ts.push(t)),
            },
        }
    }
}

/// What the whole input text parses to: an empty text holds no records, and
/// any other text must open with the column header.
pub open spec fn spec_parse_transactions(text: Seq<u8>) -> Result<Seq<Transaction>, CsvError> {
    let lines = spec_lines(text);
    if lines.len() == 0 {
        Ok(Seq::empty())
    } else if spec_split(lines[0], 44) != spec_header_fields() {
        Err(CsvError::BadHeader)
    } else {
        spec_records(lines.drop_first())
    }
}

/// An error in a prefix of the lines rejects every extension of it the same
/// way.
proof fn lemma_records_prefix_err(lines: Seq<Seq<u8>>, m: int)
    requires
        0 <= m <= lines.len(),
        spec_records(lines.take(m)) is Err,
    ensures
        spec_records(lines) == spec_records(lines.take(m)),
    decreases lines.len() - m,
{
    if m < lines.len() {
        assert(lines.take(m + 1).drop_last() =~= lines.take(m));
        lemma_records_prefix_err(lines, m + 1);
    } else {
        assert(lines.take(m) =~= lines);
    }
}

fn lower_byte(b: u8) -> (r: u8)
    ensures
        r == spec_lower(b),
{
    if 65 <= b && b <= 90 {
        b + 32
    } else {
        b
    }
}

fn matches_keyword(s: &[u8], kw: &[u8]) -> (r: bool)
    ensures
        r == matches_kw(s@, kw@),
{
    let n = s.len();
    if n != kw.len() {
        return false;
    }
    let mut i: usize = 0;
    while i < n
        invariant
            i <= n,
            n == s@.len() == kw@.len(),
            forall|j: int| 0 <= j < i ==> spec_lower(#[trigger] s@[j]) == kw@[j],
        decreases n - i,
    {
        if lower_byte(s[i]) != kw[i] {
            return false;
        }
        i = i + 1;
    }
    true
}

fn eq_bytes(a: &[u8], b: &[u8]) -> (r: bool)
    ensures
        r == (a@ == b@),
{
    let n = a.len();
    if n != b.len() {
        return false;
    }
    let mut i: usize = 0;
    while i < n
        invariant
            i <= n,
            n == a@.len() == b@.len(),
            forall|j: int| 0 <= j < i ==> #[trigger] a@[j] == b@[j],
        decreases n - i,
    {
        if a[i] != b[i] {
            return false;
        }
        i = i + 1;
    }
    proof {
        assert(a@ =~= b@);
    }
    true
}

fn kind_of(f: &[u8]) -> (r: Option<TransactionType>)
    ensures
        r == spec_kind_of(f@),
{
    let deposit: [u8; 7] = [100, 101, 112, 111, 115, 105, 116];
    let withdrawal: [u8; 10] = [119, 105, 116, 104, 100, 114, 97, 119, 97, 108];
    let dispute: [u8; 7] = [100, 105, 115, 112, 117, 116, 101];
    let resolve: [u8; 7] = [114, 101, 115, 111, 108, 118, 101];
    let chargeback: [u8; 10] = [99, 104, 97, 114, 103, 101, 98, 97, 99, 107];
    proof {
        assert(deposit@ =~= kw_deposit());
        assert(withdrawal@ =~= kw_withdrawal());
        assert(dispute@ =~= kw_dispute());
        assert(resolve@ =~= kw_resolve());
        assert(chargeback@ =~= kw_chargeback());
    }
    if matches_keyword(f, deposit.as_slice()) {
        Some(TransactionType::Deposit)
    } else if matches_keyword(f, withdrawal.as_slice()) {
        Some(TransactionType::Withdrawal)
    } else if matches_keyword(f, dispute.as_slice()) {
        Some(TransactionType::Dispute)
    } else if matches_keyword(f, resolve.as_slice()) {
        Some(TransactionType::Resolve)
    } else if matches_keyword(f, chargeback.as_slice()) {
        Some(TransactionType::Chargeback)
    } else {
        None
    }
}

fn parse_client(f: &[u8]) -> (r: Option<u16>)
    ensures
        r == spec_client_of(f@),
{
    match parse_uint(f) {
        Some(v) => if v <= u16::MAX as u64 {
            Some(v as u16)
        } else {
            None
        },
        None => None,
    }
}

fn parse_tx(f: &[u8]) -> (r: Option<u32>)
    ensures
        r == spec_tx_of(f@),
{
    match parse_uint(f) {
        Some(v) => if v <= u32::MAX as u64 {
            Some(v as u32)
        } else {
            None
        },
        None => None,
    }
}

/// Parse one record line.
fn parse_record(line: &[u8]) -> (r: Result<Transaction, CsvError>)
    ensures
        r == spec_record(line@),
{
    let fs = split_bytes(line, 44);
    proof {
        lemma_split_len(line@, 44);
    }
    if fs.len() != 4 {
        return Err(CsvError::BadRecord);
    }
    let kind = match kind_of(fs[0].as_slice()) {
        Some(k) => k,
        None => {
            return Err(CsvError::BadKind);
        },
    };
    let client = match parse_client(fs[1].as_slice()) {
        Some(c) => c,
        None => {
            return Err(CsvError::BadClient);
        },
    };
    let tx = match parse_tx(fs[2].as_slice()) {
        Some(t) => t,
        None => {
            return Err(CsvError::BadTx);
        },
    };
    if fs[3].len() == 0 {
        match kind {
            TransactionType::Deposit | TransactionType::Withdrawal => Err(
                CsvError::MissingAmount,
            ),
            _ => Ok(Transaction { transaction_type: kind, client, tx, amount: None }),
        }
    } else {
        match parse_amount(fs[3].as_slice()) {
            None => Err(CsvError::BadAmount),
            Some(a) => Ok(Transaction { transaction_type: kind, client, tx, amount: Some(a) }),
        }
    }
}

/// Reads transaction records out of comma-separated text.
pub struct TransactionParser<'a> {
    text: &'a [u8],
}

impl<'a> View for TransactionParser<'a> {
    type V = Seq<u8>;

    closed spec fn view(&self) -> Seq<u8> {
        self.text@
    }
}

impl<'a> TransactionParser<'a> {
    pub fn new(text: &'a [u8]) -> (parser: TransactionParser<'a>)
        ensures
            parser@ == text@,
    {
        TransactionParser { text }
    }

    /// The nonempty lines of the text, without trailing carriage returns.
    fn clean_lines(&self) -> (lines: Vec<Vec<u8>>)
        ensures
            lines@.len() == spec_lines(self@).len(),
            forall|j: int| 0 <= j < lines@.len() ==> lines@[j]@ == spec_lines(self@)[j],
    {
        let raw = split_bytes(self.text, 10);
        let ghost rawspec = spec_split(self@, 10);
        let mut lines: Vec<Vec<u8>> = Vec::new();
        let n = raw.len();
        let mut i: usize = 0;
        while i < n
            invariant
                i <= n,
                n == raw@.len() == rawspec.len(),
                forall|j: int| 0 <= j < n ==> raw@[j]@ == rawspec[j],
                lines@.len() == spec_clean_lines(rawspec.take(i as int)).len(),
                forall|j: int|
                    0 <= j < lines@.len() ==> lines@[j]@ == spec_clean_lines(
                        rawspec.take(i as int),
                    )[j],
            decreases n - i,
        {
            proof {
                assert(rawspec.take(i + 1 as int).drop_last() =~= rawspec.take(i as int));
                assert(rawspec.take(i + 1 as int).last() == rawspec[i as int]);
            }
            let mut l = raw[i].clone();
            proof {
                assert(l@ == rawspec[i as int]);
            }
            if l.len() > 0 && l[l.len() - 1] == 13 {
                l.pop();
                proof {
                    assert(l@ =~= spec_clean_line(rawspec[i as int]));
                }
            }
            proof {
                assert(l@ == spec_clean_line(rawspec[i as int]));
            }
            if l.len() > 0 {
                lines.push(l);
            }
            i = i + 1;
        }
        proof {
            assert(rawspec.take(n as int) =~= rawspec);
        }
        lines
    }

    /// Parse the whole text: the column header line, then one transaction
    /// per nonempty line.
    pub fn parse_all(&self) -> (r: Result<Vec<Transaction>, CsvError>)
        ensures
            match spec_parse_transactions(self@) {
                Ok(ts) => r matches Ok(v) && v@ == ts,
                Err(e) => r matches Err(e2) && e2 == e,
            },
    {
        let lines = self.clean_lines();
        let ghost speclines = spec_lines(self@);
        if lines.len() == 0 {
            return Ok(Vec::new());
        }
        if !self.header_matches(lines[0].as_slice()) {
            return Err(CsvError::BadHeader);
        }
        let ghost tail = speclines.drop_first();
        let mut out: Vec<Transaction> = Vec::new();
        let n = lines.len();
        let mut i: usize = 1;
        while i < n
            invariant
                1 <= i <= n,
                n == lines@.len() == speclines.len(),
                forall|j: int| 0 <= j < n ==> lines@[j]@ == speclines[j],
                tail == speclines.drop_first(),
                speclines == spec_lines(self@),
                spec_split(speclines[0], 44) == spec_header_fields(),
                spec_records(tail.take(i - 1)) == Ok::<Seq<Transaction>, CsvError>(out@),
            decreases n - i,
        {
            proof {
                assert(tail.take(i as int).drop_last() =~= tail.take(i - 1));
                assert(tail.take(i as int).last() == speclines[i as int]);
            }
            match parse_record(lines[i].as_slice()) {
                Ok(t) => {
                    out.push(t);
                },
                Err(e) => {
                    proof {
                        assert(spec_records(tail.take(i as int)) == Err::<
                            Seq<Transaction>,
                            CsvError,
                        >(e));
                        lemma_records_prefix_err(tail, i as int);
                    }
                    return Err(e);
                },
            }
            i = i + 1;
        }
        proof {
            assert(tail.take(n - 1) =~= tail);
        }
        Ok(out)
    }

    fn header_matches(&self, line: &[u8]) -> (r: bool)
        ensures
            r == (spec_split(line@, 44) == spec_header_fields()),
    {
        let hfs = split_bytes(line, 44);
        if hfs.len() != 4 {
            return false;
        }
        let type_kw: [u8; 4] = [116, 121, 112, 101];
        let client_kw: [u8; 6] = [99, 108, 105, 101, 110, 116];
        let tx_kw: [u8; 2] = [116, 120];
        let amount_kw: [u8; 6] = [97, 109, 111, 117, 110, 116];
        let ok = eq_bytes(hfs[0].as_slice(), type_kw.as_slice()) && eq_bytes(
            hfs[1].as_slice(),
            client_kw.as_slice(),
        ) && eq_bytes(hfs[2].as_slice(), tx_kw.as_slice()) && eq_bytes(
            hfs[3].as_slice(),
            amount_kw.as_slice(),
        );
        proof {
            assert(type_kw@ =~= spec_header_fields()[0]);
            assert(client_kw@ =~= spec_header_fields()[1]);
            assert(tx_kw@ =~= spec_header_fields()[2]);
            assert(amount_kw@ =~= spec_header_fields()[3]);
            if ok {
                assert(spec_split(line@, 44) =~~= spec_header_fields());
            }
        }
        ok
    }
}

} // verus!
