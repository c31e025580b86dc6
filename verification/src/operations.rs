//! Feeding a whole input text to the ledger, and rendering the final account
//! states back out.

use vstd::prelude::*;

use crate::accounts::{step, step_fits, Account, Ledger, LedgerModel};
use crate::amount::{
    format_amount, format_uint, lemma_digits_plain, lemma_format_amount_plain, spec_digits,
    spec_format_amount,
};
use crate::csvtext::{encode_record, plain_field, spec_encode_record, views_of};
use crate::transactions::{spec_parse_transactions, CsvError, Transaction, TransactionParser};

verus! {

/// Whether feeding `ts` one record at a time from state `m` applies every
/// record with all balances staying in the machine range.
pub open spec fn spec_run_ok(m: LedgerModel, ts: Seq<Transaction>) -> bool
    decreases ts.len(),
{
    ts.len() == 0 || (ts[0].valid() && step_fits(m, ts[0]) && spec_run_ok(
        step(m, ts[0]),
        ts.drop_first(),
    ))
}

/// The state after feeding `ts` one record at a time, stopped at the first
/// record whose arithmetic would leave the machine range.
pub open spec fn spec_run_state(m: LedgerModel, ts: Seq<Transaction>) -> LedgerModel
    decreases ts.len(),
{
    if ts.len() == 0 {
        m
    } else if ts[0].valid() && step_fits(m, ts[0]) {
        spec_run_state(step(m, ts[0]), ts.drop_first())
    } else {
        m
    }
}

/// How the run of a prefix extends by one record.
proof fn lemma_run_index(m: LedgerModel, ts: Seq<Transaction>, i: int)
    requires
        0 <= i < ts.len(),
        spec_run_ok(m, ts.take(i)),
    ensures
        ({
            let mi = spec_run_state(m, ts.take(i));
            let ok_i = ts[i].valid() && step_fits(mi, ts[i]);
            &&& spec_run_ok(m, ts.take(i + 1)) == ok_i
            &&& spec_run_state(m, ts.take(i + 1)) == (if ok_i {
                step(mi, ts[i])
            } else {
                mi
            })
            &&& (!ok_i ==> spec_run_state(m, ts) == mi && !spec_run_ok(m, ts))
        }),
    decreases i,
{
    if i == 0 {
        assert(ts.take(0) =~= Seq::<Transaction>::empty());
        assert(spec_run_state(m, ts.take(0)) == m);
        assert(ts.take(1) =~= seq![ts[0]]);
        assert(ts.take(1)[0] == ts[0]);
        assert(ts.take(1).drop_first() =~= Seq::<Transaction>::empty());
        assert(spec_run_ok(step(m, ts[0]), Seq::<Transaction>::empty()));
        assert(spec_run_state(step(m, ts[0]), Seq::<Transaction>::empty()) == step(m, ts[0]));
        if !(ts[0].valid() && step_fits(m, ts[0])) {
            assert(spec_run_state(m, ts) == m);
            assert(!spec_run_ok(m, ts));
        }
    } else {
        let m1 = step(m, ts[0]);
        assert(ts.take(i)[0] == ts[0]);
        assert(ts[0].valid() && step_fits(m, ts[0]));
        assert(ts.take(i).drop_first() =~= ts.drop_first().take(i - 1));
        lemma_run_index(m1, ts.drop_first(), i - 1);
        assert(ts.take(i + 1)[0] == ts[0]);
        assert(ts.take(i + 1).drop_first() =~= ts.drop_first().take(i));
        assert(ts.drop_first()[i - 1] == ts[i]);
        assert(spec_run_state(m, ts.take(i)) == spec_run_state(m1, ts.drop_first().take(i - 1)));
        assert(spec_run_ok(m, ts.take(i + 1)) == spec_run_ok(m1, ts.drop_first().take(i)));
        assert(spec_run_state(m, ts.take(i + 1)) == spec_run_state(m1, ts.drop_first().take(i)));
        assert(spec_run_state(m, ts) == spec_run_state(m1, ts.drop_first()));
        assert(spec_run_ok(m, ts) == spec_run_ok(m1, ts.drop_first()));
    }
}

/// Parse the text and feed every record to the ledger, in order.
pub fn update_ledger_from_csv(ledger: &mut Ledger, text: &[u8]) -> (r: Result<(), CsvError>)
    requires
        old(ledger).wf(),
    ensures
        final(ledger).wf(),
        old(ledger)@.balanced() ==> final(ledger)@.balanced(),
        match spec_parse_transactions(text@) {
            Err(e) => r matches Err(e2) && e2 == e && final(ledger)@ == old(ledger)@,
            Ok(ts) => {
                &&& final(ledger)@ == spec_run_state(old(ledger)@, ts)
                &&& spec_run_ok(old(ledger)@, ts) ==> r is Ok
                &&& !spec_run_ok(old(ledger)@, ts) ==> (r matches Err(e2) && e2
                    == CsvError::AmountOverflow)
            },
        },
{
    let parser = TransactionParser::new(text);
    let records = match parser.parse_all() {
        Ok(v) => v,
        Err(e) => {
            return Err(e);
        },
    };
    let ghost m0 = ledger@;
    let ghost ts = records@;
    let n = records.len();
    let mut i: usize = 0;
    while i < n
        invariant
            i <= n,
            n == records@.len(),
            records@ == ts,
            spec_parse_transactions(text@) == Ok::<Seq<Transaction>, CsvError>(ts),
            m0 == old(ledger)@,
            ledger.wf(),
            spec_run_ok(m0, ts.take(i as int)),
            ledger@ == spec_run_state(m0, ts.take(i as int)),
            m0.balanced() ==> ledger@.balanced(),
        decreases n - i,
    {
        proof {
            lemma_run_index(m0, ts, i as int);
        }
        let applied = ledger.try_process_transaction(&records[i]);
        if !applied {
            return Err(CsvError::AmountOverflow);
        }
        i = i + 1;
    }
    proof {
        assert(ts.take(n as int) =~= ts);
    }
    Ok(())
}

/// The lock column's rendering of a lock state.
pub open spec fn spec_bool_field(b: bool) -> Seq<u8> {
    if b {
        seq![116u8, 114, 117, 101]
    } else {
        seq![102u8, 97, 108, 115, 101]
    }
}

/// One exported row's fields: client, available, held, total, locked.
pub open spec fn spec_account_fields(a: Account) -> Seq<Seq<u8>> {
    seq![
        spec_digits(a.client as nat),
        spec_format_amount(a.available),
        spec_format_amount(a.held),
        spec_format_amount(a.total),
        spec_bool_field(a.locked),
    ]
}

/// The output's column header row.
pub open spec fn spec_out_header() -> Seq<u8> {
    seq![
        99u8,
        108,
        105,
        101,
        110,
        116,
        44,
        97,
        118,
        97,
        105,
        108,
        97,
        98,
        108,
        101,
        44,
        104,
        101,
        108,
        100,
        44,
        116,
        111,
        116,
        97,
        108,
        44,
        108,
        111,
        99,
        107,
        101,
        100,
        10,
    ]
}

/// The rows of the accounts named by `order`, in that order.
pub open spec fn spec_rows(m: LedgerModel, order: Seq<u16>) -> Seq<u8>
    decreases order.len(),
{
    if order.len() == 0 {
        Seq::empty()
    } else {
        spec_rows(m, order.drop_last()) + spec_encode_record(
            spec_account_fields(m.accounts[order.last()]),
        )
    }
}

/// The whole output text: the column header, then one row per account in
/// creation order, balances rendered with four decimal places.
pub open spec fn spec_export(m: LedgerModel) -> Seq<u8> {
    spec_out_header() + spec_rows(m, m.order)
}

fn bool_field(b: bool) -> (r: Vec<u8>)
    ensures
        r@ == spec_bool_field(b),
{
    if b {
        let a: [u8; 4] = [116, 114, 117, 101];
        let v = vstd::slice::slice_to_vec(a.as_slice());
        proof {
            assert(v@ =~= spec_bool_field(b));
        }
        v
    } else {
        let a: [u8; 5] = [102, 97, 108, 115, 101];
        let v = vstd::slice::slice_to_vec(a.as_slice());
        proof {
            assert(v@ =~= spec_bool_field(b));
        }
        v
    }
}

fn account_fields(a: &Account) -> (fs: Vec<Vec<u8>>)
    ensures
        views_of(fs@) == spec_account_fields(*a),
        fs@.len() > 0,
        forall|i: int| 0 <= i < fs@.len() ==> plain_field(#[trigger] fs@[i]@),
{
    let mut fs: Vec<Vec<u8>> = Vec::new();
    fs.push(format_uint(a.client as u64));
    fs.push(format_amount(a.available));
    fs.push(format_amount(a.held));
    fs.push(format_amount(a.total));
    fs.push(bool_field(a.locked));
    proof {
        assert(views_of(fs@) =~~= spec_account_fields(*a));
        lemma_digits_plain(a.client as nat);
        lemma_format_amount_plain(a.available);
        lemma_format_amount_plain(a.held);
        lemma_format_amount_plain(a.total);
        assert(plain_field(spec_bool_field(a.locked)));
        assert(plain_field(fs@[0]@));
        assert(plain_field(fs@[1]@));
        assert(plain_field(fs@[2]@));
        assert(plain_field(fs@[3]@));
        assert(plain_field(fs@[4]@));
    }
    fs
}

/// Render every account as one output row.
pub fn write_ledger_to_csv(ledger: &Ledger) -> (out: Vec<u8>)
    requires
        ledger.wf(),
    ensures
        out@ == spec_export(ledger@),
{
    let header: [u8; 35] = [
        99,
        108,
        105,
        101,
        110,
        116,
        44,
        97,
        118,
        97,
        105,
        108,
        97,
        98,
        108,
        101,
        44,
        104,
        101,
        108,
        100,
        44,
        116,
        111,
        116,
        97,
        108,
        44,
        108,
        111,
        99,
        107,
        101,
        100,
        10,
    ];
    let mut out: Vec<u8> = vstd::slice::slice_to_vec(header.as_slice());
    proof {
        assert(out@ =~= spec_out_header());
    }
    let accounts = ledger.accounts();
    let ghost order = ledger@.order;
    let n = accounts.len();
    let mut i: usize = 0;
    while i < n
        invariant
            i <= n,
            n == accounts@.len(),
            n == order.len(),
            order == ledger@.order,
            accounts@ == order.map_values(|c: u16| ledger@.accounts[c]),
            out@ == spec_out_header() + spec_rows(ledger@, order.take(i as int)),
        decreases n - i,
    {
        let fs = account_fields(&accounts[i]);
        let mut rec = encode_record(&fs);
        out.append(&mut rec);
        proof {
            assert(order.take(i + 1 as int).drop_last() =~= order.take(i as int));
            assert(order.take(i + 1 as int).last() == order[i as int]);
            assert(accounts@[i as int] == ledger@.accounts[order[i as int]]);
            assert(out@ =~= spec_out_header() + spec_rows(ledger@, order.take(i + 1 as int)));
        }
        i = i + 1;
    }
    proof {
        assert(order.take(n as int) =~= order);
    }
    out
}

} // verus!

