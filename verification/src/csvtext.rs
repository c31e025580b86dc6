//! Byte-level helpers for the comma-separated text format: splitting input
//! text into pieces and encoding output records.

use vstd::prelude::*;

verus! {

/// `s` split at every occurrence of `sep`: n separators give n + 1 pieces.
pub open spec fn spec_split(s: Seq<u8>, sep: u8) -> Seq<Seq<u8>>
    decreases s.len(),
{
    if s.len() == 0 {
        seq![Seq::<u8>::empty()]
    } else if s.last() == sep {
        spec_split(s.drop_last(), sep).push(Seq::<u8>::empty())
    } else {
        let r = spec_split(s.drop_last(), sep);
        r.update(r.len() - 1, r.last().push(s.last()))
    }
}

pub proof fn lemma_split_len(s: Seq<u8>, sep: u8)
    ensures
        spec_split(s, sep).len() >= 1,
    decreases s.len(),
{
    if s.len() > 0 {
        lemma_split_len(s.drop_last(), sep);
    }
}

/// Split `s` at every occurrence of `sep`.
pub fn split_bytes(s: &[u8], sep: u8) -> (r: Vec<Vec<u8>>)
    ensures
        r@.len() == spec_split(s@, sep).len(),
        forall|j: int| 0 <= j < r@.len() ==> r@[j]@ == spec_split(s@, sep)[j],
{
    let ghost whole = spec_split(s@, sep);
    let mut out: Vec<Vec<u8>> = Vec::new();
    let mut cur: Vec<u8> = Vec::new();
    let n = s.len();
    let mut i: usize = 0;
    while i < n
        invariant
            i <= n,
            n == s@.len(),
            out@.len() + 1 == spec_split(s@.take(i as int), sep).len(),
            forall|j: int|
                0 <= j < out@.len() ==> out@[j]@ == spec_split(s@.take(i as int), sep)[j],
            cur@ == spec_split(s@.take(i as int), sep).last(),
        decreases n - i,
    {
        proof {
            lemma_split_len(s@.take(i as int), sep);
            assert(s@.take(i + 1 as int).drop_last() =~= s@.take(i as int));
            assert(s@.take(i + 1 as int).last() == s@[i as int]);
        }
        let b = s[i];
        if b == sep {
            out.push(cur);
            cur = Vec::new();
        } else {
            cur.push(b);
        }
        i = i + 1;
    }
    proof {
        assert(s@.take(n as int) =~= s@);
        lemma_split_len(s@, sep);
    }
    out.push(cur);
    out
}

/// The pieces joined with commas.
pub open spec fn spec_join_fields(fields: Seq<Seq<u8>>) -> Seq<u8>
    decreases fields.len(),
{
    if fields.len() == 0 {
        Seq::empty()
    } else if fields.len() == 1 {
        fields[0]
    } else {
        spec_join_fields(fields.drop_last()) + seq![44u8] + fields.last()
    }
}

/// One output record: the fields joined with commas, then a line feed.
pub open spec fn spec_encode_record(fields: Seq<Seq<u8>>) -> Seq<u8> {
    spec_join_fields(fields) + seq![10u8]
}

/// A field that needs no quoting: nonempty, and free of separators, quotes
/// and line breaks.
pub open spec fn plain_field(f: Seq<u8>) -> bool {
    f.len() > 0 && forall|i: int|
        0 <= i < f.len() ==> #[trigger] f[i] != 44 && f[i] != 34 && f[i] != 10 && f[i] != 13
}

/// The views of a sequence of byte vectors.
pub open spec fn views_of(v: Seq<Vec<u8>>) -> Seq<Seq<u8>> {
    v.map_values(|f: Vec<u8>| f@)
}

/// Relies on csv::Writer::write_record: fields that need no quoting are
/// written verbatim, separated by the comma delimiter and followed by the
/// newline terminator, both left at their defaults here.
#[verifier::external_body]
pub(crate) fn encode_record(fields: &Vec<Vec<u8>>) -> (r: Vec<u8>)
    requires
        fields@.len() > 0,
        forall|i: int| 0 <= i < fields@.len() ==> plain_field(#[trigger] fields@[i]@),
    ensures
        r@ == spec_encode_record(views_of(fields@)),
{
    let mut w = csv::Writer::from_writer(Vec::new());
    w.write_record(fields).unwrap();
    w.into_inner().unwrap()
}

} // verus!

