//! Fixed-point monetary amounts: 1/10000 currency units, rendered with four
//! places past the decimal point and parsed from plain decimal notation with
//! rounding at the fourth place.

use vstd::prelude::*;

use crate::csvtext::spec_split;
use crate::csvtext::split_bytes;

verus! {

/// Decimal digits of `n`, most significant first, no leading zeros.
pub open spec fn spec_digits(n: nat) -> Seq<u8>
    decreases n,
{
    if n < 10 {
        seq![(48 + n) as u8]
    } else {
        spec_digits(n / 10).push((48 + n % 10) as u8)
    }
}

/// The fixed four-decimal rendering of `v` units: optional sign, the whole
/// currency units, a point, then exactly four fractional digits.
pub open spec fn spec_format_amount(v: i64) -> Seq<u8> {
    let m = if v < 0 {
        -(v as int)
    } else {
        v as int
    };
    let frac = m % 10000;
    (if v < 0 {
        seq![45u8]
    } else {
        Seq::<u8>::empty()
    }) + spec_digits((m / 10000) as nat) + seq![
        46u8,
        (48 + frac / 1000) as u8,
        (48 + (frac / 100) % 10) as u8,
        (48 + (frac / 10) % 10) as u8,
        (48 + frac % 10) as u8,
    ]
}

fn push_digits(n: u64, out: &mut Vec<u8>)
    ensures
        final(out)@ == old(out)@ + spec_digits(n as nat),
    decreases n,
{
    if n < 10 {
        out.push(48 + n as u8);
        proof {
            assert(out@ =~= old(out)@ + spec_digits(n as nat));
        }
    } else {
        push_digits(n / 10, out);
        out.push(48 + (n % 10) as u8);
        proof {
            assert(out@ =~= old(out)@ + spec_digits(n as nat));
        }
    }
}

/// Render `v` units as a fixed four-decimal amount.
pub fn format_amount(v: i64) -> (out: Vec<u8>)
    ensures
        out@ == spec_format_amount(v),
{
    let mut out: Vec<u8> = Vec::new();
    let m: u64 = if v < 0 {
        out.push(45);
        (-(v as i128)) as u64
    } else {
        v as u64
    };
    push_digits(m / 10000, &mut out);
    out.push(46);
    let frac = m % 10000;
    out.push(48 + (frac / 1000) as u8);
    out.push(48 + ((frac / 100) % 10) as u8);
    out.push(48 + ((frac / 10) % 10) as u8);
    out.push(48 + (frac % 10) as u8);
    proof {
        assert(out@ =~= spec_format_amount(v));
    }
    out
}

/// Render `n` as plain decimal digits.
pub fn format_uint(n: u64) -> (out: Vec<u8>)
    ensures
        out@ == spec_digits(n as nat),
{
    let mut out: Vec<u8> = Vec::new();
    push_digits(n, &mut out);
    proof {
        assert(out@ =~= spec_digits(n as nat));
    }
    out
}

/// A rendered number is one or more decimal digit bytes.
pub proof fn lemma_digits_plain(n: nat)
    ensures
        spec_digits(n).len() >= 1,
        forall|i: int| 0 <= i < spec_digits(n).len() ==> 48 <= #[trigger] spec_digits(n)[i] <= 57,
    decreases n,
{
    if n >= 10 {
        lemma_digits_plain(n / 10);
        assert forall|i: int| 0 <= i < spec_digits(n).len() implies 48 <= #[trigger] spec_digits(
            n,
        )[i] <= 57 by {
            if i < spec_digits(n).len() - 1 {
                assert(spec_digits(n)[i] == spec_digits(n / 10)[i]);
            }
        }
    }
}

/// A rendered amount is made of a sign, digits and a point only, so it never
/// needs quoting in the output format.
pub proof fn lemma_format_amount_plain(v: i64)
    ensures
        crate::csvtext::plain_field(spec_format_amount(v)),
{
    let m = if v < 0 {
        -(v as int)
    } else {
        v as int
    };
    lemma_digits_plain((m / 10000) as nat);
    let s = spec_format_amount(v);
    let sign: Seq<u8> = if v < 0 {
        seq![45u8]
    } else {
        Seq::<u8>::empty()
    };
    let ds = spec_digits((m / 10000) as nat);
    assert forall|i: int| 0 <= i < s.len() implies #[trigger] s[i] != 44 && s[i] != 34 && s[i]
        != 10 && s[i] != 13 by {
        if i < sign.len() {
            assert(s[i] == 45);
        } else if i < sign.len() + ds.len() {
            assert(s[i] == ds[i - sign.len()]);
        } else {
            assert(s[i] == (sign + ds + seq![
                46u8,
                (48 + (m % 10000) / 1000) as u8,
                (48 + ((m % 10000) / 100) % 10) as u8,
                (48 + ((m % 10000) / 10) % 10) as u8,
                (48 + (m % 10000) % 10) as u8,
            ])[i]);
        }
    }
}

pub open spec fn is_digit(b: u8) -> bool {
    48 <= b <= 57
}

pub open spec fn all_digits(s: Seq<u8>) -> bool {
    forall|i: int| 0 <= i < s.len() ==> is_digit(#[trigger] s[i])
}

/// Numeric value of a digit string, most significant digit first.
pub open spec fn spec_digits_val(s: Seq<u8>) -> nat
    decreases s.len(),
{
    if s.len() == 0 {
        0
    } else {
        spec_digits_val(s.drop_last()) * 10 + (s.last() - 48) as nat
    }
}

/// The value of a digit string is at least the value of any of its prefixes.
proof fn lemma_digits_val_prefix_le(s: Seq<u8>, i: int)
    requires
        0 <= i <= s.len(),
    ensures
        spec_digits_val(s.take(i)) <= spec_digits_val(s),
    decreases s.len() - i,
{
    if i < s.len() {
        assert(s.take(i + 1).drop_last() =~= s.take(i));
        assert(spec_digits_val(s.take(i + 1)) == spec_digits_val(s.take(i)) * 10 + (s.take(
            i + 1,
        ).last() - 48) as nat);
        lemma_digits_val_prefix_le(s, i + 1);
    } else {
        assert(s.take(i) =~= s);
    }
}

/// The whole nonempty digit string's value, if it fits a machine word.
pub open spec fn spec_parse_uint(s: Seq<u8>) -> Option<u64> {
    if s.len() > 0 && all_digits(s) && spec_digits_val(s) <= u64::MAX {
        Some(spec_digits_val(s) as u64)
    } else {
        None
    }
}

/// Parse a nonempty string of decimal digits.
pub fn parse_uint(s: &[u8]) -> (r: Option<u64>)
    ensures
        r == spec_parse_uint(s@),
{
    let n = s.len();
    if n == 0 {
        return None;
    }
    let mut acc: u64 = 0;
    let mut i: usize = 0;
    while i < n
        invariant
            i <= n,
            n == s@.len(),
            all_digits(s@.take(i as int)),
            acc == spec_digits_val(s@.take(i as int)),
        decreases n - i,
    {
        let b = s[i];
        if b < 48 || b > 57 {
            proof {
                assert(!is_digit(s@[i as int]));
            }
            return None;
        }
        let d = (b - 48) as u64;
        proof {
            assert(s@.take(i + 1 as int).drop_last() =~= s@.take(i as int));
        }
        let next = match acc.checked_mul(10) {
            Some(t) => t.checked_add(d),
            None => None,
        };
        match next {
            Some(v) => {
                acc = v;
            },
            None => {
                proof {
                    assert(spec_digits_val(s@.take(i + 1 as int)) > u64::MAX);
                    lemma_digits_val_prefix_le(s@, i + 1 as int);
                }
                return None;
            },
        }
        i = i + 1;
    }
    proof {
        assert(s@.take(n as int) =~= s@);
    }
    Some(acc)
}

/// The fractional digits of an amount, scaled to 1/10000 units and rounded
/// at the fourth place: a fifth digit of five or more rounds up.
pub open spec fn spec_frac_units(fp: Seq<u8>) -> nat {
    if fp.len() == 0 {
        0
    } else if fp.len() == 1 {
        spec_digits_val(fp) * 1000
    } else if fp.len() == 2 {
        spec_digits_val(fp) * 100
    } else if fp.len() == 3 {
        spec_digits_val(fp) * 10
    } else if fp.len() == 4 {
        spec_digits_val(fp)
    } else {
        spec_digits_val(fp.take(4)) + (if fp[4] >= 53 {
            1nat
        } else {
            0nat
        })
    }
}

/// An amount in decimal notation: digits around at most one point, at least
/// one digit in all, no sign and no exponent. The result counts 1/10000
/// units; anything beyond the machine range is rejected.
pub open spec fn spec_parse_amount(s: Seq<u8>) -> Option<i64> {
    let parts = spec_split(s, 46);
    if parts.len() == 1 {
        spec_amount_of(parts[0], Seq::empty())
    } else if parts.len() == 2 {
        spec_amount_of(parts[0], parts[1])
    } else {
        None
    }
}

pub open spec fn spec_amount_of(ip: Seq<u8>, fp: Seq<u8>) -> Option<i64> {
    if ip.len() + fp.len() == 0 || !all_digits(ip) || !all_digits(fp) {
        None
    } else {
        let units = spec_digits_val(ip) * 10000 + spec_frac_units(fp);
        if units <= i64::MAX {
            Some(units as i64)
        } else {
            None
        }
    }
}

/// Parse a decimal amount into 1/10000 units.
pub fn parse_amount(s: &[u8]) -> (r: Option<i64>)
    ensures
        r == spec_parse_amount(s@),
{
    let parts = split_bytes(s, 46);
    proof {
        crate::csvtext::lemma_split_len(s@, 46);
    }
    if parts.len() > 2 {
        return None;
    }
    let ip: &Vec<u8> = &parts[0];
    let empty: Vec<u8> = Vec::new();
    let fp: &Vec<u8> = if parts.len() == 2 {
        &parts[1]
    } else {
        &empty
    };
    amount_of(ip.as_slice(), fp.as_slice())
}

fn amount_of(ip: &[u8], fp: &[u8]) -> (r: Option<i64>)
    ensures
        r == spec_amount_of(ip@, fp@),
{
    if ip.len() == 0 && fp.len() == 0 {
        return None;
    }
    if !check_digits(fp) {
        return None;
    }
    let frac = frac_units(fp);
    let ipv = match parse_uint_or_zero(ip) {
        Some(v) => v,
        None => {
            proof {
                if all_digits(ip@) {
                    let v = spec_digits_val(ip@);
                    assert(v * 10000 >= v);
                }
            }
            return None;
        },
    };
    let units = match ipv.checked_mul(10000) {
        Some(t) => t.checked_add(frac),
        None => None,
    };
    match units {
        Some(u) => {
            if u <= i64::MAX as u64 {
                Some(u as i64)
            } else {
                None
            }
        },
        None => {
            proof {
                assert(spec_digits_val(ip@) * 10000 + spec_frac_units(fp@) > i64::MAX);
            }
            None
        },
    }
}

/// Like `parse_uint`, but an empty string counts as zero.
fn parse_uint_or_zero(s: &[u8]) -> (r: Option<u64>)
    ensures
        match r {
            Some(v) => all_digits(s@) && spec_digits_val(s@) == v,
            None => !all_digits(s@) || spec_digits_val(s@) > u64::MAX,
        },
{
    if s.len() == 0 {
        return Some(0);
    }
    parse_uint(s)
}

fn check_digits(s: &[u8]) -> (r: bool)
    ensures
        r == all_digits(s@),
{
    let n = s.len();
    let mut i: usize = 0;
    while i < n
        invariant
            i <= n,
            n == s@.len(),
            all_digits(s@.take(i as int)),
        decreases n - i,
    {
        let b = s[i];
        if b < 48 || b > 57 {
            proof {
                assert(!is_digit(s@[i as int]));
            }
            return false;
        }
        proof {
            assert(s@.take(i + 1 as int).drop_last() =~= s@.take(i as int));
            assert(all_digits(s@.take(i + 1 as int))) by {
                assert(forall|j: int|
                    0 <= j < i + 1 ==> s@.take(i + 1 as int)[j] == #[trigger] s@[j]);
            }
        }
        i = i + 1;
    }
    proof {
        assert(s@.take(n as int) =~= s@);
    }
    true
}

/// Scale and round fractional digits to 1/10000 units.
fn frac_units(fp: &[u8]) -> (r: u64)
    requires
        all_digits(fp@),
    ensures
        r == spec_frac_units(fp@),
        r <= 10000,
{
    let n = fp.len();
    if n == 0 {
        return 0;
    }
    proof {
        lemma_pow10_small();
    }
    if n <= 4 {
        proof {
            lemma_digits_val_lt_pow10(fp@);
        }
        let v = match parse_uint(fp) {
            Some(v) => v,
            None => {
                proof {
                    assert(false);
                }
                0
            },
        };
        if n == 1 {
            v * 1000
        } else if n == 2 {
            v * 100
        } else if n == 3 {
            v * 10
        } else {
            v
        }
    } else {
        let head: &[u8] = slice_take4(fp);
        proof {
            assert(all_digits(fp@.take(4))) by {
                assert(forall|j: int| 0 <= j < 4 ==> fp@.take(4)[j] == #[trigger] fp@[j]);
            }
            lemma_digits_val_lt_pow10(fp@.take(4));
        }
        let v = match parse_uint(head) {
            Some(v) => v,
            None => {
                proof {
                    assert(false);
                }
                0
            },
        };
        if fp[4] >= 53 {
            v + 1
        } else {
            v
        }
    }
}

pub open spec fn pow10(n: nat) -> nat
    decreases n,
{
    if n == 0 {
        1
    } else {
        10 * pow10((n - 1) as nat)
    }
}

/// A digit string's value has no more digits than the string.
proof fn lemma_digits_val_lt_pow10(s: Seq<u8>)
    requires
        all_digits(s),
    ensures
        spec_digits_val(s) < pow10(s.len()),
    decreases s.len(),
{
    if s.len() > 0 {
        assert(all_digits(s.drop_last())) by {
            assert(forall|j: int| 0 <= j < s.len() - 1 ==> s.drop_last()[j] == #[trigger] s[j]);
        }
        lemma_digits_val_lt_pow10(s.drop_last());
    }
}

proof fn lemma_pow10_small()
    ensures
        pow10(0) == 1,
        pow10(1) == 10,
        pow10(2) == 100,
        pow10(3) == 1000,
        pow10(4) == 10000,
{
    assert(pow10(0) == 1);
    assert(pow10(1) == 10);
    assert(pow10(2) == 100);
    assert(pow10(3) == 1000);
    assert(pow10(4) == 10000);
}

/// The first four bytes of a slice of at least five.
fn slice_take4(s: &[u8]) -> (r: &[u8])
    requires
        s@.len() >= 5,
    ensures
        r@ == s@.take(4),
{
    let r = vstd::slice::slice_subrange(s, 0, 4);
    proof {
        assert(r@ =~= s@.take(4));
    }
    r
}

} // verus!
