//! Parsing of tabular input into events.
//!
//! A row is a comma-separated list of fields with optional whitespace
//! around each field: an event name (`deposit`, `withdrawal`, `dispute`,
//! `resolve`, `chargeback`), an account id, a transaction id, and — for
//! deposits and withdrawals — a decimal amount with up to four fractional
//! digits. A row that does not fit this shape parses to `None` and is
//! skipped by the caller.

use crate::engine::Transaction;
use vstd::arithmetic::mul::lemma_mul_nonnegative;
use vstd::prelude::*;

verus! {

/// Whitespace that may surround a field: space, tab, carriage return.
pub open spec fn is_space(b: u8) -> bool {
    b == 32 || b == 9 || b == 13
}

/// An ASCII decimal digit.
pub open spec fn is_digit(b: u8) -> bool {
    48 <= b && b <= 57
}

pub open spec fn all_digits(s: Seq<u8>) -> bool {
    forall|i: int| 0 <= i < s.len() ==> is_digit(#[trigger] s[i])
}

/// The number a string of decimal digits denotes.
pub open spec fn dec_val(s: Seq<u8>) -> int
    decreases s.len(),
{
    if s.len() == 0 {
        0
    } else {
        dec_val(s.drop_last()) * 10 + (s.last() - 48)
    }
}

pub open spec fn pow10(n: nat) -> int
    decreases n,
{
    if n == 0 {
        1
    } else {
        10 * pow10((n - 1) as nat)
    }
}

pub proof fn lemma_dec_val_nonneg(s: Seq<u8>)
    requires
        all_digits(s),
    ensures
        0 <= dec_val(s),
    decreases s.len(),
{
    if s.len() > 0 {
        assert(all_digits(s.drop_last()));
        lemma_dec_val_nonneg(s.drop_last());
    }
}

/// A string of `n` digits denotes a number below `10^n`.
pub proof fn lemma_dec_val_upper(s: Seq<u8>)
    requires
        all_digits(s),
    ensures
        dec_val(s) < pow10(s.len() as nat),
    decreases s.len(),
{
    if s.len() > 0 {
        assert(all_digits(s.drop_last()));
        lemma_dec_val_upper(s.drop_last());
    }
}

/// Appending digits never shrinks the denoted number.
pub proof fn lemma_dec_val_prefix_le(s: Seq<u8>, k: int)
    requires
        all_digits(s),
        0 <= k <= s.len(),
    ensures
        dec_val(s.take(k)) <= dec_val(s),
    decreases s.len(),
{
    if k == s.len() {
        assert(s.take(k) =~= s);
    } else {
        assert(all_digits(s.drop_last()));
        lemma_dec_val_prefix_le(s.drop_last(), k);
        assert(s.drop_last().take(k) =~= s.take(k));
        lemma_dec_val_nonneg(s.drop_last());
    }
}

/// The handful of powers of ten the amount grammar uses.
pub proof fn lemma_pow10_small()
    ensures
        pow10(0) == 1,
        pow10(1) == 10,
        pow10(2) == 100,
        pow10(3) == 1000,
        pow10(4) == 10000,
{
    assert(pow10(0) == 1);
    assert(pow10(1) == 10);
    assert(pow10(2) == 100);
    assert(pow10(3) == 1000);
    assert(pow10(4) == 10000);
}

/// What a digit field denotes as a `u64`, if it is one and fits.
pub open spec fn parse_u64_spec(s: Seq<u8>) -> Option<u64> {
    if s.len() > 0 && all_digits(s) && dec_val(s) <= u64::MAX {
        Some(dec_val(s) as u64)
    } else {
        None
    }
}

pub open spec fn parse_u16_spec(s: Seq<u8>) -> Option<u16> {
    if s.len() > 0 && all_digits(s) && dec_val(s) <= u16::MAX {
        Some(dec_val(s) as u16)
    } else {
        None
    }
}

pub open spec fn parse_u32_spec(s: Seq<u8>) -> Option<u32> {
    if s.len() > 0 && all_digits(s) && dec_val(s) <= u32::MAX {
        Some(dec_val(s) as u32)
    } else {
        None
    }
}

pub fn parse_u64(s: &Vec<u8>) -> (r: Option<u64>)
    ensures
        r == parse_u64_spec(s@),
{
    if s.len() == 0 {
        return None;
    }
    let mut acc: u64 = 0;
    let mut i: usize = 0;
    while i < s.len()
        invariant
            0 <= i <= s.len(),
            all_digits(s@.take(i as int)),
            acc == dec_val(s@.take(i as int)),
        decreases s.len() - i,
    {
        let b: u8 = s[i];
        if b < 48 || 57 < b {
            assert(!all_digits(s@));
            return None;
        }
        proof {
            assert(s@.take(i + 1).drop_last() =~= s@.take(i as int));
            assert(s@.take(i + 1).last() == s@[i as int]);
        }
        let next = match acc.checked_mul(10) {
            Some(m) => m.checked_add((b - 48) as u64),
            None => None,
        };
        match next {
            Some(v) => {
                acc = v;
            },
            None => {
                proof {
                    lemma_dec_val_nonneg(s@.take(i as int));
                    if all_digits(s@) {
                        lemma_dec_val_prefix_le(s@, i + 1);
                    }
                }
                return None;
            },
        }
        i += 1;
    }
    proof {
        assert(s@.take(s@.len() as int) =~= s@);
    }
    Some(acc)
}

pub fn parse_u16(s: &Vec<u8>) -> (r: Option<u16>)
    ensures
        r == parse_u16_spec(s@),
{
    proof {
        if s@.len() > 0 && all_digits(s@) {
            lemma_dec_val_nonneg(s@);
        }
    }
    match parse_u64(s) {
        Some(v) => {
            if v <= u16::MAX as u64 {
                Some(v as u16)
            } else {
                None
            }
        },
        None => None,
    }
}

pub fn parse_u32(s: &Vec<u8>) -> (r: Option<u32>)
    ensures
        r == parse_u32_spec(s@),
{
    proof {
        if s@.len() > 0 && all_digits(s@) {
            lemma_dec_val_nonneg(s@);
        }
    }
    match parse_u64(s) {
        Some(v) => {
            if v <= u32::MAX as u64 {
                Some(v as u32)
            } else {
                None
            }
        },
        None => None,
    }
}

/// Index of the first `.` in the field, or its length if there is none.
pub open spec fn first_dot(s: Seq<u8>) -> int
    decreases s.len(),
{
    if s.len() == 0 {
        0
    } else if s[0] == 46 {
        0
    } else {
        1 + first_dot(s.skip(1))
    }
}

pub proof fn lemma_first_dot(s: Seq<u8>)
    ensures
        0 <= first_dot(s) <= s.len(),
        first_dot(s) < s.len() ==> s[first_dot(s)] == 46,
        forall|j: int| 0 <= j < first_dot(s) ==> s[j] != 46,
    decreases s.len(),
{
    if s.len() > 0 && s[0] != 46 {
        lemma_first_dot(s.skip(1));
        assert forall|j: int| 0 <= j < first_dot(s) implies s[j] != 46 by {
            if j > 0 {
                assert(s.skip(1)[j - 1] != 46);
            }
        }
    }
}

/// What an amount field denotes, in ten-thousandths: digits, optionally
/// followed by a dot and up to four fractional digits, with at least one
/// digit in all; the value must fit an `i64`.
pub open spec fn parse_amount_spec(s: Seq<u8>) -> Option<i64> {
    let d = first_dot(s);
    let int_part = s.take(d);
    let frac_part = if d < s.len() {
        s.skip(d + 1)
    } else {
        Seq::<u8>::empty()
    };
    if int_part.len() + frac_part.len() > 0 && all_digits(int_part) && all_digits(frac_part)
        && frac_part.len() <= 4 {
        let v = dec_val(int_part) * 10000 + dec_val(frac_part) * pow10((4 - frac_part.len()) as nat);
        if v <= i64::MAX {
            Some(v as i64)
        } else {
            None
        }
    } else {
        None
    }
}

/// A parsed amount is never negative.
pub proof fn lemma_amount_nonneg(s: Seq<u8>)
    ensures
        parse_amount_spec(s) matches Some(v) ==> 0 <= v,
{
    let d = first_dot(s);
    let int_part = s.take(d);
    let frac_part = if d < s.len() {
        s.skip(d + 1)
    } else {
        Seq::<u8>::empty()
    };
    if parse_amount_spec(s) is Some {
        lemma_dec_val_nonneg(int_part);
        lemma_dec_val_nonneg(frac_part);
        lemma_pow10_at_most_four((4 - frac_part.len()) as nat);
        lemma_mul_nonnegative(dec_val(frac_part), pow10((4 - frac_part.len()) as nat));
    }
}

/// Below five digits, a power of ten stays at or below `10^4`.
pub proof fn lemma_pow10_at_most_four(n: nat)
    requires
        n <= 4,
    ensures
        1 <= pow10(n) <= 10000,
{
    lemma_pow10_small();
    if n == 0 {
    } else if n == 1 {
    } else if n == 2 {
    } else if n == 3 {
    } else {
        assert(n == 4);
    }
}

fn scale_of(frac_len: usize) -> (r: u64)
    requires
        frac_len <= 4,
    ensures
        r == pow10((4 - frac_len) as nat),
        1 <= r <= 10000,
{
    proof {
        lemma_pow10_small();
    }
    if frac_len == 0 {
        10000
    } else if frac_len == 1 {
        1000
    } else if frac_len == 2 {
        100
    } else if frac_len == 3 {
        10
    } else {
        1
    }
}

pub fn parse_amount(s: &Vec<u8>) -> (r: Option<i64>)
    ensures
        r == parse_amount_spec(s@),
{
    proof {
        lemma_first_dot(s@);
    }
    let mut d: usize = 0;
    while d < s.len() && s[d] != 46
        invariant
            0 <= d <= s.len(),
            forall|j: int| 0 <= j < d ==> s@[j] != 46,
        decreases s.len() - d,
    {
        d += 1;
    }
    proof {
        // `d` is the first dot, exactly as the specification picks it.
        if first_dot(s@) < d {
            assert(s@[first_dot(s@)] == 46);
            assert(false);
        }
        if d < first_dot(s@) {
            assert(s@[d as int] == 46);
            assert(false);
        }
    }
    let mut int_part: Vec<u8> = Vec::new();
    let mut i: usize = 0;
    while i < d
        invariant
            0 <= i <= d <= s.len(),
            int_part@ =~= s@.take(d as int).take(i as int),
        decreases d - i,
    {
        int_part.push(s[i]);
        proof {
            assert(s@.take(d as int).take(i + 1) =~= s@.take(d as int).take(i as int).push(
                s@[i as int],
            ));
        }
        i += 1;
    }
    proof {
        assert(s@.take(d as int).take(d as int) =~= s@.take(d as int));
    }
    let mut frac_part: Vec<u8> = Vec::new();
    if d < s.len() {
        let mut j: usize = d + 1;
        while j < s.len()
            invariant
                d + 1 <= j <= s@.len(),
                frac_part@ =~= s@.skip(d + 1).take(j - d - 1),
            decreases s.len() - j,
        {
            frac_part.push(s[j]);
            proof {
                assert(s@.skip(d + 1).take(j - d) =~= s@.skip(d + 1).take(j - d - 1).push(
                    s@[j as int],
                ));
            }
            j += 1;
        }
        proof {
            assert(s@.skip(d + 1).take(s@.len() - d - 1) =~= s@.skip(d + 1));
        }
    }
    let ghost gint = s@.take(d as int);
    let ghost gfrac = if (d as int) < s@.len() {
        s@.skip(d + 1)
    } else {
        Seq::<u8>::empty()
    };
    assert(int_part@ == gint);
    assert(frac_part@ == gfrac);
    if int_part.len() + frac_part.len() == 0 {
        return None;
    }
    if frac_part.len() > 4 {
        return None;
    }
    let int_val: u64 = if int_part.len() == 0 {
        0u64
    } else {
        match parse_u64(&int_part) {
            Some(v) => v,
            None => {
                proof {
                    // Either a stray byte in the integer part, or a value
                    // already past what any amount may denote.
                    if all_digits(gint) && all_digits(gfrac) {
                        lemma_dec_val_nonneg(gint);
                        lemma_dec_val_nonneg(gfrac);
                        lemma_pow10_at_most_four((4 - gfrac.len()) as nat);
                        lemma_mul_nonnegative(
                            dec_val(gfrac),
                            pow10((4 - gfrac.len()) as nat),
                        );
                    }
                }
                return None;
            },
        }
    };
    let frac_val: u64 = if frac_part.len() == 0 {
        0u64
    } else {
        match parse_u64(&frac_part) {
            Some(v) => v,
            None => {
                proof {
                    if all_digits(gfrac) {
                        lemma_dec_val_nonneg(gfrac);
                        lemma_dec_val_upper(gfrac);
                        lemma_pow10_at_most_four(gfrac.len() as nat);
                    }
                }
                return None;
            },
        }
    };
    proof {
        lemma_dec_val_nonneg(gint);
        lemma_dec_val_nonneg(gfrac);
        lemma_dec_val_upper(gfrac);
        lemma_pow10_at_most_four(gfrac.len() as nat);
    }
    let scale: u64 = scale_of(frac_part.len());
    proof {
        lemma_pow10_small();
        assert(frac_val * scale <= 9999 * 10000) by (nonlinear_arith)
            requires
                0 <= frac_val <= 9999,
                0 <= scale <= 10000,
        ;
    }
    let scaled_frac: u64 = frac_val * scale;
    proof {
        lemma_pow10_at_most_four((4 - gfrac.len()) as nat);
        lemma_mul_nonnegative(dec_val(gfrac), pow10((4 - gfrac.len()) as nat));
    }
    let total = match int_val.checked_mul(10000) {
        Some(m) => m.checked_add(scaled_frac),
        None => None,
    };
    match total {
        Some(v) => {
            if v <= i64::MAX as u64 {
                Some(v as i64)
            } else {
                None
            }
        },
        None => None,
    }
}

/// A field with its leading whitespace dropped.
pub open spec fn trim_start_spec(s: Seq<u8>) -> Seq<u8>
    decreases s.len(),
{
    if s.len() > 0 && is_space(s[0]) {
        trim_start_spec(s.skip(1))
    } else {
        s
    }
}

/// A field with its trailing whitespace dropped.
pub open spec fn trim_end_spec(s: Seq<u8>) -> Seq<u8>
    decreases s.len(),
{
    if s.len() > 0 && is_space(s.last()) {
        trim_end_spec(s.drop_last())
    } else {
        s
    }
}

/// A field with whitespace dropped from both ends.
pub open spec fn trim_spec(s: Seq<u8>) -> Seq<u8> {
    trim_end_spec(trim_start_spec(s))
}

pub fn trim(s: &Vec<u8>) -> (r: Vec<u8>)
    ensures
        r@ == trim_spec(s@),
{
    let mut lo: usize = 0;
    proof {
        assert(s@.skip(0) =~= s@);
    }
    while lo < s.len() && (s[lo] == 32 || s[lo] == 9 || s[lo] == 13)
        invariant
            0 <= lo <= s.len(),
            trim_start_spec(s@) == trim_start_spec(s@.skip(lo as int)),
        decreases s.len() - lo,
    {
        proof {
            assert(s@.skip(lo as int)[0] == s@[lo as int]);
            assert(s@.skip(lo as int).skip(1) =~= s@.skip(lo + 1));
        }
        lo += 1;
    }
    proof {
        if lo < s@.len() {
            assert(s@.skip(lo as int)[0] == s@[lo as int]);
        }
        assert(trim_start_spec(s@) == s@.skip(lo as int));
        assert(s@.skip(lo as int) =~= s@.subrange(lo as int, s@.len() as int));
    }
    let mut hi: usize = s.len();
    while hi > lo && (s[hi - 1] == 32 || s[hi - 1] == 9 || s[hi - 1] == 13)
        invariant
            lo <= hi <= s.len(),
            trim_end_spec(s@.subrange(lo as int, s@.len() as int)) == trim_end_spec(
                s@.subrange(lo as int, hi as int),
            ),
        decreases hi,
    {
        proof {
            assert(s@.subrange(lo as int, hi as int).last() == s@[hi - 1]);
            assert(s@.subrange(lo as int, hi as int).drop_last() =~= s@.subrange(
                lo as int,
                hi - 1,
            ));
        }
        hi -= 1;
    }
    proof {
        if lo < hi {
            assert(s@.subrange(lo as int, hi as int).last() == s@[hi - 1]);
        }
        assert(trim_end_spec(s@.subrange(lo as int, hi as int)) == s@.subrange(
            lo as int,
            hi as int,
        ));
    }
    let mut r: Vec<u8> = Vec::new();
    let mut i: usize = lo;
    while i < hi
        invariant
            lo <= i <= hi <= s.len(),
            r@ =~= s@.subrange(lo as int, i as int),
        decreases hi - i,
    {
        r.push(s[i]);
        proof {
            assert(s@.subrange(lo as int, i + 1) =~= s@.subrange(lo as int, i as int).push(
                s@[i as int],
            ));
        }
        i += 1;
    }
    r
}

/// Splitting a byte string on a separator: the fields still to come, given
/// the part of the current field read so far. A string with no separator is
/// one field; every separator starts a fresh field.
pub open spec fn split_acc(s: Seq<u8>, sep: u8, cur: Seq<u8>) -> Seq<Seq<u8>>
    decreases s.len(),
{
    if s.len() == 0 {
        seq![cur]
    } else if s[0] == sep {
        seq![cur] + split_acc(s.skip(1), sep, Seq::empty())
    } else {
        split_acc(s.skip(1), sep, cur.push(s[0]))
    }
}

/// The fields of a byte string split on a separator.
pub open spec fn split_spec(s: Seq<u8>, sep: u8) -> Seq<Seq<u8>> {
    split_acc(s, sep, Seq::empty())
}

/// A split always yields at least one field, even of an empty string.
pub proof fn lemma_split_at_least_one(s: Seq<u8>, sep: u8, cur: Seq<u8>)
    ensures
        split_acc(s, sep, cur).len() >= 1,
    decreases s.len(),
{
    if s.len() > 0 && s[0] != sep {
        lemma_split_at_least_one(s.skip(1), sep, cur.push(s[0]));
    } else if s.len() > 0 {
        lemma_split_at_least_one(s.skip(1), sep, Seq::empty());
    }
}

pub fn split_bytes(s: &Vec<u8>, sep: u8) -> (r: Vec<Vec<u8>>)
    ensures
        r@.map_values(|v: Vec<u8>| v@) == split_spec(s@, sep),
{
    let mut out: Vec<Vec<u8>> = Vec::new();
    let mut cur: Vec<u8> = Vec::new();
    let mut i: usize = 0;
    proof {
        assert(s@.skip(0) =~= s@);
        assert(out@.map_values(|v: Vec<u8>| v@) + split_acc(s@, sep, cur@) =~= split_spec(
            s@,
            sep,
        ));
    }
    while i < s.len()
        invariant
            0 <= i <= s.len(),
            split_spec(s@, sep) == out@.map_values(|v: Vec<u8>| v@) + split_acc(
                s@.skip(i as int),
                sep,
                cur@,
            ),
        decreases s.len() - i,
    {
        let b: u8 = s[i];
        let ghost pre_out = out@.map_values(|v: Vec<u8>| v@);
        let ghost pre_cur = cur@;
        proof {
            assert(s@.skip(i as int)[0] == s@[i as int]);
            assert(s@.skip(i as int).skip(1) =~= s@.skip(i + 1));
        }
        if b == sep {
            out.push(cur);
            cur = Vec::new();
            proof {
                assert(out@.map_values(|v: Vec<u8>| v@) =~= pre_out.push(pre_cur));
                assert(pre_out + (seq![pre_cur] + split_acc(s@.skip(i + 1), sep, Seq::empty()))
                    =~= pre_out.push(pre_cur) + split_acc(s@.skip(i + 1), sep, Seq::empty()));
            }
        } else {
            cur.push(b);
        }
        i += 1;
    }
    let ghost pre_out = out@.map_values(|v: Vec<u8>| v@);
    let ghost pre_cur = cur@;
    out.push(cur);
    proof {
        assert(s@.skip(s@.len() as int) =~= Seq::<u8>::empty());
        assert(out@.map_values(|v: Vec<u8>| v@) =~= pre_out + seq![pre_cur]);
    }
    out
}

// The five event names, as ASCII bytes.
pub open spec fn kw_deposit(s: Seq<u8>) -> bool {
    // "deposit"
    s == seq![100u8, 101u8, 112u8, 111u8, 115u8, 105u8, 116u8]
}

pub open spec fn kw_withdrawal(s: Seq<u8>) -> bool {
    // "withdrawal"
    s == seq![119u8, 105u8, 116u8, 104u8, 100u8, 114u8, 97u8, 119u8, 97u8, 108u8]
}

pub open spec fn kw_dispute(s: Seq<u8>) -> bool {
    // "dispute"
    s == seq![100u8, 105u8, 115u8, 112u8, 117u8, 116u8, 101u8]
}

pub open spec fn kw_resolve(s: Seq<u8>) -> bool {
    // "resolve"
    s == seq![114u8, 101u8, 115u8, 111u8, 108u8, 118u8, 101u8]
}

pub open spec fn kw_chargeback(s: Seq<u8>) -> bool {
    // "chargeback"
    s == seq![99u8, 104u8, 97u8, 114u8, 103u8, 101u8, 98u8, 97u8, 99u8, 107u8]
}

fn is_kw_deposit(s: &Vec<u8>) -> (r: bool)
    ensures
        r == kw_deposit(s@),
{
    if s.len() != 7 {
        return false;
    }
    let r = s[0] == 100 && s[1] == 101 && s[2] == 112 && s[3] == 111 && s[4] == 115 && s[5] == 105
        && s[6] == 116;
    proof {
        if r {
            assert(s@ =~= seq![100u8, 101u8, 112u8, 111u8, 115u8, 105u8, 116u8]);
        }
    }
    r
}

fn is_kw_withdrawal(s: &Vec<u8>) -> (r: bool)
    ensures
        r == kw_withdrawal(s@),
{
    if s.len() != 10 {
        return false;
    }
    let r = s[0] == 119 && s[1] == 105 && s[2] == 116 && s[3] == 104 && s[4] == 100 && s[5] == 114
        && s[6] == 97 && s[7] == 119 && s[8] == 97 && s[9] == 108;
    proof {
        if r {
            assert(s@ =~= seq![119u8, 105u8, 116u8, 104u8, 100u8, 114u8, 97u8, 119u8, 97u8, 108u8]);
        }
    }
    r
}

fn is_kw_dispute(s: &Vec<u8>) -> (r: bool)
    ensures
        r == kw_dispute(s@),
{
    if s.len() != 7 {
        return false;
    }
    let r = s[0] == 100 && s[1] == 105 && s[2] == 115 && s[3] == 112 && s[4] == 117 && s[5] == 116
        && s[6] == 101;
    proof {
        if r {
            assert(s@ =~= seq![100u8, 105u8, 115u8, 112u8, 117u8, 116u8, 101u8]);
        }
    }
    r
}

fn is_kw_resolve(s: &Vec<u8>) -> (r: bool)
    ensures
        r == kw_resolve(s@),
{
    if s.len() != 7 {
        return false;
    }
    let r = s[0] == 114 && s[1] == 101 && s[2] == 115 && s[3] == 111 && s[4] == 108 && s[5] == 118
        && s[6] == 101;
    proof {
        if r {
            assert(s@ =~= seq![114u8, 101u8, 115u8, 111u8, 108u8, 118u8, 101u8]);
        }
    }
    r
}

fn is_kw_chargeback(s: &Vec<u8>) -> (r: bool)
    ensures
        r == kw_chargeback(s@),
{
    if s.len() != 10 {
        return false;
    }
    let r = s[0] == 99 && s[1] == 104 && s[2] == 97 && s[3] == 114 && s[4] == 103 && s[5] == 101
        && s[6] == 98 && s[7] == 97 && s[8] == 99 && s[9] == 107;
    proof {
        if r {
            assert(s@ =~= seq![99u8, 104u8, 97u8, 114u8, 103u8, 101u8, 98u8, 97u8, 99u8, 107u8]);
        }
    }
    r
}

/// The event a record of fields denotes, if any: the first field names the
/// event, then come the account id, the transaction id, and — for deposits
/// and withdrawals — the amount. Whitespace around every field is ignored;
/// extra fields are ignored; a record that does not fit is no event.
pub open spec fn parse_fields_spec(fields: Seq<Seq<u8>>) -> Option<Transaction> {
    if fields.len() == 0 {
        None
    } else {
        let ty = trim_spec(fields[0]);
        if kw_deposit(ty) && fields.len() >= 4 {
            match (
                parse_u16_spec(trim_spec(fields[1])),
                parse_u32_spec(trim_spec(fields[2])),
                parse_amount_spec(trim_spec(fields[3])),
            ) {
                (Some(id), Some(tx), Some(amount)) => Some(Transaction::Deposit(id, tx, amount)),
                _ => None,
            }
        } else if kw_withdrawal(ty) && fields.len() >= 4 {
            match (
                parse_u16_spec(trim_spec(fields[1])),
                parse_u32_spec(trim_spec(fields[2])),
                parse_amount_spec(trim_spec(fields[3])),
            ) {
                (Some(id), Some(tx), Some(amount)) => Some(
                    Transaction::Withdrawal(id, tx, amount),
                ),
                _ => None,
            }
        } else if kw_dispute(ty) && fields.len() >= 3 {
            match (parse_u16_spec(trim_spec(fields[1])), parse_u32_spec(trim_spec(fields[2]))) {
                (Some(id), Some(tx)) => Some(Transaction::Dispute(id, tx)),
                _ => None,
            }
        } else if kw_resolve(ty) && fields.len() >= 3 {
            match (parse_u16_spec(trim_spec(fields[1])), parse_u32_spec(trim_spec(fields[2]))) {
                (Some(id), Some(tx)) => Some(Transaction::Resolve(id, tx)),
                _ => None,
            }
        } else if kw_chargeback(ty) && fields.len() >= 3 {
            match (parse_u16_spec(trim_spec(fields[1])), parse_u32_spec(trim_spec(fields[2]))) {
                (Some(id), Some(tx)) => Some(Transaction::Chargeback(id, tx)),
                _ => None,
            }
        } else {
            None
        }
    }
}

/// The event one input row denotes: the row split on commas, read as a
/// record of fields.
pub open spec fn parse_line_spec(line: Seq<u8>) -> Option<Transaction> {
    parse_fields_spec(split_spec(line, 44))
}

/// Every event the grammar produces is well formed: its amount, if it has
/// one, is non-negative.
pub proof fn lemma_parsed_wf(fields: Seq<Seq<u8>>)
    ensures
        parse_fields_spec(fields) matches Some(t) ==> t.wf(),
{
    if fields.len() > 0 {
        lemma_amount_nonneg(trim_spec(fields[3]));
    }
}

pub fn parse_fields(fields: &Vec<Vec<u8>>) -> (r: Option<Transaction>)
    ensures
        r == parse_fields_spec(fields@.map_values(|v: Vec<u8>| v@)),
{
    let ghost gfields = fields@.map_values(|v: Vec<u8>| v@);
    if fields.len() == 0 {
        return None;
    }
    let ty = trim(&fields[0]);
    if is_kw_deposit(&ty) && fields.len() >= 4 {
        let id = parse_u16(&trim(&fields[1]));
        let tx = parse_u32(&trim(&fields[2]));
        let amount = parse_amount(&trim(&fields[3]));
        match (id, tx, amount) {
            (Some(id), Some(tx), Some(amount)) => Some(Transaction::Deposit(id, tx, amount)),
            _ => None,
        }
    } else if is_kw_withdrawal(&ty) && fields.len() >= 4 {
        let id = parse_u16(&trim(&fields[1]));
        let tx = parse_u32(&trim(&fields[2]));
        let amount = parse_amount(&trim(&fields[3]));
        match (id, tx, amount) {
            (Some(id), Some(tx), Some(amount)) => Some(Transaction::Withdrawal(id, tx, amount)),
            _ => None,
        }
    } else if is_kw_dispute(&ty) && fields.len() >= 3 {
        match (parse_u16(&trim(&fields[1])), parse_u32(&trim(&fields[2]))) {
            (Some(id), Some(tx)) => Some(Transaction::Dispute(id, tx)),
            _ => None,
        }
    } else if is_kw_resolve(&ty) && fields.len() >= 3 {
        match (parse_u16(&trim(&fields[1])), parse_u32(&trim(&fields[2]))) {
            (Some(id), Some(tx)) => Some(Transaction::Resolve(id, tx)),
            _ => None,
        }
    } else if is_kw_chargeback(&ty) && fields.len() >= 3 {
        match (parse_u16(&trim(&fields[1])), parse_u32(&trim(&fields[2]))) {
            (Some(id), Some(tx)) => Some(Transaction::Chargeback(id, tx)),
            _ => None,
        }
    } else {
        None
    }
}

/// Parses one input row into the event it denotes, if any.
pub fn parse_line(line: &Vec<u8>) -> (r: Option<Transaction>)
    ensures
        r == parse_line_spec(line@),
{
    let fields = split_bytes(line, 44);
    parse_fields(&fields)
}

} // verus!
