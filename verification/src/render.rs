//! Rendering of account states into output rows.
//!
//! Every numeric field is written with exactly four digits after the
//! decimal point; a row is `id, available, held, total, locked` with a
//! comma and a space between fields.

use crate::engine::Client;
use vstd::prelude::*;

verus! {

/// Decimal digits of a number, most significant first, no leading zeros
/// (a lone zero for zero).
pub open spec fn dec_str(n: nat) -> Seq<u8>
    decreases n,
{
    if n < 10 {
        seq![(48 + n) as u8]
    } else {
        dec_str(n / 10) + seq![(48 + n % 10) as u8]
    }
}

/// Exactly four fractional digits, zero padded, of a value below `10^4`.
pub open spec fn frac4_str(f: nat) -> Seq<u8> {
    seq![
        (48 + f / 1000 % 10) as u8,
        (48 + f / 100 % 10) as u8,
        (48 + f / 10 % 10) as u8,
        (48 + f % 10) as u8,
    ]
}

/// The text of a non-negative amount of ten-thousandths: integer digits, a
/// dot, four fractional digits.
pub open spec fn mag_str(m: nat) -> Seq<u8> {
    dec_str(m / 10000) + seq![46u8] + frac4_str(m % 10000)
}

/// The text of a signed fixed-point amount.
pub open spec fn amount_str(a: int) -> Seq<u8> {
    if a < 0 {
        seq![45u8] + mag_str((-a) as nat)
    } else {
        mag_str(a as nat)
    }
}

/// `true` or `false`, as ASCII bytes.
pub open spec fn bool_str(b: bool) -> Seq<u8> {
    if b {
        seq![116u8, 114u8, 117u8, 101u8]
    } else {
        seq![102u8, 97u8, 108u8, 115u8, 101u8]
    }
}

/// One account's output row: `id, available, held, total, locked`.
pub open spec fn client_row(c: Client) -> Seq<u8> {
    dec_str(c.id as nat) + seq![44u8, 32u8] + amount_str(c.available as int) + seq![44u8, 32u8]
        + amount_str(c.held as int) + seq![44u8, 32u8] + amount_str(c.total as int) + seq![
        44u8,
        32u8,
    ] + bool_str(c.locked)
}

/// Appends the decimal digits of `n`.
fn push_dec(n: u64, out: &mut Vec<u8>)
    ensures
        final(out)@ == old(out)@ + dec_str(n as nat),
    decreases n,
{
    if n < 10 {
        out.push(48 + n as u8);
        proof {
            assert(final(out)@ =~= old(out)@ + dec_str(n as nat));
        }
    } else {
        let ghost pre = out@;
        push_dec(n / 10, out);
        out.push(48 + (n % 10) as u8);
        proof {
            assert(final(out)@ =~= pre + dec_str(n as nat));
        }
    }
}

/// The text of a signed fixed-point amount, exactly as `amount_str` gives
/// it.
pub fn render_amount(a: i64) -> (r: Vec<u8>)
    ensures
        r@ == amount_str(a as int),
{
    let mut out: Vec<u8> = Vec::new();
    let mag: u64 = if a >= 0 {
        a as u64
    } else {
        out.push(45);
        (-(a as i128)) as u64
    };
    let ghost sign = out@;
    push_dec(mag / 10000, &mut out);
    out.push(46);
    let f: u64 = mag % 10000;
    out.push(48 + (f / 1000) as u8);
    out.push(48 + (f / 100 % 10) as u8);
    out.push(48 + (f / 10 % 10) as u8);
    out.push(48 + (f % 10) as u8);
    proof {
        assert((mag / 10000) as nat == (mag as nat) / 10000);
        assert((mag % 10000) as nat == (mag as nat) % 10000);
        assert(out@ =~= sign + mag_str(mag as nat));
        assert(out@ =~= amount_str(a as int));
    }
    out
}

impl Client {
    /// The account's output row, `id, available, held, total, locked`,
    /// with every amount carrying exactly four digits after the decimal
    /// point.
    #[verifier::rlimit(50)]
    pub fn render(&self) -> (r: Vec<u8>)
        ensures
            r@ == client_row(*self),
    {
        let mut out: Vec<u8> = Vec::new();
        push_dec(self.id as u64, &mut out);
        out.push(44);
        out.push(32);
        let mut available = render_amount(self.available);
        out.append(&mut available);
        out.push(44);
        out.push(32);
        let mut held = render_amount(self.held);
        out.append(&mut held);
        out.push(44);
        out.push(32);
        let mut total = render_amount(self.total);
        out.append(&mut total);
        out.push(44);
        out.push(32);
        if self.locked {
            out.push(116);
            out.push(114);
            out.push(117);
            out.push(101);
        } else {
            out.push(102);
            out.push(97);
            out.push(108);
            out.push(115);
            out.push(101);
        }
        proof {
            assert(out@ =~= client_row(*self));
        }
        out
    }
}

} // verus!
