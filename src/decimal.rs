//! Decimal text of unsigned integers, as ASCII bytes.
use vstd::prelude::*;

verus! {

/// The ASCII digit for `d`, which is below ten.
pub open spec fn digit_byte(d: nat) -> u8 {
    (48 + d) as u8
}

/// The decimal digits of `n`, most significant first, without leading zeros
/// (zero is the single digit `0`).
pub open spec fn decimal(n: nat) -> Seq<u8>
    decreases n,
{
    if n < 10 {
        seq![digit_byte(n)]
    } else {
        decimal(n / 10).push(digit_byte(n % 10))
    }
}

/// Appends the decimal digits of `n` to `out`.
pub fn push_decimal(out: &mut Vec<u8>, n: usize)
    ensures
        final(out)@ == old(out)@ + decimal(n as nat),
{
    let mut m: usize = n;
    // Digits below `m`, least significant first.
    let mut low: Vec<u8> = Vec::new();
    let ghost mut tail: Seq<u8> = Seq::empty();
    while m >= 10
        invariant
            decimal(n as nat) == decimal(m as nat) + tail,
            low@ == tail.reverse(),
        decreases m,
    {
        let d: usize = m % 10;
        proof {
            assert(decimal(m as nat) == decimal((m / 10) as nat).push(digit_byte(d as nat)));
            assert(decimal(m as nat) + tail =~= decimal((m / 10) as nat) + (seq![digit_byte(d as nat)] + tail));
            tail = seq![digit_byte(d as nat)] + tail;
            assert(low@.push(digit_byte(d as nat)) =~= tail.reverse());
        }
        low.push(48u8 + d as u8);
        m = m / 10;
    }
    assert(decimal(m as nat) == seq![digit_byte(m as nat)]);
    out.push(48u8 + m as u8);
    let ghost base = out@;
    let mut k: usize = low.len();
    while k > 0
        invariant
            k <= low@.len(),
            low@ == tail.reverse(),
            out@ == base + tail.subrange(0, low@.len() - k),
        decreases k,
    {
        k = k - 1;
        out.push(low[k]);
        assert(out@ =~= base + tail.subrange(0, low@.len() - k));
    }
    assert(tail.subrange(0, low@.len() as int) =~= tail);
    assert(old(out)@ + decimal(n as nat) =~= base + tail);
}

} // verus!
