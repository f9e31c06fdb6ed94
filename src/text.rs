//! Byte text used in the file: literals, decimal numbers and padded offsets.
use vstd::prelude::*;
use vstd::string::StringSliceAdditionalSpecFns;

verus! {

/// The bytes of an ASCII literal.
pub open spec fn lit(s: &str) -> Seq<u8> {
    s.spec_bytes()
}

/// Decimal digits of `n`, most significant first, without leading zeros.
pub open spec fn dec(n: nat) -> Seq<u8>
    decreases n,
{
    if n < 10 {
        seq![(n + 48) as u8]
    } else {
        dec(n / 10).push((n % 10 + 48) as u8)
    }
}

/// Decimal text of a signed integer, with a leading `-` when negative.
pub open spec fn signed(i: int) -> Seq<u8> {
    if i < 0 {
        seq![45u8] + dec((-i) as nat)
    } else {
        dec(i as nat)
    }
}

/// `k` ASCII zeros.
pub open spec fn zeros(k: nat) -> Seq<u8> {
    Seq::new(k, |_i: int| 48u8)
}

/// Decimal digits of `n`, left-padded with zeros to at least ten digits.
pub open spec fn pad10(n: nat) -> Seq<u8> {
    if dec(n).len() < 10 {
        zeros((10 - dec(n).len()) as nat) + dec(n)
    } else {
        dec(n)
    }
}

pub proof fn lemma_dec_nonempty(n: nat)
    ensures
        dec(n).len() >= 1,
    decreases n,
{
    if n >= 10 {
        lemma_dec_nonempty(n / 10);
    }
}

/// Appends the bytes of `s`.
pub fn push_lit(out: &mut Vec<u8>, s: &str)
    ensures
        final(out)@ == old(out)@ + lit(s),
{
    push_bytes(out, s.as_bytes());
}

/// Appends a copy of `b`.
pub fn push_bytes(out: &mut Vec<u8>, b: &[u8])
    ensures
        final(out)@ == old(out)@ + b@,
{
    let mut i: usize = 0;
    while i < b.len()
        invariant
            i <= b@.len(),
            out@ == old(out)@ + b@.subrange(0, i as int),
        decreases b@.len() - i,
    {
        out.push(b[i]);
        i = i + 1;
        assert(b@.subrange(0, i as int) == b@.subrange(0, i - 1).push(b@[i - 1]));
    }
    assert(b@.subrange(0, i as int) == b@);
}

/// Appends the decimal digits of `n`.
pub fn push_dec(out: &mut Vec<u8>, n: usize)
    ensures
        final(out)@ == old(out)@ + dec(n as nat),
    decreases n,
{
    if n >= 10 {
        push_dec(out, n / 10);
    }
    let d: u8 = (n % 10) as u8;
    out.push(d + 48);
    proof {
        if n >= 10 {
            assert(dec(n as nat) == dec((n / 10) as nat).push((n % 10 + 48) as u8));
        }
    }
    assert(final(out)@ == old(out)@ + dec(n as nat));
}

/// Appends the decimal digits of `n` zero-padded to ten digits.
pub fn push_pad10(out: &mut Vec<u8>, n: usize)
    ensures
        final(out)@ == old(out)@ + pad10(n as nat),
{
    let mut digits: Vec<u8> = Vec::new();
    push_dec(&mut digits, n);
    assert(digits@ == dec(n as nat));
    let mut k: usize = digits.len();
    while k < 10
        invariant
            digits@ == dec(n as nat),
            digits@.len() <= k <= 10 || (k == digits@.len() && k > 10),
            out@ == old(out)@ + zeros((k - digits@.len()) as nat),
        decreases 10 - k,
    {
        out.push(48u8);
        k = k + 1;
        assert(zeros((k - digits@.len()) as nat) == zeros((k - 1 - digits@.len()) as nat).push(48u8));
    }
    out.append(&mut digits);
    proof {
        if dec(n as nat).len() >= 10 {
            assert(zeros((k - dec(n as nat).len()) as nat) =~= Seq::<u8>::empty());
        }
    }
    assert(final(out)@ =~= old(out)@ + pad10(n as nat));
}

/// Appends the signed decimal text of `v`.
pub fn push_int(out: &mut Vec<u8>, v: i32)
    ensures
        final(out)@ == old(out)@ + signed(v as int),
{
    if v < 0 {
        out.push(45u8);
        let m: i64 = 0 - (v as i64);
        push_dec(out, m as usize);
        assert(final(out)@ =~= old(out)@ + signed(v as int));
    } else {
        push_dec(out, v as usize);
    }
}

} // verus!
