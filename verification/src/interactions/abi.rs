//! Contract-call argument encoding: 32-byte big-endian words, padded
//! dynamic byte arguments, and offset words, as the settlement contract
//! reads them.

use vstd::prelude::*;
use crate::num::{Address, Uint256};

verus! {

/// The 4 bytes of `x`, most significant first.
pub open spec fn be_bytes_u32(x: u32) -> Seq<u8> {
    seq![(x >> 24) as u8, (x >> 16) as u8, (x >> 8) as u8, x as u8]
}

/// The 8 bytes of `x`, most significant first.
pub open spec fn be_bytes_u64(x: u64) -> Seq<u8> {
    seq![
        (x >> 56) as u8,
        (x >> 48) as u8,
        (x >> 40) as u8,
        (x >> 32) as u8,
        (x >> 24) as u8,
        (x >> 16) as u8,
        (x >> 8) as u8,
        x as u8,
    ]
}

/// The 16 bytes of `x`, most significant first.
pub open spec fn be_bytes_u128(x: u128) -> Seq<u8> {
    be_bytes_u64((x >> 64) as u64) + be_bytes_u64(x as u64)
}

/// `n` zero bytes.
pub open spec fn zero_bytes(n: nat) -> Seq<u8> {
    Seq::new(n, |i: int| 0u8)
}

/// A 256-bit amount as one 32-byte big-endian word.
pub open spec fn word_of_uint(v: Uint256) -> Seq<u8> {
    be_bytes_u64(v.l3) + be_bytes_u64(v.l2) + be_bytes_u64(v.l1) + be_bytes_u64(v.l0)
}

/// A small number (an offset or a length) as one 32-byte word.
pub open spec fn word_of_u64(x: u64) -> Seq<u8> {
    zero_bytes(24) + be_bytes_u64(x)
}

/// An address as one 32-byte word: 12 zero bytes, then the 20 address
/// bytes.
pub open spec fn word_of_address(a: Address) -> Seq<u8> {
    zero_bytes(12) + be_bytes_u32(a.hi) + be_bytes_u128(a.lo)
}

/// How many zero bytes pad `n` content bytes to a whole word.
pub open spec fn pad_of(n: nat) -> nat {
    if n % 32 == 0 {
        0
    } else {
        (32 - n % 32) as nat
    }
}

/// A dynamic byte argument: its length word, the bytes, and the padding
/// to a whole word.
pub open spec fn abi_bytes(b: Seq<u8>) -> Seq<u8> {
    word_of_u64(b.len() as u64) + b + zero_bytes(pad_of(b.len()))
}

/// Appends `n` zero bytes.
pub fn push_zero_bytes(out: &mut Vec<u8>, n: usize)
    requires
        old(out)@.len() + n < usize::MAX,
    ensures
        final(out)@ == old(out)@ + zero_bytes(n as nat),
{
    for i in 0..n
        invariant
            out@.len() == old(out)@.len() + i,
            out@ == old(out)@ + zero_bytes(i as nat),
    {
        out.push(0u8);
        proof {
            assert(out@ =~= old(out)@ + zero_bytes(i as nat + 1));
        }
    }
}

/// Appends the 8 bytes of `x`, most significant first.
pub fn push_be_u64(out: &mut Vec<u8>, x: u64)
    requires
        old(out)@.len() + 8 < usize::MAX,
    ensures
        final(out)@ == old(out)@ + be_bytes_u64(x),
{
    out.push((x >> 56) as u8);
    out.push((x >> 48) as u8);
    out.push((x >> 40) as u8);
    out.push((x >> 32) as u8);
    out.push((x >> 24) as u8);
    out.push((x >> 16) as u8);
    out.push((x >> 8) as u8);
    out.push(x as u8);
    proof {
        assert(out@ =~= old(out)@ + be_bytes_u64(x));
    }
}

/// Appends the 4 bytes of `x`, most significant first.
pub fn push_be_u32(out: &mut Vec<u8>, x: u32)
    requires
        old(out)@.len() + 4 < usize::MAX,
    ensures
        final(out)@ == old(out)@ + be_bytes_u32(x),
{
    out.push((x >> 24) as u8);
    out.push((x >> 16) as u8);
    out.push((x >> 8) as u8);
    out.push(x as u8);
    proof {
        assert(out@ =~= old(out)@ + be_bytes_u32(x));
    }
}

/// Appends the 16 bytes of `x`, most significant first.
pub fn push_be_u128(out: &mut Vec<u8>, x: u128)
    requires
        old(out)@.len() + 16 < usize::MAX,
    ensures
        final(out)@ == old(out)@ + be_bytes_u128(x),
{
    push_be_u64(out, (x >> 64) as u64);
    push_be_u64(out, x as u64);
    proof {
        assert(out@ =~= old(out)@ + be_bytes_u128(x));
    }
}

/// Appends one amount word.
pub fn push_word_uint(out: &mut Vec<u8>, v: &Uint256)
    requires
        old(out)@.len() + 32 < usize::MAX,
    ensures
        final(out)@ == old(out)@ + word_of_uint(*v),
{
    push_be_u64(out, v.l3);
    push_be_u64(out, v.l2);
    push_be_u64(out, v.l1);
    push_be_u64(out, v.l0);
    proof {
        assert(out@ =~= old(out)@ + word_of_uint(*v));
    }
}

/// Appends one offset or length word.
pub fn push_word_u64(out: &mut Vec<u8>, x: u64)
    requires
        old(out)@.len() + 32 < usize::MAX,
    ensures
        final(out)@ == old(out)@ + word_of_u64(x),
{
    push_zero_bytes(out, 24);
    push_be_u64(out, x);
    proof {
        assert(out@ =~= old(out)@ + word_of_u64(x));
    }
}

/// Appends one address word.
pub fn push_word_address(out: &mut Vec<u8>, a: &Address)
    requires
        old(out)@.len() + 32 < usize::MAX,
    ensures
        final(out)@ == old(out)@ + word_of_address(*a),
{
    push_zero_bytes(out, 12);
    push_be_u32(out, a.hi);
    push_be_u128(out, a.lo);
    proof {
        assert(out@ =~= old(out)@ + word_of_address(*a));
    }
}

/// Appends the given bytes unchanged.
pub fn push_bytes(out: &mut Vec<u8>, b: &Vec<u8>)
    requires
        old(out)@.len() + b@.len() < usize::MAX,
    ensures
        final(out)@ == old(out)@ + b@,
{
    let n = b.len();
    for i in 0..n
        invariant
            n == b@.len(),
            out@.len() == old(out)@.len() + i,
            out@ == old(out)@ + b@.take(i as int),
    {
        out.push(b[i]);
        proof {
            assert(out@ =~= old(out)@ + b@.take(i as int + 1));
        }
    }
    proof {
        assert(b@.take(n as int) =~= b@);
    }
}

/// Appends one dynamic byte argument: length word, bytes, padding.
pub fn push_abi_bytes(out: &mut Vec<u8>, b: &Vec<u8>)
    requires
        old(out)@.len() + b@.len() + 64 < usize::MAX,
        b@.len() < 0x10000000,
    ensures
        final(out)@ == old(out)@ + abi_bytes(b@),
{
    let len = b.len();
    push_word_u64(out, len as u64);
    push_bytes(out, b);
    let rem = len % 32;
    let pad: usize = if rem == 0 {
        0
    } else {
        32 - rem
    };
    push_zero_bytes(out, pad);
    proof {
        assert(pad as nat == pad_of(b@.len()));
        assert(out@ =~= old(out)@ + abi_bytes(b@));
    }
}

} // verus!
