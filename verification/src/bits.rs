//! Bit-field extraction from six-bit packed buffers.
//!
//! An un-armored AIS payload is a sequence of bytes each holding a value in
//! 0..64: the low six bits of every byte carry payload, most significant
//! bit first. A field of the message is identified by a starting bit
//! offset and a bit count and may cross byte boundaries.

use vstd::prelude::*;

verus! {

use vstd::arithmetic::power2::pow2;
use vstd::arithmetic::power2::lemma2_to64;
use vstd::arithmetic::power2::lemma_pow2_unfold;
use vstd::arithmetic::power2::lemma_pow2_strictly_increases;
use vstd::bits::lemma_u32_shl_is_mul;

/// The bit at global position `i` of the packed buffer: bit `i` lives in
/// byte `i / 6` and is the `(i % 6)`-th most significant of that byte's
/// low six bits.
pub open spec fn bit_at(msg: Seq<u8>, i: nat) -> u8 {
    (msg[i as int / 6] >> ((5 - (i % 6)) as u8)) & 1
}

/// The unsigned value formed by concatenating the `n` bits starting at bit
/// position `ptr`, most significant first.
pub open spec fn extract_spec(msg: Seq<u8>, ptr: nat, n: nat) -> nat
    decreases n,
{
    if n == 0 {
        0
    } else {
        (2 * extract_spec(msg, ptr, (n - 1) as nat) + bit_at(msg, (ptr + n - 1) as nat)) as nat
    }
}

/// A single bit is zero or one.
proof fn lemma_bit_le_one(y: u8, s: u8)
    ensures
        ((y >> s) & 1) <= 1,
{
    assert(((y >> s) & 1) <= 1) by (bit_vector);
}

/// An `n`-bit field is below `2^n`.
pub proof fn lemma_extract_bound(msg: Seq<u8>, ptr: nat, n: nat)
    ensures
        extract_spec(msg, ptr, n) < pow2(n),
    decreases n,
{
    if n == 0 {
        assert(pow2(0) == 1) by {
            lemma2_to64();
        }
    } else {
        lemma_extract_bound(msg, ptr, (n - 1) as nat);
        lemma_pow2_unfold(n);
        let i = (ptr + n - 1) as nat;
        lemma_bit_le_one(msg[i as int / 6], (5 - (i % 6)) as u8);
    }
}

/// Reads the unsigned integer formed by the `bitnum` bits that start at
/// bit offset `msg_ptr` of the packed buffer, most significant first,
/// crossing byte boundaries as needed. Only the low six bits of each
/// buffer byte contribute.
pub fn extractbit(msg: &[u8], msg_ptr: usize, bitnum: usize) -> (num: u32)
    requires
        1 <= bitnum <= 32,
        msg_ptr + bitnum <= msg@.len() * 6,
        msg_ptr + bitnum <= usize::MAX,
    ensures
        num == extract_spec(msg@, msg_ptr as nat, bitnum as nat),
        num < pow2(bitnum as nat),
{
    let mut num: u32 = 0;
    let mut k: usize = 0;
    proof {
        lemma2_to64();
    }
    while k < bitnum
        invariant
            0 <= k <= bitnum,
            1 <= bitnum <= 32,
            msg_ptr + bitnum <= msg@.len() * 6,
            msg_ptr + bitnum <= usize::MAX,
            num == extract_spec(msg@, msg_ptr as nat, k as nat),
            num < pow2(k as nat),
        decreases bitnum - k,
    {
        let i = msg_ptr + k;
        let byte_i = i / 6;
        assert(byte_i < msg@.len()) by (nonlinear_arith)
            requires
                i < msg@.len() * 6,
                byte_i == i / 6,
        {}
        let b = msg[byte_i];
        let sh: u8 = (5 - (i % 6)) as u8;
        let bit: u8 = (b >> sh) & 1;
        proof {
            lemma_bit_le_one(b, sh);
            assert(bit == bit_at(msg@, i as nat));
            lemma2_to64();
            if (k as nat) < 31 {
                lemma_pow2_strictly_increases(k as nat, 31);
            }
            lemma_pow2_unfold((k + 1) as nat);
        }
        num = num * 2 + bit as u32;
        k = k + 1;
    }
    proof {
        lemma_extract_bound(msg@, msg_ptr as nat, bitnum as nat);
    }
    num
}

/// The two's-complement reading of the `n`-bit field at `ptr`: values at
/// or above `2^(n-1)` wrap around to `raw - 2^n`.
pub open spec fn coord_spec(msg: Seq<u8>, ptr: nat, n: nat) -> int {
    let raw = extract_spec(msg, ptr, n) as int;
    if raw >= pow2((n - 1) as nat) {
        raw - pow2(n)
    } else {
        raw
    }
}

/// Reads a signed fixed-point coordinate field: the `bitnum`-bit field at
/// `msg_ptr`, interpreted as a two's-complement integer. The caller scales
/// the result by 1/600000 to obtain degrees.
pub fn extract_coord(msg: &[u8], msg_ptr: usize, bitnum: usize) -> (r: i32)
    requires
        1 <= bitnum <= 31,
        msg_ptr + bitnum <= msg@.len() * 6,
        msg_ptr + bitnum <= usize::MAX,
    ensures
        r == coord_spec(msg@, msg_ptr as nat, bitnum as nat),
{
    let raw = extractbit(msg, msg_ptr, bitnum);
    proof {
        lemma2_to64();
        if (bitnum as nat) < 31 {
            lemma_pow2_strictly_increases(bitnum as nat, 31);
        }
        if ((bitnum - 1) as nat) < 31 {
            lemma_pow2_strictly_increases((bitnum - 1) as nat, 31);
        }
        lemma_pow2_unfold(bitnum as nat);
        lemma_u32_shl_is_mul(1u32, (bitnum - 1) as u32);
    }
    let threshold: u32 = 1u32 << ((bitnum - 1) as u32);
    if raw >= threshold {
        let v: i64 = raw as i64 - 2 * (threshold as i64);
        v as i32
    } else {
        raw as i32
    }
}

} // verus!
