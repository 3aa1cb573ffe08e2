//! Little-endian encoding of unsigned integers at their natural width.

use vstd::prelude::*;

verus! {

/// The `width` least significant base-256 digits of `x`, least significant first.
pub open spec fn le_bytes(x: nat, width: nat) -> Seq<u8>
    decreases width,
{
    if width == 0 {
        Seq::empty()
    } else {
        seq![(x % 256) as u8] + le_bytes(x / 256, (width - 1) as nat)
    }
}

/// The number whose base-256 digits, least significant first, are `bytes`.
pub open spec fn le_value(bytes: Seq<u8>) -> nat
    decreases bytes.len(),
{
    if bytes.len() == 0 {
        0
    } else {
        bytes[0] as nat + 256 * le_value(bytes.skip(1))
    }
}

proof fn lemma_low_byte_u32(x: u32)
    ensures
        x as u8 == (x % 256) as u8,
        (x >> 8u32) == x / 256,
{
    assert(x as u8 == (x % 256) as u8) by (bit_vector);
    assert((x >> 8u32) == x / 256) by (bit_vector);
}

/// The four bytes of `u`, least significant first.
pub fn u32_to_bytes(u: &u32) -> (bytes: [u8; 4])
    ensures
        bytes@ == le_bytes(*u as nat, 4),
{
    let x0: u32 = *u;
    let x1: u32 = x0 >> 8u32;
    let x2: u32 = x1 >> 8u32;
    let x3: u32 = x2 >> 8u32;
    let bytes: [u8; 4] = [x0 as u8, x1 as u8, x2 as u8, x3 as u8];
    proof {
        lemma_low_byte_u32(x0);
        lemma_low_byte_u32(x1);
        lemma_low_byte_u32(x2);
        lemma_low_byte_u32(x3);
        reveal_with_fuel(le_bytes, 5);
        assert(bytes@ =~= le_bytes(*u as nat, 4));
    }
    bytes
}

proof fn lemma_low_byte_u64(x: u64)
    ensures
        x as u8 == (x % 256) as u8,
        (x >> 8u64) == x / 256,
{
    assert(x as u8 == (x % 256) as u8) by (bit_vector);
    assert((x >> 8u64) == x / 256) by (bit_vector);
}

/// The eight bytes of `u`, least significant first.
pub fn u64_to_bytes(u: &u64) -> (bytes: [u8; 8])
    ensures
        bytes@ == le_bytes(*u as nat, 8),
{
    let x0: u64 = *u;
    let x1: u64 = x0 >> 8u64;
    let x2: u64 = x1 >> 8u64;
    let x3: u64 = x2 >> 8u64;
    let x4: u64 = x3 >> 8u64;
    let x5: u64 = x4 >> 8u64;
    let x6: u64 = x5 >> 8u64;
    let x7: u64 = x6 >> 8u64;
    let bytes: [u8; 8] = [
        x0 as u8,
        x1 as u8,
        x2 as u8,
        x3 as u8,
        x4 as u8,
        x5 as u8,
        x6 as u8,
        x7 as u8,
    ];
    proof {
        lemma_low_byte_u64(x0);
        lemma_low_byte_u64(x1);
        lemma_low_byte_u64(x2);
        lemma_low_byte_u64(x3);
        lemma_low_byte_u64(x4);
        lemma_low_byte_u64(x5);
        lemma_low_byte_u64(x6);
        lemma_low_byte_u64(x7);
        reveal_with_fuel(le_bytes, 9);
        assert(bytes@ =~= le_bytes(*u as nat, 8));
    }
    bytes
}

proof fn lemma_low_byte_u128(x: u128)
    ensures
        x as u8 == (x % 256) as u8,
        (x >> 8u128) == x / 256,
{
    assert(x as u8 == (x % 256) as u8) by (bit_vector);
    assert((x >> 8u128) == x / 256) by (bit_vector);
}

/// The sixteen bytes of `u`, least significant first.
pub fn u128_to_bytes(u: &u128) -> (bytes: [u8; 16])
    ensures
        bytes@ == le_bytes(*u as nat, 16),
{
    let mut bytes: [u8; 16] = [0u8; 16];
    let mut rest: u128 = *u;
    let mut i: usize = 0;
    while i < 16
        invariant
            0 <= i <= 16,
            bytes@.len() == 16,
            le_bytes(*u as nat, 16) =~= bytes@.subrange(0, i as int) + le_bytes(
                rest as nat,
                (16 - i) as nat,
            ),
        decreases 16 - i,
    {
        proof {
            lemma_low_byte_u128(rest);
        }
        let ghost before = bytes@;
        bytes[i] = rest as u8;
        proof {
            assert(bytes@.subrange(0, i as int + 1) =~= before.subrange(0, i as int) + seq![
                (rest % 256) as u8,
            ]);
        }
        rest = rest >> 8u128;
        i = i + 1;
    }
    proof {
        assert(bytes@.subrange(0, 16) =~= bytes@);
    }
    bytes
}

/// 256 to the power `n`.
pub open spec fn pow256(n: nat) -> nat
    decreases n,
{
    if n == 0 {
        1
    } else {
        256 * pow256((n - 1) as nat)
    }
}

/// A little-endian number of `n` bytes is below 256 to the `n`.
pub proof fn lemma_le_value_bound(bytes: Seq<u8>)
    ensures
        le_value(bytes) < pow256(bytes.len()),
    decreases bytes.len(),
{
    if bytes.len() > 0 {
        lemma_le_value_bound(bytes.skip(1));
        assert(pow256(bytes.len()) == 256 * pow256((bytes.len() - 1) as nat));
    }
}

/// Decoding what `le_bytes` wrote gives the number back, reduced to the width written.
pub proof fn lemma_le_roundtrip(x: nat, width: nat)
    ensures
        le_bytes(x, width).len() == width,
        le_value(le_bytes(x, width)) == x % pow256(width),
    decreases width,
{
    if width == 0 {
    } else {
        let tail = le_bytes(x / 256, (width - 1) as nat);
        lemma_le_roundtrip(x / 256, (width - 1) as nat);
        let all = le_bytes(x, width);
        assert(all.skip(1) =~= tail);
        assert(all[0] == (x % 256) as u8);
        let p = pow256((width - 1) as nat);
        lemma_pow256_positive((width - 1) as nat);
        assert(x % (256 * p) == (x % 256) + 256 * ((x / 256) % p)) by {
            vstd::arithmetic::div_mod::lemma_breakdown(x as int, 256, p as int);
        }
    }
}

/// Every power of 256 is at least one.
pub proof fn lemma_pow256_positive(n: nat)
    ensures
        pow256(n) >= 1,
    decreases n,
{
    if n > 0 {
        lemma_pow256_positive((n - 1) as nat);
    }
}

/// Reads bytes 16 to 31 of `v` as one little-endian number: the half of a
/// 32-byte digest against which a work target is compared.
pub fn difficulty_bytes_as_u128(v: &[u8]) -> (value: u128)
    requires
        v@.len() >= 32,
    ensures
        value == le_value(v@.subrange(16, 32)),
{
    let mut acc: u128 = 0;
    let mut i: usize = 32;
    while i > 16
        invariant
            16 <= i <= 32,
            v@.len() >= 32,
            acc == le_value(v@.subrange(i as int, 32)),
        decreases i,
    {
        let b: u8 = v[i - 1];
        proof {
            let upper = v@.subrange(i as int, 32);
            let wider = v@.subrange(i as int - 1, 32);
            assert(wider.skip(1) =~= upper);
            assert(wider[0] == b);
            lemma_le_value_bound(upper);
            lemma_le_value_bound(wider);
            lemma_pow256_16();
            lemma_pow256_monotonic(wider.len(), 16);
        }
        acc = acc * 256 + b as u128;
        i = i - 1;
    }
    acc
}

proof fn lemma_pow256_16()
    ensures
        pow256(16) == 0x1_0000_0000_0000_0000_0000_0000_0000_0000,
{
    reveal_with_fuel(pow256, 17);
}

proof fn lemma_pow256_monotonic(a: nat, b: nat)
    requires
        a <= b,
    ensures
        pow256(a) <= pow256(b),
    decreases b,
{
    if a < b {
        lemma_pow256_monotonic(a, (b - 1) as nat);
    }
}

} // verus!
