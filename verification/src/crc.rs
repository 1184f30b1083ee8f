//! CRC-32 over the standard IEEE polynomial, the checksum of a PNG chunk.
//!
//! The checksum is the bit-reflected CRC-32 used by PNG: the register starts
//! at all ones, each input byte is folded in least-significant-bit first with
//! the reflected polynomial `0xEDB88320`, and the final register is inverted.

use vstd::prelude::*;

verus! {

/// One shift of the CRC register: divide by x, folding the polynomial back
/// in when a one bit falls off the low end.
pub open spec fn crc_round(c: u32) -> u32 {
    if c & 1 == 1 {
        (c >> 1) ^ 0xEDB88320u32
    } else {
        c >> 1
    }
}

/// `n` rounds of [`crc_round`] applied to `c`.
pub open spec fn crc_rounds(c: u32, n: nat) -> u32
    decreases n,
{
    if n == 0 {
        c
    } else {
        crc_round(crc_rounds(c, (n - 1) as nat))
    }
}

/// The CRC register after folding in one input byte.
pub open spec fn crc_step(c: u32, b: u8) -> u32 {
    crc_rounds(c ^ (b as u32), 8)
}

/// The CRC register after folding every byte of `bytes` into `c` in order.
pub open spec fn crc_accum(c: u32, bytes: Seq<u8>) -> u32
    decreases bytes.len(),
{
    if bytes.len() == 0 {
        c
    } else {
        crc_accum(crc_step(c, bytes[0]), bytes.drop_first())
    }
}

/// The CRC-32 checksum of `bytes`.
pub open spec fn crc32_of(bytes: Seq<u8>) -> u32 {
    crc_accum(0xFFFFFFFFu32, bytes) ^ 0xFFFFFFFFu32
}

/// Folding one more byte extends the accumulated register by one step.
proof fn lemma_crc_accum_push(c: u32, bytes: Seq<u8>, b: u8)
    ensures
        crc_accum(c, bytes.push(b)) == crc_step(crc_accum(c, bytes), b),
    decreases bytes.len(),
{
    if bytes.len() == 0 {
        assert(bytes.push(b)[0] == b);
        assert(bytes.push(b).drop_first() =~= Seq::<u8>::empty());
        assert(crc_accum(c, bytes.push(b)) == crc_accum(crc_step(c, b), Seq::<u8>::empty()));
    } else {
        assert(bytes.push(b)[0] == bytes[0]);
        assert(bytes.push(b).drop_first() =~= bytes.drop_first().push(b));
        lemma_crc_accum_push(crc_step(c, bytes[0]), bytes.drop_first(), b);
        assert(crc_accum(c, bytes.push(b)) == crc_accum(
            crc_step(c, bytes[0]),
            bytes.drop_first().push(b),
        ));
    }
}

/// One round never maps two registers to the same value: the top bit of the
/// result reveals the bit that fell off, and the rest is the shifted register.
proof fn lemma_crc_round_injective(a: u32, b: u32)
    requires
        a != b,
    ensures
        crc_round(a) != crc_round(b),
{
    assert((if a & 1 == 1 {
        (a >> 1) ^ 0xEDB88320u32
    } else {
        a >> 1
    }) != (if b & 1 == 1 {
        (b >> 1) ^ 0xEDB88320u32
    } else {
        b >> 1
    })) by (bit_vector)
        requires
            a != b,
    ;
}

/// Any number of rounds keeps distinct registers distinct.
proof fn lemma_crc_rounds_injective(a: u32, b: u32, n: nat)
    requires
        a != b,
    ensures
        crc_rounds(a, n) != crc_rounds(b, n),
    decreases n,
{
    if n > 0 {
        lemma_crc_rounds_injective(a, b, (n - 1) as nat);
        lemma_crc_round_injective(crc_rounds(a, (n - 1) as nat), crc_rounds(b, (n - 1) as nat));
    }
}

/// Folding different bytes into one register yields different registers.
proof fn lemma_crc_step_byte_injective(c: u32, b1: u8, b2: u8)
    requires
        b1 != b2,
    ensures
        crc_step(c, b1) != crc_step(c, b2),
{
    assert(c ^ (b1 as u32) != c ^ (b2 as u32)) by (bit_vector)
        requires
            b1 != b2,
    ;
    lemma_crc_rounds_injective(c ^ (b1 as u32), c ^ (b2 as u32), 8);
}

/// Folding one byte into different registers keeps them different.
proof fn lemma_crc_step_reg_injective(c1: u32, c2: u32, b: u8)
    requires
        c1 != c2,
    ensures
        crc_step(c1, b) != crc_step(c2, b),
{
    assert(c1 ^ (b as u32) != c2 ^ (b as u32)) by (bit_vector)
        requires
            c1 != c2,
    ;
    lemma_crc_rounds_injective(c1 ^ (b as u32), c2 ^ (b as u32), 8);
}

/// Folding the same bytes into different registers keeps them different.
proof fn lemma_crc_accum_reg_injective(c1: u32, c2: u32, bytes: Seq<u8>)
    requires
        c1 != c2,
    ensures
        crc_accum(c1, bytes) != crc_accum(c2, bytes),
    decreases bytes.len(),
{
    if bytes.len() > 0 {
        lemma_crc_step_reg_injective(c1, c2, bytes[0]);
        lemma_crc_accum_reg_injective(crc_step(c1, bytes[0]), crc_step(c2, bytes[0]), bytes.drop_first());
    }
}

/// Two same-length byte sequences that differ in exactly one position fold
/// a register to different values.
proof fn lemma_crc_accum_byte_change(c: u32, s1: Seq<u8>, s2: Seq<u8>, i: int)
    requires
        s1.len() == s2.len(),
        0 <= i < s1.len(),
        s1[i] != s2[i],
        forall|j: int| 0 <= j < s1.len() && j != i ==> s1[j] == s2[j],
    ensures
        crc_accum(c, s1) != crc_accum(c, s2),
    decreases i,
{
    if i == 0 {
        lemma_crc_step_byte_injective(c, s1[0], s2[0]);
        assert(s1.drop_first() =~= s2.drop_first());
        lemma_crc_accum_reg_injective(crc_step(c, s1[0]), crc_step(c, s2[0]), s1.drop_first());
    } else {
        assert forall|j: int| 0 <= j < s1.drop_first().len() && j != i - 1 implies s1.drop_first()[j]
            == s2.drop_first()[j] by {
            assert(s1.drop_first()[j] == s1[j + 1] && s2.drop_first()[j] == s2[j + 1]);
        }
        lemma_crc_accum_byte_change(crc_step(c, s1[0]), s1.drop_first(), s2.drop_first(), i - 1);
    }
}

/// Checksum sensitivity: two same-length byte sequences that differ in
/// exactly one position have different CRC-32 checksums.
pub proof fn lemma_crc32_byte_change(s1: Seq<u8>, s2: Seq<u8>, i: int)
    requires
        s1.len() == s2.len(),
        0 <= i < s1.len(),
        s1[i] != s2[i],
        forall|j: int| 0 <= j < s1.len() && j != i ==> s1[j] == s2[j],
    ensures
        crc32_of(s1) != crc32_of(s2),
{
    lemma_crc_accum_byte_change(0xFFFFFFFFu32, s1, s2, i);
    let a1 = crc_accum(0xFFFFFFFFu32, s1);
    let a2 = crc_accum(0xFFFFFFFFu32, s2);
    assert(a1 ^ 0xFFFFFFFFu32 != a2 ^ 0xFFFFFFFFu32) by (bit_vector)
        requires
            a1 != a2,
    ;
}

/// Computes the CRC-32 checksum of `bytes`.
pub fn crc32(bytes: &[u8]) -> (r: u32)
    ensures
        r == crc32_of(bytes@),
{
    let mut c: u32 = 0xFFFFFFFF;
    let mut i: usize = 0;
    while i < bytes.len()
        invariant
            i <= bytes@.len(),
            c == crc_accum(0xFFFFFFFFu32, bytes@.take(i as int)),
        decreases bytes@.len() - i,
    {
        let b = bytes[i];
        let mut x: u32 = c ^ (b as u32);
        let mut k: usize = 0;
        while k < 8
            invariant
                k <= 8,
                x == crc_rounds(c ^ (b as u32), k as nat),
        decreases 8 - k,
        {
            x = if x & 1 == 1 {
                (x >> 1) ^ 0xEDB88320
            } else {
                x >> 1
            };
            k = k + 1;
        }
        proof {
            lemma_crc_accum_push(0xFFFFFFFFu32, bytes@.take(i as int), b);
            assert(bytes@.take(i + 1) =~= bytes@.take(i as int).push(bytes@[i as int]));
        }
        c = x;
        i = i + 1;
    }
    proof {
        assert(bytes@.take(bytes@.len() as int) =~= bytes@);
    }
    c ^ 0xFFFFFFFF
}

} // verus!
