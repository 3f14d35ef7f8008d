//! The CRC-32 checksum of IEEE 802.3, as PNG uses it.
//!
//! The checksum is defined here bit by bit, as the standard does: a 32-bit
//! register starts with all bits set, takes in each byte of the message in
//! turn, and is inverted at the end. The value itself is computed by the
//! `crc32fast` crate; what this module proves about it (that no change to a
//! single byte goes unnoticed) is proved from the definition.

use vstd::prelude::*;

verus! {

/// The generator polynomial of CRC-32, bits reversed.
pub const POLYNOMIAL: u32 = 0xedb8_8320;

/// One step of the shift register: the low bit leaves, and the polynomial is
/// folded in if that bit was set.
pub open spec fn shift(register: u32) -> u32 {
    if register & 1 == 1 {
        (register >> 1) ^ POLYNOMIAL
    } else {
        register >> 1
    }
}

/// Eight steps of the shift register.
pub open spec fn shift8(register: u32) -> u32 {
    shift(shift(shift(shift(shift(shift(shift(shift(register))))))))
}

/// The register after it has taken in `byte`.
pub open spec fn absorb(register: u32, byte: u8) -> u32 {
    shift8(register ^ (byte as u32))
}

/// The register after it has taken in all of `bytes`, first byte first.
pub open spec fn register_after(bytes: Seq<u8>) -> u32
    decreases bytes.len(),
{
    if bytes.len() == 0 {
        0xffff_ffff
    } else {
        absorb(register_after(bytes.drop_last()), bytes.last())
    }
}

/// The CRC-32 checksum of `bytes`.
pub open spec fn crc32(bytes: Seq<u8>) -> u32 {
    register_after(bytes) ^ 0xffff_ffff
}

/// Computes the checksum of `bytes` with `crc32fast::hash`.
///
/// Trusted: the crate documents its result as the CRC-32 (IEEE) checksum of
/// the slice, and this contract takes it at its word. The definition above is
/// that checksum written out; the crate computes it from tables or with
/// special instructions.
#[verifier::external_body]
pub(crate) fn checksum(bytes: &[u8]) -> (sum: u32)
    ensures
        sum == crc32(bytes@),
{
    crc32fast::hash(bytes)
}

/// Computes the checksum of `bytes` bit by bit, as the definition reads.
///
/// This is the slow way. It is here so that a fast routine can be held
/// against the definition by running both.
pub fn checksum_by_definition(bytes: &[u8]) -> (sum: u32)
    ensures
        sum == crc32(bytes@),
{
    let mut register: u32 = 0xffff_ffff;
    let mut i: usize = 0;
    while i < bytes.len()
        invariant
            i <= bytes@.len(),
            register == register_after(bytes@.take(i as int)),
        decreases bytes@.len() - i,
    {
        register = register ^ (bytes[i] as u32);
        register = step(step(step(step(step(step(step(step(register))))))));
        proof {
            assert(bytes@.take(i + 1).drop_last() =~= bytes@.take(i as int));
        }
        i += 1;
    }
    assert(bytes@.take(i as int) =~= bytes@);
    register ^ 0xffff_ffff
}

/// One step of the shift register.
fn step(register: u32) -> (next: u32)
    ensures
        next == shift(register),
{
    if register & 1 == 1 {
        (register >> 1) ^ POLYNOMIAL
    } else {
        register >> 1
    }
}

proof fn lemma_shift_injective(a: u32, b: u32)
    by (bit_vector)
    requires
        shift(a) == shift(b),
    ensures
        a == b,
{
}

proof fn lemma_shift8_injective(a: u32, b: u32)
    requires
        shift8(a) == shift8(b),
    ensures
        a == b,
{
    let a1 = shift(a);
    let a2 = shift(a1);
    let a3 = shift(a2);
    let a4 = shift(a3);
    let a5 = shift(a4);
    let a6 = shift(a5);
    let a7 = shift(a6);
    let b1 = shift(b);
    let b2 = shift(b1);
    let b3 = shift(b2);
    let b4 = shift(b3);
    let b5 = shift(b4);
    let b6 = shift(b5);
    let b7 = shift(b6);
    lemma_shift_injective(a7, b7);
    lemma_shift_injective(a6, b6);
    lemma_shift_injective(a5, b5);
    lemma_shift_injective(a4, b4);
    lemma_shift_injective(a3, b3);
    lemma_shift_injective(a2, b2);
    lemma_shift_injective(a1, b1);
    lemma_shift_injective(a, b);
}

/// Taking in a byte never brings two registers together, nor does one
/// register end up the same after two different bytes.
proof fn lemma_absorb_injective(r1: u32, b1: u8, r2: u32, b2: u8)
    requires
        absorb(r1, b1) == absorb(r2, b2),
    ensures
        r1 == r2 ==> b1 == b2,
        b1 == b2 ==> r1 == r2,
{
    lemma_shift8_injective(r1 ^ (b1 as u32), r2 ^ (b2 as u32));
    assert((r1 ^ (b1 as u32)) == (r2 ^ (b2 as u32)) ==> (r1 == r2 <==> b1 == b2)) by (bit_vector);
}

/// Two messages of one length that differ in exactly one byte leave the
/// register in different states.
proof fn lemma_register_detects_one_byte(a: Seq<u8>, b: Seq<u8>, at: int)
    requires
        a.len() == b.len(),
        0 <= at < a.len(),
        a[at] != b[at],
        forall|j: int| 0 <= j < a.len() && j != at ==> a[j] == b[j],
    ensures
        register_after(a) != register_after(b),
    decreases a.len(),
{
    let a0 = a.drop_last();
    let b0 = b.drop_last();
    if at == a.len() - 1 {
        assert(a0 =~= b0);
    } else {
        lemma_register_detects_one_byte(a0, b0, at);
    }
    if register_after(a) == register_after(b) {
        lemma_absorb_injective(register_after(a0), a.last(), register_after(b0), b.last());
    }
}

/// The checksum detects every change that is confined to one byte: two
/// messages of one length that differ at exactly one position have different
/// checksums.
pub proof fn lemma_crc32_detects_one_byte(a: Seq<u8>, b: Seq<u8>, at: int)
    requires
        a.len() == b.len(),
        0 <= at < a.len(),
        a[at] != b[at],
        forall|j: int| 0 <= j < a.len() && j != at ==> a[j] == b[j],
    ensures
        crc32(a) != crc32(b),
{
    lemma_register_detects_one_byte(a, b, at);
    let x = register_after(a);
    let y = register_after(b);
    assert(x != y ==> (x ^ 0xffff_ffffu32) != (y ^ 0xffff_ffffu32)) by (bit_vector);
}

} // verus!
