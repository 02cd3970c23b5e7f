//! The 32-bit fingerprint that identifies an exported function in both worlds.

use vstd::prelude::*;

verus! {

/// The generator polynomial of CRC-32/CKSUM, without its leading term.
pub const CKSUM_POLYNOMIAL: u32 = 0x04C1_1DB7;

/// One step of the division: the register moves up by one bit, and where a
/// one falls out at the top, the polynomial is taken off.
pub open spec fn crc_shift(register: u32) -> u32 {
    if register & 0x8000_0000 != 0 {
        (register << 1) ^ CKSUM_POLYNOMIAL
    } else {
        register << 1
    }
}

/// A number of steps of the division.
pub open spec fn crc_shifts(register: u32, steps: nat) -> u32
    decreases steps,
{
    if steps == 0 {
        register
    } else {
        crc_shifts(crc_shift(register), (steps - 1) as nat)
    }
}

/// The register after a byte string has gone through the division: it starts
/// at zero, and each byte enters at the top and is divided through bit by
/// bit.
pub open spec fn crc_register(bytes: Seq<u8>) -> u32
    decreases bytes.len(),
{
    if bytes.len() == 0 {
        0
    } else {
        crc_shifts(crc_register(bytes.drop_last()) ^ ((bytes.last() as u32) << 24), 8)
    }
}

/// The CRC-32/CKSUM checksum of a byte string: polynomial `0x04C11DB7`, start
/// value zero, no reflection, every bit of the result turned over.
pub open spec fn crc32_cksum(bytes: Seq<u8>) -> u32 {
    crc_register(bytes) ^ 0xFFFF_FFFF
}

/// The hash of a function name: the checksum of the name's UTF-8 bytes.
pub open spec fn name_hash(name: Seq<char>) -> u32 {
    crc32_cksum(vstd::utf8::encode_utf8(name))
}

/// Calls `crc::Crc::<u32>::checksum` with the parameters of the catalog's
/// `CRC_32_CKSUM`. That the crate's table-driven computation gives the
/// checksum as it is defined bit by bit is taken from the crate and not
/// proved here.
#[verifier::external_body]
fn checksum(bytes: &[u8]) -> (sum: u32)
    ensures
        sum == crc32_cksum(bytes@),
{
    crc::Crc::<u32>::new(&crc::CRC_32_CKSUM).checksum(bytes)
}

/// Hashes the name of an exported function. Every component that fills or
/// searches a vector table uses this one function, so equal names always get
/// equal hashes.
pub fn hash_vector_name(name: &str) -> (hash: u32)
    ensures
        hash == name_hash(name@),
{
    checksum(name.as_bytes())
}

/// The empty name has the hash `0xFFFFFFFF`, which is not the hash of a
/// sentinel.
pub proof fn lemma_hash_of_empty_name()
    ensures
        name_hash(Seq::<char>::empty()) == 0xFFFF_FFFFu32,
        name_hash(Seq::<char>::empty()) != 0,
{
    assert(vstd::utf8::encode_utf8(Seq::<char>::empty()) =~= Seq::<u8>::empty());
    assert(0u32 ^ 0xFFFF_FFFFu32 == 0xFFFF_FFFFu32) by (bit_vector);
}

} // verus!
