//! Identifiers of programs and accounts.
use vstd::prelude::*;

verus! {

/// A 32-byte identifier of a program or an account, held as four 64-bit words,
/// the most significant first.
pub type Address = (u64, u64, u64, u64);

/// The word that eight bytes spell, the most significant byte first.
pub open spec fn word_of_bytes(bytes: Seq<u8>) -> u64
    recommends
        bytes.len() == 8,
{
    (bytes[0] * 0x0100_0000_0000_0000 + bytes[1] * 0x0001_0000_0000_0000 + bytes[2]
        * 0x0000_0100_0000_0000 + bytes[3] * 0x0000_0001_0000_0000 + bytes[4] * 0x0000_0000_0100_0000
        + bytes[5] * 0x0000_0000_0001_0000 + bytes[6] * 0x0000_0000_0000_0100 + bytes[7]) as u64
}

/// The eight bytes of a word, the most significant first.
pub open spec fn bytes_of_word(word: u64) -> Seq<u8> {
    seq![
        (word / 0x0100_0000_0000_0000) as u8,
        (word / 0x0001_0000_0000_0000 % 0x100) as u8,
        (word / 0x0000_0100_0000_0000 % 0x100) as u8,
        (word / 0x0000_0001_0000_0000 % 0x100) as u8,
        (word / 0x0000_0000_0100_0000 % 0x100) as u8,
        (word / 0x0000_0000_0001_0000 % 0x100) as u8,
        (word / 0x0000_0000_0000_0100 % 0x100) as u8,
        (word % 0x100) as u8,
    ]
}

/// The address that 32 bytes spell.
pub open spec fn address_of_bytes(bytes: Seq<u8>) -> Address
    recommends
        bytes.len() == 32,
{
    (
        word_of_bytes(bytes.subrange(0, 8)),
        word_of_bytes(bytes.subrange(8, 16)),
        word_of_bytes(bytes.subrange(16, 24)),
        word_of_bytes(bytes.subrange(24, 32)),
    )
}

/// The 32 bytes of an address.
pub open spec fn bytes_of_address(address: Address) -> Seq<u8> {
    bytes_of_word(address.0) + bytes_of_word(address.1) + bytes_of_word(address.2) + bytes_of_word(
        address.3,
    )
}

/// A word is the word that its bytes spell.
pub proof fn lemma_word_round_trip(word: u64)
    ensures
        bytes_of_word(word).len() == 8,
        word_of_bytes(bytes_of_word(word)) == word,
{
    let q1 = word / 0x0000_0000_0000_0100;
    let q2 = word / 0x0000_0000_0001_0000;
    let q3 = word / 0x0000_0000_0100_0000;
    let q4 = word / 0x0000_0001_0000_0000;
    let q5 = word / 0x0000_0100_0000_0000;
    let q6 = word / 0x0001_0000_0000_0000;
    let q7 = word / 0x0100_0000_0000_0000;
    assert(word == q1 * 0x100 + word % 0x100);
    assert(q2 == q1 / 0x100);
    assert(q3 == q2 / 0x100);
    assert(q4 == q3 / 0x100);
    assert(q5 == q4 / 0x100);
    assert(q6 == q5 / 0x100);
    assert(q7 == q6 / 0x100);
    assert(q1 == q2 * 0x100 + q1 % 0x100);
    assert(q2 == q3 * 0x100 + q2 % 0x100);
    assert(q3 == q4 * 0x100 + q3 % 0x100);
    assert(q4 == q5 * 0x100 + q4 % 0x100);
    assert(q5 == q6 * 0x100 + q5 % 0x100);
    assert(q6 == q7 * 0x100 + q6 % 0x100);
    assert(q7 < 0x100);
}

/// Eight bytes are the bytes of the word that they spell.
pub proof fn lemma_word_bytes_round_trip(bytes: Seq<u8>)
    requires
        bytes.len() == 8,
    ensures
        bytes_of_word(word_of_bytes(bytes)) == bytes,
{
    let r7 = bytes[7] as int;
    let r6 = r7 + bytes[6] * 0x0000_0000_0000_0100;
    let r5 = r6 + bytes[5] * 0x0000_0000_0001_0000;
    let r4 = r5 + bytes[4] * 0x0000_0000_0100_0000;
    let r3 = r4 + bytes[3] * 0x0000_0001_0000_0000;
    let r2 = r3 + bytes[2] * 0x0000_0100_0000_0000;
    let r1 = r2 + bytes[1] * 0x0001_0000_0000_0000;
    let word = word_of_bytes(bytes);
    assert(word == r1 + bytes[0] * 0x0100_0000_0000_0000);
    assert(word / 0x0100_0000_0000_0000 == bytes[0]);
    assert(word / 0x0001_0000_0000_0000 == bytes[0] * 0x100 + bytes[1]);
    assert(word / 0x0000_0100_0000_0000 == (bytes[0] * 0x100 + bytes[1]) * 0x100 + bytes[2]);
    assert(word / 0x0000_0001_0000_0000 == ((bytes[0] * 0x100 + bytes[1]) * 0x100 + bytes[2])
        * 0x100 + bytes[3]);
    assert(word / 0x0000_0000_0100_0000 == (((bytes[0] * 0x100 + bytes[1]) * 0x100 + bytes[2])
        * 0x100 + bytes[3]) * 0x100 + bytes[4]);
    assert(word / 0x0000_0000_0001_0000 == ((((bytes[0] * 0x100 + bytes[1]) * 0x100 + bytes[2])
        * 0x100 + bytes[3]) * 0x100 + bytes[4]) * 0x100 + bytes[5]);
    assert(word / 0x0000_0000_0000_0100 == (((((bytes[0] * 0x100 + bytes[1]) * 0x100 + bytes[2])
        * 0x100 + bytes[3]) * 0x100 + bytes[4]) * 0x100 + bytes[5]) * 0x100 + bytes[6]);
    assert(bytes_of_word(word) =~= bytes);
}

/// An address is the address that its bytes spell.
pub proof fn lemma_address_round_trip(address: Address)
    ensures
        bytes_of_address(address).len() == 32,
        address_of_bytes(bytes_of_address(address)) == address,
{
    let bytes = bytes_of_address(address);
    assert(bytes.subrange(0, 8) =~= bytes_of_word(address.0));
    assert(bytes.subrange(8, 16) =~= bytes_of_word(address.1));
    assert(bytes.subrange(16, 24) =~= bytes_of_word(address.2));
    assert(bytes.subrange(24, 32) =~= bytes_of_word(address.3));
    lemma_word_round_trip(address.0);
    lemma_word_round_trip(address.1);
    lemma_word_round_trip(address.2);
    lemma_word_round_trip(address.3);
}

/// 32 bytes are the bytes of the address that they spell, so different bytes
/// spell different addresses.
pub proof fn lemma_address_bytes_round_trip(bytes: Seq<u8>)
    requires
        bytes.len() == 32,
    ensures
        bytes_of_address(address_of_bytes(bytes)) == bytes,
{
    lemma_word_bytes_round_trip(bytes.subrange(0, 8));
    lemma_word_bytes_round_trip(bytes.subrange(8, 16));
    lemma_word_bytes_round_trip(bytes.subrange(16, 24));
    lemma_word_bytes_round_trip(bytes.subrange(24, 32));
    assert(bytes_of_address(address_of_bytes(bytes)) =~= bytes);
}

/// The word that the eight bytes of `bytes` from `start` on spell.
fn word_from_bytes(bytes: &[u8; 32], start: usize) -> (word: u64)
    requires
        start + 8 <= 32,
    ensures
        word == word_of_bytes(bytes@.subrange(start as int, start + 8)),
{
    let word: u64 = bytes[start] as u64 * 0x0100_0000_0000_0000 + bytes[start + 1] as u64
        * 0x0001_0000_0000_0000 + bytes[start + 2] as u64 * 0x0000_0100_0000_0000 + bytes[start
        + 3] as u64 * 0x0000_0001_0000_0000 + bytes[start + 4] as u64 * 0x0000_0000_0100_0000
        + bytes[start + 5] as u64 * 0x0000_0000_0001_0000 + bytes[start + 6] as u64
        * 0x0000_0000_0000_0100 + bytes[start + 7] as u64;
    word
}

/// The address that `bytes` spell.
pub fn address_from_bytes(bytes: &[u8; 32]) -> (address: Address)
    ensures
        address == address_of_bytes(bytes@),
{
    (
        word_from_bytes(bytes, 0),
        word_from_bytes(bytes, 8),
        word_from_bytes(bytes, 16),
        word_from_bytes(bytes, 24),
    )
}

/// Writes the eight bytes of `word` into `bytes` from `start` on.
fn word_to_bytes(word: u64, bytes: &mut [u8; 32], start: usize)
    requires
        start + 8 <= 32,
    ensures
        final(bytes)@.subrange(start as int, start + 8) == bytes_of_word(word),
        forall|at: int|
            0 <= at < 32 && !(start <= at < start + 8) ==> final(bytes)@[at] == old(bytes)@[at],
{
    bytes[start] = (word / 0x0100_0000_0000_0000) as u8;
    bytes[start + 1] = (word / 0x0001_0000_0000_0000 % 0x100) as u8;
    bytes[start + 2] = (word / 0x0000_0100_0000_0000 % 0x100) as u8;
    bytes[start + 3] = (word / 0x0000_0001_0000_0000 % 0x100) as u8;
    bytes[start + 4] = (word / 0x0000_0000_0100_0000 % 0x100) as u8;
    bytes[start + 5] = (word / 0x0000_0000_0001_0000 % 0x100) as u8;
    bytes[start + 6] = (word / 0x0000_0000_0000_0100 % 0x100) as u8;
    bytes[start + 7] = (word % 0x100) as u8;
    assert(bytes@.subrange(start as int, start + 8) =~= bytes_of_word(word));
}

/// The 32 bytes of `address`.
pub fn address_to_bytes(address: &Address) -> (bytes: [u8; 32])
    ensures
        bytes@ == bytes_of_address(*address),
{
    let mut bytes: [u8; 32] = [0u8; 32];
    word_to_bytes(address.0, &mut bytes, 0);
    word_to_bytes(address.1, &mut bytes, 8);
    word_to_bytes(address.2, &mut bytes, 16);
    word_to_bytes(address.3, &mut bytes, 24);
    assert(bytes@ =~= bytes_of_address(*address));
    bytes
}

} // verus!
