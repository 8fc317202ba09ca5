//! The record that the board keeps at the start of its EEPROM.
//!
//! The record is eight bytes long: a magic number and a word of unknown use,
//! two bytes each, then the hardware version in four bytes. Every number is
//! stored with its least significant byte first.

use vstd::prelude::*;

verus! {

/// The magic number of a record that was written before.
pub const EEPROM_MAGIC: u16 = 0xa55a;

/// The version given to a board whose record was never written. The version
/// decides which pin switches the battery, and boards in the field hold 10.
pub const DEFAULT_VERSION: u32 = 10;

/// The EEPROM record, decoded.
#[derive(Clone, Copy, Debug, PartialEq, Eq)]
pub struct EepromData {
    pub magic: u16,
    pub unknown: u16,
    pub version: u32,
}

/// The number that `bytes` holds, least significant byte first.
pub open spec fn little_endian(bytes: Seq<u8>) -> nat
    decreases bytes.len(),
{
    if bytes.len() == 0 {
        0
    } else {
        bytes[0] as nat + 256 * little_endian(bytes.drop_first())
    }
}

proof fn lemma_little_endian_two(bytes: Seq<u8>)
    requires
        bytes.len() == 2,
    ensures
        little_endian(bytes) == bytes[0] + 256 * bytes[1],
{
    reveal_with_fuel(little_endian, 3);
}

proof fn lemma_little_endian_four(bytes: Seq<u8>)
    requires
        bytes.len() == 4,
    ensures
        little_endian(bytes) == bytes[0] + 256 * bytes[1] + 0x1_0000 * bytes[2] + 0x100_0000
            * bytes[3],
{
    reveal_with_fuel(little_endian, 5);
}

/// The 32-bit number stored in four bytes.
pub fn word_from_bytes(bytes: [u8; 4]) -> (word: u32)
    ensures
        word == little_endian(bytes@),
{
    proof {
        lemma_little_endian_four(bytes@);
    }
    bytes[0] as u32 + 256 * (bytes[1] as u32) + 0x1_0000 * (bytes[2] as u32) + 0x100_0000 * (
    bytes[3] as u32)
}

/// The four bytes that store `word`, least significant byte first.
pub open spec fn word_bytes(word: u32) -> [u8; 4] {
    [
        (word % 256) as u8,
        (word / 256 % 256) as u8,
        (word / 0x1_0000 % 256) as u8,
        (word / 0x100_0000) as u8,
    ]
}

/// The four bytes that store a 32-bit number.
pub fn word_to_bytes(word: u32) -> (bytes: [u8; 4])
    ensures
        bytes == word_bytes(word),
{
    [
        (word % 256) as u8,
        (word / 256 % 256) as u8,
        (word / 0x1_0000 % 256) as u8,
        (word / 0x100_0000) as u8,
    ]
}

/// What was stored as four bytes is read back from them.
pub proof fn lemma_word_read_back(word: u32)
    ensures
        little_endian(word_bytes(word)@) == word,
{
    lemma_little_endian_four(word_bytes(word)@);
}

/// Four bytes are stored again as they were read.
pub proof fn lemma_word_stored_again(bytes: [u8; 4])
    ensures
        word_bytes(little_endian(bytes@) as u32) == bytes,
{
    lemma_little_endian_four(bytes@);
    let word = little_endian(bytes@) as u32;
    assert(word % 256 == bytes@[0]);
    assert(word / 256 == bytes@[1] + 256 * bytes@[2] + 0x1_0000 * bytes@[3]);
    assert(word / 256 % 256 == bytes@[1]);
    assert(word / 0x1_0000 == bytes@[2] + 256 * bytes@[3]);
    assert(word / 0x1_0000 % 256 == bytes@[2]);
    assert(word / 0x100_0000 == bytes@[3]);
    let stored = word_bytes(word)@;
    assert(stored[0] == bytes@[0] && stored[1] == bytes@[1]);
    assert(stored[2] == bytes@[2] && stored[3] == bytes@[3]);
    assert(stored =~= bytes@);
}

impl EepromData {
    /// The record that `bytes` stores.
    pub open spec fn decoded(bytes: Seq<u8>) -> EepromData {
        EepromData {
            magic: little_endian(bytes.subrange(0, 2)) as u16,
            unknown: little_endian(bytes.subrange(2, 4)) as u16,
            version: little_endian(bytes.subrange(4, 8)) as u32,
        }
    }

    /// The eight bytes that store the record.
    pub open spec fn encoded(self) -> [u8; 8] {
        [
            (self.magic % 256) as u8,
            (self.magic / 256) as u8,
            (self.unknown % 256) as u8,
            (self.unknown / 256) as u8,
            word_bytes(self.version)@[0],
            word_bytes(self.version)@[1],
            word_bytes(self.version)@[2],
            word_bytes(self.version)@[3],
        ]
    }

    /// The record of a board that had none.
    pub open spec fn fresh() -> EepromData {
        EepromData { magic: EEPROM_MAGIC, unknown: 0, version: DEFAULT_VERSION }
    }

    /// The record to work with when `self` was read: itself where it carries
    /// the magic number, the fresh one where it does not.
    pub open spec fn repaired(self) -> EepromData {
        if self.magic == EEPROM_MAGIC {
            self
        } else {
            EepromData::fresh()
        }
    }

    /// Decodes the eight bytes of a record.
    pub fn from_bytes(bytes: [u8; 8]) -> (data: EepromData)
        ensures
            data == EepromData::decoded(bytes@),
    {
        proof {
            lemma_little_endian_two(bytes@.subrange(0, 2));
            lemma_little_endian_two(bytes@.subrange(2, 4));
            assert(bytes@.subrange(4, 8) =~= [bytes[4], bytes[5], bytes[6], bytes[7]]@);
        }
        EepromData {
            magic: bytes[0] as u16 + 256 * (bytes[1] as u16),
            unknown: bytes[2] as u16 + 256 * (bytes[3] as u16),
            version: word_from_bytes([bytes[4], bytes[5], bytes[6], bytes[7]]),
        }
    }

    /// Encodes the record in eight bytes.
    pub fn to_bytes(self) -> (bytes: [u8; 8])
        ensures
            bytes == self.encoded(),
    {
        let version: [u8; 4] = word_to_bytes(self.version);
        [
            (self.magic % 256) as u8,
            (self.magic / 256) as u8,
            (self.unknown % 256) as u8,
            (self.unknown / 256) as u8,
            version[0],
            version[1],
            version[2],
            version[3],
        ]
    }
}

/// A record that was written is read back unchanged.
pub proof fn lemma_record_read_back(data: EepromData)
    ensures
        EepromData::decoded(data.encoded()@) == data,
{
    let bytes = data.encoded()@;
    lemma_little_endian_two(bytes.subrange(0, 2));
    lemma_little_endian_two(bytes.subrange(2, 4));
    assert(bytes.subrange(4, 8) =~= word_bytes(data.version)@);
    lemma_word_read_back(data.version);
}

/// Any eight bytes that were read as a record are written again as they were.
pub proof fn lemma_record_stored_again(bytes: [u8; 8])
    ensures
        EepromData::decoded(bytes@).encoded() == bytes,
{
    let data = EepromData::decoded(bytes@);
    let version: [u8; 4] = [bytes@[4], bytes@[5], bytes@[6], bytes@[7]];
    lemma_little_endian_two(bytes@.subrange(0, 2));
    lemma_little_endian_two(bytes@.subrange(2, 4));
    assert(bytes@.subrange(4, 8) =~= version@);
    lemma_word_stored_again(version);
    assert(data.encoded()@ =~= bytes@);
}

/// Four bytes hold the number that their digits to the base 256 make, the first
/// byte being the lowest digit.
pub proof fn lemma_word_in_numbers(bytes: Seq<u8>)
    requires
        bytes.len() == 4,
    ensures
        little_endian(bytes) == bytes[0] + 256 * bytes[1] + 0x1_0000 * bytes[2] + 0x100_0000
            * bytes[3],
{
    lemma_little_endian_four(bytes);
}

/// The bytes that store a number are its digits to the base 256, the lowest
/// first.
pub proof fn lemma_word_bytes_in_numbers(word: u32)
    ensures
        ({
            let bytes = word_bytes(word)@;
            bytes[0] + 256 * bytes[1] + 0x1_0000 * bytes[2] + 0x100_0000 * bytes[3] == word
        }),
{
}

/// Where a record keeps its numbers: the magic number in its first two bytes, the
/// unknown word in the next two, the version in the last four.
pub proof fn lemma_record_in_numbers(bytes: Seq<u8>)
    requires
        bytes.len() == 8,
    ensures
        ({
            let data = EepromData::decoded(bytes);
            &&& data.magic == bytes[0] + 256 * bytes[1]
            &&& data.unknown == bytes[2] + 256 * bytes[3]
            &&& data.version == bytes[4] + 256 * bytes[5] + 0x1_0000 * bytes[6] + 0x100_0000
                * bytes[7]
        }),
{
    lemma_little_endian_two(bytes.subrange(0, 2));
    lemma_little_endian_two(bytes.subrange(2, 4));
    lemma_little_endian_four(bytes.subrange(4, 8));
}

/// Where the numbers of a record are stored.
pub proof fn lemma_encoding_in_numbers(data: EepromData)
    ensures
        ({
            let bytes = data.encoded()@;
            &&& bytes[0] + 256 * bytes[1] == data.magic
            &&& bytes[2] + 256 * bytes[3] == data.unknown
            &&& bytes[4] + 256 * bytes[5] + 0x1_0000 * bytes[6] + 0x100_0000 * bytes[7]
                == data.version
        }),
{
    lemma_word_bytes_in_numbers(data.version);
}

/// A record is kept exactly if it starts with the bytes 5a a5. Any other is
/// replaced by 5a a5 00 00 0a 00 00 00: the magic number, 0, and version 10.
pub proof fn lemma_repair_in_numbers(bytes: Seq<u8>)
    requires
        bytes.len() == 8,
    ensures
        ({
            let data = EepromData::decoded(bytes);
            if bytes[0] == 0x5a && bytes[1] == 0xa5 {
                data.magic == 0xa55a && data.repaired() == data
            } else {
                &&& data.magic != 0xa55a
                &&& data.repaired() == EepromData { magic: 0xa55a, unknown: 0, version: 10 }
                &&& data.repaired() == EepromData::fresh()
            }
        }),
        EepromData::fresh().encoded() == [0x5au8, 0xa5u8, 0u8, 0u8, 10u8, 0u8, 0u8, 0u8],
        EEPROM_MAGIC == 0xa55a,
{
    lemma_record_in_numbers(bytes);
    assert(EepromData::fresh().encoded()@ =~= [0x5au8, 0xa5u8, 0u8, 0u8, 10u8, 0u8, 0u8, 0u8]@);
}

} // verus!
