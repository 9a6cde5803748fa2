//! Functions of other crates that the library relies on, with what it relies on.

use vstd::prelude::*;

verus! {

/// The text that `String::from_utf8_lossy` makes of bytes.
pub uninterp spec fn utf8_lossy(bytes: Seq<u8>) -> Seq<char>;

/// The text that `String::from_utf16_lossy` makes of words.
pub uninterp spec fn utf16_lossy(words: Seq<u16>) -> Seq<char>;

/// The CRC-32 checksum that `crc32fast::hash` computes for a byte sequence.
pub uninterp spec fn crc32_of(data: Seq<u8>) -> u32;

/// What `lz4_flex::decompress` makes of an LZ4 block when it may produce up to
/// `size` bytes; nothing where it reports an error.
pub uninterp spec fn lz4_decoded(block: Seq<u8>, size: nat) -> Option<Seq<u8>>;

/// Longest LZ4 block for an input of this length, as
/// `lz4_flex::block::get_maximum_output_size` documents it.
pub open spec fn lz4_bound(length: int) -> int {
    20 + length * 110 / 100
}

/// The error that `lz4_flex::decompress` reports for a malformed block.
#[verifier::external_type_specification]
#[verifier::external_body]
pub struct ExDecompressError(lz4_flex::block::DecompressError);

/// Calls `crc32fast::hash`. The checksum depends on the bytes alone.
#[verifier::external_body]
pub(crate) fn crc32(data: &[u8]) -> (checksum: u32)
    ensures
        checksum == crc32_of(data@),
{
    crc32fast::hash(data)
}

/// Calls `lz4_flex::compress`. The block decompresses to the input when as many
/// bytes are allowed as the input has, and is no longer than the documented
/// bound. Which of the possible blocks it is depends on the machine and is left
/// unsaid.
#[verifier::external_body]
pub(crate) fn lz4_compress(data: &[u8]) -> (block: Vec<u8>)
    requires
        data@.len() <= 0x0800_0000,
    ensures
        lz4_decoded(block@, data@.len()) == Some(data@),
        block@.len() <= lz4_bound(data@.len() as int),
{
    lz4_flex::compress(data)
}

/// Whether the lengths that `lz4_flex::decompress` can add up for a block fit the
/// host: a length is written as bytes of up to 255 that are added up, and comes on
/// top of at most 19 and of the bytes that are out already.
pub open spec fn lz4_lengths_fit(block_len: int, size: int) -> bool {
    block_len * 255 + size + 19 <= usize::MAX
}

/// Calls `lz4_flex::decompress`. The outcome depends on the block and on the
/// number of bytes allowed; which of its errors is reported is left unsaid. It adds
/// up the lengths in a block unchecked, so a block in which they could be too large
/// for the host is left out, and it reserves all the bytes allowed at once.
#[verifier::external_body]
pub(crate) fn lz4_decompress(block: &[u8], size: usize) -> (result: Result<
    Vec<u8>,
    lz4_flex::block::DecompressError,
>)
    requires
        lz4_lengths_fit(block@.len() as int, size as int),
        size <= 0x0800_0000,
    ensures
        match result {
            Ok(data) => lz4_decoded(block@, size as nat) == Some(data@),
            Err(_) => lz4_decoded(block@, size as nat) is None,
        },
{
    lz4_flex::decompress(block, size)
}

/// `String::push` appends one character.
pub assume_specification[ String::push ](string: &mut String, character: char)
    ensures
        final(string)@ == old(string)@.push(character),
;

/// Calls `String::from_utf8_lossy`. Valid UTF-8 is decoded as it is; how
/// invalid bytes are replaced is left to the name.
#[verifier::external_body]
pub(crate) fn text_from_utf8(bytes: &[u8]) -> (text: String)
    ensures
        text@ == utf8_lossy(bytes@),
        vstd::utf8::valid_utf8(bytes@) ==> text@ == vstd::utf8::decode_utf8(bytes@),
{
    String::from_utf8_lossy(bytes).into_owned()
}

/// Calls `String::from_utf16_lossy`. Words outside the surrogate range stand
/// for themselves; how surrogates are combined or replaced is left to the name.
#[verifier::external_body]
pub(crate) fn text_from_utf16(words: &[u16]) -> (text: String)
    ensures
        text@ == utf16_lossy(words@),
        (forall|i: int| 0 <= i < words@.len() ==> !(0xd800 <= #[trigger] words@[i] <= 0xdfff))
            ==> text@ == words@.map_values(|word: u16| word as char),
{
    String::from_utf16_lossy(words)
}

} // verus!
