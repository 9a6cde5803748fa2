//! Text: comparison, numbers, and the strings of guest memory.

use crate::memory::{guest_read, Memory, MemoryView, Width};
use crate::outside::{text_from_utf16, text_from_utf8, utf16_lossy, utf8_lossy};
use vstd::prelude::*;
use vstd::string::*;

verus! {

/// Longest guest string that is read, in characters.
pub const MAX_GUEST_STRING: usize = 1_024;

/// Whether two byte sequences are equal.
pub fn bytes_equal(left: &[u8], right: &[u8]) -> (equal: bool)
    ensures
        equal == (left@ == right@),
{
    if left.len() != right.len() {
        return false;
    }
    let mut index: usize = 0;
    while index < left.len()
        invariant
            index <= left@.len(),
            left@.len() == right@.len(),
            forall|i: int| 0 <= i < index ==> left@[i] == right@[i],
        decreases left@.len() - index,
    {
        if left[index] != right[index] {
            return false;
        }
        index = index + 1;
    }
    assert(left@ =~= right@);
    true
}

/// Whether two strings are equal.
pub fn text_equal(left: &str, right: &str) -> (equal: bool)
    ensures
        equal == (left@ == right@),
{
    broadcast use vstd::utf8::group_utf8_lib;

    let equal: bool = bytes_equal(left.as_bytes(), right.as_bytes());
    proof {
        if equal {
            assert(vstd::utf8::decode_utf8(left.spec_bytes()) == left@);
            assert(vstd::utf8::decode_utf8(right.spec_bytes()) == right@);
        }
    }
    equal
}

/// An ASCII letter in lower case; any other byte as it is.
pub open spec fn lower(byte: u8) -> u8 {
    if 0x41 <= byte <= 0x5a {
        (byte + 0x20) as u8
    } else {
        byte
    }
}

/// An ASCII letter in lower case; any other byte as it is.
pub fn to_lower(byte: u8) -> (result: u8)
    ensures
        result == lower(byte),
{
    if 0x41 <= byte && byte <= 0x5a {
        byte + 0x20
    } else {
        byte
    }
}

/// The character for a digit.
pub open spec fn digit_char(digit: int, uppercase: bool) -> char {
    if digit < 10 {
        (0x30 + digit) as char
    } else if uppercase {
        (0x37 + digit) as char
    } else {
        (0x57 + digit) as char
    }
}

/// Dividing by a base of at least two makes a number smaller.
pub proof fn lemma_quotient_shrinks(value: nat, base: nat)
    by (nonlinear_arith)
    requires
        2 <= base <= value,
    ensures
        value / base < value,
{
}

/// A number in positional notation.
pub open spec fn digits(value: nat, base: nat, uppercase: bool) -> Seq<char>
    decreases value,
{
    if base < 2 || value < base {
        seq![digit_char(value as int, uppercase)]
    } else {
        proof {
            lemma_quotient_shrinks(value, base);
        }
        digits(value / base, base, uppercase).push(digit_char((value % base) as int, uppercase))
    }
}

/// A number in decimal notation.
pub open spec fn decimal(value: nat) -> Seq<char> {
    digits(value, 10, false)
}

/// Appends a number in positional notation.
pub fn push_digits(output: &mut String, value: u128, base: u128, uppercase: bool)
    requires
        2 <= base <= 16,
    ensures
        final(output)@ == old(output)@ + digits(value as nat, base as nat, uppercase),
    decreases value,
{
    if value < base {
        push_digit(output, value as u8, uppercase);
    } else {
        proof {
            lemma_quotient_shrinks(value as nat, base as nat);
        }
        push_digits(output, value / base, base, uppercase);
        push_digit(output, (value % base) as u8, uppercase);
    }
    assert(output@ =~= old(output)@ + digits(value as nat, base as nat, uppercase));
}

fn push_digit(output: &mut String, digit: u8, uppercase: bool)
    requires
        digit < 16,
    ensures
        final(output)@ == old(output)@.push(digit_char(digit as int, uppercase)),
{
    let code: u8 = if digit < 10 {
        0x30 + digit
    } else if uppercase {
        0x37 + digit
    } else {
        0x57 + digit
    };
    output.push(code as char);
}

/// Appends a number in decimal notation.
pub fn push_decimal(output: &mut String, value: u128)
    ensures
        final(output)@ == old(output)@ + decimal(value as nat),
{
    push_digits(output, value, 10, false);
}

/// A character repeated.
pub open spec fn repeated(character: char, count: nat) -> Seq<char> {
    Seq::new(count, |i: int| character)
}

/// Appends a character a number of times.
pub fn push_repeated(output: &mut String, character: char, count: usize)
    ensures
        final(output)@ == old(output)@ + repeated(character, count as nat),
{
    let mut index: usize = 0;
    assert(output@ =~= old(output)@ + repeated(character, 0));
    while index < count
        invariant
            index <= count,
            output@ == old(output)@ + repeated(character, index as nat),
        decreases count - index,
    {
        output.push(character);
        index = index + 1;
        assert(output@ =~= old(output)@ + repeated(character, index as nat));
    }
}

/// Length of a string in bytes.
pub open spec fn byte_len(text: Seq<char>) -> usize {
    vstd::utf8::encode_utf8(text).len() as usize
}

/// The bytes of a guest string from `offset` on: up to a zero, an inaccessible
/// address or the longest length.
pub open spec fn c_bytes_from(memory: MemoryView, pointer: u32, offset: int) -> Seq<u8>
    decreases MAX_GUEST_STRING - offset,
{
    if offset >= MAX_GUEST_STRING {
        Seq::empty()
    } else {
        match guest_read(memory, pointer.wrapping_add(offset as u32), Width::Byte) {
            Some(byte) => if byte == 0 {
                Seq::empty()
            } else {
                seq![byte as u8] + c_bytes_from(memory, pointer, offset + 1)
            },
            None => Seq::empty(),
        }
    }
}

/// The bytes of a guest string.
pub open spec fn c_bytes(memory: MemoryView, pointer: u32) -> Seq<u8> {
    c_bytes_from(memory, pointer, 0)
}

/// The text of a guest string.
pub open spec fn c_string(memory: MemoryView, pointer: u32) -> Seq<char> {
    utf8_lossy(c_bytes(memory, pointer))
}

/// The words of a wide guest string from number `index` on.
pub open spec fn w_words_from(memory: MemoryView, pointer: u32, index: int) -> Seq<u16>
    decreases MAX_GUEST_STRING - index,
{
    if index >= MAX_GUEST_STRING {
        Seq::empty()
    } else {
        match guest_read(memory, pointer.wrapping_add((2 * index) as u32), Width::Half) {
            Some(word) => if word == 0 {
                Seq::empty()
            } else {
                seq![word as u16] + w_words_from(memory, pointer, index + 1)
            },
            None => Seq::empty(),
        }
    }
}

/// The words of a wide guest string.
pub open spec fn w_words(memory: MemoryView, pointer: u32) -> Seq<u16> {
    w_words_from(memory, pointer, 0)
}

/// Reads the bytes of a guest string.
pub fn read_guest_c_bytes(memory: &Memory, pointer: u32) -> (bytes: Vec<u8>)
    ensures
        bytes@ == c_bytes(memory@, pointer),
        bytes@.len() <= MAX_GUEST_STRING,
{
    let mut bytes: Vec<u8> = Vec::new();
    assert(bytes@ + c_bytes_from(memory@, pointer, 0) =~= c_bytes(memory@, pointer));
    while bytes.len() < MAX_GUEST_STRING
        invariant_except_break
            bytes@ + c_bytes_from(memory@, pointer, bytes@.len() as int) == c_bytes(
                memory@,
                pointer,
            ),
        invariant
            bytes@.len() <= MAX_GUEST_STRING,
        ensures
            bytes@ == c_bytes(memory@, pointer),
        decreases MAX_GUEST_STRING - bytes@.len(),
    {
        let ghost before = bytes@;
        match memory.read_u8(pointer.wrapping_add(bytes.len() as u32)) {
            Ok(byte) => {
                if byte == 0 {
                    assert(before + Seq::<u8>::empty() =~= before);
                    break;
                }
                bytes.push(byte);
                assert(bytes@ + c_bytes_from(memory@, pointer, bytes@.len() as int) =~= before + (
                seq![byte] + c_bytes_from(memory@, pointer, before.len() as int + 1)));
            },
            Err(_) => {
                assert(before + Seq::<u8>::empty() =~= before);
                break;
            },
        }
        if bytes.len() >= MAX_GUEST_STRING {
            assert(bytes@ + Seq::<u8>::empty() =~= bytes@);
        }
    }
    bytes
}

/// Reads a guest string.
pub fn read_guest_c_string(memory: &Memory, pointer: u32) -> (text: String)
    ensures
        text@ == c_string(memory@, pointer),
{
    let bytes: Vec<u8> = read_guest_c_bytes(memory, pointer);
    text_from_utf8(bytes.as_slice())
}

/// Reads the words of a wide guest string.
pub fn read_guest_w_string_words(memory: &Memory, pointer: u32) -> (words: Vec<u16>)
    ensures
        words@ == w_words(memory@, pointer),
        words@.len() <= MAX_GUEST_STRING,
{
    let mut words: Vec<u16> = Vec::new();
    assert(words@ + w_words_from(memory@, pointer, 0) =~= w_words(memory@, pointer));
    while words.len() < MAX_GUEST_STRING
        invariant_except_break
            words@ + w_words_from(memory@, pointer, words@.len() as int) == w_words(
                memory@,
                pointer,
            ),
        invariant
            words@.len() <= MAX_GUEST_STRING,
        ensures
            words@ == w_words(memory@, pointer),
        decreases MAX_GUEST_STRING - words@.len(),
    {
        let ghost before = words@;
        match memory.read_u16(pointer.wrapping_add((2 * words.len()) as u32)) {
            Ok(word) => {
                if word == 0 {
                    assert(before + Seq::<u16>::empty() =~= before);
                    break;
                }
                words.push(word);
                assert(words@ + w_words_from(memory@, pointer, words@.len() as int) =~= before + (
                seq![word] + w_words_from(memory@, pointer, before.len() as int + 1)));
            },
            Err(_) => {
                assert(before + Seq::<u16>::empty() =~= before);
                break;
            },
        }
        if words.len() >= MAX_GUEST_STRING {
            assert(words@ + Seq::<u16>::empty() =~= words@);
        }
    }
    words
}

/// Reads a wide guest string.
pub fn read_guest_w_string(memory: &Memory, pointer: u32) -> (text: String)
    ensures
        text@ == utf16_lossy(w_words(memory@, pointer)),
{
    let words: Vec<u16> = read_guest_w_string_words(memory, pointer);
    text_from_utf16(words.as_slice())
}

/// A character in UTF-16.
pub open spec fn utf16_units(character: char) -> Seq<u16> {
    let code = character as u32;
    if code < 0x1_0000 {
        seq![code as u16]
    } else {
        seq![
            (0xd800 + (code - 0x1_0000) / 0x400) as u16,
            (0xdc00 + (code - 0x1_0000) % 0x400) as u16,
        ]
    }
}

/// Text in UTF-16.
pub open spec fn utf16_encoded(text: Seq<char>) -> Seq<u16>
    decreases text.len(),
{
    if text.len() == 0 {
        Seq::empty()
    } else {
        utf16_encoded(text.drop_last()) + utf16_units(text.last())
    }
}

/// Encodes text in UTF-16.
pub fn encode_utf16(text: &str) -> (words: Vec<u16>)
    ensures
        words@ == utf16_encoded(text@),
{
    let mut words: Vec<u16> = Vec::new();
    let length: usize = text.unicode_len();
    let mut index: usize = 0;
    assert(text@.take(0) =~= Seq::<char>::empty());
    while index < length
        invariant
            index <= length,
            length == text@.len(),
            words@ == utf16_encoded(text@.take(index as int)),
        decreases length - index,
    {
        let character: char = text.get_char(index);
        let code: u32 = character as u32;
        let ghost before = words@;
        proof {
            assert(text@.take(index + 1).drop_last() =~= text@.take(index as int));
            assert(text@.take(index + 1).last() == character);
        }
        if code < 0x1_0000 {
            words.push(code as u16);
        } else {
            let rest: u32 = code - 0x1_0000;
            words.push((0xd800 + rest / 0x400) as u16);
            words.push((0xdc00 + rest % 0x400) as u16);
        }
        assert(words@ =~= before + utf16_units(character));
        index = index + 1;
    }
    assert(text@.take(index as int) =~= text@);
    words
}

} // verus!
