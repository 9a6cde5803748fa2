//! Texts of the guest.

use crate::app_image::ResourceKind;
use crate::laws::blocks::{behind, found, lemma_found};
use crate::memory::{guest_read, MemoryView, Width};
use crate::resource::{expanded, is_bin, last_dot, resource_view};
use crate::save_state::{le_word, word_in};
use crate::sdk_hle::files::{name_arguments, resource_name, returns_to_firmware};
use crate::search::lowered;
use crate::text::{
    c_bytes, c_bytes_from, c_string, lower, utf16_encoded, utf16_units, w_words, w_words_from,
};
use vstd::prelude::*;

verus! {

/// A capital letter becomes the letter at the same place of the small ones; any other
/// byte stays.
pub proof fn law_letters_are_lowered(byte: u8)
    ensures
        'A' <= byte as char <= 'Z' ==> lower(byte) - 'a' as int == byte - 'A' as int,
        !('A' <= byte as char <= 'Z') ==> lower(byte) == byte,
{
}

proof fn lemma_c_bytes(memory: MemoryView, pointer: u32, offset: int)
    requires
        memory.sized(),
        0 <= offset <= 1024,
    ensures
        ({
            let bytes = c_bytes_from(memory, pointer, offset);
            &&& bytes.len() <= 1024 - offset
            &&& forall|i: int|
                0 <= i < bytes.len() ==> {
                    &&& #[trigger] bytes[i] != 0
                    &&& found(memory, behind(pointer, offset + i)) == Some(bytes[i])
                }
            &&& bytes.len() < 1024 - offset ==> {
                let end = found(memory, behind(pointer, offset + bytes.len()));
                end is None || end == Some(0u8)
            }
        }),
    decreases 1024 - offset,
{
    if offset < 1024 {
        lemma_c_bytes(memory, pointer, offset + 1);
        let address = pointer.wrapping_add(offset as u32);
        lemma_found(memory, address);
        assert(address == behind(pointer, offset));
        let bytes = c_bytes_from(memory, pointer, offset);
        let rest = c_bytes_from(memory, pointer, offset + 1);
        if bytes.len() > 0 {
            assert forall|i: int| 0 <= i < bytes.len() implies #[trigger] bytes[i] != 0 && found(
                memory,
                behind(pointer, offset + i),
            ) == Some(bytes[i]) by {
                if i > 0 {
                    assert(bytes[i] == rest[i - 1]);
                    assert(offset + i == offset + 1 + (i - 1));
                }
            }
            assert(offset + bytes.len() == offset + 1 + rest.len());
        }
    }
}

/// A guest string is made of the bytes from its address on, before the first zero, the end
/// of memory or the longest length.
pub proof fn law_guest_strings(memory: MemoryView, pointer: u32)
    requires
        memory.sized(),
    ensures
        ({
            let bytes = c_bytes(memory, pointer);
            &&& bytes.len() <= 1024
            &&& forall|i: int|
                0 <= i < bytes.len() ==> {
                    &&& #[trigger] bytes[i] != 0
                    &&& found(memory, behind(pointer, i)) == Some(bytes[i])
                }
            &&& bytes.len() < 1024 ==> {
                let end = found(memory, behind(pointer, bytes.len() as int));
                end is None || end == Some(0u8)
            }
        }),
{
    lemma_c_bytes(memory, pointer, 0);
}

/// The word that stands at a number of words behind an address.
pub open spec fn word_behind(memory: MemoryView, pointer: u32, index: int) -> Option<u32> {
    guest_read(memory, pointer.wrapping_add((2 * index) as u32), Width::Half)
}

proof fn lemma_w_words(memory: MemoryView, pointer: u32, index: int)
    requires
        0 <= index <= 1024,
    ensures
        ({
            let words = w_words_from(memory, pointer, index);
            &&& words.len() <= 1024 - index
            &&& forall|i: int|
                0 <= i < words.len() ==> {
                    &&& #[trigger] words[i] != 0
                    &&& word_behind(memory, pointer, index + i) == Some(words[i] as u32)
                }
            &&& words.len() < 1024 - index ==> {
                let end = word_behind(memory, pointer, index + words.len());
                end is None || end == Some(0u32)
            }
        }),
    decreases 1024 - index,
{
    if index < 1024 {
        lemma_w_words(memory, pointer, index + 1);
        let words = w_words_from(memory, pointer, index);
        let rest = w_words_from(memory, pointer, index + 1);
        let address = pointer.wrapping_add((2 * index) as u32);
        assert(word_behind(memory, pointer, index) matches Some(word) ==> word < 0x1_0000);
        if words.len() > 0 {
            assert forall|i: int| 0 <= i < words.len() implies #[trigger] words[i] != 0
                && word_behind(memory, pointer, index + i) == Some(words[i] as u32) by {
                if i > 0 {
                    assert(words[i] == rest[i - 1]);
                    assert(index + i == index + 1 + (i - 1));
                }
            }
            assert(index + words.len() == index + 1 + rest.len());
        }
    }
}

/// A wide guest string is made of the words from its address on, before the first zero,
/// the end of memory or the longest length.
pub proof fn law_wide_guest_strings(memory: MemoryView, pointer: u32)
    ensures
        ({
            let words = w_words(memory, pointer);
            &&& words.len() <= 1024
            &&& forall|i: int|
                0 <= i < words.len() ==> {
                    &&& #[trigger] words[i] != 0
                    &&& word_behind(memory, pointer, i) == Some(words[i] as u32)
                }
            &&& words.len() < 1024 ==> {
                let end = word_behind(memory, pointer, words.len() as int);
                end is None || end == Some(0u32)
            }
        }),
{
    lemma_w_words(memory, pointer, 0);
}

/// A character is one word, its number; or two, an upper one and a lower one of the words
/// that are kept for that, which give its number in steps of 1024 and of one.
pub proof fn law_characters_in_words(character: char)
    ensures
        ({
            let units = utf16_units(character);
            let code = character as u32 as int;
            if code < 65536 {
                units.len() == 1 && units[0] == code
            } else {
                &&& units.len() == 2
                &&& 0xd800 <= units[0] < 0xdc00
                &&& 0xdc00 <= units[1] < 0xe000
                &&& code == 65536 + 1024 * (units[0] - 0xd800) + (units[1] - 0xdc00)
            }
        }),
{
}

/// The words of a text are those of its characters, one behind the other.
pub proof fn law_texts_in_words(left: Seq<char>, right: Seq<char>)
    ensures
        utf16_encoded(left + right) == utf16_encoded(left) + utf16_encoded(right),
        left.len() == 1 ==> utf16_encoded(left) == utf16_units(left[0]),
    decreases right.len(),
{
    if left.len() == 1 {
        assert(left.drop_last() =~= Seq::<char>::empty());
        assert(left.last() == left[0]);
        assert(utf16_encoded(left.drop_last()).len() == 0);
        assert(utf16_encoded(left) =~= utf16_units(left[0]));
    }
    if right.len() == 0 {
        assert(left + right =~= left);
        assert(utf16_encoded(left + right) =~= utf16_encoded(left) + utf16_encoded(right));
    } else {
        law_texts_in_words(left, right.drop_last());
        assert((left + right).drop_last() =~= left + right.drop_last());
        assert(utf16_encoded(left + right) =~= utf16_encoded(left) + utf16_encoded(right));
    }
}

proof fn lemma_last_dot(name: Seq<u8>)
    ensures
        match last_dot(name) {
            Some(dot) => {
                &&& 0 <= dot < name.len()
                &&& name[dot] as char == '.'
                &&& forall|i: int| dot < i < name.len() ==> #[trigger] name[i] as char != '.'
            },
            None => forall|i: int| 0 <= i < name.len() ==> #[trigger] name[i] as char != '.',
        },
    decreases name.len(),
{
    if name.len() > 0 && name.last() != 0x2e {
        lemma_last_dot(name.drop_last());
        assert forall|i: int| 0 <= i < name.len() - 1 implies name[i] == name.drop_last()[i] by {}
    }
}

/// Whether a byte is a letter, small or capital.
pub open spec fn is_letter(byte: u8, small: char, capital: char) -> bool {
    byte as char == small || byte as char == capital
}

/// Whether a name ends in `.bin`, in letters of either case.
pub open spec fn ends_in_bin(name: Seq<u8>) -> bool {
    let end = name.len() as int;
    &&& end >= 4
    &&& name[end - 4] as char == '.'
    &&& is_letter(name[end - 3], 'b', 'B')
    &&& is_letter(name[end - 2], 'i', 'I')
    &&& is_letter(name[end - 1], 'n', 'N')
}

/// The extension of a resource is told without regard to case.
pub proof fn law_binary_resources(name: Seq<u8>)
    ensures
        is_bin(name) <==> ends_in_bin(name),
{
    lemma_last_dot(name);
    let bin = seq![0x62u8, 0x69, 0x6e];
    if let Some(dot) = last_dot(name) {
        let end = name.skip(dot + 1);
        let small = lowered(end);
        if is_bin(name) {
            assert(small.len() == 3);
            assert(small[0] == bin[0] && small[1] == bin[1] && small[2] == bin[2]);
            assert(small[0] == lower(name[dot + 1]));
            assert(small[1] == lower(name[dot + 2]));
            assert(small[2] == lower(name[dot + 3]));
        }
        if ends_in_bin(name) {
            let place = name.len() - 4;
            assert(name[place + 1] as char != '.' && name[place + 2] as char != '.' && name[place
                + 3] as char != '.');
            assert(dot == place);
            assert(small =~= bin);
        }
    } else if ends_in_bin(name) {
        assert(name[name.len() - 4] as char == '.');
    }
}

/// The number that four bytes stand for, the least significant first.
pub open spec fn number_at(bytes: Seq<u8>, at: int) -> int {
    bytes[at] + 0x100 * bytes[at + 1] + 0x1_0000 * bytes[at + 2] + 0x100_0000 * bytes[at + 3]
}

proof fn lemma_word_bytes(word: u32)
    ensures
        le_word(word).len() == 4,
        number_at(le_word(word), 0) == word,
{
}

proof fn lemma_expanded(data: Seq<u8>)
    requires
        12 <= data.len() <= u32::MAX,
    ensures
        ({
            let view = expanded(data);
            &&& view.len() == data.len() + 16
            &&& number_at(view, 0) == 1
            &&& number_at(view, 4) == 0
            &&& number_at(view, 8) == data.len() - 4
            &&& number_at(view, 12) == number_at(data, 4)
            &&& number_at(view, 16) == 0
            &&& forall|i: int| 12 <= i < data.len() ==> #[trigger] view[i + 8] == data[i]
            &&& forall|i: int| data.len() + 8 <= i < view.len() ==> #[trigger] view[i] == 0
        }),
{
    let view = expanded(data);
    let a = le_word(1);
    let b = le_word(0);
    let c = le_word((data.len() - 4) as u32);
    lemma_word_bytes(1);
    lemma_word_bytes(0);
    lemma_word_bytes((data.len() - 4) as u32);
    assert(view[0] == a[0] && view[1] == a[1] && view[2] == a[2] && view[3] == a[3]);
    assert(view[4] == b[0] && view[5] == b[1] && view[6] == b[2] && view[7] == b[3]);
    assert(view[8] == c[0] && view[9] == c[1] && view[10] == c[2] && view[11] == c[3]);
    assert(view[16] == b[0] && view[17] == b[1] && view[18] == b[2] && view[19] == b[3]);
}

/// A packed binary resource that has records and declares more data than there is has the
/// packer's short header. The guest sees it with a header of twenty bytes, which counts
/// one record and declares the data that there is, and eight zeros behind the data. Every
/// other resource is seen as it is.
pub proof fn law_resources_as_the_guest_sees_them(
    name: Seq<u8>,
    kind: ResourceKind,
    data: Seq<u8>,
)
    requires
        data.len() + 16 <= usize::MAX,
    ensures
        ({
            let view = resource_view(name, kind, data);
            let short = {
                &&& kind is Packed
                &&& ends_in_bin(name)
                &&& 12 <= data.len() <= 0xffff_ffff
                &&& data[0] != 0 || data[1] != 0
                &&& number_at(data, 8) > data.len()
            };
            &&& !short ==> view == data
            &&& short ==> {
                &&& view.len() == data.len() + 16
                &&& number_at(view, 0) == 1
                &&& number_at(view, 4) == 0
                &&& number_at(view, 8) == data.len() - 4
                &&& number_at(view, 12) == number_at(data, 4)
                &&& number_at(view, 16) == 0
                &&& forall|i: int| 12 <= i < data.len() ==> #[trigger] view[i + 8] == data[i]
                &&& forall|i: int| data.len() + 8 <= i < view.len() ==> #[trigger] view[i] == 0
            }
        }),
{
    law_binary_resources(name);
    if 12 <= data.len() <= u32::MAX {
        lemma_expanded(data);
        assert(word_in(data, 8) == number_at(data, 8));
    }
}

/// A resource is named by the third argument where that points to a text, else by the
/// second, else by the first.
pub proof fn law_names_of_resources(memory: MemoryView, regs: Seq<u32>)
    requires
        regs.len() >= 8,
    ensures
        ({
            let name = resource_name(memory, name_arguments(regs), 0);
            let names = |register: int|
                regs[register] >= 0x1_0000 && c_string(memory, regs[register]).len() > 0;
            &&& names(6) ==> name == Some(c_string(memory, regs[6]))
            &&& !names(6) && names(5) ==> name == Some(c_string(memory, regs[5]))
            &&& !names(6) && !names(5) && names(4) ==> name == Some(c_string(memory, regs[4]))
            &&& !names(6) && !names(5) && !names(4) ==> name is None
        }),
{
    reveal_with_fuel(resource_name, 5);
}

/// The console's menu is asked for by reading one of two names of two words each.
pub proof fn law_returns_to_the_menu(words: Seq<u16>, mode: Seq<char>)
    ensures
        returns_to_firmware(words, mode) <==> {
            &&& mode.len() == 2 && mode[0] == 'r' && mode[1] == 'b'
            &&& words.len() == 2
            &&& words[0] == 0xde88 && words[1] == 0x80aa || words[0] == 0x88c0 && words[1] == 0x80ad
        },
{
    reveal_strlit("rb");
    let one = seq![0xDE88u16, 0x80AAu16];
    let two = seq![0x88C0u16, 0x80ADu16];
    assert(one[0] == 0xDE88 && one[1] == 0x80AA && two[0] == 0x88C0 && two[1] == 0x80AD);
    assert("rb"@.len() == 2 && "rb"@[0] == 'r' && "rb"@[1] == 'b');
    if mode.len() == 2 && mode[0] == 'r' && mode[1] == 'b' {
        assert(mode =~= "rb"@);
    }
    if words.len() == 2 && words[0] == 0xde88 && words[1] == 0x80aa {
        assert(words =~= one);
    }
    if words.len() == 2 && words[0] == 0x88c0 && words[1] == 0x80ad {
        assert(words =~= two);
    }
}

} // verus!
