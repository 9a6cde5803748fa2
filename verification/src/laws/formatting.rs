//! What formatted text says.

use crate::laws::places::{little_endian, spot, together};
use crate::laws::registers::signed;
use crate::memory::MemoryView;
use crate::printf::{
    argument_at, directive_at, field_for, formatted_from, padded, with_precision, Directive,
    FieldView,
};
use crate::text::{decimal, digit_char, digits, repeated};
use vstd::prelude::*;

verus! {

/// The number that a digit stands for; no number for other characters.
pub open spec fn digit_value(character: char) -> int {
    if '0' <= character <= '9' {
        character as int - '0' as int
    } else if 'a' <= character <= 'f' {
        character as int - 'a' as int + 10
    } else if 'A' <= character <= 'F' {
        character as int - 'A' as int + 10
    } else {
        -1
    }
}

/// The number that a text of digits stands for, read from its beginning.
pub open spec fn read_digits(text: Seq<char>, base: int) -> int
    decreases text.len(),
{
    if text.len() == 0 {
        0
    } else {
        base * read_digits(text.drop_last(), base) + digit_value(text.last())
    }
}

/// Whether every character is a digit of a base, in one case.
pub open spec fn are_digits(text: Seq<char>, base: int, uppercase: bool) -> bool {
    forall|i: int|
        0 <= i < text.len() ==> 0 <= digit_value(#[trigger] text[i]) < base && !(if uppercase {
            'a' <= text[i] <= 'f'
        } else {
            'A' <= text[i] <= 'F'
        })
}

/// The number that a decimal text with a sign, or with none, stands for.
pub open spec fn read_signed(text: Seq<char>) -> int {
    if text.len() > 0 && text[0] == '-' {
        -read_digits(text.skip(1), 10)
    } else if text.len() > 0 && (text[0] == '+' || text[0] == ' ') {
        read_digits(text.skip(1), 10)
    } else {
        read_digits(text, 10)
    }
}

proof fn lemma_digit(digit: int, uppercase: bool)
    requires
        0 <= digit < 16,
    ensures
        digit_value(digit_char(digit, uppercase)) == digit,
        uppercase ==> !('a' <= digit_char(digit, uppercase) <= 'f'),
        !uppercase ==> !('A' <= digit_char(digit, uppercase) <= 'F'),
        digit_char(digit, uppercase) == '0' <==> digit == 0,
{
}

/// Positional notation can be read back, and has no leading zero.
pub proof fn law_digits_read_back(number: nat, base: nat, uppercase: bool)
    requires
        2 <= base <= 16,
    ensures
        read_digits(digits(number, base, uppercase), base as int) == number,
        are_digits(digits(number, base, uppercase), base as int, uppercase),
        digits(number, base, uppercase).len() >= 1,
        number != 0 ==> digits(number, base, uppercase)[0] != '0',
        number >= 2 ==> digits(number, base, uppercase).len() <= number,
        number < 2 ==> digits(number, base, uppercase).len() == 1,
    decreases number,
{
    let text = digits(number, base, uppercase);
    if number < base {
        assert(text =~= seq![digit_char(number as int, uppercase)]);
        assert(text.drop_last() =~= Seq::<char>::empty());
        assert(base * 0 == 0) by (nonlinear_arith);
        lemma_digit(number as int, uppercase);
        assert(read_digits(text.drop_last(), base as int) == 0);
        assert(text.last() == digit_char(number as int, uppercase));
    } else {
        lemma_digit((number % base) as int, uppercase);
        crate::text::lemma_quotient_shrinks(number, base);
        let head = digits(number / base, base, uppercase);
        law_digits_read_back(number / base, base, uppercase);
        assert(text.drop_last() =~= head);
        vstd::arithmetic::div_mod::lemma_fundamental_div_mod(number as int, base as int);
        vstd::arithmetic::div_mod::lemma_mod_bound(number as int, base as int);
        assert(number / base >= 1) by (nonlinear_arith)
            requires
                number >= base,
                base >= 2,
        ;
        assert forall|i: int| 0 <= i < text.len() implies 0 <= digit_value(#[trigger] text[i])
            < base && !(if uppercase {
            'a' <= text[i] <= 'f'
        } else {
            'A' <= text[i] <= 'F'
        }) by {
            if i < head.len() {
                assert(text[i] == head[i]);
            }
        }
    }
}

/// Leading zeros do not change what digits stand for.
proof fn lemma_leading_zeros(text: Seq<char>, count: nat, base: int)
    ensures
        read_digits(repeated('0', count) + text, base) == read_digits(text, base),
    decreases text.len(), count,
{
    let longer = repeated('0', count) + text;
    if text.len() == 0 {
        if count > 0 {
            assert(longer.drop_last() =~= repeated('0', (count - 1) as nat) + text);
            assert(longer.last() == '0');
            lemma_leading_zeros(text, (count - 1) as nat, base);
            assert(base * 0 == 0) by (nonlinear_arith);
        }
    } else {
        assert(longer.drop_last() =~= repeated('0', count) + text.drop_last());
        lemma_leading_zeros(text.drop_last(), count, base);
    }
}

/// A precision adds leading zeros up to that many digits, and changes no number; only a
/// zero with a precision of zero is no digit at all.
pub proof fn law_precision_keeps_the_number(
    number: nat,
    base: nat,
    uppercase: bool,
    precision: Option<usize>,
)
    requires
        2 <= base <= 16,
        number <= u32::MAX,
    ensures
        ({
            let plain = digits(number, base, uppercase);
            let text = with_precision(plain, precision, number == 0);
            &&& read_digits(text, base as int) == number
            &&& are_digits(text, base as int, uppercase)
            &&& precision is None ==> text == plain
            &&& precision matches Some(least) ==> text.len() == if number == 0 && least == 0 {
                0
            } else if plain.len() < least {
                least as nat
            } else {
                plain.len()
            }
        }),
{
    let plain = digits(number, base, uppercase);
    law_digits_read_back(number, base, uppercase);
    lemma_digits_are_ascii(plain, base as int, uppercase);
    if let Some(least) = precision {
        let text = with_precision(plain, precision, number == 0);
        if plain.len() < least && !(least == 0 && number == 0) {
            lemma_leading_zeros(plain, (least - plain.len()) as nat, base as int);
            assert forall|i: int| 0 <= i < text.len() implies 0 <= digit_value(#[trigger] text[i])
                < base && !(if uppercase {
                'a' <= text[i] <= 'f'
            } else {
                'A' <= text[i] <= 'F'
            }) by {
                if i >= least - plain.len() {
                    assert(text[i] == plain[i - (least - plain.len())]);
                }
            }
        }
    }
}

proof fn lemma_digits_are_ascii(text: Seq<char>, base: int, uppercase: bool)
    requires
        are_digits(text, base, uppercase),
        text.len() <= usize::MAX,
    ensures
        vstd::utf8::encode_utf8(text).len() == text.len(),
{
    assert forall|i: int| 0 <= i < text.len() implies (#[trigger] text[i]) as u32 <= 0x7f by {
        assert(digit_value(text[i]) >= 0);
    }
    assert(vstd::utf8::is_ascii_chars(text));
    vstd::utf8::is_ascii_chars_encode_utf8(text);
}

/// Signed conversions without a width and a precision: read back as a decimal number, the
/// text is the argument, whatever the flags. A plus or a space in front of it tells that
/// it is not negative.
pub proof fn law_signed_conversions(directive: Directive, argument: u32, memory: MemoryView)
    requires
        directive.conversion == Some(0x64u8) || directive.conversion == Some(0x69u8),
        directive.width is None,
        directive.precision is None,
    ensures
        field_for(directive, argument, memory) matches Some(field) && {
            let text = padded(directive, field);
            &&& read_signed(text) == signed(argument)
            &&& text.len() > 0
            &&& text[0] == '-' <==> signed(argument) < 0
            &&& text[0] == '+' <==> signed(argument) >= 0 && directive.show_sign
            &&& text[0] == ' ' <==> signed(argument) >= 0 && !directive.show_sign
                && directive.space_sign
            &&& text.len() > 1 && text[0] == '0' ==> false
        },
{
    let size = crate::printf::signed_magnitude(argument);
    law_digits_read_back(size, 10, false);
    let plain = decimal(size);
    let field = field_for(directive, argument, memory)->0;
    let text = padded(directive, field);
    assert(0 <= digit_value(plain[0]) < 10);
    assert(field.body == plain);
    if field.prefix.len() > 0 {
        assert(text.skip(1) =~= plain);
    } else {
        assert(text =~= plain);
        lemma_one_digit(size);
    }
}

proof fn lemma_one_digit(number: nat)
    ensures
        number == 0 ==> decimal(number).len() == 1,
{
}

/// The sign and the digits of a signed conversion, whatever its precision: the digits are
/// those of the argument without its sign.
pub proof fn law_signed_parts(directive: Directive, argument: u32, memory: MemoryView)
    requires
        directive.conversion == Some(0x64u8) || directive.conversion == Some(0x69u8),
    ensures
        field_for(directive, argument, memory) matches Some(field) && {
            &&& read_digits(field.body, 10) == if signed(argument) < 0 {
                -signed(argument)
            } else {
                signed(argument)
            }
            &&& are_digits(field.body, 10, false)
            &&& field.prefix == if signed(argument) < 0 {
                seq!['-']
            } else if directive.show_sign {
                seq!['+']
            } else if directive.space_sign {
                seq![' ']
            } else {
                Seq::empty()
            }
            &&& directive.precision matches Some(least) ==> (if argument == 0 && least == 0 {
                field.body.len() == 0
            } else {
                field.body.len() >= least
            })
        },
{
    law_precision_keeps_the_number(
        crate::printf::signed_magnitude(argument),
        10,
        false,
        directive.precision,
    );
}

/// Unsigned conversions: the digits are those of the argument in base ten, eight or
/// sixteen. The alternate form marks the base of a number that is not zero; a pointer
/// always has its mark.
pub proof fn law_unsigned_conversions(directive: Directive, argument: u32, memory: MemoryView)
    requires
        directive.conversion matches Some(conversion) && (conversion == 0x75 || conversion == 0x6f
            || conversion == 0x78 || conversion == 0x58 || conversion == 0x70),
    ensures
        field_for(directive, argument, memory) matches Some(field) && {
            let conversion = directive.conversion->0;
            let base = if conversion == 0x75 {
                10int
            } else if conversion == 0x6f {
                8
            } else {
                16
            };
            let marked = conversion == 0x70 || directive.alternate && argument != 0;
            &&& read_digits(field.body, base) == argument
            &&& are_digits(field.body, base, conversion == 0x58)
            &&& field.prefix == if conversion == 0x75 || !marked {
                Seq::empty()
            } else if conversion == 0x6f {
                seq!['0']
            } else if conversion == 0x58 {
                seq!['0', 'X']
            } else {
                seq!['0', 'x']
            }
            &&& directive.precision is None ==> field.body.len() > 0 && (argument != 0
                ==> field.body[0] != '0')
            &&& directive.precision matches Some(least) ==> (if argument == 0 && least == 0 {
                field.body.len() == 0
            } else {
                field.body.len() >= least
            })
        },
{
    let conversion = directive.conversion->0;
    let uppercase = conversion == 0x58;
    let base: nat = if conversion == 0x75 {
        10
    } else if conversion == 0x6f {
        8
    } else {
        16
    };
    law_digits_read_back(argument as nat, base, uppercase);
    law_precision_keeps_the_number(argument as nat, base, uppercase, directive.precision);
}

/// A character conversion is one character: the one whose number is the lowest byte of
/// the argument. A text conversion is the text at the argument, cut to the precision.
/// Other conversions take an argument and are shown as they are.
pub proof fn law_other_conversions(directive: Directive, argument: u32, memory: MemoryView)
    ensures
        directive.conversion == Some(0x63u8) ==> (field_for(directive, argument, memory) matches Some(
            field,
        ) && field.prefix.len() == 0 && field.body.len() == 1 && field.body[0] as int
            == argument as int % 0x100),
        directive.conversion == Some(0x73u8) ==> (field_for(directive, argument, memory) matches Some(
            field,
        ) && {
            let text = crate::text::c_string(memory, argument);
            &&& field.prefix.len() == 0
            &&& field.body.len() <= text.len()
            &&& field.body == text.take(field.body.len() as int)
            &&& field.body.len() < text.len() ==> directive.precision == Some(
                field.body.len() as usize,
            )
            &&& directive.precision matches Some(limit) ==> field.body.len() <= limit
        }),
{
    if directive.conversion == Some(0x63u8) {
        assert(argument as u8 == argument % 0x100) by (bit_vector);
    }
    if directive.conversion == Some(0x73u8) {
        let text = crate::text::c_string(memory, argument);
        let field = field_for(directive, argument, memory)->0;
        assert(field.body =~= text.take(field.body.len() as int));
    }
}

/// Padding: a text is as long as its width asks, and nothing is lost. Without it, what
/// was converted is left: at the beginning where it is aligned left, and at the end
/// elsewhere. Zeros stand behind a sign or mark, and only without a precision.
pub proof fn law_padding(directive: Directive, field: FieldView)
    requires
        vstd::utf8::encode_utf8(field.prefix).len() == field.prefix.len(),
        vstd::utf8::encode_utf8(field.body).len() == field.body.len(),
        field.prefix.len() + field.body.len() <= usize::MAX,
    ensures
        ({
            let text = padded(directive, field);
            let used = field.prefix.len() + field.body.len();
            let padding = text.len() - used;
            let zeros = directive.zero_padded && directive.precision is None
                && !directive.left_aligned;
            &&& text.len() == match directive.width {
                Some(width) => if width > used {
                    width as int
                } else {
                    used as int
                },
                None => used as int,
            }
            &&& directive.left_aligned ==> {
                &&& text.take(used as int) == field.prefix + field.body
                &&& forall|i: int| used <= i < text.len() ==> #[trigger] text[i] == ' '
            }
            &&& !directive.left_aligned && !zeros ==> {
                &&& text.skip(padding) == field.prefix + field.body
                &&& forall|i: int| 0 <= i < padding ==> #[trigger] text[i] == ' '
            }
            &&& zeros ==> {
                &&& text.take(field.prefix.len() as int) == field.prefix
                &&& text.skip(field.prefix.len() + padding) == field.body
                &&& forall|i: int|
                    field.prefix.len() <= i < field.prefix.len() + padding ==> #[trigger] text[i]
                        == '0'
            }
        }),
{
    let text = padded(directive, field);
    let used = field.prefix.len() + field.body.len();
    let padding = text.len() - used;
    let zeros = directive.zero_padded && directive.precision is None && !directive.left_aligned;
    if directive.left_aligned {
        assert(text.take(used as int) =~= field.prefix + field.body);
    } else if zeros {
        assert(text.take(field.prefix.len() as int) =~= field.prefix);
        assert(text.skip(field.prefix.len() + padding) =~= field.body);
    } else {
        assert(text.skip(padding) =~= field.prefix + field.body);
    }
}

/// The first two arguments are in registers six and seven; the others are on the stack,
/// a word each, and the first of them sixteen bytes above the stack pointer.
pub proof fn law_arguments(regs: Seq<u32>, memory: MemoryView, index: int)
    requires
        memory.sized(),
        0 <= index < 0x1000_0000,
    ensures
        index == 0 ==> argument_at(regs, memory, index) == Ok::<u32, u32>(regs[6]),
        index == 1 ==> argument_at(regs, memory, index) == Ok::<u32, u32>(regs[7]),
        index >= 2 ==> {
            let address = (regs[29] + 16 + 4 * (index - 2)) % 0x1_0000_0000;
            together(address, 4) ==> argument_at(regs, memory, index) == Ok::<u32, u32>(
                little_endian(memory, spot(address)->0, 4) as u32,
            )
        },
{
    if index >= 2 {
        let address = (regs[29] + 16 + 4 * (index - 2)) % 0x1_0000_0000;
        assert(crate::printf::stack_argument(regs, index) == address);
        if together(address, 4) {
            crate::laws::places::law_reads_are_little_endian(
                memory,
                address as u32,
                crate::memory::Width::Word,
            );
        }
    }
}

// Formats.

/// Whether a byte is one of the flags `-`, `+`, space, `#` and `0`.
pub open spec fn flag_byte(byte: u8) -> bool {
    byte == '-' as u8 || byte == '+' as u8 || byte == ' ' as u8 || byte == '#' as u8 || byte
        == '0' as u8
}

/// Whether a byte is a decimal digit.
pub open spec fn digit_byte(byte: u8) -> bool {
    '0' as u8 <= byte <= '9' as u8
}

/// Whether a byte is one of the modifiers `h`, `l`, `j`, `z`, `t` and `L`.
pub open spec fn modifier_byte(byte: u8) -> bool {
    byte == 'h' as u8 || byte == 'l' as u8 || byte == 'j' as u8 || byte == 'z' as u8 || byte
        == 't' as u8 || byte == 'L' as u8
}

/// A part of a format, as characters.
pub open spec fn part(bytes: Seq<u8>, from: int, to: int) -> Seq<char> {
    bytes.subrange(from, to).map_values(|byte: u8| byte as char)
}

/// The parts of a directive: where its flags end, its width, its precision, where it has
/// one, and its modifiers.
pub open spec fn has_parts(
    bytes: Seq<u8>,
    at: int,
    flags: int,
    width: int,
    precision: int,
    end: int,
) -> bool {
    let dot = width < bytes.len() && bytes[width] == '.' as u8;
    &&& 0 <= at <= flags <= width <= precision <= end <= bytes.len() <= usize::MAX
    &&& forall|i: int| at <= i < flags ==> flag_byte(#[trigger] bytes[i])
    &&& flags < bytes.len() ==> !flag_byte(bytes[flags])
    &&& forall|i: int| flags <= i < width ==> digit_byte(#[trigger] bytes[i])
    &&& width < bytes.len() ==> !digit_byte(bytes[width])
    &&& !dot ==> precision == width
    &&& dot ==> {
        &&& width < precision
        &&& forall|i: int| width < i < precision ==> digit_byte(#[trigger] bytes[i])
        &&& precision < bytes.len() ==> !digit_byte(bytes[precision])
    }
    &&& forall|i: int| precision <= i < end ==> modifier_byte(#[trigger] bytes[i])
    &&& end < bytes.len() ==> !modifier_byte(bytes[end])
}

/// A directive has the flags that occur in it, in any order, the numbers in it as width
/// and precision, and the byte behind its modifiers as conversion. A precision without
/// digits is zero.
pub proof fn law_directives_are_read(
    bytes: Seq<u8>,
    at: int,
    flags: int,
    width: int,
    precision: int,
    end: int,
)
    requires
        has_parts(bytes, at, flags, width, precision, end),
        end < bytes.len(),
    ensures
        ({
            let directive = directive_at(bytes, at);
            let occurs = |character: char|
                exists|i: int| at <= i < flags && #[trigger] bytes[i] == character as u8;
            let wide = read_digits(part(bytes, flags, width), 10);
            &&& directive.left_aligned == occurs('-')
            &&& directive.show_sign == occurs('+')
            &&& directive.space_sign == occurs(' ')
            &&& directive.alternate == occurs('#')
            &&& directive.zero_padded == occurs('0')
            &&& directive.width == if flags < width && wide <= usize::MAX {
                Some(wide as usize)
            } else {
                None
            }
            &&& bytes[width] != '.' as u8 ==> directive.precision is None
            &&& bytes[width] == '.' as u8 ==> {
                let fine = read_digits(part(bytes, width + 1, precision), 10);
                directive.precision == Some(
                    if fine <= usize::MAX {
                        fine as usize
                    } else {
                        0
                    },
                )
            }
            &&& directive.conversion == Some(bytes[end])
            &&& directive.next == end + 1
        }),
{
    lemma_flags_end(bytes, at, flags);
    lemma_digits_end(bytes, flags, width);
    lemma_number(bytes, flags, width);
    if bytes[width] == '.' as u8 {
        lemma_digits_end(bytes, width + 1, precision);
        lemma_number(bytes, width + 1, precision);
    }
    lemma_modifiers_end(bytes, precision, end);
}

proof fn lemma_flags_end(bytes: Seq<u8>, at: int, end: int)
    requires
        0 <= at <= end <= bytes.len(),
        forall|i: int| at <= i < end ==> flag_byte(#[trigger] bytes[i]),
        end < bytes.len() ==> !flag_byte(bytes[end]),
    ensures
        crate::printf::flags_end(bytes, at) == end,
    decreases end - at,
{
    if at < end {
        assert(flag_byte(bytes[at]));
        lemma_flags_end(bytes, at + 1, end);
    }
}

proof fn lemma_digits_end(bytes: Seq<u8>, at: int, end: int)
    requires
        0 <= at <= end <= bytes.len(),
        forall|i: int| at <= i < end ==> digit_byte(#[trigger] bytes[i]),
        end < bytes.len() ==> !digit_byte(bytes[end]),
    ensures
        crate::printf::digits_end(bytes, at) == end,
    decreases end - at,
{
    if at < end {
        assert(digit_byte(bytes[at]));
        lemma_digits_end(bytes, at + 1, end);
    }
}

proof fn lemma_modifiers_end(bytes: Seq<u8>, at: int, end: int)
    requires
        0 <= at <= end <= bytes.len(),
        forall|i: int| at <= i < end ==> modifier_byte(#[trigger] bytes[i]),
        end < bytes.len() ==> !modifier_byte(bytes[end]),
    ensures
        crate::printf::modifiers_end(bytes, at) == end,
    decreases end - at,
{
    if at < end {
        assert(modifier_byte(bytes[at]));
        lemma_modifiers_end(bytes, at + 1, end);
    }
}

proof fn lemma_number(bytes: Seq<u8>, from: int, to: int)
    requires
        0 <= from <= to <= bytes.len(),
        forall|i: int| from <= i < to ==> digit_byte(#[trigger] bytes[i]),
    ensures
        crate::printf::number(bytes, from, to) == read_digits(part(bytes, from, to), 10),
        from == to ==> read_digits(part(bytes, from, to), 10) == 0,
    decreases to - from,
{
    if from < to {
        lemma_number(bytes, from, to - 1);
        assert(part(bytes, from, to).drop_last() =~= part(bytes, from, to - 1));
        assert(digit_byte(bytes[to - 1]));
        assert(part(bytes, from, to).last() == bytes[to - 1] as char);
    }
}

/// A format is text with directives in it. Text is copied, two percent signs stand for
/// one, and each other directive takes the next argument and stands for it, converted and
/// padded; one with an unknown conversion is shown, and a lone one at the end is a
/// percent sign.
pub proof fn law_format_steps(
    bytes: Seq<u8>,
    at: int,
    argument: int,
    output: Seq<char>,
    regs: Seq<u32>,
    memory: MemoryView,
    flags: int,
    width: int,
    precision: int,
    end: int,
)
    requires
        0 <= at < bytes.len(),
    ensures
        bytes[at] != '%' as u8 ==> formatted_from(bytes, at, argument, output, regs, memory)
            == formatted_from(
            bytes,
            at + 1,
            argument,
            output + seq![bytes[at] as char],
            regs,
            memory,
        ),
        bytes[at] == '%' as u8 && at + 1 < bytes.len() && bytes[at + 1] == '%' as u8
            ==> formatted_from(bytes, at, argument, output, regs, memory) == formatted_from(
            bytes,
            at + 2,
            argument,
            output + seq!['%'],
            regs,
            memory,
        ),
        bytes[at] == '%' as u8 && !(at + 1 < bytes.len() && bytes[at + 1] == '%' as u8)
            && has_parts(bytes, at + 1, flags, width, precision, end) ==> formatted_from(
            bytes,
            at,
            argument,
            output,
            regs,
            memory,
        ) == if end == bytes.len() {
            Ok(output + seq!['%'])
        } else {
            match argument_at(regs, memory, argument) {
                Err(address) => Err(address),
                Ok(word) => formatted_from(
                    bytes,
                    end + 1,
                    argument + 1,
                    match field_for(directive_at(bytes, at + 1), word, memory) {
                        Some(field) => output + padded(directive_at(bytes, at + 1), field),
                        None => output + seq!['%', bytes[end] as char],
                    },
                    regs,
                    memory,
                ),
            }
        },
{
    if bytes[at] != '%' as u8 {
        assert(output + seq![bytes[at] as char] =~= output.push(bytes[at] as char));
    } else if at + 1 < bytes.len() && bytes[at + 1] == '%' as u8 {
        assert(output + seq!['%'] =~= output.push('%'));
    } else if has_parts(bytes, at + 1, flags, width, precision, end) {
        lemma_flags_end(bytes, at + 1, flags);
        lemma_digits_end(bytes, flags, width);
        if width < bytes.len() && bytes[width] == '.' as u8 {
            lemma_digits_end(bytes, width + 1, precision);
        }
        lemma_modifiers_end(bytes, precision, end);
        assert(output + seq!['%'] =~= output.push('%'));
        if end < bytes.len() {
            assert(output + seq!['%', bytes[end] as char] =~= output.push('%').push(
                bytes[end] as char,
            ));
        }
    }
}

/// Formatting starts at the beginning of the format, with the first argument and nothing
/// written, and ends with it.
pub proof fn law_formats_from_end_to_end(
    format: Seq<char>,
    argument: int,
    output: Seq<char>,
    regs: Seq<u32>,
    memory: MemoryView,
)
    ensures
        ({
            let bytes = vstd::utf8::encode_utf8(format);
            &&& crate::printf::formatted(format, regs, memory) == formatted_from(
                bytes,
                0,
                0,
                Seq::empty(),
                regs,
                memory,
            )
            &&& formatted_from(bytes, bytes.len() as int, argument, output, regs, memory) == Ok::<
                Seq<char>,
                u32,
            >(output)
        }),
{
}

} // verus!
