//! The guest's `sprintf`.
//!
//! A format is read as bytes. Each conversion takes one argument: the first two
//! are in registers, the others on the guest stack.

use crate::cpu::Registers;
use crate::error::SimulatorError;
use crate::isa::reg;
use crate::memory::{guest_read, Memory, MemoryView, Width};
use crate::text::{
    byte_len, c_string, decimal, digits, push_decimal, push_digits, push_repeated,
    read_guest_c_string, repeated,
};
use vstd::prelude::*;
use vstd::string::*;

verus! {

/// A conversion of a format.
#[derive(Clone, Copy, Debug, PartialEq, Eq, Structural)]
pub struct Directive {
    pub left_aligned: bool,
    pub show_sign: bool,
    pub space_sign: bool,
    pub alternate: bool,
    pub zero_padded: bool,
    pub width: Option<usize>,
    pub precision: Option<usize>,
    /// The conversion character; nothing where the format ends before it.
    pub conversion: Option<u8>,
    /// Position behind the conversion.
    pub next: usize,
}

/// Whether a byte is a flag of a directive.
pub open spec fn is_flag(byte: u8) -> bool {
    byte == 0x2d || byte == 0x2b || byte == 0x20 || byte == 0x23 || byte == 0x30
}

/// Whether a byte is a decimal digit.
pub open spec fn is_digit(byte: u8) -> bool {
    0x30 <= byte <= 0x39
}

/// Length modifiers, which have no effect.
pub open spec fn is_modifier(byte: u8) -> bool {
    byte == 0x68 || byte == 0x6c || byte == 0x6a || byte == 0x7a || byte == 0x74 || byte == 0x4c
}

/// First position from `at` on without a flag.
pub open spec fn flags_end(bytes: Seq<u8>, at: int) -> int
    decreases bytes.len() - at,
{
    if 0 <= at < bytes.len() && is_flag(bytes[at]) {
        flags_end(bytes, at + 1)
    } else {
        at
    }
}

/// First position from `at` on without a digit.
pub open spec fn digits_end(bytes: Seq<u8>, at: int) -> int
    decreases bytes.len() - at,
{
    if 0 <= at < bytes.len() && is_digit(bytes[at]) {
        digits_end(bytes, at + 1)
    } else {
        at
    }
}

/// First position from `at` on without a length modifier.
pub open spec fn modifiers_end(bytes: Seq<u8>, at: int) -> int
    decreases bytes.len() - at,
{
    if 0 <= at < bytes.len() && is_modifier(bytes[at]) {
        modifiers_end(bytes, at + 1)
    } else {
        at
    }
}

/// Whether a byte occurs in a part of the format.
pub open spec fn occurs(bytes: Seq<u8>, from: int, to: int, byte: u8) -> bool {
    exists|i: int| from <= i < to && #[trigger] bytes[i] == byte
}

/// The decimal number in a part of the format.
pub open spec fn number(bytes: Seq<u8>, from: int, to: int) -> int
    decreases to - from,
{
    if to <= from {
        0
    } else {
        10 * number(bytes, from, to - 1) + (bytes[to - 1] - 0x30)
    }
}

/// The width: nothing where there are no digits or too many.
pub open spec fn width_in(bytes: Seq<u8>, from: int, to: int) -> Option<usize> {
    if from < to && number(bytes, from, to) <= usize::MAX {
        Some(number(bytes, from, to) as usize)
    } else {
        None
    }
}

/// The precision behind a dot: zero where there are no digits or too many.
pub open spec fn precision_in(bytes: Seq<u8>, from: int, to: int) -> usize {
    if from < to && number(bytes, from, to) <= usize::MAX {
        number(bytes, from, to) as usize
    } else {
        0
    }
}

/// The conversion that starts behind a percent sign.
pub open spec fn directive_at(bytes: Seq<u8>, at: int) -> Directive {
    let flags = flags_end(bytes, at);
    let width = digits_end(bytes, flags);
    let dot = width < bytes.len() && bytes[width] == 0x2e;
    let precision = if dot {
        digits_end(bytes, width + 1)
    } else {
        width
    };
    let end = modifiers_end(bytes, precision);
    Directive {
        left_aligned: occurs(bytes, at, flags, 0x2d),
        show_sign: occurs(bytes, at, flags, 0x2b),
        space_sign: occurs(bytes, at, flags, 0x20),
        alternate: occurs(bytes, at, flags, 0x23),
        zero_padded: occurs(bytes, at, flags, 0x30),
        width: width_in(bytes, flags, width),
        precision: if dot {
            Some(precision_in(bytes, width + 1, precision))
        } else {
            None
        },
        conversion: if end < bytes.len() {
            Some(bytes[end])
        } else {
            None
        },
        next: if end < bytes.len() {
            (end + 1) as usize
        } else {
            end as usize
        },
    }
}

/// Digits brought to a precision.
pub open spec fn with_precision(
    digits: Seq<char>,
    precision: Option<usize>,
    is_zero: bool,
) -> Seq<char> {
    match precision {
        None => digits,
        Some(precision) => if precision == 0 && is_zero {
            Seq::empty()
        } else if byte_len(digits) < precision {
            repeated('0', (precision - byte_len(digits)) as nat) + digits
        } else {
            digits
        },
    }
}

/// A converted argument: what zero padding goes behind, and the rest.
#[verifier::ext_equal]
pub struct FieldView {
    pub prefix: Seq<char>,
    pub body: Seq<char>,
}

/// Absolute value of a word in two's complement.
pub open spec fn signed_magnitude(argument: u32) -> nat {
    if argument < 0x8000_0000 {
        argument as nat
    } else {
        (0x1_0000_0000 - argument) as nat
    }
}

/// The sign of a decimal conversion.
pub open spec fn sign_text(directive: Directive, argument: u32) -> Seq<char> {
    if argument >= 0x8000_0000 {
        seq!['-']
    } else if directive.show_sign {
        seq!['+']
    } else if directive.space_sign {
        seq![' ']
    } else {
        Seq::empty()
    }
}

/// What a text contributes: as many of its characters as the precision allows.
pub open spec fn text_field_for(directive: Directive, text: Seq<char>) -> FieldView {
    FieldView {
        prefix: Seq::empty(),
        body: match directive.precision {
            Some(limit) => if limit < text.len() {
                text.take(limit as int)
            } else {
                text
            },
            None => text,
        },
    }
}

/// The argument of a conversion, converted; nothing where the conversion is unknown.
pub open spec fn field_for(
    directive: Directive,
    argument: u32,
    memory: MemoryView,
) -> Option<FieldView> {
    let precision = directive.precision;
    match directive.conversion {
        Some(0x73) => Some(text_field_for(directive, c_string(memory, argument))),
        Some(0x63) => Some(
            FieldView { prefix: Seq::empty(), body: seq![argument as u8 as char] },
        ),
        Some(0x64) | Some(0x69) => Some(
            FieldView {
                prefix: sign_text(directive, argument),
                body: with_precision(
                    decimal(signed_magnitude(argument)),
                    precision,
                    argument == 0,
                ),
            },
        ),
        Some(0x75) => Some(
            FieldView {
                prefix: Seq::empty(),
                body: with_precision(decimal(argument as nat), precision, argument == 0),
            },
        ),
        Some(0x6f) => Some(
            FieldView {
                prefix: if directive.alternate && argument != 0 {
                    seq!['0']
                } else {
                    Seq::empty()
                },
                body: with_precision(
                    digits(argument as nat, 8, false),
                    precision,
                    argument == 0,
                ),
            },
        ),
        Some(conversion) => if conversion == 0x78 || conversion == 0x58 || conversion == 0x70 {
            let uppercase = conversion == 0x58;
            Some(
                FieldView {
                    prefix: if conversion == 0x70 || directive.alternate && argument != 0 {
                        if uppercase {
                            seq!['0', 'X']
                        } else {
                            seq!['0', 'x']
                        }
                    } else {
                        Seq::empty()
                    },
                    body: with_precision(
                        digits(argument as nat, 16, uppercase),
                        precision,
                        argument == 0,
                    ),
                },
            )
        } else {
            None
        },
        None => None,
    }
}

/// A field brought to its width.
pub open spec fn padded(directive: Directive, field: FieldView) -> Seq<char> {
    let used = byte_len(field.prefix) + byte_len(field.body);
    let zeros = directive.zero_padded && directive.precision is None;
    match directive.width {
        Some(width) => if used < width {
            let padding = (width - used) as nat;
            if directive.left_aligned {
                field.prefix + field.body + repeated(' ', padding)
            } else if zeros && field.prefix.len() > 0 {
                field.prefix + repeated('0', padding) + field.body
            } else if zeros {
                repeated('0', padding) + field.prefix + field.body
            } else {
                repeated(' ', padding) + field.prefix + field.body
            }
        } else {
            field.prefix + field.body
        },
        None => field.prefix + field.body,
    }
}

/// Guest address of an argument that is on the stack.
pub open spec fn stack_argument(regs: Seq<u32>, index: int) -> u32 {
    reg(regs, 29).wrapping_add(8u32.wrapping_add((index as u32).wrapping_mul(4)))
}

/// An argument of the format, or the address at which it could not be read.
pub open spec fn argument_at(regs: Seq<u32>, memory: MemoryView, index: int) -> Result<u32, u32> {
    if index == 0 {
        Ok(reg(regs, 6))
    } else if index == 1 {
        Ok(reg(regs, 7))
    } else {
        match guest_read(memory, stack_argument(regs, index), Width::Word) {
            Some(argument) => Ok(argument),
            None => Err(stack_argument(regs, index)),
        }
    }
}

/// Positions of a directive move forward.
pub proof fn lemma_directive_advances(bytes: Seq<u8>, at: int)
    requires
        0 <= at <= bytes.len(),
    ensures
        at <= flags_end(bytes, at) <= bytes.len(),
        at <= digits_end(bytes, at) <= bytes.len(),
        at <= modifiers_end(bytes, at) <= bytes.len(),
    decreases bytes.len() - at,
{
    if at < bytes.len() {
        lemma_directive_advances(bytes, at + 1);
    }
}

/// Where the conversion that starts behind a percent sign ends.
pub open spec fn directive_end(bytes: Seq<u8>, at: int) -> int {
    let width = digits_end(bytes, flags_end(bytes, at));
    modifiers_end(
        bytes,
        if width < bytes.len() && bytes[width] == 0x2e {
            digits_end(bytes, width + 1)
        } else {
            width
        },
    )
}

/// The end of a conversion lies behind its start.
pub proof fn lemma_directive_end(bytes: Seq<u8>, at: int)
    requires
        0 <= at <= bytes.len(),
    ensures
        at <= directive_end(bytes, at) <= bytes.len(),
{
    lemma_directive_advances(bytes, at);
    lemma_directive_advances(bytes, flags_end(bytes, at));
    let width = digits_end(bytes, flags_end(bytes, at));
    if width < bytes.len() {
        lemma_directive_advances(bytes, width + 1);
        lemma_directive_advances(bytes, digits_end(bytes, width + 1));
    }
    lemma_directive_advances(bytes, width);
}

/// The text of a format from position `at` on, behind `output`, or the address
/// of the first argument that could not be read.
pub open spec fn formatted_from(
    bytes: Seq<u8>,
    at: int,
    argument: int,
    output: Seq<char>,
    regs: Seq<u32>,
    memory: MemoryView,
) -> Result<Seq<char>, u32>
    decreases bytes.len() - at,
{
    if at < 0 || at >= bytes.len() {
        Ok(output)
    } else if bytes[at] != 0x25 {
        formatted_from(bytes, at + 1, argument, output.push(bytes[at] as char), regs, memory)
    } else if at + 1 < bytes.len() && bytes[at + 1] == 0x25 {
        formatted_from(bytes, at + 2, argument, output.push('%'), regs, memory)
    } else {
        proof {
            lemma_directive_end(bytes, at + 1);
        }
        let end = directive_end(bytes, at + 1);
        let directive = directive_at(bytes, at + 1);
        match directive.conversion {
            None => Ok(output.push('%')),
            Some(conversion) => match argument_at(regs, memory, argument) {
                Err(address) => Err(address),
                Ok(value) => formatted_from(
                    bytes,
                    end + 1,
                    argument + 1,
                    match field_for(directive, value, memory) {
                        Some(field) => output + padded(directive, field),
                        None => output.push('%').push(conversion as char),
                    },
                    regs,
                    memory,
                ),
            },
        }
    }
}

/// The text that a format stands for.
pub open spec fn formatted(
    format: Seq<char>,
    regs: Seq<u32>,
    memory: MemoryView,
) -> Result<Seq<char>, u32> {
    formatted_from(vstd::utf8::encode_utf8(format), 0, 0, Seq::empty(), regs, memory)
}

/// Reads an argument of the format.
pub fn guest_printf_arg(regs: &Registers, memory: &Memory, index: usize) -> (result: Result<
    u32,
    SimulatorError,
>)
    ensures
        match argument_at(regs.file(), memory@, index as int) {
            Ok(argument) => result == Ok::<u32, SimulatorError>(argument),
            Err(address) => result == Err::<u32, SimulatorError>(
                SimulatorError::UnmappedAddress { address },
            ),
        },
{
    if index == 0 {
        Ok(regs.read(6))
    } else if index == 1 {
        Ok(regs.read(7))
    } else {
        let offset: u32 = 8u32.wrapping_add((index as u32).wrapping_mul(4));
        memory.read_u32(regs.read(29).wrapping_add(offset))
    }
}

/// Brings digits to a precision.
pub fn apply_integer_precision(digits: String, precision: Option<usize>, is_zero: bool) -> (result:
    String)
    ensures
        result@ == with_precision(digits@, precision, is_zero),
{
    match precision {
        None => digits,
        Some(precision) => {
            if precision == 0 && is_zero {
                return String::new();
            }
            let length: usize = digits.as_str().len();
            if length < precision {
                let mut result = String::new();
                push_repeated(&mut result, '0', precision - length);
                result.append(digits.as_str());
                assert(result@ =~= repeated('0', (precision - length) as nat) + digits@);
                result
            } else {
                digits
            }
        },
    }
}

fn parse_number(bytes: &[u8], from: usize, to: usize) -> (value: Option<usize>)
    requires
        from <= to <= bytes@.len(),
        forall|i: int| from <= i < to ==> is_digit(#[trigger] bytes@[i]),
    ensures
        match value {
            Some(value) => value == number(bytes@, from as int, to as int),
            None => number(bytes@, from as int, to as int) > usize::MAX,
        },
{
    let mut value: Option<usize> = Some(0);
    let mut index: usize = from;
    while index < to
        invariant
            from <= index <= to <= bytes@.len(),
            forall|i: int| from <= i < to ==> is_digit(#[trigger] bytes@[i]),
            match value {
                Some(value) => value == number(bytes@, from as int, index as int),
                None => number(bytes@, from as int, index as int) > usize::MAX,
            },
        decreases to - index,
    {
        let digit: usize = (bytes[index] - 0x30) as usize;
        value = match value {
            None => None,
            Some(value) => match value.checked_mul(10) {
                None => None,
                Some(value) => value.checked_add(digit),
            },
        };
        index = index + 1;
    }
    value
}

fn skip_digits(bytes: &[u8], at: usize) -> (end: usize)
    requires
        at <= bytes@.len(),
    ensures
        end == digits_end(bytes@, at as int),
        at <= end <= bytes@.len(),
        forall|i: int| at <= i < end ==> is_digit(#[trigger] bytes@[i]),
{
    let mut end: usize = at;
    while end < bytes.len() && bytes[end] >= 0x30 && bytes[end] <= 0x39
        invariant
            at <= end <= bytes@.len(),
            digits_end(bytes@, at as int) == digits_end(bytes@, end as int),
            forall|i: int| at <= i < end ==> is_digit(#[trigger] bytes@[i]),
        decreases bytes@.len() - end,
    {
        end = end + 1;
    }
    end
}

/// Reads the conversion that starts behind a percent sign.
pub fn parse_directive(bytes: &[u8], at: usize) -> (directive: Directive)
    requires
        at <= bytes@.len(),
    ensures
        directive == directive_at(bytes@, at as int),
        directive.conversion is Some ==> directive.next == directive_end(bytes@, at as int) + 1
            && directive.next <= bytes@.len(),
{
    let mut left_aligned: bool = false;
    let mut show_sign: bool = false;
    let mut space_sign: bool = false;
    let mut alternate: bool = false;
    let mut zero_padded: bool = false;
    let mut cursor: usize = at;
    while cursor < bytes.len() && (bytes[cursor] == 0x2d || bytes[cursor] == 0x2b || bytes[cursor]
        == 0x20 || bytes[cursor] == 0x23 || bytes[cursor] == 0x30)
        invariant
            at <= cursor <= bytes@.len(),
            flags_end(bytes@, at as int) == flags_end(bytes@, cursor as int),
            left_aligned == occurs(bytes@, at as int, cursor as int, 0x2d),
            show_sign == occurs(bytes@, at as int, cursor as int, 0x2b),
            space_sign == occurs(bytes@, at as int, cursor as int, 0x20),
            alternate == occurs(bytes@, at as int, cursor as int, 0x23),
            zero_padded == occurs(bytes@, at as int, cursor as int, 0x30),
        decreases bytes@.len() - cursor,
    {
        let byte: u8 = bytes[cursor];
        if byte == 0x2d {
            left_aligned = true;
        } else if byte == 0x2b {
            show_sign = true;
        } else if byte == 0x20 {
            space_sign = true;
        } else if byte == 0x23 {
            alternate = true;
        } else {
            zero_padded = true;
        }
        assert(bytes@[cursor as int] == byte);
        cursor = cursor + 1;
    }
    let width_start: usize = cursor;
    cursor = skip_digits(bytes, cursor);
    let width: Option<usize> = if cursor > width_start {
        parse_number(bytes, width_start, cursor)
    } else {
        None
    };
    let precision: Option<usize> = if cursor < bytes.len() && bytes[cursor] == 0x2e {
        let precision_start: usize = cursor + 1;
        cursor = skip_digits(bytes, precision_start);
        if cursor > precision_start {
            match parse_number(bytes, precision_start, cursor) {
                Some(precision) => Some(precision),
                None => Some(0),
            }
        } else {
            Some(0)
        }
    } else {
        None
    };
    let ghost modifiers = cursor as int;
    while cursor < bytes.len() && (bytes[cursor] == 0x68 || bytes[cursor] == 0x6c || bytes[cursor]
        == 0x6a || bytes[cursor] == 0x7a || bytes[cursor] == 0x74 || bytes[cursor] == 0x4c)
        invariant
            cursor <= bytes@.len(),
            modifiers_end(bytes@, modifiers) == modifiers_end(bytes@, cursor as int),
        decreases bytes@.len() - cursor,
    {
        cursor = cursor + 1;
    }
    let conversion: Option<u8> = if cursor < bytes.len() {
        Some(bytes[cursor])
    } else {
        None
    };
    Directive {
        left_aligned,
        show_sign,
        space_sign,
        alternate,
        zero_padded,
        width,
        precision,
        conversion,
        next: if cursor < bytes.len() {
            cursor + 1
        } else {
            cursor
        },
    }
}

/// A converted argument.
pub struct Field {
    pub prefix: String,
    pub body: String,
}

impl View for Field {
    type V = FieldView;

    open spec fn view(&self) -> FieldView {
        FieldView { prefix: self.prefix@, body: self.body@ }
    }
}

/// The first characters of a text.
fn take_chars(text: String, limit: usize) -> (result: String)
    ensures
        result@ == if limit < text@.len() {
            text@.take(limit as int)
        } else {
            text@
        },
{
    if limit < text.as_str().unicode_len() {
        let part = text.as_str().substring_char(0, limit);
        assert(part@ =~= text@.take(limit as int));
        part.to_owned()
    } else {
        text
    }
}

/// Shortens a text to what it contributes.
pub fn text_field(directive: &Directive, text: String) -> (field: Field)
    ensures
        field@ == text_field_for(*directive, text@),
{
    Field {
        prefix: String::new(),
        body: match directive.precision {
            Some(limit) => take_chars(text, limit),
            None => text,
        },
    }
}

/// Converts an argument; nothing where the conversion is unknown.
pub fn convert_argument(directive: &Directive, argument: u32, memory: &Memory) -> (field: Option<
    Field,
>)
    ensures
        match field_for(*directive, argument, memory@) {
            Some(expected) => field matches Some(field) && field@ == expected,
            None => field is None,
        },
{
    let conversion: u8 = match directive.conversion {
        Some(conversion) => conversion,
        None => {
            return None;
        },
    };
    let mut prefix = String::new();
    let mut plain = String::new();
    if conversion == 0x73 {
        return Some(text_field(directive, read_guest_c_string(memory, argument)));
    }
    if conversion == 0x63 {
        plain.push(argument as u8 as char);
        assert(plain@ =~= seq![argument as u8 as char]);
        return Some(Field { prefix, body: plain });
    }
    if conversion == 0x64 || conversion == 0x69 {
        if argument >= 0x8000_0000 {
            prefix.push('-');
        } else if directive.show_sign {
            prefix.push('+');
        } else if directive.space_sign {
            prefix.push(' ');
        }
        assert(prefix@ =~= sign_text(*directive, argument));
        let magnitude: u32 = if argument < 0x8000_0000 {
            argument
        } else {
            0xffff_ffff - argument + 1
        };
        push_decimal(&mut plain, magnitude as u128);
        assert(plain@ =~= decimal(signed_magnitude(argument)));
    } else if conversion == 0x75 {
        push_decimal(&mut plain, argument as u128);
        assert(plain@ =~= decimal(argument as nat));
    } else if conversion == 0x6f {
        if directive.alternate && argument != 0 {
            prefix.push('0');
            assert(prefix@ =~= seq!['0']);
        }
        push_digits(&mut plain, argument as u128, 8, false);
        assert(plain@ =~= digits(argument as nat, 8, false));
    } else if conversion == 0x78 || conversion == 0x58 || conversion == 0x70 {
        let uppercase: bool = conversion == 0x58;
        if conversion == 0x70 || (directive.alternate && argument != 0) {
            prefix.push('0');
            prefix.push(
                if uppercase {
                    'X'
                } else {
                    'x'
                },
            );
            assert(prefix@ =~= if uppercase {
                seq!['0', 'X']
            } else {
                seq!['0', 'x']
            });
        }
        push_digits(&mut plain, argument as u128, 16, uppercase);
        assert(plain@ =~= digits(argument as nat, 16, uppercase));
    } else {
        return None;
    }
    let body = apply_integer_precision(plain, directive.precision, argument == 0);
    Some(Field { prefix, body })
}

/// Appends a field, brought to its width.
pub fn push_field(output: &mut String, directive: &Directive, field: &Field)
    ensures
        final(output)@ == old(output)@ + padded(*directive, field@),
{
    let prefix_len: usize = field.prefix.as_str().len();
    let body_len: usize = field.body.as_str().len();
    let zeros: bool = directive.zero_padded && directive.precision.is_none();
    let padding: usize = match directive.width {
        Some(width) => if prefix_len < width && body_len < width - prefix_len {
            width - prefix_len - body_len
        } else {
            0
        },
        None => 0,
    };
    let ghost start = output@;
    if padding == 0 {
        output.append(field.prefix.as_str());
        output.append(field.body.as_str());
    } else if directive.left_aligned {
        output.append(field.prefix.as_str());
        output.append(field.body.as_str());
        push_repeated(output, ' ', padding);
    } else if zeros && field.prefix.as_str().unicode_len() > 0 {
        output.append(field.prefix.as_str());
        push_repeated(output, '0', padding);
        output.append(field.body.as_str());
    } else {
        push_repeated(
            output,
            if zeros {
                '0'
            } else {
                ' '
            },
            padding,
        );
        output.append(field.prefix.as_str());
        output.append(field.body.as_str());
    }
    assert(output@ =~= start + padded(*directive, field@));
}

/// Formats text with the arguments of a guest call.
pub fn format_guest_printf(regs: &Registers, memory: &Memory, format: &str) -> (result: Result<
    String,
    SimulatorError,
>)
    ensures
        match formatted(format@, regs.file(), memory@) {
            Ok(text) => result matches Ok(output) && output@ == text,
            Err(address) => result == Err::<String, SimulatorError>(
                SimulatorError::UnmappedAddress { address },
            ),
        },
{
    let bytes = format.as_bytes();
    let mut output = String::new();
    let mut cursor: usize = 0;
    let mut argument_index: usize = 0;
    assert(output@ =~= Seq::<char>::empty());
    while cursor < bytes.len()
        invariant
            cursor <= bytes@.len(),
            argument_index <= cursor,
            bytes@ == vstd::utf8::encode_utf8(format@),
            formatted(format@, regs.file(), memory@) == formatted_from(
                bytes@,
                cursor as int,
                argument_index as int,
                output@,
                regs.file(),
                memory@,
            ),
        decreases bytes@.len() - cursor,
    {
        if bytes[cursor] != 0x25 {
            output.push(bytes[cursor] as char);
            cursor = cursor + 1;
            continue;
        }
        if cursor + 1 < bytes.len() && bytes[cursor + 1] == 0x25 {
            output.push('%');
            cursor = cursor + 2;
            continue;
        }
        proof {
            lemma_directive_end(bytes@, cursor + 1);
        }
        let directive = parse_directive(bytes, cursor + 1);
        let conversion: u8 = match directive.conversion {
            Some(conversion) => conversion,
            None => {
                output.push('%');
                return Ok(output);
            },
        };
        let argument: u32 = match guest_printf_arg(regs, memory, argument_index) {
            Ok(argument) => argument,
            Err(error) => {
                return Err(error);
            },
        };
        match convert_argument(&directive, argument, memory) {
            Some(field) => {
                push_field(&mut output, &directive, &field);
            },
            None => {
                output.push('%');
                output.push(conversion as char);
            },
        }
        argument_index = argument_index + 1;
        cursor = directive.next;
    }
    Ok(output)
}

/// A format without directives is copied as it is, byte by byte, whatever the
/// registers and memory hold.
pub proof fn law_plain_text_is_copied(format: Seq<char>, regs: Seq<u32>, memory: MemoryView)
    requires
        forall|i: int|
            0 <= i < vstd::utf8::encode_utf8(format).len() ==> #[trigger] vstd::utf8::encode_utf8(
                format,
            )[i] != 0x25,
    ensures
        formatted(format, regs, memory) == Ok::<Seq<char>, u32>(
            vstd::utf8::encode_utf8(format).map_values(|byte: u8| byte as char),
        ),
{
    let bytes = vstd::utf8::encode_utf8(format);
    let chars = bytes.map_values(|byte: u8| byte as char);
    assert(chars.take(0) =~= Seq::<char>::empty());
    lemma_plain_text(bytes, 0, regs, memory);
}

proof fn lemma_plain_text(bytes: Seq<u8>, at: int, regs: Seq<u32>, memory: MemoryView)
    requires
        0 <= at <= bytes.len(),
        forall|i: int| 0 <= i < bytes.len() ==> #[trigger] bytes[i] != 0x25,
    ensures
        ({
            let chars = bytes.map_values(|byte: u8| byte as char);
            formatted_from(bytes, at, 0, chars.take(at), regs, memory) == Ok::<Seq<char>, u32>(
                chars,
            )
        }),
    decreases bytes.len() - at,
{
    let chars = bytes.map_values(|byte: u8| byte as char);
    if at < bytes.len() {
        assert(chars.take(at + 1) =~= chars.take(at).push(bytes[at] as char));
        lemma_plain_text(bytes, at + 1, regs, memory);
    } else {
        assert(chars.take(at) =~= chars);
    }
}

} // verus!
