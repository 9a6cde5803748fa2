//! What the player chooses and holds.

use crate::cpu::UnknownInstructionPolicy;
use crate::frontend::{button_map, buttons_for, law_buttons_do_not_mix, region_of, MemoryRegion};
use crate::laws::formatting::{are_digits, digit_value, law_digits_read_back, read_digits};
use crate::options::{
    all_digits, digits_value, is_digit_char, number_in, options_from, unsigned, value_for,
};
use crate::text::{decimal, digits};
use vstd::prelude::*;

verus! {

proof fn lemma_read(text: Seq<char>)
    ensures
        all_digits(text) <==> are_digits(text, 10, false),
        all_digits(text) ==> digits_value(text) == read_digits(text, 10) && digits_value(text) >= 0,
    decreases text.len(),
{
    if all_digits(text) {
        assert forall|i: int| 0 <= i < text.len() implies 0 <= digit_value(#[trigger] text[i])
            < 10 && !('A' <= text[i] <= 'F') by {
            assert(is_digit_char(text[i]));
        }
    }
    if are_digits(text, 10, false) {
        assert forall|i: int| 0 <= i < text.len() implies is_digit_char(#[trigger] text[i]) by {
            assert(0 <= digit_value(text[i]) < 10);
        }
    }
    if text.len() > 0 {
        lemma_read(text.drop_last());
        if all_digits(text) {
            assert forall|i: int| 0 <= i < text.drop_last().len() implies is_digit_char(
                #[trigger] text.drop_last()[i],
            ) by {
                assert(is_digit_char(text[i]));
            }
            assert(is_digit_char(text[text.len() - 1]));
        }
    }
}

/// Whether a text is a number in decimal digits, with a plus sign before them or without.
pub open spec fn writes(text: Seq<char>, written: Seq<char>, number: int) -> bool {
    &&& text == written || text == seq!['+'] + written
    &&& written.len() > 0
    &&& are_digits(written, 10, false)
    &&& read_digits(written, 10) == number
}

/// The number in a text is the one that its decimal digits stand for, with a plus sign
/// before them or without. A text of anything else has none, and neither has a number
/// above the limit.
pub proof fn law_numbers_in_texts(text: Seq<char>, limit: u32, number: u32)
    ensures
        number_in(text, limit) == Some(number) <==> number <= limit && exists|written: Seq<char>|
            #[trigger] writes(text, written, number as int),
        number <= limit ==> number_in(decimal(number as nat), limit) == Some(number),
{
    let written = unsigned(text);
    lemma_read(written);
    if number_in(text, limit) == Some(number) {
        if text.len() > 0 && text[0] == '+' {
            assert(text =~= seq!['+'] + written);
        }
        assert(writes(text, written, number as int));
    }
    if number <= limit && exists|other: Seq<char>| #[trigger] writes(text, other, number as int) {
        let other = choose|other: Seq<char>| #[trigger] writes(text, other, number as int);
        assert(digit_value(other[0]) >= 0);
        assert(other =~= written);
        assert(number_in(text, limit) == Some(number));
    }
    let plain = decimal(number as nat);
    law_digits_read_back(number as nat, 10, false);
    lemma_read(plain);
    assert(digit_value(plain[0]) >= 0);
    assert(unsigned(plain) == plain);
}

proof fn lemma_value(values: Seq<(String, String)>, key: Seq<char>, from: int)
    requires
        0 <= from <= values.len(),
    ensures
        match value_for(values, key, from) {
            Some(value) => exists|i: int|
                {
                    &&& from <= i < values.len()
                    &&& (#[trigger] values[i]).0@ == key
                    &&& values[i].1@ == value
                    &&& forall|j: int| from <= j < i ==> (#[trigger] values[j]).0@ != key
                },
            None => forall|i: int| from <= i < values.len() ==> (#[trigger] values[i]).0@ != key,
        },
    decreases values.len() - from,
{
    if from < values.len() && values[from].0@ != key {
        lemma_value(values, key, from + 1);
    }
}

/// A value is found by its key, the first one of several.
pub proof fn law_values_are_found(values: Seq<(String, String)>, key: Seq<char>)
    ensures
        match value_for(values, key, 0) {
            Some(value) => exists|i: int|
                {
                    &&& 0 <= i < values.len()
                    &&& (#[trigger] values[i]).0@ == key
                    &&& values[i].1@ == value
                    &&& forall|j: int| 0 <= j < i ==> (#[trigger] values[j]).0@ != key
                },
            None => forall|i: int| 0 <= i < values.len() ==> (#[trigger] values[i]).0@ != key,
        },
{
    lemma_value(values, key, 0);
}

/// A number that is set for the volume, written in decimal, is the volume in percent, up
/// to a hundred; for the delay and the period of held keys it is their number of frames,
/// where a period has at least one.
pub proof fn law_numbers_that_are_set(values: Seq<(String, String)>, number: u32)
    ensures
        ({
            let options = options_from(values);
            let text = decimal(number as nat);
            &&& value_for(values, "dingooemu_volume"@, 0) == Some(text) && number <= 100
                ==> options.volume == number
            &&& value_for(values, "dingooemu_volume"@, 0) == Some(text) && number > 100
                ==> options.volume == 100
            &&& value_for(values, "dingooemu_repeat_delay"@, 0) == Some(text)
                ==> options.repeat_delay == number
            &&& value_for(values, "dingooemu_repeat_period"@, 0) == Some(text) && number > 0
                ==> options.repeat_period == number
            &&& value_for(values, "dingooemu_repeat_period"@, 0) == Some(text) && number == 0
                ==> options.repeat_period == 1
        }),
        ({
            let options = options_from(values);
            &&& value_for(values, "dingooemu_volume"@, 0) is None ==> options.volume == 100
            &&& value_for(values, "dingooemu_repeat_delay"@, 0) is None ==> options.repeat_delay
                == 24
            &&& value_for(values, "dingooemu_repeat_period"@, 0) is None ==> options.repeat_period
                == 6
        }),
{
    let text = decimal(number as nat);
    law_numbers_in_texts(text, u32::MAX, number);
    law_digits_read_back(number as nat, 10, false);
    lemma_read(text);
    assert(digit_value(text[0]) >= 0);
    assert(unsigned(text) == text);
    assert(number_in(text, 255) == if number <= 255 {
        Some(number)
    } else {
        None
    });
}

/// A switch is on where it is set so, and each has its own key. Code is translated and
/// unknown instructions are skipped unless it is set otherwise.
pub proof fn law_switches_that_are_set(values: Seq<(String, String)>)
    ensures
        ({
            let options = options_from(values);
            let on = Some("enabled"@);
            &&& options.swap_ab <==> value_for(values, "dingooemu_swap_ab"@, 0) == on
            &&& options.frame_rate_enhancement_enabled <==> value_for(
                values,
                "dingooemu_frame_rate_enhancement"@,
                0,
            ) == on
            &&& options.diagnostics_enabled <==> value_for(
                values,
                "dingooemu_debug_logging"@,
                0,
            ) == on
            &&& options.unknown_instruction_policy == UnknownInstructionPolicy::Stop <==> value_for(
                values,
                "dingooemu_unknown_instruction"@,
                0,
            ) == Some("stop"@)
            &&& !options.jit_enabled <==> value_for(values, "dingooemu_cpu_engine"@, 0) == Some(
                "interpreter"@,
            )
        }),
{
}

/// Each button of the pad, by its number, is one bit of what the console sees.
pub proof fn law_buttons_of_the_pad(held: spec_fn(u32) -> bool, answers: Seq<bool>)
    requires
        answers.len() == 12,
        forall|i: int| 0 <= i < 12 ==> #[trigger] answers[i] == held(button_map()[i].0),
    ensures
        ({
            let seen = buttons_for(answers, 12);
            &&& seen & 0x0020_0000 != 0 <==> held(0)
            &&& seen & 0x0000_0040 != 0 <==> held(1)
            &&& seen & 0x0000_0400 != 0 <==> held(2)
            &&& seen & 0x0000_0800 != 0 <==> held(3)
            &&& seen & 0x0010_0000 != 0 <==> held(4)
            &&& seen & 0x0800_0000 != 0 <==> held(5)
            &&& seen & 0x1000_0000 != 0 <==> held(6)
            &&& seen & 0x0004_0000 != 0 <==> held(7)
            &&& seen & 0x8000_0000 != 0 <==> held(8)
            &&& seen & 0x0001_0000 != 0 <==> held(9)
            &&& seen & 0x0000_0100 != 0 <==> held(10)
            &&& seen & 0x2000_0000 != 0 <==> held(11)
        }),
{
    law_buttons_do_not_mix(answers, 0);
    law_buttons_do_not_mix(answers, 1);
    law_buttons_do_not_mix(answers, 2);
    law_buttons_do_not_mix(answers, 3);
    law_buttons_do_not_mix(answers, 4);
    law_buttons_do_not_mix(answers, 5);
    law_buttons_do_not_mix(answers, 6);
    law_buttons_do_not_mix(answers, 7);
    law_buttons_do_not_mix(answers, 8);
    law_buttons_do_not_mix(answers, 9);
    law_buttons_do_not_mix(answers, 10);
    law_buttons_do_not_mix(answers, 11);
}

/// The lowest byte of an identifier says which memory is meant: two is the system's and
/// three the picture's.
pub proof fn law_memory_that_is_shown(id: u32)
    ensures
        region_of(id) == Some(MemoryRegion::SystemRam) <==> id % 256 == 2,
        region_of(id) == Some(MemoryRegion::VideoRam) <==> id % 256 == 3,
{
    assert(id & 0xff == id % 256) by (bit_vector);
}

} // verus!
