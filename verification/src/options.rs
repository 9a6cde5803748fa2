//! What the player can set.
//!
//! Options are texts, each under a key. A text that makes no sense leaves the
//! default.

use crate::cpu::UnknownInstructionPolicy;
use crate::input::{DEFAULT_REPEAT_DELAY, DEFAULT_REPEAT_PERIOD};
use crate::paths::to_chars;
use crate::text::text_equal;
use vstd::prelude::*;
use vstd::string::*;

verus! {

/// What the player can choose.
#[derive(Clone, Copy, Debug, PartialEq, Eq, Structural)]
pub struct CoreOptions {
    /// In percent.
    pub volume: u8,
    pub repeat_delay: u32,
    pub repeat_period: u32,
    pub swap_ab: bool,
    pub frame_rate_enhancement_enabled: bool,
    pub diagnostics_enabled: bool,
    pub unknown_instruction_policy: UnknownInstructionPolicy,
    pub jit_enabled: bool,
}

/// What holds where the player chose nothing.
pub open spec fn default_options() -> CoreOptions {
    CoreOptions {
        volume: 100,
        repeat_delay: DEFAULT_REPEAT_DELAY,
        repeat_period: DEFAULT_REPEAT_PERIOD,
        swap_ab: false,
        frame_rate_enhancement_enabled: false,
        diagnostics_enabled: false,
        unknown_instruction_policy: UnknownInstructionPolicy::Skip,
        jit_enabled: true,
    }
}

impl Default for CoreOptions {
    fn default() -> (options: CoreOptions)
        ensures
            options == default_options(),
    {
        CoreOptions {
            volume: 100,
            repeat_delay: DEFAULT_REPEAT_DELAY,
            repeat_period: DEFAULT_REPEAT_PERIOD,
            swap_ab: false,
            frame_rate_enhancement_enabled: false,
            diagnostics_enabled: false,
            unknown_instruction_policy: UnknownInstructionPolicy::Skip,
            jit_enabled: true,
        }
    }
}

// The options that are offered.

/// An option: its key, and what it is called with its possible values, the default
/// first. The end of a list has neither.
#[derive(Clone, Copy, Debug)]
pub struct RetroVariable {
    pub key: Option<&'static str>,
    pub value: Option<&'static str>,
}

/// What is written of an option.
pub open spec fn variable_text(variable: RetroVariable) -> Option<(Seq<char>, Seq<char>)> {
    match (variable.key, variable.value) {
        (Some(key), Some(value)) => Some((key@, value@)),
        _ => None,
    }
}

/// Variables as their texts.
pub open spec fn variable_texts(variables: Seq<RetroVariable>) -> Seq<
    Option<(Seq<char>, Seq<char>)>,
> {
    variables.map_values(|variable: RetroVariable| variable_text(variable))
}

/// The options, in the order in which they are offered. Where native code is
/// optional, so is its use.
pub open spec fn offered_options(engine_selectable: bool) -> Seq<Option<(Seq<char>, Seq<char>)>> {
    let general = seq![
        Some(("dingooemu_volume"@, "Audio Volume (%); 100|90|80|70|60|50|40|30|20|10|0"@)),
        Some(
            (
                "dingooemu_repeat_delay"@,
                "Key Auto-Repeat Delay (frames); 24|0|2|4|6|8|10|12|16|20|30|45|60"@,
            ),
        ),
        Some(
            (
                "dingooemu_repeat_period"@,
                "Key Auto-Repeat Period (frames); 6|1|2|3|4|5|8|10|12|15|20|30"@,
            ),
        ),
        Some(("dingooemu_swap_ab"@, "Swap A/B Buttons; disabled|enabled"@)),
        Some(("dingooemu_debug_logging"@, "Performance Diagnostic Log; disabled|enabled"@)),
        Some(("dingooemu_unknown_instruction"@, "Unknown MIPS Instruction Policy; skip|stop"@)),
    ];
    let engine = if engine_selectable {
        seq![Some(("dingooemu_cpu_engine"@, "CPU Execution Engine; jit|interpreter"@))]
    } else {
        Seq::empty()
    };
    general + engine + seq![
        Some(
            ("dingooemu_frame_rate_enhancement"@, "Frame Rate Enhancement; disabled|enabled"@),
        ),
        None,
    ]
}

fn variable(key: &'static str, value: &'static str) -> (result: RetroVariable)
    ensures
        variable_text(result) == Some((key@, value@)),
{
    RetroVariable { key: Some(key), value: Some(value) }
}

/// The options that the player is offered.
pub fn core_option_variables(engine_selectable: bool) -> (variables: Vec<RetroVariable>)
    ensures
        variable_texts(variables@) == offered_options(engine_selectable),
{
    let mut variables: Vec<RetroVariable> = Vec::new();
    variables.push(
        variable("dingooemu_volume", "Audio Volume (%); 100|90|80|70|60|50|40|30|20|10|0"),
    );
    variables.push(
        variable(
            "dingooemu_repeat_delay",
            "Key Auto-Repeat Delay (frames); 24|0|2|4|6|8|10|12|16|20|30|45|60",
        ),
    );
    variables.push(
        variable(
            "dingooemu_repeat_period",
            "Key Auto-Repeat Period (frames); 6|1|2|3|4|5|8|10|12|15|20|30",
        ),
    );
    variables.push(variable("dingooemu_swap_ab", "Swap A/B Buttons; disabled|enabled"));
    variables.push(
        variable("dingooemu_debug_logging", "Performance Diagnostic Log; disabled|enabled"),
    );
    variables.push(
        variable("dingooemu_unknown_instruction", "Unknown MIPS Instruction Policy; skip|stop"),
    );
    if engine_selectable {
        variables.push(variable("dingooemu_cpu_engine", "CPU Execution Engine; jit|interpreter"));
    }
    variables.push(
        variable("dingooemu_frame_rate_enhancement", "Frame Rate Enhancement; disabled|enabled"),
    );
    variables.push(RetroVariable { key: None, value: None });
    assert(variable_texts(variables@) =~= offered_options(engine_selectable));
    variables
}

// Numbers.

/// Whether a character is a decimal digit.
pub open spec fn is_digit_char(character: char) -> bool {
    '0' <= character <= '9'
}

/// The number that digits stand for.
pub open spec fn digits_value(digits: Seq<char>) -> int
    decreases digits.len(),
{
    if digits.len() == 0 {
        0
    } else {
        10 * digits_value(digits.drop_last()) + (digits.last() as u32 - 0x30)
    }
}

/// A text without a plus sign in front.
pub open spec fn unsigned(text: Seq<char>) -> Seq<char> {
    if text.len() > 0 && text[0] == '+' {
        text.skip(1)
    } else {
        text
    }
}

/// Whether a text is made of decimal digits.
pub open spec fn all_digits(digits: Seq<char>) -> bool {
    forall|i: int| 0 <= i < digits.len() ==> is_digit_char(#[trigger] digits[i])
}

/// The number in a text, where it is one up to a limit.
pub open spec fn number_in(text: Seq<char>, limit: u32) -> Option<u32> {
    let digits = unsigned(text);
    if digits.len() > 0 && all_digits(digits) && digits_value(digits) <= limit {
        Some(digits_value(digits) as u32)
    } else {
        None
    }
}

/// More digits never make a smaller number.
proof fn lemma_digits_value_grows(digits: Seq<char>, count: int)
    requires
        0 <= count <= digits.len(),
        all_digits(digits),
    ensures
        0 <= digits_value(digits.take(count)) <= digits_value(digits),
    decreases digits.len(),
{
    if count == digits.len() {
        assert(digits.take(count) =~= digits);
        if digits.len() > 0 {
            let shorter = digits.drop_last();
            lemma_digits_value_grows(shorter, shorter.len() as int);
            assert(is_digit_char(digits[digits.len() - 1]));
        }
    } else {
        let shorter = digits.drop_last();
        assert(shorter.take(count) =~= digits.take(count));
        lemma_digits_value_grows(shorter, count);
        assert(is_digit_char(digits[digits.len() - 1]));
    }
}

/// Reads a number.
pub fn parse_number(text: &str, limit: u32) -> (number: Option<u32>)
    ensures
        number == number_in(text@, limit),
{
    let chars: Vec<char> = to_chars(text);
    let start: usize = if chars.len() > 0 && chars[0] == '+' {
        1
    } else {
        0
    };
    let ghost digits = unsigned(chars@);
    assert(digits =~= chars@.skip(start as int));
    if start == chars.len() {
        assert(digits.len() == 0);
        return None;
    }
    let mut value: u64 = 0;
    let mut index: usize = start;
    assert(digits.take(0) =~= Seq::<char>::empty());
    while index < chars.len()
        invariant
            start <= index <= chars@.len(),
            start < chars@.len(),
            chars@ == text@,
            digits == unsigned(text@),
            digits == chars@.skip(start as int),
            forall|i: int| 0 <= i < index - start ==> is_digit_char(#[trigger] digits[i]),
            value == digits_value(digits.take(index - start)),
            value <= limit,
        decreases chars@.len() - index,
    {
        let character: char = chars[index];
        let ghost count = index - start;
        proof {
            assert(digits[count] == character);
            assert(digits.take(count + 1).drop_last() =~= digits.take(count));
            assert(digits.take(count + 1).last() == character);
        }
        if !('0' <= character && character <= '9') {
            assert(!is_digit_char(digits[count]));
            return None;
        }
        value = 10 * value + (character as u32 - 0x30) as u64;
        if value > limit as u64 {
            proof {
                if all_digits(digits) {
                    lemma_digits_value_grows(digits, count + 1);
                }
            }
            return None;
        }
        index = index + 1;
    }
    assert(digits.take(index - start) =~= digits);
    Some(value as u32)
}

// Values.

/// The value that is set for a key.
pub open spec fn value_for(values: Seq<(String, String)>, key: Seq<char>, from: int) -> Option<
    Seq<char>,
>
    decreases values.len() - from,
{
    if from < 0 || from >= values.len() {
        None
    } else if values[from].0@ == key {
        Some(values[from].1@)
    } else {
        value_for(values, key, from + 1)
    }
}

fn find_value<'a>(values: &'a Vec<(String, String)>, key: &str) -> (value: Option<&'a String>)
    ensures
        match value_for(values@, key@, 0) {
            Some(expected) => value matches Some(value) && value@ == expected,
            None => value is None,
        },
{
    let mut index: usize = 0;
    while index < values.len()
        invariant
            index <= values@.len(),
            value_for(values@, key@, 0) == value_for(values@, key@, index as int),
        decreases values@.len() - index,
    {
        if text_equal(values[index].0.as_str(), key) {
            return Some(&values[index].1);
        }
        index = index + 1;
    }
    None
}

/// The number set for a key.
pub open spec fn number_for(values: Seq<(String, String)>, key: Seq<char>, limit: u32) -> Option<
    u32,
> {
    match value_for(values, key, 0) {
        Some(value) => number_in(value, limit),
        None => None,
    }
}

fn find_number(values: &Vec<(String, String)>, key: &str, limit: u32) -> (number: Option<u32>)
    ensures
        number == number_for(values@, key@, limit),
{
    match find_value(values, key) {
        Some(value) => parse_number(value.as_str(), limit),
        None => None,
    }
}

/// Whether a key is set to a value; a default where it is not set.
pub open spec fn is_set_to(
    values: Seq<(String, String)>,
    key: Seq<char>,
    value: Seq<char>,
) -> bool {
    value_for(values, key, 0) == Some(value)
}

fn find_setting(values: &Vec<(String, String)>, key: &str, value: &str) -> (set: bool)
    ensures
        set == is_set_to(values@, key@, value@),
{
    match find_value(values, key) {
        Some(found) => text_equal(found.as_str(), value),
        None => false,
    }
}

/// What the set values make of the options.
pub open spec fn options_from(values: Seq<(String, String)>) -> CoreOptions {
    let default = default_options();
    CoreOptions {
        volume: match number_for(values, "dingooemu_volume"@, u8::MAX as u32) {
            Some(volume) => if volume > 100 {
                100
            } else {
                volume as u8
            },
            None => default.volume,
        },
        repeat_delay: match number_for(values, "dingooemu_repeat_delay"@, u32::MAX) {
            Some(delay) => delay,
            None => default.repeat_delay,
        },
        repeat_period: match number_for(values, "dingooemu_repeat_period"@, u32::MAX) {
            Some(period) => if period == 0 {
                1
            } else {
                period
            },
            None => default.repeat_period,
        },
        swap_ab: is_set_to(values, "dingooemu_swap_ab"@, "enabled"@),
        frame_rate_enhancement_enabled: is_set_to(
            values,
            "dingooemu_frame_rate_enhancement"@,
            "enabled"@,
        ),
        diagnostics_enabled: is_set_to(values, "dingooemu_debug_logging"@, "enabled"@),
        unknown_instruction_policy: if is_set_to(
            values,
            "dingooemu_unknown_instruction"@,
            "stop"@,
        ) {
            UnknownInstructionPolicy::Stop
        } else {
            UnknownInstructionPolicy::Skip
        },
        jit_enabled: !is_set_to(values, "dingooemu_cpu_engine"@, "interpreter"@),
    }
}

/// Reads the options from the values that are set, by their keys.
pub fn read_core_options(values: &Vec<(String, String)>) -> (options: CoreOptions)
    ensures
        options == options_from(values@),
{
    let mut options = CoreOptions::default();
    if let Some(volume) = find_number(values, "dingooemu_volume", u8::MAX as u32) {
        options.volume = if volume > 100 {
            100
        } else {
            volume as u8
        };
    }
    if let Some(delay) = find_number(values, "dingooemu_repeat_delay", u32::MAX) {
        options.repeat_delay = delay;
    }
    if let Some(period) = find_number(values, "dingooemu_repeat_period", u32::MAX) {
        options.repeat_period = if period == 0 {
            1
        } else {
            period
        };
    }
    options.swap_ab = find_setting(values, "dingooemu_swap_ab", "enabled");
    options.frame_rate_enhancement_enabled = find_setting(
        values,
        "dingooemu_frame_rate_enhancement",
        "enabled",
    );
    options.diagnostics_enabled = find_setting(values, "dingooemu_debug_logging", "enabled");
    if find_setting(values, "dingooemu_unknown_instruction", "stop") {
        options.unknown_instruction_policy = UnknownInstructionPolicy::Stop;
    }
    options.jit_enabled = !find_setting(values, "dingooemu_cpu_engine", "interpreter");
    options
}

/// Whatever is set, the volume is a percentage and held keys repeat.
pub proof fn law_options_are_usable(values: Seq<(String, String)>)
    ensures
        options_from(values).volume <= 100,
        options_from(values).repeat_period >= 1,
{
}

/// Without any value set, the options are the default ones.
pub proof fn law_defaults_hold_without_values(values: Seq<(String, String)>)
    requires
        values.len() == 0,
    ensures
        options_from(values) == default_options(),
{
}

} // verus!
