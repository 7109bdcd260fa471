//! The decoder of flat netlist descriptions.
//!
//! A description is a sequence of 32-bit words. Each record starts with an
//! opcode word, continues with a payload whose length the opcode (and, for a
//! signal source, a length word) determines, and is closed by the sentinel
//! word. Decoding either yields every component in encounter order or fails
//! as a whole.
//!
//! Opcode 4 is reserved for memory arrays. Their payload has no layout yet,
//! so the decoder rejects it like any other opcode it does not know.

use crate::component::{models, Component, ComponentModel, SignalLevel};
use vstd::prelude::*;

verus! {

/// The word that closes every record.
pub const SENTINEL: u32 = 123456789;

/// Opcode of a transistor record: `is_pfet, gate, drain, source`.
pub const OPCODE_TRANSISTOR: u32 = 1;

/// Opcode of a signal source record: `net, repeat, length` and then
/// `length` pattern values.
pub const OPCODE_SIGNAL_SOURCE: u32 = 2;

/// Opcode of a pull resistor record: `is_pull_down, net`.
pub const OPCODE_PULL_RESISTOR: u32 = 3;

/// Why a description could not be decoded. Positions are word indices.
#[derive(Clone, Copy, Debug, PartialEq, Eq, Structural)]
pub enum DecodeError {
    /// The word at `position` should open a record and is no known opcode.
    UnknownOpcode { position: usize, opcode: u32 },
    /// The record that opens at `position` runs past the end.
    Truncated { position: usize },
    /// The word at `position` should be the sentinel and is missing or
    /// another word.
    MissingSentinel { position: usize },
    /// The pattern value at `position` is none of low, high and high-Z.
    InvalidPatternValue { position: usize, value: u32 },
}

/// The level a pattern value stands for: 0 is low, 1 is high, 2 is high-Z.
pub open spec fn spec_parse_pattern_var(x: u32) -> Option<SignalLevel> {
    if x == 0 {
        Some(SignalLevel::Low)
    } else if x == 1 {
        Some(SignalLevel::High)
    } else if x == 2 {
        Some(SignalLevel::HighZ)
    } else {
        None
    }
}

/// The position of the first word in `[start, end)` that is no pattern
/// value, if there is one.
pub open spec fn spec_first_bad_pattern_value(words: Seq<u32>, start: int, end: int) -> Option<int>
    decreases end - start,
{
    if start >= end {
        None
    } else if spec_parse_pattern_var(words[start]) is None {
        Some(start)
    } else {
        spec_first_bad_pattern_value(words, start + 1, end)
    }
}

/// The pattern written in the `length` words from `start` on.
pub open spec fn spec_decode_pattern(words: Seq<u32>, start: int, length: int) -> Result<
    Seq<SignalLevel>,
    DecodeError,
> {
    match spec_first_bad_pattern_value(words, start, start + length) {
        Some(position) => Err(
            DecodeError::InvalidPatternValue {
                position: position as usize,
                value: words[position],
            },
        ),
        None => Ok(
            Seq::new(length as nat, |j: int| spec_parse_pattern_var(words[start + j])->Some_0),
        ),
    }
}

/// The component whose record opens at word `i`, and the position right
/// after its payload, where the sentinel belongs.
pub open spec fn spec_decode_record(words: Seq<u32>, i: int) -> Result<
    (ComponentModel, int),
    DecodeError,
> {
    if words[i] == OPCODE_TRANSISTOR {
        if i + 5 > words.len() {
            Err(DecodeError::Truncated { position: i as usize })
        } else {
            Ok(
                (
                    ComponentModel::Transistor {
                        is_pfet: words[i + 1] == 1,
                        gate: words[i + 2],
                        drain: words[i + 3],
                        source: words[i + 4],
                    },
                    i + 5,
                ),
            )
        }
    } else if words[i] == OPCODE_SIGNAL_SOURCE {
        if i + 4 > words.len() || i + 4 + words[i + 3] > words.len() {
            Err(DecodeError::Truncated { position: i as usize })
        } else {
            match spec_decode_pattern(words, i + 4, words[i + 3] as int) {
                Err(e) => Err(e),
                Ok(pattern) => Ok(
                    (
                        ComponentModel::SignalSource {
                            pattern,
                            repeat: words[i + 2] != 0,
                            net: words[i + 1],
                        },
                        i + 4 + words[i + 3],
                    ),
                ),
            }
        }
    } else if words[i] == OPCODE_PULL_RESISTOR {
        if i + 3 > words.len() {
            Err(DecodeError::Truncated { position: i as usize })
        } else {
            Ok(
                (
                    ComponentModel::PullResistor {
                        is_pull_down: words[i + 1] == 1,
                        net: words[i + 2],
                    },
                    i + 3,
                ),
            )
        }
    } else {
        Err(DecodeError::UnknownOpcode { position: i as usize, opcode: words[i] })
    }
}

/// The components written from word `i` to the end of the description.
pub open spec fn spec_decode_from(words: Seq<u32>, i: int) -> Result<
    Seq<ComponentModel>,
    DecodeError,
>
    decreases words.len() - i,
{
    if i < 0 || i >= words.len() {
        Ok(Seq::empty())
    } else {
        match spec_decode_record(words, i) {
            Err(e) => Err(e),
            Ok((component, next)) => {
                if next >= words.len() || words[next] != SENTINEL {
                    Err(DecodeError::MissingSentinel { position: next as usize })
                } else {
                    match spec_decode_from(words, next + 1) {
                        Err(e) => Err(e),
                        Ok(rest) => Ok(seq![component] + rest),
                    }
                }
            },
        }
    }
}

/// The component list a description stands for, or the first failure met
/// when reading it front to back.
pub open spec fn spec_decode(words: Seq<u32>) -> Result<Seq<ComponentModel>, DecodeError> {
    spec_decode_from(words, 0)
}

/// Reads one pattern value.
pub fn parse_pattern_var(x: u32) -> (level: Option<SignalLevel>)
    ensures
        level == spec_parse_pattern_var(x),
        level is Some <==> x <= 2,
{
    match x {
        0 => Some(SignalLevel::Low),
        1 => Some(SignalLevel::High),
        2 => Some(SignalLevel::HighZ),
        _ => None,
    }
}

/// Reads the `length` pattern values that start at word `start`.
pub fn decode_pattern(description: &[u32], start: usize, length: usize) -> (pattern: Result<
    Vec<SignalLevel>,
    DecodeError,
>)
    requires
        start + length <= description.len(),
    ensures
        match spec_decode_pattern(description@, start as int, length as int) {
            Ok(levels) => pattern matches Ok(p) && p@ == levels,
            Err(e) => pattern == Err::<Vec<SignalLevel>, DecodeError>(e),
        },
{
    let mut pattern: Vec<SignalLevel> = Vec::new();
    let mut j: usize = 0;
    while j < length
        invariant
            j <= length,
            start + length <= description.len(),
            pattern.len() == j,
            forall|m: int|
                0 <= m < j ==> spec_parse_pattern_var(description@[start + m]) == Some(pattern@[m]),
            spec_first_bad_pattern_value(description@, start as int, start + length)
                == spec_first_bad_pattern_value(description@, start + j, start + length),
        decreases length - j,
    {
        let value = description[start + j];
        match parse_pattern_var(value) {
            Some(level) => {
                pattern.push(level);
            },
            None => {
                return Err(DecodeError::InvalidPatternValue { position: start + j, value });
            },
        }
        j += 1;
    }
    assert(pattern@ == Seq::new(
        length as nat,
        |m: int| spec_parse_pattern_var(description@[start + m])->Some_0,
    ));
    Ok(pattern)
}

/// Reads the record that opens at word `i`. Returns its component and the
/// position right after its payload, where the sentinel belongs.
pub fn decode_record(description: &[u32], i: usize) -> (record: Result<
    (Component, usize),
    DecodeError,
>)
    requires
        i < description.len(),
    ensures
        match spec_decode_record(description@, i as int) {
            Ok((component, next)) => record matches Ok(r) && r.0@ == component && r.1 == next && i
                < r.1 <= description.len(),
            Err(e) => record == Err::<(Component, usize), DecodeError>(e),
        },
{
    let remaining = description.len() - i;
    let opcode = description[i];
    if opcode == OPCODE_TRANSISTOR {
        if remaining < 5 {
            return Err(DecodeError::Truncated { position: i });
        }
        let is_pfet = description[i + 1] == 1;
        let gate = description[i + 2];
        let drain = description[i + 3];
        let source = description[i + 4];
        Ok((Component::Transistor { is_pfet, gate, drain, source }, i + 5))
    } else if opcode == OPCODE_SIGNAL_SOURCE {
        if remaining < 4 {
            return Err(DecodeError::Truncated { position: i });
        }
        let net = description[i + 1];
        let repeat = description[i + 2] != 0;
        let length = description[i + 3] as usize;
        if length > remaining - 4 {
            return Err(DecodeError::Truncated { position: i });
        }
        match decode_pattern(description, i + 4, length) {
            Ok(pattern) => Ok((Component::SignalSource { pattern, repeat, net }, i + 4 + length)),
            Err(e) => Err(e),
        }
    } else if opcode == OPCODE_PULL_RESISTOR {
        if remaining < 3 {
            return Err(DecodeError::Truncated { position: i });
        }
        let is_pull_down = description[i + 1] == 1;
        let net = description[i + 2];
        Ok((Component::PullResistor { is_pull_down, net }, i + 3))
    } else {
        Err(DecodeError::UnknownOpcode { position: i, opcode })
    }
}

/// Decodes a whole description into its component list, in encounter order.
///
/// Succeeds exactly when the description is a sequence of well-formed
/// records, each closed by the sentinel; otherwise reports the first
/// failure met when reading front to back, and no component at all.
pub fn decode_description(description: &[u32]) -> (decoded: Result<Vec<Component>, DecodeError>)
    ensures
        match spec_decode(description@) {
            Ok(components) => decoded matches Ok(list) && models(list@) == components,
            Err(e) => decoded == Err::<Vec<Component>, DecodeError>(e),
        },
{
    let mut components: Vec<Component> = Vec::new();
    let mut i: usize = 0;
    while i < description.len()
        invariant
            i <= description.len(),
            spec_decode(description@) == match spec_decode_from(description@, i as int) {
                Ok(rest) => Ok::<Seq<ComponentModel>, DecodeError>(models(components@) + rest),
                Err(e) => Err(e),
            },
        decreases description.len() - i,
    {
        let ghost done = models(components@);
        match decode_record(description, i) {
            Err(e) => {
                return Err(e);
            },
            Ok((component, next)) => {
                if next >= description.len() || description[next] != SENTINEL {
                    return Err(DecodeError::MissingSentinel { position: next });
                }
                proof {
                    let rest = spec_decode_from(description@, next + 1);
                    if rest is Ok {
                        assert(done + (seq![component@] + rest->Ok_0) == done.push(component@)
                            + rest->Ok_0);
                    }
                }
                components.push(component);
                assert(models(components@) == done.push(component@));
                i = next + 1;
            },
        }
    }
    assert(models(components@) + Seq::<ComponentModel>::empty() == models(components@));
    Ok(components)
}

} // verus!
