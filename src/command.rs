//! The command interpreter: one line of text to the tone requests and pauses it asks for.
//!
//! A line is trimmed of white space. Its first character is the command tag, and the
//! rest, after every leading repetition of the tag, is the payload:
//! - `t<freq> <duration_us>`: one tone, both numbers unsigned 64-bit decimals;
//! - `m<text>`: the trimmed text in Morse code, where a space is a pause between words;
//! - any other tag is reported and otherwise ignored.
use vstd::prelude::*;
use crate::morse::{Symbol, morse_code, morse_encode};
use crate::text::{
    first_index,
    find_byte,
    parse_decimal,
    parse_decimal_at,
    trim,
    trim_bounds,
};

verus! {

/// Length of a Morse dot, the time unit of Morse playback, in microseconds.
pub const MORSE_UNIT_US: u64 = 100_000;

/// Length of a dash, in microseconds.
pub const DASH_US: u64 = MORSE_UNIT_US * 3;

/// Silence after a letter that does not end the text, in microseconds.
pub const LETTER_GAP_US: u64 = MORSE_UNIT_US * 3;

/// Silence for a space between words, in microseconds.
pub const WORD_GAP_US: u64 = MORSE_UNIT_US * 7;

/// Frequency of the Morse tone in hertz.
pub const MORSE_FREQ: u64 = 1000;

/// The tag of a tone command, `t`.
pub const TAG_TONE: u8 = 0x74;

/// The tag of a Morse command, `m`.
pub const TAG_MORSE: u8 = 0x6d;

/// The space that separates a tone's two numbers and the words of a Morse text.
pub const SPACE: u8 = 0x20;

/// What one command line asks of the hardware, in order.
#[derive(Clone, Copy, Debug, PartialEq, Eq, Structural)]
pub enum Step {
    /// A square wave of `freq` hertz for `duration_us` microseconds (silence at 0 Hz).
    Tone { freq: u64, duration_us: u64 },
    /// Silence for this many microseconds.
    Pause(u64),
    /// A line whose tag is neither `t` nor `m`.
    Unrecognized,
}

/// Why a write failed.
#[derive(Clone, Copy, Debug, PartialEq, Eq, Structural)]
pub enum CommandError {
    /// The buffered bytes are not valid UTF-8.
    InvalidEncoding,
    /// A malformed tone command or a character without a Morse code.
    InvalidArgument,
    /// The output pin could not be set up or driven.
    HardwareError,
}

/// `s` without all of its leading `c` bytes.
pub open spec fn strip_tag(s: Seq<u8>, c: u8) -> Seq<u8>
    decreases s.len(),
{
    if s.len() > 0 && s[0] == c {
        strip_tag(s.drop_first(), c)
    } else {
        s
    }
}

pub open spec fn symbol_step(s: Symbol) -> Step {
    match s {
        Symbol::Dot => Step::Tone { freq: MORSE_FREQ, duration_us: MORSE_UNIT_US },
        Symbol::Dash => Step::Tone { freq: MORSE_FREQ, duration_us: DASH_US },
    }
}

/// The steps for the symbols `code[j..]` of one letter: one tone per symbol, with one
/// unit of silence between two symbols.
pub open spec fn letter_steps(code: Seq<Symbol>, j: int) -> Seq<Step>
    decreases code.len() - j,
{
    if j < 0 || j >= code.len() {
        seq![]
    } else {
        seq![symbol_step(code[j])] + (if j + 1 < code.len() {
            seq![Step::Pause(MORSE_UNIT_US)]
        } else {
            seq![]
        }) + letter_steps(code, j + 1)
    }
}

/// The steps for the Morse text `m[i..]`, and whether every character had a code.
/// Each letter is followed by three units of silence unless it ends the text; a
/// space is seven units of silence. On a character without a code the steps stop.
pub open spec fn morse_outcome(m: Seq<u8>, i: int) -> (Seq<Step>, Result<(), CommandError>)
    decreases m.len() - i,
{
    if i < 0 || i >= m.len() {
        (seq![], Ok(()))
    } else if m[i] == SPACE {
        let rest = morse_outcome(m, i + 1);
        (seq![Step::Pause(WORD_GAP_US)] + rest.0, rest.1)
    } else {
        match morse_code(m[i] as char) {
            None => (seq![], Err(CommandError::InvalidArgument)),
            Some(code) => {
                let rest = morse_outcome(m, i + 1);
                let gap = if i + 1 < m.len() {
                    seq![Step::Pause(LETTER_GAP_US)]
                } else {
                    seq![]
                };
                (letter_steps(code, 0) + gap + rest.0, rest.1)
            },
        }
    }
}

/// The steps for the payload `d` of a tone command: the part before the first space
/// is the frequency, the rest the duration.
pub open spec fn tone_outcome(d: Seq<u8>) -> (Seq<Step>, Result<(), CommandError>) {
    match first_index(d, SPACE) {
        None => (seq![], Err(CommandError::InvalidArgument)),
        Some(i) => match (parse_decimal(d.take(i)), parse_decimal(d.skip(i + 1))) {
            (Some(freq), Some(duration_us)) => (
                seq![Step::Tone { freq, duration_us }],
                Ok(()),
            ),
            _ => (seq![], Err(CommandError::InvalidArgument)),
        },
    }
}

/// The steps that one line asks for, and whether it was well formed.
pub open spec fn line_outcome(line: Seq<u8>) -> (Seq<Step>, Result<(), CommandError>) {
    let t = trim(line);
    if t.len() == 0 {
        (seq![], Ok(()))
    } else if t[0] == TAG_TONE {
        tone_outcome(strip_tag(t, TAG_TONE))
    } else if t[0] == TAG_MORSE {
        morse_outcome(trim(strip_tag(t, TAG_MORSE)), 0)
    } else {
        (seq![Step::Unrecognized], Ok(()))
    }
}

fn strip_tag_at(s: &[u8], lo: usize, hi: usize, c: u8) -> (r: usize)
    requires
        lo <= hi <= s@.len(),
    ensures
        lo <= r <= hi,
        s@.subrange(r as int, hi as int) == strip_tag(s@.subrange(lo as int, hi as int), c),
{
    let mut i: usize = lo;
    while i < hi && s[i] == c
        invariant
            lo <= i <= hi <= s@.len(),
            strip_tag(s@.subrange(lo as int, hi as int), c) == strip_tag(
                s@.subrange(i as int, hi as int),
                c,
            ),
        decreases hi - i,
    {
        assert(s@.subrange(i as int, hi as int).drop_first() =~= s@.subrange(i + 1, hi as int));
        i = i + 1;
    }
    i
}

fn push_letter(code: &Vec<Symbol>, out: &mut Vec<Step>)
    ensures
        final(out)@ == old(out)@ + letter_steps(code@, 0),
{
    let mut j: usize = 0;
    while j < code.len()
        invariant
            j <= code@.len(),
            out@ + letter_steps(code@, j as int) == old(out)@ + letter_steps(code@, 0),
        decreases code@.len() - j,
    {
        let ghost before = out@;
        let duration_us = match code[j] {
            Symbol::Dot => MORSE_UNIT_US,
            Symbol::Dash => DASH_US,
        };
        out.push(Step::Tone { freq: MORSE_FREQ, duration_us });
        if j + 1 < code.len() {
            out.push(Step::Pause(MORSE_UNIT_US));
        }
        proof {
            let gap = if j + 1 < code@.len() {
                seq![Step::Pause(MORSE_UNIT_US)]
            } else {
                seq![]
            };
            assert(out@ =~= before + seq![symbol_step(code@[j as int])] + gap);
            assert(before + letter_steps(code@, j as int) =~= out@ + letter_steps(
                code@,
                j + 1,
            ));
        }
        j = j + 1;
    }
    assert(letter_steps(code@, j as int) =~= Seq::<Step>::empty());
    assert(out@ + letter_steps(code@, j as int) =~= out@);
}

fn push_morse(s: &[u8], lo: usize, hi: usize, out: &mut Vec<Step>) -> (r: Result<(), CommandError>)
    requires
        lo <= hi <= s@.len(),
    ensures
        final(out)@ == old(out)@ + morse_outcome(s@.subrange(lo as int, hi as int), 0).0,
        r == morse_outcome(s@.subrange(lo as int, hi as int), 0).1,
{
    let ghost m = s@.subrange(lo as int, hi as int);
    let mut i: usize = lo;
    while i < hi
        invariant
            lo <= i <= hi <= s@.len(),
            m == s@.subrange(lo as int, hi as int),
            out@ + morse_outcome(m, i - lo).0 == old(out)@ + morse_outcome(m, 0).0,
            morse_outcome(m, i - lo).1 == morse_outcome(m, 0).1,
        decreases hi - i,
    {
        let ghost k = i - lo;
        let ghost before = out@;
        let b = s[i];
        assert(m[k] == b);
        if b == SPACE {
            out.push(Step::Pause(WORD_GAP_US));
            assert(before + morse_outcome(m, k).0 =~= out@ + morse_outcome(m, k + 1).0);
        } else {
            match morse_encode(b as char) {
                None => {
                    assert(out@ + morse_outcome(m, k).0 =~= out@);
                    return Err(CommandError::InvalidArgument);
                },
                Some(code) => {
                    push_letter(&code, out);
                    if i + 1 < hi {
                        out.push(Step::Pause(LETTER_GAP_US));
                    }
                    proof {
                        let gap = if k + 1 < m.len() {
                            seq![Step::Pause(LETTER_GAP_US)]
                        } else {
                            seq![]
                        };
                        assert(out@ =~= before + letter_steps(code@, 0) + gap);
                        assert(before + morse_outcome(m, k).0 =~= out@ + morse_outcome(
                            m,
                            k + 1,
                        ).0);
                    }
                },
            }
        }
        i = i + 1;
    }
    assert(out@ + morse_outcome(m, i - lo).0 =~= out@);
    Ok(())
}

fn push_tone(s: &[u8], lo: usize, hi: usize, out: &mut Vec<Step>) -> (r: Result<(), CommandError>)
    requires
        lo <= hi <= s@.len(),
    ensures
        final(out)@ == old(out)@ + tone_outcome(s@.subrange(lo as int, hi as int)).0,
        r == tone_outcome(s@.subrange(lo as int, hi as int)).1,
{
    let ghost d = s@.subrange(lo as int, hi as int);
    match find_byte(s, lo, hi, SPACE) {
        None => {
            assert(out@ + tone_outcome(d).0 =~= out@);
            Err(CommandError::InvalidArgument)
        },
        Some(sp) => {
            assert(d.take(sp - lo) =~= s@.subrange(lo as int, sp as int));
            assert(d.skip(sp - lo + 1) =~= s@.subrange(sp + 1, hi as int));
            let freq = parse_decimal_at(s, lo, sp);
            let duration = parse_decimal_at(s, sp + 1, hi);
            match (freq, duration) {
                (Some(freq), Some(duration_us)) => {
                    out.push(Step::Tone { freq, duration_us });
                    Ok(())
                },
                _ => {
                    assert(out@ + tone_outcome(d).0 =~= out@);
                    Err(CommandError::InvalidArgument)
                },
            }
        },
    }
}

/// Appends the steps of the line `s[lo..hi]` to `out`.
pub(crate) fn interpret_at(s: &[u8], lo: usize, hi: usize, out: &mut Vec<Step>) -> (r: Result<
    (),
    CommandError,
>)
    requires
        lo <= hi <= s@.len(),
    ensures
        final(out)@ == old(out)@ + line_outcome(s@.subrange(lo as int, hi as int)).0,
        r == line_outcome(s@.subrange(lo as int, hi as int)).1,
{
    let (a, b) = trim_bounds(s, lo, hi);
    if a == b {
        assert(out@ + line_outcome(s@.subrange(lo as int, hi as int)).0 =~= out@);
        return Ok(());
    }
    let tag = s[a];
    assert(trim(s@.subrange(lo as int, hi as int))[0] == tag);
    if tag == TAG_TONE {
        let p = strip_tag_at(s, a, b, TAG_TONE);
        push_tone(s, p, b, out)
    } else if tag == TAG_MORSE {
        let p = strip_tag_at(s, a, b, TAG_MORSE);
        let (c, e) = trim_bounds(s, p, b);
        push_morse(s, c, e, out)
    } else {
        out.push(Step::Unrecognized);
        Ok(())
    }
}

/// Interprets one command line: the steps it asks for, in order, up to the first
/// error, and whether it was well formed.
pub fn interpret(line: &[u8]) -> (r: (Vec<Step>, Result<(), CommandError>))
    ensures
        r.0@ == line_outcome(line@).0,
        r.1 == line_outcome(line@).1,
{
    let mut out: Vec<Step> = Vec::new();
    let r = interpret_at(line, 0, line.len(), &mut out);
    assert(line@.subrange(0, line@.len() as int) =~= line@);
    assert(out@ =~= line_outcome(line@).0);
    (out, r)
}

} // verus!
