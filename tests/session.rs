use tone_device::command::{CommandError, Step, interpret};
use tone_device::session::Session;

const DOT: Step = Step::Tone { freq: 1000, duration_us: 100_000 };
const DASH: Step = Step::Tone { freq: 1000, duration_us: 300_000 };
const SYMBOL_GAP: Step = Step::Pause(100_000);
const LETTER_GAP: Step = Step::Pause(300_000);
const WORD_GAP: Step = Step::Pause(700_000);

#[test]
fn tone_line_gives_one_tone() {
    let mut s = Session::new();
    let b = s.process(b"t440 500\n");
    assert_eq!(b.steps, vec![Step::Tone { freq: 440, duration_us: 500 }]);
    assert_eq!(b.result, Ok(9));
    assert!(s.pending().is_empty());
}

#[test]
fn morse_sos_symbols_and_gaps() {
    let mut s = Session::new();
    let b = s.process(b"mSOS\n");
    let expected = vec![
        DOT, SYMBOL_GAP, DOT, SYMBOL_GAP, DOT, LETTER_GAP,
        DASH, SYMBOL_GAP, DASH, SYMBOL_GAP, DASH, LETTER_GAP,
        DOT, SYMBOL_GAP, DOT, SYMBOL_GAP, DOT,
    ];
    assert_eq!(b.steps, expected);
    assert_eq!(b.result, Ok(5));
}

#[test]
fn morse_word_gap_appears_once_between_words() {
    let mut s = Session::new();
    let b = s.process(b"mHi there\n");
    assert_eq!(b.result, Ok(10));
    let gaps: Vec<usize> = b
        .steps
        .iter()
        .enumerate()
        .filter(|(_, st)| **st == WORD_GAP)
        .map(|(i, _)| i)
        .collect();
    assert_eq!(gaps.len(), 1);
    // H is four dots with three gaps, then a letter gap; I is two dots with one gap,
    // then a letter gap, since the space follows it.
    assert_eq!(gaps[0], 7 + 1 + 3 + 1);
    let (ours, rest) = b.steps.split_at(gaps[0]);
    assert_eq!(ours[..7], [DOT, SYMBOL_GAP, DOT, SYMBOL_GAP, DOT, SYMBOL_GAP, DOT]);
    assert_eq!(rest[1], DASH);
    assert_eq!(*b.steps.last().unwrap(), DOT);
}

#[test]
fn unknown_tag_is_reported_and_write_succeeds() {
    let mut s = Session::new();
    let b = s.process(b"x\n");
    assert_eq!(b.steps, vec![Step::Unrecognized]);
    assert_eq!(b.result, Ok(2));
}

#[test]
fn tone_without_space_is_invalid() {
    let mut s = Session::new();
    let b = s.process(b"t\n");
    assert!(b.steps.is_empty());
    assert_eq!(b.result, Err(CommandError::InvalidArgument));
    assert!(s.pending().is_empty());
}

#[test]
fn line_without_newline_waits() {
    let mut s = Session::new();
    let b = s.process(b"t440 5");
    assert!(b.steps.is_empty());
    assert_eq!(b.result, Ok(6));
    assert_eq!(s.pending(), b"t440 5");
    let b = s.process(b"00");
    assert!(b.steps.is_empty());
    assert_eq!(s.pending(), b"t440 500");
}

#[test]
fn split_write_matches_single_write() {
    let mut one = Session::new();
    let a = one.process(b"mE\nt440 5");
    let b = one.process(b"00\nx\nmT");
    let mut both = Session::new();
    let c = both.process(b"mE\nt440 500\nx\nmT");
    let mut joined = a.steps.clone();
    joined.extend(b.steps.iter().copied());
    assert_eq!(joined, c.steps);
    assert_eq!(one.pending(), both.pending());
    assert_eq!(one.pending(), b"mT");
}

#[test]
fn write_ending_in_newline_clears_buffer() {
    let mut s = Session::new();
    s.process(b"t1 2");
    let b = s.process(b"0\nt3 4\n");
    assert_eq!(
        b.steps,
        vec![Step::Tone { freq: 1, duration_us: 20 }, Step::Tone { freq: 3, duration_us: 4 }]
    );
    assert!(s.pending().is_empty());
}

#[test]
fn error_stops_later_lines_but_clears_them() {
    let mut s = Session::new();
    let b = s.process(b"t1 2\nt\nt3 4\nrest");
    assert_eq!(b.steps, vec![Step::Tone { freq: 1, duration_us: 2 }]);
    assert_eq!(b.result, Err(CommandError::InvalidArgument));
    assert_eq!(s.pending(), b"rest");
}

#[test]
fn invalid_utf8_is_rejected_and_kept() {
    let mut s = Session::new();
    let b = s.process(&[b't', 0xff, b'\n']);
    assert!(b.steps.is_empty());
    assert_eq!(b.result, Err(CommandError::InvalidEncoding));
    assert_eq!(s.pending(), &[b't', 0xff, b'\n']);
}

#[test]
fn character_split_across_writes_completes() {
    let mut s = Session::new();
    // U+00A0 is white space, encoded as C2 A0.
    let b = s.process(&[0xc2]);
    assert_eq!(b.result, Err(CommandError::InvalidEncoding));
    let b = s.process(&[0xa0, b't', b'7', b' ', b'8', b'\n']);
    assert_eq!(b.result, Ok(6));
    assert_eq!(b.steps, vec![Step::Tone { freq: 7, duration_us: 8 }]);
}

#[test]
fn morse_stops_at_unencodable_character() {
    let mut s = Session::new();
    let b = s.process(b"mA!B\n");
    assert_eq!(b.steps, vec![DOT, SYMBOL_GAP, DASH, LETTER_GAP]);
    assert_eq!(b.result, Err(CommandError::InvalidArgument));
}

#[test]
fn morse_rejects_non_ascii() {
    let (steps, r) = interpret("mé".as_bytes());
    assert!(steps.is_empty());
    assert_eq!(r, Err(CommandError::InvalidArgument));
}

#[test]
fn morse_is_case_insensitive_and_trimmed() {
    let (lower, r1) = interpret(b"m  sos ");
    let (upper, r2) = interpret(b"mSOS");
    assert_eq!(lower, upper);
    assert_eq!(r1, Ok(()));
    assert_eq!(r2, Ok(()));
}

#[test]
fn repeated_tag_is_stripped() {
    assert_eq!(interpret(b"tt1 2"), (vec![Step::Tone { freq: 1, duration_us: 2 }], Ok(())));
    assert_eq!(interpret(b"mmE").0, vec![DOT]);
}

#[test]
fn lines_are_trimmed() {
    let mut s = Session::new();
    let b = s.process(b"  t1 2 \r\n\t\n\nmE  \n");
    assert_eq!(b.steps, vec![Step::Tone { freq: 1, duration_us: 2 }, DOT]);
    assert_eq!(b.result, Ok(17));
    let (steps, _) = interpret("\u{3000}t5 6\u{2009}".as_bytes());
    assert_eq!(steps, vec![Step::Tone { freq: 5, duration_us: 6 }]);
}

#[test]
fn tone_numbers_are_unsigned_64_bit() {
    assert_eq!(
        interpret(b"t18446744073709551615 1"),
        (vec![Step::Tone { freq: u64::MAX, duration_us: 1 }], Ok(()))
    );
    assert_eq!(interpret(b"t18446744073709551616 1").1, Err(CommandError::InvalidArgument));
    assert_eq!(interpret(b"t+5 +10").0, vec![Step::Tone { freq: 5, duration_us: 10 }]);
    assert_eq!(interpret(b"t-5 10").1, Err(CommandError::InvalidArgument));
    assert_eq!(interpret(b"t5 1 0").1, Err(CommandError::InvalidArgument));
    assert_eq!(interpret(b"t 5 10").1, Err(CommandError::InvalidArgument));
    assert_eq!(interpret(b"t5 ").1, Err(CommandError::InvalidArgument));
    assert_eq!(interpret(b"t0 250").0, vec![Step::Tone { freq: 0, duration_us: 250 }]);
}

#[test]
fn empty_and_blank_input_do_nothing() {
    let mut s = Session::new();
    let b = s.process(b"");
    assert!(b.steps.is_empty());
    assert_eq!(b.result, Ok(0));
    let b = s.process(b"  \n \n");
    assert!(b.steps.is_empty());
    assert_eq!(b.result, Ok(5));
    assert!(s.pending().is_empty());
}
