use tone_device::command::Step;
use tone_device::morse::{Symbol, morse_encode};
use tone_device::player::Player;
use tone_device::tone::{Action, ToneRun};

fn drain_tone(mut run: ToneRun) -> Vec<Action> {
    let mut out = Vec::new();
    while let Some(a) = run.next_action() {
        out.push(a);
    }
    out
}

#[test]
fn silent_tone_only_sleeps() {
    assert_eq!(drain_tone(ToneRun::new(0, 1234)), vec![Action::Sleep(1234)]);
    assert_eq!(drain_tone(ToneRun::new(0, 0)), vec![Action::Sleep(0)]);
}

#[test]
fn tone_toggles_twice_per_cycle() {
    // 1000 Hz: period 1_000_000 ns, half period 500 us; 3000 us hold 3 cycles.
    let acts = drain_tone(ToneRun::new(1000, 3000));
    assert_eq!(acts.len(), 12);
    assert_eq!(acts.iter().filter(|a| **a == Action::Toggle).count(), 6);
    for (k, a) in acts.iter().enumerate() {
        if k % 2 == 0 {
            assert_eq!(*a, Action::Toggle);
        } else {
            assert_eq!(*a, Action::Sleep(500));
        }
    }
}

#[test]
fn tone_math_truncates() {
    // 440 Hz: 1_000_000_000 / 440 = 2_272_727 ns, half 1_136_363 ns, 1136 us;
    // 500_000 us * 440 / 1_000_000 = 220 cycles.
    let acts = drain_tone(ToneRun::new(440, 500_000));
    assert_eq!(acts.len(), 880);
    assert_eq!(acts[1], Action::Sleep(1136));
    // 3 Hz for 100_000 us is 0.3 cycles: nothing at all.
    assert!(drain_tone(ToneRun::new(3, 100_000)).is_empty());
    // Above 500 MHz the half period truncates to 0 us.
    assert_eq!(drain_tone(ToneRun::new(1_000_000_000, 1))[1], Action::Sleep(0));
}

#[test]
fn tone_with_largest_values_does_not_overflow() {
    let mut run = ToneRun::new(u64::MAX, u64::MAX);
    assert_eq!(run.next_action(), Some(Action::Toggle));
    assert_eq!(run.next_action(), Some(Action::Sleep(0)));
}

#[test]
fn player_flattens_steps() {
    let steps = vec![
        Step::Pause(5),
        Step::Unrecognized,
        Step::Tone { freq: 3, duration_us: 1 },
        Step::Tone { freq: 1000, duration_us: 2000 },
    ];
    let mut p = Player::new(steps);
    let mut out = Vec::new();
    while let Some(a) = p.next_action() {
        out.push(a);
    }
    let t = Action::Toggle;
    let s = Action::Sleep(500);
    assert_eq!(
        out,
        vec![Action::Sleep(5), Action::ReportUnrecognized, t, s, t, s, t, s, t, s]
    );
    assert_eq!(p.next_action(), None);
}

#[test]
fn morse_alphabet_has_exactly_the_letters_and_digits() {
    let mut found = 0;
    for c in '\0'..='\u{2ff}' {
        if morse_encode(c).is_some() {
            found += 1;
            assert!(c.is_ascii_alphanumeric());
        }
    }
    assert_eq!(found, 26 * 2 + 10);
    for c in ['!', ' ', '.', '-', '\u{663}', '\u{ff11}'] {
        assert_eq!(morse_encode(c), None);
    }
    for c in 'a'..='z' {
        assert_eq!(morse_encode(c), morse_encode(c.to_ascii_uppercase()));
        let n = morse_encode(c).unwrap().len();
        assert!((1..=5).contains(&n));
    }
}

#[test]
#[allow(non_snake_case)]
fn morse_codes_match_the_alphabet() {
    let (O, A) = (Symbol::Dot, Symbol::Dash);
    assert_eq!(morse_encode('S'), Some(vec![O, O, O]));
    assert_eq!(morse_encode('o'), Some(vec![A, A, A]));
    assert_eq!(morse_encode('Q'), Some(vec![A, A, O, A]));
    assert_eq!(morse_encode('0'), Some(vec![A, A, A, A, A]));
    assert_eq!(morse_encode('9'), Some(vec![A, A, A, A, O]));
    assert_eq!(morse_encode('e'), Some(vec![O]));
}
