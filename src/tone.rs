//! The tone generator: a square wave of a given frequency and duration, as a sequence
//! of pin toggles and sleeps.
use vstd::prelude::*;

verus! {

/// One thing the hardware side does.
#[derive(Clone, Copy, Debug, PartialEq, Eq, Structural)]
pub enum Action {
    /// Invert the output pin's level.
    Toggle,
    /// Block for this many microseconds.
    Sleep(u64),
    /// Report that a line carried a command tag that is not known.
    ReportUnrecognized,
}

/// Whole wave cycles that fit in `duration_us` microseconds at `freq` hertz.
pub open spec fn cycles(freq: u64, duration_us: u64) -> int {
    (duration_us * freq) / 1_000_000
}

/// Half a period at `freq` hertz, in whole microseconds, truncated as the period is
/// first taken in nanoseconds.
pub open spec fn half_period_us(freq: u64) -> int
    recommends
        freq > 0,
{
    ((1_000_000_000int / (freq as int)) / 2) / 1000
}

/// `n` actions that alternate a toggle and a sleep of `pause` microseconds, starting
/// with a toggle.
pub open spec fn square_wave(n: int, pause: u64) -> Seq<Action> {
    Seq::new(n as nat, |k: int| if k % 2 == 0 { Action::Toggle } else { Action::Sleep(pause) })
}

/// What a tone of `freq` hertz for `duration_us` microseconds does: at 0 Hz a single
/// silent sleep for the whole duration; otherwise each whole cycle is a toggle, half a
/// period of sleep, a toggle and half a period of sleep.
pub open spec fn tone_actions(freq: u64, duration_us: u64) -> Seq<Action> {
    if freq == 0 {
        seq![Action::Sleep(duration_us)]
    } else {
        square_wave(4 * cycles(freq, duration_us), half_period_us(freq) as u64)
    }
}

/// Number of toggles in `s`.
pub open spec fn toggle_count(s: Seq<Action>) -> int
    decreases s.len(),
{
    if s.len() == 0 {
        0
    } else {
        toggle_count(s.drop_last()) + if s.last() == Action::Toggle {
            1int
        } else {
            0int
        }
    }
}

/// Total microseconds of sleep in `s`.
pub open spec fn sleep_total(s: Seq<Action>) -> int
    decreases s.len(),
{
    if s.len() == 0 {
        0
    } else {
        sleep_total(s.drop_last()) + match s.last() {
            Action::Sleep(us) => us as int,
            _ => 0int,
        }
    }
}

/// A tone being played: the actions of one tone that are still to come.
pub struct ToneRun {
    toggling: bool,
    pause: u64,
    total: u128,
    done: u128,
}

impl ToneRun {
    closed spec fn action_at(&self, k: int) -> Action {
        if self.toggling && k % 2 == 0 {
            Action::Toggle
        } else {
            Action::Sleep(self.pause)
        }
    }

    pub closed spec fn wf(&self) -> bool {
        self.done <= self.total
    }

    pub closed spec fn view(&self) -> Seq<Action> {
        Seq::new((self.total - self.done) as nat, |k: int| self.action_at(self.done + k))
    }

    /// Starts a tone of `freq` hertz lasting `duration_us` microseconds.
    pub fn new(freq: u64, duration_us: u64) -> (r: ToneRun)
        ensures
            r.wf(),
            r@ == tone_actions(freq, duration_us),
    {
        if freq == 0 {
            let r = ToneRun { toggling: false, pause: duration_us, total: 1, done: 0 };
            assert(r@ =~= tone_actions(freq, duration_us));
            r
        } else {
            let period_ns = 1_000_000_000u64 / freq;
            let half_us = (period_ns / 2) / 1000;
            let d = duration_us as u128;
            let f = freq as u128;
            assert(d * f <= 0xffff_ffff_ffff_ffffu128 * 0xffff_ffff_ffff_ffffu128) by (nonlinear_arith)
                requires
                    d <= 0xffff_ffff_ffff_ffffu128,
                    f <= 0xffff_ffff_ffff_ffffu128,
            ;
            let cycles = (d * f) / 1_000_000;
            let r = ToneRun { toggling: true, pause: half_us, total: cycles * 4, done: 0 };
            assert(r@ =~= tone_actions(freq, duration_us));
            r
        }
    }

    /// A run with nothing left to do.
    pub fn idle() -> (r: ToneRun)
        ensures
            r.wf(),
            r@ == Seq::<Action>::empty(),
    {
        let r = ToneRun { toggling: false, pause: 0, total: 0, done: 0 };
        assert(r@ =~= Seq::<Action>::empty());
        r
    }

    /// Hands out the next action of the tone, or `None` once it is over.
    pub fn next_action(&mut self) -> (r: Option<Action>)
        requires
            old(self).wf(),
        ensures
            final(self).wf(),
            match r {
                Some(a) => old(self)@.len() > 0 && a == old(self)@[0] && final(self)@
                    == old(self)@.drop_first(),
                None => old(self)@.len() == 0 && final(self)@ == old(self)@,
            },
    {
        if self.done >= self.total {
            return None;
        }
        let a = if self.toggling && self.done % 2 == 0 {
            Action::Toggle
        } else {
            Action::Sleep(self.pause)
        };
        let ghost before = self@;
        self.done = self.done + 1;
        assert(self@ =~= before.drop_first());
        Some(a)
    }
}

proof fn lemma_square_wave_toggles(n: int, pause: u64)
    requires
        n >= 0,
    ensures
        toggle_count(square_wave(n, pause)) == (n + 1) / 2,
        sleep_total(square_wave(n, pause)) == (n / 2) * (pause as int),
    decreases n,
{
    if n > 0 {
        lemma_square_wave_toggles(n - 1, pause);
        assert(square_wave(n, pause).drop_last() =~= square_wave(n - 1, pause));
        let w = square_wave(n, pause);
        assert(w.last() == w[n - 1]);
        let h = n / 2;
        let g = (n - 1) / 2;
        let p = pause as int;
        if n % 2 == 0 {
            assert((n - 1) % 2 == 1);
            assert(w.last() == Action::Sleep(pause));
            assert(sleep_total(w) == sleep_total(w.drop_last()) + p);
            assert(h == g + 1);
            assert(h * p == g * p + p) by (nonlinear_arith)
                requires
                    h == g + 1,
            ;
        } else {
            assert((n - 1) % 2 == 0);
            assert(w.last() == Action::Toggle);
            assert(sleep_total(w) == sleep_total(w.drop_last()));
            assert(h == g);
        }
        assert(sleep_total(w) == h * p);
    } else {
        assert(square_wave(n, pause).len() == 0);
        assert(n / 2 == 0);
    }
}

/// A tone at 0 Hz toggles nothing and sleeps for exactly its duration.
pub proof fn lemma_silent_tone(duration_us: u64)
    ensures
        toggle_count(tone_actions(0, duration_us)) == 0,
        sleep_total(tone_actions(0, duration_us)) == duration_us,
{
    let s = tone_actions(0, duration_us);
    assert(s.drop_last() =~= Seq::<Action>::empty());
    assert(s.last() == Action::Sleep(duration_us));
    reveal_with_fuel(toggle_count, 2);
    reveal_with_fuel(sleep_total, 2);
}

/// A tone above 0 Hz toggles twice per whole cycle, where the cycles are
/// `duration_us * freq / 1_000_000` truncated, and sleeps half a period,
/// `1_000_000_000 / freq / 2 / 1000` truncated, after every toggle.
pub proof fn lemma_square_wave(freq: u64, duration_us: u64)
    requires
        freq > 0,
    ensures
        ({
            let s = tone_actions(freq, duration_us);
            let n = (duration_us * freq) / 1_000_000;
            let half = ((1_000_000_000int / (freq as int)) / 2) / 1000;
            &&& s.len() == 4 * n
            &&& toggle_count(s) == 2 * n
            &&& sleep_total(s) == 2 * n * half
            &&& forall|k: int|
                0 <= k < s.len() ==> #[trigger] s[k] == if k % 2 == 0 {
                    Action::Toggle
                } else {
                    Action::Sleep(half as u64)
                }
        }),
{
    let n = cycles(freq, duration_us);
    let half = half_period_us(freq);
    assert(0 <= half <= 500_000_000) by {
        assert(1_000_000_000int / (freq as int) <= 1_000_000_000) by (nonlinear_arith)
            requires
                freq >= 1,
        ;
    }
    assert(n >= 0) by (nonlinear_arith)
        requires
            n == (duration_us * freq) / 1_000_000,
    ;
    lemma_square_wave_toggles(4 * n, half as u64);
    assert((4 * n) / 2 * half == 2 * n * half) by (nonlinear_arith);
}

} // verus!
