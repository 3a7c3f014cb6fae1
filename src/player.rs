//! Playback: the steps of a write, as the actions that the hardware side performs one
//! at a time.
use vstd::prelude::*;
use crate::command::Step;
use crate::tone::{Action, ToneRun, tone_actions};

verus! {

/// The actions of one step: a tone's toggles and sleeps, a pause as a silent tone,
/// and a report for an unrecognized command.
pub open spec fn step_actions(s: Step) -> Seq<Action> {
    match s {
        Step::Tone { freq, duration_us } => tone_actions(freq, duration_us),
        Step::Pause(us) => tone_actions(0, us),
        Step::Unrecognized => seq![Action::ReportUnrecognized],
    }
}

/// The actions of `steps`, one step after the other.
pub open spec fn actions_of(steps: Seq<Step>) -> Seq<Action>
    decreases steps.len(),
{
    if steps.len() == 0 {
        seq![]
    } else {
        step_actions(steps[0]) + actions_of(steps.drop_first())
    }
}

/// Plays a list of steps: hands out, in order, the actions still to perform.
pub struct Player {
    steps: Vec<Step>,
    next: usize,
    current: ToneRun,
}

impl Player {
    pub closed spec fn wf(&self) -> bool {
        self.current.wf() && self.next <= self.steps@.len()
    }

    pub closed spec fn view(&self) -> Seq<Action> {
        self.current@ + actions_of(self.steps@.skip(self.next as int))
    }

    /// A player for `steps`, with all of their actions ahead.
    pub fn new(steps: Vec<Step>) -> (r: Player)
        ensures
            r.wf(),
            r@ == actions_of(steps@),
    {
        let r = Player { steps, next: 0, current: ToneRun::idle() };
        assert(r.steps@.skip(0) =~= r.steps@);
        assert(r@ =~= actions_of(r.steps@));
        r
    }

    /// Hands out the next action, or `None` once every step has been played.
    pub fn next_action(&mut self) -> (r: Option<Action>)
        requires
            old(self).wf(),
        ensures
            final(self).wf(),
            match r {
                Some(a) => old(self)@.len() > 0 && a == old(self)@[0] && final(self)@
                    == old(self)@.drop_first(),
                None => old(self)@.len() == 0 && final(self)@ == old(self)@,
            },
    {
        loop
            invariant
                self.wf(),
                self@ == old(self)@,
            decreases self.steps@.len() - self.next,
        {
            let ghost rest = actions_of(self.steps@.skip(self.next as int));
            let ghost cur = self.current@;
            match self.current.next_action() {
                Some(a) => {
                    assert(self@ =~= (cur + rest).drop_first());
                    return Some(a);
                },
                None => {},
            }
            if self.next >= self.steps.len() {
                assert(self.steps@.skip(self.next as int) =~= Seq::<Step>::empty());
                assert(self@ =~= Seq::<Action>::empty());
                return None;
            }
            let s = self.steps[self.next];
            let ghost tail = self.steps@.skip(self.next as int);
            assert(tail[0] == s);
            assert(tail.drop_first() =~= self.steps@.skip(self.next + 1));
            self.next = self.next + 1;
            match s {
                Step::Tone { freq, duration_us } => {
                    self.current = ToneRun::new(freq, duration_us);
                },
                Step::Pause(us) => {
                    self.current = ToneRun::new(0, us);
                },
                Step::Unrecognized => {
                    self.current = ToneRun::idle();
                    assert(self@ =~= old(self)@.drop_first());
                    return Some(Action::ReportUnrecognized);
                },
            }
            assert(cur + rest =~= self@);
        }
    }
}

} // verus!
