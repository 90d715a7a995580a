//! What a plan does to the outside: which keys are held, and what the clipboard holds.

use vstd::prelude::*;

use crate::plan;
use crate::plan::{Action, Step};
use crate::run::{Answer, Ask, Phase, Reply, Request, RunState};

verus! {

/// The outside: the keys that are held, and the text of the clipboard, if it can be read.
pub struct Outside {
    pub held: Set<u16>,
    pub clipboard: Option<Seq<char>>,
}

impl Outside {
    /// The outside after a key event.
    pub open spec fn key(self, code: u16, value: i32) -> Outside {
        if value == 1 {
            Outside { held: self.held.insert(code), ..self }
        } else if value == 0 {
            Outside { held: self.held.remove(code), ..self }
        } else {
            self
        }
    }

    /// The outside after it has done what was asked.
    pub open spec fn obey(self, ask: Ask) -> Outside {
        match ask {
            Request::Emit { code, value } => self.key(code, value),
            Request::WriteClipboard(text) => Outside { clipboard: Some(text), ..self },
            Request::RestoreClipboard(text) => Outside { clipboard: Some(text), ..self },
            _ => self,
        }
    }

    /// What the outside replies when nothing fails but reading a clipboard that cannot be read.
    pub open spec fn answer(self, ask: Ask) -> Answer {
        match ask {
            Request::ReadClipboard => match self.clipboard {
                Some(text) => Reply::Text(text),
                None => Reply::Failed,
            },
            _ => Reply::Done,
        }
    }
}

/// How a run ends whose last reply has been heard, when the outside does all it is asked but for
/// the key events of the steps that `fails` holds of, which fail and change nothing.
pub open spec fn ended(
    run: RunState,
    outside: Outside,
    fails: spec_fn(int) -> bool,
) -> (Outside, Phase)
    recommends
        run.valid(),
    decreases run.steps.len() - run.next, phase_left(run.phase),
    via ended_decreases
{
    let (next, ask) = run.advance();
    if ask is Finished || ask is Aborted {
        (outside, next.phase)
    } else if ask is Emit && fails(next.next - 1) {
        ended(next.hear(Reply::Failed), outside, fails)
    } else {
        ended(next.hear(outside.answer(ask)), outside.obey(ask), fails)
    }
}

/// How many phases can follow at most.
pub open spec fn phase_left(phase: Phase) -> nat {
    match phase {
        Phase::Running => 2,
        Phase::Restoring => 1,
        Phase::Finished | Phase::Aborted => 0,
    }
}

#[via_fn]
proof fn ended_decreases(run: RunState, outside: Outside, fails: spec_fn(int) -> bool) {
    lemma_advance(run);
}

/// No key event fails.
pub open spec fn nothing_fails() -> spec_fn(int) -> bool {
    |i: int| false
}

/// How a run ends whose last reply has been heard, when the outside does all it is asked.
pub open spec fn carried_out(run: RunState, outside: Outside) -> (Outside, Phase) {
    ended(run, outside, nothing_fails())
}

/// A request that is not the last takes up at least one step more, unless it is the one that
/// puts the old text back after a failure.
pub proof fn lemma_advance(run: RunState)
    ensures
        ({
            let (next, ask) = run.advance();
            &&& next.steps == run.steps
            &&& next.saved == run.saved
            &&& run.phase == Phase::Running && !(ask is Finished || ask is Aborted) ==> run.next
                < next.next <= run.steps.len()
            &&& run.phase != Phase::Running ==> next.next == run.next
            &&& run.phase == Phase::Restoring ==> next.phase == Phase::Aborted
        }),
    decreases run.steps.len() - run.next,
{
    if run.phase == Phase::Running && run.next < run.steps.len() {
        if run.steps[run.next] is RestoreClipboard && run.saved is None {
            lemma_advance(RunState { next: run.next + 1, pasting: false, ..run });
        }
    }
}

/// What one step does to the outside and to the text that is noted.
pub open spec fn step_effect(
    step: Step,
    outside: Outside,
    saved: Option<Seq<char>>,
) -> (Outside, Option<Seq<char>>) {
    match step {
        Action::Emit { code, value } => (outside.key(code, value), saved),
        Action::Sleep(_) => (outside, saved),
        Action::SaveClipboard => (outside, outside.clipboard),
        Action::SetClipboard(text) => (Outside { clipboard: Some(text), ..outside }, saved),
        Action::RestoreClipboard => match saved {
            Some(text) => (Outside { clipboard: Some(text), ..outside }, saved),
            None => (outside, saved),
        },
    }
}

/// What the steps do, one after the other.
pub open spec fn effect(
    steps: Seq<Step>,
    outside: Outside,
    saved: Option<Seq<char>>,
) -> (Outside, Option<Seq<char>>)
    decreases steps.len(),
{
    if steps.len() == 0 {
        (outside, saved)
    } else {
        let (o, s) = step_effect(steps[0], outside, saved);
        effect(steps.drop_first(), o, s)
    }
}

/// Two lists of steps after each other do what the first does and then what the second does.
pub proof fn lemma_effect_concat(
    a: Seq<Step>,
    b: Seq<Step>,
    outside: Outside,
    saved: Option<Seq<char>>,
)
    ensures
        effect(a + b, outside, saved) == ({
            let (o, s) = effect(a, outside, saved);
            effect(b, o, s)
        }),
    decreases a.len(),
{
    if a.len() == 0 {
        assert(a + b == b);
    } else {
        let (o, s) = step_effect(a[0], outside, saved);
        assert((a + b).drop_first() == a.drop_first() + b);
        lemma_effect_concat(a.drop_first(), b, o, s);
    }
}

/// A run from any point on has the effect of the steps that are left.
pub proof fn lemma_carried_out(run: RunState, outside: Outside)
    requires
        run.valid(),
        run.phase == Phase::Running,
    ensures
        carried_out(run, outside) == (
            effect(run.steps.skip(run.next), outside, run.saved).0,
            Phase::Finished,
        ),
    decreases run.steps.len() - run.next,
{
    let left = run.steps.skip(run.next);
    let (next, ask) = run.advance();
    lemma_advance(run);
    if left.len() > 0 {
        assert(left[0] == run.steps[run.next]);
        assert(left.drop_first() == run.steps.skip(run.next + 1));
        let (o, s) = step_effect(left[0], outside, run.saved);
        if left[0] is RestoreClipboard && run.saved is None {
            lemma_carried_out(RunState { next: run.next + 1, pasting: false, ..run }, outside);
        } else {
            let heard = next.hear(outside.answer(ask));
            assert(heard.steps == run.steps);
            assert(heard.next == run.next + 1);
            assert(heard.saved == s);
            assert(heard.phase == Phase::Running);
            assert(outside.obey(ask) == o);
            lemma_carried_out(heard, o);
        }
    }
}

/// What a key event does.
pub proof fn lemma_key_event(
    code: u16,
    value: i32,
    delay: std::time::Duration,
    outside: Outside,
    saved: Option<Seq<char>>,
)
    ensures
        effect(plan::key_event(code, value, delay), outside, saved) == (
            outside.key(code, value),
            saved,
        ),
{
    reveal_with_fuel(effect, 3);
    let steps = plan::key_event(code, value, delay);
    assert(steps.drop_first().drop_first() == Seq::<Step>::empty());
}

} // verus!
