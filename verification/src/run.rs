//! Carrying out a plan: what to ask of the device and of the clipboard next, and what their
//! answers change.

use vstd::prelude::*;

use crate::plan;
use crate::plan::{Action, Pause, Step};

verus! {

/// What is asked of the outside. `T` is the type of text.
#[derive(Clone, Debug, PartialEq, Eq)]
pub enum Request<T> {
    /// Send a key event.
    Emit { code: u16, value: i32 },
    /// Wait.
    Sleep(Pause),
    /// Read the clipboard.
    ReadClipboard,
    /// Put the text that is to be pasted on the clipboard.
    WriteClipboard(T),
    /// Put back the text that was on the clipboard before.
    RestoreClipboard(T),
    /// Nothing more: the plan has been carried out.
    Finished,
    /// Nothing more: a request failed, and the rest of the plan is given up.
    Aborted,
}

/// How the last request went. `T` is the type of text.
#[derive(Clone, Debug, PartialEq, Eq)]
pub enum Reply<T> {
    /// It was done; also said to begin with.
    Done,
    /// It failed.
    Failed,
    /// The clipboard was read, and holds this text.
    Text(T),
}

/// Whether there is more to do.
#[derive(Clone, Copy, Debug, PartialEq, Eq, Structural)]
pub enum Phase {
    Running,
    /// A key event failed in the middle of a paste: the old text is yet to be put back.
    Restoring,
    Finished,
    Aborted,
}

/// A plan under way.
pub struct Run {
    actions: Vec<Action<String>>,
    next: usize,
    saved: Option<String>,
    pasting: bool,
    phase: Phase,
}

/// A request, with its text as a sequence of characters.
pub type Ask = Request<Seq<char>>;

/// A reply, with its text as a sequence of characters.
pub type Answer = Reply<Seq<char>>;

impl View for Request<String> {
    type V = Ask;

    open spec fn view(&self) -> Ask {
        match *self {
            Request::Emit { code, value } => Request::Emit { code, value },
            Request::Sleep(pause) => Request::Sleep(pause),
            Request::ReadClipboard => Request::ReadClipboard,
            Request::WriteClipboard(text) => Request::WriteClipboard(text@),
            Request::RestoreClipboard(text) => Request::RestoreClipboard(text@),
            Request::Finished => Request::Finished,
            Request::Aborted => Request::Aborted,
        }
    }
}

impl View for Reply<String> {
    type V = Answer;

    open spec fn view(&self) -> Answer {
        match *self {
            Reply::Done => Reply::Done,
            Reply::Failed => Reply::Failed,
            Reply::Text(text) => Reply::Text(text@),
        }
    }
}

/// The state of a run: the plan, how many of its steps have been taken up, the text that was
/// last noted from the clipboard, whether the clipboard holds text to be pasted in its place, and
/// whether there is more to do.
pub struct RunState {
    pub steps: Seq<Step>,
    pub next: int,
    pub saved: Option<Seq<char>>,
    pub pasting: bool,
    pub phase: Phase,
}

impl RunState {
    /// The state before the first step.
    pub open spec fn start(steps: Seq<Step>) -> RunState {
        RunState { steps, next: 0, saved: None, pasting: false, phase: Phase::Running }
    }

    /// The steps that have been taken up are steps of the plan.
    pub open spec fn valid(self) -> bool {
        0 <= self.next <= self.steps.len()
    }

    /// The state once the reply to the last request is known. A key event that failed ends the
    /// run, but in the middle of a paste the text that was noted is put back first. Text that
    /// could not be put on the clipboard to paste it ends the run at once. A clipboard that
    /// cannot be read leaves nothing to put back, and failing to put it back is let pass.
    pub open spec fn hear(self, answer: Answer) -> RunState {
        if self.phase != Phase::Running || self.next == 0 {
            self
        } else {
            match self.steps[self.next - 1] {
                Action::SaveClipboard => RunState {
                    saved: match answer {
                        Reply::Text(text) => Some(text),
                        _ => None,
                    },
                    ..self
                },
                Action::SetClipboard(_) => match answer {
                    Reply::Failed => RunState { phase: Phase::Aborted, ..self },
                    _ => RunState { pasting: true, ..self },
                },
                Action::Emit { .. } => match answer {
                    Reply::Failed => RunState {
                        phase: if self.pasting && self.saved is Some {
                            Phase::Restoring
                        } else {
                            Phase::Aborted
                        },
                        ..self
                    },
                    _ => self,
                },
                _ => self,
            }
        }
    }

    /// The next request, and the state with it under way. There is none for putting text back
    /// where none was noted.
    pub open spec fn advance(self) -> (RunState, Ask)
        decreases self.steps.len() - self.next,
    {
        match self.phase {
            Phase::Finished => (self, Request::Finished),
            Phase::Aborted => (self, Request::Aborted),
            Phase::Restoring => {
                let after = RunState { phase: Phase::Aborted, ..self };
                match self.saved {
                    Some(text) => (after, Request::RestoreClipboard(text)),
                    None => (after, Request::Aborted),
                }
            },
            Phase::Running => if self.next >= self.steps.len() {
                (RunState { phase: Phase::Finished, ..self }, Request::Finished)
            } else {
                let after = RunState { next: self.next + 1, ..self };
                match self.steps[self.next] {
                    Action::Emit { code, value } => (after, Request::Emit { code, value }),
                    Action::Sleep(pause) => (after, Request::Sleep(pause)),
                    Action::SaveClipboard => (after, Request::ReadClipboard),
                    Action::SetClipboard(text) => (after, Request::WriteClipboard(text)),
                    Action::RestoreClipboard => {
                        let after = RunState { pasting: false, ..after };
                        match self.saved {
                            Some(text) => (after, Request::RestoreClipboard(text)),
                            None => after.advance(),
                        }
                    },
                }
            },
        }
    }

    /// Takes the reply to the last request and gives the next request.
    pub open spec fn step(self, answer: Answer) -> (RunState, Ask) {
        self.hear(answer).advance()
    }
}

impl View for Run {
    type V = RunState;

    closed spec fn view(&self) -> RunState {
        RunState {
            steps: plan::steps(self.actions@),
            next: self.next as int,
            saved: match self.saved {
                Some(text) => Some(text@),
                None => None,
            },
            pasting: self.pasting,
            phase: self.phase,
        }
    }
}

impl Run {
    #[verifier::type_invariant]
    spec fn well_formed(self) -> bool {
        self.next <= self.actions@.len()
    }

    /// A run of `actions`, before the first of them.
    pub fn start(actions: Vec<Action<String>>) -> (run: Run)
        ensures
            run@ == RunState::start(plan::steps(actions@)),
    {
        Run { actions, next: 0, saved: None, pasting: false, phase: Phase::Running }
    }

    /// Takes the reply to the last request, `Done` to begin with, and gives the next request.
    pub fn step(&mut self, reply: Reply<String>) -> (request: Request<String>)
        ensures
            (final(self)@, request@) == old(self)@.step(reply@),
    {
        self.hear(reply);
        self.advance()
    }

    /// Takes the reply to the last request.
    fn hear(&mut self, reply: Reply<String>)
        ensures
            final(self)@ == old(self)@.hear(reply@),
    {
        proof {
            use_type_invariant(&*self);
        }
        if self.next == 0 {
            return;
        }
        match self.phase {
            Phase::Running => {},
            _ => {
                return;
            },
        }
        assert(self@.steps[self.next - 1] == self.actions@[self.next - 1]@);
        match &self.actions[self.next - 1] {
            Action::SaveClipboard => {
                self.saved = match reply {
                    Reply::Text(text) => Some(text),
                    _ => None,
                };
            },
            Action::SetClipboard(_) => {
                if let Reply::Failed = reply {
                    self.phase = Phase::Aborted;
                } else {
                    self.pasting = true;
                }
            },
            Action::Emit { .. } => {
                if let Reply::Failed = reply {
                    if self.pasting && self.saved.is_some() {
                        self.phase = Phase::Restoring;
                    } else {
                        self.phase = Phase::Aborted;
                    }
                }
            },
            _ => {},
        }
    }

    /// Gives the next request.
    fn advance(&mut self) -> (request: Request<String>)
        ensures
            (final(self)@, request@) == old(self)@.advance(),
    {
        proof {
            use_type_invariant(&*self);
        }
        match self.phase {
            Phase::Finished => {
                return Request::Finished;
            },
            Phase::Aborted => {
                return Request::Aborted;
            },
            Phase::Restoring => {
                self.phase = Phase::Aborted;
                return match &self.saved {
                    Some(text) => Request::RestoreClipboard(text.clone()),
                    None => Request::Aborted,
                };
            },
            Phase::Running => {},
        }
        while self.next < self.actions.len()
            invariant
                self.phase == Phase::Running,
                self.next <= self.actions@.len(),
                old(self)@.advance() == self@.advance(),
            decreases self.actions@.len() - self.next,
        {
            let at = self.next;
            let ghost before = self@;
            self.next = at + 1;
            assert(before.steps[at as int] == self.actions@[at as int]@);
            match &self.actions[at] {
                Action::Emit { code, value } => {
                    return Request::Emit { code: *code, value: *value };
                },
                Action::Sleep(pause) => {
                    return Request::Sleep(*pause);
                },
                Action::SaveClipboard => {
                    return Request::ReadClipboard;
                },
                Action::SetClipboard(text) => {
                    return Request::WriteClipboard(text.clone());
                },
                Action::RestoreClipboard => {
                    self.pasting = false;
                    if let Some(text) = &self.saved {
                        return Request::RestoreClipboard(text.clone());
                    }
                },
            }
        }
        self.phase = Phase::Finished;
        Request::Finished
    }
}

} // verus!
