//! What a run asks of the outside, request by request.

use vstd::prelude::*;

use crate::effect;
use crate::effect::Outside;
use crate::plan::{Action, Step};
use crate::run::{Answer, Ask, Phase, Reply, Request, RunState};

verus! {

/// Whether `ask` asks for what `step` says: the same key event, the same wait, the same text.
pub open spec fn asks_for(step: Step, ask: Ask) -> bool {
    match step {
        Action::Emit { code, value } => ask == (Request::<Seq<char>>::Emit { code, value }),
        Action::Sleep(pause) => ask == Request::<Seq<char>>::Sleep(pause),
        Action::SaveClipboard => ask == Request::<Seq<char>>::ReadClipboard,
        Action::SetClipboard(text) => ask == Request::WriteClipboard(text),
        Action::RestoreClipboard => ask is RestoreClipboard,
    }
}

/// All requests of a run from its last reply on, the last one that says how it ended among them,
/// when the outside does all it is asked but for the key events of the steps that `fails` holds
/// of.
pub open spec fn asked(
    run: RunState,
    outside: Outside,
    fails: spec_fn(int) -> bool,
) -> Seq<Ask>
    recommends
        run.valid(),
    decreases run.steps.len() - run.next, effect::phase_left(run.phase),
    via asked_decreases
{
    let (next, ask) = run.advance();
    if ask is Finished || ask is Aborted {
        seq![ask]
    } else if ask is Emit && fails(next.next - 1) {
        seq![ask] + asked(next.hear(Reply::Failed), outside, fails)
    } else {
        seq![ask] + asked(next.hear(outside.answer(ask)), outside.obey(ask), fails)
    }
}

#[via_fn]
proof fn asked_decreases(run: RunState, outside: Outside, fails: spec_fn(int) -> bool) {
    effect::lemma_advance(run);
}

/// A run in which nothing fails asks for the steps of its plan, one request for each step: the
/// key events and the waits between them with nothing changed, left out or added. A plan that puts
/// text back has to note it before, on a clipboard that can be read.
pub proof fn law_requests_are_the_plan(steps: Seq<Step>, outside: Outside)
    requires
        outside.clipboard is Some || forall|i: int|
            0 <= i < steps.len() ==> !(#[trigger] steps[i] is RestoreClipboard),
        forall|i: int|
            0 <= i < steps.len() && #[trigger] steps[i] is RestoreClipboard ==> exists|j: int|
                0 <= j < i && #[trigger] steps[j] is SaveClipboard,
    ensures
        ({
            let requests = asked(RunState::start(steps), outside, effect::nothing_fails());
            &&& requests.len() == steps.len() + 1
            &&& forall|i: int|
                #![trigger steps[i]]
                #![trigger requests[i]]
                0 <= i < steps.len() ==> asks_for(steps[i], requests[i])
            &&& requests.last() is Finished
        }),
{
    lemma_asked(
        RunState::start(steps),
        outside,
        effect::nothing_fails(),
        steps.len() as int,
    );
}

/// Up to the first key event that fails, a run asks for the steps of its plan, one request for
/// each step. After it the run asks for nothing of the plan any more: at most the clipboard is
/// given back before the run is given up.
pub proof fn law_failed_event_is_the_last_one(
    steps: Seq<Step>,
    outside: Outside,
    fails: spec_fn(int) -> bool,
    f: int,
)
    requires
        outside.clipboard is Some || forall|i: int|
            0 <= i < steps.len() ==> !(#[trigger] steps[i] is RestoreClipboard),
        forall|i: int|
            0 <= i < steps.len() && #[trigger] steps[i] is RestoreClipboard ==> exists|j: int|
                0 <= j < i && #[trigger] steps[j] is SaveClipboard,
        0 <= f < steps.len(),
        steps[f] is Emit && fails(f),
        forall|i: int| 0 <= i < f && #[trigger] steps[i] is Emit ==> !fails(i),
    ensures
        ({
            let requests = asked(RunState::start(steps), outside, fails);
            &&& forall|i: int|
                #![trigger steps[i]]
                #![trigger requests[i]]
                0 <= i <= f ==> asks_for(steps[i], requests[i])
            &&& requests.last() is Aborted
            &&& requests.len() == f + 2 || requests.len() == f + 3 && requests[f
                + 1] is RestoreClipboard
        }),
{
    lemma_asked(RunState::start(steps), outside, fails, f);
}

proof fn lemma_asked(run: RunState, outside: Outside, fails: spec_fn(int) -> bool, f: int)
    requires
        run.valid(),
        run.phase == Phase::Running,
        outside.clipboard is Some || forall|i: int|
            run.next <= i < run.steps.len() ==> !(#[trigger] run.steps[i] is RestoreClipboard),
        forall|i: int|
            run.next <= i < run.steps.len() && #[trigger] run.steps[i] is RestoreClipboard ==> {
                ||| run.saved is Some
                ||| exists|j: int| run.next <= j < i && #[trigger] run.steps[j] is SaveClipboard
            },
        run.next <= f <= run.steps.len(),
        f < run.steps.len() ==> run.steps[f] is Emit && fails(f),
        forall|i: int| run.next <= i < f && #[trigger] run.steps[i] is Emit ==> !fails(i),
    ensures
        ({
            let requests = asked(run, outside, fails);
            &&& forall|i: int|
                #![trigger run.steps[i]]
                run.next <= i <= f && i < run.steps.len() ==> asks_for(
                    run.steps[i],
                    requests[i - run.next],
                )
            &&& if f < run.steps.len() {
                &&& requests.last() is Aborted
                &&& requests.len() == f - run.next + 2 || requests.len() == f - run.next + 3
                    && requests[f - run.next + 1] is RestoreClipboard
            } else {
                &&& requests.last() is Finished
                &&& requests.len() == run.steps.len() - run.next + 1
            }
        }),
    decreases run.steps.len() - run.next,
{
    let requests = asked(run, outside, fails);
    let (next, ask) = run.advance();
    if run.next < run.steps.len() {
        let step = run.steps[run.next];
        assert(asks_for(step, ask));
        if run.next == f {
            reveal_with_fuel(asked, 3);
        } else {
            let heard = next.hear(outside.answer(ask));
            let rest = asked(heard, outside.obey(ask), fails);
            assert forall|i: int|
                heard.next <= i < heard.steps.len()
                    && #[trigger] heard.steps[i] is RestoreClipboard implies {
                ||| heard.saved is Some
                ||| exists|j: int| heard.next <= j < i && #[trigger] heard.steps[j] is SaveClipboard
            } by {
                if run.saved is None {
                    let j = choose|j: int|
                        run.next <= j < i && #[trigger] run.steps[j] is SaveClipboard;
                    assert(heard.steps[j] is SaveClipboard);
                }
            }
            assert(outside.clipboard is Some ==> outside.obey(ask).clipboard is Some);
            assert(forall|i: int|
                heard.next <= i < heard.steps.len() ==> #[trigger] heard.steps[i] == run.steps[i]);
            lemma_asked(heard, outside.obey(ask), fails, f);
            assert(requests == seq![ask] + rest);
            assert forall|i: int|
                #![trigger run.steps[i]]
                run.next <= i <= f && i < run.steps.len() implies asks_for(
                run.steps[i],
                requests[i - run.next],
            ) by {
                if i > run.next {
                    assert(heard.steps[i] == run.steps[i]);
                    assert(requests[i - run.next] == rest[i - heard.next]);
                }
            }
            assert(requests.last() == rest.last());
            if f < run.steps.len() {
                assert(requests[f - run.next + 1] == rest[f - heard.next + 1]);
            }
        }
    }
}

/// A run starts before the first step of its plan, with nothing noted and nothing to be pasted.
pub proof fn law_run_starts_at_the_first_step(steps: Seq<Step>)
    ensures
        RunState::start(steps) == (RunState {
            steps,
            next: 0,
            saved: None,
            pasting: false,
            phase: Phase::Running,
        }),
{
}

/// As long as no key event and no write to the clipboard fails, each reply leads to the next step
/// of the plan. Text that was read is noted until the clipboard is read again; where nothing is
/// noted there is nothing to put back, and the step after is taken up.
pub proof fn law_each_reply_leads_to_the_next_step(run: RunState, answer: Answer)
    requires
        run.valid(),
        run.phase == Phase::Running,
        run.next > 0 && (run.steps[run.next - 1] is Emit
            || run.steps[run.next - 1] is SetClipboard) ==> !(answer is Failed),
    ensures
        ({
            let (after, ask) = run.step(answer);
            let saved = if run.next > 0 && run.steps[run.next - 1] is SaveClipboard {
                match answer {
                    Reply::Text(text) => Some(text),
                    _ => None,
                }
            } else {
                run.saved
            };
            let pasting = run.pasting || run.next > 0 && run.steps[run.next - 1] is SetClipboard;
            &&& run.next == run.steps.len() ==> ask is Finished && after.phase == Phase::Finished
            &&& run.next < run.steps.len() && !(run.steps[run.next] is RestoreClipboard) ==> {
                &&& asks_for(run.steps[run.next], ask)
                &&& after == (RunState { next: run.next + 1, saved, pasting, ..run })
            }
            &&& run.next < run.steps.len() && run.steps[run.next] is RestoreClipboard ==> {
                let taken = RunState { next: run.next + 1, saved, pasting: false, ..run };
                match saved {
                    Some(text) => (after, ask) == (taken, Request::RestoreClipboard(text)),
                    None => (after, ask) == taken.step(Reply::Done),
                }
            }
        }),
{
}

/// Requests are seen as they are, with their text as characters.
pub proof fn law_requests_are_seen_as_they_are(request: Request<String>)
    ensures
        match request {
            Request::Emit { code, value } => request@ == (Request::<Seq<char>>::Emit {
                code,
                value,
            }),
            Request::Sleep(pause) => request@ == Request::<Seq<char>>::Sleep(pause),
            Request::ReadClipboard => request@ == Request::<Seq<char>>::ReadClipboard,
            Request::WriteClipboard(text) => request@ == Request::WriteClipboard(text@),
            Request::RestoreClipboard(text) => request@ == Request::RestoreClipboard(text@),
            Request::Finished => request@ == Request::<Seq<char>>::Finished,
            Request::Aborted => request@ == Request::<Seq<char>>::Aborted,
        },
{
}

/// Replies are seen as they are, with their text as characters.
pub proof fn law_replies_are_seen_as_they_are(reply: Reply<String>)
    ensures
        match reply {
            Reply::Done => reply@ == Reply::<Seq<char>>::Done,
            Reply::Failed => reply@ == Reply::<Seq<char>>::Failed,
            Reply::Text(text) => reply@ == Reply::Text(text@),
        },
{
}

} // verus!
