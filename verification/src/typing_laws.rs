//! What holds of every text that is typed, and of every plan that is carried out.

use std::time::Duration;

use vstd::prelude::*;

use crate::effect;
use crate::effect::Outside;
use crate::keys::{KeyMapping, KeyTap, NamedKey};
use crate::plan;
use crate::plan::{Action, Pause, Segment, Step};
use crate::run::{Answer, Phase, Reply, Request, RunState};
use crate::run_laws;

verus! {

/// The text of one piece.
pub open spec fn piece_text(piece: Segment) -> Seq<char> {
    match piece {
        Segment::Typed { ch, .. } => seq![ch],
        Segment::Pasted(run) => run,
    }
}

/// The text of the pieces, one after the other.
pub open spec fn spelled(pieces: Seq<Segment>) -> Seq<char>
    decreases pieces.len(),
{
    if pieces.len() == 0 {
        Seq::empty()
    } else {
        spelled(pieces.drop_last()) + piece_text(pieces.last())
    }
}

/// Whether a piece is made as `map` says: a character is typed by its own mapping, and what is
/// pasted is not empty and holds no character that could be typed.
pub open spec fn right_piece(map: Map<char, KeyMapping>, piece: Segment) -> bool {
    match piece {
        Segment::Typed { ch, mapping } => map.contains_key(ch) && map[ch] == mapping,
        Segment::Pasted(run) => run.len() > 0 && forall|i: int|
            0 <= i < run.len() ==> !map.contains_key(#[trigger] run[i]),
    }
}

/// The pieces of a text, put together again, are the text: nothing is lost, added or moved.
pub proof fn law_pieces_spell_the_text(map: Map<char, KeyMapping>, text: Seq<char>)
    ensures
        spelled(plan::segments(map, text)) == text,
    decreases text.len(),
{
    if text.len() > 0 {
        law_pieces_spell_the_text(map, text.drop_last());
        lemma_spell_one_more(map, text.drop_last(), text.last());
        assert(text.drop_last().push(text.last()) == text);
    } else {
        assert(text == Seq::<char>::empty());
    }
}

proof fn lemma_spell_one_more(map: Map<char, KeyMapping>, text: Seq<char>, ch: char)
    requires
        spelled(plan::segments(map, text)) == text,
    ensures
        spelled(plan::segments(map, text.push(ch))) == text.push(ch),
{
    let before = plan::segments(map, text);
    let after = plan::segments(map, text.push(ch));
    assert(text.push(ch).drop_last() == text);
    if map.contains_key(ch) {
        assert(after.drop_last() == before);
    } else if before.len() > 0 && before.last() is Pasted {
        assert(after.drop_last() == before.drop_last());
        assert(spelled(before.drop_last()) + before.last()->Pasted_0.push(ch) == text.push(ch));
    } else {
        assert(after.drop_last() == before);
    }
    assert(spelled(after) == text.push(ch));
}

/// Each piece is made as the keymap says, and no two pastes stand side by side: a run of
/// characters that the keymap lacks is pasted as one.
pub proof fn law_pieces_follow_the_keymap(map: Map<char, KeyMapping>, text: Seq<char>)
    ensures
        forall|i: int|
            0 <= i < plan::segments(map, text).len() ==> right_piece(
                map,
                #[trigger] plan::segments(map, text)[i],
            ),
        forall|i: int|
            #![trigger plan::segments(map, text)[i]]
            0 <= i < plan::segments(map, text).len() - 1 ==> plan::segments(map, text)[i] is Typed
                || plan::segments(map, text)[i + 1] is Typed,
    decreases text.len(),
{
    if text.len() > 0 {
        law_pieces_follow_the_keymap(map, text.drop_last());
        lemma_follow_one_more(map, text.drop_last(), text.last());
        assert(text.drop_last().push(text.last()) == text);
    }
}

proof fn lemma_follow_one_more(map: Map<char, KeyMapping>, text: Seq<char>, ch: char)
    requires
        forall|i: int|
            0 <= i < plan::segments(map, text).len() ==> right_piece(
                map,
                #[trigger] plan::segments(map, text)[i],
            ),
        forall|i: int|
            #![trigger plan::segments(map, text)[i]]
            0 <= i < plan::segments(map, text).len() - 1 ==> plan::segments(map, text)[i] is Typed
                || plan::segments(map, text)[i + 1] is Typed,
    ensures
        forall|i: int|
            0 <= i < plan::segments(map, text.push(ch)).len() ==> right_piece(
                map,
                #[trigger] plan::segments(map, text.push(ch))[i],
            ),
        forall|i: int|
            #![trigger plan::segments(map, text.push(ch))[i]]
            0 <= i < plan::segments(map, text.push(ch)).len() - 1 ==> plan::segments(
                map,
                text.push(ch),
            )[i] is Typed || plan::segments(map, text.push(ch))[i + 1] is Typed,
{
    let before = plan::segments(map, text);
    let after = plan::segments(map, text.push(ch));
    assert(text.push(ch).drop_last() == text);
    assert(text.push(ch).last() == ch);
    let same = if !map.contains_key(ch) && before.len() > 0 && before.last() is Pasted {
        before.len() - 1
    } else {
        before.len() as int
    };
    assert(after.len() == same + 1);
    assert forall|i: int| 0 <= i < same implies #[trigger] after[i] == before[i] by {}
    assert forall|i: int| 0 <= i < after.len() implies right_piece(map, #[trigger] after[i]) by {
        if i < same {
            assert(right_piece(map, before[i]));
        } else if same < before.len() {
            let run = before.last()->Pasted_0;
            assert(right_piece(map, before[same]));
            assert(after[i] == Segment::Pasted(run.push(ch)));
            assert forall|k: int| 0 <= k < run.push(ch).len() implies !map.contains_key(
                #[trigger] run.push(ch)[k],
            ) by {
                if k < run.len() {
                    assert(!map.contains_key(run[k]));
                }
            }
        }
    }
    assert forall|i: int| #![trigger after[i]] 0 <= i < after.len() - 1 implies after[i] is Typed
        || after[i + 1] is Typed by {
        assert(after[i] == before[i]);
        if i + 1 < same {
            assert(after[i + 1] == before[i + 1]);
        } else if same < before.len() {
            assert(before[i] is Typed || before[i + 1] is Typed);
        } else if after[i] is Pasted {
            assert(before.last() == before[i]);
        }
    }
}

/// The keys that a tap presses: its key, and the modifiers it is held with.
pub open spec fn tap_keys(tap: KeyTap, level3: u16) -> Set<u16> {
    let with_shift = if tap.shift {
        Set::empty().insert(NamedKey::LeftShift.keycode())
    } else {
        Set::empty()
    };
    let with_altgr = if tap.altgr {
        with_shift.insert(level3)
    } else {
        with_shift
    };
    with_altgr.insert(tap.keycode)
}

/// When the key of a tap goes down, exactly the modifiers that the tap asks for have gone down
/// with it.
pub proof fn law_tap_holds_its_modifiers(
    tap: KeyTap,
    level3: u16,
    delay: Duration,
    outside: Outside,
    saved: Option<Seq<char>>,
)
    ensures
        effect::effect(plan::tap_down(tap, level3, delay), outside, saved) == (
            Outside { held: outside.held.union(tap_keys(tap, level3)), ..outside },
            saved,
        ),
{
    let shift = NamedKey::LeftShift.keycode();
    let none = Seq::<Step>::empty();
    let a = if tap.shift {
        plan::key_event(shift, 1, delay)
    } else {
        none
    };
    let b = if tap.altgr {
        plan::key_event(level3, 1, delay)
    } else {
        none
    };
    let c = plan::key_event(tap.keycode, 1, delay);
    let o1 = if tap.shift {
        outside.key(shift, 1)
    } else {
        outside
    };
    let o2 = if tap.altgr {
        o1.key(level3, 1)
    } else {
        o1
    };
    effect::lemma_effect_concat(a + b, c, outside, saved);
    effect::lemma_effect_concat(a, b, outside, saved);
    effect::lemma_key_event(shift, 1, delay, outside, saved);
    effect::lemma_key_event(level3, 1, delay, o1, saved);
    effect::lemma_key_event(tap.keycode, 1, delay, o2, saved);
    assert(o2.key(tap.keycode, 1).held =~= outside.held.union(tap_keys(tap, level3)));
}

/// After a tap none of the keys it pressed is held, and no other key has changed.
pub proof fn law_tap_releases_its_keys(
    tap: KeyTap,
    level3: u16,
    delay: Duration,
    outside: Outside,
    saved: Option<Seq<char>>,
)
    ensures
        effect::effect(plan::tap_steps(tap, level3, delay), outside, saved) == (
            Outside { held: outside.held.difference(tap_keys(tap, level3)), ..outside },
            saved,
        ),
{
    let shift = NamedKey::LeftShift.keycode();
    let none = Seq::<Step>::empty();
    law_tap_holds_its_modifiers(tap, level3, delay, outside, saved);
    let down = Outside { held: outside.held.union(tap_keys(tap, level3)), ..outside };
    effect::lemma_effect_concat(
        plan::tap_down(tap, level3, delay),
        plan::tap_up(tap, level3, delay),
        outside,
        saved,
    );
    let a = plan::key_event(tap.keycode, 0, delay);
    let b = if tap.altgr {
        plan::key_event(level3, 0, delay)
    } else {
        none
    };
    let c = if tap.shift {
        plan::key_event(shift, 0, delay)
    } else {
        none
    };
    let o1 = down.key(tap.keycode, 0);
    let o2 = if tap.altgr {
        o1.key(level3, 0)
    } else {
        o1
    };
    let o3 = if tap.shift {
        o2.key(shift, 0)
    } else {
        o2
    };
    effect::lemma_effect_concat(a + b, c, down, saved);
    effect::lemma_effect_concat(a, b, down, saved);
    effect::lemma_key_event(tap.keycode, 0, delay, down, saved);
    effect::lemma_key_event(level3, 0, delay, o1, saved);
    effect::lemma_key_event(shift, 0, delay, o2, saved);
    assert(o3.held =~= outside.held.difference(tap_keys(tap, level3)));
}

proof fn lemma_release_events(codes: Seq<u16>, outside: Outside, saved: Option<Seq<char>>)
    ensures
        effect::effect(
            codes.map_values(|code: u16| Action::<Seq<char>>::Emit { code, value: 0 }),
            outside,
            saved,
        ) == (Outside { held: outside.held.difference(codes.to_set()), ..outside }, saved),
    decreases codes.len(),
{
    let release = |code: u16| Action::<Seq<char>>::Emit { code, value: 0 };
    let steps = codes.map_values(release);
    if codes.len() == 0 {
        assert(outside.held.difference(codes.to_set()) =~= outside.held);
    } else {
        let rest = codes.drop_first();
        let next = outside.key(codes[0], 0);
        assert(steps.drop_first() =~= rest.map_values(release));
        lemma_release_events(rest, next, saved);
        assert(next.held.difference(rest.to_set()) =~= outside.held.difference(codes.to_set()))
            by {
            assert forall|code: u16| codes.to_set().contains(code) <==> code == codes[0]
                || rest.to_set().contains(code) by {
                if codes.contains(code) && code != codes[0] {
                    let i = choose|i: int| 0 <= i < codes.len() && codes[i] == code;
                    assert(rest[i - 1] == code);
                }
                if rest.contains(code) {
                    let i = choose|i: int| 0 <= i < rest.len() && rest[i] == code;
                    assert(codes[i + 1] == code);
                }
            }
        }
    }
}

/// Once all modifiers have been released none of them is held, and no other key has changed.
pub proof fn law_release_frees_the_modifiers(
    level3: u16,
    delay: Duration,
    outside: Outside,
    saved: Option<Seq<char>>,
)
    ensures
        effect::effect(plan::release_steps(level3, delay), outside, saved) == (
            Outside {
                held: outside.held.difference(plan::modifiers(level3).to_set()),
                ..outside
            },
            saved,
        ),
{
    let events = plan::release_events(level3);
    let wait: Seq<Step> = seq![Action::Sleep(Pause::KeyDelay(delay))];
    let codes = plan::modifiers(level3);
    assert(plan::release_steps(level3, delay) =~= events + wait);
    effect::lemma_effect_concat(events, wait, outside, saved);
    assert(events =~= codes.map_values(
        |code: u16| Action::<Seq<char>>::Emit { code, value: 0 },
    ));
    lemma_release_events(codes, outside, saved);
    reveal_with_fuel(effect::effect, 2);
}

proof fn lemma_paste_keys(delay: Duration, outside: Outside, saved: Option<Seq<char>>)
    ensures
        effect::effect(plan::paste_keys(delay), outside, saved) == (
            Outside {
                held: outside.held.remove(NamedKey::V.keycode()).remove(
                    NamedKey::LeftCtrl.keycode(),
                ),
                ..outside
            },
            saved,
        ),
{
    let ctrl = NamedKey::LeftCtrl.keycode();
    let v = NamedKey::V.keycode();
    let a = plan::key_event(ctrl, 1, delay);
    let b = plan::key_event(v, 1, delay);
    let c = plan::key_event(v, 0, delay);
    let d = plan::key_event(ctrl, 0, delay);
    let o1 = outside.key(ctrl, 1);
    let o2 = o1.key(v, 1);
    let o3 = o2.key(v, 0);
    effect::lemma_effect_concat(a + b + c, d, outside, saved);
    effect::lemma_effect_concat(a + b, c, outside, saved);
    effect::lemma_effect_concat(a, b, outside, saved);
    effect::lemma_key_event(ctrl, 1, delay, outside, saved);
    effect::lemma_key_event(v, 1, delay, o1, saved);
    effect::lemma_key_event(v, 0, delay, o2, saved);
    effect::lemma_key_event(ctrl, 0, delay, o3, saved);
    assert(o3.key(ctrl, 0).held =~= outside.held.remove(v).remove(ctrl));
}

/// When V goes down in a paste, the clipboard holds the text that is to be pasted, and Ctrl is
/// the one modifier that is held.
pub proof fn law_paste_pastes_the_text(
    text: Seq<char>,
    level3: u16,
    delay: Duration,
    outside: Outside,
    saved: Option<Seq<char>>,
)
    ensures
        ({
            let ctrl = NamedKey::LeftCtrl.keycode();
            let v = NamedKey::V.keycode();
            let steps = plan::paste_steps(text, level3, delay);
            &&& steps[15] == Action::<Seq<char>>::Emit { code: v, value: 1 }
            &&& effect::effect(steps.take(16), outside, saved).0 == (Outside {
                held: outside.held.difference(plan::modifiers(level3).to_set()).insert(ctrl).insert(
                    v,
                ),
                clipboard: Some(text),
            })
        }),
{
    let ctrl = NamedKey::LeftCtrl.keycode();
    let v = NamedKey::V.keycode();
    let steps = plan::paste_steps(text, level3, delay);
    let head: Seq<Step> = seq![
        Action::SaveClipboard,
        Action::SetClipboard(text),
        Action::Sleep(Pause::Millis(10)),
    ];
    let body = plan::release_steps(level3, delay);
    let down = plan::key_event(ctrl, 1, delay);
    let press: Seq<Step> = seq![Action::Emit { code: v, value: 1 }];
    assert(plan::modifiers(level3).len() == 9);
    assert(body.len() == 10);
    assert(plan::paste_keys(delay)[2] == press[0]);
    assert(steps.take(16) =~= head + body + down + press);
    effect::lemma_effect_concat(head + body + down, press, outside, saved);
    effect::lemma_effect_concat(head + body, down, outside, saved);
    effect::lemma_effect_concat(head, body, outside, saved);
    reveal_with_fuel(effect::effect, 4);
    assert(head.drop_first().drop_first().drop_first() =~= Seq::<Step>::empty());
    assert(press.drop_first() =~= Seq::<Step>::empty());
    let o1 = Outside { clipboard: Some(text), ..outside };
    assert(effect::effect(head, outside, saved) == (o1, outside.clipboard));
    law_release_frees_the_modifiers(level3, delay, o1, outside.clipboard);
    let o2 = effect::effect(body, o1, outside.clipboard).0;
    effect::lemma_key_event(ctrl, 1, delay, o2, outside.clipboard);
}

/// A paste leaves no key held that was not, and the clipboard as it was, if it could be read.
pub proof fn law_paste_restores_the_clipboard(
    text: Seq<char>,
    level3: u16,
    delay: Duration,
    outside: Outside,
    saved: Option<Seq<char>>,
)
    ensures
        ({
            let (after, _) = effect::effect(
                plan::paste_steps(text, level3, delay),
                outside,
                saved,
            );
            &&& after.held.subset_of(outside.held)
            &&& after.clipboard == (if outside.clipboard is Some {
                outside.clipboard
            } else {
                Some(text)
            })
        }),
{
    let head: Seq<Step> = seq![
        Action::SaveClipboard,
        Action::SetClipboard(text),
        Action::Sleep(Pause::Millis(10)),
    ];
    let body = plan::release_steps(level3, delay);
    let keys = plan::paste_keys(delay);
    let tail: Seq<Step> = seq![Action::Sleep(Pause::Millis(50)), Action::RestoreClipboard];
    effect::lemma_effect_concat(head + body + keys, tail, outside, saved);
    effect::lemma_effect_concat(head + body, keys, outside, saved);
    effect::lemma_effect_concat(head, body, outside, saved);
    reveal_with_fuel(effect::effect, 4);
    assert(head.drop_first().drop_first().drop_first() =~= Seq::<Step>::empty());
    assert(tail.drop_first().drop_first() =~= Seq::<Step>::empty());
    let o1 = Outside { clipboard: Some(text), ..outside };
    assert(effect::effect(head, outside, saved) == (o1, outside.clipboard));
    law_release_frees_the_modifiers(level3, delay, o1, outside.clipboard);
    let o2 = effect::effect(body, o1, outside.clipboard).0;
    lemma_paste_keys(delay, o2, outside.clipboard);
}

proof fn lemma_segment(
    piece: Segment,
    level3: u16,
    delay: Duration,
    outside: Outside,
    saved: Option<Seq<char>>,
)
    ensures
        ({
            let (after, _) = effect::effect(
                plan::segment_steps(piece, level3, delay),
                outside,
                saved,
            );
            &&& after.held.subset_of(outside.held)
            &&& outside.clipboard is Some || piece is Typed ==> after.clipboard
                == outside.clipboard
        }),
{
    match piece {
        Segment::Typed { ch, mapping } => {
            let main = plan::tap_steps(mapping.main, level3, delay);
            law_tap_releases_its_keys(mapping.main, level3, delay, outside, saved);
            let (o, s) = effect::effect(main, outside, saved);
            match mapping.follow {
                Some(follow) => {
                    let last = plan::tap_steps(follow, level3, delay);
                    effect::lemma_effect_concat(main, last, outside, saved);
                    law_tap_releases_its_keys(follow, level3, delay, o, s);
                },
                None => {
                    assert(main + Seq::<Step>::empty() == main);
                },
            }
        },
        Segment::Pasted(text) => {
            law_paste_restores_the_clipboard(text, level3, delay, outside, saved);
        },
    }
}

proof fn lemma_segments(
    pieces: Seq<Segment>,
    level3: u16,
    delay: Duration,
    outside: Outside,
    saved: Option<Seq<char>>,
)
    ensures
        ({
            let (after, _) = effect::effect(
                plan::all_segment_steps(pieces, level3, delay),
                outside,
                saved,
            );
            &&& after.held.subset_of(outside.held)
            &&& outside.clipboard is Some || (forall|i: int|
                0 <= i < pieces.len() ==> #[trigger] pieces[i] is Typed) ==> after.clipboard
                == outside.clipboard
        }),
    decreases pieces.len(),
{
    if pieces.len() > 0 {
        let front = pieces.drop_last();
        let last = plan::segment_steps(pieces.last(), level3, delay);
        lemma_segments(front, level3, delay, outside, saved);
        effect::lemma_effect_concat(
            plan::all_segment_steps(front, level3, delay),
            last,
            outside,
            saved,
        );
        let (o, s) = effect::effect(
            plan::all_segment_steps(front, level3, delay),
            outside,
            saved,
        );
        lemma_segment(pieces.last(), level3, delay, o, s);
        if forall|i: int| 0 <= i < pieces.len() ==> #[trigger] pieces[i] is Typed {
            assert forall|i: int| 0 <= i < front.len() implies #[trigger] front[i] is Typed by {
                assert(pieces[i] is Typed);
            }
            assert(pieces[pieces.len() - 1] is Typed);
        }
    }
}

/// Typing a text, when nothing fails, runs to its end, leaves every modifier released and no
/// key held that was not held before, and leaves the clipboard as it was if it could be read.
pub proof fn law_typing_leaves_no_trace(
    map: Map<char, KeyMapping>,
    level3: u16,
    delay: Duration,
    text: Seq<char>,
    outside: Outside,
)
    ensures
        ({
            let (after, phase) = effect::carried_out(
                RunState::start(plan::type_steps(map, level3, delay, text)),
                outside,
            );
            &&& phase == Phase::Finished
            &&& after.held.subset_of(
                outside.held.difference(plan::modifiers(level3).to_set()),
            )
            &&& outside.clipboard is Some ==> after.clipboard == outside.clipboard
        }),
{
    let steps = plan::type_steps(map, level3, delay, text);
    let pieces = plan::segments(map, text);
    effect::lemma_carried_out(RunState::start(steps), outside);
    assert(steps.skip(0) == steps);
    effect::lemma_effect_concat(
        plan::release_steps(level3, delay),
        plan::all_segment_steps(pieces, level3, delay),
        outside,
        None,
    );
    law_release_frees_the_modifiers(level3, delay, outside, None);
    let free = effect::effect(plan::release_steps(level3, delay), outside, None).0;
    lemma_segments(pieces, level3, delay, free, None);
}

/// What has been done when piece `i` of a text is about to be typed.
pub open spec fn steps_before(
    map: Map<char, KeyMapping>,
    level3: u16,
    delay: Duration,
    text: Seq<char>,
    i: int,
) -> Seq<Step> {
    plan::release_steps(level3, delay) + plan::all_segment_steps(
        plan::segments(map, text).take(i),
        level3,
        delay,
    )
}

/// A text is typed piece by piece: the steps of each piece follow what was done before it, and
/// after the last piece nothing is left to do.
pub proof fn law_text_is_typed_piece_by_piece(
    map: Map<char, KeyMapping>,
    level3: u16,
    delay: Duration,
    text: Seq<char>,
    i: int,
)
    requires
        0 <= i <= plan::segments(map, text).len(),
    ensures
        i < plan::segments(map, text).len() ==> steps_before(map, level3, delay, text, i + 1)
            == steps_before(map, level3, delay, text, i) + plan::segment_steps(
            plan::segments(map, text)[i],
            level3,
            delay,
        ),
        i == plan::segments(map, text).len() ==> steps_before(map, level3, delay, text, i)
            == plan::type_steps(map, level3, delay, text),
{
    let pieces = plan::segments(map, text);
    if i < pieces.len() {
        assert(pieces.take(i + 1).drop_last() == pieces.take(i));
        assert(pieces.take(i + 1).last() == pieces[i]);
    } else {
        assert(pieces.take(i) == pieces);
    }
}

/// Before each piece of a text no modifier is held. So when a key of the piece goes down, the
/// modifiers that its own tap asks for are the only ones that are held with it.
pub proof fn law_keys_go_down_with_their_modifiers_alone(
    map: Map<char, KeyMapping>,
    level3: u16,
    delay: Duration,
    text: Seq<char>,
    i: int,
    outside: Outside,
)
    requires
        0 <= i < plan::segments(map, text).len(),
    ensures
        ({
            let before = steps_before(map, level3, delay, text, i);
            let held = effect::effect(before, outside, None).0.held;
            &&& held.disjoint(plan::modifiers(level3).to_set())
            &&& plan::segments(map, text)[i] matches Segment::Typed { mapping, .. } ==> {
                let main = mapping.main;
                &&& effect::effect(
                    before + plan::tap_down(main, level3, delay),
                    outside,
                    None,
                ).0.held == held.union(tap_keys(main, level3))
                &&& mapping.follow matches Some(follow) ==> effect::effect(
                    before + plan::tap_steps(main, level3, delay) + plan::tap_down(
                        follow,
                        level3,
                        delay,
                    ),
                    outside,
                    None,
                ).0.held == held.difference(tap_keys(main, level3)).union(tap_keys(follow, level3))
            }
        }),
{
    let release = plan::release_steps(level3, delay);
    let done = plan::segments(map, text).take(i);
    let before = steps_before(map, level3, delay, text, i);
    effect::lemma_effect_concat(
        release,
        plan::all_segment_steps(done, level3, delay),
        outside,
        None,
    );
    law_release_frees_the_modifiers(level3, delay, outside, None);
    let free = effect::effect(release, outside, None).0;
    lemma_segments(done, level3, delay, free, None);
    let (o, s) = effect::effect(before, outside, None);
    if let Segment::Typed { mapping, .. } = plan::segments(map, text)[i] {
        let main = plan::tap_steps(mapping.main, level3, delay);
        effect::lemma_effect_concat(
            before,
            plan::tap_down(mapping.main, level3, delay),
            outside,
            None,
        );
        law_tap_holds_its_modifiers(mapping.main, level3, delay, o, s);
        if let Some(follow) = mapping.follow {
            effect::lemma_effect_concat(before, main, outside, None);
            law_tap_releases_its_keys(mapping.main, level3, delay, o, s);
            let (o1, s1) = effect::effect(before + main, outside, None);
            effect::lemma_effect_concat(
                before + main,
                plan::tap_down(follow, level3, delay),
                outside,
                None,
            );
            law_tap_holds_its_modifiers(follow, level3, delay, o1, s1);
        }
    }
}

/// Typing a text that the keymap can type altogether does not touch the clipboard.
pub proof fn law_typed_text_needs_no_clipboard(
    map: Map<char, KeyMapping>,
    level3: u16,
    delay: Duration,
    text: Seq<char>,
    outside: Outside,
)
    requires
        forall|i: int| 0 <= i < text.len() ==> map.contains_key(#[trigger] text[i]),
    ensures
        effect::carried_out(
            RunState::start(plan::type_steps(map, level3, delay, text)),
            outside,
        ).0.clipboard == outside.clipboard,
        forall|i: int|
            0 <= i < plan::segments(map, text).len() ==> #[trigger] plan::segments(
                map,
                text,
            )[i] is Typed,
{
    let steps = plan::type_steps(map, level3, delay, text);
    let pieces = plan::segments(map, text);
    lemma_all_typed(map, text);
    effect::lemma_carried_out(RunState::start(steps), outside);
    assert(steps.skip(0) == steps);
    effect::lemma_effect_concat(
        plan::release_steps(level3, delay),
        plan::all_segment_steps(pieces, level3, delay),
        outside,
        None,
    );
    law_release_frees_the_modifiers(level3, delay, outside, None);
    let free = effect::effect(plan::release_steps(level3, delay), outside, None).0;
    lemma_segments(pieces, level3, delay, free, None);
}

proof fn lemma_all_typed(map: Map<char, KeyMapping>, text: Seq<char>)
    requires
        forall|i: int| 0 <= i < text.len() ==> map.contains_key(#[trigger] text[i]),
    ensures
        forall|i: int|
            0 <= i < plan::segments(map, text).len() ==> #[trigger] plan::segments(
                map,
                text,
            )[i] is Typed,
    decreases text.len(),
{
    if text.len() > 0 {
        let front = text.drop_last();
        assert forall|i: int| 0 <= i < front.len() implies map.contains_key(#[trigger] front[i]) by {
            assert(front[i] == text[i]);
        }
        lemma_all_typed(map, front);
        assert(map.contains_key(text[text.len() - 1]));
        lemma_typed_last(map, front, text.last());
        assert(front.push(text.last()) == text);
    }
}

proof fn lemma_typed_last(map: Map<char, KeyMapping>, text: Seq<char>, ch: char)
    requires
        map.contains_key(ch),
        forall|i: int|
            0 <= i < plan::segments(map, text).len() ==> #[trigger] plan::segments(
                map,
                text,
            )[i] is Typed,
    ensures
        forall|i: int|
            0 <= i < plan::segments(map, text.push(ch)).len() ==> #[trigger] plan::segments(
                map,
                text.push(ch),
            )[i] is Typed,
{
    let before = plan::segments(map, text);
    let after = plan::segments(map, text.push(ch));
    assert(text.push(ch).drop_last() == text);
    assert(after == before.push(Segment::Typed { ch, mapping: map[ch] }));
    assert forall|i: int| 0 <= i < after.len() implies #[trigger] after[i] is Typed by {
        if i < before.len() {
            assert(before[i] is Typed);
        }
    }
}

/// Erasing presses and releases Backspace once for each character, and does nothing else.
pub proof fn law_backspace_taps_once_per_character(count: nat, level3: u16, delay: Duration)
    ensures
        plan::backspace_taps(count, level3, delay).len() == 4 * count,
        forall|i: int|
            #![trigger plan::backspace_taps(count, level3, delay)[i]]
            0 <= i < 4 * count ==> plan::backspace_taps(count, level3, delay)[i] == (
            plan::key_event(NamedKey::Backspace.keycode(), 1, delay) + plan::key_event(
                NamedKey::Backspace.keycode(),
                0,
                delay,
            ))[i % 4],
    decreases count,
{
    if count > 0 {
        let fewer = (count - 1) as nat;
        law_backspace_taps_once_per_character(fewer, level3, delay);
        let before = plan::backspace_taps(fewer, level3, delay);
        let tap = plan::key_event(NamedKey::Backspace.keycode(), 1, delay) + plan::key_event(
            NamedKey::Backspace.keycode(),
            0,
            delay,
        );
        assert(plan::tap_steps(KeyTap::plain(NamedKey::Backspace.keycode()), level3, delay)
            =~= tap);
        assert(plan::backspace_taps(count, level3, delay) == before + tap);
    }
}

/// Erasing leaves every modifier released, no key held that was not held before, and the
/// clipboard alone.
pub proof fn law_backspace_leaves_no_trace(
    count: nat,
    level3: u16,
    delay: Duration,
    outside: Outside,
)
    ensures
        ({
            let (after, phase) = effect::carried_out(
                RunState::start(
                    plan::release_steps(level3, delay) + plan::backspace_taps(
                        count,
                        level3,
                        delay,
                    ),
                ),
                outside,
            );
            &&& phase == Phase::Finished
            &&& after.held.subset_of(
                outside.held.difference(plan::modifiers(level3).to_set()),
            )
            &&& after.clipboard == outside.clipboard
        }),
{
    let release = plan::release_steps(level3, delay);
    let taps = plan::backspace_taps(count, level3, delay);
    effect::lemma_carried_out(RunState::start(release + taps), outside);
    assert((release + taps).skip(0) == release + taps);
    effect::lemma_effect_concat(release, taps, outside, None);
    law_release_frees_the_modifiers(level3, delay, outside, None);
    let free = effect::effect(release, outside, None).0;
    lemma_backspace_taps(count, level3, delay, free, None);
}

proof fn lemma_backspace_taps(
    count: nat,
    level3: u16,
    delay: Duration,
    outside: Outside,
    saved: Option<Seq<char>>,
)
    ensures
        ({
            let (after, _) = effect::effect(
                plan::backspace_taps(count, level3, delay),
                outside,
                saved,
            );
            after.held.subset_of(outside.held) && after.clipboard == outside.clipboard
        }),
    decreases count,
{
    if count > 0 {
        let fewer = plan::backspace_taps((count - 1) as nat, level3, delay);
        let tap = KeyTap::plain(NamedKey::Backspace.keycode());
        lemma_backspace_taps((count - 1) as nat, level3, delay, outside, saved);
        effect::lemma_effect_concat(fewer, plan::tap_steps(tap, level3, delay), outside, saved);
        let (o, s) = effect::effect(fewer, outside, saved);
        law_tap_releases_its_keys(tap, level3, delay, o, s);
    }
}

/// A combination presses its keys in order and releases them in reverse order, with the delay
/// after each.
pub proof fn law_combo_releases_in_reverse(keys: Seq<u16>, delay: Duration)
    ensures
        plan::press_all(keys, delay).len() == 2 * keys.len(),
        plan::release_all(keys, delay).len() == 2 * keys.len(),
        forall|i: int|
            #![trigger keys[i]]
            0 <= i < keys.len() ==> plan::press_all(keys, delay).subrange(2 * i, 2 * i + 2)
                == plan::key_event(keys[i], 1, delay),
        forall|i: int|
            #![trigger keys[i]]
            0 <= i < keys.len() ==> plan::release_all(keys, delay).subrange(
                2 * (keys.len() - 1 - i),
                2 * (keys.len() - 1 - i) + 2,
            ) == plan::key_event(keys[i], 0, delay),
    decreases keys.len(),
{
    if keys.len() > 0 {
        let front = keys.drop_last();
        law_combo_releases_in_reverse(front, delay);
        let pressed = plan::press_all(front, delay);
        let released = plan::release_all(front, delay);
        assert forall|i: int| #![trigger keys[i]] 0 <= i < keys.len() implies plan::press_all(
            keys,
            delay,
        ).subrange(2 * i, 2 * i + 2) == plan::key_event(keys[i], 1, delay) by {
            if i < front.len() {
                assert(front[i] == keys[i]);
                assert(plan::press_all(keys, delay).subrange(2 * i, 2 * i + 2)
                    =~= pressed.subrange(2 * i, 2 * i + 2));
            } else {
                assert(plan::press_all(keys, delay).subrange(2 * i, 2 * i + 2)
                    =~= plan::key_event(keys[i], 1, delay));
            }
        }
        assert forall|i: int| #![trigger keys[i]] 0 <= i < keys.len() implies plan::release_all(
            keys,
            delay,
        ).subrange(2 * (keys.len() - 1 - i), 2 * (keys.len() - 1 - i) + 2) == plan::key_event(
            keys[i],
            0,
            delay,
        ) by {
            let at = 2 * (keys.len() - 1 - i);
            if i < front.len() {
                assert(front[i] == keys[i]);
                assert(plan::release_all(keys, delay).subrange(at, at + 2) =~= released.subrange(
                    at - 2,
                    at,
                ));
            } else {
                assert(plan::release_all(keys, delay).subrange(at, at + 2) =~= plan::key_event(
                    keys[i],
                    0,
                    delay,
                ));
            }
        }
    }
}

/// A combination, when nothing fails, leaves none of its keys held, no other key changed, and
/// the clipboard alone.
pub proof fn law_combo_leaves_no_key_held(keys: Seq<u16>, delay: Duration, outside: Outside)
    ensures
        effect::carried_out(
            RunState::start(plan::press_all(keys, delay) + plan::release_all(keys, delay)),
            outside,
        ) == (
            Outside { held: outside.held.difference(keys.to_set()), ..outside },
            Phase::Finished,
        ),
{
    let pressed = plan::press_all(keys, delay);
    let released = plan::release_all(keys, delay);
    effect::lemma_carried_out(RunState::start(pressed + released), outside);
    assert((pressed + released).skip(0) == pressed + released);
    effect::lemma_effect_concat(pressed, released, outside, None);
    lemma_press_all(keys, delay, outside, None);
    let down = Outside { held: outside.held.union(keys.to_set()), ..outside };
    lemma_release_all(keys, delay, down, None);
    assert(down.held.difference(keys.to_set()) =~= outside.held.difference(keys.to_set()));
}

proof fn lemma_drop_last_set(keys: Seq<u16>)
    requires
        keys.len() > 0,
    ensures
        keys.to_set() =~= keys.drop_last().to_set().insert(keys.last()),
{
    let front = keys.drop_last();
    assert forall|k: u16| keys.to_set().contains(k) <==> front.to_set().insert(
        keys.last(),
    ).contains(k) by {
        if keys.contains(k) && k != keys.last() {
            let i = choose|i: int| 0 <= i < keys.len() && keys[i] == k;
            assert(front[i] == k);
        }
        if front.contains(k) {
            let i = choose|i: int| 0 <= i < front.len() && front[i] == k;
            assert(keys[i] == k);
        }
        assert(keys[keys.len() - 1] == keys.last());
    }
}

proof fn lemma_press_all(
    keys: Seq<u16>,
    delay: Duration,
    outside: Outside,
    saved: Option<Seq<char>>,
)
    ensures
        effect::effect(plan::press_all(keys, delay), outside, saved) == (
            Outside { held: outside.held.union(keys.to_set()), ..outside },
            saved,
        ),
    decreases keys.len(),
{
    if keys.len() == 0 {
        assert(outside.held.union(keys.to_set()) =~= outside.held);
    } else {
        let front = keys.drop_last();
        let event = plan::key_event(keys.last(), 1, delay);
        lemma_press_all(front, delay, outside, saved);
        effect::lemma_effect_concat(plan::press_all(front, delay), event, outside, saved);
        let down = Outside { held: outside.held.union(front.to_set()), ..outside };
        effect::lemma_key_event(keys.last(), 1, delay, down, saved);
        lemma_drop_last_set(keys);
        assert(down.held.insert(keys.last()) =~= outside.held.union(keys.to_set()));
    }
}

proof fn lemma_release_all(
    keys: Seq<u16>,
    delay: Duration,
    outside: Outside,
    saved: Option<Seq<char>>,
)
    ensures
        effect::effect(plan::release_all(keys, delay), outside, saved) == (
            Outside { held: outside.held.difference(keys.to_set()), ..outside },
            saved,
        ),
    decreases keys.len(),
{
    if keys.len() == 0 {
        assert(outside.held.difference(keys.to_set()) =~= outside.held);
    } else {
        let front = keys.drop_last();
        let event = plan::key_event(keys.last(), 0, delay);
        let up = outside.key(keys.last(), 0);
        effect::lemma_effect_concat(event, plan::release_all(front, delay), outside, saved);
        effect::lemma_key_event(keys.last(), 0, delay, outside, saved);
        lemma_release_all(front, delay, up, saved);
        lemma_drop_last_set(keys);
        assert(up.held.difference(front.to_set()) =~= outside.held.difference(keys.to_set()));
    }
}

/// When nothing fails, a plan runs to its end and does all that its steps say, in order.
pub proof fn law_run_carries_out_the_plan(steps: Seq<Step>, outside: Outside)
    ensures
        effect::carried_out(RunState::start(steps), outside) == (
            effect::effect(steps, outside, None).0,
            Phase::Finished,
        ),
{
    effect::lemma_carried_out(RunState::start(steps), outside);
    assert(steps.skip(0) == steps);
}

/// As long as text can be put on the clipboard, a plan is finished exactly where none of its key
/// events fails; otherwise it is given up.
pub proof fn law_run_finishes_unless_a_key_event_fails(
    steps: Seq<Step>,
    outside: Outside,
    fails: spec_fn(int) -> bool,
)
    ensures
        effect::ended(RunState::start(steps), outside, fails).1 == (if exists|i: int|
            0 <= i < steps.len() && #[trigger] steps[i] is Emit && fails(i) {
            Phase::Aborted
        } else {
            Phase::Finished
        }),
{
    lemma_run_finishes(RunState::start(steps), outside, fails);
}

proof fn lemma_run_finishes(run: RunState, outside: Outside, fails: spec_fn(int) -> bool)
    requires
        run.valid(),
        run.phase == Phase::Running,
    ensures
        effect::ended(run, outside, fails).1 == (if exists|i: int|
            run.next <= i < run.steps.len() && #[trigger] run.steps[i] is Emit && fails(i) {
            Phase::Aborted
        } else {
            Phase::Finished
        }),
    decreases run.steps.len() - run.next,
{
    if run.next < run.steps.len() {
        let step = run.steps[run.next];
        let (next, ask) = run.advance();
        if step is Emit && fails(run.next) {
            reveal_with_fuel(effect::ended, 3);
        } else if step is RestoreClipboard && run.saved is None {
            lemma_run_finishes(
                RunState { next: run.next + 1, pasting: false, ..run },
                outside,
                fails,
            );
        } else {
            lemma_run_finishes(next.hear(outside.answer(ask)), outside.obey(ask), fails);
        }
    }
}

/// A run that has ended asks for nothing more, whatever it is told.
pub proof fn law_ended_run_stays_ended(run: RunState, answer: Answer)
    requires
        run.phase == Phase::Finished || run.phase == Phase::Aborted,
    ensures
        run.step(answer) == (
            run,
            if run.phase == Phase::Finished {
                Request::<Seq<char>>::Finished
            } else {
                Request::<Seq<char>>::Aborted
            },
        ),
{
}

/// A key event that fails while there is nothing to put back, and text that cannot be put on the
/// clipboard to be pasted, end the run at once: nothing of the rest of the plan is done.
pub proof fn law_failure_ends_the_run(run: RunState)
    requires
        run.valid(),
        run.phase == Phase::Running,
        run.next > 0,
        match run.steps[run.next - 1] {
            Action::Emit { .. } => !run.pasting || run.saved is None,
            Action::SetClipboard(_) => true,
            _ => false,
        },
    ensures
        run.step(Reply::Failed) == (
            RunState { phase: Phase::Aborted, ..run },
            Request::<Seq<char>>::Aborted,
        ),
{
}

/// A key event that fails in the middle of a paste ends the run too, but not before the text
/// that was noted has been put back on the clipboard. Whether that succeeds or not, nothing
/// more is done.
pub proof fn law_failed_paste_gives_the_clipboard_back(
    run: RunState,
    text: Seq<char>,
    answer: Answer,
)
    requires
        run.valid(),
        run.phase == Phase::Running,
        run.next > 0,
        run.steps[run.next - 1] is Emit,
        run.pasting,
        run.saved == Some(text),
    ensures
        run.step(Reply::Failed).1 == Request::RestoreClipboard(text),
        run.step(Reply::Failed).0.step(answer).1 is Aborted,
{
}

/// A clipboard that cannot be read, or to which the old text cannot be put back, does not end
/// the run: the plan goes on as if it had been done, with nothing noted.
pub proof fn law_clipboard_trouble_is_let_pass(run: RunState)
    requires
        run.valid(),
        run.phase == Phase::Running,
        run.next > 0,
    ensures
        run.steps[run.next - 1] is SaveClipboard ==> run.hear(Reply::Failed) == (RunState {
            saved: None,
            ..run
        }),
        run.steps[run.next - 1] is RestoreClipboard ==> run.hear(Reply::Failed) == run,
{
}

/// Only text that was read from the clipboard before is ever put back on it.
pub proof fn law_only_noted_text_is_put_back(run: RunState)
    ensures
        run.advance().1 matches Request::RestoreClipboard(text) ==> run.saved == Some(text),
    decreases run.steps.len() - run.next,
{
    if run.phase == Phase::Running && run.next < run.steps.len() {
        if run.steps[run.next] is RestoreClipboard && run.saved is None {
            law_only_noted_text_is_put_back(
                RunState { next: run.next + 1, pasting: false, ..run },
            );
        }
    }
}

/// Follows the clipboard through `steps`: whether text to be pasted is on it, and whether its old
/// text is noted. `None` where the old text could get lost: where it would be noted or replaced
/// while other text is there already, or replaced or put back without having been noted.
spec fn kept(steps: Seq<Step>, pasting: bool, noted: bool) -> Option<(bool, bool)>
    decreases steps.len(),
{
    if steps.len() == 0 {
        Some((pasting, noted))
    } else {
        let rest = steps.drop_first();
        match steps[0] {
            Action::Emit { .. } | Action::Sleep(_) => kept(rest, pasting, noted),
            Action::SaveClipboard => if pasting {
                None
            } else {
                kept(rest, false, true)
            },
            Action::SetClipboard(_) => if pasting || !noted {
                None
            } else {
                kept(rest, true, true)
            },
            Action::RestoreClipboard => if noted {
                kept(rest, false, true)
            } else {
                None
            },
        }
    }
}

proof fn lemma_kept_concat(a: Seq<Step>, b: Seq<Step>, pasting: bool, noted: bool)
    ensures
        kept(a + b, pasting, noted) == match kept(a, pasting, noted) {
            Some((p, n)) => kept(b, p, n),
            None => None,
        },
    decreases a.len(),
{
    if a.len() == 0 {
        assert(a + b == b);
    } else {
        let rest = a.drop_first();
        assert((a + b).drop_first() == rest + b);
        lemma_kept_concat(rest, b, pasting, noted);
        lemma_kept_concat(rest, b, false, true);
        lemma_kept_concat(rest, b, true, true);
    }
}

/// Key events and waits change nothing for the clipboard.
proof fn lemma_kept_quiet(steps: Seq<Step>, pasting: bool, noted: bool)
    requires
        forall|i: int|
            0 <= i < steps.len() ==> (#[trigger] steps[i] is Emit || steps[i] is Sleep),
    ensures
        kept(steps, pasting, noted) == Some((pasting, noted)),
    decreases steps.len(),
{
    if steps.len() > 0 {
        let rest = steps.drop_first();
        assert forall|i: int| 0 <= i < rest.len() implies (#[trigger] rest[i] is Emit
            || rest[i] is Sleep) by {
            assert(rest[i] == steps[i + 1]);
        }
        assert(steps[0] is Emit || steps[0] is Sleep);
        lemma_kept_quiet(rest, pasting, noted);
    }
}

proof fn lemma_kept_tap(tap: KeyTap, level3: u16, delay: Duration, noted: bool)
    ensures
        kept(plan::tap_steps(tap, level3, delay), false, noted) == Some((false, noted)),
{
    lemma_kept_quiet(plan::tap_steps(tap, level3, delay), false, noted);
}

proof fn lemma_kept_paste(text: Seq<char>, level3: u16, delay: Duration, noted: bool)
    ensures
        kept(plan::paste_steps(text, level3, delay), false, noted) == Some((false, true)),
{
    let head: Seq<Step> = seq![
        Action::SaveClipboard,
        Action::SetClipboard(text),
        Action::Sleep(Pause::Millis(10)),
    ];
    let body = plan::release_steps(level3, delay);
    let keys = plan::paste_keys(delay);
    let tail: Seq<Step> = seq![Action::Sleep(Pause::Millis(50)), Action::RestoreClipboard];
    lemma_kept_concat(head + body + keys, tail, false, noted);
    lemma_kept_concat(head + body, keys, false, noted);
    lemma_kept_concat(head, body, false, noted);
    reveal_with_fuel(kept, 4);
    assert(head.drop_first().drop_first().drop_first() =~= Seq::<Step>::empty());
    assert(tail.drop_first().drop_first() =~= Seq::<Step>::empty());
    lemma_kept_quiet(body, true, true);
    lemma_kept_quiet(keys, true, true);
}

proof fn lemma_kept_segments(pieces: Seq<Segment>, level3: u16, delay: Duration)
    ensures
        kept(plan::all_segment_steps(pieces, level3, delay), false, false) matches Some((p, _))
            && !p,
    decreases pieces.len(),
{
    if pieces.len() > 0 {
        let front = plan::all_segment_steps(pieces.drop_last(), level3, delay);
        lemma_kept_segments(pieces.drop_last(), level3, delay);
        let noted = (kept(front, false, false)->0).1;
        lemma_kept_concat(
            front,
            plan::segment_steps(pieces.last(), level3, delay),
            false,
            false,
        );
        match pieces.last() {
            Segment::Typed { mapping, .. } => {
                let main = plan::tap_steps(mapping.main, level3, delay);
                lemma_kept_tap(mapping.main, level3, delay, noted);
                match mapping.follow {
                    Some(follow) => {
                        lemma_kept_tap(follow, level3, delay, noted);
                        lemma_kept_concat(
                            main,
                            plan::tap_steps(follow, level3, delay),
                            false,
                            noted,
                        );
                    },
                    None => {
                        assert(main + Seq::<Step>::empty() == main);
                    },
                }
            },
            Segment::Pasted(text) => {
                lemma_kept_paste(text, level3, delay, noted);
            },
        }
    }
}

/// Steps in which the old text of the clipboard cannot get lost give it back, whichever key
/// events fail.
proof fn lemma_kept_is_given_back(
    run: RunState,
    outside: Outside,
    fails: spec_fn(int) -> bool,
    noted: bool,
    text: Seq<char>,
)
    requires
        run.valid(),
        run.phase == Phase::Running,
        kept(run.steps.skip(run.next), run.pasting, noted) matches Some((p, _)) && !p,
        run.pasting ==> noted,
        noted ==> run.saved == Some(text),
        !run.pasting ==> outside.clipboard == Some(text),
    ensures
        effect::ended(run, outside, fails).0.clipboard == Some(text),
        ({
            let phase = effect::ended(run, outside, fails).1;
            phase == Phase::Finished || phase == Phase::Aborted
        }),
    decreases run.steps.len() - run.next,
{
    let left = run.steps.skip(run.next);
    let (next, ask) = run.advance();
    if left.len() > 0 {
        assert(left[0] == run.steps[run.next]);
        assert(left.drop_first() == run.steps.skip(run.next + 1));
        if ask is Emit && fails(next.next - 1) {
            let heard = next.hear(Reply::Failed);
            reveal_with_fuel(effect::ended, 3);
            if run.pasting {
                assert(heard.phase == Phase::Restoring);
            } else {
                assert(heard.phase == Phase::Aborted);
            }
        } else {
            let heard = next.hear(outside.answer(ask));
            let now_noted = noted || left[0] is SaveClipboard;
            lemma_kept_is_given_back(heard, outside.obey(ask), fails, now_noted, text);
        }
    }
}

proof fn lemma_kept_notes_first(steps: Seq<Step>, pasting: bool, noted: bool, i: int)
    requires
        kept(steps, pasting, noted) is Some,
        0 <= i < steps.len(),
        steps[i] is RestoreClipboard,
        !noted,
    ensures
        exists|j: int| 0 <= j < i && #[trigger] steps[j] is SaveClipboard,
    decreases steps.len(),
{
    if steps[0] is SaveClipboard {
    } else {
        let rest = steps.drop_first();
        assert(i > 0);
        assert(rest[i - 1] == steps[i]);
        lemma_kept_notes_first(rest, pasting, noted, i - 1);
        let j = choose|j: int| 0 <= j < i - 1 && #[trigger] rest[j] is SaveClipboard;
        assert(steps[j + 1] is SaveClipboard);
    }
}

/// Typing a text, when nothing fails and the clipboard can be read, asks for the steps of its
/// plan, one request for each step: every wait stands between the events where the plan has it,
/// and is as long as the plan has it.
pub proof fn law_typing_asks_for_its_plan(
    map: Map<char, KeyMapping>,
    level3: u16,
    delay: Duration,
    text: Seq<char>,
    outside: Outside,
)
    requires
        outside.clipboard is Some,
    ensures
        ({
            let steps = plan::type_steps(map, level3, delay, text);
            let requests = run_laws::asked(
                RunState::start(steps),
                outside,
                effect::nothing_fails(),
            );
            &&& requests.len() == steps.len() + 1
            &&& forall|i: int|
                #![trigger steps[i]]
                #![trigger requests[i]]
                0 <= i < steps.len() ==> run_laws::asks_for(steps[i], requests[i])
            &&& requests.last() is Finished
        }),
{
    let steps = plan::type_steps(map, level3, delay, text);
    lemma_kept_plan(map, level3, delay, text);
    assert forall|i: int|
        0 <= i < steps.len() && #[trigger] steps[i] is RestoreClipboard implies exists|j: int|
        0 <= j < i && #[trigger] steps[j] is SaveClipboard by {
        lemma_kept_notes_first(steps, false, false, i);
    }
    run_laws::law_requests_are_the_plan(steps, outside);
}

proof fn lemma_kept_plan(
    map: Map<char, KeyMapping>,
    level3: u16,
    delay: Duration,
    text: Seq<char>,
)
    ensures
        kept(plan::type_steps(map, level3, delay, text), false, false) matches Some((p, _)) && !p,
{
    let release = plan::release_steps(level3, delay);
    let pieces = plan::segments(map, text);
    lemma_kept_quiet(release, false, false);
    lemma_kept_segments(pieces, level3, delay);
    lemma_kept_concat(
        release,
        plan::all_segment_steps(pieces, level3, delay),
        false,
        false,
    );
}

/// However the typing of a text ends, a clipboard that can be read holds its old text again, as
/// long as text can be put on it: also where a key event fails in the middle of a paste.
pub proof fn law_typing_always_gives_the_clipboard_back(
    map: Map<char, KeyMapping>,
    level3: u16,
    delay: Duration,
    text: Seq<char>,
    outside: Outside,
    fails: spec_fn(int) -> bool,
)
    requires
        outside.clipboard is Some,
    ensures
        ({
            let (after, phase) = effect::ended(
                RunState::start(plan::type_steps(map, level3, delay, text)),
                outside,
                fails,
            );
            &&& phase == Phase::Finished || phase == Phase::Aborted
            &&& after.clipboard == outside.clipboard
        }),
{
    let steps = plan::type_steps(map, level3, delay, text);
    lemma_kept_plan(map, level3, delay, text);
    assert(steps.skip(0) == steps);
    lemma_kept_is_given_back(
        RunState::start(steps),
        outside,
        fails,
        false,
        outside.clipboard->0,
    );
}

} // verus!
