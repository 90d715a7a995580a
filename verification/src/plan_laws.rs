//! What plans are made of, event for event and wait for wait.

use std::time::Duration;

use vstd::prelude::*;

use crate::effect;
use crate::effect::Outside;
use crate::keyboard::Keyboard;
use crate::keymap::{KeymapError, KeymapTable};
use crate::keys::{KeyMapping, KeyTap};
use crate::plan;
use crate::plan::{Action, Pause, Segment, Step};

verus! {

/// The step that presses the key `code`.
pub open spec fn down(code: u16) -> Step {
    Action::Emit { code, value: 1 }
}

/// The step that releases the key `code`.
pub open spec fn up(code: u16) -> Step {
    Action::Emit { code, value: 0 }
}

/// The step that waits for the delay.
pub open spec fn wait(delay: Duration) -> Step {
    Action::Sleep(Pause::KeyDelay(delay))
}

/// A plan shows its actions one for one, with their text as characters.
pub proof fn law_steps_show_the_actions(actions: Seq<Action<String>>, i: int)
    requires
        0 <= i < actions.len(),
    ensures
        plan::steps(actions).len() == actions.len(),
        match actions[i] {
            Action::Emit { code, value } => plan::steps(actions)[i] == (Action::<
                Seq<char>,
            >::Emit { code, value }),
            Action::Sleep(pause) => plan::steps(actions)[i] == Action::<Seq<char>>::Sleep(pause),
            Action::SaveClipboard => plan::steps(actions)[i]
                == Action::<Seq<char>>::SaveClipboard,
            Action::SetClipboard(text) => plan::steps(actions)[i]
                == Action::<Seq<char>>::SetClipboard(text@),
            Action::RestoreClipboard => plan::steps(actions)[i]
                == Action::<Seq<char>>::RestoreClipboard,
        },
{
}

/// A tap presses its key between its modifiers: LeftShift, evdev keycode 42, where it asks for
/// Shift, and the third-level key where it asks for AltGr. Shift goes down first and up last,
/// and the delay follows every event.
pub proof fn law_tap_is_held_between_its_modifiers(tap: KeyTap, level3: u16, delay: Duration)
    ensures
        plan::tap_down(tap, level3, delay).is_prefix_of(plan::tap_steps(tap, level3, delay)),
        plan::tap_down(tap, level3, delay).len() * 2 == plan::tap_steps(tap, level3, delay).len(),
        !tap.shift && !tap.altgr ==> plan::tap_steps(tap, level3, delay) == seq![
            down(tap.keycode),
            wait(delay),
            up(tap.keycode),
            wait(delay),
        ],
        tap.shift && !tap.altgr ==> plan::tap_steps(tap, level3, delay) == seq![
            down(42),
            wait(delay),
            down(tap.keycode),
            wait(delay),
            up(tap.keycode),
            wait(delay),
            up(42),
            wait(delay),
        ],
        !tap.shift && tap.altgr ==> plan::tap_steps(tap, level3, delay) == seq![
            down(level3),
            wait(delay),
            down(tap.keycode),
            wait(delay),
            up(tap.keycode),
            wait(delay),
            up(level3),
            wait(delay),
        ],
        tap.shift && tap.altgr ==> plan::tap_steps(tap, level3, delay) == seq![
            down(42),
            wait(delay),
            down(level3),
            wait(delay),
            down(tap.keycode),
            wait(delay),
            up(tap.keycode),
            wait(delay),
            up(level3),
            wait(delay),
            up(42),
            wait(delay),
        ],
{
    let steps = plan::tap_steps(tap, level3, delay);
    assert(plan::tap_down(tap, level3, delay) =~= steps.take(
        plan::tap_down(tap, level3, delay).len() as int,
    ));
}

/// The modifiers are released by nine events, both keys of each kind and the third-level key,
/// and one delay after the last.
pub proof fn law_release_lets_go_of_every_modifier(level3: u16, delay: Duration)
    ensures
        plan::release_steps(level3, delay) == seq![
            up(42),
            up(54),
            up(29),
            up(97),
            up(56),
            up(100),
            up(level3),
            up(125),
            up(126),
            wait(delay),
        ],
{
    assert(plan::modifiers(level3).len() == 9);
    assert(plan::release_steps(level3, delay) =~= seq![
        up(42),
        up(54),
        up(29),
        up(97),
        up(56),
        up(100),
        up(level3),
        up(125),
        up(126),
        wait(delay),
    ]);
}

/// A paste notes the clipboard, replaces it, waits 10 ms, releases the modifiers, presses Ctrl+V,
/// waits 50 ms and gives the clipboard back.
pub proof fn law_paste_is_ctrl_v_on_the_text(text: Seq<char>, level3: u16, delay: Duration)
    ensures
        plan::paste_steps(text, level3, delay) == seq![
            Action::SaveClipboard,
            Action::SetClipboard(text),
            Action::Sleep(Pause::Millis(10)),
        ] + plan::release_steps(level3, delay) + seq![
            down(29),
            wait(delay),
            down(47),
            wait(delay),
            up(47),
            wait(delay),
            up(29),
            wait(delay),
        ] + seq![Action::Sleep(Pause::Millis(50)), Action::RestoreClipboard],
{
    assert(plan::paste_keys(delay) =~= seq![
        down(29),
        wait(delay),
        down(47),
        wait(delay),
        up(47),
        wait(delay),
        up(29),
        wait(delay),
    ]);
}

/// To type nothing, only the modifiers are released.
pub proof fn law_empty_text_releases_the_modifiers(
    map: Map<char, KeyMapping>,
    level3: u16,
    delay: Duration,
)
    ensures
        plan::type_steps(map, level3, delay, Seq::empty()) == plan::release_steps(level3, delay),
{
    assert(plan::segments(map, Seq::empty()) == Seq::<Segment>::empty());
    assert(plan::release_steps(level3, delay) + Seq::<Step>::empty() == plan::release_steps(
        level3,
        delay,
    ));
}

/// One more character that the keymap has is typed by its own tap, and by its second tap where it
/// has one, after all that comes before it.
pub proof fn law_one_more_character_is_tapped(
    map: Map<char, KeyMapping>,
    level3: u16,
    delay: Duration,
    text: Seq<char>,
    ch: char,
)
    requires
        map.contains_key(ch),
    ensures
        map[ch].follow is None ==> plan::type_steps(map, level3, delay, text.push(ch))
            == plan::type_steps(map, level3, delay, text) + plan::tap_steps(
            map[ch].main,
            level3,
            delay,
        ),
        map[ch].follow matches Some(follow) ==> plan::type_steps(
            map,
            level3,
            delay,
            text.push(ch),
        ) == plan::type_steps(map, level3, delay, text) + plan::tap_steps(
            map[ch].main,
            level3,
            delay,
        ) + plan::tap_steps(follow, level3, delay),
{
    let before = plan::segments(map, text);
    let piece = Segment::Typed { ch, mapping: map[ch] };
    assert(text.push(ch).drop_last() == text);
    assert(before.push(piece).drop_last() == before);
    let release = plan::release_steps(level3, delay);
    let sofar = plan::all_segment_steps(before, level3, delay);
    let main = plan::tap_steps(map[ch].main, level3, delay);
    match map[ch].follow {
        Some(follow) => {
            let second = plan::tap_steps(follow, level3, delay);
            assert(release + (sofar + (main + second)) == (release + sofar) + main + second);
        },
        None => {
            assert(release + (sofar + (main + Seq::<Step>::empty())) == (release + sofar) + main);
        },
    }
}

/// A run of characters that the keymap lacks is pasted as one, after all that comes before it.
pub proof fn law_run_of_others_is_pasted_as_one(
    map: Map<char, KeyMapping>,
    level3: u16,
    delay: Duration,
    text: Seq<char>,
    run: Seq<char>,
)
    requires
        text.len() > 0 ==> map.contains_key(text.last()),
        run.len() > 0,
        forall|i: int| 0 <= i < run.len() ==> !map.contains_key(#[trigger] run[i]),
    ensures
        plan::type_steps(map, level3, delay, text + run) == plan::type_steps(
            map,
            level3,
            delay,
            text,
        ) + plan::paste_steps(run, level3, delay),
{
    let before = plan::segments(map, text);
    lemma_run_is_one_piece(map, text, run);
    let release = plan::release_steps(level3, delay);
    let sofar = plan::all_segment_steps(before, level3, delay);
    let paste = plan::paste_steps(run, level3, delay);
    assert(before.push(Segment::Pasted(run)).drop_last() == before);
    assert(release + (sofar + paste) == (release + sofar) + paste);
}

proof fn lemma_run_is_one_piece(map: Map<char, KeyMapping>, text: Seq<char>, run: Seq<char>)
    requires
        text.len() > 0 ==> map.contains_key(text.last()),
        run.len() > 0,
        forall|i: int| 0 <= i < run.len() ==> !map.contains_key(#[trigger] run[i]),
    ensures
        plan::segments(map, text + run) == plan::segments(map, text).push(Segment::Pasted(run)),
    decreases run.len(),
{
    let before = plan::segments(map, text);
    let front = run.drop_last();
    assert((text + run).drop_last() == text + front);
    assert((text + run).last() == run.last());
    assert(!map.contains_key(run[run.len() - 1]));
    if front.len() == 0 {
        assert(text + front == text);
        lemma_ends_typed(map, text);
        lemma_single(run);
    } else {
        assert forall|i: int| 0 <= i < front.len() implies !map.contains_key(
            #[trigger] front[i],
        ) by {
            assert(front[i] == run[i]);
        }
        lemma_run_is_one_piece(map, text, front);
        assert(before.push(Segment::Pasted(front)).drop_last() == before);
        lemma_push_last(run);
    }
}

proof fn lemma_single(run: Seq<char>)
    requires
        run.len() == 1,
    ensures
        run == seq![run.last()],
{
    assert(run =~= seq![run.last()]);
}

proof fn lemma_push_last(run: Seq<char>)
    requires
        run.len() > 0,
    ensures
        run.drop_last().push(run.last()) == run,
{
    assert(run.drop_last().push(run.last()) =~= run);
}

proof fn lemma_ends_typed(map: Map<char, KeyMapping>, text: Seq<char>)
    requires
        text.len() > 0 ==> map.contains_key(text.last()),
    ensures
        plan::segments(map, text).len() > 0 <==> text.len() > 0,
        text.len() > 0 ==> plan::segments(map, text).last() is Typed,
{
    if text.len() > 0 {
        lemma_ends_typed_by(map, text.drop_last(), text.last());
        lemma_push_last(text);
    }
}

proof fn lemma_ends_typed_by(map: Map<char, KeyMapping>, text: Seq<char>, ch: char)
    requires
        map.contains_key(ch),
    ensures
        plan::segments(map, text.push(ch)).len() > 0,
        plan::segments(map, text.push(ch)).last() is Typed,
{
    assert(text.push(ch).drop_last() == text);
}

/// Each character that the keymap has is typed in its place, whatever stands before and after it.
/// What is done for the text before it comes first; no modifier is held then. When its key goes
/// down, the modifiers that its own tap asks for are held with it and no others, and so they are
/// for its second tap. All that is at the start of the plan for the whole text.
pub proof fn law_each_character_is_typed_in_its_place(
    map: Map<char, KeyMapping>,
    level3: u16,
    delay: Duration,
    before: Seq<char>,
    ch: char,
    after: Seq<char>,
    outside: Outside,
)
    requires
        map.contains_key(ch),
    ensures
        ({
            let whole = plan::type_steps(map, level3, delay, before.push(ch) + after);
            let sofar = plan::type_steps(map, level3, delay, before);
            let main = map[ch].main;
            let held = effect::effect(sofar, outside, None).0.held;
            let pressed = sofar + plan::tap_down(main, level3, delay);
            &&& !held.contains(42) && !held.contains(54) && !held.contains(29) && !held.contains(97)
            &&& !held.contains(56) && !held.contains(100) && !held.contains(level3)
            &&& !held.contains(125) && !held.contains(126)
            &&& pressed.is_prefix_of(whole)
            &&& pressed[pressed.len() - 2] == down(main.keycode)
            &&& pressed[pressed.len() - 1] == wait(delay)
            &&& forall|code: u16| #[trigger]
                effect::effect(pressed, outside, None).0.held.contains(code) <==> {
                    ||| held.contains(code)
                    ||| code == main.keycode
                    ||| code == 42 && main.shift
                    ||| code == level3 && main.altgr
                }
            &&& map[ch].follow matches Some(follow) ==> {
                let second = sofar + plan::tap_steps(main, level3, delay) + plan::tap_down(
                    follow,
                    level3,
                    delay,
                );
                &&& second.is_prefix_of(whole)
                &&& second[second.len() - 2] == down(follow.keycode)
                &&& second[second.len() - 1] == wait(delay)
                &&& forall|code: u16| #[trigger]
                    effect::effect(second, outside, None).0.held.contains(code) <==> {
                        ||| held.contains(code) && code != main.keycode
                        ||| code == follow.keycode
                        ||| code == 42 && follow.shift
                        ||| code == level3 && follow.altgr
                    }
            }
        }),
{
    let whole = plan::type_steps(map, level3, delay, before.push(ch) + after);
    let sofar = plan::type_steps(map, level3, delay, before);
    let main = map[ch].main;
    let tap = plan::tap_steps(main, level3, delay);
    let half = plan::tap_down(main, level3, delay);
    let (o, s) = effect::effect(sofar, outside, None);
    lemma_no_modifier_is_held(map, level3, delay, before, outside);
    lemma_plan_grows(map, level3, delay, before.push(ch), after);
    law_one_more_character_is_tapped(map, level3, delay, before, ch);
    law_tap_is_held_between_its_modifiers(main, level3, delay);
    let typed = plan::type_steps(map, level3, delay, before.push(ch));
    lemma_prefix(sofar, half, tap);
    effect::lemma_effect_concat(sofar, half, outside, None);
    crate::typing_laws::law_tap_holds_its_modifiers(main, level3, delay, o, s);
    match map[ch].follow {
        Some(follow) => {
            let last = plan::tap_steps(follow, level3, delay);
            let last_half = plan::tap_down(follow, level3, delay);
            law_tap_is_held_between_its_modifiers(follow, level3, delay);
            lemma_prefix(sofar + tap, last_half, last);
            lemma_is_prefix(sofar + tap, last);
            lemma_prefix_trans(sofar + half, sofar + tap, typed);
            effect::lemma_effect_concat(sofar, tap, outside, None);
            crate::typing_laws::law_tap_releases_its_keys(main, level3, delay, o, s);
            let (o1, s1) = effect::effect(sofar + tap, outside, None);
            effect::lemma_effect_concat(sofar + tap, last_half, outside, None);
            crate::typing_laws::law_tap_holds_its_modifiers(follow, level3, delay, o1, s1);
            lemma_prefix_trans(sofar + tap + last_half, typed, whole);
        },
        None => {},
    }
    lemma_prefix_trans(sofar + half, typed, whole);
}

proof fn lemma_prefix(a: Seq<Step>, b: Seq<Step>, c: Seq<Step>)
    requires
        b.is_prefix_of(c),
    ensures
        (a + b).is_prefix_of(a + c),
{
    assert((a + b) =~= (a + c).subrange(0, (a + b).len() as int)) by {
        assert forall|i: int| 0 <= i < (a + b).len() implies (a + b)[i] == (a + c)[i] by {
            if i >= a.len() {
                assert(b[i - a.len()] == c.subrange(0, b.len() as int)[i - a.len()]);
            }
        }
    }
}

proof fn lemma_is_prefix(a: Seq<Step>, b: Seq<Step>)
    ensures
        a.is_prefix_of(a + b),
{
    assert(a =~= (a + b).subrange(0, a.len() as int));
}

proof fn lemma_prefix_trans(a: Seq<Step>, b: Seq<Step>, c: Seq<Step>)
    requires
        a.is_prefix_of(b),
        b.is_prefix_of(c),
    ensures
        a.is_prefix_of(c),
{
    assert(a =~= c.subrange(0, a.len() as int)) by {
        assert forall|i: int| 0 <= i < a.len() implies a[i] == c[i] by {
            assert(a[i] == b.subrange(0, a.len() as int)[i]);
            assert(b[i] == c.subrange(0, b.len() as int)[i]);
        }
    }
}

proof fn lemma_no_modifier_is_held(
    map: Map<char, KeyMapping>,
    level3: u16,
    delay: Duration,
    text: Seq<char>,
    outside: Outside,
)
    ensures
        effect::effect(
            plan::type_steps(map, level3, delay, text),
            outside,
            None,
        ).0.held.disjoint(plan::modifiers(level3).to_set()),
        plan::modifiers(level3).to_set() == set![42u16, 54, 29, 97, 56, 100, level3, 125, 126],
{
    let steps = plan::type_steps(map, level3, delay, text);
    crate::typing_laws::law_typing_leaves_no_trace(map, level3, delay, text, outside);
    effect::lemma_carried_out(crate::run::RunState::start(steps), outside);
    assert(steps.skip(0) == steps);
    let codes = plan::modifiers(level3);
    assert(codes[0] == 42);
    assert(codes[1] == 54);
    assert(codes[2] == 29);
    assert(codes[3] == 97);
    assert(codes[4] == 56);
    assert(codes[5] == 100);
    assert(codes[6] == level3);
    assert(codes[7] == 125);
    assert(codes[8] == 126);
    assert(codes.to_set() =~= set![42u16, 54, 29, 97, 56, 100, level3, 125, 126]) by {
        assert forall|code: u16| codes.to_set().contains(code) implies set![
            42u16,
            54,
            29,
            97,
            56,
            100,
            level3,
            125,
            126,
        ].contains(code) by {
            let i = choose|i: int| 0 <= i < codes.len() && codes[i] == code;
            assert(i == 0 || i == 1 || i == 2 || i == 3 || i == 4 || i == 5 || i == 6 || i == 7
                || i == 8);
        }
    }
}

/// The plan for a text that ends with a character of the keymap is how the plan for every longer
/// text begins.
proof fn lemma_plan_grows(
    map: Map<char, KeyMapping>,
    level3: u16,
    delay: Duration,
    text: Seq<char>,
    more: Seq<char>,
)
    requires
        text.len() > 0,
        map.contains_key(text.last()),
    ensures
        plan::type_steps(map, level3, delay, text).is_prefix_of(
            plan::type_steps(map, level3, delay, text + more),
        ),
{
    let release = plan::release_steps(level3, delay);
    let pieces = plan::segments(map, text);
    let all = plan::segments(map, text + more);
    lemma_pieces_grow(map, text, more);
    lemma_steps_grow(pieces, all, level3, delay);
    lemma_prefix(
        release,
        plan::all_segment_steps(pieces, level3, delay),
        plan::all_segment_steps(all, level3, delay),
    );
}

proof fn lemma_pieces_grow(map: Map<char, KeyMapping>, text: Seq<char>, more: Seq<char>)
    requires
        text.len() > 0,
        map.contains_key(text.last()),
    ensures
        plan::segments(map, text).len() <= plan::segments(map, text + more).len(),
        plan::segments(map, text) == plan::segments(map, text + more).take(
            plan::segments(map, text).len() as int,
        ),
    decreases more.len(),
{
    let pieces = plan::segments(map, text);
    lemma_ends_typed(map, text);
    if more.len() == 0 {
        assert(text + more == text);
        assert(pieces.take(pieces.len() as int) == pieces);
    } else {
        lemma_pieces_grow(map, text, more.drop_last());
        lemma_pieces_grow_by_one(map, text, more.drop_last(), more.last());
        assert(more.drop_last().push(more.last()) == more);
    }
}

proof fn lemma_pieces_grow_by_one(
    map: Map<char, KeyMapping>,
    text: Seq<char>,
    front: Seq<char>,
    ch: char,
)
    requires
        text.len() > 0,
        map.contains_key(text.last()),
        plan::segments(map, text).len() <= plan::segments(map, text + front).len(),
        plan::segments(map, text) == plan::segments(map, text + front).take(
            plan::segments(map, text).len() as int,
        ),
    ensures
        plan::segments(map, text).len() <= plan::segments(map, text + front.push(ch)).len(),
        plan::segments(map, text) == plan::segments(map, text + front.push(ch)).take(
            plan::segments(map, text).len() as int,
        ),
{
    let pieces = plan::segments(map, text);
    let n = pieces.len() as int;
    let sofar = plan::segments(map, text + front);
    let all = plan::segments(map, text + front.push(ch));
    lemma_ends_typed(map, text);
    assert(text + front.push(ch) == (text + front).push(ch));
    assert((text + front).push(ch).drop_last() == text + front);
    assert(pieces.len() > 0);
    assert(sofar.take(n)[n - 1] == sofar[n - 1]);
    assert forall|i: int| 0 <= i < n implies all[i] == #[trigger] pieces[i] by {
        assert(sofar.take(n)[i] == sofar[i]);
    }
    assert(all.take(n) =~= pieces);
}

proof fn lemma_steps_grow(
    pieces: Seq<Segment>,
    all: Seq<Segment>,
    level3: u16,
    delay: Duration,
)
    requires
        pieces.len() <= all.len(),
        pieces == all.take(pieces.len() as int),
    ensures
        plan::all_segment_steps(pieces, level3, delay).is_prefix_of(
            plan::all_segment_steps(all, level3, delay),
        ),
    decreases all.len(),
{
    if pieces.len() == all.len() {
        assert(all.take(pieces.len() as int) == all);
        lemma_is_prefix(plan::all_segment_steps(all, level3, delay), Seq::empty());
        assert(plan::all_segment_steps(all, level3, delay) + Seq::<Step>::empty()
            == plan::all_segment_steps(all, level3, delay));
    } else {
        let front = all.drop_last();
        assert(front.take(pieces.len() as int) == all.take(pieces.len() as int));
        lemma_steps_grow(pieces, front, level3, delay);
        let last = plan::segment_steps(all.last(), level3, delay);
        lemma_is_prefix(plan::all_segment_steps(front, level3, delay), last);
        lemma_prefix_trans(
            plan::all_segment_steps(pieces, level3, delay),
            plan::all_segment_steps(front, level3, delay),
            plan::all_segment_steps(all, level3, delay),
        );
    }
}

/// Erasing one character more taps Backspace, evdev keycode 14, once more, with no modifier;
/// erasing none taps nothing.
pub proof fn law_one_more_backspace(count: nat, level3: u16, delay: Duration)
    ensures
        plan::backspace_taps(0, level3, delay) == Seq::<Step>::empty(),
        plan::backspace_taps(count + 1, level3, delay) == plan::backspace_taps(
            count,
            level3,
            delay,
        ) + seq![down(14), wait(delay), up(14), wait(delay)],
{
    law_tap_is_held_between_its_modifiers(
        KeyTap { keycode: 14, shift: false, altgr: false },
        level3,
        delay,
    );
}

/// A combination presses its keys in order and releases them in reverse order, and the delay
/// follows every event.
pub proof fn law_combination_mirrors_its_keys(keys: Seq<u16>, delay: Duration, i: int)
    requires
        0 <= i < keys.len(),
    ensures
        ({
            let steps = plan::press_all(keys, delay) + plan::release_all(keys, delay);
            let n = steps.len() as int;
            &&& n == 4 * keys.len()
            &&& steps[2 * i] == down(keys[i])
            &&& steps[2 * i + 1] == wait(delay)
            &&& steps[n - 2 - 2 * i] == up(keys[i])
            &&& steps[n - 1 - 2 * i] == wait(delay)
        }),
{
    crate::typing_laws::law_combo_releases_in_reverse(keys, delay);
    let pressed = plan::press_all(keys, delay);
    let released = plan::release_all(keys, delay);
    let k = 2 * (keys.len() - 1 - i);
    assert(pressed.subrange(2 * i, 2 * i + 2)[0] == pressed[2 * i]);
    assert(pressed.subrange(2 * i, 2 * i + 2)[1] == pressed[2 * i + 1]);
    assert(released.subrange(k, k + 2)[0] == released[k]);
    assert(released.subrange(k, k + 2)[1] == released[k + 1]);
}

/// A combination of no keys does nothing.
pub proof fn law_empty_combination_does_nothing(delay: Duration)
    ensures
        (plan::press_all(Seq::empty(), delay) + plan::release_all(Seq::empty(), delay)).len() == 0,
{
}

/// A keyboard that was made types with the compiled keymap, presses AltGr with its third-level
/// key and keeps the delay it was given; where the layout did not compile none is made, and the
/// error names the layout and the variant.
pub proof fn law_keyboards_are_made_from_the_compiled_keymap(
    made: Result<Keyboard, KeymapError>,
    layout: Seq<char>,
    variant: Seq<char>,
    compiled: Option<&KeymapTable>,
    key_delay: Duration,
)
    requires
        Keyboard::made_from(made, layout, variant, compiled, key_delay),
    ensures
        made is Ok <==> compiled is Some,
        made matches Ok(keyboard) ==> {
            &&& keyboard.map() == compiled->0.reverse()
            &&& keyboard.level3() == compiled->0.level3()
            &&& keyboard.delay() == key_delay
        },
        made matches Err(error) ==> error.layout@ == layout && error.variant@ == variant,
{
}

/// The message of a keymap error names the layout first and the variant after it, each between
/// apostrophes.
pub proof fn law_error_message_names_layout_and_variant(layout: Seq<char>, variant: Seq<char>)
    ensures
        KeymapError::spec_message(layout, variant)
            == "failed to create XKB keymap for layout '"@ + layout + "' variant '"@ + variant
            + "'"@,
{
}

} // verus!
