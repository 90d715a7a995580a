//! What a virtual keyboard does to type: key events, waits and uses of the clipboard.

use std::time::Duration;

use vstd::prelude::*;

use crate::keys::{KeyMapping, KeyTap, NamedKey};

verus! {

/// A wait: for the delay between key events, or for a fixed time.
#[derive(Clone, Copy, Debug, PartialEq, Eq)]
pub enum Pause {
    KeyDelay(Duration),
    Millis(u64),
}

/// One thing to do. `T` is the type of text.
#[derive(Clone, Debug, PartialEq, Eq)]
pub enum Action<T> {
    /// Send a key event: 1 presses the key, 0 releases it.
    Emit { code: u16, value: i32 },
    /// Wait.
    Sleep(Pause),
    /// Note what the clipboard holds, if it can be read.
    SaveClipboard,
    /// Put text on the clipboard.
    SetClipboard(T),
    /// Put back what was noted, if anything was.
    RestoreClipboard,
}

/// An action, with its text as a sequence of characters.
pub type Step = Action<Seq<char>>;

impl View for Action<String> {
    type V = Step;

    open spec fn view(&self) -> Step {
        match *self {
            Action::Emit { code, value } => Action::Emit { code, value },
            Action::Sleep(pause) => Action::Sleep(pause),
            Action::SaveClipboard => Action::SaveClipboard,
            Action::SetClipboard(text) => Action::SetClipboard(text@),
            Action::RestoreClipboard => Action::RestoreClipboard,
        }
    }
}

/// The steps of a list of actions.
pub open spec fn steps(actions: Seq<Action<String>>) -> Seq<Step> {
    actions.map_values(|a: Action<String>| a@)
}

/// One action more is one step more.
pub proof fn lemma_steps_push(actions: Seq<Action<String>>, action: Action<String>)
    ensures
        steps(actions.push(action)) == steps(actions).push(action@),
{
    assert(steps(actions.push(action)) =~= steps(actions).push(action@));
}

/// A key event and the delay after it.
pub open spec fn key_event(code: u16, value: i32, delay: Duration) -> Seq<Step> {
    seq![Action::Emit { code, value }, Action::Sleep(Pause::KeyDelay(delay))]
}

/// The first half of a tap: the modifiers go down, Shift before AltGr, and then the key.
pub open spec fn tap_down(tap: KeyTap, level3: u16, delay: Duration) -> Seq<Step> {
    (if tap.shift {
        key_event(NamedKey::LeftShift.keycode(), 1, delay)
    } else {
        Seq::empty()
    }) + (if tap.altgr {
        key_event(level3, 1, delay)
    } else {
        Seq::empty()
    }) + key_event(tap.keycode, 1, delay)
}

/// The second half of a tap: the key goes up, and then the modifiers, AltGr before Shift.
pub open spec fn tap_up(tap: KeyTap, level3: u16, delay: Duration) -> Seq<Step> {
    key_event(tap.keycode, 0, delay) + (if tap.altgr {
        key_event(level3, 0, delay)
    } else {
        Seq::empty()
    }) + (if tap.shift {
        key_event(NamedKey::LeftShift.keycode(), 0, delay)
    } else {
        Seq::empty()
    })
}

/// A tap.
pub open spec fn tap_steps(tap: KeyTap, level3: u16, delay: Duration) -> Seq<Step> {
    tap_down(tap, level3, delay) + tap_up(tap, level3, delay)
}

/// The keys that could change what a key event means.
pub open spec fn modifiers(level3: u16) -> Seq<u16> {
    seq![
        NamedKey::LeftShift.keycode(),
        NamedKey::RightShift.keycode(),
        NamedKey::LeftCtrl.keycode(),
        NamedKey::RightCtrl.keycode(),
        NamedKey::LeftAlt.keycode(),
        NamedKey::RightAlt.keycode(),
        level3,
        NamedKey::LeftMeta.keycode(),
        NamedKey::RightMeta.keycode(),
    ]
}

/// The event by which each modifier goes up.
pub open spec fn release_events(level3: u16) -> Seq<Step> {
    modifiers(level3).map_values(|code: u16| Action::Emit { code, value: 0 })
}

/// All modifiers go up, with one delay at the end.
pub open spec fn release_steps(level3: u16, delay: Duration) -> Seq<Step> {
    release_events(level3).push(Action::Sleep(Pause::KeyDelay(delay)))
}

/// Ctrl+V.
pub open spec fn paste_keys(delay: Duration) -> Seq<Step> {
    key_event(NamedKey::LeftCtrl.keycode(), 1, delay) + key_event(NamedKey::V.keycode(), 1, delay)
        + key_event(NamedKey::V.keycode(), 0, delay) + key_event(
        NamedKey::LeftCtrl.keycode(),
        0,
        delay,
    )
}

/// Pastes `text`: what the clipboard holds is noted, `text` is put there and pasted, and what
/// was noted is put back.
pub open spec fn paste_steps(text: Seq<char>, level3: u16, delay: Duration) -> Seq<Step> {
    seq![Action::SaveClipboard, Action::SetClipboard(text), Action::Sleep(Pause::Millis(10))]
        + release_steps(level3, delay) + paste_keys(delay) + seq![
        Action::Sleep(Pause::Millis(50)),
        Action::RestoreClipboard,
    ]
}

/// A piece of text that is typed as one: a character with its taps, or a run of characters that
/// no tap types.
pub enum Segment {
    Typed { ch: char, mapping: KeyMapping },
    Pasted(Seq<char>),
}

/// The pieces of `text`: each character that `map` holds is typed, and the runs between such
/// characters are pasted, each as a whole.
pub open spec fn segments(map: Map<char, KeyMapping>, text: Seq<char>) -> Seq<Segment>
    decreases text.len(),
{
    if text.len() == 0 {
        Seq::empty()
    } else {
        let before = segments(map, text.drop_last());
        let ch = text.last();
        if map.contains_key(ch) {
            before.push(Segment::Typed { ch, mapping: map[ch] })
        } else if before.len() > 0 && before.last() is Pasted {
            before.drop_last().push(Segment::Pasted(before.last()->Pasted_0.push(ch)))
        } else {
            before.push(Segment::Pasted(seq![ch]))
        }
    }
}

/// The steps of one piece.
pub open spec fn segment_steps(segment: Segment, level3: u16, delay: Duration) -> Seq<Step> {
    match segment {
        Segment::Typed { ch, mapping } => tap_steps(mapping.main, level3, delay) + (
        match mapping.follow {
            Some(follow) => tap_steps(follow, level3, delay),
            None => Seq::empty(),
        }),
        Segment::Pasted(text) => paste_steps(text, level3, delay),
    }
}

/// The steps of all pieces, one after the other.
pub open spec fn all_segment_steps(pieces: Seq<Segment>, level3: u16, delay: Duration) -> Seq<Step>
    decreases pieces.len(),
{
    if pieces.len() == 0 {
        Seq::empty()
    } else {
        all_segment_steps(pieces.drop_last(), level3, delay) + segment_steps(
            pieces.last(),
            level3,
            delay,
        )
    }
}

/// Types `text`, after all modifiers have gone up.
pub open spec fn type_steps(
    map: Map<char, KeyMapping>,
    level3: u16,
    delay: Duration,
    text: Seq<char>,
) -> Seq<Step> {
    release_steps(level3, delay) + all_segment_steps(segments(map, text), level3, delay)
}

/// `count` taps of Backspace.
pub open spec fn backspace_taps(count: nat, level3: u16, delay: Duration) -> Seq<Step>
    decreases count,
{
    if count == 0 {
        Seq::empty()
    } else {
        backspace_taps((count - 1) as nat, level3, delay) + tap_steps(
            KeyTap::plain(NamedKey::Backspace.keycode()),
            level3,
            delay,
        )
    }
}

/// Presses `keys` in order.
pub open spec fn press_all(keys: Seq<u16>, delay: Duration) -> Seq<Step>
    decreases keys.len(),
{
    if keys.len() == 0 {
        Seq::empty()
    } else {
        press_all(keys.drop_last(), delay) + key_event(keys.last(), 1, delay)
    }
}

/// Releases `keys` in reverse order.
pub open spec fn release_all(keys: Seq<u16>, delay: Duration) -> Seq<Step>
    decreases keys.len(),
{
    if keys.len() == 0 {
        Seq::empty()
    } else {
        key_event(keys.last(), 0, delay) + release_all(keys.drop_last(), delay)
    }
}

} // verus!
