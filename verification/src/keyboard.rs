//! The virtual keyboard: what it does to type text, to erase it and to press key combinations.

use std::time::Duration;

use vstd::prelude::*;

use crate::keymap::{KeymapError, KeymapTable, XkbKeymap};
use crate::keys::{KeyMapping, KeyTap, NamedKey};
use crate::layout::KeyboardLayout;
use crate::plan;
use crate::plan::{Action, Pause, Segment, Step};
use crate::text;

verus! {

/// How long to wait, in milliseconds, after the device has been made and before the first key
/// event: the session must take up the keymap of the new device first.
pub const DEVICE_SETTLE_MILLIS: u64 = 1000;

/// The keycodes that the device is made with.
pub fn device_keycodes() -> (codes: Vec<u16>)
    ensures
        codes@ == Seq::new(247, |i: int| (i + 1) as u16),
{
    let mut codes: Vec<u16> = Vec::new();
    let mut code: u16 = 1;
    while code <= 247
        invariant
            1 <= code <= 248,
            codes@ == Seq::new((code - 1) as nat, |i: int| (i + 1) as u16),
        decreases 248 - code,
    {
        codes.push(code);
        code += 1;
    }
    codes
}

/// A virtual keyboard for one layout.
pub struct Keyboard {
    keymap: XkbKeymap,
    key_delay: Duration,
}

impl Keyboard {
    /// How the layout types each character.
    pub closed spec fn map(self) -> Map<char, KeyMapping> {
        self.keymap@
    }

    /// The key that AltGr is pressed with.
    pub closed spec fn level3(self) -> u16 {
        self.keymap.level3()
    }

    /// The delay after each key event.
    pub closed spec fn delay(self) -> Duration {
        self.key_delay
    }

    /// What `made` is for the layout names `layout` and `variant`: the keyboard of the compiled
    /// keymap, or the error that the layout did not compile.
    pub open spec fn made_from(
        made: Result<Keyboard, KeymapError>,
        layout: Seq<char>,
        variant: Seq<char>,
        compiled: Option<&KeymapTable>,
        key_delay: Duration,
    ) -> bool {
        match compiled {
            Some(table) => made matches Ok(keyboard) && keyboard.map() == table.reverse()
                && keyboard.level3() == table.level3() && keyboard.delay() == key_delay,
            None => made matches Err(error) && error.layout@ == layout && error.variant@
                == variant,
        }
    }

    /// A keyboard for the layout that was detected, from what compiling that layout gave.
    pub fn new(
        detected: &KeyboardLayout,
        compiled: Option<&KeymapTable>,
        key_delay: Duration,
    ) -> (made: Result<Keyboard, KeymapError>)
        ensures
            Self::made_from(
                made,
                detected.layout@,
                detected.variant@,
                compiled,
                key_delay,
            ),
    {
        match XkbKeymap::from_layout(detected, compiled) {
            Ok(keymap) => Ok(Self::with_components(keymap, key_delay)),
            Err(error) => Err(error),
        }
    }

    /// A keyboard for a layout and a variant given by name, from what compiling them gave.
    pub fn with_layout(
        layout: &str,
        variant: Option<&str>,
        compiled: Option<&KeymapTable>,
        key_delay: Duration,
    ) -> (made: Result<Keyboard, KeymapError>)
        ensures
            Self::made_from(
                made,
                layout@,
                match variant {
                    Some(v) => v@,
                    None => Seq::empty(),
                },
                compiled,
                key_delay,
            ),
    {
        let named = KeyboardLayout::from_names(layout, variant);
        Self::new(&named, compiled, key_delay)
    }

    /// A keyboard that types with `keymap`.
    pub fn with_components(keymap: XkbKeymap, key_delay: Duration) -> (keyboard: Keyboard)
        ensures
            keyboard.map() == keymap@,
            keyboard.level3() == keymap.level3(),
            keyboard.delay() == key_delay,
    {
        Keyboard { keymap, key_delay }
    }

    /// Changes the delay after each key event.
    pub fn set_key_delay(&mut self, key_delay: Duration)
        ensures
            final(self).delay() == key_delay,
            final(self).map() == old(self).map(),
            final(self).level3() == old(self).level3(),
    {
        self.key_delay = key_delay;
    }

    /// What to do to type `text`. A character of the layout is typed by its taps; a run of other
    /// characters is pasted as a whole, and the clipboard gets back what it held.
    pub fn type_text(&self, text: &str) -> (actions: Vec<Action<String>>)
        ensures
            plan::steps(actions@) == plan::type_steps(
                self.map(),
                self.level3(),
                self.delay(),
                text@,
            ),
    {
        let mut actions: Vec<Action<String>> = Vec::new();
        self.release_all_modifiers(&mut actions);
        let mut paste_buf: String = String::new();
        let ghost start = plan::release_steps(self.level3(), self.delay());
        let ghost mut pieces: Seq<Segment> = Seq::empty();
        proof {
            assert(Seq::<Step>::empty() + start == start);
            assert(start + plan::all_segment_steps(pieces, self.level3(), self.delay()) == start);
            assert(text@.take(0) == Seq::<char>::empty());
        }
        let chars = text::chars_of(text);
        let mut i: usize = 0;
        while i < chars.len()
            invariant
                i <= chars@.len(),
                chars@ == text@,
                pieces.len() > 0 ==> pieces.last() is Typed,
                plan::segments(self.map(), text@.take(i as int)) == with_pending(
                    pieces,
                    paste_buf@,
                ),
                plan::steps(actions@) == start + plan::all_segment_steps(
                    pieces,
                    self.level3(),
                    self.delay(),
                ),
            decreases chars@.len() - i,
        {
            let ch = text::char_at(&chars, i);
            proof {
                assert(text@.take(i + 1).drop_last() == text@.take(i as int));
                assert(text@.take(i + 1).last() == ch);
            }
            match self.keymap.lookup(ch) {
                Some(mapping) => {
                    let mapping = *mapping;
                    let ghost before = with_pending(pieces, paste_buf@);
                    self.flush(&paste_buf, &mut actions, Ghost(start), Ghost(pieces));
                    paste_buf = String::new();
                    self.type_char(ch, &mapping, &mut actions, Ghost(start), Ghost(before));
                    proof {
                        pieces = before.push(Segment::Typed { ch, mapping });
                    }
                },
                None => {
                    let ghost pending = paste_buf@;
                    paste_buf.push(ch);
                    proof {
                        let before = with_pending(pieces, pending);
                        if pending.len() > 0 {
                            assert(before.drop_last() == pieces);
                        } else {
                            assert(pending.push(ch) == seq![ch]);
                        }
                    }
                },
            }
            i += 1;
        }
        assert(text@.take(i as int) == text@);
        self.flush(&paste_buf, &mut actions, Ghost(start), Ghost(pieces));
        actions
    }

    /// Pastes what is pending, if anything is.
    fn flush(
        &self,
        paste_buf: &String,
        actions: &mut Vec<Action<String>>,
        Ghost(start): Ghost<Seq<Step>>,
        Ghost(pieces): Ghost<Seq<Segment>>,
    )
        requires
            plan::steps(old(actions)@) == start + plan::all_segment_steps(
                pieces,
                self.level3(),
                self.delay(),
            ),
        ensures
            plan::steps(final(actions)@) == start + plan::all_segment_steps(
                with_pending(pieces, paste_buf@),
                self.level3(),
                self.delay(),
            ),
    {
        if !paste_buf.as_str().is_empty() {
            self.paste_text(paste_buf.as_str(), actions);
            proof {
                let piece = Segment::Pasted(paste_buf@);
                assert(pieces.push(piece).drop_last() == pieces);
                assert(plan::steps(actions@) == start + (plan::all_segment_steps(
                    pieces,
                    self.level3(),
                    self.delay(),
                ) + plan::segment_steps(piece, self.level3(), self.delay())));
            }
        }
    }

    /// Types one character.
    fn type_char(
        &self,
        ch: char,
        mapping: &KeyMapping,
        actions: &mut Vec<Action<String>>,
        Ghost(start): Ghost<Seq<Step>>,
        Ghost(pieces): Ghost<Seq<Segment>>,
    )
        requires
            plan::steps(old(actions)@) == start + plan::all_segment_steps(
                pieces,
                self.level3(),
                self.delay(),
            ),
        ensures
            plan::steps(final(actions)@) == start + plan::all_segment_steps(
                pieces.push(Segment::Typed { ch, mapping: *mapping }),
                self.level3(),
                self.delay(),
            ),
    {
        self.tap_key(&mapping.main, actions);
        if let Some(follow) = &mapping.follow {
            self.tap_key(follow, actions);
        }
        proof {
            let piece = Segment::Typed { ch, mapping: *mapping };
            let before = plan::all_segment_steps(pieces, self.level3(), self.delay());
            let main = plan::tap_steps(mapping.main, self.level3(), self.delay());
            assert(pieces.push(piece).drop_last() == pieces);
            match mapping.follow {
                Some(follow) => {
                    let last = plan::tap_steps(follow, self.level3(), self.delay());
                    assert(((start + before) + main) + last == start + (before + (main + last)));
                },
                None => {
                    assert((start + before) + main == start + (before + (main
                        + Seq::<Step>::empty())));
                },
            }
        }
    }

    /// What to do to erase `count` characters.
    pub fn backspace(&self, count: usize) -> (actions: Vec<Action<String>>)
        ensures
            plan::steps(actions@) == plan::release_steps(self.level3(), self.delay())
                + plan::backspace_taps(count as nat, self.level3(), self.delay()),
    {
        let mut actions: Vec<Action<String>> = Vec::new();
        self.release_all_modifiers(&mut actions);
        let ghost start = plan::release_steps(self.level3(), self.delay());
        let tap = KeyTap { keycode: NamedKey::Backspace.code(), shift: false, altgr: false };
        let mut i: usize = 0;
        assert(plan::steps(actions@) == start + plan::backspace_taps(
            0,
            self.level3(),
            self.delay(),
        ));
        while i < count
            invariant
                i <= count,
                tap == KeyTap::plain(NamedKey::Backspace.keycode()),
                plan::steps(actions@) == start + plan::backspace_taps(
                    i as nat,
                    self.level3(),
                    self.delay(),
                ),
            decreases count - i,
        {
            self.tap_key(&tap, &mut actions);
            assert(plan::steps(actions@) == start + (plan::backspace_taps(
                i as nat,
                self.level3(),
                self.delay(),
            ) + plan::tap_steps(tap, self.level3(), self.delay())));
            i += 1;
        }
        actions
    }

    /// What to do to press `keys` in order and release them in reverse order.
    pub fn send_combo(&self, keys: &[u16]) -> (actions: Vec<Action<String>>)
        ensures
            plan::steps(actions@) == plan::press_all(keys@, self.delay()) + plan::release_all(
                keys@,
                self.delay(),
            ),
    {
        let mut actions: Vec<Action<String>> = Vec::new();
        let mut i: usize = 0;
        assert(plan::steps(actions@) == Seq::<Step>::empty());
        while i < keys.len()
            invariant
                i <= keys@.len(),
                plan::steps(actions@) == plan::press_all(keys@.take(i as int), self.delay()),
            decreases keys@.len() - i,
        {
            assert(keys@.take(i + 1).drop_last() == keys@.take(i as int));
            self.set_modifier(keys[i], true, &mut actions);
            i += 1;
        }
        assert(keys@.take(i as int) == keys@);
        let ghost pressed = plan::press_all(keys@, self.delay());
        let ghost mut sent: Seq<Step> = Seq::empty();
        assert(pressed + sent == pressed);
        assert(sent + plan::release_all(keys@, self.delay()) == plan::release_all(
            keys@,
            self.delay(),
        ));
        while i > 0
            invariant
                i <= keys@.len(),
                plan::steps(actions@) == pressed + sent,
                sent + plan::release_all(keys@.take(i as int), self.delay()) == plan::release_all(
                    keys@,
                    self.delay(),
                ),
            decreases i,
        {
            i -= 1;
            self.set_modifier(keys[i], false, &mut actions);
            proof {
                let event = plan::key_event(keys@[i as int], 0, self.delay());
                assert(keys@.take(i + 1).drop_last() == keys@.take(i as int));
                assert(keys@.take(i + 1).last() == keys@[i as int]);
                assert((sent + event) + plan::release_all(keys@.take(i as int), self.delay())
                    == sent + (event + plan::release_all(keys@.take(i as int), self.delay())));
                assert((pressed + sent) + event == pressed + (sent + event));
                sent = sent + event;
            }
        }
        assert(sent + plan::release_all(keys@.take(0), self.delay()) == sent);
        actions
    }

    /// Presses or releases a key, and waits for the delay after it.
    fn set_modifier(&self, code: u16, pressed: bool, actions: &mut Vec<Action<String>>)
        ensures
            plan::steps(final(actions)@) == plan::steps(old(actions)@) + plan::key_event(
                code,
                if pressed {
                    1
                } else {
                    0
                },
                self.delay(),
            ),
    {
        let value: i32 = if pressed {
            1
        } else {
            0
        };
        actions.push(Action::Emit { code, value });
        actions.push(Action::Sleep(Pause::KeyDelay(self.key_delay)));
        assert(plan::steps(actions@) =~= plan::steps(old(actions)@) + plan::key_event(
            code,
            value,
            self.delay(),
        ));
    }

    /// Taps a key, with Shift and AltGr held around it as the tap asks.
    fn tap_key(&self, tap: &KeyTap, actions: &mut Vec<Action<String>>)
        ensures
            plan::steps(final(actions)@) == plan::steps(old(actions)@) + plan::tap_steps(
                *tap,
                self.level3(),
                self.delay(),
            ),
    {
        let level3_key = self.keymap.level3_keycode();
        let shift_key = NamedKey::LeftShift.code();
        if tap.shift {
            self.set_modifier(shift_key, true, actions);
        }
        if tap.altgr {
            self.set_modifier(level3_key, true, actions);
        }
        self.set_modifier(tap.keycode, true, actions);
        self.set_modifier(tap.keycode, false, actions);
        if tap.altgr {
            self.set_modifier(level3_key, false, actions);
        }
        if tap.shift {
            self.set_modifier(shift_key, false, actions);
        }
        assert(plan::steps(actions@) =~= plan::steps(old(actions)@) + plan::tap_steps(
            *tap,
            self.level3(),
            self.delay(),
        ));
    }

    /// Releases every modifier, so that none changes what is typed.
    fn release_all_modifiers(&self, actions: &mut Vec<Action<String>>)
        ensures
            plan::steps(final(actions)@) == plan::steps(old(actions)@) + plan::release_steps(
                self.level3(),
                self.delay(),
            ),
    {
        let modifiers: [u16; 9] = [
            NamedKey::LeftShift.code(),
            NamedKey::RightShift.code(),
            NamedKey::LeftCtrl.code(),
            NamedKey::RightCtrl.code(),
            NamedKey::LeftAlt.code(),
            NamedKey::RightAlt.code(),
            self.keymap.level3_keycode(),
            NamedKey::LeftMeta.code(),
            NamedKey::RightMeta.code(),
        ];
        assert(modifiers@ == plan::modifiers(self.level3()));
        let ghost ups = plan::release_events(self.level3());
        let mut i: usize = 0;
        while i < 9
            invariant
                i <= 9,
                modifiers@ == plan::modifiers(self.level3()),
                ups == plan::release_events(self.level3()),
                plan::steps(actions@) == plan::steps(old(actions)@) + ups.take(i as int),
            decreases 9 - i,
        {
            let ghost before = actions@;
            let action = Action::Emit { code: modifiers[i], value: 0 };
            proof {
                plan::lemma_steps_push(before, action);
                assert(ups[i as int] == action@);
                assert(ups.take(i + 1) == ups.take(i as int).push(ups[i as int]));
                assert((plan::steps(old(actions)@) + ups.take(i as int)).push(action@)
                    == plan::steps(old(actions)@) + ups.take(i + 1));
            }
            actions.push(action);
            i += 1;
        }
        let action = Action::Sleep(Pause::KeyDelay(self.key_delay));
        proof {
            plan::lemma_steps_push(actions@, action);
            assert(ups.take(9) == ups);
            assert((plan::steps(old(actions)@) + ups).push(action@) == plan::steps(old(actions)@)
                + ups.push(action@));
        }
        actions.push(action);
    }

    /// Presses Ctrl+V.
    fn inject_ctrl_v(&self, actions: &mut Vec<Action<String>>)
        ensures
            plan::steps(final(actions)@) == plan::steps(old(actions)@) + plan::paste_keys(
                self.delay(),
            ),
    {
        let ctrl = NamedKey::LeftCtrl.code();
        let v = NamedKey::V.code();
        self.set_modifier(ctrl, true, actions);
        self.set_modifier(v, true, actions);
        self.set_modifier(v, false, actions);
        self.set_modifier(ctrl, false, actions);
        assert(plan::steps(actions@) =~= plan::steps(old(actions)@) + plan::paste_keys(
            self.delay(),
        ));
    }

    /// Pastes `text`, and puts back what the clipboard held before.
    fn paste_text(&self, text: &str, actions: &mut Vec<Action<String>>)
        ensures
            plan::steps(final(actions)@) == plan::steps(old(actions)@) + plan::paste_steps(
                text@,
                self.level3(),
                self.delay(),
            ),
    {
        let ghost start = plan::steps(actions@);
        let ghost head: Seq<Step> = seq![
            Action::SaveClipboard,
            Action::SetClipboard(text@),
            Action::Sleep(Pause::Millis(10)),
        ];
        actions.push(Action::SaveClipboard);
        actions.push(Action::SetClipboard(text.to_owned()));
        actions.push(Action::Sleep(Pause::Millis(10)));
        assert(plan::steps(actions@) =~= start + head);
        self.release_all_modifiers(actions);
        self.inject_ctrl_v(actions);
        let ghost body = plan::release_steps(self.level3(), self.delay());
        let ghost keys = plan::paste_keys(self.delay());
        let ghost tail: Seq<Step> = seq![
            Action::Sleep(Pause::Millis(50)),
            Action::RestoreClipboard,
        ];
        assert(plan::steps(actions@) == ((start + head) + body) + keys);
        let ghost before = actions@;
        actions.push(Action::Sleep(Pause::Millis(50)));
        actions.push(Action::RestoreClipboard);
        proof {
            assert(plan::steps(actions@) =~= plan::steps(before) + tail);
            assert((((start + head) + body) + keys) + tail == start + (((head + body) + keys)
                + tail));
        }
    }
}

/// The pieces so far, with the text that is yet to be pasted as the last of them.
spec fn with_pending(pieces: Seq<Segment>, pending: Seq<char>) -> Seq<Segment> {
    if pending.len() == 0 {
        pieces
    } else {
        pieces.push(Segment::Pasted(pending))
    }
}

} // verus!
