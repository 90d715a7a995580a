//! The layout that `setxkbmap -query` reports on an X11 session.

use vstd::prelude::*;

use crate::layout::{CommandOutput, KeyboardLayout, LayoutNames};
use crate::text;

verus! {

/// A line `key: value`, both without the white space around them; `None` for a line without a
/// colon.
pub open spec fn field(line: Seq<char>) -> Option<(Seq<char>, Seq<char>)> {
    let colon = text::find(line, ':');
    if colon < line.len() {
        Some((text::trimmed(line.take(colon)), text::trimmed(line.skip(colon + 1))))
    } else {
        None
    }
}

/// The value of the last line with the key `key`.
pub open spec fn last_value(lines: Seq<Seq<char>>, key: Seq<char>) -> Option<Seq<char>>
    decreases lines.len(),
{
    if lines.len() == 0 {
        None
    } else {
        match field(lines.last()) {
            Some((k, value)) if k == key => Some(value),
            _ => last_value(lines.drop_last(), key),
        }
    }
}

/// The names in an answer of `setxkbmap -query`: it must give a layout that is not empty.
pub open spec fn query_names(answer: Seq<char>) -> Option<LayoutNames> {
    let lines = text::lines(answer);
    match last_value(lines, "layout"@) {
        Some(layout) if layout.len() > 0 => Some(
            LayoutNames {
                layout,
                variant: match last_value(lines, "variant"@) {
                    Some(variant) => variant,
                    None => Seq::empty(),
                },
            },
        ),
        _ => None,
    }
}

/// Whether an optional string holds the optional text.
spec fn holds(string: Option<String>, content: Option<Seq<char>>) -> bool {
    match string {
        Some(s) => content == Some(s@),
        None => content is None,
    }
}

/// Reads the layout from an answer of `setxkbmap -query`.
pub fn parse_setxkbmap_query(output: &str) -> (found: Option<KeyboardLayout>)
    ensures
        crate::layout::same_find(found, query_names(output@)),
{
    let chars = text::chars_of(output);
    let lines = text::split_lines(chars.as_slice());
    let layout_key = text::chars_of("layout");
    let variant_key = text::chars_of("variant");
    let ghost all = text::lines(output@);
    let mut layout: Option<String> = None;
    let mut variant: Option<String> = None;
    let mut i: usize = 0;
    while i < lines.len()
        invariant
            i <= lines@.len(),
            lines@.len() == all.len(),
            forall|j: int| 0 <= j < lines@.len() ==> (#[trigger] lines@[j])@ == all[j],
            layout_key@ == "layout"@,
            variant_key@ == "variant"@,
            holds(layout, last_value(all.take(i as int), "layout"@)),
            holds(variant, last_value(all.take(i as int), "variant"@)),
        decreases lines@.len() - i,
    {
        let line = lines[i];
        proof {
            let sofar = all.take(i + 1);
            assert(sofar.last() == line@);
            assert(sofar.drop_last() == all.take(i as int));
            reveal_strlit("layout");
            reveal_strlit("variant");
            assert("layout"@.len() != "variant"@.len());
        }
        let colon = text::find_char(line, ':');
        if colon < line.len() {
            let key = text::trim(vstd::slice::slice_subrange(line, 0, colon));
            let value = text::trim(vstd::slice::slice_subrange(line, colon + 1, line.len()));
            assert(line@.take(colon as int) == line@.subrange(0, colon as int));
            assert(line@.skip(colon + 1) == line@.subrange(colon + 1, line@.len() as int));
            if text::same_chars(key, layout_key.as_slice()) {
                layout = Some(text::string_of(value));
            } else if text::same_chars(key, variant_key.as_slice()) {
                variant = Some(text::string_of(value));
            }
        }
        i += 1;
    }
    assert(all.take(i as int) == all);
    match layout {
        Some(layout) => {
            if layout.as_str().is_empty() {
                return None;
            }
            let variant = match variant {
                Some(v) => v,
                None => String::new(),
            };
            Some(KeyboardLayout { layout, variant })
        },
        None => None,
    }
}

/// Whether the session is one of X11 alone, so that `setxkbmap` speaks for it: `DISPLAY` is
/// set, and `WAYLAND_DISPLAY` is not.
pub fn is_x11_session(display_set: bool, wayland_display_set: bool) -> (yes: bool)
    ensures
        yes == (display_set && !wayland_display_set),
{
    display_set && !wayland_display_set
}

impl KeyboardLayout {
    /// The names that `setxkbmap -query` reported, on a session of X11 alone.
    pub open spec fn x11_names(
        display_set: bool,
        wayland_display_set: bool,
        output: Option<CommandOutput>,
    ) -> Option<LayoutNames> {
        if display_set && !wayland_display_set {
            match crate::layout::said(output) {
                Some(bytes) => if vstd::utf8::valid_utf8(bytes) {
                    query_names(vstd::utf8::decode_utf8(bytes))
                } else {
                    None
                },
                None => None,
            }
        } else {
            None
        }
    }

    /// The layout that `setxkbmap -query` reported, on a session of X11 alone; `output` is
    /// `None` where the command could not be run.
    pub fn from_x11(
        display_set: bool,
        wayland_display_set: bool,
        output: Option<CommandOutput>,
    ) -> (found: Option<KeyboardLayout>)
        ensures
            crate::layout::same_find(
                found,
                Self::x11_names(display_set, wayland_display_set, output),
            ),
    {
        if !is_x11_session(display_set, wayland_display_set) {
            return None;
        }
        match crate::layout::stdout_of(output) {
            Some(stdout) => match text::utf8_text(stdout) {
                Some(answer) => parse_setxkbmap_query(answer.as_str()),
                None => None,
            },
            None => None,
        }
    }
}

} // verus!
