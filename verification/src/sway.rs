//! What Sway reports of the layout, in the answer of `swaymsg -t get_inputs --raw`.

use vstd::prelude::*;

use crate::json;
use crate::json::Json;
use crate::layout::{CommandOutput, KeyboardLayout};
use crate::text;

verus! {

/// Whether an input is a keyboard with an active layout.
pub open spec fn active_keyboard(input: Json) -> bool {
    &&& input.member("type"@) matches Some(kind) && kind.text() == Some("keyboard"@)
    &&& input.member("xkb_active_layout_name"@) is Some
}

/// The display name of the active layout of an input: the element of `xkb_layout_names` at
/// `xkb_active_layout_index`, which is the first where no index is given.
pub open spec fn display_name(input: Json) -> Option<Seq<char>> {
    let index = match input.member("xkb_active_layout_index"@) {
        Some(value) => match value.unsigned() {
            Some(n) => n as usize as int,
            None => 0,
        },
        None => 0,
    };
    match input.member("xkb_layout_names"@) {
        Some(list) => match list.elements() {
            Some(names) => if index < names.len() {
                names[index].text()
            } else {
                None
            },
            None => None,
        },
        None => None,
    }
}

/// The display name of the layout that the first active keyboard has.
pub open spec fn reported_name(answer: Json) -> Option<Seq<char>> {
    match answer.elements() {
        Some(inputs) => match crate::layout::first_where(inputs, |i: Json| active_keyboard(i)) {
            Some(keyboard) => display_name(keyboard),
            None => None,
        },
        None => None,
    }
}

/// Whether `input` is a keyboard with an active layout.
fn is_active_keyboard(input: &serde_json::Value) -> (yes: bool)
    ensures
        yes == active_keyboard(json::json_contents(*input)),
{
    match json::member(input, "type") {
        Some(kind) => match json::text(kind) {
            Some(kind) => text::same_text(kind, "keyboard") && json::member(
                input,
                "xkb_active_layout_name",
            ).is_some(),
            None => false,
        },
        None => false,
    }
}

/// Reads the display name of the active layout of `input`.
fn read_display_name(input: &serde_json::Value) -> (name: Option<String>)
    ensures
        match name {
            Some(n) => display_name(json::json_contents(*input)) == Some(n@),
            None => display_name(json::json_contents(*input)) is None,
        },
{
    let index: usize = match json::member(input, "xkb_active_layout_index") {
        Some(value) => match json::unsigned(value) {
            Some(n) => n as usize,
            None => 0,
        },
        None => 0,
    };
    let names = match json::member(input, "xkb_layout_names") {
        Some(list) => match json::elements(list) {
            Some(names) => names,
            None => {
                return None;
            },
        },
        None => {
            return None;
        },
    };
    if index < names.len() {
        match json::text(&names[index]) {
            Some(name) => Some(name.to_owned()),
            None => None,
        }
    } else {
        None
    }
}

/// The display name in the answer of `swaymsg -t get_inputs --raw`.
pub open spec fn sway_name(output: Option<CommandOutput>) -> Option<Seq<char>> {
    match crate::layout::said(output) {
        Some(bytes) => match json::json_document(bytes) {
            Some(answer) => reported_name(answer),
            None => None,
        },
        None => None,
    }
}

/// The display name of the layout that Sway reports, such as `German` or `English (US)`;
/// `output` is `None` where `swaymsg` could not be run.
pub fn reported_layout_name(output: Option<CommandOutput>) -> (name: Option<String>)
    ensures
        match name {
            Some(n) => sway_name(output) == Some(n@),
            None => sway_name(output) is None,
        },
{
    let stdout = match crate::layout::stdout_of(output) {
        Some(stdout) => stdout,
        None => {
            return None;
        },
    };
    let answer = match json::parse(stdout.as_slice()) {
        Some(answer) => answer,
        None => {
            return None;
        },
    };
    let inputs = match json::elements(&answer) {
        Some(inputs) => inputs,
        None => {
            return None;
        },
    };
    let ghost contents = json::json_contents(answer).elements()->0;
    let ghost is_active = |i: Json| active_keyboard(i);
    let mut i: usize = 0;
    while i < inputs.len()
        invariant
            i <= inputs@.len(),
            contents.len() == inputs@.len(),
            forall|j: int|
                0 <= j < inputs@.len() ==> #[trigger] contents[j] == json::json_contents(
                    inputs@[j],
                ),
            is_active == (|i: Json| active_keyboard(i)),
            json::json_contents(answer).elements() == Some(contents),
            crate::layout::said(output) is Some,
            json::json_document(crate::layout::said(output)->0) == Some(
                json::json_contents(answer),
            ),
            forall|j: int| 0 <= j < i ==> !is_active(#[trigger] contents[j]),
        decreases inputs@.len() - i,
    {
        assert(contents[i as int] == json::json_contents(inputs@[i as int]));
        if is_active_keyboard(&inputs[i]) {
            proof {
                crate::layout::lemma_first_where(contents, is_active, i as int);
            }
            return read_display_name(&inputs[i]);
        }
        i += 1;
    }
    proof {
        crate::layout::lemma_first_where(contents, is_active, i as int);
    }
    None
}

impl KeyboardLayout {
    /// No layout is ever taken from Sway. It reports display names, such as `German`, and not
    /// the names that XKB knows a layout by, such as `de`; under a display name XKB would
    /// compile its default layout, and the sources that know the right name would not be asked.
    pub fn from_sway(output: Option<CommandOutput>) -> (found: Option<KeyboardLayout>)
        ensures
            found is None,
    {
        let _display_name = reported_layout_name(output);
        None
    }
}

} // verus!
