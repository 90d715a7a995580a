//! The layout that Hyprland reports, in the answer of `hyprctl devices -j`.

use serde_json::Value;

use vstd::prelude::*;

use crate::json;
use crate::json::Json;
use crate::layout::{CommandOutput, KeyboardLayout, LayoutNames};
use crate::text;

verus! {

/// What Hyprland reports of one keyboard; empty text where it reports nothing.
#[derive(Clone, Debug)]
pub struct HyprlandKeyboard {
    pub name: String,
    pub layout: String,
    pub variant: String,
}

/// The text in a `HyprlandKeyboard`.
pub struct KeyboardFields {
    pub name: Seq<char>,
    pub layout: Seq<char>,
    pub variant: Seq<char>,
}

impl View for HyprlandKeyboard {
    type V = KeyboardFields;

    open spec fn view(&self) -> KeyboardFields {
        KeyboardFields { name: self.name@, layout: self.layout@, variant: self.variant@ }
    }
}

/// Whether a keyboard has a layout.
pub open spec fn has_layout(keyboard: KeyboardFields) -> bool {
    keyboard.layout.len() > 0
}

/// Whether a keyboard has a layout and its name says that it is the built-in one.
pub open spec fn built_in(keyboard: KeyboardFields) -> bool {
    &&& has_layout(keyboard)
    &&& text::contains(keyboard.name, "translated"@) || text::contains(keyboard.name, "at-"@)
}

/// The layout of the first built-in keyboard, or of the first keyboard with a layout where no
/// keyboard is built in.
pub open spec fn main_layout(keyboards: Seq<KeyboardFields>) -> Option<LayoutNames> {
    let chosen = match crate::layout::first_where(keyboards, |k: KeyboardFields| built_in(k)) {
        Some(keyboard) => Some(keyboard),
        None => crate::layout::first_where(keyboards, |k: KeyboardFields| has_layout(k)),
    };
    match chosen {
        Some(keyboard) => Some(
            LayoutNames { layout: keyboard.layout, variant: keyboard.variant },
        ),
        None => None,
    }
}

/// What the answer says of one keyboard.
pub open spec fn keyboard_fields(keyboard: Json) -> KeyboardFields {
    KeyboardFields {
        name: keyboard.text_or_empty("name"@),
        layout: keyboard.text_or_empty("layout"@),
        variant: keyboard.text_or_empty("variant"@),
    }
}

/// What the answer says of all keyboards: they stand in the array under `keyboards`.
pub open spec fn reported_keyboards(answer: Json) -> Option<Seq<KeyboardFields>> {
    match answer.member("keyboards"@) {
        Some(list) => match list.elements() {
            Some(keyboards) => Some(keyboards.map_values(|k: Json| keyboard_fields(k))),
            None => None,
        },
        None => None,
    }
}

/// The text in each of `keyboards`.
pub open spec fn all_fields(keyboards: Seq<HyprlandKeyboard>) -> Seq<KeyboardFields> {
    keyboards.map_values(|k: HyprlandKeyboard| k@)
}

/// The layout of a keyboard.
fn layout_of(keyboard: &HyprlandKeyboard) -> (layout: KeyboardLayout)
    ensures
        layout@ == (LayoutNames { layout: keyboard@.layout, variant: keyboard@.variant }),
{
    KeyboardLayout { layout: keyboard.layout.clone(), variant: keyboard.variant.clone() }
}

/// Picks the layout of the main keyboard: the first built-in one, else the first with a layout.
pub fn pick_layout(keyboards: &Vec<HyprlandKeyboard>) -> (picked: Option<KeyboardLayout>)
    ensures
        crate::layout::same_find(picked, main_layout(all_fields(keyboards@))),
{
    let ghost fields = all_fields(keyboards@);
    let ghost is_built_in = |k: KeyboardFields| built_in(k);
    let ghost is_usable = |k: KeyboardFields| has_layout(k);
    let mut i: usize = 0;
    while i < keyboards.len()
        invariant
            i <= keyboards@.len(),
            fields == all_fields(keyboards@),
            is_built_in == (|k: KeyboardFields| built_in(k)),
            forall|j: int| 0 <= j < i ==> !is_built_in(#[trigger] fields[j]),
        decreases keyboards@.len() - i,
    {
        let k = &keyboards[i];
        assert(fields[i as int] == k@);
        if !k.layout.as_str().is_empty() && (text::contains_text(k.name.as_str(), "translated")
            || text::contains_text(k.name.as_str(), "at-")) {
            proof {
                crate::layout::lemma_first_where(fields, is_built_in, i as int);
            }
            return Some(layout_of(k));
        }
        i += 1;
    }
    proof {
        crate::layout::lemma_first_where(fields, is_built_in, i as int);
    }
    let mut j: usize = 0;
    while j < keyboards.len()
        invariant
            j <= keyboards@.len(),
            fields == all_fields(keyboards@),
            is_usable == (|k: KeyboardFields| has_layout(k)),
            crate::layout::first_where(fields, |k: KeyboardFields| built_in(k)) is None,
            forall|m: int| 0 <= m < j ==> !is_usable(#[trigger] fields[m]),
        decreases keyboards@.len() - j,
    {
        let k = &keyboards[j];
        assert(fields[j as int] == k@);
        if !k.layout.as_str().is_empty() {
            proof {
                crate::layout::lemma_first_where(fields, is_usable, j as int);
            }
            return Some(layout_of(k));
        }
        j += 1;
    }
    proof {
        crate::layout::lemma_first_where(fields, is_usable, j as int);
    }
    None
}

/// Reads what the answer says of all keyboards.
fn read_keyboards(answer: &Value) -> (keyboards: Option<Vec<HyprlandKeyboard>>)
    ensures
        match keyboards {
            Some(ks) => reported_keyboards(json::json_contents(*answer)) == Some(all_fields(ks@)),
            None => reported_keyboards(json::json_contents(*answer)) is None,
        },
{
    let values = match json::member(answer, "keyboards") {
        Some(list) => match json::elements(list) {
            Some(values) => values,
            None => {
                return None;
            },
        },
        None => {
            return None;
        },
    };
    let ghost wanted = reported_keyboards(json::json_contents(*answer))->0;
    let mut keyboards: Vec<HyprlandKeyboard> = Vec::new();
    let mut i: usize = 0;
    while i < values.len()
        invariant
            i <= values@.len(),
            wanted.len() == values@.len(),
            forall|j: int|
                0 <= j < values@.len() ==> #[trigger] wanted[j] == keyboard_fields(
                    json::json_contents(values@[j]),
                ),
            all_fields(keyboards@) == wanted.take(i as int),
        decreases values@.len() - i,
    {
        let value = &values[i];
        let keyboard = HyprlandKeyboard {
            name: json::text_or_empty(value, "name"),
            layout: json::text_or_empty(value, "layout"),
            variant: json::text_or_empty(value, "variant"),
        };
        assert(keyboard@ == wanted[i as int]);
        let ghost before = keyboards@;
        keyboards.push(keyboard);
        assert(all_fields(before.push(keyboard)) == all_fields(before).push(keyboard@));
        i += 1;
    }
    assert(wanted.take(i as int) == wanted);
    Some(keyboards)
}

impl KeyboardLayout {
    /// The names in the answer of `hyprctl devices -j`.
    pub open spec fn hyprland_names(output: Option<CommandOutput>) -> Option<LayoutNames> {
        match crate::layout::said(output) {
            Some(bytes) => match json::json_document(bytes) {
                Some(answer) => match reported_keyboards(answer) {
                    Some(keyboards) => main_layout(keyboards),
                    None => None,
                },
                None => None,
            },
            None => None,
        }
    }

    /// The layout that Hyprland reported; `output` is `None` where `hyprctl` could not be run.
    pub fn from_hyprland(output: Option<CommandOutput>) -> (found: Option<KeyboardLayout>)
        ensures
            crate::layout::same_find(found, Self::hyprland_names(output)),
    {
        match crate::layout::stdout_of(output) {
            Some(stdout) => match json::parse(stdout.as_slice()) {
                Some(answer) => match read_keyboards(&answer) {
                    Some(keyboards) => pick_layout(&keyboards),
                    None => None,
                },
                None => None,
            },
            None => None,
        }
    }
}

} // verus!
