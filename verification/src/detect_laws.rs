//! What holds of every layout that is detected, whatever the session reports.

use vstd::prelude::*;

use crate::detect::{Probe, ProbeReports};
use crate::hyprland::KeyboardFields;
use crate::layout::{CommandOutput, KeyboardLayout, LayoutNames};
use crate::text;
use crate::x11;

verus! {

/// Hyprland is believed first, then X11, then the environment; where none of them names a
/// layout, the default is taken.
pub proof fn law_sources_are_believed_in_order(reports: ProbeReports)
    ensures
        reports.detected_from(Probe::first()) == match reports.found(Probe::Hyprland) {
            Some(names) => names,
            None => match reports.found(Probe::X11) {
                Some(names) => names,
                None => match reports.found(Probe::Env) {
                    Some(names) => names,
                    None => LayoutNames { layout: Seq::empty(), variant: Seq::empty() },
                },
            },
        },
{
    reveal_with_fuel(ProbeReports::detected_from, 5);
}

/// What Sway reports never changes the layout that is detected.
pub proof fn law_sway_never_decides(reports: ProbeReports, swaymsg: Option<CommandOutput>)
    ensures
        (ProbeReports { swaymsg, ..reports }).detected_from(Probe::first())
            == reports.detected_from(Probe::first()),
{
    law_sources_are_believed_in_order(reports);
    law_sources_are_believed_in_order(ProbeReports { swaymsg, ..reports });
}

/// On a session that has a Wayland display, or that has no X11 display, what `setxkbmap` says
/// never changes the layout that is detected.
pub proof fn law_setxkbmap_speaks_for_x11_alone(
    reports: ProbeReports,
    setxkbmap: Option<CommandOutput>,
)
    requires
        !reports.display_set || reports.wayland_display_set,
    ensures
        (ProbeReports { setxkbmap, ..reports }).detected_from(Probe::first())
            == reports.detected_from(Probe::first()),
{
    law_sources_are_believed_in_order(reports);
    law_sources_are_believed_in_order(ProbeReports { setxkbmap, ..reports });
}

/// Each source is asked at most once: the one that is asked next leaves one less to ask.
pub proof fn law_each_source_is_asked_once(probe: Probe)
    ensures
        probe.next() matches Some(next) ==> next.left() + 1 == probe.left(),
        probe.next() is None ==> probe.left() == 1,
{
}

/// A source that finds a layout finds its name: the layout is never empty.
pub proof fn law_found_layouts_have_a_name(reports: ProbeReports, probe: Probe)
    ensures
        reports.found(probe) matches Some(names) ==> names.layout.len() > 0,
{
    if probe == Probe::Hyprland && reports.found(probe) is Some {
        let bytes = crate::layout::said(reports.hyprctl)->0;
        let answer = crate::json::json_document(bytes)->0;
        law_hyprland_picks_a_layout(crate::hyprland::reported_keyboards(answer)->0);
    }
}

/// The layout that is picked from the keyboards of Hyprland is that of a keyboard among them
/// with a layout; and of a built-in one, where there is a built-in one with a layout.
pub proof fn law_hyprland_picks_a_layout(keyboards: Seq<KeyboardFields>)
    ensures
        match crate::hyprland::main_layout(keyboards) {
            Some(names) => exists|i: int|
                {
                    &&& 0 <= i < keyboards.len()
                    &&& crate::hyprland::has_layout(#[trigger] keyboards[i])
                    &&& keyboards[i].layout == names.layout
                    &&& keyboards[i].variant == names.variant
                    &&& (exists|j: int|
                        0 <= j < keyboards.len() && crate::hyprland::built_in(
                            #[trigger] keyboards[j],
                        )) ==> crate::hyprland::built_in(keyboards[i])
                },
            None => forall|i: int|
                0 <= i < keyboards.len() ==> !crate::hyprland::has_layout(
                    #[trigger] keyboards[i],
                ),
        },
{
    lemma_first_where_holds(keyboards, |k: KeyboardFields| crate::hyprland::built_in(k));
    lemma_first_where_holds(keyboards, |k: KeyboardFields| crate::hyprland::has_layout(k));
}

proof fn lemma_first_where_holds<T>(s: Seq<T>, p: spec_fn(T) -> bool)
    ensures
        match crate::layout::first_where(s, p) {
            Some(x) => exists|i: int| 0 <= i < s.len() && #[trigger] s[i] == x && p(x),
            None => forall|i: int| 0 <= i < s.len() ==> !p(#[trigger] s[i]),
        },
    decreases s.len(),
{
    if s.len() > 0 && !p(s[0]) {
        let rest = s.drop_first();
        lemma_first_where_holds(rest, p);
        match crate::layout::first_where(rest, p) {
            Some(x) => {
                let i = choose|i: int| 0 <= i < rest.len() && #[trigger] rest[i] == x && p(x);
                assert(s[i + 1] == x);
            },
            None => {
                assert forall|i: int| 0 <= i < s.len() implies !p(#[trigger] s[i]) by {
                    if i > 0 {
                        assert(rest[i - 1] == s[i]);
                    }
                }
            },
        }
    }
}

/// Lines of `setxkbmap -query` with another key, and lines without a colon, can stand anywhere
/// and change nothing.
pub proof fn law_other_lines_are_ignored(
    before: Seq<Seq<char>>,
    line: Seq<char>,
    after: Seq<Seq<char>>,
    key: Seq<char>,
)
    requires
        x11::field(line) matches Some((k, _)) ==> k != key,
    ensures
        x11::last_value(before + seq![line] + after, key) == x11::last_value(before + after, key),
    decreases after.len(),
{
    let with = before + seq![line] + after;
    if after.len() == 0 {
        assert(with.drop_last() == before);
        assert(before + after == before);
    } else {
        let rest = after.drop_last();
        law_other_lines_are_ignored(before, line, rest, key);
        assert(with.drop_last() == before + seq![line] + rest);
        assert((before + after).drop_last() == before + rest);
    }
}

/// Of several lines of `setxkbmap -query` with one key, the last counts.
pub proof fn law_later_lines_win(
    before: Seq<Seq<char>>,
    line: Seq<char>,
    after: Seq<Seq<char>>,
    key: Seq<char>,
)
    requires
        x11::field(line) matches Some((k, _)) && k == key,
        forall|i: int|
            0 <= i < after.len() ==> (x11::field(#[trigger] after[i]) matches Some((k, _)) ==> k
                != key),
    ensures
        x11::last_value(before + seq![line] + after, key) == Some((x11::field(line)->0).1),
    decreases after.len(),
{
    let all = before + seq![line] + after;
    if after.len() == 0 {
        assert(all.last() == line);
    } else {
        let rest = after.drop_last();
        assert forall|i: int| 0 <= i < rest.len() implies (x11::field(
            #[trigger] rest[i],
        ) matches Some((k, _)) ==> k != key) by {
            assert(rest[i] == after[i]);
        }
        law_later_lines_win(before, line, rest, key);
        assert(all.drop_last() == before + seq![line] + rest);
        assert(all.last() == after[after.len() - 1]);
    }
}

/// The names read from `setxkbmap -query` neither start nor end with white space.
pub proof fn law_queried_names_are_trimmed(answer: Seq<char>)
    ensures
        x11::query_names(answer) matches Some(names) ==> is_trimmed(names.layout) && is_trimmed(
            names.variant,
        ),
{
    lemma_last_value_is_trimmed(text::lines(answer), "layout"@);
    lemma_last_value_is_trimmed(text::lines(answer), "variant"@);
}

/// Whether `s` neither starts nor ends with white space.
pub open spec fn is_trimmed(s: Seq<char>) -> bool {
    s.len() > 0 ==> !text::white_space(s[0]) && !text::white_space(s.last())
}

proof fn lemma_last_value_is_trimmed(lines: Seq<Seq<char>>, key: Seq<char>)
    ensures
        x11::last_value(lines, key) matches Some(value) ==> is_trimmed(value),
    decreases lines.len(),
{
    if lines.len() > 0 {
        let line = lines.last();
        lemma_last_value_is_trimmed(lines.drop_last(), key);
        lemma_trimmed(line.skip(text::find(line, ':') + 1));
    }
}

proof fn lemma_trimmed(s: Seq<char>)
    ensures
        is_trimmed(text::trimmed(s)),
{
    lemma_trimmed_start(s);
    lemma_trimmed_end(text::trimmed_start(s));
}

proof fn lemma_trimmed_start(s: Seq<char>)
    ensures
        text::trimmed_start(s).len() > 0 ==> !text::white_space(text::trimmed_start(s)[0]),
    decreases s.len(),
{
    if s.len() > 0 && text::white_space(s[0]) {
        lemma_trimmed_start(s.drop_first());
    }
}

proof fn lemma_trimmed_end(s: Seq<char>)
    ensures
        text::trimmed_end(s).len() > 0 ==> !text::white_space(text::trimmed_end(s).last())
            && text::trimmed_end(s)[0] == s[0],
    decreases s.len(),
{
    if s.len() > 0 && text::white_space(s.last()) {
        lemma_trimmed_end(s.drop_last());
    }
}

/// An empty `XKB_DEFAULT_LAYOUT` counts as one that is not set, whatever the variant.
pub proof fn law_empty_environment_names_nothing(layout: String, variant: Option<String>)
    requires
        layout@.len() == 0,
    ensures
        KeyboardLayout::env_names(Some(layout), variant) == KeyboardLayout::env_names(
            None,
            variant,
        ),
{
}

} // verus!
