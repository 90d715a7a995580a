//! What is read from the reports of a session, told from the reports themselves.

use vstd::prelude::*;

use crate::detect::{Probe, ProbeReports};
use crate::hyprland::{HyprlandKeyboard, KeyboardFields};
use crate::json::Json;
use crate::layout::{CommandOutput, KeyboardLayout, LayoutNames};
use crate::text;
use crate::x11;

verus! {

/// What an object has under `key`.
pub open spec fn under(value: Json, key: Seq<char>) -> Option<Json> {
    match value {
        Json::Object(members) => if members.contains_key(key) {
            Some(members[key])
        } else {
            None
        },
        _ => None,
    }
}

/// Whether an object has a string under `key`, and it is `content`.
pub open spec fn has_text(value: Json, key: Seq<char>, content: Seq<char>) -> bool {
    under(value, key) == Some(Json::Text(content))
}

/// Whether an object has no string under `key`.
pub open spec fn has_no_text(value: Json, key: Seq<char>) -> bool {
    !(under(value, key) matches Some(v) && v is Text)
}

/// Whether `needle` stands somewhere in `s`, between other characters or at an end.
pub open spec fn has_within(s: Seq<char>, needle: Seq<char>) -> bool {
    exists|before: Seq<char>, after: Seq<char>| #[trigger] (before + needle + after) == s
}

/// Whether a keyboard, as the answer has it, has a layout that is not empty.
pub open spec fn laid_out(keyboard: Json) -> bool {
    under(keyboard, "layout"@) matches Some(Json::Text(layout)) && layout.len() > 0
}

/// Whether the name of a keyboard, as the answer has it, says that it is built in.
pub open spec fn named_built_in(keyboard: Json) -> bool {
    under(keyboard, "name"@) matches Some(Json::Text(name)) && (has_within(name, "translated"@)
        || has_within(name, "at-"@))
}

/// Whether the layout in `names` is the whole string that a keyboard has under `layout`, and the
/// variant the whole string that it has under `variant`, empty where it has none there.
pub open spec fn taken_from(names: LayoutNames, keyboard: Json) -> bool {
    &&& has_text(keyboard, "layout"@, names.layout)
    &&& has_text(keyboard, "variant"@, names.variant) || has_no_text(keyboard, "variant"@)
        && names.variant == Seq::<char>::empty()
}

/// Whether `bytes` hold an object with an array under `keyboards`, and it is `keyboards`.
pub open spec fn lists(bytes: Seq<u8>, keyboards: Seq<Json>) -> bool {
    crate::json::json_document(bytes) matches Some(answer) && under(answer, "keyboards"@) == Some(
        Json::Array(keyboards),
    )
}

/// A layout from Hyprland is that of the first keyboard in its answer that has a layout and is
/// built in by its name; where no keyboard is both, it is that of the first that has a layout.
pub proof fn law_hyprland_reads_the_answer(
    output: CommandOutput,
    keyboards: Seq<Json>,
    i: int,
)
    requires
        output.success,
        lists(output.stdout@, keyboards),
        0 <= i < keyboards.len(),
        laid_out(keyboards[i]),
        ({
            ||| named_built_in(keyboards[i]) && forall|j: int|
                0 <= j < i ==> !(laid_out(#[trigger] keyboards[j]) && named_built_in(keyboards[j]))
            ||| {
                &&& forall|j: int|
                    0 <= j < keyboards.len() ==> !(laid_out(#[trigger] keyboards[j])
                        && named_built_in(keyboards[j]))
                &&& forall|j: int| 0 <= j < i ==> !laid_out(#[trigger] keyboards[j])
            }
        }),
    ensures
        KeyboardLayout::hyprland_names(Some(output)) matches Some(names) && taken_from(
            names,
            keyboards[i],
        ),
{
    let answer = crate::json::json_document(output.stdout@)->0;
    let fields = crate::hyprland::reported_keyboards(answer)->0;
    assert(fields.len() == keyboards.len());
    assert forall|j: int| 0 <= j < keyboards.len() implies {
        &&& crate::hyprland::has_layout(#[trigger] fields[j]) <==> laid_out(keyboards[j])
        &&& crate::hyprland::built_in(fields[j]) <==> laid_out(keyboards[j]) && named_built_in(
            keyboards[j],
        )
    } by {
        lemma_fields(keyboards[j]);
        assert(fields[j] == crate::hyprland::keyboard_fields(keyboards[j]));
    }
    assert(fields[i] == crate::hyprland::keyboard_fields(keyboards[i]));
    lemma_main_layout(fields, i);
    lemma_fields(keyboards[i]);
}

/// A layout from Hyprland always stands in its answer: some keyboard there has exactly that
/// layout, all of it, and exactly that variant.
pub proof fn law_hyprland_layout_stands_in_the_answer(output: Option<CommandOutput>)
    ensures
        KeyboardLayout::hyprland_names(output) matches Some(names) ==> {
            &&& output is Some
            &&& output->0.success
            &&& exists|keyboards: Seq<Json>, i: int|
                #![trigger lists(output->0.stdout@, keyboards), keyboards[i]]
                {
                    &&& lists(output->0.stdout@, keyboards)
                    &&& 0 <= i < keyboards.len()
                    &&& laid_out(keyboards[i])
                    &&& taken_from(names, keyboards[i])
                }
        },
{
    if let Some(names) = KeyboardLayout::hyprland_names(output) {
        let answer = crate::json::json_document(output->0.stdout@)->0;
        let fields = crate::hyprland::reported_keyboards(answer)->0;
        let keyboards = under(answer, "keyboards"@)->0->Array_0;
        assert(lists(output->0.stdout@, keyboards));
        crate::detect_laws::law_hyprland_picks_a_layout(fields);
        let i = choose|i: int|
            {
                &&& 0 <= i < fields.len()
                &&& crate::hyprland::has_layout(#[trigger] fields[i])
                &&& fields[i].layout == names.layout
                &&& fields[i].variant == names.variant
            };
        assert(fields[i] == crate::hyprland::keyboard_fields(keyboards[i]));
        lemma_fields(keyboards[i]);
        assert(taken_from(names, keyboards[i]));
    }
}

/// Hyprland names no layout where it could not be asked or failed, where its answer lists no
/// keyboards, or where no keyboard in it has a layout; and only there.
pub proof fn law_hyprland_may_name_nothing(output: Option<CommandOutput>)
    ensures
        KeyboardLayout::hyprland_names(output) is None <==> {
            ||| output is None
            ||| !output->0.success
            ||| forall|keyboards: Seq<Json>| #[trigger]
                lists(output->0.stdout@, keyboards) ==> forall|i: int|
                    0 <= i < keyboards.len() ==> !laid_out(#[trigger] keyboards[i])
        },
{
    law_hyprland_layout_stands_in_the_answer(output);
    if KeyboardLayout::hyprland_names(output) is None && output is Some && output->0.success {
        assert forall|keyboards: Seq<Json>| #[trigger]
            lists(output->0.stdout@, keyboards) implies forall|i: int|
            0 <= i < keyboards.len() ==> !laid_out(#[trigger] keyboards[i]) by {
            let answer = crate::json::json_document(output->0.stdout@)->0;
            let fields = crate::hyprland::reported_keyboards(answer)->0;
            crate::detect_laws::law_hyprland_picks_a_layout(fields);
            assert forall|i: int| 0 <= i < keyboards.len() implies !laid_out(
                #[trigger] keyboards[i],
            ) by {
                assert(fields[i] == crate::hyprland::keyboard_fields(keyboards[i]));
                lemma_fields(keyboards[i]);
            }
        }
    }
}

/// Of keyboards that have been read, the layout is picked of the first that has a layout and is
/// built in by its name; where no keyboard is both, of the first that has a layout.
pub proof fn law_main_keyboard_is_picked(keyboards: Seq<HyprlandKeyboard>, i: int)
    requires
        0 <= i < keyboards.len(),
        keyboards[i].layout@.len() > 0,
        ({
            ||| {
                &&& has_within(keyboards[i].name@, "translated"@) || has_within(
                    keyboards[i].name@,
                    "at-"@,
                )
                &&& forall|j: int|
                    0 <= j < i && (#[trigger] keyboards[j]).layout@.len() > 0 ==> !has_within(
                        keyboards[j].name@,
                        "translated"@,
                    ) && !has_within(keyboards[j].name@, "at-"@)
            }
            ||| {
                &&& forall|j: int|
                    0 <= j < keyboards.len() && (#[trigger] keyboards[j]).layout@.len() > 0
                        ==> !has_within(keyboards[j].name@, "translated"@) && !has_within(
                        keyboards[j].name@,
                        "at-"@,
                    )
                &&& forall|j: int| 0 <= j < i ==> (#[trigger] keyboards[j]).layout@.len() == 0
            }
        }),
    ensures
        crate::hyprland::main_layout(crate::hyprland::all_fields(keyboards)) == Some(
            LayoutNames { layout: keyboards[i].layout@, variant: keyboards[i].variant@ },
        ),
{
    let fields = crate::hyprland::all_fields(keyboards);
    assert forall|j: int| 0 <= j < keyboards.len() implies {
        &&& crate::hyprland::has_layout(#[trigger] fields[j]) <==> keyboards[j].layout@.len() > 0
        &&& crate::hyprland::built_in(fields[j]) <==> keyboards[j].layout@.len() > 0 && (has_within(
            keyboards[j].name@,
            "translated"@,
        ) || has_within(keyboards[j].name@, "at-"@))
    } by {
        lemma_within(keyboards[j].name@, "translated"@);
        lemma_within(keyboards[j].name@, "at-"@);
        assert(fields[j] == keyboards[j]@);
    }
    assert(fields[i] == keyboards[i]@);
    lemma_main_layout(fields, i);
}

/// No layout is picked exactly where no keyboard has one.
pub proof fn law_no_keyboard_no_layout(keyboards: Seq<HyprlandKeyboard>)
    ensures
        crate::hyprland::main_layout(crate::hyprland::all_fields(keyboards)) is None <==> forall|
            i: int,
        |
            0 <= i < keyboards.len() ==> (#[trigger] keyboards[i]).layout@.len() == 0,
{
    let fields = crate::hyprland::all_fields(keyboards);
    crate::detect_laws::law_hyprland_picks_a_layout(fields);
    assert forall|i: int| 0 <= i < keyboards.len() implies (
    #[trigger] fields[i]).layout == keyboards[i].layout@ by {
        assert(fields[i] == keyboards[i]@);
    }
    if crate::hyprland::main_layout(fields) is None {
        assert forall|i: int| 0 <= i < keyboards.len() implies (
        #[trigger] keyboards[i]).layout@.len() == 0 by {
            assert(!crate::hyprland::has_layout(fields[i]));
        }
    } else {
        let i = choose|i: int|
            0 <= i < fields.len() && crate::hyprland::has_layout(#[trigger] fields[i]);
        assert(keyboards[i].layout@.len() > 0);
    }
}

proof fn lemma_within(s: Seq<char>, needle: Seq<char>)
    ensures
        text::contains(s, needle) <==> has_within(s, needle),
{
    if text::contains(s, needle) {
        let at = choose|at: int| text::occurs_at(s, needle, at);
        let before = s.take(at);
        let after = s.skip(at + needle.len());
        assert(before + needle + after =~= s) by {
            assert forall|i: int| at <= i < at + needle.len() implies s[i] == needle[i - at] by {
                assert(s.subrange(at, at + needle.len())[i - at] == s[i]);
            }
        }
    }
    if has_within(s, needle) {
        let (before, after) = choose|before: Seq<char>, after: Seq<char>| #[trigger]
            (before + needle + after) == s;
        let at = before.len() as int;
        assert(s.subrange(at, at + needle.len()) =~= needle);
        assert(text::occurs_at(s, needle, at));
    }
}

proof fn lemma_fields(keyboard: Json)
    ensures
        crate::hyprland::has_layout(crate::hyprland::keyboard_fields(keyboard)) <==> laid_out(
            keyboard,
        ),
        crate::hyprland::built_in(crate::hyprland::keyboard_fields(keyboard)) <==> laid_out(
            keyboard,
        ) && named_built_in(keyboard),
        laid_out(keyboard) ==> has_text(
            keyboard,
            "layout"@,
            crate::hyprland::keyboard_fields(keyboard).layout,
        ),
        has_text(keyboard, "variant"@, crate::hyprland::keyboard_fields(keyboard).variant)
            || has_no_text(keyboard, "variant"@) && crate::hyprland::keyboard_fields(
            keyboard,
        ).variant == Seq::<char>::empty(),
{
    let name = crate::hyprland::keyboard_fields(keyboard).name;
    lemma_within(name, "translated"@);
    lemma_within(name, "at-"@);
    if !named_built_in(keyboard) && has_no_text(keyboard, "name"@) {
        reveal_strlit("translated");
        reveal_strlit("at-");
        assert(name.len() == 0);
        assert(!text::contains(name, "translated"@));
        assert(!text::contains(name, "at-"@));
    }
}

proof fn lemma_main_layout(fields: Seq<KeyboardFields>, i: int)
    requires
        0 <= i < fields.len(),
        ({
            ||| crate::hyprland::built_in(fields[i]) && forall|j: int|
                0 <= j < i ==> !crate::hyprland::built_in(#[trigger] fields[j])
            ||| {
                &&& crate::hyprland::has_layout(fields[i])
                &&& forall|j: int|
                    0 <= j < fields.len() ==> !crate::hyprland::built_in(#[trigger] fields[j])
                &&& forall|j: int| 0 <= j < i ==> !crate::hyprland::has_layout(#[trigger] fields[j])
            }
        }),
    ensures
        crate::hyprland::main_layout(fields) == Some(
            LayoutNames { layout: fields[i].layout, variant: fields[i].variant },
        ),
{
    let built_in = |k: KeyboardFields| crate::hyprland::built_in(k);
    let has_layout = |k: KeyboardFields| crate::hyprland::has_layout(k);
    if crate::hyprland::built_in(fields[i]) && forall|j: int|
        0 <= j < i ==> !crate::hyprland::built_in(#[trigger] fields[j]) {
        crate::layout::lemma_first_where(fields, built_in, i);
    } else {
        crate::layout::lemma_first_where(fields, built_in, fields.len() as int);
        crate::layout::lemma_first_where(fields, has_layout, i);
    }
}

/// Whether an input of Sway is a keyboard with an active layout.
pub open spec fn is_active(input: Json) -> bool {
    &&& has_text(input, "type"@, "keyboard"@)
    &&& under(input, "xkb_active_layout_name"@) is Some
}

/// The name that Sway reports is that of the first keyboard with an active layout: the string at
/// the active index of its layout names, at the first place where it gives no index.
pub proof fn law_sway_names_the_active_layout(
    output: CommandOutput,
    inputs: Seq<Json>,
    i: int,
    names: Seq<Json>,
    index: int,
)
    requires
        output.success,
        crate::json::json_document(output.stdout@) == Some(Json::Array(inputs)),
        0 <= i < inputs.len(),
        is_active(inputs[i]),
        forall|j: int| 0 <= j < i ==> !is_active(#[trigger] inputs[j]),
        under(inputs[i], "xkb_layout_names"@) == Some(Json::Array(names)),
        match under(inputs[i], "xkb_active_layout_index"@) {
            Some(Json::Number(Some(n))) => index == n as usize,
            _ => index == 0,
        },
    ensures
        crate::sway::sway_name(Some(output)) == (if index < names.len() {
            match names[index] {
                Json::Text(name) => Some(name),
                _ => None,
            }
        } else {
            None
        }),
{
    let active = |input: Json| crate::sway::active_keyboard(input);
    assert forall|j: int| 0 <= j < i implies !active(#[trigger] inputs[j]) by {
        assert(!is_active(inputs[j]));
    }
    crate::layout::lemma_first_where(inputs, active, i);
}

/// Sway names nothing where it could not be asked or failed, where its answer is no array or has
/// no keyboard with an active layout, or where that keyboard has no array of layout names.
pub proof fn law_sway_may_name_nothing(output: Option<CommandOutput>)
    requires
        ({
            ||| output is None
            ||| !output->0.success
            ||| !(crate::json::json_document(output->0.stdout@) matches Some(answer)
                && answer is Array)
            ||| crate::json::json_document(output->0.stdout@) matches Some(Json::Array(inputs))
                && forall|i: int|
                0 <= i < inputs.len() && is_active(#[trigger] inputs[i]) ==> !(under(
                    inputs[i],
                    "xkb_layout_names"@,
                ) matches Some(names) && names is Array)
        }),
    ensures
        crate::sway::sway_name(output) is None,
{
    if crate::sway::sway_name(output) is Some {
        let inputs = crate::json::json_document(output->0.stdout@)->0->Array_0;
        let active = |input: Json| crate::sway::active_keyboard(input);
        lemma_first_where_at(inputs, active);
        let i = choose|i: int|
            0 <= i < inputs.len() && active(#[trigger] inputs[i]) && crate::layout::first_where(
                inputs,
                active,
            ) == Some(inputs[i]);
        assert(is_active(inputs[i]));
    }
}

proof fn lemma_first_where_at(s: Seq<Json>, p: spec_fn(Json) -> bool)
    ensures
        crate::layout::first_where(s, p) is Some ==> exists|i: int|
            0 <= i < s.len() && p(#[trigger] s[i]) && crate::layout::first_where(s, p) == Some(
                s[i],
            ),
    decreases s.len(),
{
    if s.len() > 0 && !p(s[0]) && crate::layout::first_where(s, p) is Some {
        let rest = s.drop_first();
        lemma_first_where_at(rest, p);
        let i = choose|i: int|
            0 <= i < rest.len() && p(#[trigger] rest[i]) && crate::layout::first_where(rest, p)
                == Some(rest[i]);
        assert(s[i + 1] == rest[i]);
    }
}

/// White space is what Unicode takes for it.
pub proof fn law_white_space_is_that_of_unicode(ch: char)
    ensures
        text::white_space(ch) <==> {
            let v = ch as u32;
            ||| 0x9 <= v <= 0xd
            ||| v == 0x20
            ||| v == 0x85
            ||| v == 0xa0
            ||| v == 0x1680
            ||| 0x2000 <= v <= 0x200a
            ||| v == 0x2028
            ||| v == 0x2029
            ||| v == 0x202f
            ||| v == 0x205f
            ||| v == 0x3000
        },
{
}

/// Whether `s` is nothing but white space.
pub open spec fn blank(s: Seq<char>) -> bool {
    forall|i: int| 0 <= i < s.len() ==> text::white_space(#[trigger] s[i])
}

/// White space around a text is cut off, and nothing else is.
pub proof fn law_trimming_cuts_white_space_alone(a: Seq<char>, s: Seq<char>, b: Seq<char>)
    requires
        blank(a),
        blank(b),
        s.len() > 0 ==> !text::white_space(s[0]) && !text::white_space(s.last()),
    ensures
        text::trimmed(a + s + b) == s,
{
    lemma_trim_start(a, s + b);
    assert(a + (s + b) == a + s + b);
    if s.len() == 0 {
        assert(s + b == b);
        lemma_trim_start(b, Seq::empty());
        assert(b + Seq::<char>::empty() == b);
        assert(s == Seq::<char>::empty());
    } else {
        assert((s + b)[0] == s[0]);
        lemma_trim_end(s, b);
    }
}

proof fn lemma_trim_start(a: Seq<char>, s: Seq<char>)
    requires
        blank(a),
    ensures
        text::trimmed_start(a + s) == text::trimmed_start(s),
    decreases a.len(),
{
    if a.len() == 0 {
        assert(a + s == s);
    } else {
        let rest = a.drop_first();
        assert((a + s).drop_first() == rest + s);
        assert((a + s)[0] == a[0]);
        assert forall|i: int| 0 <= i < rest.len() implies text::white_space(#[trigger] rest[i]) by {
            assert(rest[i] == a[i + 1]);
        }
        lemma_trim_start(rest, s);
    }
}

proof fn lemma_trim_end(s: Seq<char>, b: Seq<char>)
    requires
        blank(b),
    ensures
        text::trimmed_end(s + b) == text::trimmed_end(s),
    decreases b.len(),
{
    if b.len() == 0 {
        assert(s + b == s);
    } else {
        let rest = b.drop_last();
        assert((s + b).drop_last() == s + rest);
        assert((s + b).last() == b[b.len() - 1]);
        assert forall|i: int| 0 <= i < rest.len() implies text::white_space(#[trigger] rest[i]) by {
            assert(rest[i] == b[i]);
        }
        lemma_trim_end(s, rest);
    }
}

/// Lines are split at line feeds. The line feed is no part of a line, nor is one carriage return
/// before it; the last line needs no line feed, and keeps a carriage return at its end.
pub proof fn law_lines_end_at_line_feeds(line: Seq<char>, rest: Seq<char>)
    requires
        forall|i: int| 0 <= i < line.len() ==> #[trigger] line[i] != '\n',
    ensures
        text::lines(Seq::empty()) == Seq::<Seq<char>>::empty(),
        line.len() > 0 ==> text::lines(line) == seq![line],
        text::lines(line + seq!['\r', '\n'] + rest) == seq![line] + text::lines(rest),
        line.len() == 0 || line.last() != '\r' ==> text::lines(line + seq!['\n'] + rest)
            == seq![line] + text::lines(rest),
{
    let n = line.len() as int;
    text::lemma_find_unique(line, '\n', n);
    let plain = line + seq!['\n'] + rest;
    assert(plain[n] == '\n');
    assert forall|j: int| 0 <= j < n implies plain[j] != '\n' by {
        assert(plain[j] == line[j]);
    }
    text::lemma_find_unique(plain, '\n', n);
    assert(plain.take(n) == line);
    assert(plain.skip(n + 1) == rest);
    let both = line + seq!['\r', '\n'] + rest;
    assert(both[n] == '\r');
    assert(both[n + 1] == '\n');
    assert forall|j: int| 0 <= j < n + 1 implies both[j] != '\n' by {
        if j < n {
            assert(both[j] == line[j]);
        }
    }
    text::lemma_find_unique(both, '\n', n + 1);
    assert(both.take(n + 1).drop_last() == line);
    assert(both.take(n + 1).last() == '\r');
    assert(both.skip(n + 2) == rest);
}

/// A line of `setxkbmap -query` gives what stands before its first colon as the key and what
/// stands after it as the value, both without the white space around them. A line without a
/// colon gives nothing.
pub proof fn law_lines_hold_a_key_and_a_value(
    a: Seq<char>,
    key: Seq<char>,
    b: Seq<char>,
    c: Seq<char>,
    value: Seq<char>,
    d: Seq<char>,
)
    requires
        blank(a),
        blank(b),
        blank(c),
        blank(d),
        forall|i: int| 0 <= i < key.len() ==> #[trigger] key[i] != ':',
        key.len() > 0 ==> !text::white_space(key[0]) && !text::white_space(key.last()),
        value.len() > 0 ==> !text::white_space(value[0]) && !text::white_space(value.last()),
    ensures
        x11::field(a + key + b + seq![':'] + (c + value + d)) == Some((key, value)),
        x11::field(a + key + b) is None,
{
    let left = a + key + b;
    let right = c + value + d;
    let line = left + seq![':'] + right;
    let n = left.len() as int;
    assert forall|j: int| 0 <= j < n implies left[j] != ':' by {
        if j < a.len() {
            assert(text::white_space(a[j]));
        } else if j < a.len() + key.len() {
            assert(left[j] == key[j - a.len()]);
        } else {
            assert(text::white_space(b[j - a.len() - key.len()]));
        }
    }
    text::lemma_find_unique(left, ':', n);
    assert(line[n] == ':');
    assert forall|j: int| 0 <= j < n implies line[j] != ':' by {
        assert(line[j] == left[j]);
    }
    text::lemma_find_unique(line, ':', n);
    assert(line.take(n) == left);
    assert(line.skip(n + 1) == right);
    law_trimming_cuts_white_space_alone(a, key, b);
    law_trimming_cuts_white_space_alone(c, value, d);
}

/// A key that no line has gives nothing.
pub proof fn law_missing_key_has_no_value(lines: Seq<Seq<char>>, key: Seq<char>)
    requires
        forall|i: int|
            0 <= i < lines.len() ==> (x11::field(#[trigger] lines[i]) matches Some((k, _)) ==> k
                != key),
    ensures
        x11::last_value(lines, key) is None,
    decreases lines.len(),
{
    if lines.len() > 0 {
        let front = lines.drop_last();
        assert forall|i: int| 0 <= i < front.len() implies (x11::field(
            #[trigger] front[i],
        ) matches Some((k, _)) ==> k != key) by {
            assert(front[i] == lines[i]);
        }
        law_missing_key_has_no_value(front, key);
        assert(lines.last() == lines[lines.len() - 1]);
    }
}

/// The layout is the value under `layout`, which must not be empty, and the variant is the value
/// under `variant`, empty where there is none.
pub proof fn law_query_names_layout_and_variant(
    answer: Seq<char>,
    layout: Seq<char>,
    variant: Seq<char>,
)
    ensures
        x11::query_names(answer) == Some(LayoutNames { layout, variant }) <==> {
            &&& layout.len() > 0
            &&& x11::last_value(text::lines(answer), "layout"@) == Some(layout)
            &&& match x11::last_value(text::lines(answer), "variant"@) {
                Some(value) => variant == value,
                None => variant == Seq::<char>::empty(),
            }
        },
{
}

/// What `setxkbmap` said counts where it succeeded, where it is UTF-8, and where the session has
/// an X11 display and no Wayland display; nowhere else.
pub proof fn law_setxkbmap_counts_on_x11_alone(
    display_set: bool,
    wayland_display_set: bool,
    output: CommandOutput,
)
    ensures
        display_set && !wayland_display_set && output.success && vstd::utf8::valid_utf8(
            output.stdout@,
        ) ==> KeyboardLayout::x11_names(display_set, wayland_display_set, Some(output))
            == x11::query_names(vstd::utf8::decode_utf8(output.stdout@)),
        !(display_set && !wayland_display_set && output.success && vstd::utf8::valid_utf8(
            output.stdout@,
        )) ==> KeyboardLayout::x11_names(display_set, wayland_display_set, Some(output)) is None,
        KeyboardLayout::x11_names(display_set, wayland_display_set, None) is None,
{
}

/// The environment names the layout and the variant that its variables hold, exactly as they hold
/// them, where the layout is set and not empty.
pub proof fn law_environment_is_taken_as_it_is(layout: String, variant: String)
    ensures
        layout@.len() > 0 ==> KeyboardLayout::env_names(Some(layout), Some(variant)) == Some(
            LayoutNames { layout: layout@, variant: variant@ },
        ),
        layout@.len() > 0 ==> KeyboardLayout::env_names(Some(layout), None) == Some(
            LayoutNames { layout: layout@, variant: Seq::empty() },
        ),
        layout@.len() == 0 ==> KeyboardLayout::env_names(Some(layout), Some(variant)) is None,
        KeyboardLayout::env_names(None, Some(variant)) is None,
        KeyboardLayout::env_names(None, None) is None,
{
}

/// Each source reads its own report, and Sway names no layout.
pub proof fn law_each_source_reads_its_own_report(reports: ProbeReports)
    ensures
        reports.found(Probe::Hyprland) == KeyboardLayout::hyprland_names(reports.hyprctl),
        reports.found(Probe::Sway) is None,
        reports.found(Probe::X11) == KeyboardLayout::x11_names(
            reports.display_set,
            reports.wayland_display_set,
            reports.setxkbmap,
        ),
        reports.found(Probe::Env) == KeyboardLayout::env_names(
            reports.xkb_default_layout,
            reports.xkb_default_variant,
        ),
{
}

/// Hyprland is asked first, then Sway, then X11, and the environment last.
pub proof fn law_sources_are_asked_in_order()
    ensures
        Probe::first() == Probe::Hyprland,
        Probe::Hyprland.next() == Some(Probe::Sway),
        Probe::Sway.next() == Some(Probe::X11),
        Probe::X11.next() == Some(Probe::Env),
        Probe::Env.next() is None,
{
}

/// A layout that was found has exactly the names that were found, both of them; and where no
/// names were found there is none.
pub proof fn law_found_layouts_carry_their_names(
    found: Option<KeyboardLayout>,
    names: Option<LayoutNames>,
)
    ensures
        crate::layout::same_find(found, names) <==> match (found, names) {
            (Some(layout), Some(n)) => layout.layout@ == n.layout && layout.variant@ == n.variant,
            (None, None) => true,
            _ => false,
        },
        found matches Some(layout) ==> layout@.layout == layout.layout@ && layout@.variant
            == layout.variant@,
{
}

} // verus!
