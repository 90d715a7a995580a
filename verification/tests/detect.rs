//! Detecting the layout from what a session reports.

use xkb_type::detect::{first_probe, next_step, DetectStep, Probe, ProbeReports};
use xkb_type::hyprland::{pick_layout, HyprlandKeyboard};
use xkb_type::layout::CommandOutput;
use xkb_type::sway::reported_layout_name;
use xkb_type::text::is_white_space;
use xkb_type::x11::{is_x11_session, parse_setxkbmap_query};
use xkb_type::KeyboardLayout;

fn said(stdout: &str) -> Option<CommandOutput> {
    Some(CommandOutput { success: true, stdout: stdout.as_bytes().to_vec() })
}

fn failed(stdout: &str) -> Option<CommandOutput> {
    Some(CommandOutput { success: false, stdout: stdout.as_bytes().to_vec() })
}

fn names(found: Option<KeyboardLayout>) -> Option<(String, String)> {
    found.map(|kl| (kl.layout, kl.variant))
}

fn some(layout: &str, variant: &str) -> Option<(String, String)> {
    Some((layout.to_string(), variant.to_string()))
}

fn silent() -> ProbeReports {
    ProbeReports {
        hyprctl: None,
        swaymsg: None,
        display_set: false,
        wayland_display_set: false,
        setxkbmap: None,
        xkb_default_layout: None,
        xkb_default_variant: None,
    }
}

const HYPRLAND: &str = r#"{
    "mice": [{"name": "at-mouse"}],
    "keyboards": [
        {"name": "power-button", "layout": "", "variant": ""},
        {"name": "usb-keyboard", "layout": "de", "variant": "neo"},
        {"name": "at-translated-set-2-keyboard", "layout": "us", "variant": "intl"}
    ]
}"#;

const SWAY: &str = r#"[
    {"type": "pointer", "xkb_active_layout_name": "none"},
    {"type": "keyboard"},
    {
        "type": "keyboard",
        "xkb_active_layout_name": "German",
        "xkb_layout_names": ["English (US)", "German"],
        "xkb_active_layout_index": 1
    }
]"#;

const QUERY: &str =
    "rules:      evdev\nmodel:      pc104\nlayout:     us\nvariant:    qwerty-fr\n";

#[test]
fn parse_x11_setxkbmap_query() {
    let layout = parse_setxkbmap_query(
        "rules:      evdev\nmodel:      pc104\nlayout:     us\nvariant:    qwerty-fr\n",
    )
    .unwrap();

    assert_eq!(layout.layout, "us");
    assert_eq!(layout.variant, "qwerty-fr");
}

/// Sway reports display names such as `"German"`, and not the names that XKB knows a layout by,
/// such as `"de"`: whatever it says, no layout is taken from it.
#[test]
fn from_sway_always_returns_none() {
    for output in [None, said(SWAY), failed(SWAY), said("[]"), said("no json")] {
        let result = KeyboardLayout::from_sway(output);
        assert!(
            result.is_none(),
            "from_sway must return None (display names ≠ XKB codes); got {result:?}"
        );
    }
}

#[test]
fn sway_names_the_active_layout_of_the_first_active_keyboard() {
    assert_eq!(reported_layout_name(said(SWAY)).as_deref(), Some("German"));
    assert_eq!(reported_layout_name(failed(SWAY)), None);
    assert_eq!(reported_layout_name(None), None);
    assert_eq!(reported_layout_name(said("{}")), None);
    assert_eq!(reported_layout_name(said("[")), None);
    assert_eq!(reported_layout_name(said("[]")), None);
    let keyboard = |rest: &str| {
        said(&format!("[{{\"type\":\"keyboard\",\"xkb_active_layout_name\":null{rest}}}]"))
    };
    let names = ",\"xkb_layout_names\":[\"A\",\"B\"]";
    assert_eq!(reported_layout_name(keyboard("")), None);
    assert_eq!(reported_layout_name(keyboard(names)).as_deref(), Some("A"));
    for (index, name) in [
        ("1", Some("B")),
        ("2", None),
        ("-1", Some("A")),
        ("1.0", Some("A")),
        ("\"1\"", Some("A")),
        ("18446744073709551615", None),
    ] {
        let rest = format!("{names},\"xkb_active_layout_index\":{index}");
        assert_eq!(reported_layout_name(keyboard(&rest)).as_deref(), name, "{index}");
    }
    assert_eq!(reported_layout_name(keyboard(",\"xkb_layout_names\":[7]")), None);
    assert_eq!(reported_layout_name(keyboard(",\"xkb_layout_names\":\"A\"")), None);
}

#[test]
fn hyprland_prefers_the_built_in_keyboard() {
    assert_eq!(names(KeyboardLayout::from_hyprland(said(HYPRLAND))), some("us", "intl"));
}

#[test]
fn hyprland_falls_back_to_the_first_keyboard_with_a_layout() {
    let answer = r#"{"keyboards": [
        {"name": "at-translated", "layout": ""},
        {"name": "first", "layout": "fr"},
        {"name": "second", "layout": "es", "variant": "dvorak"}
    ]}"#;
    assert_eq!(names(KeyboardLayout::from_hyprland(said(answer))), some("fr", ""));
}

#[test]
fn hyprland_answers_without_a_layout_name_nothing() {
    for answer in [
        "",
        "not json",
        "[]",
        "{}",
        r#"{"keyboards": {}}"#,
        r#"{"keyboards": []}"#,
        r#"{"keyboards": [{"name": "at-"}]}"#,
        r#"{"keyboards": [{"name": "at-", "layout": 7}, "us"]}"#,
    ] {
        assert_eq!(names(KeyboardLayout::from_hyprland(said(answer))), None, "{answer}");
    }
    assert_eq!(names(KeyboardLayout::from_hyprland(failed(HYPRLAND))), None);
    assert_eq!(names(KeyboardLayout::from_hyprland(None)), None);
}

#[test]
fn the_main_keyboard_is_told_by_its_name() {
    let keyboard = |name: &str, layout: &str| HyprlandKeyboard {
        name: name.to_string(),
        layout: layout.to_string(),
        variant: format!("of-{name}"),
    };
    let picked = |keyboards: Vec<HyprlandKeyboard>| names(pick_layout(&keyboards));
    assert_eq!(picked(vec![]), None);
    assert_eq!(picked(vec![keyboard("translated", "")]), None);
    assert_eq!(picked(vec![keyboard("a", "us"), keyboard("b", "de")]), some("us", "of-a"));
    assert_eq!(
        picked(vec![keyboard("a", "us"), keyboard("x-translated-y", "de")]),
        some("de", "of-x-translated-y")
    );
    assert_eq!(
        picked(vec![keyboard("a", "us"), keyboard("flat-one", "de"), keyboard("at-", "fr")]),
        some("de", "of-flat-one")
    );
    assert_eq!(
        picked(vec![keyboard("a", "us"), keyboard("at", "de"), keyboard("translate", "fr")]),
        some("us", "of-a")
    );
}

#[test]
fn queries_are_read_line_by_line() {
    let parse = |answer: &str| names(parse_setxkbmap_query(answer));
    assert_eq!(parse(""), None);
    assert_eq!(parse("layout"), None);
    assert_eq!(parse("layout:"), None);
    assert_eq!(parse("layout:   \n"), None);
    assert_eq!(parse("variant: intl\n"), None);
    assert_eq!(parse("Layout: us\n"), None);
    assert_eq!(parse("layouts: us\n"), None);
    assert_eq!(parse("layout:us"), some("us", ""));
    assert_eq!(parse("  layout : us , de \r\n"), some("us , de", ""));
    assert_eq!(parse("layout: a:b\n"), some("a:b", ""));
    assert_eq!(parse("layout: us\r"), some("us", ""));
    assert_eq!(parse("\u{3000}layout\u{a0}:\u{2003}us\u{85}"), some("us", ""));
    assert_eq!(parse("variant: x\n\nlayout: us\n"), some("us", "x"));
}

#[test]
fn of_several_lines_with_one_key_the_last_counts() {
    let parse = |answer: &str| names(parse_setxkbmap_query(answer));
    assert_eq!(parse("layout: us\nlayout: de\n"), some("de", ""));
    assert_eq!(parse("layout: us\nvariant: a\nvariant: b\nother: c\n"), some("us", "b"));
    assert_eq!(parse("layout: us\nlayout:\n"), None);
}

#[test]
fn white_space_is_that_of_unicode() {
    for v in 0..=0x10_ffff {
        if let Some(ch) = char::from_u32(v) {
            assert_eq!(is_white_space(ch), ch.is_whitespace(), "U+{v:04X}");
        }
    }
}

#[test]
fn setxkbmap_is_believed_on_x11_alone() {
    assert!(is_x11_session(true, false));
    assert!(!is_x11_session(true, true));
    assert!(!is_x11_session(false, false));
    assert!(!is_x11_session(false, true));
    assert_eq!(names(KeyboardLayout::from_x11(true, false, said(QUERY))), some("us", "qwerty-fr"));
    assert_eq!(names(KeyboardLayout::from_x11(true, true, said(QUERY))), None);
    assert_eq!(names(KeyboardLayout::from_x11(false, false, said(QUERY))), None);
    assert_eq!(names(KeyboardLayout::from_x11(true, false, failed(QUERY))), None);
    assert_eq!(names(KeyboardLayout::from_x11(true, false, None)), None);
}

#[test]
fn an_answer_that_is_not_utf8_names_nothing() {
    let mut stdout = b"layout: us\n".to_vec();
    let found = |stdout: Vec<u8>| {
        names(KeyboardLayout::from_x11(true, false, Some(CommandOutput { success: true, stdout })))
    };
    assert_eq!(found(stdout.clone()), some("us", ""));
    stdout.push(0xff);
    assert_eq!(found(stdout), None);
    assert_eq!(found("layout: é\n".as_bytes().to_vec()), some("é", ""));
}

#[test]
fn the_environment_names_a_layout_that_is_not_empty() {
    let env = |layout: Option<&str>, variant: Option<&str>| {
        names(KeyboardLayout::from_env(layout.map(str::to_string), variant.map(str::to_string)))
    };
    assert_eq!(env(Some("de"), Some("neo")), some("de", "neo"));
    assert_eq!(env(Some("de"), None), some("de", ""));
    assert_eq!(env(Some(""), Some("neo")), None);
    assert_eq!(env(None, Some("neo")), None);
}

#[test]
fn names_are_taken_as_they_are_given() {
    assert_eq!(names(Some(KeyboardLayout::from_names("us", Some("intl")))), some("us", "intl"));
    assert_eq!(names(Some(KeyboardLayout::from_names("us", None))), some("us", ""));
}

#[test]
fn sources_are_believed_in_order() {
    let detect = |reports: ProbeReports| {
        let kl = KeyboardLayout::detect(reports);
        (kl.layout, kl.variant)
    };
    let pair = |layout: &str, variant: &str| (layout.to_string(), variant.to_string());
    let mut reports = silent();
    assert_eq!(detect(reports.clone()), pair("", ""));
    reports.swaymsg = said(SWAY);
    assert_eq!(detect(reports.clone()), pair("", ""));
    reports.xkb_default_layout = Some("de".to_string());
    reports.xkb_default_variant = Some("neo".to_string());
    assert_eq!(detect(reports.clone()), pair("de", "neo"));
    reports.setxkbmap = said(QUERY);
    assert_eq!(detect(reports.clone()), pair("de", "neo"));
    reports.display_set = true;
    assert_eq!(detect(reports.clone()), pair("us", "qwerty-fr"));
    reports.wayland_display_set = true;
    assert_eq!(detect(reports.clone()), pair("de", "neo"));
    reports.hyprctl = said(HYPRLAND);
    assert_eq!(detect(reports), pair("us", "intl"));
}

#[test]
fn sources_are_asked_one_after_the_other() {
    let mut probe = first_probe();
    let mut asked = vec![probe];
    let detected = loop {
        match next_step(probe, None) {
            DetectStep::Ask(next) => {
                asked.push(next);
                probe = next;
            }
            DetectStep::Detected(kl) => break kl,
        }
    };
    assert_eq!(asked, vec![Probe::Hyprland, Probe::Sway, Probe::X11, Probe::Env]);
    assert_eq!((detected.layout.as_str(), detected.variant.as_str()), ("", ""));
    for probe in asked {
        match next_step(probe, Some(KeyboardLayout::from_names("us", Some("intl")))) {
            DetectStep::Detected(kl) => assert_eq!(names(Some(kl)), some("us", "intl")),
            DetectStep::Ask(next) => panic!("{next:?} asked after a find"),
        }
    }
}
