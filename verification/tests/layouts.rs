//! Characters of real layouts, and the taps that type them.

use xkb_type::keymap::{KeySymbols, LayoutSymbols, Symbol};
use xkb_type::{KeyboardLayout, KeymapTable, XkbKeymap};

/// The symbol that a character of a row stands for: U+E0xx for the keysym 0xFExx, which types
/// nothing by itself, and any other character for itself; `'\0'` for no character.
fn symbol(ch: char) -> Symbol {
    match ch as u32 {
        v @ 0xe000..=0xe0ff => Symbol { keysym: v - 0xe000 + 0xfe00, utf32: 0 },
        v if v < 0x100 => Symbol { keysym: v, utf32: v },
        v => Symbol { keysym: 0x0100_0000 | v, utf32: v },
    }
}

/// The keymap with one layout whose rows give, for an XKB keycode, one symbol for each level.
fn table(rows: &[(u32, &str)]) -> KeymapTable {
    let mut keys = Vec::new();
    for keycode in 9..=108 {
        let row = rows.iter().find(|(k, _)| *k == keycode).map_or("", |(_, row)| *row);
        let levels = row.chars().map(|ch| vec![symbol(ch)]).collect();
        keys.push(KeySymbols { layouts: vec![LayoutSymbols { levels }] });
    }
    KeymapTable { min_keycode: 9, keys }
}

/// The compiled keymap of a layout.
fn compiled(layout: &str, variant: &str) -> KeymapTable {
    table(match (layout, variant) {
        ("us", "") => US,
        ("us", "qwerty-fr") => US_QWERTY_FR,
        ("us", "intl") => US_INTL,
        ("us", "dvorak") => US_DVORAK,
        ("us", "colemak") => US_COLEMAK,
        ("de", "") => GERMAN,
        ("ch", "") => SWISS,
        ("cz", "") => CZECH,
        ("sk", "") => SLOVAK,
        ("hu", "") => HUNGARIAN,
        ("fr", "") => FRENCH,
        ("be", "") => BELGIAN,
        ("es", "") => SPANISH,
        ("pt", "") => PORTUGUESE,
        ("it", "") => ITALIAN,
        ("gb", "") => UK,
        ("se", "") => SWEDISH,
        ("no", "") => NORWEGIAN,
        ("dk", "") => DANISH,
        ("fi", "") => FINNISH,
        ("pl", "") => POLISH,
        ("ru", "") => RUSSIAN,
        ("ua", "") => UKRAINIAN,
        ("gr", "") => GREEK,
        ("jp", "") => JAPANESE,
        _ => panic!("no keymap for {layout}:{variant}"),
    })
}

fn layout(name: &str, variant: &str) -> KeyboardLayout {
    KeyboardLayout { layout: name.to_string(), variant: variant.to_string() }
}

fn us_layout() -> KeyboardLayout {
    layout("us", "")
}

fn keymap_of(layout: &KeyboardLayout) -> Result<XkbKeymap, xkb_type::KeymapError> {
    XkbKeymap::from_layout(layout, Some(&compiled(&layout.layout, &layout.variant)))
}

fn assert_key(
    km: &XkbKeymap,
    ch: char,
    expected_keycode: u16,
    expected_shift: bool,
    label: &str,
) {
    assert_key_full(km, ch, expected_keycode, expected_shift, false, label);
}

fn assert_key_full(
    km: &XkbKeymap,
    ch: char,
    expected_keycode: u16,
    expected_shift: bool,
    expected_altgr: bool,
    label: &str,
) {
    let mapping = km
        .lookup(ch)
        .unwrap_or_else(|| panic!("'{ch}' should be in {label} keymap"));
    assert_eq!(
        mapping.main.keycode, expected_keycode,
        "'{ch}' should be at evdev {expected_keycode} on {label}, got {}",
        mapping.main.keycode
    );
    assert_eq!(
        mapping.main.shift, expected_shift,
        "'{ch}' shift should be {expected_shift} on {label}"
    );
    assert_eq!(
        mapping.main.altgr, expected_altgr,
        "'{ch}' altgr should be {expected_altgr} on {label}"
    );
}

#[test]
fn build_us_keymap() {
    let km = keymap_of(&us_layout());
    if let Ok(km) = km {
        assert!(!km.is_empty(), "keymap should not be empty");
        assert!(km.lookup('a').is_some(), "'a' should be in the keymap");
    }
}

#[test]
fn us_qwerty_fr_typeable_via_uinput() {
    let km = keymap_of(&layout("us", "qwerty-fr")).unwrap();

    // AltGr lives behind a dedicated `<LVL3>` keycode that is not KEY_RIGHTALT. Which one it is
    // is up to XKB.
    assert_ne!(
        km.level3_keycode(),
        evdev::Key::KEY_RIGHTALT.code(),
        "us:qwerty-fr must use the dedicated XKB <LVL3> keycode for \
         AltGr, not KEY_RIGHTALT"
    );
    assert_key_full(&km, 'é', 17, false, true, "US qwerty-fr");

    for ch in ['ç', 'à', 'é', 'è', 'ù'] {
        assert!(
            km.lookup(ch).is_some(),
            "'{ch}' must be reachable via uinput on us:qwerty-fr"
        );
    }
}

#[test]
fn shift_mapping_for_uppercase() {
    let km = keymap_of(&us_layout());
    if let Ok(km) = km {
        if let Some(mapping) = km.lookup('A') {
            assert!(
                mapping.main.shift,
                "uppercase 'A' should require shift on standard layouts"
            );
        }
    }
}

// --- QWERTZ family (y/z swapped) ---

#[test]
fn german_layout() {
    let km = keymap_of(&layout("de", "")).unwrap();
    assert_key(&km, 'z', 21, false, "German");
    assert_key(&km, 'y', 44, false, "German");
}

#[test]
fn swiss_layout() {
    let km = keymap_of(&layout("ch", "")).unwrap();
    assert_key(&km, 'z', 21, false, "Swiss");
    assert_key(&km, 'y', 44, false, "Swiss");
}

#[test]
fn czech_layout() {
    let km = keymap_of(&layout("cz", "")).unwrap();
    assert_key(&km, 'z', 21, false, "Czech");
    assert_key(&km, 'y', 44, false, "Czech");
    assert_key(&km, 'ů', 39, false, "Czech");
}

#[test]
fn slovak_layout() {
    let km = keymap_of(&layout("sk", "")).unwrap();
    assert_key(&km, 'z', 21, false, "Slovak");
    assert_key(&km, 'y', 44, false, "Slovak");
    assert_key(&km, 'ô', 39, false, "Slovak");
}

#[test]
fn hungarian_layout() {
    let km = keymap_of(&layout("hu", "")).unwrap();
    assert_key(&km, 'z', 21, false, "Hungarian");
    assert_key(&km, 'y', 44, false, "Hungarian");
    assert_key(&km, 'ö', 11, false, "Hungarian");
    assert_key(&km, 'ü', 12, false, "Hungarian");
}

// --- AZERTY family (a/q and z/w swapped) ---

#[test]
fn french_layout() {
    let km = keymap_of(&layout("fr", "")).unwrap();
    assert_key(&km, 'a', 16, false, "French");
    assert_key(&km, 'q', 30, false, "French");
    assert_key(&km, 'z', 17, false, "French");
    assert_key(&km, 'w', 44, false, "French");
}

#[test]
fn belgian_layout() {
    let km = keymap_of(&layout("be", "")).unwrap();
    assert_key(&km, 'a', 16, false, "Belgian");
    assert_key(&km, 'q', 30, false, "Belgian");
    assert_key(&km, 'z', 17, false, "Belgian");
    assert_key(&km, 'w', 44, false, "Belgian");
    assert_key(&km, 'm', 39, false, "Belgian");
}

// --- QWERTY-based with special characters ---

#[test]
fn spanish_layout() {
    let km = keymap_of(&layout("es", "")).unwrap();
    assert_key(&km, 'ñ', 39, false, "Spanish");
}

#[test]
fn portuguese_layout() {
    let km = keymap_of(&layout("pt", "")).unwrap();
    assert_key(&km, 'a', 30, false, "Portuguese");
    assert_key(&km, 'z', 44, false, "Portuguese");
    assert_key(&km, 'q', 16, false, "Portuguese");
}

#[test]
fn italian_layout() {
    let km = keymap_of(&layout("it", "")).unwrap();
    assert_key(&km, 'a', 30, false, "Italian");
    assert_key(&km, 'z', 44, false, "Italian");
    assert_key(&km, 'q', 16, false, "Italian");
    assert_key(&km, 'w', 17, false, "Italian");
}

#[test]
fn uk_layout() {
    let km = keymap_of(&layout("gb", "")).unwrap();
    assert_key(&km, 'a', 30, false, "UK");
    assert_key(&km, 'z', 44, false, "UK");
    // UK has '#' without shift (evdev 43), unlike US where it's Shift+3.
    assert_key(&km, '#', 43, false, "UK");
    assert_key(&km, '£', 4, true, "UK");
}

// --- Nordic layouts ---

#[test]
fn swedish_layout() {
    let km = keymap_of(&layout("se", "")).unwrap();
    assert_key(&km, 'ö', 39, false, "Swedish");
    assert_key(&km, 'ä', 40, false, "Swedish");
}

#[test]
fn norwegian_layout() {
    let km = keymap_of(&layout("no", "")).unwrap();
    assert_key(&km, 'ø', 39, false, "Norwegian");
    assert_key(&km, 'æ', 40, false, "Norwegian");
}

#[test]
fn danish_layout() {
    let km = keymap_of(&layout("dk", "")).unwrap();
    assert_key(&km, 'ø', 40, false, "Danish");
    assert_key(&km, 'æ', 39, false, "Danish");
}

#[test]
fn finnish_layout() {
    let km = keymap_of(&layout("fi", "")).unwrap();
    assert_key(&km, 'ö', 39, false, "Finnish");
    assert_key(&km, 'ä', 40, false, "Finnish");
}

// --- Eastern European ---

#[test]
fn polish_layout() {
    let km = keymap_of(&layout("pl", "")).unwrap();
    assert_key(&km, 'a', 30, false, "Polish");
    assert_key(&km, 'z', 44, false, "Polish");
    // Polish accented characters live at level 2 (AltGr) and now go
    // through uinput directly, no clipboard fallback needed.
    assert_key_full(&km, 'ą', 30, false, true, "Polish");
    assert_key_full(&km, 'ę', 18, false, true, "Polish");
}

#[test]
fn us_intl_typeable_via_uinput() {
    let km = keymap_of(&KeyboardLayout {
        layout: "us".to_string(),
        variant: "intl".to_string(),
    })
    .unwrap();
    // Every character that previously had to fall back to clipboard
    // paste (and was therefore broken in terminals like Alacritty)
    // must now have a direct uinput route — either as a level 2/3
    // AltGr key, or via the dead-key + Space fallback table.
    for ch in [
        '\'', '"', '~', '`', '^', 'ç', 'á', 'é', 'í', 'ó', 'ú', 'ã', 'ñ',
    ] {
        assert!(
            km.lookup(ch).is_some(),
            "'{ch}' must be reachable via uinput on us:intl, got no mapping"
        );
    }
}

// --- Synthesis routing (locks in direct vs dead-key+follow paths) ---

/// Pass 1 (literal accent via `dead_X + Space`): for each of the
/// chars Pass 1 covers, on us:intl the char must be reachable, and
/// — if it ended up routed through synthesis rather than a direct
/// level mapping — the follow tap must be unmodified Space.
/// Whether any specific char is direct vs synthesized is layout-
/// dependent (us:intl puts some literal accents at level 2 directly),
/// but the invariant holds: synthesized routes always end with Space.
#[test]
fn us_intl_pass1_chars_synthesized_routes_end_with_space() {
    let km = keymap_of(&KeyboardLayout {
        layout: "us".to_string(),
        variant: "intl".to_string(),
    })
    .unwrap();
    for ch in ['\'', '"', '~', '`', '^'] {
        let mapping = km
            .lookup(ch)
            .unwrap_or_else(|| panic!("'{ch}' must be reachable on us:intl"));
        if let Some(follow) = mapping.follow {
            assert_eq!(
                follow.keycode,
                evdev::Key::KEY_SPACE.code(),
                "'{ch}' was synthesized; follow tap must be SPACE \
                 (dead_X + space sequence)"
            );
            assert!(
                !follow.shift && !follow.altgr,
                "'{ch}' synthesis follow tap must be unmodified SPACE"
            );
        }
    }
}

/// Pass 2 (accented letter via `dead_X + base_letter`): `ã` is not
/// reachable at any level on us:intl, so it must be synthesized as
/// `dead_tilde + a`. This is the deterministic test that proves
/// Pass 2 actually fires; the Polish/Spanish tests below cover the
/// no-overwrite invariant for layouts that do expose the char
/// directly.
#[test]
fn us_intl_tilde_letter_uses_dead_key_synthesis() {
    let km = keymap_of(&KeyboardLayout {
        layout: "us".to_string(),
        variant: "intl".to_string(),
    })
    .unwrap();
    let a_main = km.lookup('a').expect("'a' must be in keymap").main;
    let mapping = km.lookup('ã').expect("ã must be reachable on us:intl");
    let follow = mapping.follow.expect(
        "ã on us:intl must be synthesized via dead_tilde + a — \
         the literal char is not at any level on this layout",
    );
    assert_eq!(
        follow.keycode, a_main.keycode,
        "ã follow tap must target the same evdev keycode as 'a' \
         (dead_tilde + a sequence)"
    );
}

/// Polish exposes `ą` at level 2 directly. The synthesis pass MUST
/// NOT overwrite that direct entry — `ą` must keep `follow=None`
/// and use AltGr, not synthesize via dead_ogonek + a.
#[test]
fn polish_accented_letter_is_direct_not_synthesized() {
    let km = keymap_of(&layout("pl", "")).unwrap();
    let mapping = km.lookup('ą').expect("ą must be reachable on Polish");
    assert!(
        mapping.follow.is_none(),
        "ą on Polish must be a direct AltGr tap, not synthesized — \
         synthesis pass must not overwrite a direct mapping"
    );
    assert!(mapping.main.altgr, "ą on Polish must hold AltGr");
}

/// Spanish exposes `ñ` at level 0 directly (it's on the dedicated
/// `ñ` key). Even though `ñ` is in `ACCENTED_VIA_DEAD_KEY`, the
/// synthesis pass must skip it because the direct entry already
/// exists — locks in the cross-layout no-overwrite invariant.
#[test]
fn spanish_enye_is_direct_not_synthesized() {
    let km = keymap_of(&layout("es", "")).unwrap();
    let mapping = km.lookup('ñ').expect("ñ must be reachable on Spanish");
    assert!(
        mapping.follow.is_none(),
        "ñ on Spanish must be a direct level-0 tap, not synthesized — \
         synthesis pass must not overwrite even when the char is in \
         the synthesis table"
    );
    assert!(
        !mapping.main.altgr && !mapping.main.shift,
        "ñ on Spanish is on a dedicated key — no modifiers required"
    );
}

// --- Alternative Latin layouts ---

#[test]
fn dvorak_layout() {
    let km = keymap_of(&layout("us", "dvorak")).unwrap();
    assert_key(&km, 'o', 31, false, "Dvorak");
    assert_key(&km, 'e', 32, false, "Dvorak");
    assert_key(&km, 's', 39, false, "Dvorak");
}

#[test]
fn colemak_layout() {
    let km = keymap_of(&layout("us", "colemak")).unwrap();
    assert_key(&km, 'f', 18, false, "Colemak");
    assert_key(&km, 'n', 36, false, "Colemak");
    assert_key(&km, 's', 32, false, "Colemak");
}

// --- Non-Latin layouts ---

#[test]
fn russian_layout() {
    let km = keymap_of(&layout("ru", "")).unwrap();
    assert_key(&km, 'ф', 30, false, "Russian");
    assert_key(&km, 'я', 44, false, "Russian");
    assert_key(&km, 'й', 16, false, "Russian");
    assert_key(&km, 'ц', 17, false, "Russian");
}

#[test]
fn ukrainian_layout() {
    let km = keymap_of(&layout("ua", "")).unwrap();
    assert_key(&km, 'ф', 30, false, "Ukrainian");
    assert_key(&km, 'я', 44, false, "Ukrainian");
    assert_key(&km, 'й', 16, false, "Ukrainian");
    assert_key(&km, 'і', 31, false, "Ukrainian");
}

#[test]
fn greek_layout() {
    let km = keymap_of(&layout("gr", "")).unwrap();
    assert_key(&km, 'α', 30, false, "Greek");
    assert_key(&km, 'ζ', 44, false, "Greek");
    assert_key(&km, 'ω', 47, false, "Greek");
}

#[test]
fn japanese_layout() {
    // Japanese (jp) is QWERTY-based for Latin characters.
    let km = keymap_of(&layout("jp", "")).unwrap();
    assert_key(&km, 'a', 30, false, "Japanese");
    assert_key(&km, 'z', 44, false, "Japanese");
}

// What the keys of each layout give, by XKB keycode: one character for each level.

/// The layout `us`.
const US: &[(u32, &str)] = &[
    (9, "\u{1b}"), (10, "1!"), (11, "2@"), (12, "3#"), (13, "4$"), (14, "5%"), (15, "6^"),
    (16, "7&"), (17, "8*"), (18, "9("), (19, "0)"), (20, "-_"), (21, "=+"), (22, "\u{8}\u{8}"),
    (23, "\u{9}\0"), (24, "qQ"), (25, "wW"), (26, "eE"), (27, "rR"), (28, "tT"), (29, "yY"),
    (30, "uU"), (31, "iI"), (32, "oO"), (33, "pP"), (34, "[{"), (35, "]}"), (36, "\u{d}"),
    (38, "aA"), (39, "sS"), (40, "dD"), (41, "fF"), (42, "gG"), (43, "hH"), (44, "jJ"),
    (45, "kK"), (46, "lL"), (47, ";:"), (48, "'\""), (49, "`~"), (51, "\\|"), (52, "zZ"),
    (53, "xX"), (54, "cC"), (55, "vV"), (56, "bB"), (57, "nN"), (58, "mM"), (59, ",<"),
    (60, ".>"), (61, "/?"), (63, "****\0"), (65, " "), (79, "\07"), (80, "\08"), (81, "\09"),
    (82, "----\0"), (83, "\04"), (84, "\05"), (85, "\06"), (86, "++++\0"), (87, "\01"),
    (88, "\02"), (89, "\03"), (90, "\00"), (91, "\0."), (92, "\u{e003}"), (94, "<>|¦"),
    (104, "\u{d}"), (106, "////\0"),
];

/// The layout `us:qwerty-fr`.
const US_QWERTY_FR: &[(u32, &str)] = &[
    (9, "\u{1b}"), (10, "1!"), (11, "2@"), (12, "3#"), (13, "4$"), (14, "5%"), (15, "6^"),
    (16, "7&"), (17, "8*"), (18, "9("), (19, "0)"), (20, "-_"), (21, "=+"), (22, "\u{8}\u{8}"),
    (23, "\u{9}\0"), (24, "qQ"), (25, "wWéÉ"), (26, "eEèÈ"), (27, "rR"), (28, "tT"), (29, "yY"),
    (30, "uUùÙ"), (31, "iI"), (32, "oO"), (33, "pP"), (34, "[{"), (35, "]}"), (36, "\u{d}"),
    (38, "aAàÀ"), (39, "sS"), (40, "dD"), (41, "fF"), (42, "gG"), (43, "hH"), (44, "jJ"),
    (45, "kK"), (46, "lL"), (47, ";:"), (48, "'\""), (49, "`~"), (51, "\\|"), (52, "zZ"),
    (53, "xX"), (54, "cCçÇ"), (55, "vV"), (56, "bB"), (57, "nN"), (58, "mM"), (59, ",<"),
    (60, ".>"), (61, "/?"), (63, "****\0"), (65, " "), (79, "\07"), (80, "\08"), (81, "\09"),
    (82, "----\0"), (83, "\04"), (84, "\05"), (85, "\06"), (86, "++++\0"), (87, "\01"),
    (88, "\02"), (89, "\03"), (90, "\00"), (91, "\0."), (92, "\u{e003}"), (94, "<>|¦"),
    (104, "\u{d}"), (106, "////\0"),
];

/// The layout `us:intl`.
const US_INTL: &[(u32, &str)] = &[
    (9, "\u{1b}"), (10, "1!¡¹"), (11, "2@²\u{e059}"), (12, "3#³\u{e054}"), (13, "4$¤£"),
    (14, "5%€\u{e05b}"), (15, "6\u{e052}¼^"), (16, "7&½\u{e062}"), (17, "8*¾\u{e05c}"),
    (18, "9(‘\u{e055}"), (19, "0)’\u{e058}"), (20, "-_¥\u{e060}"), (21, "=+×÷"),
    (22, "\u{8}\u{8}"), (23, "\u{9}\0"), (24, "qQäÄ"), (25, "wWåÅ"), (26, "eEéÉ"), (27, "rR®®"),
    (28, "tTþÞ"), (29, "yYüÜ"), (30, "uUúÚ"), (31, "iIíÍ"), (32, "oOóÓ"), (33, "pPöÖ"),
    (34, "[{«“"), (35, "]}»”"), (36, "\u{d}"), (38, "aAáÁ"), (39, "sSß§"), (40, "dDðÐ"),
    (41, "fFfF"), (42, "gGgG"), (43, "hHhH"), (44, "jJjJ"), (45, "kKœŒ"), (46, "lLøØ"),
    (47, ";:¶°"), (48, "\u{e051}\u{e057}'\""), (49, "\u{e050}\u{e053}`~"), (51, "\\|¬¦"),
    (52, "zZæÆ"), (53, "xXxX"), (54, "cC©¢"), (55, "vVvV"), (56, "bBbB"), (57, "nNñÑ"),
    (58, "mMµµ"), (59, ",<çÇ"), (60, ".>\u{e056}\u{e05a}"), (61, "/?¿\u{e061}"), (63, "****\0"),
    (65, " "), (79, "\07"), (80, "\08"), (81, "\09"), (82, "----\0"), (83, "\04"), (84, "\05"),
    (85, "\06"), (86, "++++\0"), (87, "\01"), (88, "\02"), (89, "\03"), (90, "\00"), (91, "\0."),
    (92, "\u{e003}"), (94, "\\|\\|"), (104, "\u{d}"), (106, "////\0"), (108, "\u{e003}"),
];

/// The layout `us:dvorak`.
const US_DVORAK: &[(u32, &str)] = &[
    (9, "\u{1b}"), (10, "1!"), (11, "2@"), (12, "3#"), (13, "4$"), (14, "5%"),
    (15, "6^\u{e052}\u{e052}"), (16, "7&"), (17, "8*"), (18, "9(\u{e050}\u{e055}"), (19, "0)"),
    (20, "[{"), (21, "]}\u{e053}\0"), (22, "\u{8}\u{8}"), (23, "\u{9}\0"),
    (24, "'\"\u{e051}\u{e057}"), (25, ",<\u{e05b}\u{e05a}"), (26, ".>\u{e056}·"), (27, "pP"),
    (28, "yY"), (29, "fF"), (30, "gG"), (31, "cC"), (32, "rR"), (33, "lL"), (34, "/?"),
    (35, "=+"), (36, "\u{d}"), (38, "aA"), (39, "oO"), (40, "eE"), (41, "uU"), (42, "iI"),
    (43, "dD"), (44, "hH"), (45, "tT"), (46, "nN"), (47, "sS"), (48, "-_"),
    (49, "`~\u{e050}\u{e053}"), (51, "\\|"), (52, ";:\u{e05c}\u{e059}"), (53, "qQ"), (54, "jJ"),
    (55, "kK"), (56, "xX"), (57, "bB"), (58, "mM"), (59, "wW"), (60, "vV"), (61, "zZ"),
    (63, "****\0"), (65, " "), (79, "\07"), (80, "\08"), (81, "\09"), (82, "----\0"), (83, "\04"),
    (84, "\05"), (85, "\06"), (86, "++++\0"), (87, "\01"), (88, "\02"), (89, "\03"), (90, "\00"),
    (91, "\0."), (92, "\u{e003}"), (94, "<>|¦"), (104, "\u{d}"), (106, "////\0"),
];

/// The layout `us:colemak`.
const US_COLEMAK: &[(u32, &str)] = &[
    (9, "\u{1b}"), (10, "1!¡¹"), (11, "2@º²"), (12, "3#ª³"), (13, "4$¢£"), (14, "5%€¥"),
    (15, "6^ħĦ"), (16, "7&ðÐ"), (17, "8*þÞ"), (18, "9(‘“"), (19, "0)’”"), (20, "-_–—"),
    (21, "=+×÷"), (22, "\u{8}\u{8}"), (23, "\u{9}\0"), (24, "qQäÄ"), (25, "wWåÅ"), (26, "fFãÃ"),
    (27, "pPøØ"), (28, "gG\u{e05c}~"), (29, "jJđĐ"), (30, "lLłŁ"), (31, "uUúÚ"), (32, "yYüÜ"),
    (33, ";:öÖ"), (34, "[{«‹"), (35, "]}»›"), (36, "\u{d}"), (38, "aAáÁ"), (39, "rR\u{e050}~"),
    (40, "sSßẞ"), (41, "tT\u{e051}\u{e059}"), (42, "dD\u{e057}~"), (43, "hH\u{e05a}~"),
    (44, "nNñÑ"), (45, "eEéÉ"), (46, "iIíÍ"), (47, "oOóÓ"), (48, "'\"õÕ"), (49, "`~\u{e053}~"),
    (51, "\\|~~"), (52, "zZæÆ"), (53, "xX\u{e052}~"), (54, "cCçÇ"), (55, "vVœŒ"),
    (56, "bB\u{e055}~"), (57, "kK\u{e058}~"), (58, "mM\u{e054}~"), (59, ",<\u{e05b}~"),
    (60, ".>\u{e056}~"), (61, "/?¿~"), (63, "****\0"), (65, "   \u{a0}"),
    (66, "\u{8}\u{8}\u{8}\u{8}"), (79, "\07"), (80, "\08"), (81, "\09"), (82, "----\0"),
    (83, "\04"), (84, "\05"), (85, "\06"), (86, "++++\0"), (87, "\01"), (88, "\02"), (89, "\03"),
    (90, "\00"), (91, "\0."), (92, "\u{e003}"), (94, "-_–—"), (104, "\u{d}"), (106, "////\0"),
    (108, "\u{e003}"),
];

/// The layout `de`.
const GERMAN: &[(u32, &str)] = &[
    (9, "\u{1b}"), (10, "1!¹¡"), (11, "2\"²⅛"), (12, "3§³£"), (13, "4$¼¤"), (14, "5%½⅜"),
    (15, "6&¬⅝"), (16, "7/{⅞"), (17, "8([™"), (18, "9)]±"), (19, "0=}°"), (20, "ß?\\¿ẞ"),
    (21, "\u{e051}\u{e050}\u{e05b}\u{e05c}"), (22, "\u{8}\u{8}"), (23, "\u{9}\0"), (24, "qQ@Ω"),
    (25, "wWſ§"), (26, "eE€€"), (27, "rR¶®"), (28, "tTŧŦ"), (29, "zZ←¥"), (30, "uU↓↑"),
    (31, "iI→ı"), (32, "oOøØ"), (33, "pPþÞ"), (34, "üÜ\u{e057}\u{e058}"), (35, "+*~¯"),
    (36, "\u{d}"), (38, "aAæÆ"), (39, "sSſẞ"), (40, "dDðÐ"), (41, "fFđª"), (42, "gGŋŊ"),
    (43, "hHħĦ"), (44, "jJ\u{e060}\u{e056}"), (45, "kKĸ&"), (46, "lLłŁ"),
    (47, "öÖ\u{e059}\u{e060}"), (48, "äÄ\u{e052}\u{e05a}"), (49, "\u{e052}°′″"),
    (51, "#'’\u{e055}"), (52, "yY»›"), (53, "xX«‹"), (54, "cC¢©"), (55, "vV„‚"), (56, "bB“‘"),
    (57, "nN”’"), (58, "mMµº"), (59, ",;·×"), (60, ".:…÷"), (61, "-_–—"), (63, "****\0"),
    (65, " "), (79, "\07"), (80, "\08"), (81, "\09"), (82, "----\0"), (83, "\04"), (84, "\05"),
    (85, "\06"), (86, "++++\0"), (87, "\01"), (88, "\02"), (89, "\03"), (90, "\00"), (91, "\0,"),
    (92, "\u{e003}"), (94, "<>|\u{e068}"), (104, "\u{d}"), (106, "////\0"), (108, "\u{e003}"),
];

/// The layout `ch`.
const SWISS: &[(u32, &str)] = &[
    (9, "\u{1b}"), (10, "1+|¡"), (11, "2\"@⅛"), (12, "3*#£"), (13, "4ç¼$"), (14, "5%½⅜"),
    (15, "6&¬⅝"), (16, "7/|⅞"), (17, "8(¢™"), (18, "9)]±"), (19, "0=}°"), (20, "'?\u{e051}¿"),
    (21, "\u{e052}\u{e050}\u{e053}\u{e05c}"), (22, "\u{8}\u{8}"), (23, "\u{9}\0"), (24, "qQ@Ω"),
    (25, "wWſ§"), (26, "eE€E"), (27, "rR¶®"), (28, "tTŧŦ"), (29, "zZ←¥"), (30, "uU↓↑"),
    (31, "iI→ı"), (32, "oOœŒ"), (33, "pPþÞ"), (34, "üè[\u{e058}"), (35, "\u{e057}!]\u{e054}"),
    (36, "\u{d}"), (38, "aAæÆ"), (39, "sSßẞ"), (40, "dDðÐ"), (41, "fFđª"), (42, "gGŋŊ"),
    (43, "hHħĦ"), (44, "jJ\u{e061}\u{e062}"), (45, "kKĸ&"), (46, "lLłŁ"),
    (47, "öé\u{e051}\u{e059}"), (48, "äà{\u{e05a}"), (49, "§°¬¬"), (51, "$£}\u{e055}"),
    (52, "yY«<"), (53, "xX»>"), (54, "cC¢©"), (55, "vV„‚"), (56, "bB“‘"), (57, "nN”’"),
    (58, "mMµº"), (59, ",;•×"), (60, ".:·÷"), (61, "-_\u{e060}\u{e056}"), (63, "****\0"),
    (65, " "), (79, "\07"), (80, "\08"), (81, "\09"), (82, "----\0"), (83, "\04"), (84, "\05"),
    (85, "\06"), (86, "++++\0"), (87, "\01"), (88, "\02"), (89, "\03"), (90, "\00"), (91, "\0."),
    (92, "\u{e003}"), (94, "<>\\¦"), (104, "\u{d}"), (106, "////\0"), (108, "\u{e003}"),
];

/// The layout `cz`.
const CZECH: &[(u32, &str)] = &[
    (9, "\u{1b}"), (10, "+1!\u{e053}"), (11, "ě2@\u{e05a}"), (12, "š3#\u{e052}"),
    (13, "č4$\u{e055}"), (14, "ř5%\u{e058}"), (15, "ž6^\u{e05c}"), (16, "ý7&\u{e050}"),
    (17, "á8*\u{e056}"), (18, "í9{\u{e051}"), (19, "é0}\u{e059}"), (20, "=%\\\u{e057}"),
    (21, "\u{e051}\u{e05a}\u{e054}\u{e05b}"), (22, "\u{8}\u{8}"), (23, "\u{9}\0"), (24, "qQ\\Ω"),
    (25, "wW|§"), (26, "eE€E"), (27, "rR¶®"), (28, "tTŧŦ"), (29, "zZ←¥"), (30, "uU↓↑"),
    (31, "iI→ı"), (32, "oOøØ"), (33, "pPþÞ"), (34, "ú/[÷"), (35, ")(]×"), (36, "\u{d}"),
    (38, "aA~Æ"), (39, "sSđẞ"), (40, "dDĐÐ"), (41, "fF[ª"), (42, "gG]Ŋ"), (43, "hH`Ħ"),
    (44, "jJ'\u{e062}"), (45, "kKł&"), (46, "lLŁŁ"), (47, "ů\"$\u{e059}"), (48, "§!'ß"),
    (49, ";\u{e058}`~"), (51, "\u{e057}'\\|"), (52, "yY°<"), (53, "xX#>"), (54, "cC&©"),
    (55, "vV@‚"), (56, "bB{‘"), (57, "nN}’"), (58, "mM^º"), (59, ",?<×"), (60, ".:>÷"),
    (61, "-_*\u{e056}"), (63, "****\0"), (65, "    "), (79, "\07"), (80, "\08"), (81, "\09"),
    (82, "----\0"), (83, "\04"), (84, "\05"), (85, "\06"), (86, "++++\0"), (87, "\01"),
    (88, "\02"), (89, "\03"), (90, "\00"), (91, "\0."), (92, "\u{e003}"), (94, "\\|/¦"),
    (104, "\u{d}"), (106, "////\0"), (108, "\u{e003}"),
];

/// The layout `sk`.
const SLOVAK: &[(u32, &str)] = &[
    (9, "\u{1b}"), (10, "+1!\u{e053}"), (11, "ľ2@\u{e05a}"), (12, "š3#\u{e052}"),
    (13, "č4$\u{e055}"), (14, "ť5%\u{e058}"), (15, "ž6^\u{e05c}"), (16, "ý7&\u{e050}"),
    (17, "á8*\u{e056}"), (18, "í9{\u{e051}"), (19, "é0}\u{e059}"), (20, "=%\\\u{e057}"),
    (21, "\u{e051}\u{e05a}\u{e054}\u{e05b}"), (22, "\u{8}\u{8}"), (23, "\u{9}\0"), (24, "qQ\\Ω"),
    (25, "wW|§"), (26, "eE€E"), (27, "rR¶®"), (28, "tTŧŦ"), (29, "zZ←¥"), (30, "uU↓↑"),
    (31, "iI→ı"), (32, "oOøØ"), (33, "pPþÞ"), (34, "ú/[÷"), (35, "ä(]×"), (36, "\u{d}"),
    (38, "aA~Æ"), (39, "sSđẞ"), (40, "dDĐÐ"), (41, "fF[ª"), (42, "gG]Ŋ"), (43, "hH`Ħ"),
    (44, "jJ'\u{e062}"), (45, "kKł&"), (46, "lLŁŁ"), (47, "ô\"$\u{e059}"), (48, "§!'ß"),
    (49, ";\u{e058}`~"), (51, "ň)\\|"), (52, "yY°<"), (53, "xX#>"), (54, "cC&©"), (55, "vV@‚"),
    (56, "bB{‘"), (57, "nN}’"), (58, "mM^º"), (59, ",?<×"), (60, ".:>÷"), (61, "-_*\u{e056}"),
    (63, "****\0"), (65, "  \u{a0}\u{a0}"), (79, "\07"), (80, "\08"), (81, "\09"), (82, "----\0"),
    (83, "\04"), (84, "\05"), (85, "\06"), (86, "++++\0"), (87, "\01"), (88, "\02"), (89, "\03"),
    (90, "\00"), (91, "\0."), (92, "\u{e003}"), (94, "\\|/¦"), (104, "\u{d}"), (106, "////\0"),
    (108, "\u{e003}"),
];

/// The layout `hu`.
const HUNGARIAN: &[(u32, &str)] = &[
    (9, "\u{1b}"), (10, "1'~\u{e053}"), (11, "2\"\u{e05a}ˇ"), (12, "3+^\u{e052}"),
    (13, "4!\u{e055}˘"), (14, "5%\u{e058}°"), (15, "6/\u{e05c}˛"), (16, "7=`\u{e050}"),
    (17, "8(\u{e056}˙"), (18, "9)\u{e051}´"), (19, "öÖ\u{e059}˝"), (20, "üÜ\u{e057}¨"),
    (21, "óÓ\u{e05b}¸"), (22, "\u{8}\u{8}"), (23, "\u{9}\0"), (24, "qQ\\Ω"), (25, "wW|§"),
    (26, "eEÄE"), (27, "rR¶®"), (28, "tTŧŦ"), (29, "zZ–¥"), (30, "uU€↑"), (31, "iIÍí"),
    (32, "oO„Ø"), (33, "pP”Þ"), (34, "őŐ÷\u{e058}"), (35, "úÚ×\u{e054}"), (36, "\u{d}"),
    (38, "aAäÄ"), (39, "sSđẞ"), (40, "dDĐÐ"), (41, "fF[ª"), (42, "gG]Ŋ"), (43, "hHħĦ"),
    (44, "jJíÍ"), (45, "kKł&"), (46, "lLŁŁ"), (47, "éÉ$¢"), (48, "áÁßẞ"), (49, "0§¬¬"),
    (51, "űŰ¤\u{e055}"), (52, "yY><"), (53, "xX#>"), (54, "cC&©"), (55, "vV@‚"), (56, "bB{‘"),
    (57, "nN}’"), (58, "mM<º"), (59, ",?;×"), (60, ".:>÷"), (61, "-_*\u{e056}"), (63, "****\0"),
    (65, " "), (79, "\07"), (80, "\08"), (81, "\09"), (82, "----\0"), (83, "\04"), (84, "\05"),
    (85, "\06"), (86, "++++\0"), (87, "\01"), (88, "\02"), (89, "\03"), (90, "\00"), (91, "\0,"),
    (92, "\u{e003}"), (94, "íÍ<>"), (104, "\u{d}"), (106, "////\0"), (108, "\u{e003}"),
];

/// The layout `fr`.
const FRENCH: &[(u32, &str)] = &[
    (9, "\u{1b}"), (10, "&1¹¡"), (11, "é2~⅛"), (12, "\"3#£"), (13, "'4{$"), (14, "(5[⅜"),
    (15, "-6|⅝"), (16, "è7`⅞"), (17, "_8\\™"), (18, "ç9^±"), (19, "à0@°"), (20, ")°]¿"),
    (21, "=+}\u{e05c}"), (22, "\u{8}\u{8}"), (23, "\u{9}\0"), (24, "aAæÆ"), (25, "zZ«<"),
    (26, "eE€¢"), (27, "rR¶®"), (28, "tTŧŦ"), (29, "yY←¥"), (30, "uU↓↑"), (31, "iI→ı"),
    (32, "oOøØ"), (33, "pPþÞ"), (34, "\u{e052}\u{e057}\u{e057}\u{e058}"), (35, "$£¤\u{e054}"),
    (36, "\u{d}"), (38, "qQ@Ω"), (39, "sSßẞ"), (40, "dDðÐ"), (41, "fFđª"), (42, "gGŋŊ"),
    (43, "hHħĦ"), (44, "jJ\u{e061}\u{e062}"), (45, "kKĸ&"), (46, "lLłŁ"), (47, "mMµº"),
    (48, "ù%\u{e052}\u{e05a}"), (49, "²~¬¬"), (51, "*µ\u{e050}\u{e055}"), (52, "wWłŁ"),
    (53, "xX»>"), (54, "cC¢©"), (55, "vV„‚"), (56, "bB“‘"), (57, "nN”’"),
    (58, ",?\u{e051}\u{e059}"), (59, ";.•×"), (60, ":/·÷"), (61, "!§\u{e060}\u{e056}"),
    (63, "****\0"), (65, " "), (79, "\07"), (80, "\08"), (81, "\09"), (82, "----\0"), (83, "\04"),
    (84, "\05"), (85, "\06"), (86, "++++\0"), (87, "\01"), (88, "\02"), (89, "\03"), (90, "\00"),
    (91, "\0."), (92, "\u{e003}"), (94, "<>|¦"), (104, "\u{d}"), (106, "////\0"),
    (108, "\u{e003}"),
];

/// The layout `be`.
const BELGIAN: &[(u32, &str)] = &[
    (9, "\u{1b}"), (10, "&1|¡"), (11, "é2@⅛"), (12, "\"3#£"), (13, "'4¼$"), (14, "(5½⅜"),
    (15, "§6^⅝"), (16, "è7{⅞"), (17, "!8[™"), (18, "ç9{±"), (19, "à0}°"), (20, ")°\\¿"),
    (21, "-_\u{e05b}\u{e05c}"), (22, "\u{8}\u{8}"), (23, "\u{9}\0"), (24, "aA@Ω"), (25, "zZſ§"),
    (26, "eE€¢"), (27, "rR¶®"), (28, "tTŧŦ"), (29, "yY←¥"), (30, "uU↓↑"), (31, "iI→ı"),
    (32, "oOœŒ"), (33, "pPþÞ"), (34, "\u{e052}\u{e057}[\u{e058}"), (35, "$*]\u{e054}"),
    (36, "\u{d}"), (38, "qQæÆ"), (39, "sSßẞ"), (40, "dDðÐ"), (41, "fFđª"), (42, "gGŋŊ"),
    (43, "hHħĦ"), (44, "jJ\u{e061}\u{e062}"), (45, "kKĸ&"), (46, "lLłŁ"),
    (47, "mM\u{e051}\u{e059}"), (48, "ù%\u{e051}\u{e05a}"), (49, "²³¬¬"),
    (51, "µ£\u{e050}\u{e055}"), (52, "wW«<"), (53, "xX»>"), (54, "cC¢©"), (55, "vV„‚"),
    (56, "bB“‘"), (57, "nN”’"), (58, ",?\u{e05b}º"), (59, ";.•×"), (60, ":/·÷"),
    (61, "=+\u{e053}\u{e056}"), (63, "****\0"), (65, " "), (79, "\07"), (80, "\08"), (81, "\09"),
    (82, "----\0"), (83, "\04"), (84, "\05"), (85, "\06"), (86, "++++\0"), (87, "\01"),
    (88, "\02"), (89, "\03"), (90, "\00"), (91, "\0."), (92, "\u{e003}"), (94, "<>\\\\"),
    (104, "\u{d}"), (106, "////\0"), (108, "\u{e003}"),
];

/// The layout `es`.
const SPANISH: &[(u32, &str)] = &[
    (9, "\u{1b}"), (10, "1!|¡"), (11, "2\"@⅛"), (12, "3·#£"), (13, "4$~$"), (14, "5%½⅜"),
    (15, "6&¬⅝"), (16, "7/{⅞"), (17, "8([™"), (18, "9)]±"), (19, "0=}°"), (20, "'?\\¿"),
    (21, "¡¿\u{e05b}\u{e05c}"), (22, "\u{8}\u{8}"), (23, "\u{9}\0"), (24, "qQ@Ω"), (25, "wWſ§"),
    (26, "eE€¢"), (27, "rR¶®"), (28, "tTŧŦ"), (29, "yY←¥"), (30, "uU↓↑"), (31, "iI→ı"),
    (32, "oOøØ"), (33, "pPþÞ"), (34, "\u{e050}\u{e052}[\u{e058}"), (35, "+*]\u{e054}"),
    (36, "\u{d}"), (38, "aAæÆ"), (39, "sSßẞ"), (40, "dDðÐ"), (41, "fFđª"), (42, "gGŋŊ"),
    (43, "hHħĦ"), (44, "jJ\u{e061}\u{e062}"), (45, "kKĸ&"), (46, "lLłŁ"),
    (47, "ñÑ\u{e053}\u{e059}"), (48, "\u{e051}\u{e057}{\u{e05a}"), (49, "ºª\\\\"),
    (51, "çÇ}\u{e055}"), (52, "zZ«<"), (53, "xX»>"), (54, "cC¢©"), (55, "vV„‚"), (56, "bB“‘"),
    (57, "nN”’"), (58, "mMµº"), (59, ",;•×"), (60, ".:·÷"), (61, "-_\u{e060}\u{e056}"),
    (63, "****\0"), (65, " "), (79, "\07"), (80, "\08"), (81, "\09"), (82, "----\0"), (83, "\04"),
    (84, "\05"), (85, "\06"), (86, "++++\0"), (87, "\01"), (88, "\02"), (89, "\03"), (90, "\00"),
    (91, "\0."), (92, "\u{e003}"), (94, "<>|¦"), (104, "\u{d}"), (106, "////\0"),
    (108, "\u{e003}"),
];

/// The layout `pt`.
const PORTUGUESE: &[(u32, &str)] = &[
    (9, "\u{1b}"), (10, "1!¹¡"), (11, "2\"@⅛"), (12, "3#££"), (13, "4$§$"), (14, "5%½⅜"),
    (15, "6&¬⅝"), (16, "7/{⅞"), (17, "8([™"), (18, "9)]±"), (19, "0=}°"), (20, "'?\\¿"),
    (21, "«»\u{e05b}\u{e05c}"), (22, "\u{8}\u{8}"), (23, "\u{9}\0"), (24, "qQ@Ω"), (25, "wWſ§"),
    (26, "eE€¢"), (27, "rR¶®"), (28, "tTŧŦ"), (29, "yY←¥"), (30, "uU↓↑"), (31, "iI→ı"),
    (32, "oOøØ"), (33, "pPþÞ"), (34, "+*\u{e057}\u{e058}"),
    (35, "\u{e051}\u{e050}\u{e053}\u{e054}"), (36, "\u{d}"), (38, "aAæÆ"), (39, "sSßẞ"),
    (40, "dDðÐ"), (41, "fFđª"), (42, "gGŋŊ"), (43, "hHħĦ"), (44, "jJ\u{e061}\u{e062}"),
    (45, "kKĸ&"), (46, "lLłŁ"), (47, "çÇ\u{e051}\u{e059}"), (48, "ºª\u{e052}\u{e05a}"),
    (49, "\\|¬¬"), (51, "\u{e053}\u{e052}\u{e050}\u{e055}"), (52, "zZ«<"), (53, "xX»>"),
    (54, "cC¢©"), (55, "vV„‚"), (56, "bB“‘"), (57, "nN”’"), (58, "mMµº"), (59, ",;•×"),
    (60, ".:·÷"), (61, "-_\u{e060}\u{e056}"), (63, "****\0"), (65, " "), (79, "\07"), (80, "\08"),
    (81, "\09"), (82, "----\0"), (83, "\04"), (84, "\05"), (85, "\06"), (86, "++++\0"),
    (87, "\01"), (88, "\02"), (89, "\03"), (90, "\00"), (91, "\0."), (92, "\u{e003}"),
    (94, "<>\\\\"), (104, "\u{d}"), (106, "////\0"), (108, "\u{e003}"),
];

/// The layout `it`.
const ITALIAN: &[(u32, &str)] = &[
    (9, "\u{1b}"), (10, "1!¹¡"), (11, "2\"²\u{e059}"), (12, "3£³\u{e053}"), (13, "4$¼⅛"),
    (14, "5%½⅜"), (15, "6&¬⅝"), (16, "7/{⅞"), (17, "8([™"), (18, "9)]±"), (19, "0=}\u{e05c}"),
    (20, "'?`¿"), (21, "ì^~\u{e052}"), (22, "\u{8}\u{8}"), (23, "\u{9}\0"), (24, "qQ@Ω"),
    (25, "wWſ§"), (26, "eE€¢"), (27, "rR¶®"), (28, "tTŧŦ"), (29, "yY←¥"), (30, "uU↓↑"),
    (31, "iI→ı"), (32, "oOøØ"), (33, "pPþÞ"), (34, "èé[{"), (35, "+*]}"), (36, "\u{d}"),
    (38, "aAæÆ"), (39, "sSßẞ"), (40, "dDðÐ"), (41, "fFđª"), (42, "gGŋŊ"), (43, "hHħĦ"),
    (44, "jJ\u{e061}\u{e062}"), (45, "kKĸ&"), (46, "lLłŁ"), (47, "òç@\u{e05b}"),
    (48, "à°#\u{e058}"), (49, "\\|¬¦"), (51, "ù§\u{e050}\u{e055}"), (52, "zZ«<"), (53, "xX»>"),
    (54, "cC¢©"), (55, "vV“‘"), (56, "bB”’"), (57, "nNñÑ"), (58, "mMµº"), (59, ",;\u{e051}×"),
    (60, ".:·\u{e057}"), (61, "-_\u{e054}÷"), (63, "****\0"), (65, " "), (79, "\07"), (80, "\08"),
    (81, "\09"), (82, "----\0"), (83, "\04"), (84, "\05"), (85, "\06"), (86, "++++\0"),
    (87, "\01"), (88, "\02"), (89, "\03"), (90, "\00"), (91, "\0."), (92, "\u{e003}"),
    (94, "<>«»"), (104, "\u{d}"), (106, "////\0"), (108, "\u{e003}"),
];

/// The layout `gb`.
const UK: &[(u32, &str)] = &[
    (9, "\u{1b}"), (10, "1!¹¡"), (11, "2\"²⅛"), (12, "3£³£"), (13, "4$€¼"), (14, "5%½⅜"),
    (15, "6^¾⅝"), (16, "7&{⅞"), (17, "8*[™"), (18, "9(]±"), (19, "0)}°"), (20, "-_\\¿"),
    (21, "=+\u{e05b}\u{e05c}"), (22, "\u{8}\u{8}"), (23, "\u{9}\0"), (24, "qQ@Ω"), (25, "wWſ§"),
    (26, "eEeE"), (27, "rR¶®"), (28, "tTŧŦ"), (29, "yY←¥"), (30, "uU↓↑"), (31, "iI→ı"),
    (32, "oOøØ"), (33, "pPþÞ"), (34, "[{\u{e057}\u{e058}"), (35, "]}\u{e053}\u{e054}"),
    (36, "\u{d}"), (38, "aAæÆ"), (39, "sSßẞ"), (40, "dDðÐ"), (41, "fFđª"), (42, "gGŋŊ"),
    (43, "hHħĦ"), (44, "jJ\u{e061}\u{e062}"), (45, "kKĸ&"), (46, "lLłŁ"),
    (47, ";:\u{e051}\u{e059}"), (48, "'@\u{e052}\u{e05a}"), (49, "`¬||"),
    (51, "#~\u{e050}\u{e055}"), (52, "zZ«<"), (53, "xX»>"), (54, "cC¢©"), (55, "vV„‚"),
    (56, "bB“‘"), (57, "nN”’"), (58, "mMµº"), (59, ",<•×"), (60, ".>·÷"),
    (61, "/?\u{e060}\u{e056}"), (63, "****\0"), (65, " "), (79, "\07"), (80, "\08"), (81, "\09"),
    (82, "----\0"), (83, "\04"), (84, "\05"), (85, "\06"), (86, "++++\0"), (87, "\01"),
    (88, "\02"), (89, "\03"), (90, "\00"), (91, "\0."), (92, "\u{e003}"), (94, "\\||¦"),
    (104, "\u{d}"), (106, "////\0"), (108, "\u{e003}"),
];

/// The layout `se`.
const SWEDISH: &[(u32, &str)] = &[
    (9, "\u{1b}"), (10, "1!¡¹"), (11, "2\"@²"), (12, "3#£³"), (13, "4¤$¼"), (14, "5%€¢"),
    (15, "6&¥⅝"), (16, "7/{÷"), (17, "8([«"), (18, "9)]»"), (19, "0=}°"), (20, "+?\\¿"),
    (21, "\u{e051}\u{e050}±¬"), (22, "\u{8}\u{8}"), (23, "\u{9}\0"), (24, "qQ@Ω"), (25, "wWſ§"),
    (26, "eE€¢"), (27, "rR®®"), (28, "tTþÞ"), (29, "yY←¥"), (30, "uU↓↑"), (31, "iI→ı"),
    (32, "oOœŒ"), (33, "pPþÞ"), (34, "åÅ\u{e057}\u{e058}"),
    (35, "\u{e057}\u{e052}\u{e053}\u{e05a}"), (36, "\u{d}"), (38, "aAªº"), (39, "sSßẞ"),
    (40, "dDðÐ"), (41, "fFđª"), (42, "gGŋŊ"), (43, "hHħĦ"), (44, "jJ\u{e061}\u{e062}"),
    (45, "kKĸ&"), (46, "lLłŁ"), (47, "öÖøØ"), (48, "äÄæÆ"), (49, "§½¶¾"), (51, "'*´×"),
    (52, "zZ«<"), (53, "xX»>"), (54, "cC©©"), (55, "vV„‚"), (56, "bB“‘"), (57, "nN”’"),
    (58, "mMµº"), (59, ",;\u{e05b}\u{e05c}"), (60, ".:·\u{e056}"), (61, "-_\u{e060}\u{e056}"),
    (63, "****\0"), (65, "   \u{a0}"), (79, "\07"), (80, "\08"), (81, "\09"), (82, "----\0"),
    (83, "\04"), (84, "\05"), (85, "\06"), (86, "++++\0"), (87, "\01"), (88, "\02"), (89, "\03"),
    (90, "\00"), (91, "\0,"), (92, "\u{e003}"), (94, "<>|¦"), (104, "\u{d}"), (106, "////\0"),
    (108, "\u{e003}"),
];

/// The layout `no`.
const NORWEGIAN: &[(u32, &str)] = &[
    (9, "\u{1b}"), (10, "1!¡¹"), (11, "2\"@²"), (12, "3#£³"), (13, "4¤$¼"), (14, "5%½‰"),
    (15, "6&¥⅝"), (16, "7/{÷"), (17, "8([«"), (18, "9)]»"), (19, "0=}°"), (20, "+?±¿"),
    (21, "\\\u{e050}\u{e051}¬"), (22, "\u{8}\u{8}"), (23, "\u{9}\0"), (24, "qQ@Ω"), (25, "wWſ§"),
    (26, "eE€¢"), (27, "rR®™"), (28, "tTþÞ"), (29, "yY←¥"), (30, "uU↓↑"), (31, "iI→ı"),
    (32, "oOœŒ"), (33, "pPπΠ"), (34, "åÅ\u{e057}\u{e058}"),
    (35, "\u{e057}\u{e052}\u{e053}\u{e05a}"), (36, "\u{d}"), (38, "aAªº"), (39, "sSßẞ"),
    (40, "dDðÐ"), (41, "fFđª"), (42, "gGŋŊ"), (43, "hHħĦ"), (44, "jJ\u{e061}\u{e062}"),
    (45, "kKĸ&"), (46, "lLłŁ"), (47, "øØ\u{e051}\u{e059}"), (48, "æÆ\u{e052}\u{e05a}"),
    (49, "|§¦¶"), (51, "'*\u{e059}×"), (52, "zZ«<"), (53, "xX»>"), (54, "cC©©"), (55, "vV„‚"),
    (56, "bB“‘"), (57, "nN”’"), (58, "mMµº"), (59, ",;\u{e05b}\u{e05c}"), (60, ".:…·"),
    (61, "-_–—"), (63, "*⋅×\0\0"), (65, "  \u{a0}\u{202f}"), (79, "\07"), (80, "\08"),
    (81, "\09"), (82, "-−−\0\0"), (83, "\04"), (84, "\05"), (85, "\06"), (86, "+++\0\0"),
    (87, "\01"), (88, "\02"), (89, "\03"), (90, "\00"), (91, "\0,"), (92, "\u{e003}"),
    (94, "<>½¾"), (104, "\u{d}"), (106, "/∕÷\0\0"), (108, "\u{e003}"),
];

/// The layout `dk`.
const DANISH: &[(u32, &str)] = &[
    (9, "\u{1b}"), (10, "1!¡¹"), (11, "2\"@²"), (12, "3#£³"), (13, "4¤$¼"), (14, "5%½¢"),
    (15, "6&¥⅝"), (16, "7/{÷"), (17, "8([«"), (18, "9)]»"), (19, "0=}°"), (20, "+?±¿"),
    (21, "\u{e051}\u{e050}|¦"), (22, "\u{8}\u{8}"), (23, "\u{9}\0"), (24, "qQ@Ω"), (25, "wWſ§"),
    (26, "eE€¢"), (27, "rR®®"), (28, "tTþÞ"), (29, "yY←¥"), (30, "uU↓↑"), (31, "iI→ı"),
    (32, "oOœŒ"), (33, "pPþÞ"), (34, "åÅ\u{e057}\u{e058}"),
    (35, "\u{e057}\u{e052}\u{e053}\u{e05a}"), (36, "\u{d}"), (38, "aAªº"), (39, "sSßẞ"),
    (40, "dDðÐ"), (41, "fFđª"), (42, "gGŋŊ"), (43, "hHħĦ"), (44, "jJ\u{e061}\u{e062}"),
    (45, "kKĸ&"), (46, "lLłŁ"), (47, "æÆ\u{e051}\u{e059}"), (48, "øØ\u{e052}\u{e05a}"),
    (49, "½§¾¶"), (51, "'*\u{e059}×"), (52, "zZ«<"), (53, "xX»>"), (54, "cC©©"), (55, "vV„‚"),
    (56, "bB“‘"), (57, "nN”’"), (58, "mMµº"), (59, ",;\u{e05b}\u{e05c}"), (60, ".:·\u{e056}"),
    (61, "-_\u{e060}\u{e056}"), (63, "****\0"), (65, " "), (79, "\07"), (80, "\08"), (81, "\09"),
    (82, "----\0"), (83, "\04"), (84, "\05"), (85, "\06"), (86, "++++\0"), (87, "\01"),
    (88, "\02"), (89, "\03"), (90, "\00"), (91, "\0,"), (92, "\u{e003}"), (94, "<>\\¬"),
    (104, "\u{d}"), (106, "////\0"), (108, "\u{e003}"),
];

/// The layout `fi`.
const FINNISH: &[(u32, &str)] = &[
    (9, "\u{1b}"), (10, "1!\0¡"), (11, "2\"@”"), (12, "3#£»"), (13, "4¤$«"), (14, "5%‰“"),
    (15, "6&‚„"), (16, "7/{\0"), (17, "8([<"), (18, "9)]>"), (19, "0=}°"), (20, "+?\\¿"),
    (21, "\u{e051}\u{e050}\u{e05b}\u{e05c}"), (22, "\u{8}\u{8}"), (23, "\u{9}\0"), (24, "qQqQ"),
    (25, "wWwW"), (26, "eE€\0"), (27, "rRrR"), (28, "tTþÞ"), (29, "yYyY"), (30, "uUuU"),
    (31, "iIı|"), (32, "oOœŒ"), (33, "pP\u{e062}\u{e061}"), (34, "åÅ\u{e059}\u{e058}"),
    (35, "\u{e057}\u{e052}\u{e053}\u{e054}"), (36, "\u{d}"), (38, "aAəƏ"), (39, "sSßẞ"),
    (40, "dDðÐ"), (41, "fFfF"), (42, "gGgG"), (43, "hHhH"), (44, "jJjJ"), (45, "kKĸ\u{e08c}"),
    (46, "lL\u{e063}\u{e06f}"), (47, "öÖøØ"), (48, "äÄæÆ"), (49, "§½\u{e063}\0"),
    (51, "'*\u{e05a}\u{e055}"), (52, "zZʒƷ"), (53, "xX×·"), (54, "cCcC"), (55, "vVvV"),
    (56, "bBbB"), (57, "nNŋŊ"), (58, "mMµ—"), (59, ",;’‘"), (60, ".:\u{e060}\u{e056}"),
    (61, "-_–\u{e06e}"), (63, "****\0"), (65, "   \u{202f}"), (79, "\07"), (80, "\08"),
    (81, "\09"), (82, "----\0"), (83, "\04"), (84, "\05"), (85, "\06"), (86, "++++\0"),
    (87, "\01"), (88, "\02"), (89, "\03"), (90, "\00"), (91, "\0,"), (92, "\u{e003}"),
    (94, "<>|¦"), (104, "\u{d}"), (106, "////\0"), (108, "\u{e003}"),
];

/// The layout `pl`.
const POLISH: &[(u32, &str)] = &[
    (9, "\u{1b}"), (10, "1!≠¡"), (11, "2@²¿"), (12, "3#³£"), (13, "4$¢¼"), (14, "5%€‰"),
    (15, "6^½∧"), (16, "7&§≈"), (17, "8*·¾"), (18, "9(«±"), (19, "0)»°"), (20, "-_–—"),
    (21, "=+\u{e05b}\u{e05c}"), (22, "\u{8}\u{8}"), (23, "\u{9}\0"), (24, "qQπΩ"), (25, "wWœŒ"),
    (26, "eEęĘ"), (27, "rR©®"), (28, "tTß™"), (29, "yY←¥"), (30, "uU↓↑"), (31, "iI→↔"),
    (32, "oOóÓ"), (33, "pPþÞ"), (34, "[{\u{e057}\u{e058}"), (35, "]}\u{e053}\u{e054}"),
    (36, "\u{d}"), (38, "aAąĄ"), (39, "sSśŚ"), (40, "dDðÐ"), (41, "fFæÆ"), (42, "gGŋŊ"),
    (43, "hH’•"), (44, "jJəƏ"), (45, "kK…\u{e063}"), (46, "lLłŁ"), (47, ";:\u{e051}\u{e059}"),
    (48, "'\"\u{e052}\u{e05a}"), (49, "`~¬∨"), (51, "\\|\u{e050}\u{e055}"), (52, "zZżŻ"),
    (53, "xXźŹ"), (54, "cCćĆ"), (55, "vV„‘"), (56, "bB”“"), (57, "nNńŃ"), (58, "mMµ∞"),
    (59, ",<≤×"), (60, ".>≥÷"), (61, "/?\u{e060}\u{e056}"), (63, "****\0"),
    (65, "  \u{a0}\u{a0}"), (79, "\07"), (80, "\08"), (81, "\09"), (82, "----\0"), (83, "\04"),
    (84, "\05"), (85, "\06"), (86, "++++\0"), (87, "\01"), (88, "\02"), (89, "\03"), (90, "\00"),
    (91, "\0,"), (92, "\u{e003}"), (94, "<>|¦"), (104, "\u{d}"), (106, "////\0"),
    (108, "\u{e003}"),
];

/// The layout `ru`.
const RUSSIAN: &[(u32, &str)] = &[
    (9, "\u{1b}"), (10, "1!"), (11, "2\""), (12, "3№"), (13, "4;"), (14, "5%"), (15, "6:"),
    (16, "7?"), (17, "8*₽\0"), (18, "9("), (19, "0)"), (20, "-_"), (21, "=+"), (22, "\u{8}\u{8}"),
    (23, "\u{9}\0"), (24, "йЙ"), (25, "цЦ"), (26, "уУ"), (27, "кК"), (28, "еЕ"), (29, "нН"),
    (30, "гГ"), (31, "шШ"), (32, "щЩ"), (33, "зЗ"), (34, "хХ"), (35, "ъЪ"), (36, "\u{d}"),
    (38, "фФ"), (39, "ыЫ"), (40, "вВ"), (41, "аА"), (42, "пП"), (43, "рР"), (44, "оО"),
    (45, "лЛ"), (46, "дД"), (47, "жЖ"), (48, "эЭ"), (49, "ёЁ"), (51, "\\/"), (52, "яЯ"),
    (53, "чЧ"), (54, "сС"), (55, "мМ"), (56, "иИ"), (57, "тТ"), (58, "ьЬ"), (59, "бБ"),
    (60, "юЮ"), (61, ".,"), (63, "****\0"), (65, " "), (79, "\07"), (80, "\08"), (81, "\09"),
    (82, "----\0"), (83, "\04"), (84, "\05"), (85, "\06"), (86, "++++\0"), (87, "\01"),
    (88, "\02"), (89, "\03"), (90, "\00"), (91, "\0,"), (92, "\u{e003}"), (94, "/||¦"),
    (104, "\u{d}"), (106, "////\0"),
];

/// The layout `ua`.
const UKRAINIAN: &[(u32, &str)] = &[
    (9, "\u{1b}"), (10, "1!¹\0"), (11, "2\"²’"), (12, "3№§₴"), (13, "4;$€"), (14, "5%°\0"),
    (15, "6:<\0"), (16, "7?>\0"), (17, "8*•\0"), (18, "9([{"), (19, "0)]}"), (20, "-_—–"),
    (21, "=+≠±"), (22, "\u{8}\u{8}"), (23, "\u{9}\0"), (24, "йЙјЈ"), (25, "цЦџЏ"), (26, "уУўЎ"),
    (27, "кК®\0"), (28, "еЕёЁ"), (29, "нНњЊ"), (30, "гГ"), (31, "шШ"), (32, "щЩ"), (33, "зЗ"),
    (34, "хХ"), (35, "їЇъЪ"), (36, "\u{d}"), (38, "фФ"), (39, "іІыЫ"), (40, "вВ"), (41, "аА"),
    (42, "пП"), (43, "рР"), (44, "оО"), (45, "лЛљЉ"), (46, "дДђЂ"), (47, "жЖ"), (48, "єЄэЭ"),
    (49, "'ʼ\u{301}~"), (51, "ґҐ\\|"), (52, "яЯ"), (53, "чЧћЋ"), (54, "сС©\0"), (55, "мМ"),
    (56, "иИ"), (57, "тТ™\0"), (58, "ьЬ"), (59, "бБ«„"), (60, "юЮ»“"), (61, ".,/…"),
    (63, "****\0"), (65, " "), (79, "\07"), (80, "\08"), (81, "\09"), (82, "----\0"), (83, "\04"),
    (84, "\05"), (85, "\06"), (86, "++++\0"), (87, "\01"), (88, "\02"), (89, "\03"), (90, "\00"),
    (91, "\0."), (92, "\u{e003}"), (94, "/||¦"), (104, "\u{d}"), (106, "////\0"),
    (108, "\u{e003}"),
];

/// The layout `gr`.
const GREEK: &[(u32, &str)] = &[
    (9, "\u{1b}"), (10, "1!\0¹"), (11, "2@½²"), (12, "3#£³"), (13, "4$¼¾"), (14, "5%€\0"),
    (15, "6^ϰ\0"), (16, "7&ϗϏ"), (17, "8*₯\0"), (18, "9("), (19, "0)°\0"), (20, "-_±\0"),
    (21, "=+"), (22, "\u{8}\u{8}"), (23, "\u{9}\0"), (24, ";:·\0"), (25, "ςΣϛϚ"), (26, "εΕ€\0"),
    (27, "ρΡ®ϱ"), (28, "τΤ"), (29, "υΥϒϒ"), (30, "θΘϑϴ"), (31, "ιΙͻϽ"), (32, "οΟ"), (33, "πΠϡϠ"),
    (34, "[{\u{e053}\u{e054}"), (35, "]}\u{e05d}\u{e055}"), (36, "\u{d}"), (38, "αΑ"), (39, "σΣ"),
    (40, "δΔ↓↑"), (41, "φΦϕ\0"), (42, "γΓϝϜ"), (43, "ηΗ"), (44, "ξΞͼϾ"), (45, "κΚϟϞ"),
    (46, "λΛϲϹ"), (47, "\u{e051}\u{e057}\u{e051}\u{e064}"), (48, "'\"\u{e050}\u{e065}"),
    (49, "`~"), (51, "\\|"), (52, "ζΖͽϿ"), (53, "χΧ→←"), (54, "ψΨ©\0"), (55, "ωΩϖ\0"),
    (56, "βΒϐ\0"), (57, "νΝʹ͵"), (58, "μΜϻϺ"), (59, ",<«\0"), (60, ".>»·"), (61, "/?"),
    (63, "****\0"), (65, " "), (79, "\07"), (80, "\08"), (81, "\09"), (82, "----\0"), (83, "\04"),
    (84, "\05"), (85, "\06"), (86, "++++\0"), (87, "\01"), (88, "\02"), (89, "\03"), (90, "\00"),
    (91, "\0,"), (92, "\u{e003}"), (94, "«»|¦"), (104, "\u{d}"), (106, "////\0"),
    (108, "\u{e003}"),
];

/// The layout `jp`.
const JAPANESE: &[(u32, &str)] = &[
    (9, "\u{1b}"), (10, "1!"), (11, "2\""), (12, "3#"), (13, "4$"), (14, "5%"), (15, "6&"),
    (16, "7'"), (17, "8("), (18, "9)"), (19, "0~"), (20, "-="), (21, "^~"), (22, "\u{8}\u{8}"),
    (23, "\u{9}\0"), (24, "qQ"), (25, "wW"), (26, "eE"), (27, "rR"), (28, "tT"), (29, "yY"),
    (30, "uU"), (31, "iI"), (32, "oO"), (33, "pP"), (34, "@`"), (35, "[{"), (36, "\u{d}"),
    (38, "aA"), (39, "sS"), (40, "dD"), (41, "fF"), (42, "gG"), (43, "hH"), (44, "jJ"),
    (45, "kK"), (46, "lL"), (47, ";+"), (48, ":*"), (51, "]}"), (52, "zZ"), (53, "xX"),
    (54, "cC"), (55, "vV"), (56, "bB"), (57, "nN"), (58, "mM"), (59, ",<"), (60, ".>"),
    (61, "/?"), (63, "****\0"), (65, " "), (79, "\07"), (80, "\08"), (81, "\09"), (82, "----\0"),
    (83, "\04"), (84, "\05"), (85, "\06"), (86, "++++\0"), (87, "\01"), (88, "\02"), (89, "\03"),
    (90, "\00"), (91, "\0."), (92, "\u{e003}"), (94, "<>|¦"), (97, "\\_"), (104, "\u{d}"),
    (106, "////\0"),
];
