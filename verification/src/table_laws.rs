//! Which taps a keymap has, told from its table alone: by the places where symbols stand.

use vstd::prelude::*;

use crate::keymap::{KeymapTable, Stroke, Symbol};
use crate::keys::{KeyMapping, KeyTap};

verus! {

/// A place in a table: symbol `index` of level `level`, in layout `layout` of the key at
/// position `key`.
pub struct Place {
    pub key: int,
    pub layout: int,
    pub level: int,
    pub index: int,
}

impl Place {
    /// Whether there is such a place in the table, on one of the first four levels.
    pub open spec fn within(self, table: KeymapTable) -> bool {
        &&& 0 <= self.key < table.keys@.len()
        &&& 0 <= self.layout < table.keys@[self.key].layouts@.len()
        &&& 0 <= self.level < table.keys@[self.key].layouts@[self.layout].levels@.len()
        &&& self.level < 4
        &&& 0 <= self.index
            < table.keys@[self.key].layouts@[self.layout].levels@[self.level]@.len()
    }

    /// The symbol that stands there.
    pub open spec fn symbol(self, table: KeymapTable) -> Symbol {
        table.keys@[self.key].layouts@[self.layout].levels@[self.level]@[self.index]
    }

    /// Whether this place comes before another: on a lower key, or on the same key in an earlier
    /// layout, or in the same layout on a lower level.
    pub open spec fn before(self, other: Place) -> bool {
        ||| self.key < other.key
        ||| self.key == other.key && self.layout < other.layout
        ||| self.key == other.key && self.layout == other.layout && self.level < other.level
    }

    /// Whether the symbol there types `c`: it stands for it, and is none of the six dead keys.
    pub open spec fn types(self, table: KeymapTable, c: char) -> bool {
        let symbol = self.symbol(table);
        &&& symbol.utf32 == c as u32
        &&& symbol.utf32 != 0
        &&& symbol.keysym != 0xfe50
        &&& symbol.keysym != 0xfe51
        &&& symbol.keysym != 0xfe52
        &&& symbol.keysym != 0xfe53
        &&& symbol.keysym != 0xfe57
        &&& symbol.keysym != 0xfe5b
    }

    /// Whether this is the first place of the table that types `c`.
    pub open spec fn first_to_type(self, table: KeymapTable, c: char) -> bool {
        &&& self.within(table)
        &&& self.types(table, c)
        &&& forall|other: Place| #[trigger]
            other.within(table) && other.before(self) ==> !other.types(table, c)
    }

    /// Whether this is the first place of the table that gives `keysym`.
    pub open spec fn first_to_give(self, table: KeymapTable, keysym: u32) -> bool {
        &&& self.within(table)
        &&& self.symbol(table).keysym == keysym
        &&& forall|other: Place| #[trigger]
            other.within(table) && other.before(self) ==> other.symbol(table).keysym != keysym
    }

    /// The tap that reaches the place: the evdev keycode is the XKB keycode less 8, kept within
    /// 16 bits; the second level is reached with Shift, the third with AltGr and the fourth with
    /// both.
    pub open spec fn tap(self, table: KeymapTable) -> KeyTap {
        let raw = table.min_keycode + self.key;
        KeyTap {
            keycode: if raw < 8 {
                0
            } else if raw > 65543 {
                65535
            } else {
                (raw - 8) as u16
            },
            shift: self.level == 1 || self.level == 3,
            altgr: self.level == 2 || self.level == 3,
        }
    }
}

/// The base letter of an accented letter of Latin-1, by code point: in Latin-1 the letters with
/// the same base stand side by side, and a capital stands 0x20 before its small letter.
pub open spec fn latin_1_base(v: u32) -> u32 {
    if v < 0xe0 {
        (small_base((v + 0x20) as u32) - 0x20) as u32
    } else {
        small_base(v)
    }
}

/// The base letter of a small letter of Latin-1.
pub open spec fn small_base(v: u32) -> u32 {
    if v <= 0xe4 {
        0x61
    } else if v == 0xe7 {
        0x63
    } else if v <= 0xeb {
        0x65
    } else if v <= 0xef {
        0x69
    } else if v == 0xf1 {
        0x6e
    } else if v <= 0xf6 {
        0x6f
    } else if v <= 0xfc {
        0x75
    } else {
        0x79
    }
}

/// Whether a dead key and a letter are combined to the letter with this code point.
pub open spec fn combined(v: u32) -> bool {
    ||| 0xe0 <= v <= 0xfd && v != 0xe5 && v != 0xe6 && v != 0xf0 && v != 0xf7 && v != 0xf8
    ||| 0xc0 <= v <= 0xc3
    ||| v == 0xc7
    ||| v == 0xc9
    ||| v == 0xca
    ||| v == 0xcd
    ||| v == 0xd1
    ||| 0xd3 <= v <= 0xd5
    ||| v == 0xda
}

/// Which letters dead keys are combined to, and how: grave, acute and circumflex stand first,
/// second and third among the letters of Latin-1 with the same vowel, the diaeresis stands
/// last, and the tilde stands on A, N and O.
pub proof fn law_recipes_follow_latin_1(c: char)
    ensures
        crate::keymap::accent_recipe(c) is Some <==> combined(c as u32),
        crate::keymap::accent_recipe(c) matches Some((base, dead)) ==> {
            let v = c as u32;
            let small = if v < 0xe0 {
                v + 0x20
            } else {
                v as int
            };
            &&& base as u32 == latin_1_base(v)
            &&& dead == 0xfe50 <==> small == 0xe0 || small == 0xe8 || small == 0xec || small == 0xf2
                || small == 0xf9
            &&& dead == 0xfe51 <==> small == 0xe1 || small == 0xe9 || small == 0xed || small == 0xf3
                || small == 0xfa || small == 0xfd
            &&& dead == 0xfe52 <==> small == 0xe2 || small == 0xea || small == 0xee || small == 0xf4
                || small == 0xfb
            &&& dead == 0xfe53 <==> small == 0xe3 || small == 0xf1 || small == 0xf5
            &&& dead == 0xfe57 <==> small == 0xe4 || small == 0xeb || small == 0xef || small == 0xf6
                || small == 0xfc
            &&& dead == 0xfe5b <==> small == 0xe7
            &&& dead == 0xfe50 || dead == 0xfe51 || dead == 0xfe52 || dead == 0xfe53 || dead
                == 0xfe57 || dead == 0xfe5b
        },
{
}

/// A dead key with Space gives the literal that looks like its accent: the grave the backtick,
/// the acute the apostrophe, the diaeresis the quotation mark.
pub proof fn law_literals_look_like_their_accents(c: char, dead: u32)
    ensures
        crate::keymap::literal_recipe(c) == Some(dead) <==> {
            ||| c as u32 == 0x60 && dead == 0xfe50
            ||| c as u32 == 0x27 && dead == 0xfe51
            ||| c as u32 == 0x5e && dead == 0xfe52
            ||| c as u32 == 0x7e && dead == 0xfe53
            ||| c as u32 == 0x22 && dead == 0xfe57
        },
{
}

/// A character is typed with the tap of the first place in the table that types it, and with
/// nothing after it.
pub proof fn law_first_place_types_the_character(table: KeymapTable, c: char, place: Place)
    requires
        place.first_to_type(table, c),
    ensures
        table.reverse().contains_key(c),
        table.reverse()[c] == (KeyMapping { main: place.tap(table), follow: None }),
{
    lemma_place_is_typed(table, c, place);
    lemma_reverse(table, c);
}

/// A character that any place in the table types, on the first four levels of any key in any
/// layout, is typed with one tap.
pub proof fn law_every_place_can_be_typed(table: KeymapTable, c: char, place: Place)
    requires
        place.within(table),
        place.types(table, c),
    ensures
        table.reverse().contains_key(c),
        table.reverse()[c].follow is None,
{
    let stroke = Stroke { symbol: place.symbol(table), tap: place.tap(table) };
    lemma_place_is_stroke(table, place, stroke);
    let i = choose|i: int| 0 <= i < table.strokes().len() && table.strokes()[i] == stroke;
    lemma_types(table, c, place);
    crate::keymap::lemma_first_tap(table.strokes(), crate::keymap::typing(c as u32));
    assert(crate::keymap::typing(c as u32)(table.strokes()[i]));
    lemma_reverse(table, c);
}

/// A literal that no place in the table types is typed with the first place that gives its dead
/// key, and Space after it.
pub proof fn law_literal_is_dead_key_and_space(
    table: KeymapTable,
    c: char,
    keysym: u32,
    dead: Place,
)
    requires
        forall|p: Place| #[trigger] p.within(table) ==> !p.types(table, c),
        crate::keymap::literal_recipe(c) == Some(keysym),
        dead.first_to_give(table, keysym),
    ensures
        table.reverse().contains_key(c),
        table.reverse()[c] == (KeyMapping {
            main: dead.tap(table),
            follow: Some(KeyTap { keycode: 57, shift: false, altgr: false }),
        }),
{
    lemma_nothing_types(table, c);
    lemma_place_is_given(table, keysym, dead);
    lemma_reverse(table, c);
}

/// An accented letter that no place in the table types is typed with the first place that gives
/// its dead key, and after it with the first place that types its base letter.
pub proof fn law_letter_is_dead_key_and_base(
    table: KeymapTable,
    c: char,
    base: char,
    keysym: u32,
    dead: Place,
    letter: Place,
)
    requires
        forall|p: Place| #[trigger] p.within(table) ==> !p.types(table, c),
        crate::keymap::accent_recipe(c) == Some((base, keysym)),
        dead.first_to_give(table, keysym),
        letter.first_to_type(table, base),
    ensures
        table.reverse().contains_key(c),
        table.reverse()[c] == (KeyMapping {
            main: dead.tap(table),
            follow: Some(letter.tap(table)),
        }),
{
    lemma_nothing_types(table, c);
    lemma_place_is_given(table, keysym, dead);
    lemma_place_is_typed(table, base, letter);
    lemma_reverse(table, c);
}

/// A character that no place in the table types is not typed where it has no recipe, nor where
/// the dead key of its recipe stands nowhere, nor where no place types its base letter.
pub proof fn law_nothing_else_is_typed(table: KeymapTable, c: char)
    requires
        forall|p: Place| #[trigger] p.within(table) ==> !p.types(table, c),
        match crate::keymap::literal_recipe(c) {
            Some(keysym) => forall|p: Place| #[trigger]
                p.within(table) ==> p.symbol(table).keysym != keysym,
            None => match crate::keymap::accent_recipe(c) {
                Some((base, keysym)) => {
                    ||| forall|p: Place| #[trigger]
                        p.within(table) ==> p.symbol(table).keysym != keysym
                    ||| forall|p: Place| #[trigger] p.within(table) ==> !p.types(table, base)
                },
                None => true,
            },
        },
    ensures
        !table.reverse().contains_key(c),
{
    lemma_nothing_types(table, c);
    lemma_reverse(table, c);
    if let Some(keysym) = crate::keymap::literal_recipe(c) {
        lemma_nothing_gives(table, keysym);
    } else if let Some((base, keysym)) = crate::keymap::accent_recipe(c) {
        if forall|p: Place| #[trigger] p.within(table) ==> p.symbol(table).keysym != keysym {
            lemma_nothing_gives(table, keysym);
        } else {
            lemma_nothing_types(table, base);
        }
    }
}

/// A dead key that stands anywhere on the first four levels, of any key in any layout, can be
/// tapped.
pub proof fn law_every_dead_key_can_be_tapped(table: KeymapTable, place: Place)
    requires
        place.within(table),
    ensures
        table.dead_tap(place.symbol(table).keysym) is Some,
{
    let keysym = place.symbol(table).keysym;
    if table.dead_tap(keysym) is None {
        let p = crate::keymap::giving(keysym);
        crate::keymap::lemma_first_tap(table.strokes(), p);
        let stroke = Stroke { symbol: place.symbol(table), tap: place.tap(table) };
        lemma_place_is_stroke(table, place, stroke);
        let i = choose|i: int| 0 <= i < table.strokes().len() && table.strokes()[i] == stroke;
        assert(p(table.strokes()[i]));
    }
}

/// With a dead key that stands anywhere in the table, on the first four levels, its literal can
/// be typed, and so can every accented letter with it whose base letter stands there too.
pub proof fn law_every_recipe_that_can_be_met_is_met(
    table: KeymapTable,
    c: char,
    dead: Place,
    letter: Place,
)
    requires
        dead.within(table),
        ({
            ||| crate::keymap::literal_recipe(c) == Some(dead.symbol(table).keysym)
            ||| crate::keymap::accent_recipe(c) matches Some((base, keysym)) && keysym
                == dead.symbol(table).keysym && letter.within(table) && letter.types(table, base)
        }),
    ensures
        table.reverse().contains_key(c),
{
    law_every_dead_key_can_be_tapped(table, dead);
    lemma_reverse(table, c);
    if crate::keymap::literal_recipe(c) is None {
        let (base, _) = crate::keymap::accent_recipe(c)->0;
        let stroke = Stroke { symbol: letter.symbol(table), tap: letter.tap(table) };
        lemma_place_is_stroke(table, letter, stroke);
        let i = choose|i: int| 0 <= i < table.strokes().len() && table.strokes()[i] == stroke;
        lemma_types(table, base, letter);
        crate::keymap::lemma_first_tap(table.strokes(), crate::keymap::typing(base as u32));
        assert(crate::keymap::typing(base as u32)(table.strokes()[i]));
    }
}

/// What the reverse map holds for a character is how it is typed.
pub proof fn law_reverse_holds_every_mapping(table: KeymapTable, c: char)
    ensures
        table.mapping(c) is Some <==> table.reverse().contains_key(c),
        table.mapping(c) matches Some(mapping) ==> table.reverse()[c] == mapping,
{
    lemma_reverse(table, c);
}

/// A number is taken for a character exactly where it is a Unicode scalar value.
pub proof fn law_scalar_values_are_those_of_characters(v: u32, c: char)
    ensures
        crate::keymap::scalar_value(c as u32),
        crate::keymap::scalar_value(v) <==> v < 0xd800 || 0xdfff < v < 0x110000,
{
}

proof fn lemma_reverse(table: KeymapTable, c: char)
    ensures
        table.reverse().contains_key(c) <==> table.mapping(c) is Some,
        table.reverse().contains_key(c) ==> table.reverse()[c] == table.mapping(c)->0,
{
}

proof fn lemma_types(table: KeymapTable, c: char, place: Place)
    requires
        place.within(table),
    ensures
        place.types(table, c) <==> crate::keymap::typing(c as u32)(
            Stroke { symbol: place.symbol(table), tap: place.tap(table) },
        ),
{
}

proof fn lemma_tap(table: KeymapTable, place: Place)
    requires
        place.within(table),
    ensures
        place.tap(table) == crate::keymap::level_tap(table.keycode(place.key), place.level),
{
}

proof fn lemma_place_is_stroke(table: KeymapTable, place: Place, stroke: Stroke)
    requires
        place.within(table),
        stroke == (Stroke { symbol: place.symbol(table), tap: place.tap(table) }),
    ensures
        table.strokes().contains(stroke),
{
    lemma_tap(table, place);
    crate::keymap_laws::law_strokes_are_the_first_four_levels(table, stroke);
    assert(crate::keymap_laws::stands_at(
        table,
        stroke,
        place.key,
        place.layout,
        place.level,
        place.index,
    ));
}

/// Where no place has a symbol that `p` holds of, no stroke is taken.
proof fn lemma_nowhere(table: KeymapTable, p: spec_fn(Stroke) -> bool)
    requires
        forall|place: Place| #[trigger]
            place.within(table) ==> !p(
                Stroke { symbol: place.symbol(table), tap: place.tap(table) },
            ),
    ensures
        crate::keymap::first_tap(table.strokes(), p) is None,
{
    let strokes = table.strokes();
    crate::keymap::lemma_first_tap(strokes, p);
    if crate::keymap::first_tap(strokes, p) is Some {
        let tap = crate::keymap::first_tap(strokes, p)->0;
        let i = choose|i: int| #[trigger]
            crate::keymap::first_at(strokes, p, i) && strokes[i].tap == tap;
        let stroke = strokes[i];
        crate::keymap_laws::law_strokes_are_the_first_four_levels(table, stroke);
        let (key, layout, level, index) = choose|key: int, layout: int, level: int, k: int|
            crate::keymap_laws::stands_at(table, stroke, key, layout, level, k);
        let place = Place { key, layout, level, index };
        assert(place.within(table));
        lemma_tap(table, place);
    }
}

proof fn lemma_nothing_types(table: KeymapTable, c: char)
    requires
        forall|p: Place| #[trigger] p.within(table) ==> !p.types(table, c),
    ensures
        table.direct_tap(c) is None,
{
    let p = crate::keymap::typing(c as u32);
    assert forall|place: Place| #[trigger] place.within(table) implies !p(
        Stroke { symbol: place.symbol(table), tap: place.tap(table) },
    ) by {
        lemma_types(table, c, place);
    }
    lemma_nowhere(table, p);
}

proof fn lemma_nothing_gives(table: KeymapTable, keysym: u32)
    requires
        forall|p: Place| #[trigger] p.within(table) ==> p.symbol(table).keysym != keysym,
    ensures
        table.dead_tap(keysym) is None,
{
    lemma_nowhere(table, crate::keymap::giving(keysym));
}

proof fn lemma_place_is_typed(table: KeymapTable, c: char, place: Place)
    requires
        place.first_to_type(table, c),
    ensures
        table.direct_tap(c) == Some(place.tap(table)),
{
    let p = crate::keymap::typing(c as u32);
    lemma_types(table, c, place);
    assert forall|other: Place| #[trigger]
        other.within(table) && other.before(place) implies !p(
        Stroke { symbol: other.symbol(table), tap: other.tap(table) },
    ) by {
        lemma_types(table, c, other);
    }
    lemma_first_place(table, p, place, table.keys@.len() as int);
}

proof fn lemma_place_is_given(table: KeymapTable, keysym: u32, place: Place)
    requires
        place.first_to_give(table, keysym),
    ensures
        table.dead_tap(keysym) == Some(place.tap(table)),
{
    lemma_first_place(table, crate::keymap::giving(keysym), place, table.keys@.len() as int);
}

/// Whether `p` holds of what stands at `place`, and of nothing that stands before it.
spec fn first_place(table: KeymapTable, p: spec_fn(Stroke) -> bool, place: Place) -> bool {
    &&& place.within(table)
    &&& p(Stroke { symbol: place.symbol(table), tap: place.tap(table) })
    &&& forall|other: Place| #[trigger]
        other.within(table) && other.before(place) ==> !p(
            Stroke { symbol: other.symbol(table), tap: other.tap(table) },
        )
}

proof fn lemma_concat(
    a: Seq<Stroke>,
    b: Seq<Stroke>,
    p: spec_fn(Stroke) -> bool,
)
    ensures
        crate::keymap::first_tap(a + b, p) == match crate::keymap::first_tap(a, p) {
            Some(tap) => Some(tap),
            None => crate::keymap::first_tap(b, p),
        },
    decreases b.len(),
{
    if b.len() == 0 {
        assert(a + b == a);
    } else {
        assert((a + b).drop_last() == a + b.drop_last());
        assert((a + b).last() == b.last());
        lemma_concat(a, b.drop_last(), p);
    }
}

proof fn lemma_first_place(
    table: KeymapTable,
    p: spec_fn(Stroke) -> bool,
    place: Place,
    n: int,
)
    requires
        first_place(table, p, place),
        0 <= n <= table.keys@.len(),
    ensures
        crate::keymap::first_tap(table.strokes_of_first(n), p) == (if place.key < n {
            Some(place.tap(table))
        } else {
            None
        }),
    decreases n,
{
    if n > 0 {
        let key = table.keys@[n - 1];
        let count = key.layouts@.len() as int;
        lemma_first_place(table, p, place, n - 1);
        lemma_concat(
            table.strokes_of_first(n - 1),
            crate::keymap::key_strokes(key, table.keycode(n - 1), count),
            p,
        );
        if n - 1 <= place.key {
            lemma_first_place_of_key(table, p, place, n - 1, count);
        }
    }
}

proof fn lemma_first_place_of_key(
    table: KeymapTable,
    p: spec_fn(Stroke) -> bool,
    place: Place,
    key: int,
    n: int,
)
    requires
        first_place(table, p, place),
        0 <= key <= place.key,
        0 <= n <= table.keys@[key].layouts@.len(),
    ensures
        crate::keymap::first_tap(
            crate::keymap::key_strokes(table.keys@[key], table.keycode(key), n),
            p,
        ) == (if key == place.key && place.layout < n {
            Some(place.tap(table))
        } else {
            None
        }),
    decreases n,
{
    if n > 0 {
        let keycode = table.keycode(key);
        let layout = table.keys@[key].layouts@[n - 1];
        let count = layout.levels@.len() as int;
        lemma_first_place_of_key(table, p, place, key, n - 1);
        lemma_concat(
            crate::keymap::key_strokes(table.keys@[key], keycode, n - 1),
            crate::keymap::layout_strokes(layout, keycode, count),
            p,
        );
        if key < place.key || n - 1 <= place.layout {
            lemma_first_place_of_layout(table, p, place, key, n - 1, count);
        }
    }
}

proof fn lemma_first_place_of_layout(
    table: KeymapTable,
    p: spec_fn(Stroke) -> bool,
    place: Place,
    key: int,
    layout: int,
    n: int,
)
    requires
        first_place(table, p, place),
        0 <= key <= place.key,
        0 <= layout < table.keys@[key].layouts@.len(),
        key < place.key || layout <= place.layout,
        0 <= n <= table.keys@[key].layouts@[layout].levels@.len(),
    ensures
        crate::keymap::first_tap(
            crate::keymap::layout_strokes(
                table.keys@[key].layouts@[layout],
                table.keycode(key),
                n,
            ),
            p,
        ) == (if key == place.key && layout == place.layout && place.level < n {
            Some(place.tap(table))
        } else {
            None
        }),
    decreases n,
{
    if n > 0 {
        let keycode = table.keycode(key);
        let symbols = table.keys@[key].layouts@[layout];
        lemma_first_place_of_layout(table, p, place, key, layout, n - 1);
        if n <= 4 {
            let level = crate::keymap::level_strokes(
                symbols.levels@[n - 1]@,
                crate::keymap::level_tap(keycode, n - 1),
            );
            lemma_concat(crate::keymap::layout_strokes(symbols, keycode, n - 1), level, p);
            crate::keymap::lemma_first_tap(level, p);
            let here = key == place.key && layout == place.layout;
            if here && n - 1 == place.level {
                lemma_tap(table, place);
                assert(level[place.index] == Stroke {
                    symbol: place.symbol(table),
                    tap: place.tap(table),
                });
                assert(p(level[place.index]));
            } else if !here || n - 1 < place.level {
                assert forall|k: int| 0 <= k < level.len() implies !p(#[trigger] level[k]) by {
                    let other = Place { key, layout, level: n - 1, index: k };
                    assert(other.within(table));
                    lemma_tap(table, other);
                    assert(other.before(place));
                }
            }
        }
    }
}

/// AltGr is pressed with the lowest key, other than the one with XKB keycode 108, that has the
/// keysym 0xfe03 at the first level of its first layout, whatever else the key has; `k` is where
/// it stands there.
pub proof fn law_altgr_is_the_lowest_third_level_key(table: KeymapTable, i: int, k: int)
    requires
        0 <= i < table.keys@.len(),
        table.min_keycode + i != 108,
        table.keys@[i].layouts@.len() > 0,
        table.keys@[i].layouts@[0].levels@.len() > 0,
        0 <= k < table.keys@[i].layouts@[0].levels@[0]@.len(),
        table.keys@[i].layouts@[0].levels@[0]@[k].keysym == 0xfe03,
        forall|j: int, m: int|
            #![trigger table.keys@[j].layouts@[0].levels@[0]@[m]]
            {
                &&& 0 <= j < i
                &&& table.keys@[j].layouts@.len() > 0
                &&& table.keys@[j].layouts@[0].levels@.len() > 0
                &&& 0 <= m < table.keys@[j].layouts@[0].levels@[0]@.len()
                &&& table.keys@[j].layouts@[0].levels@[0]@[m].keysym == 0xfe03
            } ==> table.min_keycode + j == 108,
    ensures
        ({
            let raw = table.min_keycode + i;
            let keycode = if raw < 8 {
                0
            } else if raw > 65543 {
                65535
            } else {
                raw - 8
            };
            &&& table.level3() == keycode
            &&& table.dedicated_level3() == Some(table.level3())
        }),
{
    assert(crate::keymap::level3_key(table, i));
    assert(crate::keymap::dedicated_level3_key(table, i));
    assert forall|j: int| 0 <= j < i implies !#[trigger] crate::keymap::dedicated_level3_key(
        table,
        j,
    ) by {
        if crate::keymap::level3_key(table, j) {
            let m = choose|m: int|
                0 <= m < table.keys@[j].layouts@[0].levels@[0]@.len() && (
                #[trigger] table.keys@[j].layouts@[0].levels@[0]@[m]).keysym
                    == crate::keymap::ISO_LEVEL3_SHIFT;
            assert(table.keys@[j].layouts@[0].levels@[0]@[m].keysym == 0xfe03);
        }
    }
    assert(crate::keymap::first_level3_key(table, i));
    let chosen = choose|i: int| crate::keymap::first_level3_key(table, i);
    assert(crate::keymap::first_level3_key(table, chosen));
    if chosen < i {
        assert(!crate::keymap::dedicated_level3_key(table, chosen));
    }
    if i < chosen {
        assert(!crate::keymap::dedicated_level3_key(table, i));
    }
}

/// AltGr is pressed with `RightAlt`, evdev keycode 100, where no other key has the keysym 0xfe03
/// at the first level of its first layout.
pub proof fn law_altgr_is_right_alt_otherwise(table: KeymapTable)
    requires
        forall|j: int, m: int|
            #![trigger table.keys@[j].layouts@[0].levels@[0]@[m]]
            {
                &&& 0 <= j < table.keys@.len()
                &&& table.keys@[j].layouts@.len() > 0
                &&& table.keys@[j].layouts@[0].levels@.len() > 0
                &&& 0 <= m < table.keys@[j].layouts@[0].levels@[0]@.len()
                &&& table.keys@[j].layouts@[0].levels@[0]@[m].keysym == 0xfe03
            } ==> table.min_keycode + j == 108,
    ensures
        table.level3() == 100,
        table.dedicated_level3() is None,
{
    assert forall|j: int| 0 <= j < table.keys@.len() implies !#[trigger]
    crate::keymap::dedicated_level3_key(table, j) by {
        if crate::keymap::level3_key(table, j) {
            let m = choose|m: int|
                0 <= m < table.keys@[j].layouts@[0].levels@[0]@.len() && (
                #[trigger] table.keys@[j].layouts@[0].levels@[0]@[m]).keysym
                    == crate::keymap::ISO_LEVEL3_SHIFT;
            assert(table.keys@[j].layouts@[0].levels@[0]@[m].keysym == 0xfe03);
        }
    }
    if table.dedicated_level3() is Some {
        let chosen = choose|i: int| crate::keymap::first_level3_key(table, i);
        assert(crate::keymap::first_level3_key(table, chosen));
        assert(!crate::keymap::dedicated_level3_key(table, chosen));
    }
}

/// Which key AltGr is pressed with depends on the first level of the first layout of each key
/// alone: two tables that agree there, however many layouts and levels follow, have the same.
pub proof fn law_later_layouts_do_not_change_altgr(a: KeymapTable, b: KeymapTable)
    requires
        a.min_keycode == b.min_keycode,
        a.keys@.len() == b.keys@.len(),
        forall|i: int|
            #![trigger a.keys@[i]]
            #![trigger b.keys@[i]]
            0 <= i < a.keys@.len() ==> {
                &&& a.keys@[i].layouts@.len() > 0 <==> b.keys@[i].layouts@.len() > 0
                &&& a.keys@[i].layouts@.len() > 0 ==> {
                    let x = a.keys@[i].layouts@[0].levels@;
                    let y = b.keys@[i].layouts@[0].levels@;
                    &&& x.len() > 0 <==> y.len() > 0
                    &&& x.len() > 0 ==> x[0]@ == y[0]@
                }
            },
    ensures
        a.level3() == b.level3(),
        a.dedicated_level3() == b.dedicated_level3(),
{
    assert forall|i: int|
        #![trigger crate::keymap::dedicated_level3_key(a, i)]
        #![trigger crate::keymap::dedicated_level3_key(b, i)]
        0 <= i < a.keys@.len() implies crate::keymap::dedicated_level3_key(a, i)
        == crate::keymap::dedicated_level3_key(b, i) by {
        assert(a.keys@[i].layouts@.len() > 0 <==> b.keys@[i].layouts@.len() > 0);
        if a.keys@[i].layouts@.len() > 0 && a.keys@[i].layouts@[0].levels@.len() > 0 {
            let x = a.keys@[i].layouts@[0].levels@[0]@;
            let y = b.keys@[i].layouts@[0].levels@[0]@;
            assert(x == y);
        }
    }
    assert forall|i: int| #[trigger] crate::keymap::first_level3_key(a, i) implies
        crate::keymap::first_level3_key(b, i) by {
        assert forall|j: int| 0 <= j < i implies !#[trigger] crate::keymap::dedicated_level3_key(
            b,
            j,
        ) by {
            assert(!crate::keymap::dedicated_level3_key(a, j));
        }
        assert(crate::keymap::dedicated_level3_key(a, i));
    }
    assert forall|i: int| #[trigger] crate::keymap::first_level3_key(b, i) implies
        crate::keymap::first_level3_key(a, i) by {
        assert forall|j: int| 0 <= j < i implies !#[trigger] crate::keymap::dedicated_level3_key(
            a,
            j,
        ) by {
            assert(!crate::keymap::dedicated_level3_key(b, j));
        }
        assert(crate::keymap::dedicated_level3_key(b, i));
    }
    if a.dedicated_level3() is Some {
        let i = choose|i: int| crate::keymap::first_level3_key(a, i);
        let j = choose|i: int| crate::keymap::first_level3_key(b, i);
        assert(crate::keymap::first_level3_key(b, i));
        assert(crate::keymap::first_level3_key(a, j));
        if i < j {
            assert(!crate::keymap::dedicated_level3_key(b, i));
        }
        if j < i {
            assert(!crate::keymap::dedicated_level3_key(a, j));
        }
    } else if b.dedicated_level3() is Some {
        let j = choose|i: int| crate::keymap::first_level3_key(b, i);
        assert(crate::keymap::first_level3_key(a, j));
    }
}

} // verus!
