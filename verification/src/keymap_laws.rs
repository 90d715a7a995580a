//! What holds of every keymap that the library makes, whatever the layout.

use vstd::prelude::*;

use crate::keymap::{KeymapTable, Stroke};
use crate::keys::{KeyTap, NamedKey};

verus! {

/// Whether `stroke` is symbol `k` of level `level`, in layout `layout` of the key at position
/// `key`, with the tap that reaches it.
pub open spec fn stands_at(
    table: KeymapTable,
    stroke: Stroke,
    key: int,
    layout: int,
    level: int,
    k: int,
) -> bool {
    &&& 0 <= key < table.keys@.len()
    &&& 0 <= layout < table.keys@[key].layouts@.len()
    &&& 0 <= level < table.keys@[key].layouts@[layout].levels@.len()
    &&& level <= 3
    &&& 0 <= k < table.keys@[key].layouts@[layout].levels@[level]@.len()
    &&& stroke.symbol == table.keys@[key].layouts@[layout].levels@[level]@[k]
    &&& stroke.tap == crate::keymap::level_tap(table.keycode(key), level)
}

/// The strokes of a keymap are the symbols of the first four levels of each key in each
/// layout, each with the tap that reaches it, and nothing else.
pub proof fn law_strokes_are_the_first_four_levels(table: KeymapTable, stroke: Stroke)
    ensures
        table.strokes().contains(stroke) <==> exists|key: int, layout: int, level: int, k: int|
            stands_at(table, stroke, key, layout, level, k),
{
    if table.strokes().contains(stroke) {
        lemma_stroke_stands(table, stroke, table.keys@.len() as int);
    }
    if exists|key: int, layout: int, level: int, k: int|
        stands_at(table, stroke, key, layout, level, k) {
        let (key, layout, level, k) = choose|key: int, layout: int, level: int, k: int|
            stands_at(table, stroke, key, layout, level, k);
        lemma_symbol_is_stroke(table, stroke, key, layout, level, k, table.keys@.len() as int);
    }
}

proof fn lemma_contains_concat(a: Seq<Stroke>, b: Seq<Stroke>, stroke: Stroke)
    ensures
        (a + b).contains(stroke) <==> a.contains(stroke) || b.contains(stroke),
{
    if a.contains(stroke) {
        let i = choose|i: int| 0 <= i < a.len() && a[i] == stroke;
        assert((a + b)[i] == stroke);
    }
    if b.contains(stroke) {
        let i = choose|i: int| 0 <= i < b.len() && b[i] == stroke;
        assert((a + b)[a.len() + i] == stroke);
    }
}

proof fn lemma_stroke_stands(table: KeymapTable, stroke: Stroke, n: int)
    requires
        n <= table.keys@.len(),
        table.strokes_of_first(n).contains(stroke),
    ensures
        exists|key: int, layout: int, level: int, k: int|
            stands_at(table, stroke, key, layout, level, k),
    decreases n,
{
    if n > 0 {
        let key = table.keys@[n - 1];
        let count = key.layouts@.len() as int;
        let last = crate::keymap::key_strokes(key, table.keycode(n - 1), count);
        lemma_contains_concat(table.strokes_of_first(n - 1), last, stroke);
        if last.contains(stroke) {
            lemma_key_stroke_stands(table, stroke, n - 1, count);
        } else {
            lemma_stroke_stands(table, stroke, n - 1);
        }
    }
}

proof fn lemma_key_stroke_stands(table: KeymapTable, stroke: Stroke, key: int, n: int)
    requires
        0 <= key < table.keys@.len(),
        n <= table.keys@[key].layouts@.len(),
        crate::keymap::key_strokes(table.keys@[key], table.keycode(key), n).contains(stroke),
    ensures
        exists|key: int, layout: int, level: int, k: int|
            stands_at(table, stroke, key, layout, level, k),
    decreases n,
{
    if n > 0 {
        let keycode = table.keycode(key);
        let layout = table.keys@[key].layouts@[n - 1];
        let count = layout.levels@.len() as int;
        let last = crate::keymap::layout_strokes(layout, keycode, count);
        lemma_contains_concat(
            crate::keymap::key_strokes(table.keys@[key], keycode, n - 1),
            last,
            stroke,
        );
        if last.contains(stroke) {
            lemma_layout_stroke_stands(table, stroke, key, n - 1, count);
        } else {
            lemma_key_stroke_stands(table, stroke, key, n - 1);
        }
    }
}

proof fn lemma_layout_stroke_stands(
    table: KeymapTable,
    stroke: Stroke,
    key: int,
    layout: int,
    n: int,
)
    requires
        0 <= key < table.keys@.len(),
        0 <= layout < table.keys@[key].layouts@.len(),
        n <= table.keys@[key].layouts@[layout].levels@.len(),
        crate::keymap::layout_strokes(
            table.keys@[key].layouts@[layout],
            table.keycode(key),
            n,
        ).contains(stroke),
    ensures
        exists|key: int, layout: int, level: int, k: int|
            stands_at(table, stroke, key, layout, level, k),
    decreases n,
{
    let symbols = table.keys@[key].layouts@[layout];
    let keycode = table.keycode(key);
    if n > 4 {
        lemma_layout_stroke_stands(table, stroke, key, layout, n - 1);
    } else if n > 0 {
        let last = crate::keymap::level_strokes(
            symbols.levels@[n - 1]@,
            crate::keymap::level_tap(keycode, n - 1),
        );
        lemma_contains_concat(
            crate::keymap::layout_strokes(symbols, keycode, n - 1),
            last,
            stroke,
        );
        if last.contains(stroke) {
            let k = choose|k: int| 0 <= k < last.len() && last[k] == stroke;
            assert(stands_at(table, stroke, key, layout, n - 1, k));
        } else {
            lemma_layout_stroke_stands(table, stroke, key, layout, n - 1);
        }
    }
}

proof fn lemma_symbol_is_stroke(
    table: KeymapTable,
    stroke: Stroke,
    key: int,
    layout: int,
    level: int,
    k: int,
    n: int,
)
    requires
        stands_at(table, stroke, key, layout, level, k),
        key < n <= table.keys@.len(),
    ensures
        table.strokes_of_first(n).contains(stroke),
    decreases n,
{
    let last = table.keys@[n - 1];
    let count = last.layouts@.len() as int;
    lemma_contains_concat(
        table.strokes_of_first(n - 1),
        crate::keymap::key_strokes(last, table.keycode(n - 1), count),
        stroke,
    );
    if key == n - 1 {
        lemma_symbol_is_key_stroke(table, stroke, key, layout, level, k, count);
    } else {
        lemma_symbol_is_stroke(table, stroke, key, layout, level, k, n - 1);
    }
}

proof fn lemma_symbol_is_key_stroke(
    table: KeymapTable,
    stroke: Stroke,
    key: int,
    layout: int,
    level: int,
    k: int,
    n: int,
)
    requires
        stands_at(table, stroke, key, layout, level, k),
        layout < n <= table.keys@[key].layouts@.len(),
    ensures
        crate::keymap::key_strokes(table.keys@[key], table.keycode(key), n).contains(stroke),
    decreases n,
{
    let keycode = table.keycode(key);
    let last = table.keys@[key].layouts@[n - 1];
    let count = last.levels@.len() as int;
    lemma_contains_concat(
        crate::keymap::key_strokes(table.keys@[key], keycode, n - 1),
        crate::keymap::layout_strokes(last, keycode, count),
        stroke,
    );
    if layout == n - 1 {
        lemma_symbol_is_layout_stroke(table, stroke, key, layout, level, k, count);
    } else {
        lemma_symbol_is_key_stroke(table, stroke, key, layout, level, k, n - 1);
    }
}

proof fn lemma_symbol_is_layout_stroke(
    table: KeymapTable,
    stroke: Stroke,
    key: int,
    layout: int,
    level: int,
    k: int,
    n: int,
)
    requires
        stands_at(table, stroke, key, layout, level, k),
        level < n <= table.keys@[key].layouts@[layout].levels@.len(),
    ensures
        crate::keymap::layout_strokes(
            table.keys@[key].layouts@[layout],
            table.keycode(key),
            n,
        ).contains(stroke),
    decreases n,
{
    let symbols = table.keys@[key].layouts@[layout];
    let keycode = table.keycode(key);
    if n > 4 {
        lemma_symbol_is_layout_stroke(table, stroke, key, layout, level, k, n - 1);
    } else {
        let last = crate::keymap::level_strokes(
            symbols.levels@[n - 1]@,
            crate::keymap::level_tap(keycode, n - 1),
        );
        lemma_contains_concat(
            crate::keymap::layout_strokes(symbols, keycode, n - 1),
            last,
            stroke,
        );
        if level == n - 1 {
            assert(last[k] == stroke);
        } else {
            lemma_symbol_is_layout_stroke(table, stroke, key, layout, level, k, n - 1);
        }
    }
}

/// The first stroke that types a character is the one that is used for it: nothing that a
/// later one gives replaces it.
pub proof fn law_first_stroke_wins(table: KeymapTable, c: char)
    ensures
        match table.direct_tap(c) {
            Some(tap) => exists|i: int| #[trigger]
                crate::keymap::first_at(
                    table.strokes(),
                    crate::keymap::typing(c as u32),
                    i,
                ) && table.strokes()[i].tap == tap,
            None => forall|i: int|
                0 <= i < table.strokes().len() ==> !crate::keymap::typing(c as u32)(
                    #[trigger] table.strokes()[i],
                ),
        },
{
    crate::keymap::lemma_first_tap(table.strokes(), crate::keymap::typing(c as u32));
}

/// A character that the keys below position `n` type is typed with one of them, whatever the
/// keys from there on give.
pub proof fn law_lower_keycodes_win(table: KeymapTable, c: char, n: int)
    requires
        0 <= n <= table.keys@.len(),
        crate::keymap::first_tap(
            table.strokes_of_first(n),
            crate::keymap::typing(c as u32),
        ) is Some,
    ensures
        table.direct_tap(c) == crate::keymap::first_tap(
            table.strokes_of_first(n),
            crate::keymap::typing(c as u32),
        ),
{
    lemma_more_keys(table, c, n, table.keys@.len() as int);
}

proof fn lemma_more_keys(table: KeymapTable, c: char, n: int, m: int)
    requires
        0 <= n <= m <= table.keys@.len(),
        crate::keymap::first_tap(
            table.strokes_of_first(n),
            crate::keymap::typing(c as u32),
        ) is Some,
    ensures
        crate::keymap::first_tap(table.strokes_of_first(m), crate::keymap::typing(c as u32))
            == crate::keymap::first_tap(
            table.strokes_of_first(n),
            crate::keymap::typing(c as u32),
        ),
    decreases m,
{
    if n < m {
        lemma_more_keys(table, c, n, m - 1);
        let key = table.keys@[m - 1];
        lemma_first_tap_concat(
            table.strokes_of_first(m - 1),
            crate::keymap::key_strokes(key, table.keycode(m - 1), key.layouts@.len() as int),
            crate::keymap::typing(c as u32),
        );
    }
}

proof fn lemma_first_tap_concat(a: Seq<Stroke>, b: Seq<Stroke>, p: spec_fn(Stroke) -> bool)
    requires
        crate::keymap::first_tap(a, p) is Some,
    ensures
        crate::keymap::first_tap(a + b, p) == crate::keymap::first_tap(a, p),
    decreases b.len(),
{
    if b.len() == 0 {
        assert(a + b == a);
    } else {
        assert((a + b).drop_last() == a + b.drop_last());
        lemma_first_tap_concat(a, b.drop_last(), p);
    }
}

/// Whether `tap` reaches a symbol of the keymap that `p` holds of.
pub open spec fn reaches(
    table: KeymapTable,
    tap: KeyTap,
    p: spec_fn(Stroke) -> bool,
) -> bool {
    exists|stroke: Stroke, key: int, layout: int, level: int, k: int| #[trigger]
        stands_at(table, stroke, key, layout, level, k) && stroke.tap == tap && p(stroke)
}

/// The taps for a character give it on the compiled keymap: a single tap reaches the character
/// itself; of two taps the first reaches the dead key, and the second is Space for a literal
/// and reaches the base letter for an accented letter.
pub proof fn law_taps_give_their_character(table: KeymapTable, c: char)
    requires
        table.reverse().contains_key(c),
    ensures
        ({
            let mapping = table.reverse()[c];
            match (mapping.follow, crate::keymap::literal_recipe(c)) {
                (None, _) => reaches(table, mapping.main, crate::keymap::typing(c as u32)),
                (Some(follow), Some(dead)) => {
                    &&& reaches(table, mapping.main, crate::keymap::giving(dead))
                    &&& follow == KeyTap::plain(NamedKey::Space.keycode())
                },
                (Some(follow), None) => {
                    &&& crate::keymap::accent_recipe(c) is Some
                    &&& reaches(
                        table,
                        mapping.main,
                        crate::keymap::giving((crate::keymap::accent_recipe(c)->0).1),
                    )
                    &&& reaches(
                        table,
                        follow,
                        crate::keymap::typing((crate::keymap::accent_recipe(c)->0).0 as u32),
                    )
                },
            }
        }),
{
    lemma_first_tap_reaches(table, crate::keymap::typing(c as u32));
    if let Some(dead) = crate::keymap::literal_recipe(c) {
        lemma_first_tap_reaches(table, crate::keymap::giving(dead));
    }
    if let Some((base, dead)) = crate::keymap::accent_recipe(c) {
        lemma_first_tap_reaches(table, crate::keymap::giving(dead));
        lemma_first_tap_reaches(table, crate::keymap::typing(base as u32));
    }
}

proof fn lemma_first_tap_reaches(table: KeymapTable, p: spec_fn(Stroke) -> bool)
    ensures
        crate::keymap::first_tap(table.strokes(), p) matches Some(tap) ==> reaches(table, tap, p),
{
    crate::keymap::lemma_first_tap(table.strokes(), p);
    if let Some(tap) = crate::keymap::first_tap(table.strokes(), p) {
        let i = choose|i: int| #[trigger]
            crate::keymap::first_at(table.strokes(), p, i) && table.strokes()[i].tap == tap;
        let stroke = table.strokes()[i];
        law_strokes_are_the_first_four_levels(table, stroke);
        let (key, layout, level, k) = choose|key: int, layout: int, level: int, k: int|
            stands_at(table, stroke, key, layout, level, k);
        assert(stands_at(table, stroke, key, layout, level, k) && stroke.tap == tap && p(stroke));
    }
}

/// A character that some key types on one of its first four levels, in any layout, can be
/// typed by one tap.
pub proof fn law_every_symbol_can_be_typed(table: KeymapTable, c: char, tap: KeyTap)
    requires
        reaches(table, tap, crate::keymap::typing(c as u32)),
    ensures
        table.reverse().contains_key(c),
        table.reverse()[c].follow is None,
{
    let (stroke, key, layout, level, k) = choose|
        stroke: Stroke,
        key: int,
        layout: int,
        level: int,
        k: int,
    | #[trigger]
        stands_at(table, stroke, key, layout, level, k) && stroke.tap == tap
            && crate::keymap::typing(c as u32)(stroke);
    law_strokes_are_the_first_four_levels(table, stroke);
    let i = choose|i: int| 0 <= i < table.strokes().len() && table.strokes()[i] == stroke;
    law_first_stroke_wins(table, c);
    assert(crate::keymap::typing(c as u32)(table.strokes()[i]));
}

/// A character that the keymap types by one tap keeps that tap: a dead-key sequence never
/// replaces it, also where there is one.
pub proof fn law_direct_taps_are_kept(table: KeymapTable, c: char)
    requires
        table.direct_tap(c) is Some,
    ensures
        table.mapping(c) == Some(crate::keymap::direct(table.direct_tap(c)->0)),
        table.reverse().contains_key(c),
        table.reverse()[c].follow is None,
{
}

/// A literal that is typed with a dead key ends with Space, and neither Shift nor AltGr is held
/// for it.
pub proof fn law_synthesized_literals_end_with_space(table: KeymapTable, c: char)
    requires
        crate::keymap::literal_recipe(c) is Some,
        table.reverse().contains_key(c),
        table.reverse()[c].follow is Some,
    ensures
        table.reverse()[c].follow == Some(KeyTap::plain(NamedKey::Space.keycode())),
        table.dead_tap(crate::keymap::literal_recipe(c)->0) == Some(table.reverse()[c].main),
{
}

/// An accented letter that is typed with a dead key ends with the tap that types its base
/// letter.
pub proof fn law_synthesized_letters_end_with_their_base(table: KeymapTable, c: char)
    requires
        crate::keymap::accent_recipe(c) is Some,
        table.reverse().contains_key(c),
        table.reverse()[c].follow is Some,
    ensures
        ({
            let (base, dead) = crate::keymap::accent_recipe(c)->0;
            let mapping = table.reverse()[c];
            &&& table.dead_tap(dead) == Some(mapping.main)
            &&& table.reverse().contains_key(base)
            &&& table.reverse()[base] == crate::keymap::direct(mapping.follow->0)
        }),
{
    let (base, _) = crate::keymap::accent_recipe(c)->0;
    lemma_mapping_of(table, base);
}

proof fn lemma_mapping_of(table: KeymapTable, c: char)
    ensures
        table.reverse().contains_key(c) <==> table.mapping(c) is Some,
        table.reverse().contains_key(c) ==> table.reverse()[c] == table.mapping(c)->0,
{
}

/// Only the literals and the accented letters with a recipe are ever typed with a dead key.
pub proof fn law_only_recipes_are_synthesized(table: KeymapTable, c: char)
    requires
        table.reverse().contains_key(c),
        table.reverse()[c].follow is Some,
    ensures
        crate::keymap::literal_recipe(c) is Some || crate::keymap::accent_recipe(c) is Some,
        table.direct_tap(c) is None,
{
}

/// Every literal whose dead key the layout has can be typed.
pub proof fn law_literals_with_a_dead_key_are_typed(table: KeymapTable, c: char)
    requires
        crate::keymap::literal_recipe(c) is Some,
        table.dead_tap(crate::keymap::literal_recipe(c)->0) is Some,
    ensures
        table.reverse().contains_key(c),
{
}

/// Every accented letter can be typed whose dead key the layout has and whose base letter it
/// types by one tap.
pub proof fn law_letters_with_a_dead_key_are_typed(table: KeymapTable, c: char)
    requires
        crate::keymap::accent_recipe(c) is Some,
        table.dead_tap((crate::keymap::accent_recipe(c)->0).1) is Some,
        table.direct_tap((crate::keymap::accent_recipe(c)->0).0) is Some,
    ensures
        table.reverse().contains_key(c),
{
}

/// AltGr is pressed with the first dedicated third-level key, which is never `RightAlt`; with
/// `RightAlt` exactly where the keymap has no dedicated one.
pub proof fn law_altgr_prefers_the_dedicated_key(table: KeymapTable)
    ensures
        match table.dedicated_level3() {
            Some(keycode) => {
                &&& table.level3() == keycode
                &&& keycode != NamedKey::RightAlt.keycode()
                &&& exists|i: int| #[trigger]
                    crate::keymap::first_level3_key(table, i) && table.keycode(i) == keycode
            },
            None => {
                &&& table.level3() == NamedKey::RightAlt.keycode()
                &&& forall|i: int|
                    0 <= i < table.keys@.len() ==> !#[trigger]
                    crate::keymap::dedicated_level3_key(table, i)
            },
        },
{
    if table.dedicated_level3() is None {
        assert forall|i: int| 0 <= i < table.keys@.len() implies !#[trigger]
        crate::keymap::dedicated_level3_key(table, i) by {
            if crate::keymap::dedicated_level3_key(table, i) {
                lemma_first_dedicated(table, i);
            }
        }
    }
}

proof fn lemma_first_dedicated(table: KeymapTable, i: int)
    requires
        0 <= i < table.keys@.len(),
        crate::keymap::dedicated_level3_key(table, i),
    ensures
        exists|j: int| crate::keymap::first_level3_key(table, j),
    decreases i,
{
    if exists|j: int| 0 <= j < i && #[trigger] crate::keymap::dedicated_level3_key(table, j) {
        let j = choose|j: int|
            0 <= j < i && #[trigger] crate::keymap::dedicated_level3_key(table, j);
        lemma_first_dedicated(table, j);
    } else {
        assert(crate::keymap::first_level3_key(table, i));
    }
}

} // verus!
