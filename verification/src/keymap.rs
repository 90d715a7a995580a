//! The reverse of a compiled XKB keymap: which taps type which character.

use std::collections::HashMap;

use vstd::prelude::*;

use crate::keys::{KeyMapping, KeyTap, NamedKey};
use crate::layout::KeyboardLayout;

verus! {

broadcast use vstd::std_specs::hash::group_hash_axioms;

/// The keysyms that the library tells apart, by their values in `xkbcommon-keysyms.h`.
pub const ISO_LEVEL3_SHIFT: u32 = 0xfe03;

pub const DEAD_GRAVE: u32 = 0xfe50;

pub const DEAD_ACUTE: u32 = 0xfe51;

pub const DEAD_CIRCUMFLEX: u32 = 0xfe52;

pub const DEAD_TILDE: u32 = 0xfe53;

pub const DEAD_DIAERESIS: u32 = 0xfe57;

pub const DEAD_CEDILLA: u32 = 0xfe5b;

/// One keysym of a keymap, with the Unicode scalar value that it stands for, 0 for none.
#[derive(Clone, Copy, Debug, PartialEq, Eq, Structural)]
pub struct Symbol {
    pub keysym: u32,
    pub utf32: u32,
}

/// What one key gives in one layout: the symbols of each shift level.
#[derive(Clone, Debug)]
pub struct LayoutSymbols {
    pub levels: Vec<Vec<Symbol>>,
}

/// What one key gives in each layout of the keymap.
#[derive(Clone, Debug)]
pub struct KeySymbols {
    pub layouts: Vec<LayoutSymbols>,
}

/// What a compiled keymap gives for each key: `keys[i]` belongs to the XKB keycode
/// `min_keycode + i`.
#[derive(Clone, Debug)]
pub struct KeymapTable {
    pub min_keycode: u32,
    pub keys: Vec<KeySymbols>,
}

/// Punctuation that a dead key followed by Space gives.
pub const LITERAL_VIA_DEAD_KEY: [(char, u32); 5] = [
    ('\'', DEAD_ACUTE),
    ('"', DEAD_DIAERESIS),
    ('~', DEAD_TILDE),
    ('`', DEAD_GRAVE),
    ('^', DEAD_CIRCUMFLEX),
];

/// Accented letters that a dead key followed by the base letter gives.
pub const ACCENTED_VIA_DEAD_KEY: [(char, char, u32); 38] = [
    ('ã', 'a', DEAD_TILDE),
    ('õ', 'o', DEAD_TILDE),
    ('ñ', 'n', DEAD_TILDE),
    ('Ã', 'A', DEAD_TILDE),
    ('Õ', 'O', DEAD_TILDE),
    ('Ñ', 'N', DEAD_TILDE),
    ('á', 'a', DEAD_ACUTE),
    ('é', 'e', DEAD_ACUTE),
    ('í', 'i', DEAD_ACUTE),
    ('ó', 'o', DEAD_ACUTE),
    ('ú', 'u', DEAD_ACUTE),
    ('ý', 'y', DEAD_ACUTE),
    ('Á', 'A', DEAD_ACUTE),
    ('É', 'E', DEAD_ACUTE),
    ('Í', 'I', DEAD_ACUTE),
    ('Ó', 'O', DEAD_ACUTE),
    ('Ú', 'U', DEAD_ACUTE),
    ('â', 'a', DEAD_CIRCUMFLEX),
    ('ê', 'e', DEAD_CIRCUMFLEX),
    ('î', 'i', DEAD_CIRCUMFLEX),
    ('ô', 'o', DEAD_CIRCUMFLEX),
    ('û', 'u', DEAD_CIRCUMFLEX),
    ('Â', 'A', DEAD_CIRCUMFLEX),
    ('Ê', 'E', DEAD_CIRCUMFLEX),
    ('Ô', 'O', DEAD_CIRCUMFLEX),
    ('à', 'a', DEAD_GRAVE),
    ('è', 'e', DEAD_GRAVE),
    ('ì', 'i', DEAD_GRAVE),
    ('ò', 'o', DEAD_GRAVE),
    ('ù', 'u', DEAD_GRAVE),
    ('À', 'A', DEAD_GRAVE),
    ('ä', 'a', DEAD_DIAERESIS),
    ('ë', 'e', DEAD_DIAERESIS),
    ('ï', 'i', DEAD_DIAERESIS),
    ('ö', 'o', DEAD_DIAERESIS),
    ('ü', 'u', DEAD_DIAERESIS),
    ('ç', 'c', DEAD_CEDILLA),
    ('Ç', 'C', DEAD_CEDILLA),
];

/// The evdev keycode of an XKB keycode: 8 less, kept within 16 bits.
pub open spec fn evdev_keycode(raw: int) -> u16 {
    if raw < 8 {
        0
    } else if raw - 8 > u16::MAX {
        u16::MAX
    } else {
        (raw - 8) as u16
    }
}

/// The tap that reaches shift level `level` of a key: Shift for the second and the fourth,
/// AltGr for the third and the fourth.
pub open spec fn level_tap(keycode: u16, level: int) -> KeyTap {
    KeyTap { keycode, shift: level == 1 || level == 3, altgr: level == 2 || level == 3 }
}

/// A symbol of the keymap and the tap that gives it.
pub struct Stroke {
    pub symbol: Symbol,
    pub tap: KeyTap,
}

/// The strokes of one level: its symbols, all by the same tap.
pub open spec fn level_strokes(symbols: Seq<Symbol>, tap: KeyTap) -> Seq<Stroke> {
    symbols.map_values(|symbol: Symbol| Stroke { symbol, tap })
}

/// The strokes of the first `n` levels of a key in one layout. Beyond the fourth level no tap
/// leads to a symbol.
pub open spec fn layout_strokes(layout: LayoutSymbols, keycode: u16, n: int) -> Seq<Stroke>
    decreases n,
{
    if n <= 0 {
        Seq::empty()
    } else if n > 4 {
        layout_strokes(layout, keycode, n - 1)
    } else {
        layout_strokes(layout, keycode, n - 1) + level_strokes(
            layout.levels@[n - 1]@,
            level_tap(keycode, n - 1),
        )
    }
}

/// The strokes of a key in its first `n` layouts.
pub open spec fn key_strokes(key: KeySymbols, keycode: u16, n: int) -> Seq<Stroke>
    decreases n,
{
    if n <= 0 {
        Seq::empty()
    } else {
        let layout = key.layouts@[n - 1];
        key_strokes(key, keycode, n - 1) + layout_strokes(
            layout,
            keycode,
            layout.levels@.len() as int,
        )
    }
}

impl KeymapTable {
    /// The evdev keycode of the key at position `i`.
    pub open spec fn keycode(self, i: int) -> u16 {
        evdev_keycode(self.min_keycode + i)
    }

    /// The strokes of the first `n` keys.
    pub open spec fn strokes_of_first(self, n: int) -> Seq<Stroke>
        decreases n,
    {
        if n <= 0 {
            Seq::empty()
        } else {
            let key = self.keys@[n - 1];
            self.strokes_of_first(n - 1) + key_strokes(
                key,
                self.keycode(n - 1),
                key.layouts@.len() as int,
            )
        }
    }

    /// All strokes of the keymap: key by key, within a key layout by layout, and within a
    /// layout level by level.
    pub open spec fn strokes(self) -> Seq<Stroke> {
        self.strokes_of_first(self.keys@.len() as int)
    }
}

/// Whether a keysym is one of the dead keys that the library combines.
pub open spec fn dead_key(keysym: u32) -> bool {
    ||| keysym == DEAD_GRAVE
    ||| keysym == DEAD_ACUTE
    ||| keysym == DEAD_CIRCUMFLEX
    ||| keysym == DEAD_TILDE
    ||| keysym == DEAD_DIAERESIS
    ||| keysym == DEAD_CEDILLA
}

/// Whether `v` is a Unicode scalar value.
pub open spec fn scalar_value(v: u32) -> bool {
    v <= 0xd7ff || 0xe000 <= v <= 0x10ffff
}

/// The strokes that type the character with scalar value `v`.
pub open spec fn typing(v: u32) -> spec_fn(Stroke) -> bool {
    |stroke: Stroke|
        {
            &&& !dead_key(stroke.symbol.keysym)
            &&& stroke.symbol.utf32 == v
            &&& v != 0
            &&& scalar_value(v)
        }
}

/// The strokes that give the keysym `keysym`.
pub open spec fn giving(keysym: u32) -> spec_fn(Stroke) -> bool {
    |stroke: Stroke| stroke.symbol.keysym == keysym
}

/// The tap of the first of `strokes` that `p` holds of.
pub open spec fn first_tap(strokes: Seq<Stroke>, p: spec_fn(Stroke) -> bool) -> Option<KeyTap>
    decreases strokes.len(),
{
    if strokes.len() == 0 {
        None
    } else {
        match first_tap(strokes.drop_last(), p) {
            Some(tap) => Some(tap),
            None => if p(strokes.last()) {
                Some(strokes.last().tap)
            } else {
                None
            },
        }
    }
}

/// The evdev keycode of an XKB keycode.
fn to_evdev(raw: u64) -> (keycode: u16)
    ensures
        keycode == evdev_keycode(raw as int),
{
    let shifted: u64 = raw.saturating_sub(8);
    if shifted > 0xffff {
        0xffff
    } else {
        shifted as u16
    }
}

/// Whether a keysym is one of the dead keys that the library combines.
fn is_dead_key(keysym: u32) -> (yes: bool)
    ensures
        yes == dead_key(keysym),
{
    keysym == DEAD_GRAVE || keysym == DEAD_ACUTE || keysym == DEAD_CIRCUMFLEX || keysym
        == DEAD_TILDE || keysym == DEAD_DIAERESIS || keysym == DEAD_CEDILLA
}

/// Whether `v` is a Unicode scalar value.
fn is_scalar_value(v: u32) -> (yes: bool)
    ensures
        yes == scalar_value(v),
{
    v <= 0xd7ff || (0xe000 <= v && v <= 0x10ffff)
}

/// The mapping of a character that one tap types.
pub open spec fn direct(tap: KeyTap) -> KeyMapping {
    KeyMapping { main: tap, follow: None }
}

/// What the two tables hold once `strokes` have been read: each character by the first stroke
/// that types it, and each dead key by the first stroke that gives it.
spec fn collected(
    typed: Map<u32, KeyMapping>,
    dead: Map<u32, KeyTap>,
    strokes: Seq<Stroke>,
) -> bool {
    &&& forall|v: u32| #[trigger]
        typed.contains_key(v) <==> first_tap(strokes, typing(v)) is Some
    &&& forall|v: u32| #[trigger]
        typed.contains_key(v) ==> typed[v] == direct(first_tap(strokes, typing(v))->0)
    &&& forall|k: u32| #[trigger]
        dead.contains_key(k) <==> dead_key(k) && first_tap(strokes, giving(k)) is Some
    &&& forall|k: u32| #[trigger]
        dead.contains_key(k) ==> dead[k] == first_tap(strokes, giving(k))->0
}

/// Reads one symbol.
fn read_symbol(
    typed: &mut HashMap<u32, KeyMapping>,
    dead: &mut HashMap<u32, KeyTap>,
    symbol: Symbol,
    tap: KeyTap,
    Ghost(before): Ghost<Seq<Stroke>>,
)
    requires
        collected(old(typed)@, old(dead)@, before),
    ensures
        collected(final(typed)@, final(dead)@, before.push(Stroke { symbol, tap })),
{
    proof {
        let stroke = Stroke { symbol, tap };
        let after = before.push(stroke);
        assert(after.drop_last() == before);
        assert forall|p: spec_fn(Stroke) -> bool| #[trigger]
            first_tap(after, p) == (match first_tap(before, p) {
                Some(t) => Some(t),
                None => if p(stroke) {
                    Some(tap)
                } else {
                    None
                },
            }) by {
            assert(after.last() == stroke);
        }
    }
    if is_dead_key(symbol.keysym) {
        if !dead.contains_key(&symbol.keysym) {
            dead.insert(symbol.keysym, tap);
        }
    } else if symbol.utf32 != 0 && is_scalar_value(symbol.utf32) {
        if !typed.contains_key(&symbol.utf32) {
            typed.insert(symbol.utf32, KeyMapping { main: tap, follow: None });
        }
    }
}

/// Reads the symbols of one level.
fn read_level(
    typed: &mut HashMap<u32, KeyMapping>,
    dead: &mut HashMap<u32, KeyTap>,
    symbols: &Vec<Symbol>,
    tap: KeyTap,
    Ghost(before): Ghost<Seq<Stroke>>,
)
    requires
        collected(old(typed)@, old(dead)@, before),
    ensures
        collected(final(typed)@, final(dead)@, before + level_strokes(symbols@, tap)),
{
    let mut i: usize = 0;
    assert(before + level_strokes(symbols@.take(0), tap) == before);
    while i < symbols.len()
        invariant
            i <= symbols@.len(),
            collected(typed@, dead@, before + level_strokes(symbols@.take(i as int), tap)),
        decreases symbols@.len() - i,
    {
        let ghost sofar = before + level_strokes(symbols@.take(i as int), tap);
        read_symbol(typed, dead, symbols[i], tap, Ghost(sofar));
        assert(sofar.push(Stroke { symbol: symbols@[i as int], tap }) == before + level_strokes(
            symbols@.take(i + 1),
            tap,
        ));
        i += 1;
    }
    assert(symbols@.take(i as int) == symbols@);
}

/// Reads the levels of one key in one layout.
fn read_layout(
    typed: &mut HashMap<u32, KeyMapping>,
    dead: &mut HashMap<u32, KeyTap>,
    layout: &LayoutSymbols,
    keycode: u16,
    Ghost(before): Ghost<Seq<Stroke>>,
)
    requires
        collected(old(typed)@, old(dead)@, before),
    ensures
        collected(
            final(typed)@,
            final(dead)@,
            before + layout_strokes(*layout, keycode, layout.levels@.len() as int),
        ),
{
    let mut level: usize = 0;
    assert(before + layout_strokes(*layout, keycode, 0) == before);
    while level < layout.levels.len()
        invariant
            level <= layout.levels@.len(),
            collected(typed@, dead@, before + layout_strokes(*layout, keycode, level as int)),
        decreases layout.levels@.len() - level,
    {
        if level <= 3 {
            let shift = level == 1 || level == 3;
            let altgr = level == 2 || level == 3;
            let tap = KeyTap { keycode, shift, altgr };
            let ghost sofar = before + layout_strokes(*layout, keycode, level as int);
            read_level(typed, dead, &layout.levels[level], tap, Ghost(sofar));
            assert(sofar + level_strokes(layout.levels@[level as int]@, tap) == before
                + layout_strokes(*layout, keycode, level + 1));
        }
        level += 1;
    }
}

/// Reads the layouts of one key.
fn read_key(
    typed: &mut HashMap<u32, KeyMapping>,
    dead: &mut HashMap<u32, KeyTap>,
    key: &KeySymbols,
    keycode: u16,
    Ghost(before): Ghost<Seq<Stroke>>,
)
    requires
        collected(old(typed)@, old(dead)@, before),
    ensures
        collected(
            final(typed)@,
            final(dead)@,
            before + key_strokes(*key, keycode, key.layouts@.len() as int),
        ),
{
    let mut layout: usize = 0;
    assert(before + key_strokes(*key, keycode, 0) == before);
    while layout < key.layouts.len()
        invariant
            layout <= key.layouts@.len(),
            collected(typed@, dead@, before + key_strokes(*key, keycode, layout as int)),
        decreases key.layouts@.len() - layout,
    {
        let ghost sofar = before + key_strokes(*key, keycode, layout as int);
        read_layout(typed, dead, &key.layouts[layout], keycode, Ghost(sofar));
        assert(sofar + layout_strokes(
            key.layouts@[layout as int],
            keycode,
            key.layouts@[layout as int].levels@.len() as int,
        ) == before + key_strokes(*key, keycode, layout + 1));
        layout += 1;
    }
}

/// Reads the whole keymap.
fn read_table(table: &KeymapTable) -> (read: (HashMap<u32, KeyMapping>, HashMap<u32, KeyTap>))
    ensures
        collected(read.0@, read.1@, table.strokes()),
{
    let mut typed: HashMap<u32, KeyMapping> = HashMap::new();
    let mut dead: HashMap<u32, KeyTap> = HashMap::new();
    let mut i: usize = 0;
    while i < table.keys.len()
        invariant
            i <= table.keys@.len(),
            collected(typed@, dead@, table.strokes_of_first(i as int)),
        decreases table.keys@.len() - i,
    {
        let keycode = key_at(table, i);
        read_key(
            &mut typed,
            &mut dead,
            &table.keys[i],
            keycode,
            Ghost(table.strokes_of_first(i as int)),
        );
        i += 1;
    }
    (typed, dead)
}

/// The evdev keycode of the key at position `i`.
fn key_at(table: &KeymapTable, i: usize) -> (keycode: u16)
    ensures
        keycode == table.keycode(i as int),
{
    to_evdev((table.min_keycode as u64).saturating_add(i as u64))
}

/// The dead key that gives `c` when Space follows it.
pub open spec fn literal_recipe(c: char) -> Option<u32> {
    match c {
        '\'' => Some(DEAD_ACUTE),
        '"' => Some(DEAD_DIAERESIS),
        '~' => Some(DEAD_TILDE),
        '`' => Some(DEAD_GRAVE),
        '^' => Some(DEAD_CIRCUMFLEX),
        _ => None,
    }
}

/// The base letter of `c` and the dead key that gives `c` when that letter follows it.
pub open spec fn accent_recipe(c: char) -> Option<(char, u32)> {
    match c {
        'ã' => Some(('a', DEAD_TILDE)),
        'õ' => Some(('o', DEAD_TILDE)),
        'ñ' => Some(('n', DEAD_TILDE)),
        'Ã' => Some(('A', DEAD_TILDE)),
        'Õ' => Some(('O', DEAD_TILDE)),
        'Ñ' => Some(('N', DEAD_TILDE)),
        'á' => Some(('a', DEAD_ACUTE)),
        'é' => Some(('e', DEAD_ACUTE)),
        'í' => Some(('i', DEAD_ACUTE)),
        'ó' => Some(('o', DEAD_ACUTE)),
        'ú' => Some(('u', DEAD_ACUTE)),
        'ý' => Some(('y', DEAD_ACUTE)),
        'Á' => Some(('A', DEAD_ACUTE)),
        'É' => Some(('E', DEAD_ACUTE)),
        'Í' => Some(('I', DEAD_ACUTE)),
        'Ó' => Some(('O', DEAD_ACUTE)),
        'Ú' => Some(('U', DEAD_ACUTE)),
        'â' => Some(('a', DEAD_CIRCUMFLEX)),
        'ê' => Some(('e', DEAD_CIRCUMFLEX)),
        'î' => Some(('i', DEAD_CIRCUMFLEX)),
        'ô' => Some(('o', DEAD_CIRCUMFLEX)),
        'û' => Some(('u', DEAD_CIRCUMFLEX)),
        'Â' => Some(('A', DEAD_CIRCUMFLEX)),
        'Ê' => Some(('E', DEAD_CIRCUMFLEX)),
        'Ô' => Some(('O', DEAD_CIRCUMFLEX)),
        'à' => Some(('a', DEAD_GRAVE)),
        'è' => Some(('e', DEAD_GRAVE)),
        'ì' => Some(('i', DEAD_GRAVE)),
        'ò' => Some(('o', DEAD_GRAVE)),
        'ù' => Some(('u', DEAD_GRAVE)),
        'À' => Some(('A', DEAD_GRAVE)),
        'ä' => Some(('a', DEAD_DIAERESIS)),
        'ë' => Some(('e', DEAD_DIAERESIS)),
        'ï' => Some(('i', DEAD_DIAERESIS)),
        'ö' => Some(('o', DEAD_DIAERESIS)),
        'ü' => Some(('u', DEAD_DIAERESIS)),
        'ç' => Some(('c', DEAD_CEDILLA)),
        'Ç' => Some(('C', DEAD_CEDILLA)),
        _ => None,
    }
}

/// The table of literals holds their recipes.
proof fn lemma_literal_entry(i: int)
    requires
        0 <= i < 5,
    ensures
        ({
            let (ch, dead) = LITERAL_VIA_DEAD_KEY@[i];
            &&& literal_recipe(ch) == Some(dead)
            &&& accent_recipe(ch) is None
            &&& dead_key(dead)
        }),
{
}

/// The table of accented letters holds their recipes, and no base letter has one itself.
proof fn lemma_accented_entry(i: int)
    requires
        0 <= i < 38,
    ensures
        ({
            let (ch, base, dead) = ACCENTED_VIA_DEAD_KEY@[i];
            &&& accent_recipe(ch) == Some((base, dead))
            &&& literal_recipe(ch) is None
            &&& accent_recipe(base) is None
            &&& literal_recipe(base) is None
            &&& dead_key(dead)
        }),
{
}

/// Every literal with a recipe is in the table.
proof fn lemma_literals_complete(done: Set<char>, c: char)
    requires
        forall|i: int| 0 <= i < 5 ==> done.contains((#[trigger] LITERAL_VIA_DEAD_KEY@[i]).0),
        literal_recipe(c) is Some,
    ensures
        done.contains(c),
{
    assert(LITERAL_VIA_DEAD_KEY@[0].0 == '\'');
    assert(LITERAL_VIA_DEAD_KEY@[1].0 == '"');
    assert(LITERAL_VIA_DEAD_KEY@[2].0 == '~');
    assert(LITERAL_VIA_DEAD_KEY@[3].0 == '`');
    assert(LITERAL_VIA_DEAD_KEY@[4].0 == '^');
}

/// Every accented letter with a recipe is in the table.
proof fn lemma_accented_complete(done: Set<char>, c: char)
    requires
        forall|i: int| 0 <= i < 38 ==> done.contains((#[trigger] ACCENTED_VIA_DEAD_KEY@[i]).0),
        accent_recipe(c) is Some,
    ensures
        done.contains(c),
{
    assert(ACCENTED_VIA_DEAD_KEY@[0].0 == 'ã');
    assert(ACCENTED_VIA_DEAD_KEY@[1].0 == 'õ');
    assert(ACCENTED_VIA_DEAD_KEY@[2].0 == 'ñ');
    assert(ACCENTED_VIA_DEAD_KEY@[3].0 == 'Ã');
    assert(ACCENTED_VIA_DEAD_KEY@[4].0 == 'Õ');
    assert(ACCENTED_VIA_DEAD_KEY@[5].0 == 'Ñ');
    assert(ACCENTED_VIA_DEAD_KEY@[6].0 == 'á');
    assert(ACCENTED_VIA_DEAD_KEY@[7].0 == 'é');
    assert(ACCENTED_VIA_DEAD_KEY@[8].0 == 'í');
    assert(ACCENTED_VIA_DEAD_KEY@[9].0 == 'ó');
    assert(ACCENTED_VIA_DEAD_KEY@[10].0 == 'ú');
    assert(ACCENTED_VIA_DEAD_KEY@[11].0 == 'ý');
    assert(ACCENTED_VIA_DEAD_KEY@[12].0 == 'Á');
    assert(ACCENTED_VIA_DEAD_KEY@[13].0 == 'É');
    assert(ACCENTED_VIA_DEAD_KEY@[14].0 == 'Í');
    assert(ACCENTED_VIA_DEAD_KEY@[15].0 == 'Ó');
    assert(ACCENTED_VIA_DEAD_KEY@[16].0 == 'Ú');
    assert(ACCENTED_VIA_DEAD_KEY@[17].0 == 'â');
    assert(ACCENTED_VIA_DEAD_KEY@[18].0 == 'ê');
    assert(ACCENTED_VIA_DEAD_KEY@[19].0 == 'î');
    assert(ACCENTED_VIA_DEAD_KEY@[20].0 == 'ô');
    assert(ACCENTED_VIA_DEAD_KEY@[21].0 == 'û');
    assert(ACCENTED_VIA_DEAD_KEY@[22].0 == 'Â');
    assert(ACCENTED_VIA_DEAD_KEY@[23].0 == 'Ê');
    assert(ACCENTED_VIA_DEAD_KEY@[24].0 == 'Ô');
    assert(ACCENTED_VIA_DEAD_KEY@[25].0 == 'à');
    assert(ACCENTED_VIA_DEAD_KEY@[26].0 == 'è');
    assert(ACCENTED_VIA_DEAD_KEY@[27].0 == 'ì');
    assert(ACCENTED_VIA_DEAD_KEY@[28].0 == 'ò');
    assert(ACCENTED_VIA_DEAD_KEY@[29].0 == 'ù');
    assert(ACCENTED_VIA_DEAD_KEY@[30].0 == 'À');
    assert(ACCENTED_VIA_DEAD_KEY@[31].0 == 'ä');
    assert(ACCENTED_VIA_DEAD_KEY@[32].0 == 'ë');
    assert(ACCENTED_VIA_DEAD_KEY@[33].0 == 'ï');
    assert(ACCENTED_VIA_DEAD_KEY@[34].0 == 'ö');
    assert(ACCENTED_VIA_DEAD_KEY@[35].0 == 'ü');
    assert(ACCENTED_VIA_DEAD_KEY@[36].0 == 'ç');
    assert(ACCENTED_VIA_DEAD_KEY@[37].0 == 'Ç');
}

impl KeymapTable {
    /// The tap that types `c` by itself, if there is one.
    pub open spec fn direct_tap(self, c: char) -> Option<KeyTap> {
        first_tap(self.strokes(), typing(c as u32))
    }

    /// The tap that gives the dead key `keysym`, if there is one.
    pub open spec fn dead_tap(self, keysym: u32) -> Option<KeyTap> {
        first_tap(self.strokes(), giving(keysym))
    }

    /// How `c` is typed, if it can be: by one tap where the keymap has one, else by a dead key
    /// and Space, else by a dead key and the base letter.
    pub open spec fn mapping(self, c: char) -> Option<KeyMapping> {
        match self.direct_tap(c) {
            Some(tap) => Some(direct(tap)),
            None => match (literal_recipe(c), accent_recipe(c)) {
                (Some(dead), _) => match self.dead_tap(dead) {
                    Some(main) => Some(
                        KeyMapping { main, follow: Some(KeyTap::plain(NamedKey::Space.keycode())) },
                    ),
                    None => None,
                },
                (None, Some((base, dead))) => match (self.dead_tap(dead), self.direct_tap(base)) {
                    (Some(main), Some(letter)) => Some(
                        KeyMapping { main, follow: Some(letter) },
                    ),
                    _ => None,
                },
                (None, None) => None,
            },
        }
    }
}

/// The state of the map under construction: it holds how each character is typed that is
/// typed directly or that is in `done`.
spec fn built(map: Map<u32, KeyMapping>, table: KeymapTable, done: Set<char>) -> bool {
    &&& forall|v: u32| #[trigger] map.contains_key(v) ==> scalar_value(v)
    &&& forall|c: char| #[trigger]
        map.contains_key(c as u32) <==> {
            &&& table.mapping(c) is Some
            &&& table.direct_tap(c) is Some || done.contains(c)
        }
    &&& forall|c: char| #[trigger]
        map.contains_key(c as u32) ==> map[c as u32] == table.mapping(c)->0
}

/// Taking up `ch`: where it is missing, its synthesized mapping goes in, if there is one.
proof fn lemma_take_up(
    map: Map<u32, KeyMapping>,
    table: KeymapTable,
    done: Set<char>,
    ch: char,
    made: Option<KeyMapping>,
)
    requires
        built(map, table, done),
        !map.contains_key(ch as u32) && table.direct_tap(ch) is None ==> made == table.mapping(ch),
    ensures
        built(
            if map.contains_key(ch as u32) || made is None {
                map
            } else {
                map.insert(ch as u32, made->0)
            },
            table,
            done.insert(ch),
        ),
{
    if !map.contains_key(ch as u32) && made is Some {
        let after = map.insert(ch as u32, made->0);
        assert forall|c: char| #[trigger]
            after.contains_key(c as u32) <==> {
                &&& table.mapping(c) is Some
                &&& table.direct_tap(c) is Some || done.insert(ch).contains(c)
            } by {
            assert(map.contains_key(c as u32) <==> {
                &&& table.mapping(c) is Some
                &&& table.direct_tap(c) is Some || done.contains(c)
            });
        }
        assert forall|c: char| #[trigger] after.contains_key(c as u32) implies after[c as u32]
            == table.mapping(c)->0 by {
            if c != ch {
                assert(map.contains_key(c as u32));
            }
        }
    }
}

/// Whether `p` holds of the stroke at `i` and of none before it.
pub open spec fn first_at(strokes: Seq<Stroke>, p: spec_fn(Stroke) -> bool, i: int) -> bool {
    &&& 0 <= i < strokes.len()
    &&& p(strokes[i])
    &&& forall|j: int| 0 <= j < i ==> !p(#[trigger] strokes[j])
}

/// `first_tap` gives the tap of the first stroke that `p` holds of, and nothing where `p` holds
/// of none.
pub proof fn lemma_first_tap(strokes: Seq<Stroke>, p: spec_fn(Stroke) -> bool)
    ensures
        match first_tap(strokes, p) {
            Some(tap) => exists|i: int| #[trigger]
                first_at(strokes, p, i) && strokes[i].tap == tap,
            None => forall|i: int| 0 <= i < strokes.len() ==> !p(#[trigger] strokes[i]),
        },
    decreases strokes.len(),
{
    if strokes.len() > 0 {
        let front = strokes.drop_last();
        let last = strokes.len() - 1;
        lemma_first_tap(front, p);
        assert forall|j: int| 0 <= j < last implies front[j] == #[trigger] strokes[j] by {}
        match first_tap(front, p) {
            Some(tap) => {
                let i = choose|i: int| #[trigger] first_at(front, p, i) && front[i].tap == tap;
                assert(first_at(strokes, p, i));
            },
            None => {
                if p(strokes[last]) {
                    assert(first_at(strokes, p, last));
                }
            },
        }
    }
}

/// What is known of the dead keys once the whole keymap has been read.
spec fn dead_taps(dead: Map<u32, KeyTap>, table: KeymapTable) -> bool {
    forall|k: u32|
        dead_key(k) ==> (#[trigger] dead.contains_key(k) <==> table.dead_tap(k) is Some) && (
        dead.contains_key(k) ==> dead[k] == table.dead_tap(k)->0)
}

/// The map before any synthesis.
proof fn lemma_read(typed: Map<u32, KeyMapping>, dead: Map<u32, KeyTap>, table: KeymapTable)
    requires
        collected(typed, dead, table.strokes()),
    ensures
        built(typed, table, Set::empty()),
        dead_taps(dead, table),
{
    assert forall|v: u32| #[trigger] typed.contains_key(v) implies scalar_value(v) by {
        lemma_first_tap(table.strokes(), typing(v));
    }
}

/// Adds the literals that a dead key and Space give.
fn add_literals(
    map: &mut HashMap<u32, KeyMapping>,
    dead: &HashMap<u32, KeyTap>,
    Ghost(table): Ghost<KeymapTable>,
) -> (done: Ghost<Set<char>>)
    requires
        built(old(map)@, table, Set::empty()),
        dead_taps(dead@, table),
    ensures
        built(final(map)@, table, done@),
        forall|i: int| 0 <= i < 5 ==> done@.contains((#[trigger] LITERAL_VIA_DEAD_KEY@[i]).0),
{
    let literals = LITERAL_VIA_DEAD_KEY;
    let ghost mut done: Set<char> = Set::empty();
    let mut i: usize = 0;
    while i < 5
        invariant
            i <= 5,
            literals@ == LITERAL_VIA_DEAD_KEY@,
            built(map@, table, done),
            dead_taps(dead@, table),
            forall|j: int| 0 <= j < i ==> done.contains((#[trigger] literals@[j]).0),
        decreases 5 - i,
    {
        let (ch, dead_sym) = literals[i];
        proof {
            lemma_literal_entry(i as int);
            let made = match table.dead_tap(dead_sym) {
                Some(main) => Some(
                    KeyMapping { main, follow: Some(KeyTap::plain(NamedKey::Space.keycode())) },
                ),
                None => None,
            };
            lemma_take_up(map@, table, done, ch, made);
            done = done.insert(ch);
        }
        if !map.contains_key(&(ch as u32)) {
            match dead.get(&dead_sym) {
                Some(tap) => {
                    let space = KeyTap {
                        keycode: NamedKey::Space.code(),
                        shift: false,
                        altgr: false,
                    };
                    map.insert(ch as u32, KeyMapping { main: *tap, follow: Some(space) });
                },
                None => {},
            }
        }
        i += 1;
    }
    Ghost(done)
}

/// Adds the accented letters that a dead key and the base letter give.
fn add_accented(
    map: &mut HashMap<u32, KeyMapping>,
    dead: &HashMap<u32, KeyTap>,
    Ghost(table): Ghost<KeymapTable>,
    Ghost(literals): Ghost<Set<char>>,
) -> (done: Ghost<Set<char>>)
    requires
        built(old(map)@, table, literals),
        dead_taps(dead@, table),
    ensures
        built(final(map)@, table, done@),
        literals.subset_of(done@),
        forall|i: int| 0 <= i < 38 ==> done@.contains((#[trigger] ACCENTED_VIA_DEAD_KEY@[i]).0),
{
    let accented = ACCENTED_VIA_DEAD_KEY;
    let ghost mut done: Set<char> = literals;
    let mut i: usize = 0;
    while i < 38
        invariant
            i <= 38,
            accented@ == ACCENTED_VIA_DEAD_KEY@,
            built(map@, table, done),
            dead_taps(dead@, table),
            literals.subset_of(done),
            forall|j: int| 0 <= j < i ==> done.contains((#[trigger] accented@[j]).0),
        decreases 38 - i,
    {
        let (ch, base, dead_sym) = accented[i];
        proof {
            lemma_accented_entry(i as int);
            let made = match (table.dead_tap(dead_sym), table.direct_tap(base)) {
                (Some(main), Some(letter)) => Some(KeyMapping { main, follow: Some(letter) }),
                _ => None,
            };
            lemma_take_up(map@, table, done, ch, made);
            done = done.insert(ch);
            assert(map@.contains_key(base as u32) <==> table.direct_tap(base) is Some);
        }
        if !map.contains_key(&(ch as u32)) {
            if let Some(main) = dead.get(&dead_sym) {
                if let Some(letter) = map.get(&(base as u32)) {
                    let letter = *letter;
                    if letter.follow.is_none() {
                        map.insert(
                            ch as u32,
                            KeyMapping { main: *main, follow: Some(letter.main) },
                        );
                    }
                }
            }
        }
        i += 1;
    }
    Ghost(done)
}

/// The taps for every character that the keymap can type, by scalar value: those of the keymap
/// itself, and where it has none those that a dead key leads to.
pub fn build_reverse_map(table: &KeymapTable) -> (map: HashMap<u32, KeyMapping>)
    ensures
        forall|v: u32| #[trigger] map@.contains_key(v) ==> scalar_value(v),
        forall|c: char| #[trigger]
            map@.contains_key(c as u32) <==> table.mapping(c) is Some,
        forall|c: char| #[trigger]
            map@.contains_key(c as u32) ==> Some(map@[c as u32]) == table.mapping(c),
{
    let (mut map, dead) = read_table(table);
    proof {
        lemma_read(map@, dead@, *table);
    }
    let Ghost(literals) = add_literals(&mut map, &dead, Ghost(*table));
    let Ghost(done) = add_accented(&mut map, &dead, Ghost(*table), Ghost(literals));
    proof {
        assert forall|c: char| table.mapping(c) is Some && table.direct_tap(c) is None implies
            #[trigger] done.contains(c) by {
            if literal_recipe(c) is Some {
                lemma_literals_complete(done, c);
            } else {
                lemma_accented_complete(done, c);
            }
        }
        assert forall|c: char| #[trigger]
            map@.contains_key(c as u32) <==> table.mapping(c) is Some by {
            assert(table.mapping(c) is Some && table.direct_tap(c) is None ==> done.contains(c));
        }
    }
    map
}

/// Whether the key at position `i` gives `ISO_Level3_Shift` at the first level of the first
/// layout.
pub open spec fn level3_key(table: KeymapTable, i: int) -> bool {
    let layouts = table.keys@[i].layouts@;
    &&& layouts.len() > 0
    &&& layouts[0].levels@.len() > 0
    &&& exists|k: int|
        0 <= k < layouts[0].levels@[0]@.len() && (
        #[trigger] layouts[0].levels@[0]@[k]).keysym == ISO_LEVEL3_SHIFT
}

/// Whether the key at position `i` is a dedicated third-level key: one that is not `RightAlt`.
pub open spec fn dedicated_level3_key(table: KeymapTable, i: int) -> bool {
    level3_key(table, i) && table.keycode(i) != NamedKey::RightAlt.keycode()
}

/// Whether the key at position `i` is the first dedicated third-level key.
pub open spec fn first_level3_key(table: KeymapTable, i: int) -> bool {
    &&& 0 <= i < table.keys@.len()
    &&& dedicated_level3_key(table, i)
    &&& forall|j: int| 0 <= j < i ==> !#[trigger] dedicated_level3_key(table, j)
}

impl KeymapTable {
    /// The keycode of the first dedicated third-level key, if there is one.
    pub open spec fn dedicated_level3(self) -> Option<u16> {
        if exists|i: int| first_level3_key(self, i) {
            Some(self.keycode(choose|i: int| first_level3_key(self, i)))
        } else {
            None
        }
    }

    /// The keycode that AltGr is pressed with: the dedicated third-level key, or `RightAlt`
    /// where there is none.
    pub open spec fn level3(self) -> u16 {
        match self.dedicated_level3() {
            Some(keycode) => keycode,
            None => NamedKey::RightAlt.keycode(),
        }
    }

    /// How every character is typed that can be.
    pub open spec fn reverse(self) -> Map<char, KeyMapping> {
        Map::new(|c: char| self.mapping(c) is Some, |c: char| self.mapping(c)->0)
    }
}

/// Whether `symbols` hold `ISO_Level3_Shift`.
fn holds_level3(symbols: &Vec<Symbol>) -> (yes: bool)
    ensures
        yes <==> exists|k: int|
            0 <= k < symbols@.len() && (#[trigger] symbols@[k]).keysym == ISO_LEVEL3_SHIFT,
{
    let mut k: usize = 0;
    while k < symbols.len()
        invariant
            k <= symbols@.len(),
            forall|j: int| 0 <= j < k ==> (#[trigger] symbols@[j]).keysym != ISO_LEVEL3_SHIFT,
        decreases symbols@.len() - k,
    {
        if symbols[k].keysym == ISO_LEVEL3_SHIFT {
            return true;
        }
        k += 1;
    }
    false
}

/// The evdev keycode of the first dedicated third-level key; `None` where the keymap has none.
pub fn find_level3_keycode(table: &KeymapTable) -> (found: Option<u16>)
    ensures
        found == table.dedicated_level3(),
        match found {
            Some(keycode) => exists|i: int| #[trigger]
                first_level3_key(*table, i) && keycode == table.keycode(i),
            None => forall|i: int|
                0 <= i < table.keys@.len() ==> !#[trigger] dedicated_level3_key(*table, i),
        },
{
    let right_alt = NamedKey::RightAlt.code();
    let mut i: usize = 0;
    while i < table.keys.len()
        invariant
            i <= table.keys@.len(),
            right_alt == NamedKey::RightAlt.keycode(),
            forall|j: int| 0 <= j < i ==> !#[trigger] dedicated_level3_key(*table, j),
        decreases table.keys@.len() - i,
    {
        let keycode = key_at(table, i);
        let layouts = &table.keys[i].layouts;
        if layouts.len() > 0 && layouts[0].levels.len() > 0 && holds_level3(&layouts[0].levels[0])
            && keycode != right_alt {
            assert(first_level3_key(*table, i as int));
            return Some(keycode);
        }
        i += 1;
    }
    None
}

/// What the reverse map holds for one character.
proof fn lemma_entry(map: Map<u32, KeyMapping>, table: KeymapTable, c: char)
    requires
        forall|c: char| #[trigger] map.contains_key(c as u32) <==> table.mapping(c) is Some,
        forall|c: char| #[trigger]
            map.contains_key(c as u32) ==> Some(map[c as u32]) == table.mapping(c),
    ensures
        map.contains_key(c as u32) <==> table.mapping(c) is Some,
        map.contains_key(c as u32) ==> Some(map[c as u32]) == table.mapping(c),
{
}

/// The keymap of a layout could not be compiled.
#[derive(Clone, Debug)]
pub struct KeymapError {
    pub layout: String,
    pub variant: String,
}

impl KeymapError {
    /// The message for the user.
    pub open spec fn spec_message(layout: Seq<char>, variant: Seq<char>) -> Seq<char> {
        "failed to create XKB keymap for layout '"@ + layout + "' variant '"@ + variant + "'"@
    }

    /// The message for the user.
    pub fn message(&self) -> (message: String)
        ensures
            message@ == Self::spec_message(self.layout@, self.variant@),
    {
        let mut message: String = "failed to create XKB keymap for layout '".to_owned();
        message.append(self.layout.as_str());
        message.append("' variant '");
        message.append(self.variant.as_str());
        message.append("'");
        message
    }
}

/// The taps for each character of a layout, and the key that AltGr is pressed with.
pub struct XkbKeymap {
    map: HashMap<u32, KeyMapping>,
    level3_keycode: u16,
}

impl View for XkbKeymap {
    type V = Map<char, KeyMapping>;

    closed spec fn view(&self) -> Map<char, KeyMapping> {
        Map::new(
            |c: char| self.map@.contains_key(c as u32),
            |c: char| self.map@[c as u32],
        )
    }
}

impl XkbKeymap {
    /// The map holds characters only.
    #[verifier::type_invariant]
    spec fn well_formed(self) -> bool {
        forall|v: u32| #[trigger] self.map@.contains_key(v) ==> scalar_value(v)
    }

    /// The key that AltGr is pressed with.
    pub closed spec fn level3(self) -> u16 {
        self.level3_keycode
    }

    /// The keymap of the layout `detected`, from what compiling that layout gave: its table, or
    /// `None` where it did not compile.
    pub fn from_layout(detected: &KeyboardLayout, compiled: Option<&KeymapTable>) -> (made: Result<
        XkbKeymap,
        KeymapError,
    >)
        ensures
            match compiled {
                Some(table) => made matches Ok(keymap) && keymap@ == table.reverse()
                    && keymap.level3() == table.level3(),
                None => made matches Err(error) && error.layout@ == detected.layout@
                    && error.variant@ == detected.variant@,
            },
    {
        let table = match compiled {
            Some(table) => table,
            None => {
                return Err(
                    KeymapError {
                        layout: detected.layout.clone(),
                        variant: detected.variant.clone(),
                    },
                );
            },
        };
        let level3_keycode = match find_level3_keycode(table) {
            Some(keycode) => keycode,
            None => NamedKey::RightAlt.code(),
        };
        let map = build_reverse_map(table);
        let keymap = XkbKeymap { map, level3_keycode };
        assert(keymap@ =~= table.reverse()) by {
            assert forall|c: char| #[trigger]
                keymap@.contains_key(c) <==> table.reverse().contains_key(c) by {
                lemma_entry(keymap.map@, *table, c);
            }
            assert forall|c: char| #[trigger]
                keymap@.contains_key(c) implies keymap@[c] == table.reverse()[c] by {
                lemma_entry(keymap.map@, *table, c);
            }
        }
        Ok(keymap)
    }

    /// How `ch` is typed, if the layout can type it.
    pub fn lookup(&self, ch: char) -> (mapping: Option<&KeyMapping>)
        ensures
            match mapping {
                Some(m) => self@.contains_key(ch) && *m == self@[ch],
                None => !self@.contains_key(ch),
            },
    {
        self.map.get(&(ch as u32))
    }

    /// The key that AltGr is pressed with.
    pub fn level3_keycode(&self) -> (keycode: u16)
        ensures
            keycode == self.level3(),
    {
        self.level3_keycode
    }

    /// The number of characters that the layout can type.
    pub fn len(&self) -> (n: usize)
        ensures
            self@.dom().finite(),
            n == self@.len(),
    {
        proof {
            use_type_invariant(self);
            self.lemma_size();
        }
        self.map.len()
    }

    /// Whether the layout can type no character at all.
    pub fn is_empty(&self) -> (empty: bool)
        ensures
            empty == (self@ == Map::<char, KeyMapping>::empty()),
    {
        proof {
            use_type_invariant(self);
            if self@ == Map::<char, KeyMapping>::empty() {
                assert forall|v: u32| !self.map@.contains_key(v) by {
                    if self.map@.contains_key(v) {
                        assert(self@.contains_key(v as char));
                    }
                }
            } else {
                assert(exists|c: char| self@.contains_key(c)) by {
                    if forall|c: char| !self@.contains_key(c) {
                        assert(self@ =~= Map::empty());
                    }
                }
                let c = choose|c: char| self@.contains_key(c);
                assert(self.map@.contains_key(c as u32));
            }
            assert(self.map@.is_empty() <==> self@ == Map::<char, KeyMapping>::empty());
        }
        self.map.is_empty()
    }

    /// The map has one entry per character.
    proof fn lemma_size(&self)
        requires
            self.well_formed(),
        ensures
            self@.dom().finite(),
            self@.len() == self.map@.len(),
    {
        let values = self.map@.dom();
        let chars = self@.dom();
        let to_char = |v: u32| v as char;
        assert(values.map(to_char) =~= chars) by {
            assert forall|c: char| chars.contains(c) implies values.map(to_char).contains(c) by {
                vstd::utf8::char_u32_cast(c, c as u32);
                assert(to_char(c as u32) == c);
            }
        }
        vstd::set_lib::lemma_map_size(values, chars, to_char);
    }
}

} // verus!
