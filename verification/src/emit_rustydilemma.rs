//! The firmware emitter core: matrix allocation and action binding.
//!
//! A chord is felt as two neighbouring keys pressed together, but the
//! firmware's action table is indexed by matrix position, so every chord is
//! given a synthetic matrix slot of its own.  Slots are allocated in extra
//! rows appended below the physical layout, left to right, wrapping to a new
//! extra row after `width` slots; the table is global across layers and
//! memoized by the ordered (left, right) matrix-position pair, so a chord
//! reused on several layers keeps a single slot.
//!
//! Every key payload is then bound to a [`MatrixKey`] action: named keys
//! through the predefined table merged with the user's custom keys (the
//! user's declaration winning on a name collision), layer references through
//! the layer-name table, character literals through a fixed character table,
//! and mod-taps by binding tap and hold and wrapping them with the timing
//! options.  An unresolved name reports the closest names of its table.

use vstd::prelude::*;

use crate::errors::{AppError, AppErrorV};
use crate::maps::str_eq;
use crate::process::{
    spec_layer_index, spec_metadata_process, spec_option_value, LayerMeta, LayerMetaV, Metadata,
    MetadataV, MatrixPosition, OptionKey, ResolvedChord,
};
use crate::similar::{spec_suggestions, suggestions};
use crate::syntax::{
    CustomKey, CustomKeyOutputV, CustomKeyV, File, FileV, Key, KeyV, ModTapType, PlainKey,
    PlainKeyV, Span,
};
use crate::{lemma_deep_view_empty, lemma_deep_view_push, res_model};

verus! {

/// The tie-break policy of a mod-tap hold.
#[derive(Clone, Copy, Debug, PartialEq, Eq, Structural)]
pub enum HoldTapConfig {
    PermissiveHold,
    HoldOnOtherKeyPress,
}

impl DeepView for HoldTapConfig {
    type V = HoldTapConfig;

    open spec fn deep_view(&self) -> HoldTapConfig {
        *self
    }
}

/// A bound firmware action.
///
/// `KeyCode` and `Shifted` carry a key-code path (see [`kc`]); `Layer`
/// switches to a layer by its declaration index; `HoldTap` is a timed
/// tap/hold pair; `Custom` carries the raw action text of a user-declared
/// custom key; `NoOp` fills unclaimed matrix positions.
#[derive(Debug, PartialEq, Eq)]
pub enum MatrixKey {
    KeyCode(String),
    Shifted(String),
    Layer(usize),
    HoldTap {
        tap: Box<MatrixKey>,
        hold: Box<MatrixKey>,
        config: HoldTapConfig,
        timeout: String,
        tap_hold_interval: String,
    },
    NoOp,
    Custom(String),
}

/// Ghost model of a [`MatrixKey`].
pub enum MatrixKeyV {
    KeyCode(Seq<char>),
    Shifted(Seq<char>),
    Layer(usize),
    HoldTap {
        tap: Box<MatrixKeyV>,
        hold: Box<MatrixKeyV>,
        config: HoldTapConfig,
        timeout: Seq<char>,
        tap_hold_interval: Seq<char>,
    },
    NoOp,
    Custom(Seq<char>),
}

/// The model of a [`MatrixKey`].
pub open spec fn mk_model(k: MatrixKey) -> MatrixKeyV
    decreases k,
{
    match k {
        MatrixKey::KeyCode(s) => MatrixKeyV::KeyCode(s.deep_view()),
        MatrixKey::Shifted(s) => MatrixKeyV::Shifted(s.deep_view()),
        MatrixKey::Layer(i) => MatrixKeyV::Layer(i),
        MatrixKey::HoldTap { tap, hold, config, timeout, tap_hold_interval } => {
            MatrixKeyV::HoldTap {
                tap: Box::new(mk_model(*tap)),
                hold: Box::new(mk_model(*hold)),
                config,
                timeout: timeout.deep_view(),
                tap_hold_interval: tap_hold_interval.deep_view(),
            }
        },
        MatrixKey::NoOp => MatrixKeyV::NoOp,
        MatrixKey::Custom(s) => MatrixKeyV::Custom(s.deep_view()),
    }
}

impl DeepView for MatrixKey {
    type V = MatrixKeyV;

    open spec fn deep_view(&self) -> MatrixKeyV {
        mk_model(*self)
    }
}

impl Clone for MatrixKey {
    fn clone(&self) -> (r: Self)
        ensures
            r == *self,
        decreases *self,
    {
        match self {
            MatrixKey::KeyCode(s) => MatrixKey::KeyCode(s.clone()),
            MatrixKey::Shifted(s) => MatrixKey::Shifted(s.clone()),
            MatrixKey::Layer(i) => MatrixKey::Layer(*i),
            MatrixKey::HoldTap { tap, hold, config, timeout, tap_hold_interval } => {
                MatrixKey::HoldTap {
                    tap: Box::new((**tap).clone()),
                    hold: Box::new((**hold).clone()),
                    config: *config,
                    timeout: timeout.clone(),
                    tap_hold_interval: tap_hold_interval.clone(),
                }
            },
            MatrixKey::NoOp => MatrixKey::NoOp,
            MatrixKey::Custom(s) => MatrixKey::Custom(s.clone()),
        }
    }
}

/// The key-code path for a key-code name.
pub open spec fn spec_kc(name: Seq<char>) -> Seq<char> {
    "::keyberon::key_code::KeyCode::"@ + name
}

/// Builds the key-code path for a key-code name.
pub fn kc(name: &str) -> (r: String)
    ensures
        r@ == spec_kc(name@),
{
    let s = String::from_str("::keyberon::key_code::KeyCode::");
    s.concat(name)
}

/// A key code pressed as a plain action.
pub fn pl(key: String) -> (r: MatrixKey)
    ensures
        r.deep_view() == MatrixKeyV::KeyCode(key@),
{
    MatrixKey::KeyCode(key)
}

/// A named key code pressed as a plain action.
pub fn plkc(name: &str) -> (r: MatrixKey)
    ensures
        r.deep_view() == MatrixKeyV::KeyCode(spec_kc(name@)),
{
    pl(kc(name))
}

/// A named key code pressed together with left shift.
pub fn sh(code: &str) -> (r: MatrixKey)
    ensures
        r.deep_view() == MatrixKeyV::Shifted(spec_kc(code@)),
{
    MatrixKey::Shifted(kc(code))
}

/// Shorthand for a predefined plain key-code entry.
pub open spec fn nk(name: Seq<char>, code: Seq<char>) -> (Seq<char>, MatrixKeyV) {
    (name, MatrixKeyV::KeyCode(spec_kc(code)))
}

/// The fixed table of conventional key names.
pub open spec fn spec_predefined_named_keys() -> Seq<(Seq<char>, MatrixKeyV)> {
    seq![
        nk("esc"@, "Escape"@),
        nk("space"@, "Space"@),
        nk("bspace"@, "BSpace"@),
        nk("del"@, "Delete"@),
        nk("lshift"@, "LShift"@),
        nk("rshift"@, "RShift"@),
        nk("lctrl"@, "LCtrl"@),
        nk("rctrl"@, "RCtrl"@),
        nk("lalt"@, "LAlt"@),
        nk("ralt"@, "RAlt"@),
        nk("lgui"@, "LGui"@),
        nk("rgui"@, "RGui"@),
        nk("enter"@, "Enter"@),
        nk("tab"@, "Tab"@),
        ("n"@, MatrixKeyV::NoOp),
        nk("pgup"@, "PgUp"@),
        nk("pgdown"@, "PgDown"@),
        nk("volup"@, "VolUp"@),
        nk("voldown"@, "VolDown"@),
        nk("left"@, "Left"@),
        nk("up"@, "Up"@),
        nk("right"@, "Right"@),
        nk("down"@, "Down"@),
        nk("end"@, "End"@),
        nk("f1"@, "F1"@),
        nk("f2"@, "F2"@),
        nk("f3"@, "F3"@),
        nk("f4"@, "F4"@),
        nk("f5"@, "F5"@),
        nk("f6"@, "F6"@),
        nk("f7"@, "F7"@),
        nk("f8"@, "F8"@),
        nk("f9"@, "F9"@),
        nk("f10"@, "F10"@),
    ]
}

/// Builds the fixed table of conventional key names: escape, space,
/// modifiers, arrows, navigation keys and the function keys 1–10.
pub fn predefined_named_keys() -> (r: Vec<(String, MatrixKey)>)
    ensures
        r.deep_view() == spec_predefined_named_keys(),
{
    let mut t: Vec<(String, MatrixKey)> = Vec::new();
    t.push((String::from_str("esc"), plkc("Escape")));
    t.push((String::from_str("space"), plkc("Space")));
    t.push((String::from_str("bspace"), plkc("BSpace")));
    t.push((String::from_str("del"), plkc("Delete")));
    t.push((String::from_str("lshift"), plkc("LShift")));
    t.push((String::from_str("rshift"), plkc("RShift")));
    t.push((String::from_str("lctrl"), plkc("LCtrl")));
    t.push((String::from_str("rctrl"), plkc("RCtrl")));
    t.push((String::from_str("lalt"), plkc("LAlt")));
    t.push((String::from_str("ralt"), plkc("RAlt")));
    t.push((String::from_str("lgui"), plkc("LGui")));
    t.push((String::from_str("rgui"), plkc("RGui")));
    t.push((String::from_str("enter"), plkc("Enter")));
    t.push((String::from_str("tab"), plkc("Tab")));
    t.push((String::from_str("n"), MatrixKey::NoOp));
    t.push((String::from_str("pgup"), plkc("PgUp")));
    t.push((String::from_str("pgdown"), plkc("PgDown")));
    t.push((String::from_str("volup"), plkc("VolUp")));
    t.push((String::from_str("voldown"), plkc("VolDown")));
    t.push((String::from_str("left"), plkc("Left")));
    t.push((String::from_str("up"), plkc("Up")));
    t.push((String::from_str("right"), plkc("Right")));
    t.push((String::from_str("down"), plkc("Down")));
    t.push((String::from_str("end"), plkc("End")));
    t.push((String::from_str("f1"), plkc("F1")));
    t.push((String::from_str("f2"), plkc("F2")));
    t.push((String::from_str("f3"), plkc("F3")));
    t.push((String::from_str("f4"), plkc("F4")));
    t.push((String::from_str("f5"), plkc("F5")));
    t.push((String::from_str("f6"), plkc("F6")));
    t.push((String::from_str("f7"), plkc("F7")));
    t.push((String::from_str("f8"), plkc("F8")));
    t.push((String::from_str("f9"), plkc("F9")));
    t.push((String::from_str("f10"), plkc("F10")));
    proof {
        assert(t.deep_view() =~= spec_predefined_named_keys());
    }
    t
}

/// Shorthand for a plain character entry.
pub open spec fn ck(c: char, code: Seq<char>) -> (char, MatrixKeyV) {
    (c, MatrixKeyV::KeyCode(spec_kc(code)))
}

/// Shorthand for a shifted character entry.
pub open spec fn cs(c: char, code: Seq<char>) -> (char, MatrixKeyV) {
    (c, MatrixKeyV::Shifted(spec_kc(code)))
}

/// The fixed table of character keys: lowercase letters, digits, and
/// standard punctuation with its shifted variants.
pub open spec fn spec_char_keys() -> Seq<(char, MatrixKeyV)> {
    seq![
        ck('a', "A"@), ck('b', "B"@), ck('c', "C"@), ck('d', "D"@), ck('e', "E"@),
        ck('f', "F"@), ck('g', "G"@), ck('h', "H"@), ck('i', "I"@), ck('j', "J"@),
        ck('k', "K"@), ck('l', "L"@), ck('m', "M"@), ck('n', "N"@), ck('o', "O"@),
        ck('p', "P"@), ck('q', "Q"@), ck('r', "R"@), ck('s', "S"@), ck('t', "T"@),
        ck('u', "U"@), ck('v', "V"@), ck('w', "W"@), ck('x', "X"@), ck('y', "Y"@),
        ck('z', "Z"@),
        ck('0', "Kb0"@), ck('1', "Kb1"@), ck('2', "Kb2"@), ck('3', "Kb3"@),
        ck('4', "Kb4"@), ck('5', "Kb5"@), ck('6', "Kb6"@), ck('7', "Kb7"@),
        ck('8', "Kb8"@), ck('9', "Kb9"@),
        cs('!', "Kb1"@), cs('@', "Kb2"@), cs('#', "Kb3"@), cs('$', "Kb4"@),
        cs('%', "Kb5"@), cs('^', "Kb6"@), cs('&', "Kb7"@), cs('*', "Kb8"@),
        cs('(', "Kb9"@), cs(')', "Kb0"@),
        ck('-', "Minus"@), cs('_', "Minus"@),
        ck('=', "Equal"@), cs('+', "Equal"@),
        ck('[', "LBracket"@), cs('{', "LBracket"@),
        ck(']', "RBracket"@), cs('}', "RBracket"@),
        ck('\\', "Bslash"@), cs('|', "Bslash"@),
        ck(';', "SColon"@), cs(':', "SColon"@),
        ck('\'', "Quote"@), cs('"', "Quote"@),
        ck('`', "Grave"@), cs('~', "Grave"@),
        ck(',', "Comma"@), cs('<', "Comma"@),
        ck('.', "Dot"@), cs('>', "Dot"@),
        ck('/', "Slash"@), cs('?', "Slash"@),
    ]
}

/// Builds the fixed table of character keys.
pub fn char_keys() -> (r: Vec<(char, MatrixKey)>)
    ensures
        r.deep_view() == spec_char_keys(),
{
    let mut t: Vec<(char, MatrixKey)> = Vec::new();
    t.push(('a', plkc("A")));
    t.push(('b', plkc("B")));
    t.push(('c', plkc("C")));
    t.push(('d', plkc("D")));
    t.push(('e', plkc("E")));
    t.push(('f', plkc("F")));
    t.push(('g', plkc("G")));
    t.push(('h', plkc("H")));
    t.push(('i', plkc("I")));
    t.push(('j', plkc("J")));
    t.push(('k', plkc("K")));
    t.push(('l', plkc("L")));
    t.push(('m', plkc("M")));
    t.push(('n', plkc("N")));
    t.push(('o', plkc("O")));
    t.push(('p', plkc("P")));
    t.push(('q', plkc("Q")));
    t.push(('r', plkc("R")));
    t.push(('s', plkc("S")));
    t.push(('t', plkc("T")));
    t.push(('u', plkc("U")));
    t.push(('v', plkc("V")));
    t.push(('w', plkc("W")));
    t.push(('x', plkc("X")));
    t.push(('y', plkc("Y")));
    t.push(('z', plkc("Z")));
    t.push(('0', plkc("Kb0")));
    t.push(('1', plkc("Kb1")));
    t.push(('2', plkc("Kb2")));
    t.push(('3', plkc("Kb3")));
    t.push(('4', plkc("Kb4")));
    t.push(('5', plkc("Kb5")));
    t.push(('6', plkc("Kb6")));
    t.push(('7', plkc("Kb7")));
    t.push(('8', plkc("Kb8")));
    t.push(('9', plkc("Kb9")));
    t.push(('!', sh("Kb1")));
    t.push(('@', sh("Kb2")));
    t.push(('#', sh("Kb3")));
    t.push(('$', sh("Kb4")));
    t.push(('%', sh("Kb5")));
    t.push(('^', sh("Kb6")));
    t.push(('&', sh("Kb7")));
    t.push(('*', sh("Kb8")));
    t.push(('(', sh("Kb9")));
    t.push((')', sh("Kb0")));
    t.push(('-', plkc("Minus")));
    t.push(('_', sh("Minus")));
    t.push(('=', plkc("Equal")));
    t.push(('+', sh("Equal")));
    t.push(('[', plkc("LBracket")));
    t.push(('{', sh("LBracket")));
    t.push((']', plkc("RBracket")));
    t.push(('}', sh("RBracket")));
    t.push(('\\', plkc("Bslash")));
    t.push(('|', sh("Bslash")));
    t.push((';', plkc("SColon")));
    t.push((':', sh("SColon")));
    t.push(('\'', plkc("Quote")));
    t.push(('"', sh("Quote")));
    t.push(('`', plkc("Grave")));
    t.push(('~', sh("Grave")));
    t.push((',', plkc("Comma")));
    t.push(('<', sh("Comma")));
    t.push(('.', plkc("Dot")));
    t.push(('>', sh("Dot")));
    t.push(('/', plkc("Slash")));
    t.push(('?', sh("Slash")));
    proof {
        assert(t.deep_view() =~= spec_char_keys());
    }
    t
}

/// First index of an ordered matrix-position pair in the chord table.
pub open spec fn pair_index_from(
    s: Seq<((MatrixPosition, MatrixPosition), MatrixPosition)>,
    k: (MatrixPosition, MatrixPosition),
    i: int,
) -> Option<int>
    decreases s.len() - i,
{
    if i < 0 || i >= s.len() {
        None
    } else if s[i].0 == k {
        Some(i)
    } else {
        pair_index_from(s, k, i + 1)
    }
}

/// The slot already allocated to an ordered pair, if any.
pub open spec fn spec_chord_lookup(
    s: Seq<((MatrixPosition, MatrixPosition), MatrixPosition)>,
    k: (MatrixPosition, MatrixPosition),
) -> Option<MatrixPosition> {
    match pair_index_from(s, k, 0) {
        Some(i) => Some(s[i].1),
        None => None,
    }
}

/// The allocator's state: the extra-row and extra-column cursors and the
/// chord table, in allocation order.
pub struct EmitState {
    pub rows: u16,
    pub cols: u8,
    pub chords: Seq<((MatrixPosition, MatrixPosition), MatrixPosition)>,
}

/// Allocates the next synthetic slot for the ordered pair (`left`,
/// `right`): at the extra-column cursor, in extra row `rows - 1` (a first
/// allocation starts extra row 0).  The column cursor then advances,
/// wrapping to a new extra row once `width` slots of the current extra row
/// are used.  A slot beyond matrix row 255 is a range error.
pub open spec fn spec_allocate(
    st: EmitState,
    width: u8,
    height: u8,
    left: MatrixPosition,
    right: MatrixPosition,
    span: Span,
) -> Result<(EmitState, MatrixPosition), AppErrorV> {
    let rows0: int = if st.rows == 0 {
        1
    } else {
        st.rows as int
    };
    let row_idx = rows0 + height - 1;
    if height == 0 || row_idx > 255 {
        Err(AppErrorV::CoordinateOutOfRange { span })
    } else {
        let pos = MatrixPosition(st.cols, row_idx as u8);
        let wrapped = st.cols as int + 1 >= width as int;
        Ok(
            (
                EmitState {
                    rows: if wrapped {
                        (rows0 + 1) as u16
                    } else {
                        rows0 as u16
                    },
                    cols: if wrapped {
                        0
                    } else {
                        (st.cols + 1) as u8
                    },
                    chords: st.chords.push(((left, right), pos)),
                },
                pos,
            ),
        )
    }
}

/// The slot for an ordered pair: the one already in the table if the pair
/// was seen before (on any layer), else a freshly allocated one.
pub open spec fn spec_process_chord(
    st: EmitState,
    width: u8,
    height: u8,
    left: MatrixPosition,
    right: MatrixPosition,
    span: Span,
) -> Result<(EmitState, MatrixPosition), AppErrorV> {
    match spec_chord_lookup(st.chords, (left, right)) {
        Some(pos) => Ok((st, pos)),
        None => spec_allocate(st, width, height, left, right, span),
    }
}

/// First index of a matrix position in a per-layer binding list.
pub open spec fn mat_index_from(s: Seq<(MatrixPosition, KeyV)>, p: MatrixPosition, i: int) -> Option<
    int,
>
    decreases s.len() - i,
{
    if i < 0 || i >= s.len() {
        None
    } else if s[i].0 == p {
        Some(i)
    } else {
        mat_index_from(s, p, i + 1)
    }
}

/// Binds a matrix position in a per-layer binding list, replacing in place:
/// a real key at a position wins over anything bound there before.
pub open spec fn spec_matrix_insert(
    s: Seq<(MatrixPosition, KeyV)>,
    p: MatrixPosition,
    k: KeyV,
) -> Seq<(MatrixPosition, KeyV)> {
    match mat_index_from(s, p, 0) {
        Some(i) => s.update(i, (p, k)),
        None => s.push((p, k)),
    }
}

/// Claims a slot for each chord of a layer, from chord `i` on, binding the
/// chord's own key payload at the allocated position.
pub open spec fn spec_layer_chords(
    st: EmitState,
    matrix: Seq<(MatrixPosition, KeyV)>,
    width: u8,
    height: u8,
    chords: Seq<crate::process::ResolvedChordV>,
    i: int,
) -> Result<(EmitState, Seq<(MatrixPosition, KeyV)>), AppErrorV>
    decreases chords.len() - i,
{
    if i >= chords.len() {
        Ok((st, matrix))
    } else {
        match spec_process_chord(st, width, height, chords[i].left, chords[i].right, chords[i].chord.span) {
            Err(e) => Err(e),
            Ok((st2, pos)) => spec_layer_chords(
                st2,
                spec_matrix_insert(matrix, pos, chords[i].chord.key),
                width,
                height,
                chords,
                i + 1,
            ),
        }
    }
}

/// Binds each resolved key of a layer at its own matrix position, from key
/// `i` on.
pub open spec fn spec_layer_keys(
    matrix: Seq<(MatrixPosition, KeyV)>,
    keys: Seq<crate::process::ResolvedKeyV>,
    i: int,
) -> Seq<(MatrixPosition, KeyV)>
    decreases keys.len() - i,
{
    if i >= keys.len() {
        matrix
    } else {
        spec_layer_keys(spec_matrix_insert(matrix, keys[i].matrix_pos, keys[i].key), keys, i + 1)
    }
}

/// The per-layer binding list: every chord at its allocated slot, then
/// every key at its own matrix position.
pub open spec fn spec_process_layer(
    st: EmitState,
    width: u8,
    height: u8,
    layer: LayerMetaV,
) -> Result<(EmitState, Seq<(MatrixPosition, KeyV)>), AppErrorV> {
    match spec_layer_chords(st, Seq::empty(), width, height, layer.chords, 0) {
        Err(e) => Err(e),
        Ok((st2, m)) => Ok((st2, spec_layer_keys(m, layer.keys, 0))),
    }
}

/// First index of a name in a named-key table.
pub open spec fn nk_index_from(s: Seq<(Seq<char>, MatrixKeyV)>, name: Seq<char>, i: int) -> Option<
    int,
>
    decreases s.len() - i,
{
    if i < 0 || i >= s.len() {
        None
    } else if s[i].0 == name {
        Some(i)
    } else {
        nk_index_from(s, name, i + 1)
    }
}

/// First-match lookup in a named-key table.
pub open spec fn spec_named_lookup(s: Seq<(Seq<char>, MatrixKeyV)>, name: Seq<char>) -> Option<
    MatrixKeyV,
> {
    match nk_index_from(s, name, 0) {
        Some(i) => Some(s[i].1),
        None => None,
    }
}

/// The names of a named-key table, in table order.
pub open spec fn nk_names(s: Seq<(Seq<char>, MatrixKeyV)>) -> Seq<Seq<char>> {
    s.map_values(|e: (Seq<char>, MatrixKeyV)| e.0)
}

/// The names of the layer table, in table order.
pub open spec fn lm_names(s: Seq<(Seq<char>, usize)>) -> Seq<Seq<char>> {
    s.map_values(|e: (Seq<char>, usize)| e.0)
}

/// First index of a character in the character table.
pub open spec fn ch_index_from(s: Seq<(char, MatrixKeyV)>, c: char, i: int) -> Option<int>
    decreases s.len() - i,
{
    if i < 0 || i >= s.len() {
        None
    } else if s[i].0 == c {
        Some(i)
    } else {
        ch_index_from(s, c, i + 1)
    }
}

/// First-match lookup in the character table.
pub open spec fn spec_char_lookup(s: Seq<(char, MatrixKeyV)>, c: char) -> Option<MatrixKeyV> {
    match ch_index_from(s, c, 0) {
        Some(i) => Some(s[i].1),
        None => None,
    }
}

/// Binds a plain key: a named key through the named-key table, a layer
/// reference through the layer table, a character through the character
/// table.  An unresolved name is an error carrying the ranked similar names
/// of its table.
pub open spec fn spec_map_plain_key(
    named: Seq<(Seq<char>, MatrixKeyV)>,
    chars: Seq<(char, MatrixKeyV)>,
    layer_map: Seq<(Seq<char>, usize)>,
    p: PlainKeyV,
) -> Result<MatrixKeyV, AppErrorV> {
    match p {
        PlainKeyV::Named(name) => match spec_named_lookup(named, name.s) {
            Some(k) => Ok(k),
            None => Err(
                AppErrorV::UnknownNamedKey {
                    span: name.span,
                    key: name.s,
                    similar: spec_suggestions(name.s, nk_names(named)),
                },
            ),
        },
        PlainKeyV::Layer { layer, span: _ } => match spec_layer_index(layer_map, layer.s) {
            Some(idx) => Ok(MatrixKeyV::Layer(idx)),
            None => Err(
                AppErrorV::UnknownNamedLayer {
                    span: layer.span,
                    layer: layer.s,
                    similar: spec_suggestions(layer.s, lm_names(layer_map)),
                },
            ),
        },
        PlainKeyV::Char { c, span } => match spec_char_lookup(chars, c) {
            Some(k) => Ok(k),
            None => Err(AppErrorV::UnknownKey { span, key: c }),
        },
    }
}

/// The firmware option value for `key`, or `default` when unset.
pub open spec fn spec_option_d(
    opts: Seq<(OptionKey, Seq<char>, Seq<char>)>,
    key: Seq<char>,
    default: Seq<char>,
) -> Seq<char> {
    match spec_option_value(opts, OptionKey::RustyDilemma, key) {
        Some(v) => v,
        None => default,
    }
}

/// Binds a key: plain keys directly; a mod-tap binds tap and hold and
/// wraps them in a hold-tap action with the configured timing options
/// (`hold_tap_timeout`, default 400; `hold_tap_interval`, default 200) and
/// the tie-break policy its syntax selects.
pub open spec fn spec_map_key(
    named: Seq<(Seq<char>, MatrixKeyV)>,
    chars: Seq<(char, MatrixKeyV)>,
    layer_map: Seq<(Seq<char>, usize)>,
    opts: Seq<(OptionKey, Seq<char>, Seq<char>)>,
    k: KeyV,
) -> Result<MatrixKeyV, AppErrorV> {
    match k {
        KeyV::Plain(p) => spec_map_plain_key(named, chars, layer_map, p),
        KeyV::ModTap { tap, at, timeout: _, hold, span: _ } => match spec_map_plain_key(
            named,
            chars,
            layer_map,
            tap,
        ) {
            Err(e) => Err(e),
            Ok(t) => match spec_map_plain_key(named, chars, layer_map, hold) {
                Err(e) => Err(e),
                Ok(h) => Ok(
                    MatrixKeyV::HoldTap {
                        tap: Box::new(t),
                        hold: Box::new(h),
                        config: match at {
                            ModTapType::Permissive(_) => HoldTapConfig::PermissiveHold,
                            ModTapType::OnOtherKey(_) => HoldTapConfig::HoldOnOtherKeyPress,
                        },
                        timeout: spec_option_d(opts, "hold_tap_timeout"@, "400"@),
                        tap_hold_interval: spec_option_d(opts, "hold_tap_interval"@, "200"@),
                    },
                ),
            },
        },
    }
}

/// Binds every entry of a per-layer binding list, from entry `i` on.
pub open spec fn spec_map_matrix(
    named: Seq<(Seq<char>, MatrixKeyV)>,
    chars: Seq<(char, MatrixKeyV)>,
    layer_map: Seq<(Seq<char>, usize)>,
    opts: Seq<(OptionKey, Seq<char>, Seq<char>)>,
    m: Seq<(MatrixPosition, KeyV)>,
    i: int,
    acc: Seq<(MatrixPosition, MatrixKeyV)>,
) -> Result<Seq<(MatrixPosition, MatrixKeyV)>, AppErrorV>
    decreases m.len() - i,
{
    if i >= m.len() {
        Ok(acc)
    } else {
        match spec_map_key(named, chars, layer_map, opts, m[i].1) {
            Err(e) => Err(e),
            Ok(a) => spec_map_matrix(named, chars, layer_map, opts, m, i + 1, acc.push((m[i].0, a))),
        }
    }
}

/// First-match lookup in a bound per-layer list.
pub open spec fn bound_index_from(
    s: Seq<(MatrixPosition, MatrixKeyV)>,
    p: MatrixPosition,
    i: int,
) -> Option<int>
    decreases s.len() - i,
{
    if i < 0 || i >= s.len() {
        None
    } else if s[i].0 == p {
        Some(i)
    } else {
        bound_index_from(s, p, i + 1)
    }
}

/// The action emitted at one grid cell: the bound action if the position is
/// claimed, else no-op.
pub open spec fn spec_grid_cell(s: Seq<(MatrixPosition, MatrixKeyV)>, x: int, y: int) -> MatrixKeyV {
    if 0 <= x <= 255 && 0 <= y <= 255 {
        match bound_index_from(s, MatrixPosition(x as u8, y as u8), 0) {
            Some(i) => s[i].1,
            None => MatrixKeyV::NoOp,
        }
    } else {
        MatrixKeyV::NoOp
    }
}

/// One layer's emitted action grid: `total_rows` rows of `width` actions,
/// unclaimed positions filled with no-op.
pub open spec fn spec_grid(
    s: Seq<(MatrixPosition, MatrixKeyV)>,
    width: int,
    total_rows: int,
) -> Seq<Seq<MatrixKeyV>> {
    Seq::new(
        total_rows as nat,
        |y: int| Seq::new(width as nat, |x: int| spec_grid_cell(s, x, y)),
    )
}

/// Binds and renders every layer's binding list to its grid, from layer `k`
/// on.
pub open spec fn spec_map_grids(
    named: Seq<(Seq<char>, MatrixKeyV)>,
    chars: Seq<(char, MatrixKeyV)>,
    layer_map: Seq<(Seq<char>, usize)>,
    opts: Seq<(OptionKey, Seq<char>, Seq<char>)>,
    mats: Seq<Seq<(MatrixPosition, KeyV)>>,
    k: int,
    acc: Seq<Seq<Seq<MatrixKeyV>>>,
    width: int,
    total_rows: int,
) -> Result<Seq<Seq<Seq<MatrixKeyV>>>, AppErrorV>
    decreases mats.len() - k,
{
    if k >= mats.len() {
        Ok(acc)
    } else {
        match spec_map_matrix(named, chars, layer_map, opts, mats[k], 0, Seq::empty()) {
            Err(e) => Err(e),
            Ok(mapped) => spec_map_grids(
                named,
                chars,
                layer_map,
                opts,
                mats,
                k + 1,
                acc.push(spec_grid(mapped, width, total_rows)),
                width,
                total_rows,
            ),
        }
    }
}

/// Inserts a name into a named-key table, replacing in place when present.
pub open spec fn spec_named_insert(
    s: Seq<(Seq<char>, MatrixKeyV)>,
    name: Seq<char>,
    k: MatrixKeyV,
) -> Seq<(Seq<char>, MatrixKeyV)> {
    match nk_index_from(s, name, 0) {
        Some(i) => s.update(i, (name, k)),
        None => s.push((name, k)),
    }
}

/// The first `out` declaration for the firmware backend among a custom
/// key's outputs, from output `j` on.
pub open spec fn spec_first_keyberon_output(outputs: Seq<CustomKeyOutputV>, j: int) -> Option<
    Seq<char>,
>
    decreases outputs.len() - j,
{
    if j >= outputs.len() {
        None
    } else if outputs[j].name.s == "keyberon"@ {
        Some(outputs[j].output.text)
    } else {
        spec_first_keyberon_output(outputs, j + 1)
    }
}

/// Merges the user's custom keys into the table, from declaration `i` on.
/// A user declaration takes precedence over a predefined name.
pub open spec fn spec_custom_named_keys(
    s: Seq<(Seq<char>, MatrixKeyV)>,
    customs: Seq<CustomKeyV>,
    i: int,
) -> Seq<(Seq<char>, MatrixKeyV)>
    decreases customs.len() - i,
{
    if i >= customs.len() {
        s
    } else {
        match spec_first_keyberon_output(customs[i].outputs, 0) {
            Some(text) => spec_custom_named_keys(
                spec_named_insert(s, customs[i].name.s, MatrixKeyV::Custom(text)),
                customs,
                i + 1,
            ),
            None => spec_custom_named_keys(s, customs, i + 1),
        }
    }
}

/// The full named-key table: the predefined names, with the user's custom
/// keys merged in, user declarations winning on collision.
pub open spec fn spec_named_keys_table(customs: Seq<CustomKeyV>) -> Seq<(Seq<char>, MatrixKeyV)> {
    spec_custom_named_keys(spec_predefined_named_keys(), customs, 0)
}

/// Folds every layer's chords through the allocator, from layer `i` on,
/// collecting the per-layer binding lists.
pub open spec fn spec_layer_matrices(
    st: EmitState,
    width: u8,
    height: u8,
    layers: Seq<LayerMetaV>,
    i: int,
    acc: Seq<Seq<(MatrixPosition, KeyV)>>,
) -> Result<(EmitState, Seq<Seq<(MatrixPosition, KeyV)>>), AppErrorV>
    decreases layers.len() - i,
{
    if i >= layers.len() {
        Ok((st, acc))
    } else {
        match spec_process_layer(st, width, height, layers[i]) {
            Err(e) => Err(e),
            Ok((st2, m)) => spec_layer_matrices(st2, width, height, layers, i + 1, acc.push(m)),
        }
    }
}

/// The emitted firmware data.
#[derive(Debug, PartialEq, Eq)]
pub struct FirmwareOutput {
    /// The chord table, in allocation order: ordered (left, right) pair to
    /// allocated slot.
    pub chords: Vec<((MatrixPosition, MatrixPosition), MatrixPosition)>,
    /// The matrix width.
    pub width: u8,
    /// The total matrix row count: the layout's height plus the allocated
    /// extra rows.
    pub rows: u16,
    /// The firmware's custom event type, from the `custom_event` option.
    pub custom_event: String,
    /// One action grid per layer, in declaration order.
    pub layers: Vec<Vec<Vec<MatrixKey>>>,
}

/// Ghost model of a [`FirmwareOutput`].
pub struct FirmwareOutputV {
    pub chords: Seq<((MatrixPosition, MatrixPosition), MatrixPosition)>,
    pub width: u8,
    pub rows: u16,
    pub custom_event: Seq<char>,
    pub layers: Seq<Seq<Seq<MatrixKeyV>>>,
}

impl DeepView for FirmwareOutput {
    type V = FirmwareOutputV;

    open spec fn deep_view(&self) -> FirmwareOutputV {
        FirmwareOutputV {
            chords: self.chords@,
            width: self.width,
            rows: self.rows,
            custom_event: self.custom_event@,
            layers: self.layers.deep_view(),
        }
    }
}

/// The exact firmware output for a given named-key table and resolved
/// metadata.
pub open spec fn spec_emit_with(named: Seq<(Seq<char>, MatrixKeyV)>, meta: MetadataV) -> Result<
    FirmwareOutputV,
    AppErrorV,
> {
    let chars = spec_char_keys();
    let width = meta.layout.width;
    let height = meta.layout.height;
    match spec_layer_matrices(
        EmitState { rows: 0, cols: 0, chords: Seq::empty() },
        width,
        height,
        meta.layers.layers,
        0,
        Seq::empty(),
    ) {
        Err(e) => Err(e),
        Ok((st, mats)) => {
            let total_rows = height as int + st.rows as int;
            match spec_map_grids(
                named,
                chars,
                meta.layers.layer_map,
                meta.options.options,
                mats,
                0,
                Seq::empty(),
                width as int,
                total_rows,
            ) {
                Err(e) => Err(e),
                Ok(grids) => Ok(
                    FirmwareOutputV {
                        chords: st.chords,
                        width,
                        rows: total_rows as u16,
                        custom_event: spec_option_d(meta.options.options, "custom_event"@, "()"@),
                        layers: grids,
                    },
                ),
            }
        },
    }
}

/// The exact firmware output for a file's custom keys and its resolved
/// metadata.
pub open spec fn spec_emit(f: FileV, meta: MetadataV) -> Result<FirmwareOutputV, AppErrorV> {
    spec_emit_with(spec_named_keys_table(f.custom_keys), meta)
}

/// The exact firmware output for a file: resolution, then emission.
pub open spec fn spec_compile_firmware(f: FileV) -> Result<FirmwareOutputV, AppErrorV> {
    match spec_metadata_process(f) {
        Err(e) => Err(e),
        Ok(meta) => spec_emit(f, meta),
    }
}

/// Binds a matrix position in a per-layer binding list, replacing in
/// place.
fn matrix_insert(m: &mut Vec<(MatrixPosition, Key)>, pos: MatrixPosition, key: Key)
    ensures
        final(m).deep_view() == spec_matrix_insert(old(m).deep_view(), pos, key.deep_view()),
{
    let ghost keyv = key.deep_view();
    let n = m.len();
    let mut i: usize = 0;
    while i < n
        invariant
            0 <= i <= n,
            *m == *old(m),
            n == m.len(),
            mat_index_from(m.deep_view(), pos, 0) == mat_index_from(m.deep_view(), pos, i as int),
        decreases n - i,
    {
        let e = &m[i];
        if e.0.0 == pos.0 && e.0.1 == pos.1 {
            let ghost pre = *m;
            let pair = (pos, key);
            let ghost pairv = pair.deep_view();
            m.remove(i);
            m.insert(i, pair);
            proof {
                assert(m@ =~= pre@.update(i as int, pair));
                assert(m.deep_view() =~= pre.deep_view().update(i as int, pairv));
                assert(mat_index_from(pre.deep_view(), pos, 0) == Some(i as int));
            }
            return ;
        }
        i = i + 1;
    }
    let ghost pre = *m;
    let pair = (pos, key);
    m.push(pair);
    proof {
        lemma_deep_view_push(pre, *m, pair);
        assert(mat_index_from(pre.deep_view(), pos, 0) is None);
    }
}

/// Inserts a name into a named-key table, replacing in place when present.
fn named_insert(table: &mut Vec<(String, MatrixKey)>, name: &String, k: MatrixKey)
    ensures
        final(table).deep_view() == spec_named_insert(old(table).deep_view(), name@, k.deep_view()),
{
    let n = table.len();
    let mut i: usize = 0;
    while i < n
        invariant
            0 <= i <= n,
            *table == *old(table),
            n == table.len(),
            nk_index_from(table.deep_view(), name@, 0) == nk_index_from(
                table.deep_view(),
                name@,
                i as int,
            ),
        decreases n - i,
    {
        if str_eq(table[i].0.as_str(), name.as_str()) {
            let ghost pre = *table;
            let pair = (name.clone(), k);
            let ghost pairv = pair.deep_view();
            table.remove(i);
            table.insert(i, pair);
            proof {
                assert(table@ =~= pre@.update(i as int, pair));
                assert(table.deep_view() =~= pre.deep_view().update(i as int, pairv));
                assert(nk_index_from(pre.deep_view(), name@, 0) == Some(i as int));
            }
            return ;
        }
        i = i + 1;
    }
    let ghost pre = *table;
    let pair = (name.clone(), k);
    table.push(pair);
    proof {
        lemma_deep_view_push(pre, *table, pair);
        assert(nk_index_from(pre.deep_view(), name@, 0) is None);
    }
}

/// The first firmware-backend output of a custom key declaration.
fn first_keyberon_output(ck: &CustomKey) -> (r: Option<String>)
    ensures
        r.deep_view() == spec_first_keyberon_output(ck.deep_view().outputs, 0),
{
    let n = ck.outputs.len();
    let mut j: usize = 0;
    while j < n
        invariant
            0 <= j <= n,
            n == ck.outputs.len(),
            spec_first_keyberon_output(ck.deep_view().outputs, 0) == spec_first_keyberon_output(
                ck.deep_view().outputs,
                j as int,
            ),
        decreases n - j,
    {
        proof {
            assert(ck.deep_view().outputs[j as int] == ck.outputs[j as int].deep_view());
        }
        if str_eq(ck.outputs[j].name.s.as_str(), "keyberon") {
            return Some(ck.outputs[j].output.text.clone());
        }
        j = j + 1;
    }
    None
}

/// The full named-key table for a file: the predefined names with the
/// user's custom keys merged in, user declarations winning on collision.
fn build_named_keys(customs: &Vec<CustomKey>) -> (r: Vec<(String, MatrixKey)>)
    ensures
        r.deep_view() == spec_named_keys_table(customs.deep_view()),
{
    let mut t = predefined_named_keys();
    let mut i: usize = 0;
    while i < customs.len()
        invariant
            0 <= i <= customs.len(),
            spec_custom_named_keys(spec_predefined_named_keys(), customs.deep_view(), 0)
                == spec_custom_named_keys(t.deep_view(), customs.deep_view(), i as int),
        decreases customs.len() - i,
    {
        proof {
            assert(customs.deep_view()[i as int] == customs[i as int].deep_view());
        }
        match first_keyberon_output(&customs[i]) {
            Some(text) => {
                named_insert(&mut t, &customs[i].name.s, MatrixKey::Custom(text));
            },
            None => {},
        }
        i = i + 1;
    }
    t
}

/// The emitter's working state: the named-key and character tables and the
/// allocator's cursors and chord table.
pub struct Emit {
    pub named_keys: Vec<(String, MatrixKey)>,
    pub char_table: Vec<(char, MatrixKey)>,
    pub extra_allocated_rows: u16,
    pub extra_allocated_cols: u8,
    pub chord_table: Vec<((MatrixPosition, MatrixPosition), MatrixPosition)>,
}

impl Emit {
    /// The allocator part of the state.
    pub open spec fn alloc_model(self) -> EmitState {
        EmitState {
            rows: self.extra_allocated_rows,
            cols: self.extra_allocated_cols,
            chords: self.chord_table@,
        }
    }

    /// The slot already allocated to an ordered pair, if any.
    fn chord_lookup(&self, left: MatrixPosition, right: MatrixPosition) -> (r: Option<
        MatrixPosition,
    >)
        ensures
            r == spec_chord_lookup(self.chord_table@, (left, right)),
    {
        let n = self.chord_table.len();
        let mut i: usize = 0;
        while i < n
            invariant
                0 <= i <= n,
                n == self.chord_table@.len(),
                pair_index_from(self.chord_table@, (left, right), 0) == pair_index_from(
                    self.chord_table@,
                    (left, right),
                    i as int,
                ),
            decreases n - i,
        {
            let e = &self.chord_table[i];
            if e.0.0.0 == left.0 && e.0.0.1 == left.1 && e.0.1.0 == right.0 && e.0.1.1 == right.1 {
                assert(self.chord_table@[i as int].0 == (left, right));
                return Some(e.1);
            }
            i = i + 1;
        }
        None
    }

    /// Allocates the next synthetic slot for an ordered pair and records it
    /// in the chord table.
    fn allocate_extra_key(
        &mut self,
        width: u8,
        height: u8,
        left: MatrixPosition,
        right: MatrixPosition,
        span: Span,
    ) -> (r: Result<MatrixPosition, AppError>)
        ensures
            ({
                let sres = spec_allocate(old(self).alloc_model(), width, height, left, right, span);
                match r {
                    Ok(pos) => sres == Ok::<(EmitState, MatrixPosition), AppErrorV>(
                        (final(self).alloc_model(), pos),
                    ) && final(self).named_keys == old(self).named_keys && final(self).char_table
                        == old(self).char_table,
                    Err(e) => sres == Err::<(EmitState, MatrixPosition), AppErrorV>(e.deep_view())
                        && *final(self) == *old(self),
                }
            }),
    {
        let rows0: u16 = if self.extra_allocated_rows == 0 {
            1
        } else {
            self.extra_allocated_rows
        };
        let row_idx: usize = rows0 as usize + height as usize - 1;
        if height == 0 || row_idx > 255 {
            return Err(AppError::CoordinateOutOfRange { span });
        }
        let pos = MatrixPosition(self.extra_allocated_cols, row_idx as u8);
        self.extra_allocated_rows = rows0;
        self.chord_table.push(((left, right), pos));
        if self.extra_allocated_cols as usize + 1 >= width as usize {
            self.extra_allocated_cols = 0;
            self.extra_allocated_rows = rows0 + 1;
        } else {
            self.extra_allocated_cols = self.extra_allocated_cols + 1;
        }
        Ok(pos)
    }

    /// The slot for a resolved chord: the memoized one if its ordered pair
    /// was seen before, else a freshly allocated one.
    fn process_chord(&mut self, width: u8, height: u8, chord: &ResolvedChord) -> (r: Result<
        MatrixPosition,
        AppError,
    >)
        ensures
            ({
                let sres = spec_process_chord(
                    old(self).alloc_model(),
                    width,
                    height,
                    chord.left,
                    chord.right,
                    chord.chord.span,
                );
                match r {
                    Ok(pos) => sres == Ok::<(EmitState, MatrixPosition), AppErrorV>(
                        (final(self).alloc_model(), pos),
                    ) && final(self).named_keys == old(self).named_keys && final(self).char_table
                        == old(self).char_table,
                    Err(e) => sres == Err::<(EmitState, MatrixPosition), AppErrorV>(e.deep_view())
                        && *final(self) == *old(self),
                }
            }),
    {
        match self.chord_lookup(chord.left, chord.right) {
            Some(pos) => Ok(pos),
            None => self.allocate_extra_key(width, height, chord.left, chord.right, chord.chord.span),
        }
    }

    /// The per-layer binding list: every chord of the layer at its
    /// (possibly fresh) slot, then every key at its own matrix position.
    fn process_layer(&mut self, width: u8, height: u8, layer: &LayerMeta) -> (r: Result<
        Vec<(MatrixPosition, Key)>,
        AppError,
    >)
        ensures
            final(self).named_keys == old(self).named_keys,
            final(self).char_table == old(self).char_table,
            ({
                let sres = spec_process_layer(
                    old(self).alloc_model(),
                    width,
                    height,
                    layer.deep_view(),
                );
                match r {
                    Ok(m) => sres == Ok::<(EmitState, Seq<(MatrixPosition, KeyV)>), AppErrorV>(
                        (final(self).alloc_model(), m.deep_view()),
                    ),
                    Err(e) => sres == Err::<(EmitState, Seq<(MatrixPosition, KeyV)>), AppErrorV>(
                        e.deep_view(),
                    ),
                }
            }),
    {
        let mut matrix: Vec<(MatrixPosition, Key)> = Vec::new();
        proof {
            lemma_deep_view_empty(matrix);
        }
        let mut i: usize = 0;
        while i < layer.chords.len()
            invariant
                0 <= i <= layer.chords.len(),
                self.named_keys == old(self).named_keys,
                self.char_table == old(self).char_table,
                spec_layer_chords(
                    old(self).alloc_model(),
                    Seq::empty(),
                    width,
                    height,
                    layer.deep_view().chords,
                    0,
                ) == spec_layer_chords(
                    self.alloc_model(),
                    matrix.deep_view(),
                    width,
                    height,
                    layer.deep_view().chords,
                    i as int,
                ),
            decreases layer.chords.len() - i,
        {
            proof {
                assert(layer.deep_view().chords[i as int] == layer.chords[i as int].deep_view());
            }
            let pos = match self.process_chord(width, height, &layer.chords[i]) {
                Err(e) => {
                    return Err(e);
                },
                Ok(pos) => pos,
            };
            matrix_insert(&mut matrix, pos, layer.chords[i].chord.key.clone());
            i = i + 1;
        }
        let mut k: usize = 0;
        while k < layer.keys.len()
            invariant
                0 <= k <= layer.keys.len(),
                self.named_keys == old(self).named_keys,
                self.char_table == old(self).char_table,
                spec_process_layer(old(self).alloc_model(), width, height, layer.deep_view())
                    == Ok::<(EmitState, Seq<(MatrixPosition, KeyV)>), AppErrorV>(
                    (
                        self.alloc_model(),
                        spec_layer_keys(matrix.deep_view(), layer.deep_view().keys, k as int),
                    ),
                ),
            decreases layer.keys.len() - k,
        {
            proof {
                assert(layer.deep_view().keys[k as int] == layer.keys[k as int].deep_view());
            }
            matrix_insert(&mut matrix, layer.keys[k].matrix_pos, layer.keys[k].key.clone());
            k = k + 1;
        }
        Ok(matrix)
    }

    /// First-match lookup in the named-key table.
    fn named_lookup(&self, name: &str) -> (r: Option<MatrixKey>)
        ensures
            r.deep_view() == spec_named_lookup(self.named_keys.deep_view(), name@),
    {
        let n = self.named_keys.len();
        let mut i: usize = 0;
        while i < n
            invariant
                0 <= i <= n,
                n == self.named_keys.len(),
                nk_index_from(self.named_keys.deep_view(), name@, 0) == nk_index_from(
                    self.named_keys.deep_view(),
                    name@,
                    i as int,
                ),
            decreases n - i,
        {
            proof {
                assert(self.named_keys.deep_view()[i as int] == self.named_keys[i as int].deep_view());
            }
            if str_eq(self.named_keys[i].0.as_str(), name) {
                return Some(self.named_keys[i].1.clone());
            }
            i = i + 1;
        }
        None
    }

    /// The names of the named-key table, in table order.
    fn table_names(&self) -> (r: Vec<String>)
        ensures
            r.deep_view() == nk_names(self.named_keys.deep_view()),
    {
        let n = self.named_keys.len();
        let mut r: Vec<String> = Vec::new();
        proof {
            lemma_deep_view_empty(r);
        }
        let mut i: usize = 0;
        while i < n
            invariant
                0 <= i <= n,
                n == self.named_keys.len(),
                r.deep_view() =~= nk_names(self.named_keys.deep_view().take(i as int)),
            decreases n - i,
        {
            proof {
                assert(self.named_keys.deep_view()[i as int] == self.named_keys[i as int].deep_view());
            }
            let ghost pre = r;
            let name = self.named_keys[i].0.clone();
            let ghost namev = name;
            r.push(name);
            proof {
                lemma_deep_view_push(pre, r, namev);
                assert(r.deep_view() =~= nk_names(self.named_keys.deep_view().take(i as int + 1)));
            }
            i = i + 1;
        }
        proof {
            assert(self.named_keys.deep_view().take(n as int) =~= self.named_keys.deep_view());
        }
        r
    }

    /// First-match lookup in the character table.
    fn char_lookup(&self, c: char) -> (r: Option<MatrixKey>)
        ensures
            r.deep_view() == spec_char_lookup(self.char_table.deep_view(), c),
    {
        let n = self.char_table.len();
        let mut i: usize = 0;
        while i < n
            invariant
                0 <= i <= n,
                n == self.char_table.len(),
                ch_index_from(self.char_table.deep_view(), c, 0) == ch_index_from(
                    self.char_table.deep_view(),
                    c,
                    i as int,
                ),
            decreases n - i,
        {
            proof {
                assert(self.char_table.deep_view()[i as int] == self.char_table[i as int].deep_view());
            }
            if self.char_table[i].0 == c {
                return Some(self.char_table[i].1.clone());
            }
            i = i + 1;
        }
        None
    }
}

/// First-match lookup in the layer-name table.
fn layer_lookup(layer_map: &Vec<(String, usize)>, name: &str) -> (r: Option<usize>)
    ensures
        r == spec_layer_index(layer_map.deep_view(), name@),
{
    let n = layer_map.len();
    let mut i: usize = 0;
    while i < n
        invariant
            0 <= i <= n,
            n == layer_map.len(),
            crate::process::str_index_from(layer_map.deep_view(), name@, 0)
                == crate::process::str_index_from(layer_map.deep_view(), name@, i as int),
        decreases n - i,
    {
        proof {
            assert(layer_map.deep_view()[i as int] == layer_map[i as int].deep_view());
        }
        if str_eq(layer_map[i].0.as_str(), name) {
            return Some(layer_map[i].1);
        }
        i = i + 1;
    }
    None
}

/// The names of the layer-name table, in table order.
fn layer_names(layer_map: &Vec<(String, usize)>) -> (r: Vec<String>)
    ensures
        r.deep_view() == lm_names(layer_map.deep_view()),
{
    let n = layer_map.len();
    let mut r: Vec<String> = Vec::new();
    proof {
        lemma_deep_view_empty(r);
    }
    let mut i: usize = 0;
    while i < n
        invariant
            0 <= i <= n,
            n == layer_map.len(),
            r.deep_view() =~= lm_names(layer_map.deep_view().take(i as int)),
        decreases n - i,
    {
        proof {
            assert(layer_map.deep_view()[i as int] == layer_map[i as int].deep_view());
        }
        let ghost pre = r;
        let name = layer_map[i].0.clone();
        let ghost namev = name;
        r.push(name);
        proof {
            lemma_deep_view_push(pre, r, namev);
            assert(r.deep_view() =~= lm_names(layer_map.deep_view().take(i as int + 1)));
        }
        i = i + 1;
    }
    proof {
        assert(layer_map.deep_view().take(n as int) =~= layer_map.deep_view());
    }
    r
}

/// The firmware option value for `key`, or `default` when unset.
fn option_d(metadata: &Metadata, key: &str, default: &str) -> (r: String)
    ensures
        r@ == spec_option_d(metadata.options.deep_view().options, key@, default@),
{
    match metadata.get_option(OptionKey::RustyDilemma, key) {
        Some(v) => v,
        None => String::from_str(default),
    }
}

impl Emit {
    /// Binds one plain key through the tables; an unresolved name is an
    /// error carrying the ranked similar names of its table.
    fn map_plain_key(&self, metadata: &Metadata, p: &PlainKey) -> (r: Result<MatrixKey, AppError>)
        ensures
            res_model(r) == spec_map_plain_key(
                self.named_keys.deep_view(),
                self.char_table.deep_view(),
                metadata.layers.layer_map.deep_view(),
                p.deep_view(),
            ),
    {
        match p {
            PlainKey::Named(name) => match self.named_lookup(name.s.as_str()) {
                Some(k) => Ok(k),
                None => {
                    let names = self.table_names();
                    let similar = suggestions(&name.s, &names);
                    Err(
                        AppError::UnknownNamedKey {
                            span: name.span,
                            key: name.s.clone(),
                            similar,
                        },
                    )
                },
            },
            PlainKey::Layer { layer, span: _ } => match layer_lookup(
                &metadata.layers.layer_map,
                layer.s.as_str(),
            ) {
                Some(idx) => Ok(MatrixKey::Layer(idx)),
                None => {
                    let names = layer_names(&metadata.layers.layer_map);
                    let similar = suggestions(&layer.s, &names);
                    Err(
                        AppError::UnknownNamedLayer {
                            span: layer.span,
                            layer: layer.s.clone(),
                            similar,
                        },
                    )
                },
            },
            PlainKey::Char { c, span } => match self.char_lookup(*c) {
                Some(k) => Ok(k),
                None => Err(AppError::UnknownKey { span: *span, key: *c }),
            },
        }
    }

    /// Binds one key: plain keys directly, mod-taps as a hold-tap action
    /// over their bound tap and hold with the configured timing options.
    fn map_key(&self, metadata: &Metadata, key: &Key) -> (r: Result<MatrixKey, AppError>)
        ensures
            res_model(r) == spec_map_key(
                self.named_keys.deep_view(),
                self.char_table.deep_view(),
                metadata.layers.layer_map.deep_view(),
                metadata.options.deep_view().options,
                key.deep_view(),
            ),
    {
        match key {
            Key::Plain(p) => self.map_plain_key(metadata, p),
            Key::ModTap { tap, at, timeout: _, hold, span: _ } => {
                let t = match self.map_plain_key(metadata, tap) {
                    Err(e) => {
                        return Err(e);
                    },
                    Ok(t) => t,
                };
                let h = match self.map_plain_key(metadata, hold) {
                    Err(e) => {
                        return Err(e);
                    },
                    Ok(h) => h,
                };
                let config = match at {
                    ModTapType::Permissive(_) => HoldTapConfig::PermissiveHold,
                    ModTapType::OnOtherKey(_) => HoldTapConfig::HoldOnOtherKeyPress,
                };
                let timeout = option_d(metadata, "hold_tap_timeout", "400");
                let tap_hold_interval = option_d(metadata, "hold_tap_interval", "200");
                Ok(
                    MatrixKey::HoldTap {
                        tap: Box::new(t),
                        hold: Box::new(h),
                        config,
                        timeout,
                        tap_hold_interval,
                    },
                )
            },
        }
    }

    /// Binds every entry of a per-layer binding list.
    fn map_keys(&self, metadata: &Metadata, m: &Vec<(MatrixPosition, Key)>) -> (r: Result<
        Vec<(MatrixPosition, MatrixKey)>,
        AppError,
    >)
        ensures
            ({
                let sres = spec_map_matrix(
                    self.named_keys.deep_view(),
                    self.char_table.deep_view(),
                    metadata.layers.layer_map.deep_view(),
                    metadata.options.deep_view().options,
                    m.deep_view(),
                    0,
                    Seq::empty(),
                );
                match r {
                    Ok(v) => sres == Ok::<Seq<(MatrixPosition, MatrixKeyV)>, AppErrorV>(
                        v.deep_view(),
                    ),
                    Err(e) => sres == Err::<Seq<(MatrixPosition, MatrixKeyV)>, AppErrorV>(
                        e.deep_view(),
                    ),
                }
            }),
    {
        let mut acc: Vec<(MatrixPosition, MatrixKey)> = Vec::new();
        proof {
            lemma_deep_view_empty(acc);
        }
        let mut i: usize = 0;
        while i < m.len()
            invariant
                0 <= i <= m.len(),
                spec_map_matrix(
                    self.named_keys.deep_view(),
                    self.char_table.deep_view(),
                    metadata.layers.layer_map.deep_view(),
                    metadata.options.deep_view().options,
                    m.deep_view(),
                    0,
                    Seq::empty(),
                ) == spec_map_matrix(
                    self.named_keys.deep_view(),
                    self.char_table.deep_view(),
                    metadata.layers.layer_map.deep_view(),
                    metadata.options.deep_view().options,
                    m.deep_view(),
                    i as int,
                    acc.deep_view(),
                ),
            decreases m.len() - i,
        {
            proof {
                assert(m.deep_view()[i as int] == m[i as int].deep_view());
            }
            let a = match self.map_key(metadata, &m[i].1) {
                Err(e) => {
                    return Err(e);
                },
                Ok(a) => a,
            };
            let ghost pre = acc;
            let pair = (m[i].0, a);
            let ghost pairv = pair.deep_view();
            acc.push(pair);
            proof {
                lemma_deep_view_push(pre, acc, pair);
            }
            i = i + 1;
        }
        Ok(acc)
    }
}

/// First-match lookup of a bound action at a matrix position.
fn bound_lookup(s: &Vec<(MatrixPosition, MatrixKey)>, p: MatrixPosition) -> (r: Option<MatrixKey>)
    ensures
        r.deep_view() == (match bound_index_from(s.deep_view(), p, 0) {
            Some(i) => Some(s.deep_view()[i].1),
            None => None::<MatrixKeyV>,
        }),
{
    let n = s.len();
    let mut i: usize = 0;
    while i < n
        invariant
            0 <= i <= n,
            n == s.len(),
            bound_index_from(s.deep_view(), p, 0) == bound_index_from(s.deep_view(), p, i as int),
        decreases n - i,
    {
        proof {
            assert(s.deep_view()[i as int] == s[i as int].deep_view());
        }
        if s[i].0.0 == p.0 && s[i].0.1 == p.1 {
            return Some(s[i].1.clone());
        }
        i = i + 1;
    }
    None
}

/// Renders one layer's bound list to its `total_rows` × `width` action
/// grid, unclaimed positions filled with no-op.
fn build_grid(mapped: &Vec<(MatrixPosition, MatrixKey)>, width: u8, total_rows: u16) -> (r: Vec<
    Vec<MatrixKey>,
>)
    ensures
        r.deep_view() == spec_grid(mapped.deep_view(), width as int, total_rows as int),
{
    let mut grid: Vec<Vec<MatrixKey>> = Vec::new();
    proof {
        lemma_deep_view_empty(grid);
    }
    let mut y: usize = 0;
    while y < total_rows as usize
        invariant
            0 <= y <= total_rows,
            grid.deep_view().len() == y,
            forall|yy: int| 0 <= yy < y ==> grid.deep_view()[yy] == Seq::new(
                width as nat,
                |x: int| spec_grid_cell(mapped.deep_view(), x, yy),
            ),
        decreases total_rows - y,
    {
        let mut row: Vec<MatrixKey> = Vec::new();
        proof {
            lemma_deep_view_empty(row);
        }
        let mut x: usize = 0;
        while x < width as usize
            invariant
                0 <= x <= width,
                y <= 65535,
                row.deep_view().len() == x,
                forall|xx: int| 0 <= xx < x ==> row.deep_view()[xx] == spec_grid_cell(
                    mapped.deep_view(),
                    xx,
                    y as int,
                ),
            decreases width - x,
        {
            let cell = if y <= 255 {
                match bound_lookup(mapped, MatrixPosition(x as u8, y as u8)) {
                    Some(k) => k,
                    None => MatrixKey::NoOp,
                }
            } else {
                MatrixKey::NoOp
            };
            let ghost pre = row;
            let ghost cellv = cell.deep_view();
            row.push(cell);
            proof {
                lemma_deep_view_push(pre, row, row@[pre@.len() as int]);
                assert(row.deep_view()[x as int] == cellv);
            }
            x = x + 1;
        }
        let ghost prerows = grid;
        let ghost rowv = row.deep_view();
        grid.push(row);
        proof {
            lemma_deep_view_push(prerows, grid, grid@[prerows@.len() as int]);
            assert(grid.deep_view()[y as int] =~= Seq::new(
                width as nat,
                |x: int| spec_grid_cell(mapped.deep_view(), x, y as int),
            ));
        }
        y = y + 1;
    }
    proof {
        assert(grid.deep_view() =~= spec_grid(mapped.deep_view(), width as int, total_rows as int));
    }
    grid
}

/// On success, the allocator's extra-row cursor never passes 256.
proof fn lemma_chords_rows_bound(
    st: EmitState,
    matrix: Seq<(MatrixPosition, KeyV)>,
    width: u8,
    height: u8,
    chords: Seq<crate::process::ResolvedChordV>,
    i: int,
)
    requires
        st.rows <= 256,
    ensures
        (spec_layer_chords(st, matrix, width, height, chords, i) matches Ok(res) ==> res.0.rows
            <= 256),
    decreases chords.len() - i,
{
    if i < chords.len() {
        match spec_process_chord(st, width, height, chords[i].left, chords[i].right, chords[i].chord.span) {
            Ok((st2, pos)) => {
                lemma_chords_rows_bound(
                    st2,
                    spec_matrix_insert(matrix, pos, chords[i].chord.key),
                    width,
                    height,
                    chords,
                    i + 1,
                );
            },
            Err(_) => {},
        }
    }
}

/// On success, the allocator's extra-row cursor never passes 256.
proof fn lemma_matrices_rows_bound(
    st: EmitState,
    width: u8,
    height: u8,
    layers: Seq<LayerMetaV>,
    i: int,
    acc: Seq<Seq<(MatrixPosition, KeyV)>>,
)
    requires
        st.rows <= 256,
    ensures
        (spec_layer_matrices(st, width, height, layers, i, acc) matches Ok(res) ==> res.0.rows
            <= 256),
    decreases layers.len() - i,
{
    if i < layers.len() {
        match spec_process_layer(st, width, height, layers[i]) {
            Ok((st2, m)) => {
                lemma_chords_rows_bound(st, Seq::empty(), width, height, layers[i].chords, 0);
                lemma_matrices_rows_bound(st2, width, height, layers, i + 1, acc.push(m));
            },
            Err(_) => {},
        }
    }
}

/// A copy of the chord table, entry for entry.
fn copy_chords(src: &Vec<((MatrixPosition, MatrixPosition), MatrixPosition)>) -> (r: Vec<
    ((MatrixPosition, MatrixPosition), MatrixPosition),
>)
    ensures
        r@ == src@,
{
    let mut r: Vec<((MatrixPosition, MatrixPosition), MatrixPosition)> = Vec::new();
    let mut i: usize = 0;
    while i < src.len()
        invariant
            0 <= i <= src@.len(),
            r@ =~= src@.take(i as int),
        decreases src.len() - i,
    {
        r.push(src[i]);
        i = i + 1;
    }
    proof {
        assert(src@.take(src@.len() as int) =~= src@);
    }
    r
}

impl Emit {
    /// Runs allocation and binding over every layer and assembles the
    /// firmware output.
    fn process(&mut self, metadata: &Metadata) -> (r: Result<FirmwareOutput, AppError>)
        requires
            old(self).extra_allocated_rows == 0,
            old(self).extra_allocated_cols == 0,
            old(self).chord_table@ == Seq::<((MatrixPosition, MatrixPosition), MatrixPosition)>::empty(),
            old(self).char_table.deep_view() == spec_char_keys(),
        ensures
            res_model(r) == spec_emit_with(old(self).named_keys.deep_view(), metadata.deep_view()),
    {
        let width = metadata.layout.width;
        let height = metadata.layout.height;
        let mut mats: Vec<Vec<(MatrixPosition, Key)>> = Vec::new();
        proof {
            lemma_deep_view_empty(mats);
        }
        let layer_count = metadata.layers.layers.len();
        let mut i: usize = 0;
        while i < layer_count
            invariant
                0 <= i <= layer_count,
                layer_count == metadata.layers.layers.len(),
                width == metadata.layout.width,
                height == metadata.layout.height,
                self.named_keys == old(self).named_keys,
                self.char_table == old(self).char_table,
                spec_layer_matrices(
                    EmitState { rows: 0, cols: 0, chords: Seq::empty() },
                    width,
                    height,
                    metadata.layers.layers.deep_view(),
                    0,
                    Seq::empty(),
                ) == spec_layer_matrices(
                    self.alloc_model(),
                    width,
                    height,
                    metadata.layers.layers.deep_view(),
                    i as int,
                    mats.deep_view(),
                ),
            decreases layer_count - i,
        {
            proof {
                assert(metadata.layers.layers.deep_view()[i as int] == metadata.layers.layers[i as int].deep_view());
            }
            let m = match self.process_layer(width, height, &metadata.layers.layers[i]) {
                Err(e) => {
                    return Err(e);
                },
                Ok(m) => m,
            };
            let ghost pre = mats;
            let ghost mv = m.deep_view();
            mats.push(m);
            proof {
                assert(mats.deep_view() =~= pre.deep_view().push(mv));
            }
            i = i + 1;
        }
        proof {
            lemma_matrices_rows_bound(
                EmitState { rows: 0, cols: 0, chords: Seq::empty() },
                width,
                height,
                metadata.layers.layers.deep_view(),
                0,
                Seq::empty(),
            );
        }
        let total_rows: u16 = height as u16 + self.extra_allocated_rows;
        let mut grids: Vec<Vec<Vec<MatrixKey>>> = Vec::new();
        proof {
            lemma_deep_view_empty(grids);
        }
        let mut k: usize = 0;
        while k < mats.len()
            invariant
                0 <= k <= mats.len(),
                self.named_keys == old(self).named_keys,
                self.char_table == old(self).char_table,
                old(self).char_table.deep_view() == spec_char_keys(),
                width == metadata.layout.width,
                height == metadata.layout.height,
                total_rows as int == height as int + self.extra_allocated_rows as int,
                spec_layer_matrices(
                    EmitState { rows: 0, cols: 0, chords: Seq::empty() },
                    width,
                    height,
                    metadata.layers.layers.deep_view(),
                    0,
                    Seq::empty(),
                ) == Ok::<(EmitState, Seq<Seq<(MatrixPosition, KeyV)>>), AppErrorV>(
                    (self.alloc_model(), mats.deep_view()),
                ),
                spec_map_grids(
                    self.named_keys.deep_view(),
                    spec_char_keys(),
                    metadata.layers.layer_map.deep_view(),
                    metadata.options.deep_view().options,
                    mats.deep_view(),
                    0,
                    Seq::empty(),
                    width as int,
                    total_rows as int,
                ) == spec_map_grids(
                    self.named_keys.deep_view(),
                    spec_char_keys(),
                    metadata.layers.layer_map.deep_view(),
                    metadata.options.deep_view().options,
                    mats.deep_view(),
                    k as int,
                    grids.deep_view(),
                    width as int,
                    total_rows as int,
                ),
            decreases mats.len() - k,
        {
            proof {
                assert(mats.deep_view()[k as int] == mats[k as int].deep_view());
            }
            let mapped = match self.map_keys(metadata, &mats[k]) {
                Err(e) => {
                    return Err(e);
                },
                Ok(v) => v,
            };
            let grid = build_grid(&mapped, width, total_rows);
            let ghost pre = grids;
            let ghost gv = grid.deep_view();
            grids.push(grid);
            proof {
                assert(grids.deep_view() =~= pre.deep_view().push(gv));
            }
            k = k + 1;
        }
        let custom_event = option_d(metadata, "custom_event", "()");
        Ok(
            FirmwareOutput {
                chords: copy_chords(&self.chord_table),
                width,
                rows: total_rows,
                custom_event,
                layers: grids,
            },
        )
    }
}

/// Emits the firmware data for a resolved file: the chord table, the
/// matrix dimensions, and one fully bound action grid per layer.
pub fn emit(file: &File, metadata: &Metadata) -> (r: Result<FirmwareOutput, AppError>)
    ensures
        res_model(r) == spec_emit(file.deep_view(), metadata.deep_view()),
{
    let named_keys = build_named_keys(&file.custom_keys);
    let char_table = char_keys();
    let mut e = Emit {
        named_keys,
        char_table,
        extra_allocated_rows: 0,
        extra_allocated_cols: 0,
        chord_table: Vec::new(),
    };
    proof {
        assert(e.chord_table@ =~= Seq::<((MatrixPosition, MatrixPosition), MatrixPosition)>::empty());
    }
    e.process(metadata)
}

/// Compiles a parsed file to its firmware output: resolution, then
/// emission.  Identical inputs give identical outputs: the result is a
/// function of the file's model alone.
pub fn compile_firmware(file: &File) -> (r: Result<FirmwareOutput, AppError>)
    requires
        file.layout.rows.len() > 0,
    ensures
        res_model(r) == spec_compile_firmware(file.deep_view()),
{
    match Metadata::process(file) {
        Err(e) => Err(e),
        Ok(meta) => emit(file, &meta),
    }
}

/// The allocator's invariant: the chord table holds, for its `n`-th entry,
/// the slot at column `n % width` of extra row `n / width` — slots fill an
/// extra row left to right before wrapping to the next — every slot row
/// stays within the matrix range, and the cursors agree with the count.
pub open spec fn alloc_wf(st: EmitState, width: u8, height: u8) -> bool {
    &&& width > 0
    &&& height > 0
    &&& st.cols < width
    &&& (st.rows == 0 ==> st.cols == 0)
    &&& st.chords.len() as int == (if st.rows == 0 {
        0int
    } else {
        (st.rows - 1) * (width as int) + st.cols
    })
    &&& forall|n: int| 0 <= n < st.chords.len() ==> (#[trigger] st.chords[n]).1
        == MatrixPosition(
        ((n % (width as int)) as u8),
        ((height + n / (width as int)) as u8),
    )
    &&& forall|n: int| 0 <= n < st.chords.len() ==> height + #[trigger] (n / (width as int)) <= 255
}

/// Allocation fills extra columns left to right before wrapping to a new
/// extra row once `width` slots are used: from a well-formed state with
/// `n` slots allocated, the next slot is at column `n % width` of extra
/// row `n / width`, it is appended to the table under its ordered pair,
/// and the state stays well-formed.
pub proof fn lemma_allocate_slot(
    st: EmitState,
    width: u8,
    height: u8,
    left: MatrixPosition,
    right: MatrixPosition,
    span: Span,
)
    requires
        alloc_wf(st, width, height),
    ensures
        spec_allocate(st, width, height, left, right, span) matches Ok(res) ==> {
            let n = st.chords.len() as int;
            &&& res.1 == MatrixPosition(
                ((n % (width as int)) as u8),
                ((height + n / (width as int)) as u8),
            )
            &&& res.0.chords == st.chords.push(((left, right), res.1))
            &&& alloc_wf(res.0, width, height)
        },
{
    let w = width as int;
    let n = st.chords.len() as int;
    let rows0: int = if st.rows == 0 {
        1
    } else {
        st.rows as int
    };
    let row_idx = rows0 + height - 1;
    if height == 0 || row_idx > 255 {
    } else {
        vstd::arithmetic::div_mod::lemma_fundamental_div_mod_converse(
            n,
            w,
            rows0 - 1,
            st.cols as int,
        );
        assert(n % w == st.cols as int);
        assert(n / w == rows0 - 1);
        let res = spec_allocate(st, width, height, left, right, span)->Ok_0;
        let st2 = res.0;
        let n2 = st2.chords.len() as int;
        assert(n2 == n + 1);
        if st.cols as int + 1 >= w {
            assert(st.cols as int == w - 1);
            assert(n + 1 == rows0 * w) by (nonlinear_arith)
                requires n == (rows0 - 1) * w + st.cols && st.cols == w - 1;
            assert(st2.rows as int == rows0 + 1);
            assert(st2.chords.len() as int == (st2.rows - 1) * w + st2.cols) by (nonlinear_arith)
                requires
                    st2.chords.len() == n + 1 && n + 1 == rows0 * w && st2.rows == rows0 + 1
                        && st2.cols == 0;
        } else {
            assert(st2.chords.len() as int == (st2.rows - 1) * w + st2.cols) by (nonlinear_arith)
                requires
                    st2.chords.len() == n + 1 && n == (rows0 - 1) * w + st.cols && st2.rows == rows0
                        && st2.cols == st.cols + 1;
        }
        assert forall|m: int| 0 <= m < st2.chords.len() implies (#[trigger] st2.chords[m]).1
            == MatrixPosition(((m % w) as u8), ((height + m / w) as u8)) && height + m / w
            <= 255 by {
            if m < n {
                assert(st2.chords[m] == st.chords[m]);
            } else {
                assert(st2.chords[m] == ((left, right), res.1));
            }
        }
    }
}

/// The same ordered (left, right) pair, processed again — on the same or
/// any later layer — is given exactly the slot already in the table, and
/// the table does not grow.
pub proof fn lemma_chord_memoized(
    st: EmitState,
    width: u8,
    height: u8,
    left: MatrixPosition,
    right: MatrixPosition,
    span: Span,
)
    requires
        spec_chord_lookup(st.chords, (left, right)) is Some,
    ensures
        spec_process_chord(st, width, height, left, right, span) == Ok::<
            (EmitState, MatrixPosition),
            AppErrorV,
        >((st, spec_chord_lookup(st.chords, (left, right))->Some_0)),
{
}

/// Two different entries of a well-formed chord table hold distinct slots:
/// a different pair (even one reusing one of the same positions) gets a
/// distinct slot.
pub proof fn lemma_chord_slots_distinct(st: EmitState, width: u8, height: u8, i: int, j: int)
    requires
        alloc_wf(st, width, height),
        0 <= i < st.chords.len(),
        0 <= j < st.chords.len(),
        i != j,
    ensures
        st.chords[i].1 != st.chords[j].1,
{
    let w = width as int;
    vstd::arithmetic::div_mod::lemma_fundamental_div_mod(i, w);
    vstd::arithmetic::div_mod::lemma_fundamental_div_mod(j, w);
    assert(0 <= i % w < w && 0 <= j % w < w) by {
        vstd::arithmetic::div_mod::lemma_mod_bound(i, w);
        vstd::arithmetic::div_mod::lemma_mod_bound(j, w);
    }
    assert(0 <= i / w && 0 <= j / w) by {
        vstd::arithmetic::div_mod::lemma_div_pos_is_pos(i, w);
        vstd::arithmetic::div_mod::lemma_div_pos_is_pos(j, w);
    }
    if st.chords[i].1 == st.chords[j].1 {
        assert(((i % w) as u8) == ((j % w) as u8));
        assert(((height + i / w) as u8) == ((height + j / w) as u8));
        assert(i % w == j % w);
        assert(i / w == j / w);
        assert(i == w * (i / w) + i % w);
        assert(j == w * (j / w) + j % w);
        assert(false);
    }
}

/// Processing a chord preserves the allocator invariant.
proof fn lemma_process_chord_wf(
    st: EmitState,
    width: u8,
    height: u8,
    left: MatrixPosition,
    right: MatrixPosition,
    span: Span,
)
    requires
        alloc_wf(st, width, height),
    ensures
        spec_process_chord(st, width, height, left, right, span) matches Ok(res) ==> alloc_wf(
            res.0,
            width,
            height,
        ),
{
    match spec_chord_lookup(st.chords, (left, right)) {
        Some(_) => {},
        None => {
            lemma_allocate_slot(st, width, height, left, right, span);
        },
    }
}

/// Folding a layer's chords preserves the allocator invariant.
proof fn lemma_layer_chords_wf(
    st: EmitState,
    matrix: Seq<(MatrixPosition, KeyV)>,
    width: u8,
    height: u8,
    chords: Seq<crate::process::ResolvedChordV>,
    i: int,
)
    requires
        alloc_wf(st, width, height),
    ensures
        spec_layer_chords(st, matrix, width, height, chords, i) matches Ok(res) ==> alloc_wf(
            res.0,
            width,
            height,
        ),
    decreases chords.len() - i,
{
    if i < chords.len() {
        match spec_process_chord(
            st,
            width,
            height,
            chords[i].left,
            chords[i].right,
            chords[i].chord.span,
        ) {
            Ok((st2, pos)) => {
                lemma_process_chord_wf(
                    st,
                    width,
                    height,
                    chords[i].left,
                    chords[i].right,
                    chords[i].chord.span,
                );
                lemma_layer_chords_wf(
                    st2,
                    spec_matrix_insert(matrix, pos, chords[i].chord.key),
                    width,
                    height,
                    chords,
                    i + 1,
                );
            },
            Err(_) => {},
        }
    }
}

/// Folding every layer preserves the allocator invariant; in particular
/// the chord table of a whole emission run is well-formed, so its slots
/// are pairwise distinct and follow the fill-then-wrap order.
pub proof fn lemma_layer_matrices_wf(
    st: EmitState,
    width: u8,
    height: u8,
    layers: Seq<LayerMetaV>,
    i: int,
    acc: Seq<Seq<(MatrixPosition, KeyV)>>,
)
    requires
        alloc_wf(st, width, height),
    ensures
        spec_layer_matrices(st, width, height, layers, i, acc) matches Ok(res) ==> alloc_wf(
            res.0,
            width,
            height,
        ),
    decreases layers.len() - i,
{
    if i < layers.len() {
        match spec_process_layer(st, width, height, layers[i]) {
            Ok((st2, m)) => {
                lemma_layer_chords_wf(st, Seq::empty(), width, height, layers[i].chords, 0);
                lemma_layer_matrices_wf(st2, width, height, layers, i + 1, acc.push(m));
            },
            Err(_) => {},
        }
    }
}

/// The empty allocator state is well-formed for any non-degenerate matrix.
pub proof fn lemma_empty_alloc_wf(width: u8, height: u8)
    requires
        width > 0,
        height > 0,
    ensures
        alloc_wf(EmitState { rows: 0, cols: 0, chords: Seq::empty() }, width, height),
{
}

/// Two compilations of files with identical models produce identical
/// firmware output models: compilation is a function of the source alone,
/// so byte-identical source gives byte-identical firmware.
pub proof fn lemma_compile_deterministic(
    f1: File,
    f2: File,
    r1: Result<FirmwareOutput, AppError>,
    r2: Result<FirmwareOutput, AppError>,
)
    requires
        f1.deep_view() == f2.deep_view(),
        res_model(r1) == spec_compile_firmware(f1.deep_view()),
        res_model(r2) == spec_compile_firmware(f2.deep_view()),
    ensures
        res_model(r1) == res_model(r2),
{
}

/// Whether a binding list binds a position.
pub open spec fn m_binds(m: Seq<(MatrixPosition, KeyV)>, p: MatrixPosition) -> bool {
    exists|i: int| 0 <= i < m.len() && (#[trigger] m[i]).0 == p
}

/// Whether a layer has a real key at a position.
pub open spec fn layer_key_at(layer: LayerMetaV, p: MatrixPosition) -> bool {
    exists|i: int| 0 <= i < layer.keys.len() && (#[trigger] layer.keys[i]).matrix_pos == p
}

/// Whether a position is the slot allocated to one of a layer's chords in
/// a chord table.
pub open spec fn layer_chord_slot(
    chords_table: Seq<((MatrixPosition, MatrixPosition), MatrixPosition)>,
    layer: LayerMetaV,
    p: MatrixPosition,
) -> bool {
    exists|i: int| 0 <= i < layer.chords.len() && spec_chord_lookup(
        chords_table,
        ((#[trigger] layer.chords[i]).left, layer.chords[i].right),
    ) == Some(p)
}

/// Pushing an entry onto the chord table does not disturb what lookup
/// already finds.
proof fn lemma_pair_lookup_push(
    s: Seq<((MatrixPosition, MatrixPosition), MatrixPosition)>,
    k: (MatrixPosition, MatrixPosition),
    e: ((MatrixPosition, MatrixPosition), MatrixPosition),
)
    ensures
        spec_chord_lookup(s.push(e), k) == if spec_chord_lookup(s, k) is Some {
            spec_chord_lookup(s, k)
        } else if e.0 == k {
            Some(e.1)
        } else {
            None::<MatrixPosition>
        },
{
    lemma_pair_lookup_push_from(s, k, e, 0);
}

proof fn lemma_pair_lookup_push_from(
    s: Seq<((MatrixPosition, MatrixPosition), MatrixPosition)>,
    k: (MatrixPosition, MatrixPosition),
    e: ((MatrixPosition, MatrixPosition), MatrixPosition),
    i: int,
)
    requires
        0 <= i <= s.len(),
    ensures
        ({
            let r = pair_index_from(s.push(e), k, i);
            let r0 = pair_index_from(s, k, i);
            match r0 {
                Some(j) => r == Some(j) && 0 <= j < s.len() && s[j].0 == k,
                None => if e.0 == k {
                    r == Some(s.len() as int)
                } else {
                    r is None
                },
            }
        }),
    decreases s.len() - i,
{
    if i < s.len() {
        assert(s.push(e)[i] == s[i]);
        lemma_pair_lookup_push_from(s, k, e, i + 1);
        if pair_index_from(s, k, i) matches Some(j) {
            lemma_pair_index_valid(s, k, i);
        }
    } else {
        assert(s.push(e)[i] == e);
        assert(pair_index_from(s, k, i) is None);
        assert(pair_index_from(s.push(e), k, i + 1) is None);
    }
}

/// A found index is in range and holds the key looked up.
proof fn lemma_pair_index_valid(
    s: Seq<((MatrixPosition, MatrixPosition), MatrixPosition)>,
    k: (MatrixPosition, MatrixPosition),
    i: int,
)
    requires
        0 <= i,
    ensures
        pair_index_from(s, k, i) matches Some(j) ==> i <= j < s.len() && s[j].0 == k,
    decreases s.len() - i,
{
    if i < s.len() && s[i].0 != k {
        lemma_pair_index_valid(s, k, i + 1);
    }
}

/// The value lookup finds is a value of the table.
proof fn lemma_pair_lookup_is_value(
    s: Seq<((MatrixPosition, MatrixPosition), MatrixPosition)>,
    k: (MatrixPosition, MatrixPosition),
    i: int,
)
    requires
        0 <= i,
    ensures
        pair_index_from(s, k, i) matches Some(j) ==> i <= j < s.len(),
    decreases s.len() - i,
{
    if i < s.len() && s[i].0 != k {
        lemma_pair_lookup_is_value(s, k, i + 1);
    }
}

/// In a well-formed table every slot sits on or above the matrix row
/// `height`: on an extra row.
proof fn lemma_wf_slot_rows(st: EmitState, width: u8, height: u8, k: (MatrixPosition, MatrixPosition))
    requires
        alloc_wf(st, width, height),
    ensures
        spec_chord_lookup(st.chords, k) matches Some(p) ==> p.1 >= height,
{
    match pair_index_from(st.chords, k, 0) {
        Some(j) => {
            lemma_pair_lookup_is_value(st.chords, k, 0);
            vstd::arithmetic::div_mod::lemma_div_pos_is_pos(j, width as int);
        },
        None => {},
    }
}

/// Folding a layer's chords leaves what the table already answers
/// unchanged.
proof fn lemma_layer_chords_monotone(
    st: EmitState,
    matrix: Seq<(MatrixPosition, KeyV)>,
    width: u8,
    height: u8,
    chords: Seq<crate::process::ResolvedChordV>,
    i: int,
    k: (MatrixPosition, MatrixPosition),
)
    requires
        spec_chord_lookup(st.chords, k) is Some,
    ensures
        spec_layer_chords(st, matrix, width, height, chords, i) matches Ok(res) ==> spec_chord_lookup(
            res.0.chords,
            k,
        ) == spec_chord_lookup(st.chords, k),
    decreases chords.len() - i,
{
    if i < chords.len() {
        let pair = (chords[i].left, chords[i].right);
        match spec_process_chord(st, width, height, chords[i].left, chords[i].right, chords[i].chord.span) {
            Ok((st2, pos)) => {
                match spec_chord_lookup(st.chords, pair) {
                    Some(_) => {
                        assert(st2 == st);
                    },
                    None => {
                        lemma_pair_lookup_push(st.chords, k, (pair, pos));
                    },
                }
                lemma_layer_chords_monotone(
                    st2,
                    spec_matrix_insert(matrix, pos, chords[i].chord.key),
                    width,
                    height,
                    chords,
                    i + 1,
                    k,
                );
            },
            Err(_) => {},
        }
    }
}

/// Inserting a binding binds exactly the old positions plus the new one.
proof fn lemma_matrix_insert_binds(m: Seq<(MatrixPosition, KeyV)>, p: MatrixPosition, k: KeyV)
    ensures
        forall|q: MatrixPosition| m_binds(spec_matrix_insert(m, p, k), q) <==> (m_binds(m, q) || q
            == p),
{
    let m2 = spec_matrix_insert(m, p, k);
    match mat_index_from(m, p, 0) {
        Some(i) => {
            lemma_mat_index_valid(m, p, 0);
            assert forall|q: MatrixPosition| m_binds(m2, q) implies (m_binds(m, q) || q == p) by {
                let w = choose|w: int| 0 <= w < m2.len() && m2[w].0 == q;
                if w != i {
                    assert(m[w].0 == q);
                }
            }
            assert forall|q: MatrixPosition| (m_binds(m, q) || q == p) implies m_binds(m2, q) by {
                if q == p {
                    assert(m2[i].0 == q);
                } else {
                    let w = choose|w: int| 0 <= w < m.len() && m[w].0 == q;
                    assert(m2[w].0 == q);
                }
            }
        },
        None => {
            assert forall|q: MatrixPosition| m_binds(m2, q) implies (m_binds(m, q) || q == p) by {
                let w = choose|w: int| 0 <= w < m2.len() && m2[w].0 == q;
                if w < m.len() {
                    assert(m[w].0 == q);
                }
            }
            assert forall|q: MatrixPosition| (m_binds(m, q) || q == p) implies m_binds(m2, q) by {
                if q == p {
                    assert(m2[m.len() as int].0 == q);
                } else {
                    let w = choose|w: int| 0 <= w < m.len() && m[w].0 == q;
                    assert(m2[w].0 == q);
                }
            }
        },
    }
}

/// A found index in a binding list is in range and holds the position.
proof fn lemma_mat_index_valid(m: Seq<(MatrixPosition, KeyV)>, p: MatrixPosition, i: int)
    requires
        0 <= i,
    ensures
        mat_index_from(m, p, i) matches Some(j) ==> i <= j < m.len() && m[j].0 == p,
    decreases m.len() - i,
{
    if i < m.len() && m[i].0 != p {
        lemma_mat_index_valid(m, p, i + 1);
    }
}

/// After folding a layer's chords, the binding list binds a position
/// exactly when the old list did or it is the slot of one of the chords
/// folded, and each such slot can still be looked up in the final table.
proof fn lemma_layer_chords_positions(
    st: EmitState,
    matrix: Seq<(MatrixPosition, KeyV)>,
    width: u8,
    height: u8,
    chords: Seq<crate::process::ResolvedChordV>,
    i: int,
    q: MatrixPosition,
)
    requires
        alloc_wf(st, width, height),
        0 <= i,
    ensures
        spec_layer_chords(st, matrix, width, height, chords, i) matches Ok(res) ==> {
            &&& (m_binds(res.1, q) <==> (m_binds(matrix, q) || exists|ci: int|
                i <= ci < chords.len() && spec_chord_lookup(
                    res.0.chords,
                    ((#[trigger] chords[ci]).left, chords[ci].right),
                ) == Some(q)))
            &&& forall|ci: int| i <= ci < chords.len() ==> spec_chord_lookup(
                res.0.chords,
                ((#[trigger] chords[ci]).left, chords[ci].right),
            ) is Some
        },
    decreases chords.len() - i,
{
    if i >= chords.len() {
    } else {
        let pair = (chords[i].left, chords[i].right);
        match spec_process_chord(st, width, height, chords[i].left, chords[i].right, chords[i].chord.span) {
            Ok((st2, pos)) => {
                lemma_process_chord_wf(
                    st,
                    width,
                    height,
                    chords[i].left,
                    chords[i].right,
                    chords[i].chord.span,
                );
                let matrix2 = spec_matrix_insert(matrix, pos, chords[i].chord.key);
                lemma_matrix_insert_binds(matrix, pos, chords[i].chord.key);
                match spec_chord_lookup(st.chords, pair) {
                    Some(_) => {
                        assert(spec_chord_lookup(st2.chords, pair) == Some(pos));
                    },
                    None => {
                        lemma_pair_lookup_push(st.chords, pair, (pair, pos));
                        assert(spec_chord_lookup(st2.chords, pair) == Some(pos));
                    },
                }
                lemma_layer_chords_positions(st2, matrix2, width, height, chords, i + 1, q);
                lemma_layer_chords_monotone(st2, matrix2, width, height, chords, i + 1, pair);
                assert(spec_layer_chords(st, matrix, width, height, chords, i) == spec_layer_chords(
                    st2,
                    matrix2,
                    width,
                    height,
                    chords,
                    i + 1,
                ));
                match spec_layer_chords(st2, matrix2, width, height, chords, i + 1) {
                    Ok(res) => {
                        assert(spec_chord_lookup(res.0.chords, pair) == Some(pos));
                        assert forall|ci: int| i <= ci < chords.len() implies spec_chord_lookup(
                            res.0.chords,
                            ((#[trigger] chords[ci]).left, chords[ci].right),
                        ) is Some by {
                            if ci == i {
                                assert(spec_chord_lookup(res.0.chords, pair) == Some(pos));
                            }
                        }
                        if m_binds(res.1, q) {
                            if !m_binds(matrix, q) {
                                if m_binds(matrix2, q) {
                                    assert(q == pos);
                                    assert(i <= i < chords.len() && spec_chord_lookup(
                                        res.0.chords,
                                        ((chords[i]).left, chords[i].right),
                                    ) == Some(q));
                                } else {
                                    let cw = choose|cw: int|
                                        i + 1 <= cw < chords.len() && spec_chord_lookup(
                                            res.0.chords,
                                            ((#[trigger] chords[cw]).left, chords[cw].right),
                                        ) == Some(q);
                                    assert(i <= cw < chords.len() && spec_chord_lookup(
                                        res.0.chords,
                                        ((chords[cw]).left, chords[cw].right),
                                    ) == Some(q));
                                }
                            }
                        } else {
                            assert(!m_binds(matrix2, q));
                            assert(!m_binds(matrix, q));
                            if exists|ci: int|
                                i <= ci < chords.len() && spec_chord_lookup(
                                    res.0.chords,
                                    ((#[trigger] chords[ci]).left, chords[ci].right),
                                ) == Some(q) {
                                let cw = choose|cw: int|
                                    i <= cw < chords.len() && spec_chord_lookup(
                                        res.0.chords,
                                        ((#[trigger] chords[cw]).left, chords[cw].right),
                                    ) == Some(q);
                                if cw == i {
                                    assert(q == pos);
                                    assert(m_binds(matrix2, q));
                                    assert(false);
                                } else {
                                    assert(i + 1 <= cw < chords.len() && spec_chord_lookup(
                                        res.0.chords,
                                        ((chords[cw]).left, chords[cw].right),
                                    ) == Some(q));
                                    assert(m_binds(res.1, q));
                                    assert(false);
                                }
                            }
                        }
                    },
                    Err(_) => {},
                }
            },
            Err(_) => {},
        }
    }
}

/// After folding a layer's keys, the binding list binds a position
/// exactly when the old list did or it is the position of one of the keys
/// folded.
proof fn lemma_layer_keys_positions(
    matrix: Seq<(MatrixPosition, KeyV)>,
    keys: Seq<crate::process::ResolvedKeyV>,
    i: int,
    q: MatrixPosition,
)
    requires
        0 <= i,
    ensures
        m_binds(spec_layer_keys(matrix, keys, i), q) <==> (m_binds(matrix, q) || exists|ki: int|
            i <= ki < keys.len() && (#[trigger] keys[ki]).matrix_pos == q),
    decreases keys.len() - i,
{
    if i < keys.len() {
        let matrix2 = spec_matrix_insert(matrix, keys[i].matrix_pos, keys[i].key);
        lemma_matrix_insert_binds(matrix, keys[i].matrix_pos, keys[i].key);
        lemma_layer_keys_positions(matrix2, keys, i + 1, q);
        let fin = spec_layer_keys(matrix, keys, i);
        if m_binds(fin, q) {
            if !m_binds(matrix, q) {
                if m_binds(matrix2, q) {
                    assert(q == keys[i].matrix_pos);
                    assert(i <= i < keys.len() && keys[i as int].matrix_pos == q);
                } else {
                    let kw = choose|kw: int|
                        i + 1 <= kw < keys.len() && (#[trigger] keys[kw]).matrix_pos == q;
                    assert(i <= kw < keys.len() && keys[kw].matrix_pos == q);
                }
            }
        } else {
            assert(!m_binds(matrix2, q));
            assert(!m_binds(matrix, q));
            if exists|ki: int| i <= ki < keys.len() && (#[trigger] keys[ki]).matrix_pos == q {
                let kw = choose|kw: int|
                    i <= kw < keys.len() && (#[trigger] keys[kw]).matrix_pos == q;
                if kw == i {
                    assert(m_binds(matrix2, q));
                    assert(false);
                } else {
                    assert(i + 1 <= kw < keys.len() && keys[kw].matrix_pos == q);
                    assert(m_binds(fin, q));
                    assert(false);
                }
            }
        }
    }
}

/// For a layer resolved against a valid layout, the positions bound in the
/// emitted layer are exactly the layer's real key positions together with
/// the slots allocated to its chords — and no position is both: a real key
/// sits below the layout height, an allocated chord slot on an extra row
/// at or above it.
pub proof fn lemma_layer_occupancy(
    st: EmitState,
    width: u8,
    height: u8,
    layer: LayerMetaV,
    res: (EmitState, Seq<(MatrixPosition, KeyV)>),
)
    requires
        alloc_wf(st, width, height),
        crate::process::keys_below(layer.keys, height as int),
        spec_process_layer(st, width, height, layer) == Ok::<
            (EmitState, Seq<(MatrixPosition, KeyV)>),
            AppErrorV,
        >(res),
    ensures
        forall|p: MatrixPosition| m_binds(res.1, p) <==> (layer_key_at(layer, p)
            || layer_chord_slot(res.0.chords, layer, p)),
        forall|p: MatrixPosition| !(layer_key_at(layer, p) && layer_chord_slot(
            res.0.chords,
            layer,
            p,
        )),
{
    lemma_layer_chords_wf(st, Seq::empty(), width, height, layer.chords, 0);
    match spec_layer_chords(st, Seq::empty(), width, height, layer.chords, 0) {
        Ok((st2, m1)) => {
            assert(res.0 == st2);
            assert(res.1 == spec_layer_keys(m1, layer.keys, 0));
            assert forall|p: MatrixPosition| m_binds(res.1, p) <==> (layer_key_at(layer, p)
                || layer_chord_slot(res.0.chords, layer, p)) by {
                lemma_layer_chords_positions(st, Seq::empty(), width, height, layer.chords, 0, p);
                lemma_layer_keys_positions(m1, layer.keys, 0, p);
                assert(!m_binds(Seq::<(MatrixPosition, KeyV)>::empty(), p));
            }
            assert forall|p: MatrixPosition| layer_chord_slot(res.0.chords, layer, p) implies p.1
                >= height by {
                let ci = choose|ci: int|
                    0 <= ci < layer.chords.len() && spec_chord_lookup(
                        st2.chords,
                        ((#[trigger] layer.chords[ci]).left, layer.chords[ci].right),
                    ) == Some(p);
                lemma_wf_slot_rows(st2, width, height, (layer.chords[ci].left, layer.chords[ci].right));
            }
            assert forall|p: MatrixPosition| layer_key_at(layer, p) implies (p.1 as int)
                < height as int by {
                let ki = choose|ki: int|
                    0 <= ki < layer.keys.len() && (#[trigger] layer.keys[ki]).matrix_pos == p;
                assert((layer.keys[ki].matrix_pos.1 as int) < height as int);
            }
        },
        Err(_) => {},
    }
}

} // verus!
