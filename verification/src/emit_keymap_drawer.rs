//! The diagram emitter core: keymap-drawer document construction.
//!
//! The diagram backend renders a document with three sections: the layout
//! identification taken from required options, one grid of {tap, hold}
//! labels per layer, and the list of combos with the key indices they sit
//! between.  This module builds that document as a value; serializing it is
//! a driver concern.
//!
//! Named keys resolve through a label table: the predefined names merged
//! with the user's custom keys declared for this backend, the user's
//! declaration winning on a name collision.  A layer reference labels the
//! key with the layer's name; a character literal labels it with the
//! character.  An unresolved name reports the closest names of the table.

use vstd::prelude::*;

use crate::errors::{AppError, AppErrorV};
use crate::maps::str_eq;
use crate::process::{spec_option_value, Metadata, MetadataV, OptionKey};
use crate::similar::{spec_suggestions, suggestions};
use crate::syntax::{
    CustomKey, CustomKeyOutputV, CustomKeyV, File, FileV, Key, KeyOrChord, KeyOrChordV, KeyV,
    Layer, LayerRow, LayerRowV, LayerV, PlainKey, PlainKeyV, Span,
};
use crate::{lemma_deep_view_empty, lemma_deep_view_push, res_model};

verus! {

/// The {tap, hold} label pair of one key position.
#[derive(Debug, PartialEq, Eq)]
pub struct KeySpec {
    pub tap: Option<String>,
    pub hold: Option<String>,
}

/// Ghost model of a [`KeySpec`].
pub struct KeySpecV {
    pub tap: Option<Seq<char>>,
    pub hold: Option<Seq<char>>,
}

impl DeepView for KeySpec {
    type V = KeySpecV;

    open spec fn deep_view(&self) -> KeySpecV {
        KeySpecV { tap: self.tap.deep_view(), hold: self.hold.deep_view() }
    }
}

/// One layer's grid of label pairs, row by row.
#[derive(Debug, PartialEq, Eq)]
pub struct LayerSpec(pub Vec<Vec<KeySpec>>);

/// Ghost model of a [`LayerSpec`].
pub struct LayerSpecV(pub Seq<Seq<KeySpecV>>);

impl DeepView for LayerSpec {
    type V = LayerSpecV;

    open spec fn deep_view(&self) -> LayerSpecV {
        LayerSpecV(self.0.deep_view())
    }
}

/// The ordered layer-name → grid section.
#[derive(Debug, PartialEq, Eq)]
pub struct LayersSpec(pub Vec<(String, LayerSpec)>);

/// Ghost model of a [`LayersSpec`].
pub struct LayersSpecV(pub Seq<(Seq<char>, LayerSpecV)>);

impl DeepView for LayersSpec {
    type V = LayersSpecV;

    open spec fn deep_view(&self) -> LayersSpecV {
        LayersSpecV(self.0.deep_view())
    }
}

/// The layout identification section.
#[derive(Debug, PartialEq, Eq)]
pub struct LayoutSpec {
    pub qmk_keyboard: String,
    pub qmk_layout: Option<String>,
}

/// Ghost model of a [`LayoutSpec`].
pub struct LayoutSpecV {
    pub qmk_keyboard: Seq<char>,
    pub qmk_layout: Option<Seq<char>>,
}

impl DeepView for LayoutSpec {
    type V = LayoutSpecV;

    open spec fn deep_view(&self) -> LayoutSpecV {
        LayoutSpecV {
            qmk_keyboard: self.qmk_keyboard.deep_view(),
            qmk_layout: self.qmk_layout.deep_view(),
        }
    }
}

/// One combo: the two neighbouring key indices it sits between, its label
/// pair, and the layers it is active on.
#[derive(Debug, PartialEq, Eq)]
pub struct ComboSpec {
    pub key_positions: (usize, usize),
    pub key: KeySpec,
    pub layers: Vec<String>,
}

/// Ghost model of a [`ComboSpec`].
pub struct ComboSpecV {
    pub key_positions: (usize, usize),
    pub key: KeySpecV,
    pub layers: Seq<Seq<char>>,
}

impl DeepView for ComboSpec {
    type V = ComboSpecV;

    open spec fn deep_view(&self) -> ComboSpecV {
        ComboSpecV {
            key_positions: self.key_positions,
            key: self.key.deep_view(),
            layers: self.layers.deep_view(),
        }
    }
}

/// The combos section.
#[derive(Debug, PartialEq, Eq)]
pub struct CombosSpec(pub Vec<ComboSpec>);

/// Ghost model of a [`CombosSpec`].
pub struct CombosSpecV(pub Seq<ComboSpecV>);

impl DeepView for CombosSpec {
    type V = CombosSpecV;

    open spec fn deep_view(&self) -> CombosSpecV {
        CombosSpecV(self.0.deep_view())
    }
}

/// The whole diagram document.
#[derive(Debug, PartialEq, Eq)]
pub struct DrawerSpec {
    pub layout: LayoutSpec,
    pub layers: LayersSpec,
    pub combos: CombosSpec,
}

/// Ghost model of a [`DrawerSpec`].
pub struct DrawerSpecV {
    pub layout: LayoutSpecV,
    pub layers: LayersSpecV,
    pub combos: CombosSpecV,
}

impl DeepView for DrawerSpec {
    type V = DrawerSpecV;

    open spec fn deep_view(&self) -> DrawerSpecV {
        DrawerSpecV {
            layout: self.layout.deep_view(),
            layers: self.layers.deep_view(),
            combos: self.combos.deep_view(),
        }
    }
}

/// Shorthand for a predefined label entry.
pub open spec fn dk(name: Seq<char>, label: Seq<char>) -> (Seq<char>, Option<Seq<char>>) {
    (name, Some(label))
}

/// The fixed table of conventional key labels.
pub open spec fn spec_drawer_predefined() -> Seq<(Seq<char>, Option<Seq<char>>)> {
    seq![
        dk("esc"@, "Escape"@),
        dk("space"@, "Space"@),
        dk("bspace"@, "BSpace"@),
        dk("del"@, "Delete"@),
        dk("lshift"@, "LShift"@),
        dk("rshift"@, "RShift"@),
        dk("lctrl"@, "LCtrl"@),
        dk("rctrl"@, "RCtrl"@),
        dk("lalt"@, "LAlt"@),
        dk("ralt"@, "RAlt"@),
        dk("lgui"@, "LGui"@),
        dk("rgui"@, "RGui"@),
        dk("enter"@, "Enter"@),
        dk("tab"@, "Tab"@),
        ("n"@, None::<Seq<char>>),
        dk("pgup"@, "PgUp"@),
        dk("pgdown"@, "PgDown"@),
        dk("volup"@, "VolUp"@),
        dk("voldown"@, "VolDown"@),
        dk("left"@, "Left"@),
        dk("up"@, "Up"@),
        dk("right"@, "Right"@),
        dk("down"@, "Down"@),
        dk("end"@, "End"@),
        dk("f1"@, "F1"@),
        dk("f2"@, "F2"@),
        dk("f3"@, "F3"@),
        dk("f4"@, "F4"@),
        dk("f5"@, "F5"@),
        dk("f6"@, "F6"@),
        dk("f7"@, "F7"@),
        dk("f8"@, "F8"@),
        dk("f9"@, "F9"@),
        dk("f10"@, "F10"@),
    ]
}

/// Builds the fixed table of conventional key labels.
pub fn predefined_named_keys() -> (r: Vec<(String, Option<String>)>)
    ensures
        r.deep_view() == spec_drawer_predefined(),
{
    let mut t: Vec<(String, Option<String>)> = Vec::new();
    t.push((String::from_str("esc"), Some(String::from_str("Escape"))));
    t.push((String::from_str("space"), Some(String::from_str("Space"))));
    t.push((String::from_str("bspace"), Some(String::from_str("BSpace"))));
    t.push((String::from_str("del"), Some(String::from_str("Delete"))));
    t.push((String::from_str("lshift"), Some(String::from_str("LShift"))));
    t.push((String::from_str("rshift"), Some(String::from_str("RShift"))));
    t.push((String::from_str("lctrl"), Some(String::from_str("LCtrl"))));
    t.push((String::from_str("rctrl"), Some(String::from_str("RCtrl"))));
    t.push((String::from_str("lalt"), Some(String::from_str("LAlt"))));
    t.push((String::from_str("ralt"), Some(String::from_str("RAlt"))));
    t.push((String::from_str("lgui"), Some(String::from_str("LGui"))));
    t.push((String::from_str("rgui"), Some(String::from_str("RGui"))));
    t.push((String::from_str("enter"), Some(String::from_str("Enter"))));
    t.push((String::from_str("tab"), Some(String::from_str("Tab"))));
    t.push((String::from_str("n"), None));
    t.push((String::from_str("pgup"), Some(String::from_str("PgUp"))));
    t.push((String::from_str("pgdown"), Some(String::from_str("PgDown"))));
    t.push((String::from_str("volup"), Some(String::from_str("VolUp"))));
    t.push((String::from_str("voldown"), Some(String::from_str("VolDown"))));
    t.push((String::from_str("left"), Some(String::from_str("Left"))));
    t.push((String::from_str("up"), Some(String::from_str("Up"))));
    t.push((String::from_str("right"), Some(String::from_str("Right"))));
    t.push((String::from_str("down"), Some(String::from_str("Down"))));
    t.push((String::from_str("end"), Some(String::from_str("End"))));
    t.push((String::from_str("f1"), Some(String::from_str("F1"))));
    t.push((String::from_str("f2"), Some(String::from_str("F2"))));
    t.push((String::from_str("f3"), Some(String::from_str("F3"))));
    t.push((String::from_str("f4"), Some(String::from_str("F4"))));
    t.push((String::from_str("f5"), Some(String::from_str("F5"))));
    t.push((String::from_str("f6"), Some(String::from_str("F6"))));
    t.push((String::from_str("f7"), Some(String::from_str("F7"))));
    t.push((String::from_str("f8"), Some(String::from_str("F8"))));
    t.push((String::from_str("f9"), Some(String::from_str("F9"))));
    t.push((String::from_str("f10"), Some(String::from_str("F10"))));
    proof {
        assert(t.deep_view() =~= spec_drawer_predefined());
    }
    t
}

/// First index of a name in the label table.
pub open spec fn dn_index_from(
    s: Seq<(Seq<char>, Option<Seq<char>>)>,
    name: Seq<char>,
    i: int,
) -> Option<int>
    decreases s.len() - i,
{
    if i < 0 || i >= s.len() {
        None
    } else if s[i].0 == name {
        Some(i)
    } else {
        dn_index_from(s, name, i + 1)
    }
}

/// First-match lookup in the label table.
pub open spec fn spec_drawer_lookup(
    s: Seq<(Seq<char>, Option<Seq<char>>)>,
    name: Seq<char>,
) -> Option<Option<Seq<char>>> {
    match dn_index_from(s, name, 0) {
        Some(i) => Some(s[i].1),
        None => None,
    }
}

/// The names of the label table, in table order.
pub open spec fn dn_names(s: Seq<(Seq<char>, Option<Seq<char>>)>) -> Seq<Seq<char>> {
    s.map_values(|e: (Seq<char>, Option<Seq<char>>)| e.0)
}

/// Inserts a name into the label table, replacing in place when present.
pub open spec fn spec_drawer_insert(
    s: Seq<(Seq<char>, Option<Seq<char>>)>,
    name: Seq<char>,
    label: Option<Seq<char>>,
) -> Seq<(Seq<char>, Option<Seq<char>>)> {
    match dn_index_from(s, name, 0) {
        Some(i) => s.update(i, (name, label)),
        None => s.push((name, label)),
    }
}

/// The first diagram-backend output of a custom key, from output `j` on.
pub open spec fn spec_first_drawer_output(outputs: Seq<CustomKeyOutputV>, j: int) -> Option<
    Seq<char>,
>
    decreases outputs.len() - j,
{
    if j >= outputs.len() {
        None
    } else if outputs[j].name.s == "keymap_drawer"@ {
        Some(outputs[j].output.text)
    } else {
        spec_first_drawer_output(outputs, j + 1)
    }
}

/// Merges the user's custom keys into the label table, from declaration
/// `i` on; user declarations win on collision.
pub open spec fn spec_drawer_customs(
    s: Seq<(Seq<char>, Option<Seq<char>>)>,
    customs: Seq<CustomKeyV>,
    i: int,
) -> Seq<(Seq<char>, Option<Seq<char>>)>
    decreases customs.len() - i,
{
    if i >= customs.len() {
        s
    } else {
        match spec_first_drawer_output(customs[i].outputs, 0) {
            Some(text) => spec_drawer_customs(
                spec_drawer_insert(s, customs[i].name.s, Some(text)),
                customs,
                i + 1,
            ),
            None => spec_drawer_customs(s, customs, i + 1),
        }
    }
}

/// The full label table for a file.
pub open spec fn spec_drawer_table(customs: Seq<CustomKeyV>) -> Seq<(Seq<char>, Option<Seq<char>>)> {
    spec_drawer_customs(spec_drawer_predefined(), customs, 0)
}

/// The label of one plain key: a named key through the label table, a
/// layer reference as the layer's name, a character as itself followed by
/// a space.
pub open spec fn spec_drawer_plain_key(
    named: Seq<(Seq<char>, Option<Seq<char>>)>,
    p: PlainKeyV,
) -> Result<Option<Seq<char>>, AppErrorV> {
    match p {
        PlainKeyV::Named(name) => match spec_drawer_lookup(named, name.s) {
            Some(label) => Ok(label),
            None => Err(
                AppErrorV::UnknownNamedKey {
                    span: name.span,
                    key: name.s,
                    similar: spec_suggestions(name.s, dn_names(named)),
                },
            ),
        },
        PlainKeyV::Layer { layer, span: _ } => Ok(Some(layer.s)),
        PlainKeyV::Char { c, span: _ } => Ok(Some(seq![c, ' '])),
    }
}

/// The label pair of one key: a plain key's label as the tap, a mod-tap's
/// tap and hold labels.
pub open spec fn spec_drawer_key(
    named: Seq<(Seq<char>, Option<Seq<char>>)>,
    k: KeyV,
) -> Result<KeySpecV, AppErrorV> {
    match k {
        KeyV::Plain(p) => match spec_drawer_plain_key(named, p) {
            Err(e) => Err(e),
            Ok(tap) => Ok(KeySpecV { tap, hold: None }),
        },
        KeyV::ModTap { tap, at: _, timeout: _, hold, span: _ } => match spec_drawer_plain_key(
            named,
            tap,
        ) {
            Err(e) => Err(e),
            Ok(t) => match spec_drawer_plain_key(named, hold) {
                Err(e) => Err(e),
                Ok(h) => Ok(KeySpecV { tap: t, hold: h }),
            },
        },
    }
}

/// Walks the items of one layer row, from item `j` on, with `idx` counting
/// the keys of the whole layer so far.  A key appends its label pair to the
/// row; a chord becomes a combo between the key just passed (`idx - 1`) and
/// the key about to come (`idx`), active on this layer.
pub open spec fn spec_drawer_items(
    named: Seq<(Seq<char>, Option<Seq<char>>)>,
    layer_name: Seq<char>,
    items: Seq<KeyOrChordV>,
    j: int,
    idx: int,
    row_span: Span,
    semi: Span,
    row_acc: Seq<KeySpecV>,
    combos: Seq<ComboSpecV>,
) -> Result<(Seq<KeySpecV>, Seq<ComboSpecV>, int), AppErrorV>
    decreases items.len() - j,
{
    if j >= items.len() {
        Ok((row_acc, combos, idx))
    } else {
        match items[j] {
            KeyOrChordV::Key(k) => {
                if idx >= usize::MAX {
                    Err(AppErrorV::CoordinateOutOfRange { span: k.spec_span() })
                } else {
                    match spec_drawer_key(named, k) {
                        Err(e) => Err(e),
                        Ok(ks) => spec_drawer_items(
                            named,
                            layer_name,
                            items,
                            j + 1,
                            idx + 1,
                            row_span,
                            semi,
                            row_acc.push(ks),
                            combos,
                        ),
                    }
                }
            },
            KeyOrChordV::Chord(c) => {
                if idx < 1 {
                    let next_span = if j + 1 < items.len() {
                        items[j + 1].spec_span()
                    } else {
                        Span { offset: semi.offset, len: 0 }
                    };
                    Err(
                        AppErrorV::BadChordPositions {
                            bad_chord: c.span,
                            prev_item: Span { offset: row_span.offset, len: 0 },
                            next_item: next_span,
                        },
                    )
                } else {
                    match spec_drawer_key(named, c.key) {
                        Err(e) => Err(e),
                        Ok(ks) => spec_drawer_items(
                            named,
                            layer_name,
                            items,
                            j + 1,
                            idx,
                            row_span,
                            semi,
                            row_acc,
                            combos.push(
                                ComboSpecV {
                                    key_positions: ((idx - 1) as usize, idx as usize),
                                    key: ks,
                                    layers: seq![layer_name],
                                },
                            ),
                        ),
                    }
                }
            },
        }
    }
}

/// Walks a layer's rows, from row `r` on, accumulating the grid and the
/// combos; `idx` keeps counting keys across the layer's rows.
pub open spec fn spec_drawer_rows(
    named: Seq<(Seq<char>, Option<Seq<char>>)>,
    layer_name: Seq<char>,
    rows: Seq<LayerRowV>,
    r: int,
    idx: int,
    grid: Seq<Seq<KeySpecV>>,
    combos: Seq<ComboSpecV>,
) -> Result<(Seq<Seq<KeySpecV>>, Seq<ComboSpecV>, int), AppErrorV>
    decreases rows.len() - r,
{
    if r >= rows.len() {
        Ok((grid, combos, idx))
    } else {
        match spec_drawer_items(
            named,
            layer_name,
            rows[r].items,
            0,
            idx,
            rows[r].span,
            rows[r].semi,
            Seq::empty(),
            combos,
        ) {
            Err(e) => Err(e),
            Ok((row, combos2, idx2)) => spec_drawer_rows(
                named,
                layer_name,
                rows,
                r + 1,
                idx2,
                grid.push(row),
                combos2,
            ),
        }
    }
}

/// Inserts one layer's grid into the ordered layer section, replacing in
/// place when the name is already present.
pub open spec fn ls_index_from(
    s: Seq<(Seq<char>, LayerSpecV)>,
    name: Seq<char>,
    i: int,
) -> Option<int>
    decreases s.len() - i,
{
    if i < 0 || i >= s.len() {
        None
    } else if s[i].0 == name {
        Some(i)
    } else {
        ls_index_from(s, name, i + 1)
    }
}

/// Inserts one layer's grid into the ordered layer section.
pub open spec fn spec_layers_insert(
    s: Seq<(Seq<char>, LayerSpecV)>,
    name: Seq<char>,
    grid: LayerSpecV,
) -> Seq<(Seq<char>, LayerSpecV)> {
    match ls_index_from(s, name, 0) {
        Some(i) => s.update(i, (name, grid)),
        None => s.push((name, grid)),
    }
}

/// Walks the layers, from layer `i` on, accumulating the layer section and
/// the combos.
pub open spec fn spec_drawer_layers(
    named: Seq<(Seq<char>, Option<Seq<char>>)>,
    layers: Seq<LayerV>,
    i: int,
    acc: Seq<(Seq<char>, LayerSpecV)>,
    combos: Seq<ComboSpecV>,
) -> Result<(Seq<(Seq<char>, LayerSpecV)>, Seq<ComboSpecV>), AppErrorV>
    decreases layers.len() - i,
{
    if i >= layers.len() {
        Ok((acc, combos))
    } else {
        match spec_drawer_rows(
            named,
            layers[i].name.s,
            layers[i].rows,
            0,
            0,
            Seq::empty(),
            combos,
        ) {
            Err(e) => Err(e),
            Ok((grid, combos2, _)) => spec_drawer_layers(
                named,
                layers,
                i + 1,
                spec_layers_insert(acc, layers[i].name.s, LayerSpecV(grid)),
                combos2,
            ),
        }
    }
}

/// The layout identification: `qmk_keyboard` is required for this backend,
/// `qmk_layout` is optional.
pub open spec fn spec_drawer_layout(meta: MetadataV) -> Result<LayoutSpecV, AppErrorV> {
    match spec_option_value(meta.options.options, OptionKey::KeymapDrawer, "qmk_keyboard"@) {
        None => Err(
            AppErrorV::OptionRequired {
                option_name: "qmk_keyboard"@,
                backend: "keymap_drawer"@,
            },
        ),
        Some(kb) => Ok(
            LayoutSpecV {
                qmk_keyboard: kb,
                qmk_layout: spec_option_value(
                    meta.options.options,
                    OptionKey::KeymapDrawer,
                    "qmk_layout"@,
                ),
            },
        ),
    }
}

/// The exact diagram document for a file and its resolved metadata.
pub open spec fn spec_drawer_emit(f: FileV, meta: MetadataV) -> Result<DrawerSpecV, AppErrorV> {
    let named = spec_drawer_table(f.custom_keys);
    match spec_drawer_layers(named, f.layers, 0, Seq::empty(), Seq::empty()) {
        Err(e) => Err(e),
        Ok((layers, combos)) => match spec_drawer_layout(meta) {
            Err(e) => Err(e),
            Ok(layout) => Ok(
                DrawerSpecV {
                    layout,
                    layers: LayersSpecV(layers),
                    combos: CombosSpecV(combos),
                },
            ),
        },
    }
}

/// First-match lookup in the label table.
fn drawer_lookup(table: &Vec<(String, Option<String>)>, name: &str) -> (r: Option<Option<String>>)
    ensures
        r.deep_view() == spec_drawer_lookup(table.deep_view(), name@),
{
    let n = table.len();
    let mut i: usize = 0;
    while i < n
        invariant
            0 <= i <= n,
            n == table.len(),
            dn_index_from(table.deep_view(), name@, 0) == dn_index_from(
                table.deep_view(),
                name@,
                i as int,
            ),
        decreases n - i,
    {
        proof {
            assert(table.deep_view()[i as int] == table[i as int].deep_view());
        }
        if str_eq(table[i].0.as_str(), name) {
            let label = match &table[i].1 {
                Some(s) => Some(s.clone()),
                None => None,
            };
            return Some(label);
        }
        i = i + 1;
    }
    None
}

/// The names of the label table, in table order.
fn drawer_names(table: &Vec<(String, Option<String>)>) -> (r: Vec<String>)
    ensures
        r.deep_view() == dn_names(table.deep_view()),
{
    let n = table.len();
    let mut r: Vec<String> = Vec::new();
    proof {
        lemma_deep_view_empty(r);
    }
    let mut i: usize = 0;
    while i < n
        invariant
            0 <= i <= n,
            n == table.len(),
            r.deep_view() =~= dn_names(table.deep_view().take(i as int)),
        decreases n - i,
    {
        proof {
            assert(table.deep_view()[i as int] == table[i as int].deep_view());
        }
        let ghost pre = r;
        let name = table[i].0.clone();
        let ghost namev = name;
        r.push(name);
        proof {
            lemma_deep_view_push(pre, r, namev);
            assert(r.deep_view() =~= dn_names(table.deep_view().take(i as int + 1)));
        }
        i = i + 1;
    }
    proof {
        assert(table.deep_view().take(n as int) =~= table.deep_view());
    }
    r
}

/// Inserts a name into the label table, replacing in place when present.
fn drawer_insert(table: &mut Vec<(String, Option<String>)>, name: &String, label: Option<String>)
    ensures
        final(table).deep_view() == spec_drawer_insert(
            old(table).deep_view(),
            name@,
            label.deep_view(),
        ),
{
    let ghost labelv = label.deep_view();
    let n = table.len();
    let mut i: usize = 0;
    while i < n
        invariant
            0 <= i <= n,
            *table == *old(table),
            n == table.len(),
            dn_index_from(table.deep_view(), name@, 0) == dn_index_from(
                table.deep_view(),
                name@,
                i as int,
            ),
        decreases n - i,
    {
        if str_eq(table[i].0.as_str(), name.as_str()) {
            let ghost pre = *table;
            let pair = (name.clone(), label);
            let ghost pairv = pair.deep_view();
            table.remove(i);
            table.insert(i, pair);
            proof {
                assert(table@ =~= pre@.update(i as int, pair));
                assert(table.deep_view() =~= pre.deep_view().update(i as int, pairv));
                assert(dn_index_from(pre.deep_view(), name@, 0) == Some(i as int));
            }
            return ;
        }
        i = i + 1;
    }
    let ghost pre = *table;
    let pair = (name.clone(), label);
    table.push(pair);
    proof {
        lemma_deep_view_push(pre, *table, pair);
        assert(dn_index_from(pre.deep_view(), name@, 0) is None);
    }
}

/// The first diagram-backend output of a custom key declaration.
fn first_drawer_output(ck: &CustomKey) -> (r: Option<String>)
    ensures
        r.deep_view() == spec_first_drawer_output(ck.deep_view().outputs, 0),
{
    let n = ck.outputs.len();
    let mut j: usize = 0;
    while j < n
        invariant
            0 <= j <= n,
            n == ck.outputs.len(),
            spec_first_drawer_output(ck.deep_view().outputs, 0) == spec_first_drawer_output(
                ck.deep_view().outputs,
                j as int,
            ),
        decreases n - j,
    {
        proof {
            assert(ck.deep_view().outputs[j as int] == ck.outputs[j as int].deep_view());
        }
        if str_eq(ck.outputs[j].name.s.as_str(), "keymap_drawer") {
            return Some(ck.outputs[j].output.text.clone());
        }
        j = j + 1;
    }
    None
}

/// The full label table for a file: the predefined labels with the user's
/// custom keys merged in, user declarations winning on collision.
fn build_drawer_table(customs: &Vec<CustomKey>) -> (r: Vec<(String, Option<String>)>)
    ensures
        r.deep_view() == spec_drawer_table(customs.deep_view()),
{
    let mut t = predefined_named_keys();
    let mut i: usize = 0;
    while i < customs.len()
        invariant
            0 <= i <= customs.len(),
            spec_drawer_customs(spec_drawer_predefined(), customs.deep_view(), 0)
                == spec_drawer_customs(t.deep_view(), customs.deep_view(), i as int),
        decreases customs.len() - i,
    {
        proof {
            assert(customs.deep_view()[i as int] == customs[i as int].deep_view());
        }
        match first_drawer_output(&customs[i]) {
            Some(text) => {
                drawer_insert(&mut t, &customs[i].name.s, Some(text));
            },
            None => {},
        }
        i = i + 1;
    }
    t
}

/// Relies on `String::push`: appends exactly the given character to the
/// end of the string.
#[verifier::external_body]
fn push_char(s: &mut String, c: char)
    ensures
        final(s)@ == old(s)@.push(c),
{
    s.push(c);
}

/// The label of one character: the character followed by a space.
fn char_label(c: char) -> (r: String)
    ensures
        r@ == seq![c, ' '],
{
    let mut s = String::new();
    push_char(&mut s, c);
    push_char(&mut s, ' ');
    proof {
        assert(s@ =~= seq![c, ' ']);
    }
    s
}

/// The label of one plain key.
fn convert_plain_key(table: &Vec<(String, Option<String>)>, p: &PlainKey) -> (r: Result<
    Option<String>,
    AppError,
>)
    ensures
        res_model(r) == spec_drawer_plain_key(table.deep_view(), p.deep_view()),
{
    match p {
        PlainKey::Named(name) => match drawer_lookup(table, name.s.as_str()) {
            Some(label) => Ok(label),
            None => {
                let names = drawer_names(table);
                let similar = suggestions(&name.s, &names);
                Err(
                    AppError::UnknownNamedKey {
                        span: name.span,
                        key: name.s.clone(),
                        similar,
                    },
                )
            },
        },
        PlainKey::Layer { layer, span: _ } => Ok(Some(layer.s.clone())),
        PlainKey::Char { c, span: _ } => Ok(Some(char_label(*c))),
    }
}

/// The label pair of one key.
fn convert_key(table: &Vec<(String, Option<String>)>, k: &Key) -> (r: Result<KeySpec, AppError>)
    ensures
        res_model(r) == spec_drawer_key(table.deep_view(), k.deep_view()),
{
    match k {
        Key::Plain(p) => match convert_plain_key(table, p) {
            Err(e) => Err(e),
            Ok(tap) => Ok(KeySpec { tap, hold: None }),
        },
        Key::ModTap { tap, at: _, timeout: _, hold, span: _ } => {
            let t = match convert_plain_key(table, tap) {
                Err(e) => {
                    return Err(e);
                },
                Ok(t) => t,
            };
            let h = match convert_plain_key(table, hold) {
                Err(e) => {
                    return Err(e);
                },
                Ok(h) => h,
            };
            Ok(KeySpec { tap: t, hold: h })
        },
    }
}

/// Walks one layer row, appending label pairs and combos.
fn drawer_row(
    table: &Vec<(String, Option<String>)>,
    layer_name: &String,
    row: &LayerRow,
    idx0: usize,
    combos: &mut Vec<ComboSpec>,
) -> (r: Result<(Vec<KeySpec>, usize), AppError>)
    ensures
        ({
            let sres = spec_drawer_items(
                table.deep_view(),
                layer_name@,
                row.deep_view().items,
                0,
                idx0 as int,
                row.span,
                row.semi,
                Seq::empty(),
                old(combos).deep_view(),
            );
            match r {
                Ok(p) => sres == Ok::<(Seq<KeySpecV>, Seq<ComboSpecV>, int), AppErrorV>(
                    (p.0.deep_view(), final(combos).deep_view(), p.1 as int),
                ),
                Err(e) => sres == Err::<(Seq<KeySpecV>, Seq<ComboSpecV>, int), AppErrorV>(
                    e.deep_view(),
                ),
            }
        }),
{
    let mut row_acc: Vec<KeySpec> = Vec::new();
    proof {
        lemma_deep_view_empty(row_acc);
    }
    let mut idx: usize = idx0;
    let mut j: usize = 0;
    while j < row.items.len()
        invariant
            0 <= j <= row.items.len(),
            spec_drawer_items(
                table.deep_view(),
                layer_name@,
                row.deep_view().items,
                0,
                idx0 as int,
                row.span,
                row.semi,
                Seq::empty(),
                old(combos).deep_view(),
            ) == spec_drawer_items(
                table.deep_view(),
                layer_name@,
                row.deep_view().items,
                j as int,
                idx as int,
                row.span,
                row.semi,
                row_acc.deep_view(),
                combos.deep_view(),
            ),
        decreases row.items.len() - j,
    {
        let item = &row.items[j];
        proof {
            assert(row.deep_view().items[j as int] == row.items[j as int].deep_view());
        }
        match item {
            KeyOrChord::Key(k) => {
                if idx >= usize::MAX {
                    return Err(AppError::CoordinateOutOfRange { span: k.span() });
                }
                let ks = match convert_key(table, k) {
                    Err(e) => {
                        return Err(e);
                    },
                    Ok(ks) => ks,
                };
                let ghost pre = row_acc;
                let ghost ksv = ks.deep_view();
                row_acc.push(ks);
                proof {
                    assert(row_acc.deep_view() =~= pre.deep_view().push(ksv));
                }
                idx = idx + 1;
            },
            KeyOrChord::Chord(c) => {
                if idx < 1 {
                    let next_item = if j + 1 < row.items.len() {
                        proof {
                            assert(row.deep_view().items[j + 1] == row.items[j + 1].deep_view());
                        }
                        row.items[j + 1].span()
                    } else {
                        row.semi.start_singleton()
                    };
                    return Err(
                        AppError::BadChordPositions {
                            bad_chord: c.span,
                            prev_item: row.span.start_singleton(),
                            next_item,
                        },
                    );
                }
                let ks = match convert_key(table, &c.key) {
                    Err(e) => {
                        return Err(e);
                    },
                    Ok(ks) => ks,
                };
                let mut on_layers: Vec<String> = Vec::new();
                on_layers.push(layer_name.clone());
                proof {
                    assert(on_layers.deep_view() =~= seq![layer_name@]);
                }
                let combo = ComboSpec { key_positions: (idx - 1, idx), key: ks, layers: on_layers };
                let ghost pre = *combos;
                let ghost cv = combo.deep_view();
                combos.push(combo);
                proof {
                    assert(combos.deep_view() =~= pre.deep_view().push(cv));
                }
            },
        }
        j = j + 1;
    }
    Ok((row_acc, idx))
}

/// Inserts one layer's grid into the ordered layer section.
fn layers_insert(section: &mut Vec<(String, LayerSpec)>, name: &String, grid: LayerSpec)
    ensures
        final(section).deep_view() == spec_layers_insert(
            old(section).deep_view(),
            name@,
            grid.deep_view(),
        ),
{
    let ghost gridv = grid.deep_view();
    let n = section.len();
    let mut i: usize = 0;
    while i < n
        invariant
            0 <= i <= n,
            *section == *old(section),
            n == section.len(),
            ls_index_from(section.deep_view(), name@, 0) == ls_index_from(
                section.deep_view(),
                name@,
                i as int,
            ),
        decreases n - i,
    {
        if str_eq(section[i].0.as_str(), name.as_str()) {
            let ghost pre = *section;
            let pair = (name.clone(), grid);
            let ghost pairv = pair.deep_view();
            section.remove(i);
            section.insert(i, pair);
            proof {
                assert(section@ =~= pre@.update(i as int, pair));
                assert(section.deep_view() =~= pre.deep_view().update(i as int, pairv));
                assert(ls_index_from(pre.deep_view(), name@, 0) == Some(i as int));
            }
            return ;
        }
        i = i + 1;
    }
    let ghost pre = *section;
    let pair = (name.clone(), grid);
    section.push(pair);
    proof {
        lemma_deep_view_push(pre, *section, pair);
        assert(ls_index_from(pre.deep_view(), name@, 0) is None);
    }
}

/// Walks one layer's rows, returning its grid of label pairs and
/// appending its combos.
fn drawer_layer_rows(
    table: &Vec<(String, Option<String>)>,
    layer: &Layer,
    combos: &mut Vec<ComboSpec>,
) -> (r: Result<Vec<Vec<KeySpec>>, AppError>)
    ensures
        ({
            let sres = spec_drawer_rows(
                table.deep_view(),
                layer.deep_view().name.s,
                layer.deep_view().rows,
                0,
                0,
                Seq::empty(),
                old(combos).deep_view(),
            );
            match r {
                Ok(grid) => sres matches Ok(res) && res.0 == grid.deep_view()
                    && res.1 == final(combos).deep_view(),
                Err(e) => sres == Err::<(Seq<Seq<KeySpecV>>, Seq<ComboSpecV>, int), AppErrorV>(
                    e.deep_view(),
                ),
            }
        }),
{
    let mut grid: Vec<Vec<KeySpec>> = Vec::new();
    proof {
        lemma_deep_view_empty(grid);
    }
    let mut idx: usize = 0;
    let mut r: usize = 0;
    while r < layer.rows.len()
        invariant
            0 <= r <= layer.rows.len(),
            spec_drawer_rows(
                table.deep_view(),
                layer.deep_view().name.s,
                layer.deep_view().rows,
                0,
                0,
                Seq::empty(),
                old(combos).deep_view(),
            ) == spec_drawer_rows(
                table.deep_view(),
                layer.deep_view().name.s,
                layer.deep_view().rows,
                r as int,
                idx as int,
                grid.deep_view(),
                combos.deep_view(),
            ),
        decreases layer.rows.len() - r,
    {
        proof {
            assert(layer.deep_view().rows[r as int] == layer.rows[r as int].deep_view());
        }
        let (rowvec, idx2) = match drawer_row(table, &layer.name.s, &layer.rows[r], idx, combos) {
            Err(e) => {
                return Err(e);
            },
            Ok(p) => p,
        };
        let ghost pre = grid;
        let ghost rv = rowvec.deep_view();
        grid.push(rowvec);
        proof {
            assert(grid.deep_view() =~= pre.deep_view().push(rv));
        }
        idx = idx2;
        r = r + 1;
    }
    Ok(grid)
}

/// Builds the diagram document for a parsed file and its resolved
/// metadata: the layout identification from the required options, one grid
/// of {tap, hold} label pairs per layer in declaration order, and the
/// combos with the key indices they sit between.
pub fn emit(file: &File, metadata: &Metadata) -> (r: Result<DrawerSpec, AppError>)
    ensures
        res_model(r) == spec_drawer_emit(file.deep_view(), metadata.deep_view()),
{
    let table = build_drawer_table(&file.custom_keys);
    let mut section: Vec<(String, LayerSpec)> = Vec::new();
    let mut combos: Vec<ComboSpec> = Vec::new();
    proof {
        lemma_deep_view_empty(section);
        lemma_deep_view_empty(combos);
    }
    let mut i: usize = 0;
    while i < file.layers.len()
        invariant
            0 <= i <= file.layers.len(),
            table.deep_view() == spec_drawer_table(file.deep_view().custom_keys),
            spec_drawer_layers(
                table.deep_view(),
                file.deep_view().layers,
                0,
                Seq::empty(),
                Seq::empty(),
            ) == spec_drawer_layers(
                table.deep_view(),
                file.deep_view().layers,
                i as int,
                section.deep_view(),
                combos.deep_view(),
            ),
        decreases file.layers.len() - i,
    {
        proof {
            assert(file.deep_view().layers[i as int] == file.layers[i as int].deep_view());
        }
        let grid = match drawer_layer_rows(&table, &file.layers[i], &mut combos) {
            Err(e) => {
                return Err(e);
            },
            Ok(g) => g,
        };
        layers_insert(&mut section, &file.layers[i].name.s, LayerSpec(grid));
        i = i + 1;
    }
    let kb = match metadata.get_option(OptionKey::KeymapDrawer, "qmk_keyboard") {
        Some(v) => v,
        None => {
            return Err(
                AppError::OptionRequired {
                    option_name: String::from_str("qmk_keyboard"),
                    backend: String::from_str("keymap_drawer"),
                },
            );
        },
    };
    let qmk_layout = metadata.get_option(OptionKey::KeymapDrawer, "qmk_layout");
    let layout = LayoutSpec { qmk_keyboard: kb, qmk_layout };
    Ok(DrawerSpec { layout, layers: LayersSpec(section), combos: CombosSpec(combos) })
}

} // verus!
