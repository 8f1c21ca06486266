//! Diagram emission: label binding, combos, required options.

use keymap_compiler::emit_keymap_drawer::{emit, KeySpec};
use keymap_compiler::errors::AppError;
use keymap_compiler::process::Metadata;
use keymap_compiler::syntax::{
    Chord, CustomKey, CustomKeyOutput, File, Ident, Key, KeyOrChord, Layer, LayerRow, Layout,
    LayoutDefn, LayoutRow, ModTapType, Options, OptionsFor, OptionsItem, PlainKey, Span, Text,
};

fn sp() -> Span {
    Span { offset: 0, len: 0 }
}

fn ident(s: &str) -> Ident {
    Ident { s: s.to_string(), span: sp() }
}

fn text(s: &str) -> Text {
    Text { text: s.to_string(), span: sp() }
}

fn nk(s: &str) -> KeyOrChord {
    KeyOrChord::Key(Key::Plain(PlainKey::Named(ident(s))))
}

fn ck(c: char) -> KeyOrChord {
    KeyOrChord::Key(Key::Plain(PlainKey::Char { c, span: sp() }))
}

fn chord(s: &str) -> KeyOrChord {
    KeyOrChord::Chord(Chord { key: Key::Plain(PlainKey::Named(ident(s))), span: sp() })
}

fn lrow(items: Vec<KeyOrChord>) -> LayerRow {
    LayerRow { items, semi: sp(), span: sp() }
}

fn layer(name: &str, rows: Vec<LayerRow>) -> Layer {
    Layer { name: ident(name), rows, span: sp() }
}

fn grid_layout(width: u8, height: u8) -> Layout {
    let mut rows = Vec::new();
    for _ in 0..height {
        rows.push(LayoutRow {
            items: vec![LayoutDefn::Keys { count: width, span: sp() }],
            semi: sp(),
            span: sp(),
        });
    }
    Layout { rows, span: sp() }
}

fn drawer_options(items: Vec<(&str, &str)>) -> Options {
    Options {
        for_: OptionsFor::KeymapDrawer(sp()),
        items: items
            .into_iter()
            .map(|(n, v)| OptionsItem { name: ident(n), value: text(v), span: sp() })
            .collect(),
        span: sp(),
    }
}

fn build_file(options: Vec<Options>, custom_keys: Vec<CustomKey>, layers: Vec<Layer>) -> File {
    File { layout: grid_layout(4, 2), options, custom_keys, layers, span: sp() }
}

fn meta_of(f: &File) -> Metadata {
    Metadata::process(f).unwrap()
}

#[test]
fn missing_keyboard_option_is_required() {
    let f = build_file(Vec::new(), Vec::new(), vec![layer("base", vec![lrow(vec![ck('a')])])]);
    let meta = meta_of(&f);
    match emit(&f, &meta) {
        Err(AppError::OptionRequired { option_name, backend }) => {
            assert_eq!(option_name, "qmk_keyboard");
            assert_eq!(backend, "keymap_drawer");
        }
        other => panic!("expected a required-option error, got {:?}", other),
    }
}

#[test]
fn labels_and_combo_positions() {
    let opts = drawer_options(vec![("qmk_keyboard", "mykb"), ("qmk_layout", "LAYOUT")]);
    let rows = vec![
        lrow(vec![nk("esc"), ck('a')]),
        lrow(vec![ck('b'), chord("space"), ck('c')]),
    ];
    let f = build_file(vec![opts], Vec::new(), vec![layer("base", rows)]);
    let meta = meta_of(&f);
    let spec = emit(&f, &meta).unwrap();
    assert_eq!(spec.layout.qmk_keyboard, "mykb");
    assert_eq!(spec.layout.qmk_layout, Some("LAYOUT".to_string()));
    assert_eq!(spec.layers.0.len(), 1);
    assert_eq!(spec.layers.0[0].0, "base");
    let grid = &spec.layers.0[0].1;
    assert_eq!(grid.0.len(), 2);
    assert_eq!(
        grid.0[0][0],
        KeySpec { tap: Some("Escape".to_string()), hold: None }
    );
    // a character is labelled as itself followed by a space
    assert_eq!(grid.0[0][1], KeySpec { tap: Some("a ".to_string()), hold: None });
    // the combo sits between the third and fourth key of the layer,
    // counting keys across rows
    assert_eq!(spec.combos.0.len(), 1);
    assert_eq!(spec.combos.0[0].key_positions, (2, 3));
    assert_eq!(spec.combos.0[0].key.tap, Some("Space".to_string()));
    assert_eq!(spec.combos.0[0].layers, vec!["base".to_string()]);
}

#[test]
fn the_noop_key_has_no_label() {
    let opts = drawer_options(vec![("qmk_keyboard", "kb")]);
    let f = build_file(vec![opts], Vec::new(), vec![layer("base", vec![lrow(vec![nk("n")])])]);
    let meta = meta_of(&f);
    let spec = emit(&f, &meta).unwrap();
    assert_eq!(spec.layers.0[0].1.0[0][0], KeySpec { tap: None, hold: None });
    assert_eq!(spec.layout.qmk_layout, None);
}

#[test]
fn mod_tap_labels_both_tap_and_hold() {
    let mt = KeyOrChord::Key(Key::ModTap {
        tap: PlainKey::Char { c: 'a', span: sp() },
        at: ModTapType::Permissive(sp()),
        timeout: None,
        hold: PlainKey::Named(ident("lshift")),
        span: sp(),
    });
    let opts = drawer_options(vec![("qmk_keyboard", "kb")]);
    let f = build_file(vec![opts], Vec::new(), vec![layer("base", vec![lrow(vec![mt])])]);
    let meta = meta_of(&f);
    let spec = emit(&f, &meta).unwrap();
    assert_eq!(
        spec.layers.0[0].1.0[0][0],
        KeySpec { tap: Some("a ".to_string()), hold: Some("LShift".to_string()) }
    );
}

#[test]
fn layer_reference_is_labelled_with_the_layer_name() {
    let lref = KeyOrChord::Key(Key::Plain(PlainKey::Layer { layer: ident("nav"), span: sp() }));
    let opts = drawer_options(vec![("qmk_keyboard", "kb")]);
    let f = build_file(vec![opts], Vec::new(), vec![
        layer("base", vec![lrow(vec![lref])]),
        layer("nav", vec![lrow(vec![ck('a')])]),
    ]);
    let meta = meta_of(&f);
    let spec = emit(&f, &meta).unwrap();
    assert_eq!(spec.layers.0[0].1.0[0][0], KeySpec { tap: Some("nav".to_string()), hold: None });
}

#[test]
fn custom_key_overrides_a_predefined_label() {
    let custom = CustomKey {
        name: ident("esc"),
        outputs: vec![CustomKeyOutput { name: ident("keymap_drawer"), output: text("Esc!"), span: sp() }],
        span: sp(),
    };
    let opts = drawer_options(vec![("qmk_keyboard", "kb")]);
    let f = build_file(vec![opts], vec![custom], vec![layer("base", vec![lrow(vec![nk("esc")])])]);
    let meta = meta_of(&f);
    let spec = emit(&f, &meta).unwrap();
    assert_eq!(spec.layers.0[0].1.0[0][0], KeySpec { tap: Some("Esc!".to_string()), hold: None });
}

#[test]
fn unknown_label_suggests_similar_names() {
    let opts = drawer_options(vec![("qmk_keyboard", "kb")]);
    let f = build_file(vec![opts], Vec::new(), vec![layer("base", vec![lrow(vec![nk("spac")])])]);
    let meta = meta_of(&f);
    match emit(&f, &meta) {
        Err(AppError::UnknownNamedKey { key, similar, .. }) => {
            assert_eq!(key, "spac");
            assert_eq!(similar[0], "space");
        }
        other => panic!("expected an unknown-key error, got {:?}", other),
    }
}
