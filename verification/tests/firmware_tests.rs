//! Firmware emission: matrix allocation, memoization, action binding,
//! determinism.

use keymap_compiler::emit_rustydilemma::{
    compile_firmware, emit, kc, plkc, sh, FirmwareOutput, HoldTapConfig, MatrixKey,
};
use keymap_compiler::errors::AppError;
use keymap_compiler::process::{MatrixPosition, Metadata};
use keymap_compiler::syntax::{
    Chord, CustomKey, CustomKeyOutput, File, Ident, Key, KeyOrChord, Layer, LayerRow, Layout,
    LayoutDefn, LayoutRow, ModTapType, Options, OptionsFor, OptionsItem, PlainKey, Span, Text,
};

fn sp() -> Span {
    Span { offset: 0, len: 0 }
}

fn ident(s: &str) -> Ident {
    Ident { s: s.to_string(), span: sp() }
}

fn text(s: &str) -> Text {
    Text { text: s.to_string(), span: sp() }
}

fn ck(c: char) -> KeyOrChord {
    KeyOrChord::Key(Key::Plain(PlainKey::Char { c, span: sp() }))
}

fn nk(s: &str) -> KeyOrChord {
    KeyOrChord::Key(Key::Plain(PlainKey::Named(ident(s))))
}

fn chord(c: char) -> KeyOrChord {
    KeyOrChord::Chord(Chord { key: Key::Plain(PlainKey::Char { c, span: sp() }), span: sp() })
}

fn lrow(items: Vec<KeyOrChord>) -> LayerRow {
    LayerRow { items, semi: sp(), span: sp() }
}

fn layer(name: &str, rows: Vec<LayerRow>) -> Layer {
    Layer { name: ident(name), rows, span: sp() }
}

fn grid_layout(width: u8, height: u8) -> Layout {
    let mut rows = Vec::new();
    for _ in 0..height {
        rows.push(LayoutRow {
            items: vec![LayoutDefn::Keys { count: width, span: sp() }],
            semi: sp(),
            span: sp(),
        });
    }
    Layout { rows, span: sp() }
}

fn file(layout: Layout, options: Vec<Options>, custom_keys: Vec<CustomKey>, layers: Vec<Layer>) -> File {
    File { layout, options, custom_keys, layers, span: sp() }
}

fn plain_file(width: u8, height: u8, layers: Vec<Layer>) -> File {
    file(grid_layout(width, height), Vec::new(), Vec::new(), layers)
}

#[test]
fn two_keys_compile_to_one_row_two_columns() {
    let f = plain_file(2, 1, vec![layer("base", vec![lrow(vec![ck('a'), ck('b')])])]);
    let fw = compile_firmware(&f).unwrap();
    assert_eq!(fw.width, 2);
    assert_eq!(fw.rows, 1);
    assert!(fw.chords.is_empty());
    assert_eq!(fw.layers.len(), 1);
    assert_eq!(fw.layers[0].len(), 1);
    assert_eq!(fw.layers[0][0].len(), 2);
    assert_eq!(fw.layers[0][0][0], MatrixKey::KeyCode(kc("A")));
    assert_eq!(fw.layers[0][0][1], MatrixKey::KeyCode(kc("B")));
}

#[test]
fn lone_chord_fails_compilation() {
    let f = plain_file(2, 1, vec![layer("base", vec![lrow(vec![chord('a')])])]);
    match compile_firmware(&f) {
        Err(AppError::BadChordPositions { .. }) => {}
        other => panic!("expected a chord-position error, got {:?}", other),
    }
}

#[test]
fn chord_gets_a_synthetic_slot_on_an_extra_row() {
    let f = plain_file(2, 1, vec![layer("base", vec![lrow(vec![ck('a'), chord('x'), ck('b')])])]);
    let fw = compile_firmware(&f).unwrap();
    assert_eq!(fw.width, 2);
    // one physical row plus one extra row for the chord
    assert_eq!(fw.rows, 2);
    assert_eq!(
        fw.chords,
        vec![((MatrixPosition(0, 0), MatrixPosition(1, 0)), MatrixPosition(0, 1))]
    );
    // the occupied positions are exactly the two keys and the allocated
    // slot; the one unclaimed position is filled with no-op
    assert_eq!(fw.layers[0][0][0], MatrixKey::KeyCode(kc("A")));
    assert_eq!(fw.layers[0][0][1], MatrixKey::KeyCode(kc("B")));
    assert_eq!(fw.layers[0][1][0], MatrixKey::KeyCode(kc("X")));
    assert_eq!(fw.layers[0][1][1], MatrixKey::NoOp);
}

#[test]
fn same_pair_on_two_layers_shares_one_slot() {
    let base = layer("base", vec![lrow(vec![ck('a'), chord('x'), ck('b')])]);
    let nav = layer("nav", vec![lrow(vec![ck('c'), chord('y'), ck('d')])]);
    let f = plain_file(2, 1, vec![base, nav]);
    let fw = compile_firmware(&f).unwrap();
    // both chords sit between matrix (0,0) and (1,0): one table entry
    assert_eq!(fw.chords.len(), 1);
    assert_eq!(fw.chords[0].1, MatrixPosition(0, 1));
    // the slot is bound on both layers, each with its own payload
    assert_eq!(fw.layers[0][1][0], MatrixKey::KeyCode(kc("X")));
    assert_eq!(fw.layers[1][1][0], MatrixKey::KeyCode(kc("Y")));
}

#[test]
fn different_pairs_get_distinct_slots() {
    // width 3: chords between columns (0,1) and between (1,2)
    let base = layer(
        "base",
        vec![lrow(vec![ck('a'), chord('x'), ck('b'), chord('y'), ck('c')])],
    );
    let f = plain_file(3, 1, vec![base]);
    let fw = compile_firmware(&f).unwrap();
    assert_eq!(fw.chords.len(), 2);
    assert_eq!(fw.chords[0].0, (MatrixPosition(0, 0), MatrixPosition(1, 0)));
    assert_eq!(fw.chords[0].1, MatrixPosition(0, 1));
    assert_eq!(fw.chords[1].0, (MatrixPosition(1, 0), MatrixPosition(2, 0)));
    assert_eq!(fw.chords[1].1, MatrixPosition(1, 1));
    assert_ne!(fw.chords[0].1, fw.chords[1].1);
}

#[test]
fn allocation_fills_columns_then_wraps_to_a_new_extra_row() {
    // width 3, height 2: four distinct pairs; the fourth slot wraps
    let r0 = lrow(vec![ck('a'), chord('q'), ck('b'), chord('w'), ck('c')]);
    let r1 = lrow(vec![ck('d'), chord('e'), ck('f'), chord('r'), ck('g')]);
    let f = plain_file(3, 2, vec![layer("base", vec![r0, r1])]);
    let fw = compile_firmware(&f).unwrap();
    assert_eq!(fw.chords.len(), 4);
    assert_eq!(fw.chords[0].1, MatrixPosition(0, 2));
    assert_eq!(fw.chords[1].1, MatrixPosition(1, 2));
    assert_eq!(fw.chords[2].1, MatrixPosition(2, 2));
    // after three slots the extra row is full: wrap to the next one
    assert_eq!(fw.chords[3].1, MatrixPosition(0, 3));
    assert_eq!(fw.rows, 4);
}

#[test]
fn unknown_named_key_suggests_similar_names() {
    let f = plain_file(1, 1, vec![layer("base", vec![lrow(vec![nk("spac")])])]);
    match compile_firmware(&f) {
        Err(AppError::UnknownNamedKey { key, similar, .. }) => {
            assert_eq!(key, "spac");
            assert!(similar.iter().any(|s| s == "space"), "suggestions: {:?}", similar);
            assert_eq!(similar[0], "space");
        }
        other => panic!("expected an unknown-key error, got {:?}", other),
    }
}

#[test]
fn unknown_layer_reference_suggests_similar_names() {
    let lref = KeyOrChord::Key(Key::Plain(PlainKey::Layer { layer: ident("navi"), span: sp() }));
    let base = layer("base", vec![lrow(vec![lref])]);
    let nav = layer("navig", vec![lrow(vec![ck('a')])]);
    let f = plain_file(1, 1, vec![base, nav]);
    match compile_firmware(&f) {
        Err(AppError::UnknownNamedLayer { layer, similar, .. }) => {
            assert_eq!(layer, "navi");
            assert!(similar.iter().any(|s| s == "navig"), "suggestions: {:?}", similar);
        }
        other => panic!("expected an unknown-layer error, got {:?}", other),
    }
}

#[test]
fn unknown_character_key_fails() {
    let f = plain_file(1, 1, vec![layer("base", vec![lrow(vec![ck('A')])])]);
    match compile_firmware(&f) {
        Err(AppError::UnknownKey { key, .. }) => assert_eq!(key, 'A'),
        other => panic!("expected an unknown-key error, got {:?}", other),
    }
}

#[test]
fn layer_reference_binds_the_declaration_index() {
    let lref = KeyOrChord::Key(Key::Plain(PlainKey::Layer { layer: ident("nav"), span: sp() }));
    let base = layer("base", vec![lrow(vec![lref])]);
    let nav = layer("nav", vec![lrow(vec![ck('a')])]);
    let f = plain_file(1, 1, vec![base, nav]);
    let fw = compile_firmware(&f).unwrap();
    assert_eq!(fw.layers[0][0][0], MatrixKey::Layer(1));
}

#[test]
fn named_and_shifted_characters_bind() {
    let f = plain_file(3, 1, vec![layer("base", vec![lrow(vec![nk("esc"), ck('!'), ck('-')])])]);
    let fw = compile_firmware(&f).unwrap();
    assert_eq!(fw.layers[0][0][0], plkc("Escape"));
    assert_eq!(fw.layers[0][0][1], sh("Kb1"));
    assert_eq!(fw.layers[0][0][2], MatrixKey::KeyCode(kc("Minus")));
}

#[test]
fn mod_tap_uses_default_timing() {
    let mt = KeyOrChord::Key(Key::ModTap {
        tap: PlainKey::Char { c: 'a', span: sp() },
        at: ModTapType::Permissive(sp()),
        timeout: None,
        hold: PlainKey::Named(ident("lshift")),
        span: sp(),
    });
    let f = plain_file(1, 1, vec![layer("base", vec![lrow(vec![mt])])]);
    let fw = compile_firmware(&f).unwrap();
    match &fw.layers[0][0][0] {
        MatrixKey::HoldTap { tap, hold, config, timeout, tap_hold_interval } => {
            assert_eq!(**tap, MatrixKey::KeyCode(kc("A")));
            assert_eq!(**hold, plkc("LShift"));
            assert_eq!(*config, HoldTapConfig::PermissiveHold);
            assert_eq!(timeout, "400");
            assert_eq!(tap_hold_interval, "200");
        }
        other => panic!("expected a hold-tap action, got {:?}", other),
    }
}

#[test]
fn mod_tap_timing_comes_from_the_options() {
    let mt = KeyOrChord::Key(Key::ModTap {
        tap: PlainKey::Char { c: 'a', span: sp() },
        at: ModTapType::OnOtherKey(sp()),
        timeout: None,
        hold: PlainKey::Named(ident("lctrl")),
        span: sp(),
    });
    let opts = Options {
        for_: OptionsFor::RustyDilemma(sp()),
        items: vec![
            OptionsItem { name: ident("hold_tap_timeout"), value: text("250"), span: sp() },
            OptionsItem { name: ident("hold_tap_interval"), value: text("120"), span: sp() },
        ],
        span: sp(),
    };
    let f = file(grid_layout(1, 1), vec![opts], Vec::new(), vec![layer(
        "base",
        vec![lrow(vec![mt])],
    )]);
    let fw = compile_firmware(&f).unwrap();
    match &fw.layers[0][0][0] {
        MatrixKey::HoldTap { config, timeout, tap_hold_interval, .. } => {
            assert_eq!(*config, HoldTapConfig::HoldOnOtherKeyPress);
            assert_eq!(timeout, "250");
            assert_eq!(tap_hold_interval, "120");
        }
        other => panic!("expected a hold-tap action, got {:?}", other),
    }
}

#[test]
fn custom_key_binds_its_firmware_output() {
    let custom = CustomKey {
        name: ident("boot"),
        outputs: vec![CustomKeyOutput {
            name: ident("keyberon"),
            output: text("::my::boot_action()"),
            span: sp(),
        }],
        span: sp(),
    };
    let f = file(grid_layout(1, 1), Vec::new(), vec![custom], vec![layer(
        "base",
        vec![lrow(vec![nk("boot")])],
    )]);
    let fw = compile_firmware(&f).unwrap();
    assert_eq!(fw.layers[0][0][0], MatrixKey::Custom("::my::boot_action()".to_string()));
}

#[test]
fn custom_key_overrides_a_predefined_name() {
    let custom = CustomKey {
        name: ident("esc"),
        outputs: vec![CustomKeyOutput {
            name: ident("keyberon"),
            output: text("::my::esc()"),
            span: sp(),
        }],
        span: sp(),
    };
    let f = file(grid_layout(1, 1), Vec::new(), vec![custom], vec![layer(
        "base",
        vec![lrow(vec![nk("esc")])],
    )]);
    let fw = compile_firmware(&f).unwrap();
    assert_eq!(fw.layers[0][0][0], MatrixKey::Custom("::my::esc()".to_string()));
}

#[test]
fn custom_event_option_reaches_the_output() {
    let opts = Options {
        for_: OptionsFor::RustyDilemma(sp()),
        items: vec![OptionsItem { name: ident("custom_event"), value: text("MyEvent"), span: sp() }],
        span: sp(),
    };
    let f = file(grid_layout(1, 1), vec![opts], Vec::new(), vec![layer(
        "base",
        vec![lrow(vec![ck('a')])],
    )]);
    let fw = compile_firmware(&f).unwrap();
    assert_eq!(fw.custom_event, "MyEvent");
    let plain = plain_file(1, 1, vec![layer("base", vec![lrow(vec![ck('a')])])]);
    assert_eq!(compile_firmware(&plain).unwrap().custom_event, "()");
}

#[test]
fn identical_sources_compile_to_identical_firmware() {
    fn build() -> File {
        plain_file(2, 1, vec![
            layer("base", vec![lrow(vec![ck('a'), chord('x'), ck('b')])]),
            layer("nav", vec![lrow(vec![nk("esc"), ck('!')])]),
        ])
    }
    let fw1 = compile_firmware(&build()).unwrap();
    let fw2 = compile_firmware(&build()).unwrap();
    assert_eq!(fw1, fw2);
}

#[test]
fn emit_on_resolved_metadata_matches_compile() {
    let f = plain_file(2, 1, vec![layer("base", vec![lrow(vec![ck('a'), ck('b')])])]);
    let meta = Metadata::process(&f).unwrap();
    let fw1: FirmwareOutput = emit(&f, &meta).unwrap();
    let fw2 = compile_firmware(&f).unwrap();
    assert_eq!(fw1, fw2);
}
