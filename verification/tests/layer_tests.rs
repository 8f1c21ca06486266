//! Layer resolution: key binding, chord placement validation.

use keymap_compiler::errors::AppError;
use keymap_compiler::process::{LayerMeta, LayoutMeta, MatrixPosition};
use keymap_compiler::syntax::{
    Chord, Ident, Key, KeyOrChord, Layer, LayerRow, Layout, LayoutDefn, LayoutRow, PlainKey, Span,
};

fn sp() -> Span {
    Span { offset: 0, len: 0 }
}

fn spl(offset: usize, len: usize) -> Span {
    Span { offset, len }
}

fn ident(s: &str) -> Ident {
    Ident { s: s.to_string(), span: sp() }
}

fn named(s: &str) -> Key {
    Key::Plain(PlainKey::Named(ident(s)))
}

fn k(s: &str) -> KeyOrChord {
    KeyOrChord::Key(named(s))
}

fn ch(s: &str) -> KeyOrChord {
    KeyOrChord::Chord(Chord { key: named(s), span: sp() })
}

fn lrow(items: Vec<KeyOrChord>) -> LayerRow {
    LayerRow { items, semi: sp(), span: sp() }
}

fn layer(name: &str, rows: Vec<LayerRow>) -> Layer {
    Layer { name: ident(name), rows, span: sp() }
}

fn grid(width: u8, height: u8) -> LayoutMeta {
    let mut rows = Vec::new();
    for _ in 0..height {
        rows.push(LayoutRow {
            items: vec![LayoutDefn::Keys { count: width, span: sp() }],
            semi: sp(),
            span: sp(),
        });
    }
    LayoutMeta::process(&Layout { rows, span: sp() }).unwrap()
}

#[test]
fn keys_bind_to_their_positions() {
    let lm = grid(2, 1);
    let meta = LayerMeta::process(&lm, &layer("base", vec![lrow(vec![k("a"), k("b")])])).unwrap();
    assert_eq!(meta.name, "base");
    assert_eq!(meta.keys.len(), 2);
    assert_eq!(meta.chords.len(), 0);
    assert_eq!(meta.keys[0].layout_pos, (0, 0));
    assert_eq!(meta.keys[0].matrix_pos, MatrixPosition(0, 0));
    assert_eq!(meta.keys[1].layout_pos, (1, 0));
    assert_eq!(meta.keys[1].matrix_pos, MatrixPosition(1, 0));
    assert_eq!(meta.keys[0].key, named("a"));
}

#[test]
fn chord_between_two_keys_resolves() {
    let lm = grid(2, 1);
    let meta =
        LayerMeta::process(&lm, &layer("base", vec![lrow(vec![k("a"), ch("x"), k("b")])])).unwrap();
    assert_eq!(meta.keys.len(), 2);
    assert_eq!(meta.chords.len(), 1);
    assert_eq!(meta.chords[0].left, MatrixPosition(0, 0));
    assert_eq!(meta.chords[0].right, MatrixPosition(1, 0));
    assert_eq!(meta.chords[0].left_layout, (0, 0));
    assert_eq!(meta.chords[0].chord.key, named("x"));
}

#[test]
fn chord_alone_in_a_row_fails() {
    let lm = grid(2, 1);
    let bad = KeyOrChord::Chord(Chord { key: named("x"), span: spl(20, 5) });
    let row = LayerRow { items: vec![bad], semi: spl(26, 1), span: spl(20, 6) };
    match LayerMeta::process(&lm, &layer("base", vec![row])) {
        Err(AppError::BadChordPositions { bad_chord, prev_item, next_item }) => {
            assert_eq!(bad_chord, spl(20, 5));
            // no previous item: the row's opening position
            assert_eq!(prev_item, spl(20, 0));
            // no next item: the row's terminating token's position
            assert_eq!(next_item, spl(26, 0));
        }
        other => panic!("expected a chord-position error, got {:?}", other),
    }
}

#[test]
fn chord_at_start_of_row_fails() {
    let lm = grid(2, 1);
    match LayerMeta::process(&lm, &layer("base", vec![lrow(vec![ch("x"), k("a"), k("b")])])) {
        Err(AppError::BadChordPositions { .. }) => {}
        other => panic!("expected a chord-position error, got {:?}", other),
    }
}

#[test]
fn chord_at_end_of_row_fails() {
    let lm = grid(2, 1);
    match LayerMeta::process(&lm, &layer("base", vec![lrow(vec![k("a"), k("b"), ch("x")])])) {
        Err(AppError::BadChordPositions { .. }) => {}
        other => panic!("expected a chord-position error, got {:?}", other),
    }
}

#[test]
fn adjacent_chords_fail() {
    let lm = grid(3, 1);
    let items = vec![k("a"), ch("x"), ch("y"), k("b"), k("c")];
    match LayerMeta::process(&lm, &layer("base", vec![lrow(items)])) {
        Err(AppError::BadChordPositions { .. }) => {}
        other => panic!("expected a chord-position error, got {:?}", other),
    }
}

#[test]
fn key_beyond_the_layout_grid_fails() {
    let lm = grid(1, 1);
    let far = KeyOrChord::Key(Key::Plain(PlainKey::Named(Ident {
        s: "b".to_string(),
        span: spl(31, 1),
    })));
    match LayerMeta::process(&lm, &layer("base", vec![lrow(vec![k("a"), far])])) {
        Err(AppError::ImpossibleKeyLocation { key }) => {
            assert_eq!(key, spl(31, 1));
        }
        other => panic!("expected an impossible-location error, got {:?}", other),
    }
}

#[test]
fn layer_row_beyond_the_grid_fails() {
    let lm = grid(1, 1);
    let rows = vec![lrow(vec![k("a")]), lrow(vec![k("b")])];
    match LayerMeta::process(&lm, &layer("base", rows)) {
        Err(AppError::ImpossibleKeyLocation { .. }) => {}
        other => panic!("expected an impossible-location error, got {:?}", other),
    }
}

#[test]
fn chord_layout_positions_skip_spacers() {
    // 1k 1s 1k; : the two keys are layout columns 0 and 1 but matrix
    // columns 0 and 2
    let l = Layout {
        rows: vec![LayoutRow {
            items: vec![
                LayoutDefn::Keys { count: 1, span: sp() },
                LayoutDefn::Spaces { count: 1, span: sp() },
                LayoutDefn::Keys { count: 1, span: sp() },
            ],
            semi: sp(),
            span: sp(),
        }],
        span: sp(),
    };
    let lm = LayoutMeta::process(&l).unwrap();
    let meta =
        LayerMeta::process(&lm, &layer("base", vec![lrow(vec![k("a"), ch("x"), k("b")])])).unwrap();
    assert_eq!(meta.chords[0].left, MatrixPosition(0, 0));
    assert_eq!(meta.chords[0].right, MatrixPosition(2, 0));
}
