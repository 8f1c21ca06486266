//! Formatter alignment: column widths and spacer cells.

use keymap_compiler::format::{Format, KeySpacing};
use keymap_compiler::process::Metadata;
use keymap_compiler::syntax::{
    Chord, File, Ident, Key, KeyOrChord, Layer, LayerRow, Layout, LayoutDefn, LayoutRow, PlainKey,
    Span,
};

fn sp() -> Span {
    Span { offset: 0, len: 0 }
}

fn spl(len: usize) -> Span {
    Span { offset: 0, len }
}

fn named_with_len(s: &str, len: usize) -> Key {
    Key::Plain(PlainKey::Named(Ident { s: s.to_string(), span: spl(len) }))
}

fn k(s: &str, len: usize) -> KeyOrChord {
    KeyOrChord::Key(named_with_len(s, len))
}

fn lrow(items: Vec<KeyOrChord>) -> LayerRow {
    LayerRow { items, semi: sp(), span: sp() }
}

fn layer(name: &str, rows: Vec<LayerRow>) -> Layer {
    Layer { name: Ident { s: name.to_string(), span: sp() }, rows, span: sp() }
}

#[test]
fn column_widths_take_the_widest_key_of_each_column() {
    let layout = Layout {
        rows: vec![LayoutRow {
            items: vec![LayoutDefn::Keys { count: 2, span: sp() }],
            semi: sp(),
            span: sp(),
        }],
        span: sp(),
    };
    let layers = vec![
        layer("base", vec![lrow(vec![k("a", 1), k("lshift", 6)])]),
        layer("nav", vec![lrow(vec![k("del", 3), k("b", 1)])]),
    ];
    let f = File { layout, options: Vec::new(), custom_keys: Vec::new(), layers, span: sp() };
    let meta = Metadata::process(&f).unwrap();
    let fmt = Format::new(&meta).unwrap();
    assert_eq!(fmt.column_widths.len(), 2);
    assert_eq!(fmt.column_widths[0], KeySpacing { key_width: 3, chord_width: 0 });
    assert_eq!(fmt.column_widths[1], KeySpacing { key_width: 6, chord_width: 0 });
    assert!(fmt.empties.is_empty());
}

#[test]
fn chord_widths_and_spacer_cells() {
    // 1k 1s 1k; : the middle physical column is a spacer
    let layout = Layout {
        rows: vec![LayoutRow {
            items: vec![
                LayoutDefn::Keys { count: 1, span: sp() },
                LayoutDefn::Spaces { count: 1, span: sp() },
                LayoutDefn::Keys { count: 1, span: sp() },
            ],
            semi: sp(),
            span: sp(),
        }],
        span: sp(),
    };
    let chord = KeyOrChord::Chord(Chord { key: named_with_len("x", 1), span: spl(5) });
    let layers = vec![layer("base", vec![lrow(vec![k("a", 1), chord, k("b", 1)])])];
    let f = File { layout, options: Vec::new(), custom_keys: Vec::new(), layers, span: sp() };
    let meta = Metadata::process(&f).unwrap();
    let fmt = Format::new(&meta).unwrap();
    assert_eq!(fmt.column_widths.len(), 3);
    // the chord hangs off the left key's position, physical column 0
    assert_eq!(fmt.column_widths[0], KeySpacing { key_width: 1, chord_width: 5 });
    assert_eq!(fmt.empties, vec![(1, 0)]);
}

#[test]
fn a_layer_that_does_not_cover_the_grid_has_no_alignment() {
    let layout = Layout {
        rows: vec![LayoutRow {
            items: vec![LayoutDefn::Keys { count: 2, span: sp() }],
            semi: sp(),
            span: sp(),
        }],
        span: sp(),
    };
    let layers = vec![layer("base", vec![lrow(vec![k("a", 1)])])];
    let f = File { layout, options: Vec::new(), custom_keys: Vec::new(), layers, span: sp() };
    let meta = Metadata::process(&f).unwrap();
    assert_eq!(Format::new(&meta), None);
}
