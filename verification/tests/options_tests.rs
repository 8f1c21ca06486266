//! The options table: per-backend lookup, last declaration wins.

use keymap_compiler::process::{Metadata, OptionKey, OptionsMeta};
use keymap_compiler::syntax::{
    File, Ident, Key, KeyOrChord, Layer, LayerRow, Layout, LayoutDefn, LayoutRow, Options,
    OptionsFor, OptionsItem, PlainKey, Span, Text,
};

fn sp() -> Span {
    Span { offset: 0, len: 0 }
}

fn ident(s: &str) -> Ident {
    Ident { s: s.to_string(), span: sp() }
}

fn item(name: &str, value: &str) -> OptionsItem {
    OptionsItem { name: ident(name), value: Text { text: value.to_string(), span: sp() }, span: sp() }
}

fn block(for_: OptionsFor, items: Vec<OptionsItem>) -> Options {
    Options { for_, items, span: sp() }
}

fn meta_with(options: Vec<Options>) -> Metadata {
    let layout = Layout {
        rows: vec![LayoutRow {
            items: vec![LayoutDefn::Keys { count: 1, span: sp() }],
            semi: sp(),
            span: sp(),
        }],
        span: sp(),
    };
    let layers = vec![Layer {
        name: ident("base"),
        rows: vec![LayerRow {
            items: vec![KeyOrChord::Key(Key::Plain(PlainKey::Char { c: 'a', span: sp() }))],
            semi: sp(),
            span: sp(),
        }],
        span: sp(),
    }];
    let f = File { layout, options, custom_keys: Vec::new(), layers, span: sp() };
    Metadata::process(&f).unwrap()
}

#[test]
fn options_are_looked_up_per_backend() {
    let meta = meta_with(vec![
        block(OptionsFor::RustyDilemma(sp()), vec![item("x", "fw")]),
        block(OptionsFor::KeymapDrawer(sp()), vec![item("x", "draw")]),
        block(OptionsFor::Formatter(sp()), vec![item("x", "fmt")]),
    ]);
    assert_eq!(meta.get_option(OptionKey::RustyDilemma, "x"), Some("fw".to_string()));
    assert_eq!(meta.get_option(OptionKey::KeymapDrawer, "x"), Some("draw".to_string()));
    assert_eq!(meta.get_option(OptionKey::Formatter, "x"), Some("fmt".to_string()));
    assert_eq!(meta.get_option(OptionKey::RustyDilemma, "y"), None);
}

#[test]
fn last_declaration_of_a_pair_wins() {
    let meta = meta_with(vec![
        block(OptionsFor::RustyDilemma(sp()), vec![item("x", "first"), item("x", "second")]),
        block(OptionsFor::RustyDilemma(sp()), vec![item("x", "third")]),
    ]);
    assert_eq!(meta.get_option(OptionKey::RustyDilemma, "x"), Some("third".to_string()));
}

#[test]
fn the_table_keeps_one_entry_per_pair() {
    let options = vec![
        block(OptionsFor::RustyDilemma(sp()), vec![item("x", "a"), item("x", "b"), item("y", "c")]),
    ];
    let m = OptionsMeta::process(&options);
    assert_eq!(m.options.len(), 2);
    assert_eq!(m.options[0].1, "x");
    assert_eq!(m.options[0].2, "b");
    assert_eq!(m.options[1].1, "y");
}
