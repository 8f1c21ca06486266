//! The abstract syntax tree of a layout file.
//!
//! Every node carries the source span of the text it was read from, so that
//! semantic errors can point back at the offending construct.  Nodes that
//! contain identifiers or quoted text own their strings; the ghost model of
//! each node (its `deep_view`) replaces every string by its character
//! sequence, so that two structurally identical trees have equal models even
//! when their strings are distinct allocations.

use vstd::prelude::*;

verus! {

/// A region of the source text: `len` bytes starting at `offset`.
#[derive(Clone, Copy, Debug, PartialEq, Eq, Structural)]
pub struct Span {
    pub offset: usize,
    pub len: usize,
}

impl DeepView for Span {
    type V = Span;

    open spec fn deep_view(&self) -> Span {
        *self
    }
}

impl Span {
    /// The empty span at the start of this one.
    pub fn start_singleton(self) -> (r: Span)
        ensures
            r == (Span { offset: self.offset, len: 0 }),
    {
        Span { offset: self.offset, len: 0 }
    }

    /// The empty span just past the end of this one.
    pub fn end_singleton(self) -> (r: Span)
        requires
            self.offset + self.len <= usize::MAX,
        ensures
            r == (Span { offset: (self.offset + self.len) as usize, len: 0 }),
    {
        Span { offset: self.offset + self.len, len: 0 }
    }
}

/// An identifier together with where it was written.
#[derive(Debug, PartialEq, Eq)]
pub struct Ident {
    pub s: String,
    pub span: Span,
}

/// Ghost model of an [`Ident`].
pub struct IdentV {
    pub s: Seq<char>,
    pub span: Span,
}

impl DeepView for Ident {
    type V = IdentV;

    open spec fn deep_view(&self) -> IdentV {
        IdentV { s: self.s.deep_view(), span: self.span }
    }
}

impl Clone for Ident {
    fn clone(&self) -> (r: Self)
        ensures
            r == *self,
    {
        Ident { s: self.s.clone(), span: self.span }
    }
}

/// A quoted string literal, already unescaped.
#[derive(Debug, PartialEq, Eq)]
pub struct Text {
    pub text: String,
    pub span: Span,
}

/// Ghost model of a [`Text`].
pub struct TextV {
    pub text: Seq<char>,
    pub span: Span,
}

impl DeepView for Text {
    type V = TextV;

    open spec fn deep_view(&self) -> TextV {
        TextV { text: self.text.deep_view(), span: self.span }
    }
}

impl Clone for Text {
    fn clone(&self) -> (r: Self)
        ensures
            r == *self,
    {
        Text { text: self.text.clone(), span: self.span }
    }
}

/// One cell declaration of a layout row: `Nk` keys, `[N]` a key remapped to
/// matrix column `N`, or `Ns` spacer cells.
#[derive(Clone, Copy, Debug, PartialEq, Eq, Structural)]
pub enum LayoutDefn {
    Keys { count: u8, span: Span },
    RemappedKey { position: u8, span: Span },
    Spaces { count: u8, span: Span },
}

impl DeepView for LayoutDefn {
    type V = LayoutDefn;

    open spec fn deep_view(&self) -> LayoutDefn {
        *self
    }
}

impl LayoutDefn {
    pub open spec fn spec_span(self) -> Span {
        match self {
            LayoutDefn::Keys { span, .. } => span,
            LayoutDefn::RemappedKey { span, .. } => span,
            LayoutDefn::Spaces { span, .. } => span,
        }
    }

    pub fn span(&self) -> (r: Span)
        ensures
            r == self.spec_span(),
    {
        match self {
            LayoutDefn::Keys { span, .. } => *span,
            LayoutDefn::RemappedKey { span, .. } => *span,
            LayoutDefn::Spaces { span, .. } => *span,
        }
    }
}

/// One row of the layout block, ended by a `;` whose span is kept for
/// diagnostics.
#[derive(Clone, Debug, PartialEq, Eq)]
pub struct LayoutRow {
    pub items: Vec<LayoutDefn>,
    pub semi: Span,
    pub span: Span,
}

/// Ghost model of a [`LayoutRow`].
pub struct LayoutRowV {
    pub items: Seq<LayoutDefn>,
    pub semi: Span,
    pub span: Span,
}

impl DeepView for LayoutRow {
    type V = LayoutRowV;

    open spec fn deep_view(&self) -> LayoutRowV {
        LayoutRowV { items: self.items.deep_view(), semi: self.semi, span: self.span }
    }
}

/// The `layout { ... }` block.
#[derive(Clone, Debug, PartialEq, Eq)]
pub struct Layout {
    pub rows: Vec<LayoutRow>,
    pub span: Span,
}

/// Ghost model of a [`Layout`].
pub struct LayoutV {
    pub rows: Seq<LayoutRowV>,
    pub span: Span,
}

impl DeepView for Layout {
    type V = LayoutV;

    open spec fn deep_view(&self) -> LayoutV {
        LayoutV { rows: self.rows.deep_view(), span: self.span }
    }
}

/// The backend an `options` block applies to.
#[derive(Clone, Copy, Debug, PartialEq, Eq, Structural)]
pub enum OptionsFor {
    RustyDilemma(Span),
    KeymapDrawer(Span),
    Formatter(Span),
}

impl DeepView for OptionsFor {
    type V = OptionsFor;

    open spec fn deep_view(&self) -> OptionsFor {
        *self
    }
}

/// One `name: "value";` entry of an options block.
#[derive(Clone, Debug, PartialEq, Eq)]
pub struct OptionsItem {
    pub name: Ident,
    pub value: Text,
    pub span: Span,
}

/// Ghost model of an [`OptionsItem`].
pub struct OptionsItemV {
    pub name: IdentV,
    pub value: TextV,
    pub span: Span,
}

impl DeepView for OptionsItem {
    type V = OptionsItemV;

    open spec fn deep_view(&self) -> OptionsItemV {
        OptionsItemV {
            name: self.name.deep_view(),
            value: self.value.deep_view(),
            span: self.span,
        }
    }
}

/// An `options <backend> { ... }` block.
#[derive(Clone, Debug, PartialEq, Eq)]
pub struct Options {
    pub for_: OptionsFor,
    pub items: Vec<OptionsItem>,
    pub span: Span,
}

/// Ghost model of an [`Options`] block.
pub struct OptionsV {
    pub for_: OptionsFor,
    pub items: Seq<OptionsItemV>,
    pub span: Span,
}

impl DeepView for Options {
    type V = OptionsV;

    open spec fn deep_view(&self) -> OptionsV {
        OptionsV { for_: self.for_, items: self.items.deep_view(), span: self.span }
    }
}

/// One `out <backend>: "text";` entry of a custom key declaration.
#[derive(Clone, Debug, PartialEq, Eq)]
pub struct CustomKeyOutput {
    pub name: Ident,
    pub output: Text,
    pub span: Span,
}

/// Ghost model of a [`CustomKeyOutput`].
pub struct CustomKeyOutputV {
    pub name: IdentV,
    pub output: TextV,
    pub span: Span,
}

impl DeepView for CustomKeyOutput {
    type V = CustomKeyOutputV;

    open spec fn deep_view(&self) -> CustomKeyOutputV {
        CustomKeyOutputV {
            name: self.name.deep_view(),
            output: self.output.deep_view(),
            span: self.span,
        }
    }
}

/// A `key <name> { ... }` custom key declaration.
#[derive(Clone, Debug, PartialEq, Eq)]
pub struct CustomKey {
    pub name: Ident,
    pub outputs: Vec<CustomKeyOutput>,
    pub span: Span,
}

/// Ghost model of a [`CustomKey`].
pub struct CustomKeyV {
    pub name: IdentV,
    pub outputs: Seq<CustomKeyOutputV>,
    pub span: Span,
}

impl DeepView for CustomKey {
    type V = CustomKeyV;

    open spec fn deep_view(&self) -> CustomKeyV {
        CustomKeyV {
            name: self.name.deep_view(),
            outputs: self.outputs.deep_view(),
            span: self.span,
        }
    }
}

/// How a mod-tap resolves a hold: `@` permissive hold, `@~` hold only on
/// other-key activity.
#[derive(Clone, Copy, Debug, PartialEq, Eq, Structural)]
pub enum ModTapType {
    Permissive(Span),
    OnOtherKey(Span),
}

/// An explicit `[timeout]` on a mod-tap.
#[derive(Clone, Copy, Debug, PartialEq, Eq, Structural)]
pub struct ModTapTimeout {
    pub timeout: u32,
    pub span: Span,
}

impl DeepView for ModTapType {
    type V = ModTapType;

    open spec fn deep_view(&self) -> ModTapType {
        *self
    }
}

impl DeepView for ModTapTimeout {
    type V = ModTapTimeout;

    open spec fn deep_view(&self) -> ModTapTimeout {
        *self
    }
}

/// A key without mod-tap structure: a named key, a `[layer]` reference, or a
/// `'c'` character literal.
#[derive(Debug, PartialEq, Eq)]
pub enum PlainKey {
    Named(Ident),
    Layer { layer: Ident, span: Span },
    Char { c: char, span: Span },
}

/// Ghost model of a [`PlainKey`].
pub enum PlainKeyV {
    Named(IdentV),
    Layer { layer: IdentV, span: Span },
    Char { c: char, span: Span },
}

impl DeepView for PlainKey {
    type V = PlainKeyV;

    open spec fn deep_view(&self) -> PlainKeyV {
        match self {
            PlainKey::Named(n) => PlainKeyV::Named(n.deep_view()),
            PlainKey::Layer { layer, span } => PlainKeyV::Layer {
                layer: layer.deep_view(),
                span: *span,
            },
            PlainKey::Char { c, span } => PlainKeyV::Char { c: *c, span: *span },
        }
    }
}

impl Clone for PlainKey {
    fn clone(&self) -> (r: Self)
        ensures
            r == *self,
    {
        match self {
            PlainKey::Named(n) => PlainKey::Named(n.clone()),
            PlainKey::Layer { layer, span } => PlainKey::Layer {
                layer: layer.clone(),
                span: *span,
            },
            PlainKey::Char { c, span } => PlainKey::Char { c: *c, span: *span },
        }
    }
}

impl PlainKeyV {
    pub open spec fn spec_span(self) -> Span {
        match self {
            PlainKeyV::Named(n) => n.span,
            PlainKeyV::Layer { span, .. } => span,
            PlainKeyV::Char { span, .. } => span,
        }
    }
}

impl PlainKey {
    pub fn span(&self) -> (r: Span)
        ensures
            r == self.deep_view().spec_span(),
    {
        match self {
            PlainKey::Named(n) => n.span,
            PlainKey::Layer { span, .. } => *span,
            PlainKey::Char { span, .. } => *span,
        }
    }
}

/// A key of a layer row: plain, or a `tap@hold` / `tap@~hold[timeout]`
/// mod-tap combination.
#[derive(Debug, PartialEq, Eq)]
pub enum Key {
    Plain(PlainKey),
    ModTap {
        tap: PlainKey,
        at: ModTapType,
        timeout: Option<ModTapTimeout>,
        hold: PlainKey,
        span: Span,
    },
}

/// Ghost model of a [`Key`].
pub enum KeyV {
    Plain(PlainKeyV),
    ModTap {
        tap: PlainKeyV,
        at: ModTapType,
        timeout: Option<ModTapTimeout>,
        hold: PlainKeyV,
        span: Span,
    },
}

impl DeepView for Key {
    type V = KeyV;

    open spec fn deep_view(&self) -> KeyV {
        match self {
            Key::Plain(p) => KeyV::Plain(p.deep_view()),
            Key::ModTap { tap, at, timeout, hold, span } => KeyV::ModTap {
                tap: tap.deep_view(),
                at: *at,
                timeout: *timeout,
                hold: hold.deep_view(),
                span: *span,
            },
        }
    }
}

impl Clone for Key {
    fn clone(&self) -> (r: Self)
        ensures
            r == *self,
    {
        match self {
            Key::Plain(p) => Key::Plain(p.clone()),
            Key::ModTap { tap, at, timeout, hold, span } => Key::ModTap {
                tap: tap.clone(),
                at: *at,
                timeout: *timeout,
                hold: hold.clone(),
                span: *span,
            },
        }
    }
}

impl KeyV {
    pub open spec fn spec_span(self) -> Span {
        match self {
            KeyV::Plain(p) => p.spec_span(),
            KeyV::ModTap { span, .. } => span,
        }
    }
}

impl Key {
    pub fn span(&self) -> (r: Span)
        ensures
            r == self.deep_view().spec_span(),
    {
        match self {
            Key::Plain(p) => p.span(),
            Key::ModTap { span, .. } => *span,
        }
    }
}

/// A `>key<` chord: pressed as the two neighbouring keys together.
#[derive(Debug, PartialEq, Eq)]
pub struct Chord {
    pub key: Key,
    pub span: Span,
}

/// Ghost model of a [`Chord`].
pub struct ChordV {
    pub key: KeyV,
    pub span: Span,
}

impl DeepView for Chord {
    type V = ChordV;

    open spec fn deep_view(&self) -> ChordV {
        ChordV { key: self.key.deep_view(), span: self.span }
    }
}

impl Clone for Chord {
    fn clone(&self) -> (r: Self)
        ensures
            r == *self,
    {
        Chord { key: self.key.clone(), span: self.span }
    }
}

/// One token of a layer row.
#[derive(Debug, PartialEq, Eq)]
pub enum KeyOrChord {
    Key(Key),
    Chord(Chord),
}

/// Ghost model of a [`KeyOrChord`].
pub enum KeyOrChordV {
    Key(KeyV),
    Chord(ChordV),
}

impl DeepView for KeyOrChord {
    type V = KeyOrChordV;

    open spec fn deep_view(&self) -> KeyOrChordV {
        match self {
            KeyOrChord::Key(k) => KeyOrChordV::Key(k.deep_view()),
            KeyOrChord::Chord(c) => KeyOrChordV::Chord(c.deep_view()),
        }
    }
}

impl KeyOrChordV {
    pub open spec fn spec_span(self) -> Span {
        match self {
            KeyOrChordV::Key(k) => k.spec_span(),
            KeyOrChordV::Chord(c) => c.span,
        }
    }
}

impl KeyOrChord {
    pub fn span(&self) -> (r: Span)
        ensures
            r == self.deep_view().spec_span(),
    {
        match self {
            KeyOrChord::Key(k) => k.span(),
            KeyOrChord::Chord(c) => c.span,
        }
    }
}

/// One row of a layer, ended by a `;` whose span is kept for diagnostics.
#[derive(Debug, PartialEq, Eq)]
pub struct LayerRow {
    pub items: Vec<KeyOrChord>,
    pub semi: Span,
    pub span: Span,
}

/// Ghost model of a [`LayerRow`].
pub struct LayerRowV {
    pub items: Seq<KeyOrChordV>,
    pub semi: Span,
    pub span: Span,
}

impl DeepView for LayerRow {
    type V = LayerRowV;

    open spec fn deep_view(&self) -> LayerRowV {
        LayerRowV { items: self.items.deep_view(), semi: self.semi, span: self.span }
    }
}

/// A `layer <name> { ... }` block.
#[derive(Debug, PartialEq, Eq)]
pub struct Layer {
    pub name: Ident,
    pub rows: Vec<LayerRow>,
    pub span: Span,
}

/// Ghost model of a [`Layer`].
pub struct LayerV {
    pub name: IdentV,
    pub rows: Seq<LayerRowV>,
    pub span: Span,
}

impl DeepView for Layer {
    type V = LayerV;

    open spec fn deep_view(&self) -> LayerV {
        LayerV { name: self.name.deep_view(), rows: self.rows.deep_view(), span: self.span }
    }
}

/// A whole parsed layout file.
#[derive(Debug, PartialEq, Eq)]
pub struct File {
    pub layout: Layout,
    pub options: Vec<Options>,
    pub custom_keys: Vec<CustomKey>,
    pub layers: Vec<Layer>,
    pub span: Span,
}

/// Ghost model of a [`File`].
pub struct FileV {
    pub layout: LayoutV,
    pub options: Seq<OptionsV>,
    pub custom_keys: Seq<CustomKeyV>,
    pub layers: Seq<LayerV>,
    pub span: Span,
}

impl DeepView for File {
    type V = FileV;

    open spec fn deep_view(&self) -> FileV {
        FileV {
            layout: self.layout.deep_view(),
            options: self.options.deep_view(),
            custom_keys: self.custom_keys.deep_view(),
            layers: self.layers.deep_view(),
            span: self.span,
        }
    }
}

} // verus!
