//! Resolution of the layout block and of the layers.
//!
//! Three coordinate spaces are in play: *physical* positions (columns of the
//! literal layout rows, spacers included), *layout* positions (the compacted
//! grid with spacers removed, which layer rows index), and *matrix* positions
//! (the firmware's electrical row/column grid, possibly remapped).  The
//! resolver builds the mappings between them and validates the translation:
//! no two declarations may claim the same matrix position, every row must
//! expand to the same width, and every chord must sit between two plain keys.
//!
//! Resolution is fail-fast and deterministic: rows are walked top to bottom
//! and items left to right, and the first structural error aborts the run.
//! Each `process` function's result is pinned exactly, as a function of its
//! input's model, by the `spec_*` folds below.

use vstd::prelude::*;

use crate::errors::{AppError, AppErrorV};
use crate::maps::{find_pos, str_eq, PosMap};
use crate::{lemma_deep_view_empty, lemma_deep_view_push, res_model};
use crate::syntax::{
    Chord, ChordV, File, FileV, Ident, Key, KeyOrChord, KeyOrChordV, KeyV, Layer, LayerRow,
    LayerRowV, LayerV, Layout, LayoutDefn, LayoutV, Options, OptionsFor, OptionsItem,
    OptionsItemV, OptionsV, Span,
};

verus! {

/// A matrix position: column, then row.
#[derive(Clone, Copy, Debug, PartialEq, Eq, Hash, Structural)]
pub struct MatrixPosition(pub u8, pub u8);

impl DeepView for MatrixPosition {
    type V = MatrixPosition;

    open spec fn deep_view(&self) -> MatrixPosition {
        *self
    }
}

/// What occupies a cell: an inert spacer, or a key at a matrix position.
#[derive(Clone, Copy, Debug, PartialEq, Eq, Structural)]
pub enum KeyAt {
    Space,
    Located(MatrixPosition),
}

impl DeepView for KeyAt {
    type V = KeyAt;

    open spec fn deep_view(&self) -> KeyAt {
        *self
    }
}

/// The backend an option belongs to.
#[derive(Clone, Copy, Debug, PartialEq, Eq, Hash, Structural)]
pub enum OptionKey {
    RustyDilemma,
    KeymapDrawer,
    Formatter,
}

impl DeepView for OptionKey {
    type V = OptionKey;

    open spec fn deep_view(&self) -> OptionKey {
        *self
    }
}

/// The resolved layout block: the three coordinate mappings and the matrix
/// dimensions.
#[derive(Clone, Debug, PartialEq, Eq)]
pub struct LayoutMeta {
    pub phys_to_matrix: PosMap<KeyAt>,
    pub layout_to_matrix: PosMap<KeyAt>,
    pub layout_to_phys: PosMap<(u8, u8)>,
    pub width: u8,
    pub height: u8,
}

/// Ghost model of a [`LayoutMeta`]: the entry sequences of its three maps,
/// in insertion order, plus the dimensions.
pub struct LayoutMetaV {
    pub phys_to_matrix: Seq<((u8, u8), KeyAt)>,
    pub layout_to_matrix: Seq<((u8, u8), KeyAt)>,
    pub layout_to_phys: Seq<((u8, u8), (u8, u8))>,
    pub width: u8,
    pub height: u8,
}

impl DeepView for LayoutMeta {
    type V = LayoutMetaV;

    open spec fn deep_view(&self) -> LayoutMetaV {
        LayoutMetaV {
            phys_to_matrix: self.phys_to_matrix.model(),
            layout_to_matrix: self.layout_to_matrix.model(),
            layout_to_phys: self.layout_to_phys.model(),
            width: self.width,
            height: self.height,
        }
    }
}

/// The growing state of layout resolution: the three mappings plus the
/// claims table that detects overlapping matrix positions.  Claim entries
/// remember the span of the claiming declaration for diagnostics.
pub struct LayoutState {
    pub phys: Seq<((u8, u8), KeyAt)>,
    pub lay: Seq<((u8, u8), KeyAt)>,
    pub l2p: Seq<((u8, u8), (u8, u8))>,
    pub claims: Seq<((u8, u8), Span)>,
}

pub open spec fn empty_layout_state() -> LayoutState {
    LayoutState {
        phys: Seq::empty(),
        lay: Seq::empty(),
        l2p: Seq::empty(),
        claims: Seq::empty(),
    }
}

/// Resolves cells `n..count` of a `Nk` keys declaration sitting at physical
/// column `x`, layout column `xl`, row `y`.  Each cell claims the matrix
/// position equal to its physical position; a position already claimed is an
/// overlap error naming both declarations.
pub open spec fn spec_keys_cells(
    st: LayoutState,
    x: int,
    xl: int,
    y: int,
    n: int,
    count: int,
    span: Span,
) -> Result<LayoutState, AppErrorV>
    decreases count - n,
{
    if n >= count {
        Ok(st)
    } else {
        let mpos = (((x + n) as u8), (y as u8));
        match find_pos(st.claims, mpos) {
            Some(prior) => Err(AppErrorV::OverlappingKeys { span: prior, other_span: span }),
            None => {
                let located = KeyAt::Located(MatrixPosition(mpos.0, mpos.1));
                let lpos = (((xl + n) as u8), (y as u8));
                spec_keys_cells(
                    LayoutState {
                        phys: st.phys.push((mpos, located)),
                        lay: st.lay.push((lpos, located)),
                        l2p: st.l2p.push((lpos, mpos)),
                        claims: st.claims.push((mpos, span)),
                    },
                    x,
                    xl,
                    y,
                    n + 1,
                    count,
                    span,
                )
            },
        }
    }
}

/// Marks cells `n..count` of a `Ns` spacer declaration as inert: spacers
/// claim nothing and get no layout position.
pub open spec fn spec_spaces_cells(st: LayoutState, x: int, y: int, n: int, count: int) -> LayoutState
    decreases count - n,
{
    if n >= count {
        st
    } else {
        spec_spaces_cells(
            LayoutState {
                phys: st.phys.push(((((x + n) as u8), (y as u8)), KeyAt::Space)),
                lay: st.lay,
                l2p: st.l2p,
                claims: st.claims,
            },
            x,
            y,
            n + 1,
            count,
        )
    }
}

/// Resolves the declarations of one layout row from item `j` on, with the
/// physical column at `x` and the layout column at `xl`.  Returns the state
/// and the row's total physical width.  A declaration that would push a
/// coordinate past 255 is a range error.
pub open spec fn spec_row_items(
    st: LayoutState,
    items: Seq<LayoutDefn>,
    j: int,
    x: int,
    xl: int,
    y: int,
) -> Result<(LayoutState, int), AppErrorV>
    decreases items.len() - j,
{
    if j >= items.len() {
        Ok((st, x))
    } else {
        match items[j] {
            LayoutDefn::Keys { count, span } => {
                if x + count > 255 {
                    Err(AppErrorV::CoordinateOutOfRange { span })
                } else {
                    match spec_keys_cells(st, x, xl, y, 0, count as int, span) {
                        Err(e) => Err(e),
                        Ok(st2) => spec_row_items(st2, items, j + 1, x + count, xl + count, y),
                    }
                }
            },
            LayoutDefn::RemappedKey { position, span } => {
                if x + 1 > 255 {
                    Err(AppErrorV::CoordinateOutOfRange { span })
                } else {
                    let mpos = (position, (y as u8));
                    match find_pos(st.claims, mpos) {
                        Some(prior) => Err(
                            AppErrorV::OverlappingKeys { span: prior, other_span: span },
                        ),
                        None => {
                            let located = KeyAt::Located(MatrixPosition(position, y as u8));
                            let ppos = ((x as u8), (y as u8));
                            let lpos = ((xl as u8), (y as u8));
                            spec_row_items(
                                LayoutState {
                                    phys: st.phys.push((ppos, located)),
                                    lay: st.lay.push((lpos, located)),
                                    l2p: st.l2p.push((lpos, ppos)),
                                    claims: st.claims.push((mpos, span)),
                                },
                                items,
                                j + 1,
                                x + 1,
                                xl + 1,
                                y,
                            )
                        },
                    }
                }
            },
            LayoutDefn::Spaces { count, span } => {
                if x + count > 255 {
                    Err(AppErrorV::CoordinateOutOfRange { span })
                } else {
                    spec_row_items(
                        spec_spaces_cells(st, x, y, 0, count as int),
                        items,
                        j + 1,
                        x + count,
                        xl,
                        y,
                    )
                }
            },
        }
    }
}

/// Resolves layout rows from row `k` on.  The first row fixes the expected
/// width; a later row whose expanded width differs is an inconsistent-width
/// error citing the expected and actual counts and the offending row.
pub open spec fn spec_layout_rows(
    st: LayoutState,
    rows: Seq<crate::syntax::LayoutRowV>,
    k: int,
    width: Option<u8>,
) -> Result<(LayoutState, Option<u8>), AppErrorV>
    decreases rows.len() - k,
{
    if k >= rows.len() {
        Ok((st, width))
    } else {
        match spec_row_items(st, rows[k].items, 0, 0, 0, k) {
            Err(e) => Err(e),
            Ok((st2, x)) => match width {
                None => spec_layout_rows(st2, rows, k + 1, Some(x as u8)),
                Some(w) => if x != w {
                    Err(
                        AppErrorV::InconsistentMatrixWidth {
                            bad_row: rows[k].span,
                            got: x as u8,
                            expected: w,
                        },
                    )
                } else {
                    spec_layout_rows(st2, rows, k + 1, Some(w))
                },
            },
        }
    }
}

/// The exact result of resolving a layout block.
pub open spec fn spec_layout_process(layout: LayoutV) -> Result<LayoutMetaV, AppErrorV> {
    if layout.rows.len() > 255 {
        Err(AppErrorV::CoordinateOutOfRange { span: layout.span })
    } else {
        match spec_layout_rows(empty_layout_state(), layout.rows, 0, None) {
            Err(e) => Err(e),
            Ok((st, width)) => Ok(
                LayoutMetaV {
                    phys_to_matrix: st.phys,
                    layout_to_matrix: st.lay,
                    layout_to_phys: st.l2p,
                    width: match width {
                        Some(w) => w,
                        None => 0,
                    },
                    height: layout.rows.len() as u8,
                },
            ),
        }
    }
}

/// The growing exec state of layout resolution; its model is a
/// [`LayoutState`].
struct LayoutBuild {
    phys: PosMap<KeyAt>,
    lay: PosMap<KeyAt>,
    l2p: PosMap<(u8, u8)>,
    claims: PosMap<Span>,
}

impl LayoutBuild {
    spec fn model(self) -> LayoutState {
        LayoutState {
            phys: self.phys.model(),
            lay: self.lay.model(),
            l2p: self.l2p.model(),
            claims: self.claims.model(),
        }
    }

    fn keys_cells(&mut self, x: usize, xl: usize, y: u8, count: u8, span: Span) -> (r: Result<
        (),
        AppError,
    >)
        requires
            x + count <= 255,
            xl <= x,
        ensures
            ({
                let sres = spec_keys_cells(
                    old(self).model(),
                    x as int,
                    xl as int,
                    y as int,
                    0,
                    count as int,
                    span,
                );
                match r {
                    Ok(_) => sres == Ok::<LayoutState, AppErrorV>(final(self).model()),
                    Err(e) => sres == Err::<LayoutState, AppErrorV>(e.deep_view()),
                }
            }),
    {
        let mut n: usize = 0;
        while n < count as usize
            invariant
                0 <= n <= count,
                x + count <= 255,
                xl <= x,
                spec_keys_cells(
                    old(self).model(),
                    x as int,
                    xl as int,
                    y as int,
                    0,
                    count as int,
                    span,
                ) == spec_keys_cells(
                    self.model(),
                    x as int,
                    xl as int,
                    y as int,
                    n as int,
                    count as int,
                    span,
                ),
            decreases count - n,
        {
            let mpos = ((x + n) as u8, y);
            match self.claims.get(mpos) {
                Some(prior) => {
                    return Err(AppError::OverlappingKeys { span: prior, other_span: span });
                },
                None => {},
            }
            let located = KeyAt::Located(MatrixPosition(mpos.0, mpos.1));
            let lpos = ((xl + n) as u8, y);
            self.phys.insert(mpos, located);
            self.lay.insert(lpos, located);
            self.l2p.insert(lpos, mpos);
            self.claims.insert(mpos, span);
            n = n + 1;
        }
        Ok(())
    }

    fn spaces_cells(&mut self, x: usize, y: u8, count: u8)
        requires
            x + count <= 255,
        ensures
            final(self).model() == spec_spaces_cells(
                old(self).model(),
                x as int,
                y as int,
                0,
                count as int,
            ),
    {
        let mut n: usize = 0;
        while n < count as usize
            invariant
                0 <= n <= count,
                x + count <= 255,
                spec_spaces_cells(old(self).model(), x as int, y as int, 0, count as int)
                    == spec_spaces_cells(self.model(), x as int, y as int, n as int, count as int),
            decreases count - n,
        {
            self.phys.insert(((x + n) as u8, y), KeyAt::Space);
            n = n + 1;
        }
    }

    fn process_row(&mut self, items: &Vec<LayoutDefn>, y: u8) -> (r: Result<u8, AppError>)
        ensures
            ({
                let sres = spec_row_items(
                    old(self).model(),
                    items.deep_view(),
                    0,
                    0,
                    0,
                    y as int,
                );
                match r {
                    Ok(w) => sres == Ok::<(LayoutState, int), AppErrorV>(
                        (final(self).model(), w as int),
                    ),
                    Err(e) => sres == Err::<(LayoutState, int), AppErrorV>(e.deep_view()),
                }
            }),
    {
        let mut x: usize = 0;
        let mut xl: usize = 0;
        let mut j: usize = 0;
        while j < items.len()
            invariant
                0 <= j <= items.len(),
                xl <= x <= 255,
                spec_row_items(old(self).model(), items.deep_view(), 0, 0, 0, y as int)
                    == spec_row_items(
                    self.model(),
                    items.deep_view(),
                    j as int,
                    x as int,
                    xl as int,
                    y as int,
                ),
            decreases items.len() - j,
        {
            let d = items[j];
            proof {
                assert(items.deep_view()[j as int] == d);
            }
            match d {
                LayoutDefn::Keys { count, span } => {
                    if count as usize > 255 - x {
                        return Err(AppError::CoordinateOutOfRange { span });
                    }
                    match self.keys_cells(x, xl, y, count, span) {
                        Err(e) => {
                            return Err(e);
                        },
                        Ok(_) => {},
                    }
                    x = x + count as usize;
                    xl = xl + count as usize;
                },
                LayoutDefn::RemappedKey { position, span } => {
                    if 1 > 255 - x {
                        return Err(AppError::CoordinateOutOfRange { span });
                    }
                    let mpos = (position, y);
                    match self.claims.get(mpos) {
                        Some(prior) => {
                            return Err(
                                AppError::OverlappingKeys { span: prior, other_span: span },
                            );
                        },
                        None => {},
                    }
                    let located = KeyAt::Located(MatrixPosition(position, y));
                    let ppos = (x as u8, y);
                    let lpos = (xl as u8, y);
                    self.phys.insert(ppos, located);
                    self.lay.insert(lpos, located);
                    self.l2p.insert(lpos, ppos);
                    self.claims.insert(mpos, span);
                    x = x + 1;
                    xl = xl + 1;
                },
                LayoutDefn::Spaces { count, span } => {
                    if count as usize > 255 - x {
                        return Err(AppError::CoordinateOutOfRange { span });
                    }
                    self.spaces_cells(x, y, count);
                    x = x + count as usize;
                },
            }
            j = j + 1;
        }
        Ok(x as u8)
    }
}

impl LayoutMeta {
    /// Resolves the layout block into the three coordinate mappings and the
    /// matrix dimensions.
    ///
    /// The result is pinned exactly by [`spec_layout_process`]: on success
    /// every physical cell was visited once and every key claim landed on a
    /// fresh matrix position; otherwise the first error in resolution order
    /// is returned — an overlap names both claiming declarations, a width
    /// mismatch names the expected (first row) and actual widths.
    pub fn process(layout: &Layout) -> (r: Result<LayoutMeta, AppError>)
        requires
            layout.rows.len() > 0,
        ensures
            res_model(r) == spec_layout_process(layout.deep_view()),
    {
        if layout.rows.len() > 255 {
            return Err(AppError::CoordinateOutOfRange { span: layout.span });
        }
        let mut b = LayoutBuild {
            phys: PosMap::new(),
            lay: PosMap::new(),
            l2p: PosMap::new(),
            claims: PosMap::new(),
        };
        let mut width: Option<u8> = None;
        let mut k: usize = 0;
        while k < layout.rows.len()
            invariant
                0 < layout.rows.len() <= 255,
                0 <= k <= layout.rows.len(),
                width is Some <==> k > 0,
                spec_layout_rows(empty_layout_state(), layout.deep_view().rows, 0, None)
                    == spec_layout_rows(b.model(), layout.deep_view().rows, k as int, width),
            decreases layout.rows.len() - k,
        {
            let row = &layout.rows[k];
            proof {
                assert(layout.deep_view().rows[k as int] == row.deep_view());
            }
            let w = match b.process_row(&row.items, k as u8) {
                Err(e) => {
                    return Err(e);
                },
                Ok(w) => w,
            };
            match width {
                None => {
                    width = Some(w);
                },
                Some(we) => {
                    if w != we {
                        return Err(
                            AppError::InconsistentMatrixWidth {
                                bad_row: row.span,
                                got: w,
                                expected: we,
                            },
                        );
                    }
                },
            }
            k = k + 1;
        }
        let w = width.unwrap();
        Ok(
            LayoutMeta {
                phys_to_matrix: b.phys,
                layout_to_matrix: b.lay,
                layout_to_phys: b.l2p,
                width: w,
                height: layout.rows.len() as u8,
            },
        )
    }
}

/// A chord bound to its place in the grid: the matrix positions of the keys
/// immediately to its left and right, and the left key's layout position.
#[derive(Debug, PartialEq, Eq)]
pub struct ResolvedChord {
    pub chord: Chord,
    pub left_layout: (u8, u8),
    pub left: MatrixPosition,
    pub right: MatrixPosition,
}

/// Ghost model of a [`ResolvedChord`].
pub struct ResolvedChordV {
    pub chord: ChordV,
    pub left_layout: (u8, u8),
    pub left: MatrixPosition,
    pub right: MatrixPosition,
}

impl DeepView for ResolvedChord {
    type V = ResolvedChordV;

    open spec fn deep_view(&self) -> ResolvedChordV {
        ResolvedChordV {
            chord: self.chord.deep_view(),
            left_layout: self.left_layout,
            left: self.left,
            right: self.right,
        }
    }
}

/// A key bound to its place in all three coordinate spaces.
#[derive(Debug, PartialEq, Eq)]
pub struct ResolvedKey {
    pub key: Key,
    pub layout_pos: (u8, u8),
    pub physical_pos: (u8, u8),
    pub matrix_pos: MatrixPosition,
}

/// Ghost model of a [`ResolvedKey`].
pub struct ResolvedKeyV {
    pub key: KeyV,
    pub layout_pos: (u8, u8),
    pub physical_pos: (u8, u8),
    pub matrix_pos: MatrixPosition,
}

impl DeepView for ResolvedKey {
    type V = ResolvedKeyV;

    open spec fn deep_view(&self) -> ResolvedKeyV {
        ResolvedKeyV {
            key: self.key.deep_view(),
            layout_pos: self.layout_pos,
            physical_pos: self.physical_pos,
            matrix_pos: self.matrix_pos,
        }
    }
}

/// One resolved layer: its name and its keys and chords in source order.
#[derive(Debug, PartialEq, Eq)]
pub struct LayerMeta {
    pub name: String,
    pub chords: Vec<ResolvedChord>,
    pub keys: Vec<ResolvedKey>,
}

/// Ghost model of a [`LayerMeta`].
pub struct LayerMetaV {
    pub name: Seq<char>,
    pub chords: Seq<ResolvedChordV>,
    pub keys: Seq<ResolvedKeyV>,
}

impl DeepView for LayerMeta {
    type V = LayerMetaV;

    open spec fn deep_view(&self) -> LayerMetaV {
        LayerMetaV {
            name: self.name.deep_view(),
            chords: self.chords.deep_view(),
            keys: self.keys.deep_view(),
        }
    }
}

/// The growing state of one layer's resolution.
pub struct LayerState {
    pub keys: Seq<ResolvedKeyV>,
    pub chords: Seq<ResolvedChordV>,
}

/// Resolves the tokens of one layer row from item `j` on, with the layout
/// column cursor at `x`.  A key consumes the layout position under the
/// cursor and advances it; a chord consumes nothing and is only valid
/// strictly between two plain keys of the same row.
pub open spec fn spec_layer_items(
    st: LayerState,
    lm: LayoutMetaV,
    items: Seq<KeyOrChordV>,
    j: int,
    x: int,
    y: int,
    row_span: Span,
    semi: Span,
) -> Result<LayerState, AppErrorV>
    decreases items.len() - j,
{
    if j >= items.len() {
        Ok(st)
    } else {
        match items[j] {
            KeyOrChordV::Key(k) => {
                if x > 255 {
                    Err(AppErrorV::ImpossibleKeyLocation { key: k.spec_span() })
                } else {
                    let lpos = ((x as u8), (y as u8));
                    match find_pos(lm.layout_to_phys, lpos) {
                        None => Err(AppErrorV::ImpossibleKeyLocation { key: k.spec_span() }),
                        Some(ppos) => match find_pos(lm.layout_to_matrix, lpos) {
                            Some(KeyAt::Located(m)) => spec_layer_items(
                                LayerState {
                                    keys: st.keys.push(
                                        ResolvedKeyV {
                                            key: k,
                                            layout_pos: lpos,
                                            physical_pos: ppos,
                                            matrix_pos: m,
                                        },
                                    ),
                                    chords: st.chords,
                                },
                                lm,
                                items,
                                j + 1,
                                x + 1,
                                y,
                                row_span,
                                semi,
                            ),
                            _ => Err(AppErrorV::ImpossibleKeyLocation { key: k.spec_span() }),
                        },
                    }
                }
            },
            KeyOrChordV::Chord(c) => {
                let prev_is_key = j >= 1 && items[j - 1] is Key;
                let next_is_key = j + 1 < items.len() && items[j + 1] is Key;
                if prev_is_key && next_is_key {
                    if x < 1 || x > 255 {
                        Err(AppErrorV::ImpossibleKeyLocation { key: c.span })
                    } else {
                        match find_pos(lm.layout_to_matrix, (((x - 1) as u8), (y as u8))) {
                            Some(KeyAt::Located(left)) => match find_pos(
                                lm.layout_to_matrix,
                                ((x as u8), (y as u8)),
                            ) {
                                Some(KeyAt::Located(right)) => spec_layer_items(
                                    LayerState {
                                        keys: st.keys,
                                        chords: st.chords.push(
                                            ResolvedChordV {
                                                chord: c,
                                                left_layout: (((x - 1) as u8), (y as u8)),
                                                left,
                                                right,
                                            },
                                        ),
                                    },
                                    lm,
                                    items,
                                    j + 1,
                                    x,
                                    y,
                                    row_span,
                                    semi,
                                ),
                                _ => Err(AppErrorV::ImpossibleKeyLocation { key: c.span }),
                            },
                            _ => Err(AppErrorV::ImpossibleKeyLocation { key: c.span }),
                        }
                    }
                } else {
                    let prev_span = if j == 0 {
                        Span { offset: row_span.offset, len: 0 }
                    } else {
                        items[j - 1].spec_span()
                    };
                    let next_span = if j + 1 < items.len() {
                        items[j + 1].spec_span()
                    } else {
                        Span { offset: semi.offset, len: 0 }
                    };
                    Err(
                        AppErrorV::BadChordPositions {
                            bad_chord: c.span,
                            prev_item: prev_span,
                            next_item: next_span,
                        },
                    )
                }
            },
        }
    }
}

/// Resolves a layer's rows from row `k` on.
pub open spec fn spec_layer_rows(
    st: LayerState,
    lm: LayoutMetaV,
    rows: Seq<LayerRowV>,
    k: int,
) -> Result<LayerState, AppErrorV>
    decreases rows.len() - k,
{
    if k >= rows.len() {
        Ok(st)
    } else if k > 255 {
        Err(AppErrorV::CoordinateOutOfRange { span: rows[k].span })
    } else {
        match spec_layer_items(st, lm, rows[k].items, 0, 0, k, rows[k].span, rows[k].semi) {
            Err(e) => Err(e),
            Ok(st2) => spec_layer_rows(st2, lm, rows, k + 1),
        }
    }
}

/// The exact result of resolving one layer against a resolved layout.
pub open spec fn spec_layer_process(lm: LayoutMetaV, layer: LayerV) -> Result<
    LayerMetaV,
    AppErrorV,
> {
    match spec_layer_rows(LayerState { keys: Seq::empty(), chords: Seq::empty() }, lm, layer.rows, 0) {
        Err(e) => Err(e),
        Ok(st) => Ok(LayerMetaV { name: layer.name.s, chords: st.chords, keys: st.keys }),
    }
}

/// Resolves the tokens of one layer row, appending to `keys` and `chords`.
fn resolve_layer_row(
    lm: &LayoutMeta,
    keys: &mut Vec<ResolvedKey>,
    chords: &mut Vec<ResolvedChord>,
    row: &LayerRow,
    y: u8,
) -> (r: Result<(), AppError>)
    ensures
        ({
            let sres = spec_layer_items(
                LayerState { keys: old(keys).deep_view(), chords: old(chords).deep_view() },
                lm.deep_view(),
                row.deep_view().items,
                0,
                0,
                y as int,
                row.span,
                row.semi,
            );
            match r {
                Ok(_) => sres == Ok::<LayerState, AppErrorV>(
                    LayerState { keys: final(keys).deep_view(), chords: final(chords).deep_view() },
                ),
                Err(e) => sres == Err::<LayerState, AppErrorV>(e.deep_view()),
            }
        }),
{
    let mut x: usize = 0;
    let mut j: usize = 0;
    while j < row.items.len()
        invariant
            0 <= j <= row.items.len(),
            x <= 256,
            spec_layer_items(
                LayerState { keys: old(keys).deep_view(), chords: old(chords).deep_view() },
                lm.deep_view(),
                row.deep_view().items,
                0,
                0,
                y as int,
                row.span,
                row.semi,
            ) == spec_layer_items(
                LayerState { keys: keys.deep_view(), chords: chords.deep_view() },
                lm.deep_view(),
                row.deep_view().items,
                j as int,
                x as int,
                y as int,
                row.span,
                row.semi,
            ),
        decreases row.items.len() - j,
    {
        let item = &row.items[j];
        proof {
            assert(row.deep_view().items[j as int] == row.items[j as int].deep_view());
        }
        match item {
            KeyOrChord::Key(key) => {
                if x > 255 {
                    return Err(AppError::ImpossibleKeyLocation { key: key.span() });
                }
                let lpos = (x as u8, y);
                match lm.layout_to_phys.get(lpos) {
                    None => {
                        return Err(AppError::ImpossibleKeyLocation { key: key.span() });
                    },
                    Some(ppos) => {
                        match lm.layout_to_matrix.get(lpos) {
                            Some(KeyAt::Located(m)) => {
                                let rk = ResolvedKey {
                                    key: key.clone(),
                                    layout_pos: lpos,
                                    physical_pos: ppos,
                                    matrix_pos: m,
                                };
                                let ghost old_keys = *keys;
                                keys.push(rk);
                                proof {
                                    lemma_deep_view_push(old_keys, *keys, rk);
                                }
                                x = x + 1;
                            },
                            _ => {
                                return Err(AppError::ImpossibleKeyLocation { key: key.span() });
                            },
                        }
                    },
                }
            },
            KeyOrChord::Chord(chord) => {
                let prev_is_key = j >= 1 && (match &row.items[j - 1] {
                    KeyOrChord::Key(_) => true,
                    _ => false,
                });
                let next_is_key = j + 1 < row.items.len() && (match &row.items[j + 1] {
                    KeyOrChord::Key(_) => true,
                    _ => false,
                });
                proof {
                    if j >= 1 {
                        assert(row.deep_view().items[j - 1] == row.items[j - 1].deep_view());
                    }
                    if j + 1 < row.items.len() {
                        assert(row.deep_view().items[j + 1] == row.items[j + 1].deep_view());
                    }
                }
                if prev_is_key && next_is_key {
                    if x < 1 || x > 255 {
                        return Err(AppError::ImpossibleKeyLocation { key: chord.span });
                    }
                    let left_at = lm.layout_to_matrix.get(((x - 1) as u8, y));
                    let left = match left_at {
                        Some(KeyAt::Located(l)) => l,
                        _ => {
                            return Err(AppError::ImpossibleKeyLocation { key: chord.span });
                        },
                    };
                    let right_at = lm.layout_to_matrix.get((x as u8, y));
                    let right = match right_at {
                        Some(KeyAt::Located(rm)) => rm,
                        _ => {
                            return Err(AppError::ImpossibleKeyLocation { key: chord.span });
                        },
                    };
                    let rc = ResolvedChord {
                        chord: chord.clone(),
                        left_layout: ((x - 1) as u8, y),
                        left,
                        right,
                    };
                    let ghost old_chords = *chords;
                    chords.push(rc);
                    proof {
                        lemma_deep_view_push(old_chords, *chords, rc);
                    }
                } else {
                    let prev_item = if j == 0 {
                        row.span.start_singleton()
                    } else {
                        row.items[j - 1].span()
                    };
                    let next_item = if j + 1 < row.items.len() {
                        row.items[j + 1].span()
                    } else {
                        row.semi.start_singleton()
                    };
                    return Err(
                        AppError::BadChordPositions {
                            bad_chord: chord.span,
                            prev_item,
                            next_item,
                        },
                    );
                }
            },
        }
        j = j + 1;
    }
    Ok(())
}

impl LayerMeta {
    /// Resolves one layer's rows against the resolved layout.
    ///
    /// Every key is bound to the layout position under the row's cursor and
    /// to its physical and matrix positions; a key beyond the declared grid
    /// is an impossible-location error.  A chord is accepted exactly when it
    /// sits strictly between two plain keys of its row, and is bound to the
    /// matrix positions of those two keys; otherwise the error names the
    /// chord and the spans where keys were expected.
    pub fn process(layout_meta: &LayoutMeta, layer: &Layer) -> (r: Result<LayerMeta, AppError>)
        ensures
            res_model(r) == spec_layer_process(layout_meta.deep_view(), layer.deep_view()),
    {
        let mut keys: Vec<ResolvedKey> = Vec::new();
        let mut chords: Vec<ResolvedChord> = Vec::new();
        proof {
            lemma_deep_view_empty(keys);
            lemma_deep_view_empty(chords);
        }
        let mut k: usize = 0;
        while k < layer.rows.len()
            invariant
                0 <= k <= layer.rows.len(),
                k <= 256,
                spec_layer_rows(
                    LayerState { keys: Seq::empty(), chords: Seq::empty() },
                    layout_meta.deep_view(),
                    layer.deep_view().rows,
                    0,
                ) == spec_layer_rows(
                    LayerState { keys: keys.deep_view(), chords: chords.deep_view() },
                    layout_meta.deep_view(),
                    layer.deep_view().rows,
                    k as int,
                ),
            decreases layer.rows.len() - k,
        {
            let row = &layer.rows[k];
            proof {
                assert(layer.deep_view().rows[k as int] == layer.rows[k as int].deep_view());
            }
            if k > 255 {
                return Err(AppError::CoordinateOutOfRange { span: row.span });
            }
            match resolve_layer_row(layout_meta, &mut keys, &mut chords, row, k as u8) {
                Err(e) => {
                    return Err(e);
                },
                Ok(_) => {},
            }
            k = k + 1;
        }
        let name = layer.name.s.clone();
        Ok(LayerMeta { name, keys, chords })
    }
}

/// The ordered layer-name table and the resolved layers, in declaration
/// order.  A layer's index in declaration order is its firmware layer index.
#[derive(Debug, PartialEq, Eq)]
pub struct LayersMeta {
    pub layer_map: Vec<(String, usize)>,
    pub layers: Vec<LayerMeta>,
}

/// Ghost model of a [`LayersMeta`].
pub struct LayersMetaV {
    pub layer_map: Seq<(Seq<char>, usize)>,
    pub layers: Seq<LayerMetaV>,
}

impl DeepView for LayersMeta {
    type V = LayersMetaV;

    open spec fn deep_view(&self) -> LayersMetaV {
        LayersMetaV { layer_map: self.layer_map.deep_view(), layers: self.layers.deep_view() }
    }
}

/// First index with the given name in a name-to-index table.
pub open spec fn str_index_from(s: Seq<(Seq<char>, usize)>, k: Seq<char>, i: int) -> Option<int>
    decreases s.len() - i,
{
    if i < 0 || i >= s.len() {
        None
    } else if s[i].0 == k {
        Some(i)
    } else {
        str_index_from(s, k, i + 1)
    }
}

/// First-match lookup in a name-to-index table.
pub open spec fn spec_layer_index(s: Seq<(Seq<char>, usize)>, k: Seq<char>) -> Option<usize> {
    match str_index_from(s, k, 0) {
        Some(i) => Some(s[i].1),
        None => None,
    }
}

/// Inserts a name into the table, replacing the entry in place when the name
/// is already present (the last declaration of a name wins).
pub open spec fn spec_map_insert(
    s: Seq<(Seq<char>, usize)>,
    name: Seq<char>,
    idx: usize,
) -> Seq<(Seq<char>, usize)> {
    match str_index_from(s, name, 0) {
        Some(i) => s.update(i, (name, idx)),
        None => s.push((name, idx)),
    }
}

/// The layer-name table after the first `k` layers.
pub open spec fn spec_layer_map(layers: Seq<LayerV>, k: int) -> Seq<(Seq<char>, usize)>
    decreases k,
{
    if k <= 0 {
        Seq::empty()
    } else {
        spec_map_insert(spec_layer_map(layers, k - 1), layers[k - 1].name.s, (k - 1) as usize)
    }
}

/// Resolves layers from index `k` on, accumulating their metadata.
pub open spec fn spec_layer_metas(
    acc: Seq<LayerMetaV>,
    lm: LayoutMetaV,
    layers: Seq<LayerV>,
    k: int,
) -> Result<Seq<LayerMetaV>, AppErrorV>
    decreases layers.len() - k,
{
    if k >= layers.len() {
        Ok(acc)
    } else {
        match spec_layer_process(lm, layers[k]) {
            Err(e) => Err(e),
            Ok(m) => spec_layer_metas(acc.push(m), lm, layers, k + 1),
        }
    }
}

/// The exact result of resolving all layers against a resolved layout.
pub open spec fn spec_layers_process(lm: LayoutMetaV, layers: Seq<LayerV>) -> Result<
    LayersMetaV,
    AppErrorV,
> {
    match spec_layer_metas(Seq::empty(), lm, layers, 0) {
        Err(e) => Err(e),
        Ok(ms) => Ok(
            LayersMetaV { layer_map: spec_layer_map(layers, layers.len() as int), layers: ms },
        ),
    }
}

/// Inserts one layer name into the name-to-index table.
fn layer_map_insert(map: &mut Vec<(String, usize)>, name: &Ident, idx: usize)
    ensures
        final(map).deep_view() == spec_map_insert(old(map).deep_view(), name.deep_view().s, idx),
{
    let n = map.len();
    let mut i: usize = 0;
    while i < n
        invariant
            0 <= i <= n,
            *map == *old(map),
            n == map.len(),
            str_index_from(map.deep_view(), name.deep_view().s, 0) == str_index_from(
                map.deep_view(),
                name.deep_view().s,
                i as int,
            ),
        decreases n - i,
    {
        if str_eq(map[i].0.as_str(), name.s.as_str()) {
            let ghost pre = *map;
            let pair = (name.s.clone(), idx);
            let ghost pairv = pair.deep_view();
            map.remove(i);
            map.insert(i, pair);
            proof {
                assert(map@ =~= pre@.update(i as int, pair));
                assert(map.deep_view() =~= pre.deep_view().update(i as int, pairv));
                assert(str_index_from(pre.deep_view(), name.deep_view().s, 0) == Some(i as int));
            }
            return ;
        }
        i = i + 1;
    }
    let ghost pre = *map;
    let pair = (name.s.clone(), idx);
    map.push(pair);
    proof {
        lemma_deep_view_push(pre, *map, pair);
        assert(str_index_from(pre.deep_view(), name.deep_view().s, 0) is None);
    }
}

impl LayersMeta {
    /// Builds the layer-name table and resolves every layer, in declaration
    /// order.
    pub fn process(layout_meta: &LayoutMeta, layers: &Vec<Layer>) -> (r: Result<
        LayersMeta,
        AppError,
    >)
        ensures
            res_model(r) == spec_layers_process(layout_meta.deep_view(), layers.deep_view()),
    {
        let mut layer_map: Vec<(String, usize)> = Vec::new();
        proof {
            lemma_deep_view_empty(layer_map);
        }
        let mut i: usize = 0;
        while i < layers.len()
            invariant
                0 <= i <= layers.len(),
                layer_map.deep_view() == spec_layer_map(layers.deep_view(), i as int),
            decreases layers.len() - i,
        {
            proof {
                assert(layers.deep_view()[i as int] == layers[i as int].deep_view());
            }
            layer_map_insert(&mut layer_map, &layers[i].name, i);
            i = i + 1;
        }
        let mut processed: Vec<LayerMeta> = Vec::new();
        proof {
            lemma_deep_view_empty(processed);
        }
        let mut k: usize = 0;
        while k < layers.len()
            invariant
                0 <= k <= layers.len(),
                spec_layer_metas(
                    Seq::empty(),
                    layout_meta.deep_view(),
                    layers.deep_view(),
                    0,
                ) == spec_layer_metas(
                    processed.deep_view(),
                    layout_meta.deep_view(),
                    layers.deep_view(),
                    k as int,
                ),
            decreases layers.len() - k,
        {
            proof {
                assert(layers.deep_view()[k as int] == layers[k as int].deep_view());
            }
            match LayerMeta::process(layout_meta, &layers[k]) {
                Err(e) => {
                    return Err(e);
                },
                Ok(m) => {
                    let ghost pre = processed;
                    let ghost mv = m.deep_view();
                    processed.push(m);
                    proof {
                        assert(processed.deep_view() =~= pre.deep_view().push(mv));
                    }
                },
            }
            k = k + 1;
        }
        Ok(LayersMeta { layer_map, layers: processed })
    }
}

/// The options table: one entry per (backend, option name), the last
/// declaration of a pair winning.
#[derive(Debug, PartialEq, Eq)]
pub struct OptionsMeta {
    pub options: Vec<(OptionKey, String, String)>,
}

/// Ghost model of an [`OptionsMeta`].
pub struct OptionsMetaV {
    pub options: Seq<(OptionKey, Seq<char>, Seq<char>)>,
}

impl DeepView for OptionsMeta {
    type V = OptionsMetaV;

    open spec fn deep_view(&self) -> OptionsMetaV {
        OptionsMetaV { options: self.options.deep_view() }
    }
}

/// The backend tag of an options block.
pub open spec fn spec_backend(f: OptionsFor) -> OptionKey {
    match f {
        OptionsFor::RustyDilemma(_) => OptionKey::RustyDilemma,
        OptionsFor::KeymapDrawer(_) => OptionKey::KeymapDrawer,
        OptionsFor::Formatter(_) => OptionKey::Formatter,
    }
}

/// First index with the given (backend, name) pair in the options table.
pub open spec fn opt_index_from(
    s: Seq<(OptionKey, Seq<char>, Seq<char>)>,
    k: OptionKey,
    name: Seq<char>,
    i: int,
) -> Option<int>
    decreases s.len() - i,
{
    if i < 0 || i >= s.len() {
        None
    } else if s[i].0 == k && s[i].1 == name {
        Some(i)
    } else {
        opt_index_from(s, k, name, i + 1)
    }
}

/// The value bound to a (backend, name) pair, if any.
pub open spec fn spec_option_value(
    s: Seq<(OptionKey, Seq<char>, Seq<char>)>,
    k: OptionKey,
    name: Seq<char>,
) -> Option<Seq<char>> {
    match opt_index_from(s, k, name, 0) {
        Some(i) => Some(s[i].2),
        None => None,
    }
}

/// Binds a (backend, name) pair, replacing in place when already bound.
pub open spec fn spec_opts_insert(
    s: Seq<(OptionKey, Seq<char>, Seq<char>)>,
    k: OptionKey,
    name: Seq<char>,
    value: Seq<char>,
) -> Seq<(OptionKey, Seq<char>, Seq<char>)> {
    match opt_index_from(s, k, name, 0) {
        Some(i) => s.update(i, (k, name, value)),
        None => s.push((k, name, value)),
    }
}

/// Folds the items of one options block into the table, from item `j` on.
pub open spec fn spec_options_items(
    s: Seq<(OptionKey, Seq<char>, Seq<char>)>,
    k: OptionKey,
    items: Seq<OptionsItemV>,
    j: int,
) -> Seq<(OptionKey, Seq<char>, Seq<char>)>
    decreases items.len() - j,
{
    if j >= items.len() {
        s
    } else {
        spec_options_items(
            spec_opts_insert(s, k, items[j].name.s, items[j].value.text),
            k,
            items,
            j + 1,
        )
    }
}

/// Folds the options blocks into the table, from block `i` on.
pub open spec fn spec_options_blocks(
    s: Seq<(OptionKey, Seq<char>, Seq<char>)>,
    blocks: Seq<OptionsV>,
    i: int,
) -> Seq<(OptionKey, Seq<char>, Seq<char>)>
    decreases blocks.len() - i,
{
    if i >= blocks.len() {
        s
    } else {
        spec_options_blocks(
            spec_options_items(s, spec_backend(blocks[i].for_), blocks[i].items, 0),
            blocks,
            i + 1,
        )
    }
}

/// The exact options table built from the options blocks.
pub open spec fn spec_options_process(blocks: Seq<OptionsV>) -> OptionsMetaV {
    OptionsMetaV { options: spec_options_blocks(Seq::empty(), blocks, 0) }
}

/// Binds one option, replacing any earlier binding of the same pair.
fn options_insert(options: &mut Vec<(OptionKey, String, String)>, k: OptionKey, name: &String, value: &String)
    ensures
        final(options).deep_view() == spec_opts_insert(
            old(options).deep_view(),
            k,
            name.deep_view(),
            value.deep_view(),
        ),
{
    let n = options.len();
    let mut i: usize = 0;
    while i < n
        invariant
            0 <= i <= n,
            *options == *old(options),
            n == options.len(),
            opt_index_from(options.deep_view(), k, name.deep_view(), 0) == opt_index_from(
                options.deep_view(),
                k,
                name.deep_view(),
                i as int,
            ),
        decreases n - i,
    {
        let same_backend = match (options[i].0, k) {
            (OptionKey::RustyDilemma, OptionKey::RustyDilemma) => true,
            (OptionKey::KeymapDrawer, OptionKey::KeymapDrawer) => true,
            (OptionKey::Formatter, OptionKey::Formatter) => true,
            _ => false,
        };
        if same_backend && str_eq(options[i].1.as_str(), name.as_str()) {
            let ghost pre = *options;
            let entry = (k, name.clone(), value.clone());
            let ghost entryv = entry.deep_view();
            options.remove(i);
            options.insert(i, entry);
            proof {
                assert(options@ =~= pre@.update(i as int, entry));
                assert(options.deep_view() =~= pre.deep_view().update(i as int, entryv));
                assert(opt_index_from(pre.deep_view(), k, name.deep_view(), 0) == Some(i as int));
            }
            return ;
        }
        i = i + 1;
    }
    let ghost pre = *options;
    let entry = (k, name.clone(), value.clone());
    options.push(entry);
    proof {
        lemma_deep_view_push(pre, *options, entry);
        assert(opt_index_from(pre.deep_view(), k, name.deep_view(), 0) is None);
    }
}

/// Folds one options block into the table.
fn options_block(options: &mut Vec<(OptionKey, String, String)>, k: OptionKey, items: &Vec<OptionsItem>)
    ensures
        final(options).deep_view() == spec_options_items(
            old(options).deep_view(),
            k,
            items.deep_view(),
            0,
        ),
{
    let mut j: usize = 0;
    while j < items.len()
        invariant
            0 <= j <= items.len(),
            spec_options_items(old(options).deep_view(), k, items.deep_view(), 0)
                == spec_options_items(options.deep_view(), k, items.deep_view(), j as int),
        decreases items.len() - j,
    {
        proof {
            assert(items.deep_view()[j as int] == items[j as int].deep_view());
        }
        options_insert(options, k, &items[j].name.s, &items[j].value.text);
        j = j + 1;
    }
}

impl OptionsMeta {
    /// Builds the (backend, name) → value table from the options blocks.
    /// The last declaration of a pair wins.
    pub fn process(options: &Vec<Options>) -> (r: Self)
        ensures
            r.deep_view() == spec_options_process(options.deep_view()),
    {
        let mut resolved: Vec<(OptionKey, String, String)> = Vec::new();
        proof {
            lemma_deep_view_empty(resolved);
        }
        let mut i: usize = 0;
        while i < options.len()
            invariant
                0 <= i <= options.len(),
                spec_options_blocks(Seq::empty(), options.deep_view(), 0) == spec_options_blocks(
                    resolved.deep_view(),
                    options.deep_view(),
                    i as int,
                ),
            decreases options.len() - i,
        {
            proof {
                assert(options.deep_view()[i as int] == options[i as int].deep_view());
            }
            let block = &options[i];
            let for_ = match block.for_ {
                OptionsFor::RustyDilemma(_) => OptionKey::RustyDilemma,
                OptionsFor::KeymapDrawer(_) => OptionKey::KeymapDrawer,
                OptionsFor::Formatter(_) => OptionKey::Formatter,
            };
            options_block(&mut resolved, for_, &block.items);
            i = i + 1;
        }
        OptionsMeta { options: resolved }
    }
}

/// Everything the emitters need: the options table, the resolved layout and
/// the resolved layers.
#[derive(Debug, PartialEq, Eq)]
pub struct Metadata {
    pub options: OptionsMeta,
    pub layout: LayoutMeta,
    pub layers: LayersMeta,
}

/// Ghost model of a [`Metadata`].
pub struct MetadataV {
    pub options: OptionsMetaV,
    pub layout: LayoutMetaV,
    pub layers: LayersMetaV,
}

impl DeepView for Metadata {
    type V = MetadataV;

    open spec fn deep_view(&self) -> MetadataV {
        MetadataV {
            options: self.options.deep_view(),
            layout: self.layout.deep_view(),
            layers: self.layers.deep_view(),
        }
    }
}

/// The exact result of resolving a whole file.
pub open spec fn spec_metadata_process(f: FileV) -> Result<MetadataV, AppErrorV> {
    let options = spec_options_process(f.options);
    match spec_layout_process(f.layout) {
        Err(e) => Err(e),
        Ok(layout) => match spec_layers_process(layout, f.layers) {
            Err(e) => Err(e),
            Ok(layers) => Ok(MetadataV { options, layout, layers }),
        },
    }
}

impl Metadata {
    /// Resolves a whole parsed file: options, layout, then layers.
    ///
    /// Fail-fast: the first structural error aborts resolution.
    pub fn process(file: &File) -> (r: Result<Metadata, AppError>)
        requires
            file.layout.rows.len() > 0,
        ensures
            res_model(r) == spec_metadata_process(file.deep_view()),
    {
        let options = OptionsMeta::process(&file.options);
        let layout = match LayoutMeta::process(&file.layout) {
            Err(e) => {
                return Err(e);
            },
            Ok(l) => l,
        };
        let layers = match LayersMeta::process(&layout, &file.layers) {
            Err(e) => {
                return Err(e);
            },
            Ok(l) => l,
        };
        Ok(Metadata { options, layout, layers })
    }

    /// Looks the option `key` up for the given backend.
    pub fn get_option(&self, emitter: OptionKey, key: &str) -> (r: Option<String>)
        ensures
            r.deep_view() == spec_option_value(self.options.deep_view().options, emitter, key@),
    {
        let n = self.options.options.len();
        let mut i: usize = 0;
        while i < n
            invariant
                0 <= i <= n,
                n == self.options.options.len(),
                spec_option_value(self.options.deep_view().options, emitter, key@) == (
                match opt_index_from(self.options.deep_view().options, emitter, key@, i as int) {
                    Some(ix) => Some(self.options.deep_view().options[ix].2),
                    None => None,
                }),
            decreases n - i,
        {
            let entry = &self.options.options[i];
            let same_backend = match (entry.0, emitter) {
                (OptionKey::RustyDilemma, OptionKey::RustyDilemma) => true,
                (OptionKey::KeymapDrawer, OptionKey::KeymapDrawer) => true,
                (OptionKey::Formatter, OptionKey::Formatter) => true,
                _ => false,
            };
            if same_backend && str_eq(entry.1.as_str(), key) {
                return Some(entry.2.clone());
            }
            i = i + 1;
        }
        None
    }
}

/// The expanded physical width of a layout row from item `j` on, starting
/// at column `x`: keys and spacers advance by their count, a remapped key
/// by one.
pub open spec fn spec_row_width(items: Seq<LayoutDefn>, j: int, x: int) -> int
    decreases items.len() - j,
{
    if j >= items.len() {
        x
    } else {
        match items[j] {
            LayoutDefn::Keys { count, .. } => spec_row_width(items, j + 1, x + count),
            LayoutDefn::RemappedKey { .. } => spec_row_width(items, j + 1, x + 1),
            LayoutDefn::Spaces { count, .. } => spec_row_width(items, j + 1, x + count),
        }
    }
}

/// When a row's items resolve, the width returned is the row's expanded
/// width, whatever the incoming state.
proof fn lemma_row_items_width(st: LayoutState, items: Seq<LayoutDefn>, j: int, x: int, xl: int, y: int)
    ensures
        spec_row_items(st, items, j, x, xl, y) matches Ok(res) ==> res.1 == spec_row_width(
            items,
            j,
            x,
        ),
    decreases items.len() - j,
{
    if j < items.len() {
        match items[j] {
            LayoutDefn::Keys { count, span } => {
                if x + count <= 255 {
                    match spec_keys_cells(st, x, xl, y, 0, count as int, span) {
                        Ok(st2) => {
                            lemma_row_items_width(st2, items, j + 1, x + count, xl + count, y);
                        },
                        Err(_) => {},
                    }
                }
            },
            LayoutDefn::RemappedKey { position, span } => {
                if x + 1 <= 255 {
                    match find_pos(st.claims, (position, (y as u8))) {
                        None => {
                            let located = KeyAt::Located(MatrixPosition(position, y as u8));
                            let ppos = ((x as u8), (y as u8));
                            let lpos = ((xl as u8), (y as u8));
                            lemma_row_items_width(
                                LayoutState {
                                    phys: st.phys.push((ppos, located)),
                                    lay: st.lay.push((lpos, located)),
                                    l2p: st.l2p.push((lpos, ppos)),
                                    claims: st.claims.push(((position, (y as u8)), span)),
                                },
                                items,
                                j + 1,
                                x + 1,
                                xl + 1,
                                y,
                            );
                        },
                        Some(_) => {},
                    }
                }
            },
            LayoutDefn::Spaces { count, .. } => {
                if x + count <= 255 {
                    lemma_row_items_width(
                        spec_spaces_cells(st, x, y, 0, count as int),
                        items,
                        j + 1,
                        x + count,
                        xl,
                        y,
                    );
                }
            },
        }
    }
}

/// An error raised while resolving the cells of one declaration is an
/// overlap error.
proof fn lemma_keys_cells_err_kind(
    st: LayoutState,
    x: int,
    xl: int,
    y: int,
    n: int,
    count: int,
    span: Span,
)
    ensures
        spec_keys_cells(st, x, xl, y, n, count, span) matches Err(e) ==> e matches
            AppErrorV::OverlappingKeys { .. },
    decreases count - n,
{
    if n < count {
        let mpos = (((x + n) as u8), (y as u8));
        match find_pos(st.claims, mpos) {
            Some(_) => {},
            None => {
                let located = KeyAt::Located(MatrixPosition(mpos.0, mpos.1));
                let lpos = (((xl + n) as u8), (y as u8));
                lemma_keys_cells_err_kind(
                    LayoutState {
                        phys: st.phys.push((mpos, located)),
                        lay: st.lay.push((lpos, located)),
                        l2p: st.l2p.push((lpos, mpos)),
                        claims: st.claims.push((mpos, span)),
                    },
                    x,
                    xl,
                    y,
                    n + 1,
                    count,
                    span,
                );
            },
        }
    }
}

/// An error raised while resolving a row's items is an overlap or a range
/// error — never a width error.
proof fn lemma_row_items_err_kind(
    st: LayoutState,
    items: Seq<LayoutDefn>,
    j: int,
    x: int,
    xl: int,
    y: int,
)
    ensures
        spec_row_items(st, items, j, x, xl, y) matches Err(e) ==> (e matches
            AppErrorV::OverlappingKeys { .. } || e matches AppErrorV::CoordinateOutOfRange { .. }),
    decreases items.len() - j,
{
    if j < items.len() {
        match items[j] {
            LayoutDefn::Keys { count, span } => {
                if x + count <= 255 {
                    lemma_keys_cells_err_kind(st, x, xl, y, 0, count as int, span);
                    match spec_keys_cells(st, x, xl, y, 0, count as int, span) {
                        Ok(st2) => {
                            lemma_row_items_err_kind(st2, items, j + 1, x + count, xl + count, y);
                        },
                        Err(_) => {},
                    }
                }
            },
            LayoutDefn::RemappedKey { position, span } => {
                if x + 1 <= 255 {
                    match find_pos(st.claims, (position, (y as u8))) {
                        None => {
                            let located = KeyAt::Located(MatrixPosition(position, y as u8));
                            let ppos = ((x as u8), (y as u8));
                            let lpos = ((xl as u8), (y as u8));
                            lemma_row_items_err_kind(
                                LayoutState {
                                    phys: st.phys.push((ppos, located)),
                                    lay: st.lay.push((lpos, located)),
                                    l2p: st.l2p.push((lpos, ppos)),
                                    claims: st.claims.push(((position, (y as u8)), span)),
                                },
                                items,
                                j + 1,
                                x + 1,
                                xl + 1,
                                y,
                            );
                        },
                        Some(_) => {},
                    }
                }
            },
            LayoutDefn::Spaces { count, .. } => {
                if x + count <= 255 {
                    lemma_row_items_err_kind(
                        spec_spaces_cells(st, x, y, 0, count as int),
                        items,
                        j + 1,
                        x + count,
                        xl,
                        y,
                    );
                }
            },
        }
    }
}

/// A width error raised from row `k` on cites the expected width `w` fixed
/// by the rows before, and an actual width that differs from it.
proof fn lemma_layout_rows_width_cite(
    st: LayoutState,
    rows: Seq<crate::syntax::LayoutRowV>,
    k: int,
    w: u8,
)
    ensures
        spec_layout_rows(st, rows, k, Some(w)) matches Err(e) ==> (e matches
            AppErrorV::InconsistentMatrixWidth { expected, got, .. } ==> expected == w && got != w),
    decreases rows.len() - k,
{
    if k < rows.len() {
        lemma_row_items_err_kind(st, rows[k].items, 0, 0, 0, k);
        lemma_row_items_in_range(st, rows[k].items, 0, 0, 0, k);
        match spec_row_items(st, rows[k].items, 0, 0, 0, k) {
            Ok((st2, x)) => {
                if x == w {
                    lemma_layout_rows_width_cite(st2, rows, k + 1, w);
                }
            },
            Err(_) => {},
        }
    }
}

/// A failure with an inconsistent-width error always cites the first
/// row's expanded width as the expected width, and an actual width that
/// differs from it.
pub proof fn lemma_width_error_cites_first_row(layout: LayoutV)
    ensures
        spec_layout_process(layout) matches Err(e) ==> (e matches
            AppErrorV::InconsistentMatrixWidth { expected, got, .. } ==> expected as int
            == spec_row_width(layout.rows[0].items, 0, 0) && got != expected),
{
    if layout.rows.len() <= 255 {
        let st0 = empty_layout_state();
        if layout.rows.len() > 0 {
            lemma_row_items_err_kind(st0, layout.rows[0].items, 0, 0, 0, 0);
            match spec_row_items(st0, layout.rows[0].items, 0, 0, 0, 0) {
                Ok((st1, x0)) => {
                    lemma_row_items_width(st0, layout.rows[0].items, 0, 0, 0, 0);
                    lemma_row_items_in_range(st0, layout.rows[0].items, 0, 0, 0, 0);
                    lemma_layout_rows_width_cite(st1, layout.rows, 1, x0 as u8);
                },
                Err(_) => {},
            }
        }
    }
}

/// When a row's items resolve, the width returned stays within the
/// matrix range.
proof fn lemma_row_items_in_range(
    st: LayoutState,
    items: Seq<LayoutDefn>,
    j: int,
    x: int,
    xl: int,
    y: int,
)
    requires
        0 <= x <= 255,
    ensures
        spec_row_items(st, items, j, x, xl, y) matches Ok(res) ==> 0 <= res.1 <= 255,
    decreases items.len() - j,
{
    if j < items.len() {
        match items[j] {
            LayoutDefn::Keys { count, span } => {
                if x + count <= 255 {
                    match spec_keys_cells(st, x, xl, y, 0, count as int, span) {
                        Ok(st2) => {
                            lemma_row_items_in_range(st2, items, j + 1, x + count, xl + count, y);
                        },
                        Err(_) => {},
                    }
                }
            },
            LayoutDefn::RemappedKey { position, span } => {
                if x + 1 <= 255 {
                    match find_pos(st.claims, (position, (y as u8))) {
                        None => {
                            let located = KeyAt::Located(MatrixPosition(position, y as u8));
                            let ppos = ((x as u8), (y as u8));
                            let lpos = ((xl as u8), (y as u8));
                            lemma_row_items_in_range(
                                LayoutState {
                                    phys: st.phys.push((ppos, located)),
                                    lay: st.lay.push((lpos, located)),
                                    l2p: st.l2p.push((lpos, ppos)),
                                    claims: st.claims.push(((position, (y as u8)), span)),
                                },
                                items,
                                j + 1,
                                x + 1,
                                xl + 1,
                                y,
                            );
                        },
                        Some(_) => {},
                    }
                }
            },
            LayoutDefn::Spaces { count, .. } => {
                if x + count <= 255 {
                    lemma_row_items_in_range(
                        spec_spaces_cells(st, x, y, 0, count as int),
                        items,
                        j + 1,
                        x + count,
                        xl,
                        y,
                    );
                }
            },
        }
    }
}

/// When resolution succeeds, every row's expanded width equals the first
/// row's: two rows with different widths never resolve.
pub proof fn lemma_ok_implies_equal_widths(layout: LayoutV, k: int)
    requires
        0 <= k < layout.rows.len(),
        spec_layout_process(layout) is Ok,
    ensures
        spec_row_width(layout.rows[k].items, 0, 0) == spec_row_width(layout.rows[0].items, 0, 0),
{
    if k > 0 {
        let st0 = empty_layout_state();
        match spec_row_items(st0, layout.rows[0].items, 0, 0, 0, 0) {
            Ok((st1, x0)) => {
                lemma_row_items_width(st0, layout.rows[0].items, 0, 0, 0, 0);
                lemma_row_items_in_range(st0, layout.rows[0].items, 0, 0, 0, 0);
                lemma_layout_rows_widths_match(st1, layout.rows, 1, x0 as u8, k);
            },
            Err(_) => {},
        }
    }
}

/// When resolution from row `k` on succeeds with expected width `w`, every
/// later row's expanded width equals `w`.
proof fn lemma_layout_rows_widths_match(
    st: LayoutState,
    rows: Seq<crate::syntax::LayoutRowV>,
    k: int,
    w: u8,
    target: int,
)
    requires
        k <= target < rows.len(),
        spec_layout_rows(st, rows, k, Some(w)) is Ok,
    ensures
        spec_row_width(rows[target].items, 0, 0) == w,
    decreases rows.len() - k,
{
    match spec_row_items(st, rows[k].items, 0, 0, 0, k) {
        Ok((st2, x)) => {
            lemma_row_items_width(st, rows[k].items, 0, 0, 0, k);
            if x == w {
                if target > k {
                    lemma_layout_rows_widths_match(st2, rows, k + 1, w, target);
                }
            }
        },
        Err(_) => {},
    }
}

/// The matrix positions claimed by the cells of declarations, from item
/// `j` of a row on.
pub open spec fn spec_row_claims(items: Seq<LayoutDefn>, j: int, x: int, y: int) -> Seq<(u8, u8)>
    decreases items.len() - j, 1int, 0int,
{
    if j >= items.len() {
        Seq::empty()
    } else {
        match items[j] {
            LayoutDefn::Keys { count, .. } => spec_cells_claims(x, y, 0, count as int) + spec_row_claims(
                items,
                j + 1,
                x + count,
                y,
            ),
            LayoutDefn::RemappedKey { position, .. } => seq![(position, (y as u8))] + spec_row_claims(
                items,
                j + 1,
                x + 1,
                y,
            ),
            LayoutDefn::Spaces { count, .. } => spec_row_claims(items, j + 1, x + count, y),
        }
    }
}

/// The matrix positions claimed by cells `n..count` of a keys declaration.
pub open spec fn spec_cells_claims(x: int, y: int, n: int, count: int) -> Seq<(u8, u8)>
    decreases count - n,
{
    if n >= count {
        Seq::empty()
    } else {
        seq![(((x + n) as u8), (y as u8))] + spec_cells_claims(x, y, n + 1, count)
    }
}

/// The matrix positions claimed by the whole layout, row by row.
pub open spec fn spec_layout_claims(rows: Seq<crate::syntax::LayoutRowV>, k: int) -> Seq<(u8, u8)>
    decreases rows.len() - k,
{
    if k >= rows.len() {
        Seq::empty()
    } else {
        spec_row_claims(rows[k].items, 0, 0, k) + spec_layout_claims(rows, k + 1)
    }
}

/// The claimed positions of a claims table.
pub open spec fn claims_pos(s: Seq<((u8, u8), Span)>) -> Seq<(u8, u8)> {
    s.map_values(|e: ((u8, u8), Span)| e.0)
}

/// No position occurs twice.
pub open spec fn positions_distinct(s: Seq<(u8, u8)>) -> bool {
    forall|i: int, j: int| 0 <= i < j < s.len() ==> s[i] != s[j]
}

/// When the cells of a keys declaration resolve, the claims table grows by
/// exactly the cells' positions, and distinctness of claims is preserved.
proof fn lemma_keys_cells_claims(
    st: LayoutState,
    x: int,
    xl: int,
    y: int,
    n: int,
    count: int,
    span: Span,
)
    requires
        positions_distinct(claims_pos(st.claims)),
    ensures
        spec_keys_cells(st, x, xl, y, n, count, span) matches Ok(st2) ==> claims_pos(st2.claims)
            =~= claims_pos(st.claims) + spec_cells_claims(x, y, n, count) && positions_distinct(
            claims_pos(st2.claims),
        ),
    decreases count - n,
{
    if n < count {
        let mpos = (((x + n) as u8), (y as u8));
        match find_pos(st.claims, mpos) {
            Some(_) => {},
            None => {
                crate::maps::lemma_find_pos_none(st.claims, mpos);
                let located = KeyAt::Located(MatrixPosition(mpos.0, mpos.1));
                let lpos = (((xl + n) as u8), (y as u8));
                let stm = LayoutState {
                    phys: st.phys.push((mpos, located)),
                    lay: st.lay.push((lpos, located)),
                    l2p: st.l2p.push((lpos, mpos)),
                    claims: st.claims.push((mpos, span)),
                };
                assert(claims_pos(stm.claims) =~= claims_pos(st.claims).push(mpos));
                lemma_keys_cells_claims(stm, x, xl, y, n + 1, count, span);
                match spec_keys_cells(stm, x, xl, y, n + 1, count, span) {
                    Ok(st2) => {
                        assert(claims_pos(st2.claims) =~= claims_pos(st.claims) + spec_cells_claims(
                            x,
                            y,
                            n,
                            count,
                        ));
                    },
                    Err(_) => {},
                }
            },
        }
    } else {
        assert(claims_pos(st.claims) + spec_cells_claims(x, y, n, count) =~= claims_pos(st.claims));
    }
}

/// When a row's items resolve, the claims table grows by exactly the row's
/// claims, and distinctness is preserved.
proof fn lemma_row_items_claims(
    st: LayoutState,
    items: Seq<LayoutDefn>,
    j: int,
    x: int,
    xl: int,
    y: int,
)
    requires
        positions_distinct(claims_pos(st.claims)),
    ensures
        spec_row_items(st, items, j, x, xl, y) matches Ok(res) ==> claims_pos(res.0.claims)
            =~= claims_pos(st.claims) + spec_row_claims(items, j, x, y) && positions_distinct(
            claims_pos(res.0.claims),
        ),
    decreases items.len() - j,
{
    if j < items.len() {
        match items[j] {
            LayoutDefn::Keys { count, span } => {
                if x + count <= 255 {
                    lemma_keys_cells_claims(st, x, xl, y, 0, count as int, span);
                    match spec_keys_cells(st, x, xl, y, 0, count as int, span) {
                        Ok(st2) => {
                            lemma_row_items_claims(st2, items, j + 1, x + count, xl + count, y);
                            match spec_row_items(st2, items, j + 1, x + count, xl + count, y) {
                                Ok(res) => {
                                    assert(claims_pos(res.0.claims) =~= claims_pos(st.claims)
                                        + spec_row_claims(items, j, x, y));
                                },
                                Err(_) => {},
                            }
                        },
                        Err(_) => {},
                    }
                }
            },
            LayoutDefn::RemappedKey { position, span } => {
                if x + 1 <= 255 {
                    let mpos = (position, (y as u8));
                    match find_pos(st.claims, mpos) {
                        None => {
                            crate::maps::lemma_find_pos_none(st.claims, mpos);
                            let located = KeyAt::Located(MatrixPosition(position, y as u8));
                            let ppos = ((x as u8), (y as u8));
                            let lpos = ((xl as u8), (y as u8));
                            let stm = LayoutState {
                                phys: st.phys.push((ppos, located)),
                                lay: st.lay.push((lpos, located)),
                                l2p: st.l2p.push((lpos, ppos)),
                                claims: st.claims.push((mpos, span)),
                            };
                            assert(claims_pos(stm.claims) =~= claims_pos(st.claims).push(mpos));
                            lemma_row_items_claims(stm, items, j + 1, x + 1, xl + 1, y);
                            match spec_row_items(stm, items, j + 1, x + 1, xl + 1, y) {
                                Ok(res) => {
                                    assert(claims_pos(res.0.claims) =~= claims_pos(st.claims)
                                        + spec_row_claims(items, j, x, y));
                                },
                                Err(_) => {},
                            }
                        },
                        Some(_) => {},
                    }
                }
            },
            LayoutDefn::Spaces { count, .. } => {
                if x + count <= 255 {
                    let stm = spec_spaces_cells(st, x, y, 0, count as int);
                    lemma_spaces_cells_claims(st, x, y, 0, count as int);
                    lemma_row_items_claims(stm, items, j + 1, x + count, xl, y);
                }
            },
        }
    } else {
        assert(claims_pos(st.claims) + spec_row_claims(items, j, x, y) =~= claims_pos(st.claims));
    }
}

/// Spacer cells claim nothing.
proof fn lemma_spaces_cells_claims(st: LayoutState, x: int, y: int, n: int, count: int)
    ensures
        spec_spaces_cells(st, x, y, n, count).claims == st.claims,
    decreases count - n,
{
    if n < count {
        lemma_spaces_cells_claims(
            LayoutState {
                phys: st.phys.push(((((x + n) as u8), (y as u8)), KeyAt::Space)),
                lay: st.lay,
                l2p: st.l2p,
                claims: st.claims,
            },
            x,
            y,
            n + 1,
            count,
        );
    }
}

/// When the rows resolve, the claims table grows by exactly the layout's
/// claims, and distinctness is preserved.
proof fn lemma_layout_rows_claims(
    st: LayoutState,
    rows: Seq<crate::syntax::LayoutRowV>,
    k: int,
    width: Option<u8>,
)
    requires
        positions_distinct(claims_pos(st.claims)),
    ensures
        spec_layout_rows(st, rows, k, width) matches Ok(res) ==> claims_pos(res.0.claims)
            =~= claims_pos(st.claims) + spec_layout_claims(rows, k) && positions_distinct(
            claims_pos(res.0.claims),
        ),
    decreases rows.len() - k,
{
    if k < rows.len() {
        lemma_row_items_claims(st, rows[k].items, 0, 0, 0, k);
        match spec_row_items(st, rows[k].items, 0, 0, 0, k) {
            Ok((st2, x)) => {
                match width {
                    None => {
                        lemma_layout_rows_claims(st2, rows, k + 1, Some(x as u8));
                        match spec_layout_rows(st2, rows, k + 1, Some(x as u8)) {
                            Ok(res) => {
                                assert(claims_pos(res.0.claims) =~= claims_pos(st.claims)
                                    + spec_layout_claims(rows, k));
                            },
                            Err(_) => {},
                        }
                    },
                    Some(w) => {
                        if x == w {
                            lemma_layout_rows_claims(st2, rows, k + 1, Some(w));
                            match spec_layout_rows(st2, rows, k + 1, Some(w)) {
                                Ok(res) => {
                                    assert(claims_pos(res.0.claims) =~= claims_pos(st.claims)
                                        + spec_layout_claims(rows, k));
                                },
                                Err(_) => {},
                            }
                        }
                    },
                }
            },
            Err(_) => {},
        }
    } else {
        assert(claims_pos(st.claims) + spec_layout_claims(rows, k) =~= claims_pos(st.claims));
    }
}

/// When layout resolution succeeds, no matrix position is claimed twice:
/// two declarations claiming the same coordinate — in either order —
/// never resolve.
pub proof fn lemma_ok_implies_distinct_claims(layout: LayoutV)
    requires
        spec_layout_process(layout) is Ok,
    ensures
        positions_distinct(spec_layout_claims(layout.rows, 0)),
{
    let st0 = empty_layout_state();
    assert(claims_pos(st0.claims) =~= Seq::<(u8, u8)>::empty());
    lemma_layout_rows_claims(st0, layout.rows, 0, None);
    match spec_layout_rows(st0, layout.rows, 0, None) {
        Ok(res) => {
            assert(claims_pos(res.0.claims) =~= spec_layout_claims(layout.rows, 0));
        },
        Err(_) => {},
    }
}

/// A chord token with no plain key immediately before it or immediately
/// after it in its row.
pub open spec fn bad_chord_at(items: Seq<KeyOrChordV>, j: int) -> bool {
    &&& 0 <= j < items.len()
    &&& items[j] is Chord
    &&& !(j >= 1 && items[j - 1] is Key && j + 1 < items.len() && items[j + 1] is Key)
}

/// When a row's tokens resolve, no chord of the row sits badly.
proof fn lemma_layer_items_ok_no_bad_chord(
    st: LayerState,
    lm: LayoutMetaV,
    items: Seq<KeyOrChordV>,
    j: int,
    x: int,
    y: int,
    row_span: Span,
    semi: Span,
    target: int,
)
    requires
        j <= target,
        spec_layer_items(st, lm, items, j, x, y, row_span, semi) is Ok,
        0 <= j,
    ensures
        !bad_chord_at(items, target),
    decreases items.len() - j,
{
    if j < items.len() {
        match items[j] {
            KeyOrChordV::Key(k) => {
                if x <= 255 {
                    let lpos = ((x as u8), (y as u8));
                    match find_pos(lm.layout_to_phys, lpos) {
                        Some(ppos) => {
                            match find_pos(lm.layout_to_matrix, lpos) {
                                Some(KeyAt::Located(m)) => {
                                    if target > j {
                                        lemma_layer_items_ok_no_bad_chord(
                                            LayerState {
                                                keys: st.keys.push(
                                                    ResolvedKeyV {
                                                        key: k,
                                                        layout_pos: lpos,
                                                        physical_pos: ppos,
                                                        matrix_pos: m,
                                                    },
                                                ),
                                                chords: st.chords,
                                            },
                                            lm,
                                            items,
                                            j + 1,
                                            x + 1,
                                            y,
                                            row_span,
                                            semi,
                                            target,
                                        );
                                    }
                                },
                                _ => {},
                            }
                        },
                        None => {},
                    }
                }
            },
            KeyOrChordV::Chord(c) => {
                let prev_is_key = j >= 1 && items[j - 1] is Key;
                let next_is_key = j + 1 < items.len() && items[j + 1] is Key;
                if prev_is_key && next_is_key {
                    if 1 <= x <= 255 {
                        match find_pos(lm.layout_to_matrix, (((x - 1) as u8), (y as u8))) {
                            Some(KeyAt::Located(left)) => {
                                match find_pos(lm.layout_to_matrix, ((x as u8), (y as u8))) {
                                    Some(KeyAt::Located(right)) => {
                                        if target > j {
                                            lemma_layer_items_ok_no_bad_chord(
                                                LayerState {
                                                    keys: st.keys,
                                                    chords: st.chords.push(
                                                        ResolvedChordV {
                                                            chord: c,
                                                            left_layout: (((x - 1) as u8), (
                                                            y as u8)),
                                                            left,
                                                            right,
                                                        },
                                                    ),
                                                },
                                                lm,
                                                items,
                                                j + 1,
                                                x,
                                                y,
                                                row_span,
                                                semi,
                                                target,
                                            );
                                        }
                                    },
                                    _ => {},
                                }
                            },
                            _ => {},
                        }
                    }
                }
            },
        }
    }
}

/// When a layer resolves, no chord of any of its rows sits badly.
proof fn lemma_layer_rows_ok_no_bad_chord(
    st: LayerState,
    lm: LayoutMetaV,
    rows: Seq<LayerRowV>,
    k: int,
    r: int,
    j: int,
)
    requires
        0 <= k <= r < rows.len(),
        spec_layer_rows(st, lm, rows, k) is Ok,
    ensures
        !bad_chord_at(rows[r].items, j),
    decreases rows.len() - k,
{
    if k <= 255 {
        match spec_layer_items(st, lm, rows[k].items, 0, 0, k, rows[k].span, rows[k].semi) {
            Ok(st2) => {
                if r == k {
                    if 0 <= j {
                        lemma_layer_items_ok_no_bad_chord(
                            st,
                            lm,
                            rows[k].items,
                            0,
                            0,
                            k,
                            rows[k].span,
                            rows[k].semi,
                            j,
                        );
                    }
                } else {
                    lemma_layer_rows_ok_no_bad_chord(st2, lm, rows, k + 1, r, j);
                }
            },
            Err(_) => {},
        }
    }
}

/// A chord at the start or end of a row, or adjacent to another chord,
/// never resolves: a layer containing one always fails.
pub proof fn lemma_bad_chord_never_resolves(lm: LayoutMetaV, layer: LayerV, r: int, j: int)
    requires
        0 <= r < layer.rows.len(),
        bad_chord_at(layer.rows[r].items, j),
    ensures
        spec_layer_process(lm, layer) is Err,
{
    let st0 = LayerState { keys: Seq::empty(), chords: Seq::empty() };
    if spec_layer_rows(st0, lm, layer.rows, 0) is Ok {
        lemma_layer_rows_ok_no_bad_chord(st0, lm, layer.rows, 0, r, j);
    }
}

/// Every located value of a layout-to-matrix mapping sits above row `h`
/// (exclusive): on a key row of the physical layout.
pub open spec fn lay_values_below(lay: Seq<((u8, u8), KeyAt)>, h: int) -> bool {
    forall|i: int| 0 <= i < lay.len() ==> ((#[trigger] lay[i]).1 matches KeyAt::Located(p) ==> (
    p.1 as int) < h)
}

/// Resolving the cells of a keys declaration keeps the mapping's values
/// below `h` when the row index is.
proof fn lemma_keys_cells_lay_below(
    st: LayoutState,
    x: int,
    xl: int,
    y: int,
    n: int,
    count: int,
    span: Span,
    h: int,
)
    requires
        lay_values_below(st.lay, h),
        0 <= y < h,
        h <= 256,
    ensures
        spec_keys_cells(st, x, xl, y, n, count, span) matches Ok(st2) ==> lay_values_below(
            st2.lay,
            h,
        ),
    decreases count - n,
{
    if n < count {
        let mpos = (((x + n) as u8), (y as u8));
        match find_pos(st.claims, mpos) {
            Some(_) => {},
            None => {
                let located = KeyAt::Located(MatrixPosition(mpos.0, mpos.1));
                let lpos = (((xl + n) as u8), (y as u8));
                let stm = LayoutState {
                    phys: st.phys.push((mpos, located)),
                    lay: st.lay.push((lpos, located)),
                    l2p: st.l2p.push((lpos, mpos)),
                    claims: st.claims.push((mpos, span)),
                };
                assert(lay_values_below(stm.lay, h)) by {
                    assert(forall|i: int| 0 <= i < st.lay.len() ==> stm.lay[i] == st.lay[i]);
                }
                lemma_keys_cells_lay_below(stm, x, xl, y, n + 1, count, span, h);
            },
        }
    }
}

/// Resolving a row's items keeps the mapping's values below `h` when the
/// row index is.
proof fn lemma_row_items_lay_below(
    st: LayoutState,
    items: Seq<LayoutDefn>,
    j: int,
    x: int,
    xl: int,
    y: int,
    h: int,
)
    requires
        lay_values_below(st.lay, h),
        0 <= y < h,
        h <= 256,
    ensures
        spec_row_items(st, items, j, x, xl, y) matches Ok(res) ==> lay_values_below(res.0.lay, h),
    decreases items.len() - j,
{
    if j < items.len() {
        match items[j] {
            LayoutDefn::Keys { count, span } => {
                if x + count <= 255 {
                    lemma_keys_cells_lay_below(st, x, xl, y, 0, count as int, span, h);
                    match spec_keys_cells(st, x, xl, y, 0, count as int, span) {
                        Ok(st2) => {
                            lemma_row_items_lay_below(st2, items, j + 1, x + count, xl + count, y, h);
                        },
                        Err(_) => {},
                    }
                }
            },
            LayoutDefn::RemappedKey { position, span } => {
                if x + 1 <= 255 {
                    match find_pos(st.claims, (position, (y as u8))) {
                        None => {
                            let located = KeyAt::Located(MatrixPosition(position, y as u8));
                            let ppos = ((x as u8), (y as u8));
                            let lpos = ((xl as u8), (y as u8));
                            let stm = LayoutState {
                                phys: st.phys.push((ppos, located)),
                                lay: st.lay.push((lpos, located)),
                                l2p: st.l2p.push((lpos, ppos)),
                                claims: st.claims.push(((position, (y as u8)), span)),
                            };
                            assert(lay_values_below(stm.lay, h)) by {
                                assert(forall|i: int|
                                    0 <= i < st.lay.len() ==> stm.lay[i] == st.lay[i]);
                            }
                            lemma_row_items_lay_below(stm, items, j + 1, x + 1, xl + 1, y, h);
                        },
                        Some(_) => {},
                    }
                }
            },
            LayoutDefn::Spaces { count, .. } => {
                if x + count <= 255 {
                    let stm = spec_spaces_cells(st, x, y, 0, count as int);
                    lemma_spaces_cells_lay(st, x, y, 0, count as int);
                    lemma_row_items_lay_below(stm, items, j + 1, x + count, xl, y, h);
                }
            },
        }
    }
}

/// Spacer cells leave the layout-to-matrix mapping unchanged.
proof fn lemma_spaces_cells_lay(st: LayoutState, x: int, y: int, n: int, count: int)
    ensures
        spec_spaces_cells(st, x, y, n, count).lay == st.lay,
        spec_spaces_cells(st, x, y, n, count).l2p == st.l2p,
    decreases count - n,
{
    if n < count {
        lemma_spaces_cells_lay(
            LayoutState {
                phys: st.phys.push(((((x + n) as u8), (y as u8)), KeyAt::Space)),
                lay: st.lay,
                l2p: st.l2p,
                claims: st.claims,
            },
            x,
            y,
            n + 1,
            count,
        );
    }
}

/// Resolving rows keeps the mapping's values below the row count.
proof fn lemma_layout_rows_lay_below(
    st: LayoutState,
    rows: Seq<crate::syntax::LayoutRowV>,
    k: int,
    width: Option<u8>,
    h: int,
)
    requires
        lay_values_below(st.lay, h),
        0 <= k,
        h == rows.len(),
        h <= 255,
    ensures
        spec_layout_rows(st, rows, k, width) matches Ok(res) ==> lay_values_below(res.0.lay, h),
    decreases rows.len() - k,
{
    if k < rows.len() {
        lemma_row_items_lay_below(st, rows[k].items, 0, 0, 0, k, h);
        match spec_row_items(st, rows[k].items, 0, 0, 0, k) {
            Ok((st2, x)) => {
                match width {
                    None => {
                        lemma_layout_rows_lay_below(st2, rows, k + 1, Some(x as u8), h);
                    },
                    Some(w) => {
                        if x == w {
                            lemma_layout_rows_lay_below(st2, rows, k + 1, Some(w), h);
                        }
                    },
                }
            },
            Err(_) => {},
        }
    }
}

/// Every key of a resolved layout sits on a matrix row below the layout's
/// height; the extra rows above it belong to allocated chord slots alone.
pub proof fn lemma_layout_values_below_height(layout: LayoutV)
    ensures
        spec_layout_process(layout) matches Ok(lm) ==> lay_values_below(
            lm.layout_to_matrix,
            lm.height as int,
        ),
{
    if layout.rows.len() <= 255 && layout.rows.len() > 0 {
        let st0 = empty_layout_state();
        lemma_layout_rows_lay_below(st0, layout.rows, 0, None, layout.rows.len() as int);
    } else {
        if layout.rows.len() == 0 {
            match spec_layout_process(layout) {
                Ok(lm) => {
                    assert(lm.layout_to_matrix.len() == 0);
                },
                Err(_) => {},
            }
        }
    }
}

/// Every resolved key of a layer sits on a matrix row below `h`.
pub open spec fn keys_below(keys: Seq<ResolvedKeyV>, h: int) -> bool {
    forall|i: int| 0 <= i < keys.len() ==> ((#[trigger] keys[i]).matrix_pos.1 as int) < h
}

/// A located value found in the mapping sits below `h`.
proof fn lemma_find_pos_below(lay: Seq<((u8, u8), KeyAt)>, k: (u8, u8), i: int, h: int)
    requires
        lay_values_below(lay, h),
        0 <= i,
    ensures
        crate::maps::find_pos_from(lay, k, i) matches Some(v) ==> (v matches KeyAt::Located(p)
            ==> (p.1 as int) < h),
    decreases lay.len() - i,
{
    if i < lay.len() {
        if lay[i].0 != k {
            lemma_find_pos_below(lay, k, i + 1, h);
        }
    }
}

/// Resolving a row's tokens keeps every resolved key below `h`.
proof fn lemma_layer_items_keys_below(
    st: LayerState,
    lm: LayoutMetaV,
    items: Seq<KeyOrChordV>,
    j: int,
    x: int,
    y: int,
    row_span: Span,
    semi: Span,
    h: int,
)
    requires
        keys_below(st.keys, h),
        lay_values_below(lm.layout_to_matrix, h),
    ensures
        spec_layer_items(st, lm, items, j, x, y, row_span, semi) matches Ok(st2) ==> keys_below(
            st2.keys,
            h,
        ),
    decreases items.len() - j,
{
    if j < items.len() {
        match items[j] {
            KeyOrChordV::Key(k) => {
                if x <= 255 {
                    let lpos = ((x as u8), (y as u8));
                    match find_pos(lm.layout_to_phys, lpos) {
                        Some(ppos) => {
                            match find_pos(lm.layout_to_matrix, lpos) {
                                Some(KeyAt::Located(m)) => {
                                    lemma_find_pos_below(lm.layout_to_matrix, lpos, 0, h);
                                    let st1 = LayerState {
                                        keys: st.keys.push(
                                            ResolvedKeyV {
                                                key: k,
                                                layout_pos: lpos,
                                                physical_pos: ppos,
                                                matrix_pos: m,
                                            },
                                        ),
                                        chords: st.chords,
                                    };
                                    assert(keys_below(st1.keys, h)) by {
                                        assert(forall|i: int|
                                            0 <= i < st.keys.len() ==> st1.keys[i] == st.keys[i]);
                                    }
                                    lemma_layer_items_keys_below(
                                        st1,
                                        lm,
                                        items,
                                        j + 1,
                                        x + 1,
                                        y,
                                        row_span,
                                        semi,
                                        h,
                                    );
                                },
                                _ => {},
                            }
                        },
                        None => {},
                    }
                }
            },
            KeyOrChordV::Chord(c) => {
                let prev_is_key = j >= 1 && items[j - 1] is Key;
                let next_is_key = j + 1 < items.len() && items[j + 1] is Key;
                if prev_is_key && next_is_key && 1 <= x <= 255 {
                    match find_pos(lm.layout_to_matrix, (((x - 1) as u8), (y as u8))) {
                        Some(KeyAt::Located(left)) => {
                            match find_pos(lm.layout_to_matrix, ((x as u8), (y as u8))) {
                                Some(KeyAt::Located(right)) => {
                                    lemma_layer_items_keys_below(
                                        LayerState {
                                            keys: st.keys,
                                            chords: st.chords.push(
                                                ResolvedChordV {
                                                    chord: c,
                                                    left_layout: (((x - 1) as u8), (y as u8)),
                                                    left,
                                                    right,
                                                },
                                            ),
                                        },
                                        lm,
                                        items,
                                        j + 1,
                                        x,
                                        y,
                                        row_span,
                                        semi,
                                        h,
                                    );
                                },
                                _ => {},
                            }
                        },
                        _ => {},
                    }
                }
            },
        }
    }
}

/// Resolving a layer's rows keeps every resolved key below `h`.
proof fn lemma_layer_rows_keys_below(
    st: LayerState,
    lm: LayoutMetaV,
    rows: Seq<LayerRowV>,
    k: int,
    h: int,
)
    requires
        keys_below(st.keys, h),
        lay_values_below(lm.layout_to_matrix, h),
    ensures
        spec_layer_rows(st, lm, rows, k) matches Ok(st2) ==> keys_below(st2.keys, h),
    decreases rows.len() - k,
{
    if k < rows.len() && k <= 255 {
        lemma_layer_items_keys_below(st, lm, rows[k].items, 0, 0, k, rows[k].span, rows[k].semi, h);
        match spec_layer_items(st, lm, rows[k].items, 0, 0, k, rows[k].span, rows[k].semi) {
            Ok(st2) => {
                lemma_layer_rows_keys_below(st2, lm, rows, k + 1, h);
            },
            Err(_) => {},
        }
    }
}

/// When a layer resolves against a layout whose keys sit below `h`, every
/// resolved key of the layer sits below `h` too.
pub proof fn lemma_layer_keys_below(lm: LayoutMetaV, layer: LayerV, h: int)
    requires
        lay_values_below(lm.layout_to_matrix, h),
    ensures
        spec_layer_process(lm, layer) matches Ok(lmeta) ==> keys_below(lmeta.keys, h),
{
    let st0 = LayerState { keys: Seq::empty(), chords: Seq::empty() };
    lemma_layer_rows_keys_below(st0, lm, layer.rows, 0, h);
}

/// Whether the layout-to-matrix and layout-to-physical mappings resolve a
/// key at a layout position.
pub open spec fn key_resolves(lm: LayoutMetaV, x: int, y: int) -> bool {
    &&& find_pos(lm.layout_to_phys, ((x as u8), (y as u8))) is Some
    &&& find_pos(lm.layout_to_matrix, ((x as u8), (y as u8))) matches Some(KeyAt::Located(_))
}

/// A chord at the start or end of a row, or adjacent to another chord,
/// whose preceding tokens are keys that all resolve, fails with a
/// chord-position error.
pub proof fn lemma_first_bad_chord_error(
    st: LayerState,
    lm: LayoutMetaV,
    items: Seq<KeyOrChordV>,
    s: int,
    x: int,
    y: int,
    row_span: Span,
    semi: Span,
    j: int,
)
    requires
        0 <= s <= j,
        0 <= x,
        x + (j - s) <= 255,
        bad_chord_at(items, j),
        forall|jj: int| s <= jj < j ==> (#[trigger] items[jj]) is Key,
        forall|xx: int| x <= xx < x + (j - s) ==> key_resolves(lm, xx, y),
    ensures
        spec_layer_items(st, lm, items, s, x, y, row_span, semi) matches Err(e) && e matches
            AppErrorV::BadChordPositions { .. },
    decreases j - s,
{
    if s == j {
    } else {
        assert(items[s] is Key);
        assert(key_resolves(lm, x, y));
        match items[s] {
            KeyOrChordV::Key(k) => {
                let lpos = ((x as u8), (y as u8));
                match find_pos(lm.layout_to_phys, lpos) {
                    Some(ppos) => {
                        match find_pos(lm.layout_to_matrix, lpos) {
                            Some(KeyAt::Located(m)) => {
                                let st2 = LayerState {
                                    keys: st.keys.push(
                                        ResolvedKeyV {
                                            key: k,
                                            layout_pos: lpos,
                                            physical_pos: ppos,
                                            matrix_pos: m,
                                        },
                                    ),
                                    chords: st.chords,
                                };
                                lemma_first_bad_chord_error(
                                    st2,
                                    lm,
                                    items,
                                    s + 1,
                                    x + 1,
                                    y,
                                    row_span,
                                    semi,
                                    j,
                                );
                            },
                            _ => {
                                assert(false);
                            },
                        }
                    },
                    None => {
                        assert(false);
                    },
                }
            },
            KeyOrChordV::Chord(_) => {
                assert(false);
            },
        }
    }
}

/// Whether every running physical column of a row stays within the matrix
/// range.
pub open spec fn spec_row_in_range(items: Seq<LayoutDefn>, j: int, x: int) -> bool
    decreases items.len() - j,
{
    if j >= items.len() {
        true
    } else {
        match items[j] {
            LayoutDefn::Keys { count, .. } => x + count <= 255 && spec_row_in_range(
                items,
                j + 1,
                x + count,
            ),
            LayoutDefn::RemappedKey { .. } => x + 1 <= 255 && spec_row_in_range(items, j + 1, x + 1),
            LayoutDefn::Spaces { count, .. } => x + count <= 255 && spec_row_in_range(
                items,
                j + 1,
                x + count,
            ),
        }
    }
}

/// A row whose columns stay in range raises only overlap errors.
proof fn lemma_row_items_no_range_err(
    st: LayoutState,
    items: Seq<LayoutDefn>,
    j: int,
    x: int,
    xl: int,
    y: int,
)
    requires
        spec_row_in_range(items, j, x),
    ensures
        spec_row_items(st, items, j, x, xl, y) matches Err(e) ==> e matches
            AppErrorV::OverlappingKeys { .. },
    decreases items.len() - j,
{
    if j < items.len() {
        match items[j] {
            LayoutDefn::Keys { count, span } => {
                lemma_keys_cells_err_kind(st, x, xl, y, 0, count as int, span);
                match spec_keys_cells(st, x, xl, y, 0, count as int, span) {
                    Ok(st2) => {
                        lemma_row_items_no_range_err(st2, items, j + 1, x + count, xl + count, y);
                    },
                    Err(_) => {},
                }
            },
            LayoutDefn::RemappedKey { position, span } => {
                match find_pos(st.claims, (position, (y as u8))) {
                    None => {
                        let located = KeyAt::Located(MatrixPosition(position, y as u8));
                        let ppos = ((x as u8), (y as u8));
                        let lpos = ((xl as u8), (y as u8));
                        lemma_row_items_no_range_err(
                            LayoutState {
                                phys: st.phys.push((ppos, located)),
                                lay: st.lay.push((lpos, located)),
                                l2p: st.l2p.push((lpos, ppos)),
                                claims: st.claims.push(((position, (y as u8)), span)),
                            },
                            items,
                            j + 1,
                            x + 1,
                            xl + 1,
                            y,
                        );
                    },
                    Some(_) => {},
                }
            },
            LayoutDefn::Spaces { count, .. } => {
                lemma_row_items_no_range_err(
                    spec_spaces_cells(st, x, y, 0, count as int),
                    items,
                    j + 1,
                    x + count,
                    xl,
                    y,
                );
            },
        }
    }
}

/// From row `k` on, with every row in range and of the expected width, a
/// failure can only be an overlap error.
proof fn lemma_layout_rows_err_overlap(
    st: LayoutState,
    rows: Seq<crate::syntax::LayoutRowV>,
    k: int,
    w: u8,
)
    requires
        0 <= k,
        forall|r: int| k <= r < rows.len() ==> spec_row_width((#[trigger] rows[r]).items, 0, 0)
            == w as int,
        forall|r: int| k <= r < rows.len() ==> spec_row_in_range((#[trigger] rows[r]).items, 0, 0),
    ensures
        spec_layout_rows(st, rows, k, Some(w)) matches Err(e) ==> e matches
            AppErrorV::OverlappingKeys { .. },
    decreases rows.len() - k,
{
    if k < rows.len() {
        lemma_row_items_no_range_err(st, rows[k].items, 0, 0, 0, k);
        lemma_row_items_width(st, rows[k].items, 0, 0, 0, k);
        match spec_row_items(st, rows[k].items, 0, 0, 0, k) {
            Ok((st2, x)) => {
                assert(x == w as int);
                lemma_layout_rows_err_overlap(st2, rows, k + 1, w);
            },
            Err(_) => {},
        }
    }
}

/// Two layout declarations claiming the same matrix coordinate always fail
/// with an overlap error, in whichever order they stand, provided the rows
/// themselves are well-formed (equal widths, coordinates in range).
pub proof fn lemma_overlap_always_fails(layout: LayoutV)
    requires
        1 <= layout.rows.len() <= 255,
        forall|r: int| 0 <= r < layout.rows.len() ==> spec_row_width(
            (#[trigger] layout.rows[r]).items,
            0,
            0,
        ) == spec_row_width(layout.rows[0].items, 0, 0),
        forall|r: int| 0 <= r < layout.rows.len() ==> spec_row_in_range(
            (#[trigger] layout.rows[r]).items,
            0,
            0,
        ),
        !positions_distinct(spec_layout_claims(layout.rows, 0)),
    ensures
        spec_layout_process(layout) matches Err(e) && e matches AppErrorV::OverlappingKeys { .. },
{
    lemma_ok_implies_distinct_claims_holds(layout);
    let st0 = empty_layout_state();
    lemma_row_items_no_range_err(st0, layout.rows[0].items, 0, 0, 0, 0);
    lemma_row_items_width(st0, layout.rows[0].items, 0, 0, 0, 0);
    lemma_row_items_in_range(st0, layout.rows[0].items, 0, 0, 0, 0);
    match spec_row_items(st0, layout.rows[0].items, 0, 0, 0, 0) {
        Ok((st1, x0)) => {
            assert(x0 == spec_row_width(layout.rows[0].items, 0, 0));
            lemma_layout_rows_err_overlap(st1, layout.rows, 1, x0 as u8);
            assert(spec_layout_rows(st0, layout.rows, 0, None) == spec_layout_rows(
                st1,
                layout.rows,
                1,
                Some(x0 as u8),
            ));
        },
        Err(_) => {},
    }
}

/// Resolution cannot succeed when a matrix coordinate is claimed twice.
proof fn lemma_ok_implies_distinct_claims_holds(layout: LayoutV)
    requires
        !positions_distinct(spec_layout_claims(layout.rows, 0)),
    ensures
        !(spec_layout_process(layout) is Ok),
{
    if spec_layout_process(layout) is Ok {
        lemma_ok_implies_distinct_claims(layout);
    }
}

/// When the cells of a keys declaration claim only fresh positions, they
/// resolve.
proof fn lemma_keys_cells_ok_when_fresh(
    st: LayoutState,
    x: int,
    xl: int,
    y: int,
    n: int,
    count: int,
    span: Span,
)
    requires
        positions_distinct(claims_pos(st.claims) + spec_cells_claims(x, y, n, count)),
    ensures
        spec_keys_cells(st, x, xl, y, n, count, span) is Ok,
    decreases count - n,
{
    if n < count {
        let a = claims_pos(st.claims);
        let cells = spec_cells_claims(x, y, n, count);
        let mpos = (((x + n) as u8), (y as u8));
        assert(cells[0] == mpos);
        assert((a + cells)[a.len() as int] == mpos);
        match find_pos(st.claims, mpos) {
            Some(_) => {
                crate::maps::lemma_find_pos_some_index(st.claims, mpos, 0);
                let w = choose|w: int|
                    0 <= w < st.claims.len() && (#[trigger] st.claims[w]).0 == mpos;
                assert((a + cells)[w] == mpos);
                assert(false);
            },
            None => {
                let located = KeyAt::Located(MatrixPosition(mpos.0, mpos.1));
                let lpos = (((xl + n) as u8), (y as u8));
                let stm = LayoutState {
                    phys: st.phys.push((mpos, located)),
                    lay: st.lay.push((lpos, located)),
                    l2p: st.l2p.push((lpos, mpos)),
                    claims: st.claims.push((mpos, span)),
                };
                assert(claims_pos(stm.claims) + spec_cells_claims(x, y, n + 1, count) =~= (a
                    + cells));
                lemma_keys_cells_ok_when_fresh(stm, x, xl, y, n + 1, count, span);
            },
        }
    }
}

/// When a row's items stay in range and claim only fresh positions, the
/// row resolves.
proof fn lemma_row_items_ok_when_fresh(
    st: LayoutState,
    items: Seq<LayoutDefn>,
    j: int,
    x: int,
    xl: int,
    y: int,
)
    requires
        spec_row_in_range(items, j, x),
        positions_distinct(claims_pos(st.claims) + spec_row_claims(items, j, x, y)),
    ensures
        spec_row_items(st, items, j, x, xl, y) is Ok,
    decreases items.len() - j,
{
    if j < items.len() {
        let a = claims_pos(st.claims);
        match items[j] {
            LayoutDefn::Keys { count, span } => {
                let cells = spec_cells_claims(x, y, 0, count as int);
                let rest = spec_row_claims(items, j + 1, x + count, y);
                assert(spec_row_claims(items, j, x, y) == cells + rest);
                assert(a + cells =~= (a + (cells + rest)).take(a.len() as int + cells.len() as int));
                lemma_keys_cells_ok_when_fresh(st, x, xl, y, 0, count as int, span);
                match spec_keys_cells(st, x, xl, y, 0, count as int, span) {
                    Ok(st2) => {
                        assert(positions_distinct(claims_pos(st.claims))) by {
                            assert(forall|i: int|
                                0 <= i < a.len() ==> a[i] == (a + spec_row_claims(
                                    items,
                                    j,
                                    x,
                                    y,
                                ))[i]);
                        }
                        lemma_keys_cells_claims(st, x, xl, y, 0, count as int, span);
                        assert(claims_pos(st2.claims) =~= a + cells);
                        assert(claims_pos(st2.claims) + rest =~= a + (cells + rest));
                        lemma_row_items_ok_when_fresh(st2, items, j + 1, x + count, xl + count, y);
                    },
                    Err(_) => {},
                }
            },
            LayoutDefn::RemappedKey { position, span } => {
                let mpos = (position, (y as u8));
                let rest = spec_row_claims(items, j + 1, x + 1, y);
                assert(spec_row_claims(items, j, x, y) == seq![mpos] + rest);
                assert((a + (seq![mpos] + rest))[a.len() as int] == mpos);
                match find_pos(st.claims, mpos) {
                    Some(_) => {
                        crate::maps::lemma_find_pos_some_index(st.claims, mpos, 0);
                        let w = choose|w: int|
                            0 <= w < st.claims.len() && (#[trigger] st.claims[w]).0 == mpos;
                        assert((a + (seq![mpos] + rest))[w] == mpos);
                        assert(false);
                    },
                    None => {
                        let located = KeyAt::Located(MatrixPosition(position, y as u8));
                        let ppos = ((x as u8), (y as u8));
                        let lpos = ((xl as u8), (y as u8));
                        let stm = LayoutState {
                            phys: st.phys.push((ppos, located)),
                            lay: st.lay.push((lpos, located)),
                            l2p: st.l2p.push((lpos, ppos)),
                            claims: st.claims.push((mpos, span)),
                        };
                        assert(claims_pos(stm.claims) + rest =~= (a + (seq![mpos] + rest)));
                        lemma_row_items_ok_when_fresh(stm, items, j + 1, x + 1, xl + 1, y);
                    },
                }
            },
            LayoutDefn::Spaces { count, .. } => {
                let stm = spec_spaces_cells(st, x, y, 0, count as int);
                lemma_spaces_cells_claims(st, x, y, 0, count as int);
                lemma_row_items_ok_when_fresh(stm, items, j + 1, x + count, xl, y);
            },
        }
    }
}

/// From row `k` on, with fresh claims and rows in range, the first row
/// whose width differs from the expected one fails with a width error
/// citing the expected width.
proof fn lemma_rows_width_mismatch(
    st: LayoutState,
    rows: Seq<crate::syntax::LayoutRowV>,
    k: int,
    w: u8,
)
    requires
        0 <= k,
        positions_distinct(claims_pos(st.claims) + spec_layout_claims(rows, k)),
        forall|r: int| k <= r < rows.len() ==> spec_row_in_range((#[trigger] rows[r]).items, 0, 0),
        exists|r: int| k <= r < rows.len() && spec_row_width((#[trigger] rows[r]).items, 0, 0)
            != w as int,
    ensures
        spec_layout_rows(st, rows, k, Some(w)) matches Err(e) && e matches
            AppErrorV::InconsistentMatrixWidth { expected, got, .. } && expected == w && got != w,
    decreases rows.len() - k,
{
    let a = claims_pos(st.claims);
    let rc = spec_row_claims(rows[k].items, 0, 0, k);
    let rest = spec_layout_claims(rows, k + 1);
    assert(spec_layout_claims(rows, k) == rc + rest);
    assert(a + rc =~= (a + (rc + rest)).take(a.len() as int + rc.len() as int));
    lemma_row_items_ok_when_fresh(st, rows[k].items, 0, 0, 0, k);
    lemma_row_items_width(st, rows[k].items, 0, 0, 0, k);
    lemma_row_items_in_range(st, rows[k].items, 0, 0, 0, k);
    match spec_row_items(st, rows[k].items, 0, 0, 0, k) {
        Ok((st2, x)) => {
            if x != w as int {
            } else {
                assert(positions_distinct(claims_pos(st.claims))) by {
                    assert(forall|i: int|
                        0 <= i < a.len() ==> a[i] == (a + spec_layout_claims(rows, k))[i]);
                }
                lemma_row_items_claims(st, rows[k].items, 0, 0, 0, k);
                assert(claims_pos(st2.claims) =~= a + rc);
                assert(claims_pos(st2.claims) + rest =~= a + (rc + rest));
                let rbad = choose|r: int|
                    k <= r < rows.len() && spec_row_width((#[trigger] rows[r]).items, 0, 0)
                        != w as int;
                assert(rbad != k);
                assert(k + 1 <= rbad < rows.len() && spec_row_width(rows[rbad].items, 0, 0)
                    != w as int);
                lemma_rows_width_mismatch(st2, rows, k + 1, w);
            }
        },
        Err(_) => {},
    }
}

/// Two layout rows with different expanded widths always fail with an
/// inconsistent-width error citing the first row's width as the expected
/// width, provided the rows themselves are well-formed (no overlapping
/// claims, coordinates in range).
pub proof fn lemma_width_mismatch_always_fails(layout: LayoutV, bad: int)
    requires
        1 <= layout.rows.len() <= 255,
        0 < bad < layout.rows.len(),
        spec_row_width(layout.rows[bad].items, 0, 0) != spec_row_width(layout.rows[0].items, 0, 0),
        positions_distinct(spec_layout_claims(layout.rows, 0)),
        forall|r: int| 0 <= r < layout.rows.len() ==> spec_row_in_range(
            (#[trigger] layout.rows[r]).items,
            0,
            0,
        ),
    ensures
        spec_layout_process(layout) matches Err(e) && e matches
            AppErrorV::InconsistentMatrixWidth { expected, .. } && expected as int
            == spec_row_width(layout.rows[0].items, 0, 0),
{
    let st0 = empty_layout_state();
    let a = claims_pos(st0.claims);
    assert(a =~= Seq::<(u8, u8)>::empty());
    assert(a + spec_layout_claims(layout.rows, 0) =~= spec_layout_claims(layout.rows, 0));
    let rc = spec_row_claims(layout.rows[0].items, 0, 0, 0);
    let rest = spec_layout_claims(layout.rows, 1);
    assert(spec_layout_claims(layout.rows, 0) == rc + rest);
    assert(a + rc =~= (a + (rc + rest)).take(a.len() as int + rc.len() as int));
    lemma_row_items_ok_when_fresh(st0, layout.rows[0].items, 0, 0, 0, 0);
    lemma_row_items_width(st0, layout.rows[0].items, 0, 0, 0, 0);
    lemma_row_items_in_range(st0, layout.rows[0].items, 0, 0, 0, 0);
    match spec_row_items(st0, layout.rows[0].items, 0, 0, 0, 0) {
        Ok((st1, x0)) => {
            assert(positions_distinct(a));
            lemma_row_items_claims(st0, layout.rows[0].items, 0, 0, 0, 0);
            assert(claims_pos(st1.claims) =~= a + rc);
            assert(claims_pos(st1.claims) + rest =~= a + (rc + rest));
            assert(spec_row_width(layout.rows[bad].items, 0, 0) != x0);
            lemma_rows_width_mismatch(st1, layout.rows, 1, x0 as u8);
            assert(spec_layout_rows(st0, layout.rows, 0, None) == spec_layout_rows(
                st1,
                layout.rows,
                1,
                Some(x0 as u8),
            ));
        },
        Err(_) => {},
    }
}

} // verus!
