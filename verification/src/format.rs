//! Column alignment widths for the layout formatter.
//!
//! The formatter lines the keys of every layer up in columns.  For each
//! physical column this module computes the widest key text and the widest
//! chord text that any layer puts there, and which grid cells are spacers
//! (so the formatter leaves them blank).  Rendering itself is a driver
//! concern; only this computation reads the resolved metadata.

use vstd::prelude::*;

use crate::maps::{find_pos, PosMap};
use crate::process::{LayerMetaV, Metadata, MetadataV, ResolvedChordV, ResolvedKeyV};

verus! {

/// The alignment widths of one column: the widest key text and the widest
/// chord text placed there by any layer.
#[derive(Clone, Copy, Debug, PartialEq, Eq, Structural)]
pub struct KeySpacing {
    pub key_width: usize,
    pub chord_width: usize,
}

impl DeepView for KeySpacing {
    type V = KeySpacing;

    open spec fn deep_view(&self) -> KeySpacing {
        *self
    }
}

impl Default for KeySpacing {
    fn default() -> (r: Self)
        ensures
            r == (KeySpacing { key_width: 0, chord_width: 0 }),
    {
        KeySpacing { key_width: 0, chord_width: 0 }
    }
}

/// The physical-to-layout mapping: the layout-to-physical entries, swapped,
/// from entry `i` on.
pub open spec fn spec_invert(
    s: Seq<((u8, u8), (u8, u8))>,
    i: int,
    acc: Seq<((u8, u8), (u8, u8))>,
) -> Seq<((u8, u8), (u8, u8))>
    decreases s.len() - i,
{
    if i >= s.len() {
        acc
    } else {
        spec_invert(s, i + 1, acc.push((s[i].1, s[i].0)))
    }
}

/// The span length of the first key of a layer at a layout position.
pub open spec fn spec_key_len_at(keys: Seq<ResolvedKeyV>, lpos: (u8, u8), i: int) -> Option<int>
    decreases keys.len() - i,
{
    if i < 0 || i >= keys.len() {
        None
    } else if keys[i].layout_pos == lpos {
        Some(keys[i].key.spec_span().len as int)
    } else {
        spec_key_len_at(keys, lpos, i + 1)
    }
}

/// The span length of the first chord of a layer whose left key sits at a
/// position.
pub open spec fn spec_chord_len_at(chords: Seq<ResolvedChordV>, pos: (u8, u8), i: int) -> Option<
    int,
>
    decreases chords.len() - i,
{
    if i < 0 || i >= chords.len() {
        None
    } else if chords[i].left_layout == pos {
        Some(chords[i].chord.span.len as int)
    } else {
        spec_chord_len_at(chords, pos, i + 1)
    }
}

/// Scans column `x` of every layer, row by row, keeping the widest key and
/// chord lengths seen.  `None` when some layer lacks a key at a layout
/// position of the column: the layers do not cover the grid.
pub open spec fn spec_scan_col(
    inv: Seq<((u8, u8), (u8, u8))>,
    layers: Seq<LayerMetaV>,
    x: int,
    height: int,
    li: int,
    y: int,
    kw: int,
    cw: int,
) -> Option<(int, int)>
    decreases layers.len() - li, height - y,
{
    if li >= layers.len() {
        Some((kw, cw))
    } else if y >= height {
        spec_scan_col(inv, layers, x, height, li + 1, 0, kw, cw)
    } else {
        let cell = ((x as u8), (y as u8));
        match find_pos(inv, cell) {
            None => spec_scan_col(inv, layers, x, height, li, y + 1, kw, cw),
            Some(lpos) => match spec_key_len_at(layers[li].keys, lpos, 0) {
                None => None,
                Some(kl) => {
                    let kw2 = if kl > kw {
                        kl
                    } else {
                        kw
                    };
                    let cw2 = match spec_chord_len_at(layers[li].chords, cell, 0) {
                        Some(cl) => if cl > cw {
                            cl
                        } else {
                            cw
                        },
                        None => cw,
                    };
                    spec_scan_col(inv, layers, x, height, li, y + 1, kw2, cw2)
                },
            },
        }
    }
}

/// The column widths, from column `x` on.
pub open spec fn spec_columns(
    inv: Seq<((u8, u8), (u8, u8))>,
    layers: Seq<LayerMetaV>,
    x: int,
    width: int,
    height: int,
    acc: Seq<KeySpacing>,
) -> Option<Seq<KeySpacing>>
    decreases width - x,
{
    if x >= width {
        Some(acc)
    } else {
        match spec_scan_col(inv, layers, x, height, 0, 0, 0, 0) {
            None => None,
            Some((kw, cw)) => spec_columns(
                inv,
                layers,
                x + 1,
                width,
                height,
                acc.push(KeySpacing { key_width: kw as usize, chord_width: cw as usize }),
            ),
        }
    }
}

/// The spacer cells, column-major, from cell (`x`, `y`) on: every physical
/// position with no layout position.
pub open spec fn spec_empties(
    inv: Seq<((u8, u8), (u8, u8))>,
    x: int,
    y: int,
    width: int,
    height: int,
    acc: Seq<(u8, u8)>,
) -> Seq<(u8, u8)>
    decreases width - x, height - y,
{
    if x >= width {
        acc
    } else if y >= height {
        spec_empties(inv, x + 1, 0, width, height, acc)
    } else {
        let cell = ((x as u8), (y as u8));
        match find_pos(inv, cell) {
            Some(_) => spec_empties(inv, x, y + 1, width, height, acc),
            None => spec_empties(inv, x, y + 1, width, height, acc.push(cell)),
        }
    }
}

/// The formatter's alignment data.
#[derive(Debug, PartialEq, Eq)]
pub struct Format {
    /// One [`KeySpacing`] per physical column.
    pub column_widths: Vec<KeySpacing>,
    /// The spacer cells, column-major.
    pub empties: Vec<(u8, u8)>,
}

/// Ghost model of a [`Format`].
pub struct FormatV {
    pub column_widths: Seq<KeySpacing>,
    pub empties: Seq<(u8, u8)>,
}

impl DeepView for Format {
    type V = FormatV;

    open spec fn deep_view(&self) -> FormatV {
        FormatV { column_widths: self.column_widths@, empties: self.empties@ }
    }
}

/// The exact alignment data for resolved metadata, or `None` when some
/// layer lacks a key at a layout position (the layers do not cover the
/// grid).
pub open spec fn spec_format_new(meta: MetadataV) -> Option<FormatV> {
    let inv = spec_invert(meta.layout.layout_to_phys, 0, Seq::empty());
    match spec_columns(
        inv,
        meta.layers.layers,
        0,
        meta.layout.width as int,
        meta.layout.height as int,
        Seq::empty(),
    ) {
        None => None,
        Some(cols) => Some(
            FormatV {
                column_widths: cols,
                empties: spec_empties(
                    inv,
                    0,
                    0,
                    meta.layout.width as int,
                    meta.layout.height as int,
                    Seq::empty(),
                ),
            },
        ),
    }
}

/// The span length of the first key of a layer at a layout position.
fn key_len_at(keys: &Vec<crate::process::ResolvedKey>, lpos: (u8, u8)) -> (r: Option<usize>)
    ensures
        (match r {
            Some(l) => Some(l as int),
            None => None,
        }) == spec_key_len_at(keys.deep_view(), lpos, 0),
{
    let n = keys.len();
    let mut i: usize = 0;
    while i < n
        invariant
            0 <= i <= n,
            n == keys.len(),
            spec_key_len_at(keys.deep_view(), lpos, 0) == spec_key_len_at(
                keys.deep_view(),
                lpos,
                i as int,
            ),
        decreases n - i,
    {
        proof {
            assert(keys.deep_view()[i as int] == keys[i as int].deep_view());
        }
        let k = &keys[i];
        if k.layout_pos.0 == lpos.0 && k.layout_pos.1 == lpos.1 {
            let span = k.key.span();
            return Some(span.len);
        }
        i = i + 1;
    }
    None
}

/// The span length of the first chord of a layer whose left key sits at a
/// position.
fn chord_len_at(chords: &Vec<crate::process::ResolvedChord>, pos: (u8, u8)) -> (r: Option<usize>)
    ensures
        (match r {
            Some(l) => Some(l as int),
            None => None,
        }) == spec_chord_len_at(chords.deep_view(), pos, 0),
{
    let n = chords.len();
    let mut i: usize = 0;
    while i < n
        invariant
            0 <= i <= n,
            n == chords.len(),
            spec_chord_len_at(chords.deep_view(), pos, 0) == spec_chord_len_at(
                chords.deep_view(),
                pos,
                i as int,
            ),
        decreases n - i,
    {
        proof {
            assert(chords.deep_view()[i as int] == chords[i as int].deep_view());
        }
        let c = &chords[i];
        if c.left_layout.0 == pos.0 && c.left_layout.1 == pos.1 {
            return Some(c.chord.span.len);
        }
        i = i + 1;
    }
    None
}

/// Scans column `x` of every layer for its widest key and chord lengths.
fn scan_col(inv: &PosMap<(u8, u8)>, meta: &Metadata, x: u8, height: u8) -> (r: Option<
    (usize, usize),
>)
    ensures
        (match r {
            Some(p) => Some((p.0 as int, p.1 as int)),
            None => None,
        }) == spec_scan_col(
            inv.model(),
            meta.layers.layers.deep_view(),
            x as int,
            height as int,
            0,
            0,
            0,
            0,
        ),
{
    let mut kw: usize = 0;
    let mut cw: usize = 0;
    let mut li: usize = 0;
    while li < meta.layers.layers.len()
        invariant
            0 <= li <= meta.layers.layers.len(),
            spec_scan_col(
                inv.model(),
                meta.layers.layers.deep_view(),
                x as int,
                height as int,
                0,
                0,
                0,
                0,
            ) == spec_scan_col(
                inv.model(),
                meta.layers.layers.deep_view(),
                x as int,
                height as int,
                li as int,
                0,
                kw as int,
                cw as int,
            ),
        decreases meta.layers.layers.len() - li,
    {
        proof {
            assert(meta.layers.layers.deep_view()[li as int] == meta.layers.layers[li as int].deep_view());
        }
        let layer = &meta.layers.layers[li];
        let mut y: usize = 0;
        while y < height as usize
            invariant
                0 <= y <= height,
                li < meta.layers.layers.len(),
                layer == &meta.layers.layers[li as int],
                spec_scan_col(
                    inv.model(),
                    meta.layers.layers.deep_view(),
                    x as int,
                    height as int,
                    0,
                    0,
                    0,
                    0,
                ) == spec_scan_col(
                    inv.model(),
                    meta.layers.layers.deep_view(),
                    x as int,
                    height as int,
                    li as int,
                    y as int,
                    kw as int,
                    cw as int,
                ),
            decreases height - y,
        {
            proof {
                assert(meta.layers.layers.deep_view()[li as int] == meta.layers.layers[li as int].deep_view());
            }
            let cell = (x, y as u8);
            match inv.get(cell) {
                None => {},
                Some(lpos) => {
                    match key_len_at(&layer.keys, lpos) {
                        None => {
                            return None;
                        },
                        Some(kl) => {
                            if kl > kw {
                                kw = kl;
                            }
                            match chord_len_at(&layer.chords, cell) {
                                Some(cl) => {
                                    if cl > cw {
                                        cw = cl;
                                    }
                                },
                                None => {},
                            }
                        },
                    }
                },
            }
            y = y + 1;
        }
        li = li + 1;
    }
    Some((kw, cw))
}

impl Format {
    /// Computes the alignment widths and the spacer cells for resolved
    /// metadata.  `None` when some layer lacks a key at a layout position
    /// of the grid: alignment is only defined for layers that cover the
    /// layout.
    pub fn new(meta: &Metadata) -> (r: Option<Format>)
        ensures
            (match r {
                Some(f) => Some(f.deep_view()),
                None => None,
            }) == spec_format_new(meta.deep_view()),
    {
        let mut inv: PosMap<(u8, u8)> = PosMap::new();
        let n = meta.layout.layout_to_phys.entries.len();
        let mut i: usize = 0;
        while i < n
            invariant
                0 <= i <= n,
                n == meta.layout.layout_to_phys.entries.len(),
                spec_invert(meta.layout.layout_to_phys.model(), 0, Seq::empty()) == spec_invert(
                    meta.layout.layout_to_phys.model(),
                    i as int,
                    inv.model(),
                ),
            decreases n - i,
        {
            let e = meta.layout.layout_to_phys.entries[i];
            inv.insert(e.1, e.0);
            i = i + 1;
        }
        let width = meta.layout.width;
        let height = meta.layout.height;
        let mut cols: Vec<KeySpacing> = Vec::new();
        let mut x: usize = 0;
        while x < width as usize
            invariant
                0 <= x <= width,
                width == meta.layout.width,
                height == meta.layout.height,
                inv.model() == spec_invert(
                    meta.deep_view().layout.layout_to_phys,
                    0,
                    Seq::empty(),
                ),
                spec_columns(
                    inv.model(),
                    meta.layers.layers.deep_view(),
                    0,
                    width as int,
                    height as int,
                    Seq::empty(),
                ) == spec_columns(
                    inv.model(),
                    meta.layers.layers.deep_view(),
                    x as int,
                    width as int,
                    height as int,
                    cols@,
                ),
            decreases width - x,
        {
            match scan_col(&inv, meta, x as u8, height) {
                None => {
                    return None;
                },
                Some((kw, cw)) => {
                    cols.push(KeySpacing { key_width: kw, chord_width: cw });
                },
            }
            x = x + 1;
        }
        let mut empties: Vec<(u8, u8)> = Vec::new();
        let mut ex: usize = 0;
        while ex < width as usize
            invariant
                0 <= ex <= width,
                width == meta.layout.width,
                height == meta.layout.height,
                inv.model() == spec_invert(
                    meta.deep_view().layout.layout_to_phys,
                    0,
                    Seq::empty(),
                ),
                spec_empties(inv.model(), 0, 0, width as int, height as int, Seq::empty())
                    == spec_empties(
                    inv.model(),
                    ex as int,
                    0,
                    width as int,
                    height as int,
                    empties@,
                ),
            decreases width - ex,
        {
            let mut ey: usize = 0;
            while ey < height as usize
                invariant
                    0 <= ey <= height,
                    ex < width,
                    width == meta.layout.width,
                    height == meta.layout.height,
                    inv.model() == spec_invert(
                        meta.deep_view().layout.layout_to_phys,
                        0,
                        Seq::empty(),
                    ),
                    spec_empties(inv.model(), 0, 0, width as int, height as int, Seq::empty())
                        == spec_empties(
                        inv.model(),
                        ex as int,
                        ey as int,
                        width as int,
                        height as int,
                        empties@,
                    ),
                decreases height - ey,
            {
                let cell = (ex as u8, ey as u8);
                match inv.get(cell) {
                    Some(_) => {},
                    None => {
                        empties.push(cell);
                    },
                }
                ey = ey + 1;
            }
            ex = ex + 1;
        }
        Some(Format { column_widths: cols, empties })
    }
}

} // verus!
