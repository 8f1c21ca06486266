//! Semantic errors of the compiler.
//!
//! Every error carries the source span(s) of the offending construct(s).
//! Unknown-name errors additionally carry a ranked list of similarly spelled
//! names, so that a driver can print a "did you mean" hint.

use vstd::prelude::*;

use crate::syntax::Span;

verus! {

/// A semantic error found while resolving a layout file.
///
/// Compilation is fail-fast: the first error found aborts the run, and no
/// partial output is produced.
#[derive(Debug, PartialEq, Eq)]
pub enum AppError {
    /// Two layout declarations claim the same matrix position.
    OverlappingKeys { span: Span, other_span: Span },
    /// A chord is not flanked by a plain key on each side within its row.
    BadChordPositions { bad_chord: Span, prev_item: Span, next_item: Span },
    /// A character key is outside the fixed character table.
    UnknownKey { span: Span, key: char },
    /// A named key resolves in no key table; `similar` ranks close names.
    UnknownNamedKey { span: Span, key: String, similar: Vec<String> },
    /// A layer reference names no declared layer; `similar` ranks close names.
    UnknownNamedLayer { span: Span, layer: String, similar: Vec<String> },
    /// A layout row's expanded width differs from the first row's.
    InconsistentMatrixWidth { bad_row: Span, got: u8, expected: u8 },
    /// A layer row references a layout position beyond the declared grid.
    ImpossibleKeyLocation { key: Span },
    /// A backend-required option is absent from the options table.
    OptionRequired { option_name: String, backend: String },
    /// A coordinate left the supported 0..=255 matrix range.
    CoordinateOutOfRange { span: Span },
}

/// Ghost model of an [`AppError`].
pub enum AppErrorV {
    OverlappingKeys { span: Span, other_span: Span },
    BadChordPositions { bad_chord: Span, prev_item: Span, next_item: Span },
    UnknownKey { span: Span, key: char },
    UnknownNamedKey { span: Span, key: Seq<char>, similar: Seq<Seq<char>> },
    UnknownNamedLayer { span: Span, layer: Seq<char>, similar: Seq<Seq<char>> },
    InconsistentMatrixWidth { bad_row: Span, got: u8, expected: u8 },
    ImpossibleKeyLocation { key: Span },
    OptionRequired { option_name: Seq<char>, backend: Seq<char> },
    CoordinateOutOfRange { span: Span },
}

impl DeepView for AppError {
    type V = AppErrorV;

    open spec fn deep_view(&self) -> AppErrorV {
        match self {
            AppError::OverlappingKeys { span, other_span } => AppErrorV::OverlappingKeys {
                span: *span,
                other_span: *other_span,
            },
            AppError::BadChordPositions { bad_chord, prev_item, next_item } => {
                AppErrorV::BadChordPositions {
                    bad_chord: *bad_chord,
                    prev_item: *prev_item,
                    next_item: *next_item,
                }
            },
            AppError::UnknownKey { span, key } => AppErrorV::UnknownKey {
                span: *span,
                key: *key,
            },
            AppError::UnknownNamedKey { span, key, similar } => AppErrorV::UnknownNamedKey {
                span: *span,
                key: key.deep_view(),
                similar: similar.deep_view(),
            },
            AppError::UnknownNamedLayer { span, layer, similar } => AppErrorV::UnknownNamedLayer {
                span: *span,
                layer: layer.deep_view(),
                similar: similar.deep_view(),
            },
            AppError::InconsistentMatrixWidth { bad_row, got, expected } => {
                AppErrorV::InconsistentMatrixWidth {
                    bad_row: *bad_row,
                    got: *got,
                    expected: *expected,
                }
            },
            AppError::ImpossibleKeyLocation { key } => AppErrorV::ImpossibleKeyLocation {
                key: *key,
            },
            AppError::OptionRequired { option_name, backend } => AppErrorV::OptionRequired {
                option_name: option_name.deep_view(),
                backend: backend.deep_view(),
            },
            AppError::CoordinateOutOfRange { span } => AppErrorV::CoordinateOutOfRange {
                span: *span,
            },
        }
    }
}

} // verus!
