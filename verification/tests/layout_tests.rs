//! Layout resolution: coordinate mappings, overlap detection, width checks.

use keymap_compiler::errors::AppError;
use keymap_compiler::process::{KeyAt, LayoutMeta, MatrixPosition};
use keymap_compiler::syntax::{Layout, LayoutDefn, LayoutRow, Span};

fn sp() -> Span {
    Span { offset: 0, len: 0 }
}

fn spl(offset: usize, len: usize) -> Span {
    Span { offset, len }
}

fn keys(count: u8) -> LayoutDefn {
    LayoutDefn::Keys { count, span: sp() }
}

fn spaces(count: u8) -> LayoutDefn {
    LayoutDefn::Spaces { count, span: sp() }
}

fn remap(position: u8) -> LayoutDefn {
    LayoutDefn::RemappedKey { position, span: sp() }
}

fn row(items: Vec<LayoutDefn>) -> LayoutRow {
    LayoutRow { items, semi: sp(), span: sp() }
}

fn layout(rows: Vec<LayoutRow>) -> Layout {
    Layout { rows, span: sp() }
}

#[test]
fn two_keys_single_row() {
    let l = layout(vec![row(vec![keys(2)])]);
    let m = LayoutMeta::process(&l).unwrap();
    assert_eq!(m.width, 2);
    assert_eq!(m.height, 1);
    assert_eq!(
        m.phys_to_matrix.get((0, 0)),
        Some(KeyAt::Located(MatrixPosition(0, 0)))
    );
    assert_eq!(
        m.phys_to_matrix.get((1, 0)),
        Some(KeyAt::Located(MatrixPosition(1, 0)))
    );
    assert_eq!(m.layout_to_phys.get((0, 0)), Some((0, 0)));
    assert_eq!(m.layout_to_phys.get((1, 0)), Some((1, 0)));
    assert_eq!(m.phys_to_matrix.get((2, 0)), None);
}

#[test]
fn spacers_compact_the_layout_grid() {
    // 1k 2s 1k; : physical columns 0..3, layout columns 0..1
    let l = layout(vec![row(vec![keys(1), spaces(2), keys(1)])]);
    let m = LayoutMeta::process(&l).unwrap();
    assert_eq!(m.width, 4);
    assert_eq!(m.height, 1);
    assert_eq!(m.phys_to_matrix.get((1, 0)), Some(KeyAt::Space));
    assert_eq!(m.phys_to_matrix.get((2, 0)), Some(KeyAt::Space));
    // the second key is layout column 1 but physical column 3
    assert_eq!(m.layout_to_phys.get((1, 0)), Some((3, 0)));
    assert_eq!(
        m.layout_to_matrix.get((1, 0)),
        Some(KeyAt::Located(MatrixPosition(3, 0)))
    );
    // spacers get no layout position
    assert_eq!(m.layout_to_phys.get((2, 0)), None);
}

#[test]
fn remapped_key_claims_explicit_matrix_column() {
    // 1k [5]; : second physical cell is wired at matrix column 5
    let l = layout(vec![row(vec![keys(1), remap(5)])]);
    let m = LayoutMeta::process(&l).unwrap();
    assert_eq!(m.width, 2);
    assert_eq!(
        m.phys_to_matrix.get((1, 0)),
        Some(KeyAt::Located(MatrixPosition(5, 0)))
    );
    assert_eq!(
        m.layout_to_matrix.get((1, 0)),
        Some(KeyAt::Located(MatrixPosition(5, 0)))
    );
    assert_eq!(m.layout_to_phys.get((1, 0)), Some((1, 0)));
}

#[test]
fn overlapping_claims_fail_keys_then_remap() {
    // 1k [0]; : the remap claims matrix (0,0), already claimed by the key
    let first = LayoutDefn::Keys { count: 1, span: spl(9, 2) };
    let second = LayoutDefn::RemappedKey { position: 0, span: spl(12, 3) };
    let l = layout(vec![row(vec![first, second])]);
    match LayoutMeta::process(&l) {
        Err(AppError::OverlappingKeys { span, other_span }) => {
            assert_eq!(span, spl(9, 2));
            assert_eq!(other_span, spl(12, 3));
        }
        other => panic!("expected an overlap error, got {:?}", other),
    }
}

#[test]
fn overlapping_claims_fail_remap_then_keys() {
    // [1] 1k; : the key lands on physical column 1 = matrix (1,0), claimed
    // by the remap; the overlap is caught in the other claim order too.
    let first = LayoutDefn::RemappedKey { position: 1, span: spl(9, 3) };
    let second = LayoutDefn::Keys { count: 1, span: spl(13, 2) };
    let l = layout(vec![row(vec![first, second])]);
    match LayoutMeta::process(&l) {
        Err(AppError::OverlappingKeys { span, other_span }) => {
            assert_eq!(span, spl(9, 3));
            assert_eq!(other_span, spl(13, 2));
        }
        other => panic!("expected an overlap error, got {:?}", other),
    }
}

#[test]
fn inconsistent_width_cites_first_row() {
    // 2k; 3k; : the second row is wider than the first
    let bad = LayoutRow { items: vec![keys(3)], semi: sp(), span: spl(13, 3) };
    let l = layout(vec![row(vec![keys(2)]), bad]);
    match LayoutMeta::process(&l) {
        Err(AppError::InconsistentMatrixWidth { bad_row, got, expected }) => {
            assert_eq!(expected, 2);
            assert_eq!(got, 3);
            assert_eq!(bad_row, spl(13, 3));
        }
        other => panic!("expected a width error, got {:?}", other),
    }
}

#[test]
fn inconsistent_width_fails_for_narrower_row_too() {
    let l = layout(vec![row(vec![keys(3)]), row(vec![keys(2)])]);
    match LayoutMeta::process(&l) {
        Err(AppError::InconsistentMatrixWidth { got, expected, .. }) => {
            assert_eq!(expected, 3);
            assert_eq!(got, 2);
        }
        other => panic!("expected a width error, got {:?}", other),
    }
}

#[test]
fn spacers_count_toward_row_width() {
    // 1k 1s; and 2k; both expand to width 2
    let l = layout(vec![row(vec![keys(1), spaces(1)]), row(vec![keys(2)])]);
    let m = LayoutMeta::process(&l).unwrap();
    assert_eq!(m.width, 2);
    assert_eq!(m.height, 2);
}

#[test]
fn coordinates_past_the_matrix_range_fail() {
    // 255k 1k; : the second declaration would put a cell past column 255
    let over = LayoutDefn::Keys { count: 1, span: spl(14, 2) };
    let l = layout(vec![row(vec![keys(255), over])]);
    match LayoutMeta::process(&l) {
        Err(AppError::CoordinateOutOfRange { span }) => {
            assert_eq!(span, spl(14, 2));
        }
        other => panic!("expected a range error, got {:?}", other),
    }
}
