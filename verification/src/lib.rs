//! Compiler core for a small keyboard-layout description language.
//!
//! A layout file declares the physical key grid, named layers of key
//! bindings, mod-tap keys, chords (combos), per-backend options and custom
//! named keys.  This crate resolves that description into firmware-ready
//! metadata: the mapping between physical, layout and matrix coordinates,
//! per-layer resolved keys and chords, synthetic matrix slots allocated for
//! chords, and fully bound actions for the firmware and diagram backends.

use vstd::prelude::*;

pub mod emit_keymap_drawer;
pub mod emit_rustydilemma;
pub mod errors;
pub mod format;
pub mod maps;
pub mod process;
pub mod similar;
pub mod syntax;

verus! {

/// The model of a `Result`: both sides taken to their ghost models.
pub open spec fn res_model<T: DeepView, E: DeepView>(r: Result<T, E>) -> Result<T::V, E::V> {
    match r {
        Ok(t) => Ok(t.deep_view()),
        Err(e) => Err(e.deep_view()),
    }
}

/// Pushing onto a vector pushes the element's model onto the vector's model.
pub proof fn lemma_deep_view_push<T: DeepView>(v1: Vec<T>, v2: Vec<T>, x: T)
    requires
        v2@ == v1@.push(x),
    ensures
        v2.deep_view() == v1.deep_view().push(x.deep_view()),
{
    assert(v2.deep_view() =~= v1.deep_view().push(x.deep_view()));
}

/// An empty vector's model is the empty sequence.
pub proof fn lemma_deep_view_empty<T: DeepView>(v: Vec<T>)
    requires
        v@ == Seq::<T>::empty(),
    ensures
        v.deep_view() == Seq::<T::V>::empty(),
{
    assert(v.deep_view() =~= Seq::<T::V>::empty());
}

} // verus!
