//! The denoising engine, an opaque value of the `nnnoiseless` crate.

use vstd::prelude::*;

verus! {

/// The engine's per-stream state. Nothing inside it is visible here: the
/// library owns engines, hands them out and drops them, and never looks into
/// one.
#[verifier::external_type_specification]
#[verifier::external_body]
pub struct ExDenoiseState<'model>(nnnoiseless::DenoiseState<'model>);

/// Calls `nnnoiseless::DenoiseState::new`, which allocates an engine with the
/// built-in model and all of its history cleared. Nothing is claimed of the
/// result.
#[verifier::external_body]
pub(crate) fn new_engine() -> (engine: Box<nnnoiseless::DenoiseState<'static>>) {
    nnnoiseless::DenoiseState::new()
}

} // verus!
