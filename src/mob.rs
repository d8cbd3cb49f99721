//! Marker components of mob kinds.
use vstd::prelude::*;

verus! {

/// Marks a ghast.
#[derive(Clone, Copy, Debug, PartialEq, Eq, Structural)]
pub struct Ghast;

/// Marks a horse.
#[derive(Clone, Copy, Debug, PartialEq, Eq, Structural)]
pub struct Horse;

} // verus!
