//! The fallback implementation for platforms without a native enumerator:
//! enumeration visits zero images, and no image or segment value is ever
//! produced, so the accessors the other platforms offer have nothing here to
//! be called on.

use vstd::prelude::*;

use crate::IterationControl;

verus! {

/// A segment on an unsupported platform; no value of it is ever produced,
/// so it offers no accessors to call.
#[derive(Debug)]
pub struct Segment {
    not_produced: (),
}

/// A shared library on an unsupported platform; no value of it is ever
/// produced, so its only entry point is the enumeration that visits nothing.
#[derive(Debug)]
pub struct SharedLibrary {
    not_produced: (),
}

impl SharedLibrary {
    /// An unsupported platform's image has no segments.
    pub fn segments(&self) -> (r: Vec<Segment>)
        ensures
            r@.len() == 0,
    {
        Vec::new()
    }

    /// Visit nothing: an unsupported platform reports no images, which is
    /// not an error — an empty enumeration is valid.
    pub fn each<F: Fn(&SharedLibrary) -> IterationControl>(_f: &F) -> (visited: usize)
        ensures
            visited == 0,
    {
        0
    }
}

} // verus!
