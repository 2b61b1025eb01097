//! The size of a terminal window.

use vstd::prelude::*;
use vstd::std_specs::cmp::PartialEqSpecImpl;

verus! {

/// A terminal's dimensions, in character cells and in pixels.
///
/// Two sizes are equal when their rows and columns are: the pixel fields
/// take no part in the comparison.
#[derive(Clone, Copy, Debug)]
pub struct WinSize {
    pub rows: u16,
    pub cols: u16,
    /// Unused
    pub __xpixel: u16,
    /// Unused
    pub __ypixel: u16,
}

impl PartialEq for WinSize {
    fn eq(&self, other: &Self) -> (equal: bool) {
        self.rows == other.rows && self.cols == other.cols
    }
}

impl PartialEqSpecImpl for WinSize {
    open spec fn obeys_eq_spec() -> bool {
        true
    }

    open spec fn eq_spec(&self, other: &Self) -> bool {
        self.rows == other.rows && self.cols == other.cols
    }
}

impl Default for WinSize {
    /// The empty window: every field zero.
    fn default() -> (size: WinSize)
        ensures
            size == (WinSize { rows: 0, cols: 0, __xpixel: 0, __ypixel: 0 }),
    {
        WinSize { rows: 0, cols: 0, __xpixel: 0, __ypixel: 0 }
    }
}

} // verus!
