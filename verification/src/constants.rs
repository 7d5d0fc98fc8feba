//! Fixed values of the manuscript format.

use vstd::prelude::*;

verus! {

/// Run size handed to the renderer; the container format doubles point sizes,
/// so this stands for 12pt text.
pub const FONT_SIZE: usize = 24;

/// The font used for modern-style manuscripts.
pub const DEFAULT_FONT: &'static str = "Times New Roman";

/// The font used for classic-style manuscripts.
pub const CLASSIC_FONT: &'static str = "Courier New";

} // verus!
