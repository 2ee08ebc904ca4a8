//! Layer modes of the basic editor core, which knows cutting, filling and
//! rastering but no image layers.

use vstd::prelude::*;

verus! {

/// How a layer is processed — decides HOW the laser works it.
#[derive(Debug, Clone, Copy, PartialEq, Eq, Structural)]
pub enum LayerMode {
    Cut,
    Fill,
    Raster,
}

impl LayerMode {
    pub open spec fn spec_is_filled(self) -> bool {
        self is Fill || self is Raster
    }

    /// Fill and raster layers fill areas; cut layers only follow the outline.
    pub fn is_filled(&self) -> (r: bool)
        ensures
            r == self.spec_is_filled(),
    {
        matches!(self, LayerMode::Fill | LayerMode::Raster)
    }
}

impl Default for LayerMode {
    fn default() -> (m: LayerMode)
        ensures
            m == LayerMode::Cut,
    {
        LayerMode::Cut
    }
}

} // verus!
