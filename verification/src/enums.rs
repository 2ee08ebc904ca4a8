//! Small enumerations of the editor's operations: alignment and distribution
//! kinds, boolean operations, preview move kinds, drawing gestures.

use vstd::prelude::*;

verus! {

/// Alignment kind.
#[derive(Debug, Clone, Copy, PartialEq, Eq, Structural)]
pub enum Align {
    Left,
    HCenter,
    Right,
    Top,
    VCenter,
    Bottom,
}

/// Distribution kind (equal spacing of the start edges).
#[derive(Debug, Clone, Copy, PartialEq, Eq, Structural)]
pub enum Distribute {
    Horizontal,
    Vertical,
}

/// Boolean operation of two polygon sets.
#[derive(Debug, Clone, Copy, PartialEq, Eq, Structural)]
pub enum BoolOp {
    /// Union (A ∪ B).
    Union,
    /// Intersection (A ∩ B).
    Intersect,
    /// Difference (A − B).
    Difference,
}

/// Kind of a preview movement segment.
#[derive(Debug, Clone, Copy, PartialEq, Eq, Structural)]
pub enum MoveKind {
    /// Follow an outline (laser on).
    Cut,
    /// Follow a scan line (laser on).
    Fill,
    /// Follow a raster row (laser modulated).
    Raster,
    /// Travel (laser off) between two work segments.
    Travel,
}

/// Box-shaped drawing gesture.
#[derive(Debug, Clone, Copy, PartialEq, Eq, Structural)]
pub enum BoxShape {
    Rect,
    Ellipse,
}

/// Point-path drawing gesture.
#[derive(Debug, Clone, Copy, PartialEq, Eq, Structural)]
pub enum PointPath {
    Polyline,
    Spline,
    Bezier,
}

} // verus!
