//! Handle logic for the scaling handles around a selection box.

use vstd::prelude::*;

verus! {

/// One of the eight scaling handles, named after the edge it moves
/// (N = top, S = bottom, W = left, E = right).
#[derive(Debug, Clone, Copy, PartialEq, Eq, Structural)]
pub enum Handle {
    N,
    S,
    W,
    E,
    Nw,
    Ne,
    Sw,
    Se,
}

impl Handle {
    /// Does dragging this handle move the left edge?
    pub open spec fn spec_moves_left(self) -> bool {
        self is W || self is Nw || self is Sw
    }

    pub open spec fn spec_moves_right(self) -> bool {
        self is E || self is Ne || self is Se
    }

    pub open spec fn spec_moves_top(self) -> bool {
        self is N || self is Nw || self is Ne
    }

    pub open spec fn spec_moves_bottom(self) -> bool {
        self is S || self is Sw || self is Se
    }

    pub open spec fn spec_is_corner(self) -> bool {
        self is Nw || self is Ne || self is Sw || self is Se
    }

    pub fn moves_left(&self) -> (r: bool)
        ensures r == self.spec_moves_left(),
    {
        matches!(self, Handle::W | Handle::Nw | Handle::Sw)
    }

    pub fn moves_right(&self) -> (r: bool)
        ensures r == self.spec_moves_right(),
    {
        matches!(self, Handle::E | Handle::Ne | Handle::Se)
    }

    pub fn moves_top(&self) -> (r: bool)
        ensures r == self.spec_moves_top(),
    {
        matches!(self, Handle::N | Handle::Nw | Handle::Ne)
    }

    pub fn moves_bottom(&self) -> (r: bool)
        ensures r == self.spec_moves_bottom(),
    {
        matches!(self, Handle::S | Handle::Sw | Handle::Se)
    }

    /// Is the handle a corner (scales both axes)?
    pub fn is_corner(&self) -> (r: bool)
        ensures r == self.spec_is_corner(),
    {
        matches!(self, Handle::Nw | Handle::Ne | Handle::Sw | Handle::Se)
    }
}

/// A handle is a corner exactly when it moves one horizontal and one vertical
/// edge; no handle moves both opposite edges of an axis.
pub proof fn corner_moves_both_axes(h: Handle)
    ensures
        h.spec_is_corner() <==> ((h.spec_moves_left() || h.spec_moves_right()) && (
        h.spec_moves_top() || h.spec_moves_bottom())),
        !(h.spec_moves_left() && h.spec_moves_right()),
        !(h.spec_moves_top() && h.spec_moves_bottom()),
{
}

} // verus!
