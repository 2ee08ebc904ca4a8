//! Fill patterns for closed outlines.

use vstd::prelude::*;

use crate::chars::str_eq;

verus! {

/// The four fill patterns.
#[derive(Debug, Clone, Copy, PartialEq, Eq, Structural)]
pub enum Pattern {
    /// Parallel lines.
    Lines,
    /// Grid of circles.
    Circles,
    /// Grid of slots, offset per row.
    Slots,
    /// Honeycomb grid.
    Hex,
}

/// The frontend key of a pattern.
pub open spec fn pattern_key(p: Pattern) -> Seq<char> {
    match p {
        Pattern::Lines => "lines"@,
        Pattern::Circles => "circles"@,
        Pattern::Slots => "slots"@,
        Pattern::Hex => "hex"@,
    }
}

impl Pattern {
    /// From the frontend string ("lines" | "circles" | "slots" | "hex").
    pub fn from_key(s: &str) -> (r: Option<Pattern>)
        ensures
            match r {
                Some(p) => pattern_key(p) == s@,
                None => forall|p: Pattern| pattern_key(p) != s@,
            },
    {
        if str_eq(s, "lines") {
            Some(Pattern::Lines)
        } else if str_eq(s, "circles") {
            Some(Pattern::Circles)
        } else if str_eq(s, "slots") {
            Some(Pattern::Slots)
        } else if str_eq(s, "hex") {
            Some(Pattern::Hex)
        } else {
            None
        }
    }
}

/// No two patterns share a key, so `from_key` finds every pattern again from
/// its key.
pub proof fn pattern_keys_identify_patterns(p: Pattern)
    ensures
        forall|q: Pattern| pattern_key(q) == pattern_key(p) ==> q == p,
{
    reveal_strlit("lines");
    reveal_strlit("circles");
    reveal_strlit("slots");
    reveal_strlit("hex");
    assert forall|q: Pattern| pattern_key(q) == pattern_key(p) implies q == p by {
        if q != p {
            match q {
                Pattern::Lines => assert(pattern_key(q)[0] == 'l'),
                Pattern::Circles => assert(pattern_key(q)[0] == 'c'),
                Pattern::Slots => assert(pattern_key(q)[0] == 's'),
                Pattern::Hex => assert(pattern_key(q)[0] == 'h'),
            }
            match p {
                Pattern::Lines => assert(pattern_key(p)[0] == 'l'),
                Pattern::Circles => assert(pattern_key(p)[0] == 'c'),
                Pattern::Slots => assert(pattern_key(p)[0] == 's'),
                Pattern::Hex => assert(pattern_key(p)[0] == 'h'),
            }
        }
    }
}

} // verus!
