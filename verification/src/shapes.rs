//! Shape generators: the data-driven catalogue of parametric polygons.
//!
//! A new shape is added as an enum variant plus an entry in the catalogue;
//! the frontend renders the choice generically from `PolyShape::catalog`.

use vstd::prelude::*;

use crate::chars::str_eq;

verus! {

/// The selectable parametric shapes, in gallery order.
#[derive(Debug, Clone, Copy, PartialEq, Eq, Structural)]
pub enum PolyShape {
    Tri,
    Quad,
    Penta,
    Hex,
    Octa,
    Star,
    Sun,
    Gear,
    Heart,
}

/// A catalogue entry for the frontend: stable `id`, display name, icon name.
#[derive(Debug, Clone)]
pub struct ShapeInfo {
    /// Stable identifier, e.g. `"hex"`.
    pub id: String,
    /// Display name (German) for tooltip and label.
    pub label: String,
    /// Name of the icon (identical with `id`).
    pub icon: String,
}

/// All shapes in gallery order.
pub open spec fn all_shapes() -> Seq<PolyShape> {
    seq![
        PolyShape::Tri,
        PolyShape::Quad,
        PolyShape::Penta,
        PolyShape::Hex,
        PolyShape::Octa,
        PolyShape::Star,
        PolyShape::Sun,
        PolyShape::Gear,
        PolyShape::Heart,
    ]
}

/// Stable identifier of a shape.
pub open spec fn shape_id(s: PolyShape) -> Seq<char> {
    match s {
        PolyShape::Tri => "tri"@,
        PolyShape::Quad => "quad"@,
        PolyShape::Penta => "penta"@,
        PolyShape::Hex => "hex"@,
        PolyShape::Octa => "octa"@,
        PolyShape::Star => "star"@,
        PolyShape::Sun => "sun"@,
        PolyShape::Gear => "gear"@,
        PolyShape::Heart => "heart"@,
    }
}

/// German display name of a shape.
pub open spec fn shape_label(s: PolyShape) -> Seq<char> {
    match s {
        PolyShape::Tri => "Dreieck"@,
        PolyShape::Quad => "Raute"@,
        PolyShape::Penta => "Fünfeck"@,
        PolyShape::Hex => "Sechseck"@,
        PolyShape::Octa => "Achteck"@,
        PolyShape::Star => "Stern"@,
        PolyShape::Sun => "Sonne"@,
        PolyShape::Gear => "Zahnrad"@,
        PolyShape::Heart => "Herz"@,
    }
}

impl PolyShape {
    /// All shapes in gallery order.
    pub const ALL: [PolyShape; 9] = [
        PolyShape::Tri,
        PolyShape::Quad,
        PolyShape::Penta,
        PolyShape::Hex,
        PolyShape::Octa,
        PolyShape::Star,
        PolyShape::Sun,
        PolyShape::Gear,
        PolyShape::Heart,
    ];

    /// Stable identifier (the serialised name and the icon name).
    pub fn id(self) -> (r: &'static str)
        ensures
            r@ == shape_id(self),
    {
        match self {
            PolyShape::Tri => "tri",
            PolyShape::Quad => "quad",
            PolyShape::Penta => "penta",
            PolyShape::Hex => "hex",
            PolyShape::Octa => "octa",
            PolyShape::Star => "star",
            PolyShape::Sun => "sun",
            PolyShape::Gear => "gear",
            PolyShape::Heart => "heart",
        }
    }

    /// German display name.
    pub fn label(self) -> (r: &'static str)
        ensures
            r@ == shape_label(self),
    {
        match self {
            PolyShape::Tri => "Dreieck",
            PolyShape::Quad => "Raute",
            PolyShape::Penta => "Fünfeck",
            PolyShape::Hex => "Sechseck",
            PolyShape::Octa => "Achteck",
            PolyShape::Star => "Stern",
            PolyShape::Sun => "Sonne",
            PolyShape::Gear => "Zahnrad",
            PolyShape::Heart => "Herz",
        }
    }

    /// Chooses a shape by its stable identifier (frontend → core).
    pub fn from_id(id: &str) -> (r: Option<PolyShape>)
        ensures
            match r {
                Some(s) => shape_id(s) == id@,
                None => forall|s: PolyShape| shape_id(s) != id@,
            },
    {
        let mut i: usize = 0;
        while i < 9
            invariant
                i <= 9,
                forall|k: int| 0 <= k < i ==> shape_id(#[trigger] all_shapes()[k]) != id@,
            decreases 9 - i,
        {
            let s = Self::ALL[i];
            assert(s == all_shapes()[i as int]);
            if str_eq(s.id(), id) {
                return Some(s);
            }
            i = i + 1;
        }
        proof {
            assert forall|s: PolyShape| shape_id(s) != id@ by {
                match s {
                    PolyShape::Tri => assert(all_shapes()[0] == s),
                    PolyShape::Quad => assert(all_shapes()[1] == s),
                    PolyShape::Penta => assert(all_shapes()[2] == s),
                    PolyShape::Hex => assert(all_shapes()[3] == s),
                    PolyShape::Octa => assert(all_shapes()[4] == s),
                    PolyShape::Star => assert(all_shapes()[5] == s),
                    PolyShape::Sun => assert(all_shapes()[6] == s),
                    PolyShape::Gear => assert(all_shapes()[7] == s),
                    PolyShape::Heart => assert(all_shapes()[8] == s),
                }
            }
        }
        None
    }

    /// Catalogue for the frontend (data-driven gallery), in gallery order.
    pub fn catalog() -> (r: Vec<ShapeInfo>)
        ensures
            r@.len() == 9,
            forall|i: int|
                0 <= i < 9 ==> {
                    &&& (#[trigger] r@[i]).id@ == shape_id(all_shapes()[i])
                    &&& r@[i].label@ == shape_label(all_shapes()[i])
                    &&& r@[i].icon@ == shape_id(all_shapes()[i])
                },
    {
        let mut out: Vec<ShapeInfo> = Vec::new();
        let mut i: usize = 0;
        while i < 9
            invariant
                i <= 9,
                out@.len() == i,
                forall|k: int|
                    0 <= k < i ==> {
                        &&& (#[trigger] out@[k]).id@ == shape_id(all_shapes()[k])
                        &&& out@[k].label@ == shape_label(all_shapes()[k])
                        &&& out@[k].icon@ == shape_id(all_shapes()[k])
                    },
            decreases 9 - i,
        {
            let s = Self::ALL[i];
            assert(s == all_shapes()[i as int]);
            out.push(ShapeInfo { id: s.id().to_owned(), label: s.label().to_owned(), icon: s.id().to_owned() });
            i = i + 1;
        }
        out
    }
}

/// No two shapes share an identifier, so `from_id` finds every shape again
/// from its identifier.
pub proof fn shape_ids_identify_shapes(a: PolyShape, b: PolyShape)
    ensures
        shape_id(a) == shape_id(b) ==> a == b,
{
    reveal_strlit("tri");
    reveal_strlit("quad");
    reveal_strlit("penta");
    reveal_strlit("hex");
    reveal_strlit("octa");
    reveal_strlit("star");
    reveal_strlit("sun");
    reveal_strlit("gear");
    reveal_strlit("heart");
    if shape_id(a) == shape_id(b) && a != b {
        let x = shape_id(a);
        assert(x.len() == shape_id(b).len());
        assert(x[0] == shape_id(b)[0]);
        assert(x[1] == shape_id(b)[1]);
    }
}

} // verus!
