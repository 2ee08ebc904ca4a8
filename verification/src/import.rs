//! Which reader a vector file goes to, by its extension. Reading SVG and
//! DXF geometry itself is done by the caller.

use vstd::prelude::*;

use crate::assets::{ascii_lower, ascii_lowercase};
use crate::chars::{push_str, str_eq, string_from_chars};

verus! {

/// A vector file that cannot be imported, with the reason.
#[derive(Debug, Clone)]
pub struct ImportError(pub String);

impl ImportError {
    pub fn message(&self) -> (r: &str)
        ensures
            r@ == self.0@,
    {
        self.0.as_str()
    }
}

/// The vector formats that can be imported.
#[derive(Debug, Clone, Copy, PartialEq, Eq, Structural)]
pub enum VectorFormat {
    Svg,
    Dxf,
}

/// The reason given for an extension that is no vector format.
pub open spec fn unsupported_message(ext: Seq<char>) -> Seq<char> {
    "Nicht unterstütztes Format: ."@ + ascii_lower(ext)
}

/// The format of a vector file by its extension (case does not matter):
/// `svg` and `dxf`; other extensions are refused, naming the extension in
/// small letters.
pub fn vector_format(ext: &str) -> (r: Result<VectorFormat, ImportError>)
    ensures
        ascii_lower(ext@) == "svg"@ ==> r == Ok::<VectorFormat, ImportError>(VectorFormat::Svg),
        ascii_lower(ext@) == "dxf"@ ==> r == Ok::<VectorFormat, ImportError>(VectorFormat::Dxf),
        ascii_lower(ext@) != "svg"@ && ascii_lower(ext@) != "dxf"@ ==> r is Err
            && r->Err_0.0@ == unsupported_message(ext@),
{
    let lower = ascii_lowercase(ext);
    proof {
        reveal_strlit("svg");
        reveal_strlit("dxf");
        assert("svg"@[0] != "dxf"@[0]);
    }
    if str_eq(lower.as_str(), "svg") {
        Ok(VectorFormat::Svg)
    } else if str_eq(lower.as_str(), "dxf") {
        Ok(VectorFormat::Dxf)
    } else {
        let mut m: Vec<char> = Vec::new();
        push_str(&mut m, "Nicht unterstütztes Format: .");
        push_str(&mut m, lower.as_str());
        Err(ImportError(string_from_chars(&m)))
    }
}


fn prefixed(prefix: &str, detail: &str) -> (e: ImportError)
    ensures
        e.0@ == prefix@ + detail@,
{
    let mut m: Vec<char> = Vec::new();
    push_str(&mut m, prefix);
    push_str(&mut m, detail);
    ImportError(string_from_chars(&m))
}

/// The SVG could not be read; `detail` is the reader's reason.
pub fn svg_unreadable(detail: &str) -> (e: ImportError)
    ensures
        e.0@ == "SVG unlesbar: "@ + detail@,
{
    prefixed("SVG unlesbar: ", detail)
}

/// The SVG holds no path to cut or engrave.
pub fn svg_without_paths() -> (e: ImportError)
    ensures
        e.0@ == "SVG enthält keine Pfade."@,
{
    ImportError("SVG enthält keine Pfade.".to_string())
}

/// The DXF could not be read; `detail` is the reader's reason.
pub fn dxf_unreadable(detail: &str) -> (e: ImportError)
    ensures
        e.0@ == "DXF unlesbar: "@ + detail@,
{
    prefixed("DXF unlesbar: ", detail)
}

/// The DXF holds none of the entities that are read.
pub fn dxf_without_entities() -> (e: ImportError)
    ensures
        e.0@ == "DXF enthält keine unterstützten Entities (LINE/POLYLINE/CIRCLE/ARC)."@,
{
    ImportError("DXF enthält keine unterstützten Entities (LINE/POLYLINE/CIRCLE/ARC).".to_string())
}

} // verus!
