//! Errors of turning text into outlines. Reading the font and laying out the
//! glyph outlines in millimetres is done by the caller.

use vstd::prelude::*;

use crate::chars::{push_str, string_from_chars};

verus! {

/// A font that cannot be used, with the reason.
#[derive(Debug, Clone)]
pub struct TextError(pub String);

impl TextError {
    pub fn message(&self) -> (r: &str)
        ensures
            r@ == self.0@,
    {
        self.0.as_str()
    }
}

/// The font bytes could not be parsed; `detail` is the parser's reason.
pub fn font_unreadable(detail: &str) -> (e: TextError)
    ensures
        e.0@ == "Font unlesbar: "@ + detail@,
{
    let mut m: Vec<char> = Vec::new();
    push_str(&mut m, "Font unlesbar: ");
    push_str(&mut m, detail);
    TextError(string_from_chars(&m))
}

/// The font declares no units per em.
pub fn font_without_units() -> (e: TextError)
    ensures
        e.0@ == "Font ohne units_per_em"@,
{
    TextError("Font ohne units_per_em".to_string())
}

} // verus!
