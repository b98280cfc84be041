//! Text helpers of the diagram renderer.
use vstd::prelude::*;
use crate::text::{chars_to_string, str_to_chars};
use crate::xml::{escape_chars, escape_seq};

verus! {

/// Escapes `&`, `<`, `>` and `"` for use in SVG text and attributes.
pub fn escape_xml(s: &str) -> (r: String)
    ensures
        r@ == escape_seq(s@, false),
{
    let c = str_to_chars(s);
    let e = escape_chars(c.as_slice(), false);
    chars_to_string(e.as_slice())
}

} // verus!
