use vstd::prelude::*;

verus! {

/// Glyphs are 6 columns wide and 5 rows high, with one column between them.
pub const CHARS_WIDTH: usize = 6;

pub const CHARS_HEIGHT: usize = 5;

pub const CHARS_SPACE: usize = 1;

/// A glyph is drawn from text where `.` is an unlit pixel and any other byte
/// a lit one.
pub open spec fn lit(b: u8) -> u8 {
    if b == 46 {
        0
    } else {
        1
    }
}

/// Turns the text of a glyph into its pixels: 0 for each `.`, 1 for anything else.
pub fn format_font(glyph: &[u8]) -> (r: Vec<u8>)
    ensures
        r@.len() == glyph@.len(),
        forall|i: int| 0 <= i < glyph@.len() ==> #[trigger] r@[i] == lit(glyph@[i]),
{
    let mut arr: Vec<u8> = Vec::new();
    let mut i: usize = 0;
    while i < glyph.len()
        invariant
            i <= glyph@.len(),
            arr@.len() == i,
            forall|k: int| 0 <= k < i ==> #[trigger] arr@[k] == lit(glyph@[k]),
        decreases glyph@.len() - i,
    {
        if glyph[i] == 46 {
            arr.push(0);
        } else {
            arr.push(1);
        }
        i += 1;
    }
    arr
}

} // verus!
