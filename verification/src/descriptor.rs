//! The fixed-schema XML descriptor that deep-zoom viewers read.

use crate::text::decimal_digits;
use crate::text::push_decimal;
use vstd::prelude::*;
use vstd::string::StringExecFns;

verus! {

/// The descriptor document, byte for byte: the fixed skeleton with the
/// tile size, overlap and full-resolution size spliced in as decimal text.
pub open spec fn spec_descriptor(ts: int, ov: int, width: int, height: int) -> Seq<char> {
    "<?xml version=\"1.0\" encoding=\"UTF-8\"?>\n<Image xmlns=\"http://schemas.microsoft.com/deepzoom/2008\"\n    TileSize=\""@
        + decimal_digits(ts) + "\"\n    Overlap=\""@ + decimal_digits(ov)
        + "\"\n    Format=\"jpg\">\n    <Size Width=\""@ + decimal_digits(width) + "\" Height=\""@
        + decimal_digits(height) + "\"/>\n</Image>"@
}

/// Emit the descriptor for the given configuration and full-resolution
/// source size.
pub fn descriptor_xml(ts: u32, ov: u32, width: u32, height: u32) -> (r: String)
    ensures
        r@ == spec_descriptor(ts as int, ov as int, width as int, height as int),
{
    let mut s = String::new();
    s.append(
        "<?xml version=\"1.0\" encoding=\"UTF-8\"?>\n<Image xmlns=\"http://schemas.microsoft.com/deepzoom/2008\"\n    TileSize=\"",
    );
    push_decimal(&mut s, ts);
    s.append("\"\n    Overlap=\"");
    push_decimal(&mut s, ov);
    s.append("\"\n    Format=\"jpg\">\n    <Size Width=\"");
    push_decimal(&mut s, width);
    s.append("\" Height=\"");
    push_decimal(&mut s, height);
    s.append("\"/>\n</Image>");
    proof {
        assert(s@ =~= spec_descriptor(ts as int, ov as int, width as int, height as int));
    }
    s
}

} // verus!
