//! The layout of the converted document, which is the work of the crate
//! `typstyle_core`.

use vstd::prelude::*;

verus! {

/// The text that the formatter lays `text` out as, in lines of at most
/// `width` columns where the markup allows it.
pub uninterp spec fn typst_layout(text: Seq<char>, width: usize) -> Seq<char>;

/// `typstyle_core::format_with_width`. Trusted: the text that comes back
/// depends on the text and the width alone.
#[verifier::external_body]
pub(crate) fn format_with_width(text: &str, width: usize) -> (r: String)
    ensures
        r@ == typst_layout(text@, width),
{
    typstyle_core::format_with_width(text, width)
}

} // verus!
