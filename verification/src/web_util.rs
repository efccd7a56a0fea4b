//! What the page fetcher decides from a response.
//!
//! The HTTP request itself happens outside the library; the decision of
//! whether a response body is worth parsing is made here, from the
//! content type it came with.

use vstd::prelude::*;

use crate::text::{starts_with_chars, to_char_vec};

verus! {

/// True when the content type names a textual body, the only kind the
/// metadata enricher parses.
pub fn is_text_content_type(ct: &str) -> (r: bool)
    ensures
        r == "text/"@.is_prefix_of(ct@),
{
    let v = to_char_vec(ct);
    let pre = to_char_vec("text/");
    starts_with_chars(&v, &pre)
}

} // verus!
