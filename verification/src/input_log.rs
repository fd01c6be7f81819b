//! What the log of input events holds.
use vstd::prelude::*;

use crate::text_utils::{debug_text, preview, summarize_text_for_trace};

verus! {

/// A text as the log records it: word for word where that was asked for, else
/// its quoted start.
pub fn text_value(raw: bool, text: &str) -> (value: String)
    ensures
        value@ == if raw {
            text@
        } else {
            debug_text(preview(text@))
        },
{
    if raw {
        text.to_owned()
    } else {
        summarize_text_for_trace(text)
    }
}

} // verus!
