//! Wrapping with the width passed by reference.
use vstd::prelude::*;
use crate::words::views;
use crate::wrap::wrapped;

verus! {

/// Wraps `text` to lines of at most `*max_width` characters, as
/// [`crate::wrap_text`] does.
pub fn wrap_text(text: &str, max_width: &usize) -> (lines: Vec<String>)
    ensures
        views(lines@) == wrapped(text@, *max_width as nat),
{
    crate::wrap::wrap_text(text, *max_width)
}

} // verus!
