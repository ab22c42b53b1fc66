//! What a node source hands the UI for the selected node: its styled,
//! sanitized preview, and whether line numbers make sense for it.

use vstd::prelude::*;

use crate::sanitize::SanitizedText;
use crate::style::SpanView;

verus! {

/// A node's preview: the styled text, and whether the line-number gutter
/// must stay off (a listing or a metadata dump, not line-numbered
/// content) whatever the user's line-numbers toggle says.
pub struct Preview {
    pub text: SanitizedText,
    pub override_disable_line_numbers: bool,
}

impl Preview {
    /// A preview of `text` that leaves line numbers to the user's toggle.
    pub fn new(text: SanitizedText) -> (p: Preview)
        ensures
            p.text.view() == text.view(),
            !p.override_disable_line_numbers,
    {
        Preview { text, override_disable_line_numbers: false }
    }

    /// A preview of `text` with the line-number gutter forced off.
    pub fn without_line_numbers(text: SanitizedText) -> (p: Preview)
        ensures
            p.text.view() == text.view(),
            p.override_disable_line_numbers,
    {
        Preview { text, override_disable_line_numbers: true }
    }
}

} // verus!
