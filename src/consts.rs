//! The markers of the outline format and the layout it is normalised to.
use vstd::prelude::*;

verus! {

/// Spaces of indentation per nesting level.
pub const INDENT_SHIFT: usize = 4;

/// Widest body line, in characters, before it is wrapped.
pub const MAX_LINE_LENGTH: usize = 119;

pub const PREFIX_BULLET_POINT: &'static str = "* ";

pub const PREFIX_HEADER: &'static str = "=== ";

pub const PREFIX_LIST_CONTINUATION: &'static str = "  ";

pub const PREFIX_PREFORMATTED: &'static str = "| ";

pub const PREFIX_QUOTE: &'static str = "> ";

pub const PREFIX_TODO_ITEM: &'static str = "[";

pub const MARKER_FENCED_FILETYPE_BACKTICK: &'static str = "```";

pub const MARKER_FENCED_FILETYPE_TILDE: &'static str = "~~~";

} // verus!
