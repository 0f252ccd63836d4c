//! The payload format tag of a shortcut record: how the snippet text is to
//! be placed on the clipboard.

use vstd::prelude::*;

verus! {

/// How a shortcut's `data` field is interpreted when pasted.
#[derive(Clone, Copy, Debug, PartialEq, Eq, Structural)]
pub enum Format {
    Raw,
    Text,
    Html,
}

/// What a format field's text parses to: the two recognized names map to
/// their variants, anything else (case-sensitively) falls back to `Raw`.
pub open spec fn spec_parse_format(s: Seq<char>) -> Format {
    if s == "Text"@ {
        Format::Text
    } else if s == "Html"@ {
        Format::Html
    } else {
        Format::Raw
    }
}

impl Format {
    /// Parse a format field; unrecognized values fall back to `Raw`.
    pub fn from_str(s: &str) -> (r: Format)
        ensures
            r == spec_parse_format(s@),
    {
        if crate::utils::str_eq(s, "Text") {
            Format::Text
        } else if crate::utils::str_eq(s, "Html") {
            Format::Html
        } else {
            Format::Raw
        }
    }
}

impl Default for Format {
    /// The format a record falls back to when its field is absent or
    /// unrecognized.
    fn default() -> (r: Self)
        ensures
            r == Format::Raw,
    {
        Format::Raw
    }
}

} // verus!
