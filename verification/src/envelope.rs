//! The JSON envelope: the one document a `--json` invocation writes to stdout.
//!
//! Every `--json` response is an object whose first two keys are `ok` and
//! `schema_version`. On success the verb's payload follows, flattened into the
//! same object; on failure an `error` object holds the stable snake-case error
//! code and a message that names the fix. The schema is versioned and changes
//! only additively.

use vstd::prelude::*;

verus! {

/// The schema version stamped into every envelope.
pub const SCHEMA_VERSION: u32 = 1;

/// How the envelope is rendered: compact for machines, pretty for eyes.
#[derive(Debug, Clone, Copy, PartialEq, Eq, Structural)]
pub enum JsonStyle {
    /// One line, no spaces. Used when stdout is not a terminal.
    Compact,
    /// Indented across several lines. Used when stdout is a terminal.
    Pretty,
}

/// The style for a stdout that is or is not a terminal.
pub open spec fn json_style_for(is_terminal: bool) -> JsonStyle {
    if is_terminal {
        JsonStyle::Pretty
    } else {
        JsonStyle::Compact
    }
}

impl JsonStyle {
    /// Pretty-print only when stdout is a terminal; a pipe gets compact JSON.
    pub fn for_terminal(is_terminal: bool) -> (style: Self)
        ensures
            style == json_style_for(is_terminal),
    {
        if is_terminal {
            JsonStyle::Pretty
        } else {
            JsonStyle::Compact
        }
    }
}

/// The body of `error` in a failed envelope.
#[derive(Debug)]
pub struct ErrorBody {
    /// The stable snake-case code.
    pub code: &'static str,
    /// Human-readable text that names the fix.
    pub message: String,
}

/// The payload of an envelope that carries nothing but the outcome.
#[derive(Debug)]
pub struct NoPayload {}

} // verus!
