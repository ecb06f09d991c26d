//! Correlates a hardware command-stream description with a runtime profiling
//! log and synthesizes a timeline trace from the two.

use vstd::prelude::*;

pub mod catalogue;
pub mod classify;
pub mod convert;
pub mod descriptor;
pub mod finalize;
pub mod palette;
pub mod stream;
pub mod synth;
pub mod table;
pub mod text;
pub mod trace;

verus! {

/// Why a conversion run was abandoned. Every one of these invalidates the
/// whole run: no partial output is produced.
#[derive(Debug, Clone, Copy, PartialEq, Eq, Structural)]
pub enum ConvertError {
    /// The descriptor stream could not be tokenized, or an element or field
    /// in it is not where the structure requires it.
    MalformedDescriptorStream,
    /// A runtime event asks for a command occurrence past the end of its
    /// category's command list.
    CommandStreamExhausted,
    /// A runtime event names a category outside the recognised set.
    UnknownEventCategory,
    /// An end event refers to an id with no start that is still open.
    UnmatchedEndEvent,
    /// A span ends before it begins.
    InvertedDuration,
    /// A runtime event lacks a payload that its category needs.
    MissingEventPayload,
}

} // verus!
