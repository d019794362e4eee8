//! The library's error type.
use vstd::prelude::*;

verus! {

/// Why a stage could not be built or could not run.
#[derive(Debug)]
pub enum PipelineError {
    /// Two fixed-case words share one lowercase form: the one already held and
    /// the one being added.
    DuplicateFixedCase { existing: String, added: String },
    /// A pattern of the configuration does not compile.
    BadRegex { pattern: String, reason: regex::Error },
    /// No encoding goes by this label.
    UnknownEncoding { label: String },
    /// The spell checker could not be started or did not answer.
    Oracle { cause: ispell::Error },
    /// A text to spell-check holds a line break; the checker takes one line
    /// at a time.
    LineBreak { text: String },
}

} // verus!
