use vstd::prelude::*;

verus! {

/// Everything that aborts a rewrite pass.
#[derive(Clone, Debug, PartialEq, Eq)]
pub enum RewriterError {
    /// A tag or attribute name or value is not valid UTF-8.
    NotUtf8,
    /// A byte offset does not fit the edit coordinate type (`u32`).
    RangeOverflow,
    /// A rewrite rule's callback failed; its message.
    Rewrite(String),
    /// The external tool failed; its message.
    ExternalTool(String),
    /// The external tool returned nothing where a result is required.
    ExternalToolEmpty,
}

} // verus!
