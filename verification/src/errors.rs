use vstd::prelude::*;

verus! {

/// The Global table entry that a Main/Input item needed but that was never
/// set in the descriptor.
#[derive(Debug, Clone, Copy, PartialEq, Eq, Structural)]
pub enum MissingItem {
    ReportSize,
    ReportCount,
    LogicalMinimum,
    LogicalMaximum,
}

/// Errors surfaced by the engine: lexical errors by the tokenizer,
/// structural and state errors by the assembler, extraction errors by the
/// report decoder.
#[derive(Debug, Clone, Copy, PartialEq, Eq, Structural)]
pub enum HidError {
    /// An item header promises more data bytes than remain in the descriptor.
    TruncatedItem,
    /// A long-item header was encountered; only short items are supported.
    UnsupportedLongItem,
    /// Push, Pop or Delimiter reached; the state table stack and delimiters
    /// are not implemented.
    UnsupportedFeature,
    /// A Main/Input item fired without a required Global entry.
    MissingGlobal(MissingItem),
    /// A Local usage required qualification but no global Usage Page was set.
    MissingUsagePage,
    /// A usage slot is partially populated, a Collection has a number of
    /// local usages other than one, or a non-constant Input item carries
    /// neither a usage nor a usage range.
    MalformedUsage,
    /// EndCollection underflow, an item outside every collection, trailing
    /// items after the root collection closed, or no single root at the end
    /// of the stream.
    UnbalancedCollections,
    /// A Main/Input item fired with a Report Size outside 1 to 32 bits;
    /// the decoder reconstructs 32-bit values at most.
    InvalidReportSize,
    /// A Main/Input item fired with a Logical Minimum above the Logical
    /// Maximum.
    InvalidLogicalBounds,
    /// The report buffer is too short for a field's bit range.
    ReportTooShort,
    /// The report's leading Report ID byte matches no field of the tree.
    ReportIdMismatch,
    /// A field's bit range runs past the largest supported bit offset.
    OffsetOverflow,
}

} // verus!
